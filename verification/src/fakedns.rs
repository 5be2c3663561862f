//! Fake DNS: a bidirectional mapping between ephemeral IPv4 addresses
//! from a private pool and domain names, used to recover host names
//! from IP-only captures of a virtual interface.

use vstd::prelude::*;

use crate::errors::Error;
use crate::strutil::{contains_seq, str_contains};
use crate::types::str_eq;

verus! {

/// Which domains get a synthesized answer.
#[derive(Clone, Copy, Debug, PartialEq, Eq, Structural)]
pub enum FakeDnsMode {
    /// Synthesize only for domains matching a filter.
    Include,
    /// Synthesize for all domains except those matching a filter.
    Exclude,
}

/// No two bindings share an address or a name.
pub open spec fn unique_bindings(bs: Seq<(u32, String)>) -> bool {
    forall|i: int, j: int|
        0 <= i < j < bs.len() ==> bs[i].0 != bs[j].0 && bs[i].1@ != bs[j].1@
}

/// The entry occurs in the binding list.
pub open spec fn binding_in(bs: Seq<(u32, String)>, e: (u32, String)) -> bool {
    exists|j: int| 0 <= j < bs.len() && bs[j] == e
}

/// The index of the oldest binding a miss may evict: the front, or
/// the second entry when the front holds the reused address and goes
/// anyway.
pub open spec fn oldest_kept_index(bs: Seq<(u32, String)>, ip: u32) -> int {
    if bs.len() > 0 && bs[0].0 == ip {
        1
    } else {
        0
    }
}

/// A miss evicts the oldest remaining binding: after any binding of
/// the reused address is dropped, the list is still at capacity.
pub open spec fn miss_evicts(bs: Seq<(u32, String)>, capacity: int, ip: u32) -> bool {
    (if exists|r: int| 0 <= r < bs.len() && bs[r].0 == ip {
        bs.len() - 1
    } else {
        bs.len() as int
    }) >= capacity
}

/// Removing an entry keeps bindings unique, keeps every remaining
/// entry an entry of the original list, and introduces none.
proof fn lemma_remove_binding(bs: Seq<(u32, String)>, r: int)
    requires
        0 <= r < bs.len(),
        unique_bindings(bs),
    ensures
        unique_bindings(bs.remove(r)),
        forall|i: int| 0 <= i < bs.remove(r).len() ==> binding_in(bs, #[trigger] bs.remove(r)[i]),
{
    bs.remove_ensures(r);
    assert forall|i: int, j: int|
        0 <= i < j < bs.remove(r).len() implies bs.remove(r)[i].0 != bs.remove(r)[j].0
        && bs.remove(r)[i].1@ != bs.remove(r)[j].1@ by {
        let i2 = if i < r {
            i
        } else {
            i + 1
        };
        let j2 = if j < r {
            j
        } else {
            j + 1
        };
        assert(bs.remove(r)[i] == bs[i2]);
        assert(bs.remove(r)[j] == bs[j2]);
    }
    assert forall|i: int| 0 <= i < bs.remove(r).len() implies binding_in(
        bs,
        #[trigger] bs.remove(r)[i],
    ) by {
        let i2 = if i < r {
            i
        } else {
            i + 1
        };
        assert(bs.remove(r)[i] == bs[i2]);
    }
}

/// Synthesizes DNS answers from an ephemeral address pool and keeps
/// the address-to-name bindings in a bounded least-recently-used list:
/// the front of `bindings` is the oldest entry, the back the youngest.
#[derive(Debug)]
pub struct FakeDns {
    pub mode: FakeDnsMode,
    pub filters: Vec<String>,
    pub bindings: Vec<(u32, String)>,
    pub capacity: usize,
    pub pool_base: u32,
    pub pool_size: u32,
    pub cursor: u32,
}

impl FakeDns {
    /// The address lies in the pool.
    pub open spec fn in_pool(self, ip: u32) -> bool {
        self.pool_base <= ip < self.pool_base + self.pool_size
    }

    /// The structural invariant: a non-empty pool that fits in the
    /// address space, a cursor inside it, a bound on the binding
    /// count, unique addresses and names, and every bound address
    /// taken from the pool.
    pub open spec fn wf(self) -> bool {
        &&& self.capacity >= 1
        &&& self.pool_size >= 1
        &&& self.pool_base + self.pool_size <= u32::MAX
        &&& self.cursor < self.pool_size
        &&& self.bindings@.len() <= self.capacity
        &&& unique_bindings(self.bindings@)
        &&& forall|i: int| 0 <= i < self.bindings@.len() ==> self.in_pool(
            #[trigger] self.bindings@[i].0,
        )
    }

    /// The name bound to an address, when one is; never consults or
    /// touches recency.
    pub open spec fn reverse_spec(self, ip: u32) -> Option<Seq<char>> {
        if exists|i: int| 0 <= i < self.bindings@.len() && self.bindings@[i].0 == ip {
            Some(
                self.bindings@[choose|i: int|
                    0 <= i < self.bindings@.len() && self.bindings@[i].0 == ip].1@,
            )
        } else {
            None
        }
    }

    /// The name is bound to some address.
    pub open spec fn domain_bound(self, d: Seq<char>) -> bool {
        exists|i: int| 0 <= i < self.bindings@.len() && self.bindings@[i].1@ == d
    }

    /// The address the name is bound to; meaningful when it is bound.
    pub open spec fn ip_of_domain(self, d: Seq<char>) -> u32 {
        self.bindings@[choose|i: int|
            0 <= i < self.bindings@.len() && self.bindings@[i].1@ == d].0
    }

    /// A domain matches a filter when it contains it.
    pub open spec fn matches_filters(self, d: Seq<char>) -> bool {
        exists|i: int| 0 <= i < self.filters@.len() && contains_seq(d, self.filters@[i]@)
    }

    /// Whether a query for the domain gets a synthesized answer:
    /// in included mode exactly the domains matching a filter, in
    /// excluded mode exactly the others.
    pub open spec fn accept_spec(self, d: Seq<char>) -> bool {
        match self.mode {
            FakeDnsMode::Include => self.matches_filters(d),
            FakeDnsMode::Exclude => !self.matches_filters(d),
        }
    }

    pub fn new(mode: FakeDnsMode, capacity: usize, pool_base: u32, pool_size: u32) -> (r: FakeDns)
        requires
            capacity >= 1,
            pool_size >= 1,
            pool_base + pool_size <= u32::MAX,
        ensures
            r.wf(),
            r.mode == mode,
            r.filters@.len() == 0,
            r.bindings@.len() == 0,
            r.capacity == capacity,
            r.pool_base == pool_base,
            r.pool_size == pool_size,
    {
        FakeDns {
            mode,
            filters: Vec::new(),
            bindings: Vec::new(),
            capacity,
            pool_base,
            pool_size,
            cursor: 0,
        }
    }

    /// Adds a domain filter for the included or excluded policy.
    pub fn add_filter(&mut self, filter: String)
        requires
            old(self).wf(),
        ensures
            final(self).wf(),
            final(self).filters@ == old(self).filters@.push(filter),
            final(self).bindings@ == old(self).bindings@,
            final(self).mode == old(self).mode,
    {
        self.filters.push(filter);
    }

    /// Returns true exactly when a query for the domain is to be
    /// answered with a synthesized address.
    pub fn accept(&self, domain: &String) -> (r: bool)
        ensures
            r == self.accept_spec(domain@),
    {
        let mut i: usize = 0;
        let mut hit = false;
        while i < self.filters.len()
            invariant
                i <= self.filters@.len(),
                hit ==> self.matches_filters(domain@),
                !hit ==> forall|j: int|
                    0 <= j < i ==> !contains_seq(domain@, #[trigger] self.filters@[j]@),
            decreases self.filters@.len() - i,
        {
            if str_contains(domain.as_str(), self.filters[i].as_str()) {
                hit = true;
            }
            i += 1;
        }
        match self.mode {
            FakeDnsMode::Include => hit,
            FakeDnsMode::Exclude => !hit,
        }
    }

    /// The address is one the pool can have synthesized.
    pub fn is_fake_ip(&self, ip: u32) -> (r: bool)
        requires
            self.wf(),
        ensures
            r == self.in_pool(ip),
    {
        self.pool_base <= ip && (ip - self.pool_base) < self.pool_size
    }

    /// The name bound to the address. Reverse lookup never mutates the
    /// recency order: it takes the map by shared reference.
    pub fn reverse(&self, ip: u32) -> (r: Option<&String>)
        requires
            self.wf(),
        ensures
            match r {
                Some(d) => self.reverse_spec(ip) == Some(d@),
                None => self.reverse_spec(ip) is None,
            },
    {
        let mut i: usize = 0;
        while i < self.bindings.len()
            invariant
                i <= self.bindings@.len(),
                self.wf(),
                forall|j: int| 0 <= j < i ==> self.bindings@[j].0 != ip,
            decreases self.bindings@.len() - i,
        {
            if self.bindings[i].0 == ip {
                proof {
                    let w = choose|k: int|
                        0 <= k < self.bindings@.len() && self.bindings@[k].0 == ip;
                    if w != i as int {
                        if w < i as int {
                            assert(self.bindings@[w].0 != self.bindings@[i as int].0);
                        } else {
                            assert(self.bindings@[i as int].0 != self.bindings@[w].0);
                        }
                    }
                }
                return Some(&self.bindings[i].1);
            }
            i += 1;
        }
        None
    }

    /// Answers a query: the address already bound to the name, which
    /// becomes the youngest binding again, or the next free address of
    /// the cyclic pool, evicting the least recently used binding when
    /// the list is full. The returned address reverse-maps to exactly
    /// the queried name.
    pub fn query(&mut self, domain: &String) -> (ip: u32)
        requires
            old(self).wf(),
        ensures
            final(self).wf(),
            final(self).mode == old(self).mode,
            final(self).filters@ == old(self).filters@,
            final(self).capacity == old(self).capacity,
            final(self).pool_base == old(self).pool_base,
            final(self).pool_size == old(self).pool_size,
            final(self).in_pool(ip),
            final(self).reverse_spec(ip) == Some(domain@),
            old(self).domain_bound(domain@) ==> ip == old(self).ip_of_domain(domain@),
            // a repeated query keeps every binding; only recency moves
            old(self).domain_bound(domain@) ==> forall|i: int|
                0 <= i < old(self).bindings@.len() ==> #[trigger] binding_in(
                    final(self).bindings@,
                    old(self).bindings@[i],
                ),
            // a fresh allocation loses at most the reused address's
            // binding and, at capacity, the oldest remaining one
            !old(self).domain_bound(domain@) ==> forall|i: int|
                0 <= i < old(self).bindings@.len() && old(self).bindings@[i].0 != ip && !(
                miss_evicts(old(self).bindings@, old(self).capacity as int, ip) && i
                    == oldest_kept_index(old(self).bindings@, ip)) ==> #[trigger] binding_in(
                    final(self).bindings@,
                    old(self).bindings@[i],
                ),
    {
        let mut found: Option<usize> = None;
        let mut i: usize = 0;
        while i < self.bindings.len() && found.is_none()
            invariant
                i <= self.bindings@.len(),
                match found {
                    Some(j) => 0 <= j < self.bindings@.len() && self.bindings@[j as int].1@
                        == domain@,
                    None => forall|jj: int| 0 <= jj < i ==> self.bindings@[jj].1@ != domain@,
                },
            decreases self.bindings@.len() - i,
        {
            if str_eq(&self.bindings[i].1, domain) {
                found = Some(i);
            }
            i += 1;
        }
        match found {
            Some(j) => {
                proof {
                    let w = choose|k: int|
                        0 <= k < self.bindings@.len() && self.bindings@[k].1@ == domain@;
                    if w != j as int {
                        if w < j as int {
                            assert(self.bindings@[w].1@ != self.bindings@[j as int].1@);
                        } else {
                            assert(self.bindings@[j as int].1@ != self.bindings@[w].1@);
                        }
                    }
                    assert(old(self).ip_of_domain(domain@) == self.bindings@[j as int].0);
                    lemma_remove_binding(self.bindings@, j as int);
                }
                let entry = self.bindings.remove(j);
                let ip = entry.0;
                let ghost mid = self.bindings@;
                self.bindings.push(entry);
                proof {
                    assert forall|a: int, b: int|
                        0 <= a < b < self.bindings@.len() implies self.bindings@[a].0
                        != self.bindings@[b].0 && self.bindings@[a].1@
                        != self.bindings@[b].1@ by {
                        if b < mid.len() {
                            assert(self.bindings@[a] == mid[a]);
                            assert(self.bindings@[b] == mid[b]);
                        } else {
                            assert(self.bindings@[a] == mid[a]);
                            assert(binding_in(old(self).bindings@, mid[a]));
                            let orig = choose|x: int|
                                0 <= x < old(self).bindings@.len() && old(self).bindings@[x]
                                    == mid[a];
                            assert(orig != j as int);
                            if orig < j as int {
                                assert(old(self).bindings@[orig].0 != old(self).bindings@[j as int].0);
                                assert(old(self).bindings@[orig].1@ != old(
                                    self,
                                ).bindings@[j as int].1@);
                            } else {
                                assert(old(self).bindings@[j as int].0 != old(
                                    self,
                                ).bindings@[orig].0);
                                assert(old(self).bindings@[j as int].1@ != old(
                                    self,
                                ).bindings@[orig].1@);
                            }
                        }
                    }
                    let last = self.bindings@.len() - 1;
                    assert(self.bindings@[last].0 == ip && self.bindings@[last].1@ == domain@);
                    let w2 = choose|k: int|
                        0 <= k < self.bindings@.len() && self.bindings@[k].0 == ip;
                    if w2 != last {
                        assert(self.bindings@[w2].0 != self.bindings@[last].0 || self.bindings@[last].0
                            != self.bindings@[w2].0);
                    }
                    assert forall|k: int| 0 <= k < self.bindings@.len() implies self.in_pool(
                        #[trigger] self.bindings@[k].0,
                    ) by {
                        if k < mid.len() {
                            assert(binding_in(old(self).bindings@, mid[k]));
                            let orig = choose|x: int|
                                0 <= x < old(self).bindings@.len() && old(self).bindings@[x]
                                    == mid[k];
                            assert(old(self).in_pool(old(self).bindings@[orig].0));
                        } else {
                            assert(old(self).in_pool(old(self).bindings@[j as int].0));
                        }
                    }
                    assert forall|i: int|
                        0 <= i < old(self).bindings@.len() implies #[trigger] binding_in(
                        self.bindings@,
                        old(self).bindings@[i],
                    ) by {
                        old(self).bindings@.remove_ensures(j as int);
                        if i == j as int {
                            assert(self.bindings@[self.bindings@.len() - 1] == old(
                                self,
                            ).bindings@[j as int]);
                        } else {
                            let i2 = if i < j as int {
                                i
                            } else {
                                i - 1
                            };
                            assert(mid[i2] == old(self).bindings@[i]);
                            assert(self.bindings@[i2] == mid[i2]);
                        }
                    }
                }
                ip
            },
            None => {
                let ip = self.pool_base + self.cursor;
                self.cursor = if self.cursor + 1 >= self.pool_size {
                    0
                } else {
                    self.cursor + 1
                };
                let mut same_ip: Option<usize> = None;
                let mut k: usize = 0;
                while k < self.bindings.len() && same_ip.is_none()
                    invariant
                        k <= self.bindings@.len(),
                        match same_ip {
                            Some(r) => 0 <= r < self.bindings@.len() && self.bindings@[r as int].0
                                == ip,
                            None => forall|jj: int| 0 <= jj < k ==> self.bindings@[jj].0 != ip,
                        },
                    decreases self.bindings@.len() - k,
                {
                    if self.bindings[k].0 == ip {
                        same_ip = Some(k);
                    }
                    k += 1;
                }
                let ghost bs0 = self.bindings@;
                if let Some(r) = same_ip {
                    proof {
                        lemma_remove_binding(self.bindings@, r as int);
                        assert forall|j: int|
                            0 <= j < bs0.remove(r as int).len() implies #[trigger] bs0.remove(
                            r as int,
                        )[j].0 != ip by {
                            assert(binding_in(bs0, bs0.remove(r as int)[j]));
                            let orig = choose|x: int|
                                0 <= x < bs0.len() && bs0[x] == bs0.remove(r as int)[j];
                            bs0.remove_ensures(r as int);
                            if orig != r as int {
                                if orig < r as int {
                                    assert(bs0[orig].0 != bs0[r as int].0);
                                } else {
                                    assert(bs0[r as int].0 != bs0[orig].0);
                                }
                            } else {
                                let y = if j < r as int {
                                    j
                                } else {
                                    j + 1
                                };
                                assert(bs0.remove(r as int)[j] == bs0[y]);
                                assert(y != r as int);
                                if y < r as int {
                                    assert(bs0[y].0 != bs0[r as int].0);
                                } else {
                                    assert(bs0[r as int].0 != bs0[y].0);
                                }
                            }
                        }
                    }
                    let _ = self.bindings.remove(r);
                }
                let ghost bs1 = self.bindings@;
                proof {
                    assert(unique_bindings(bs1));
                    assert forall|j: int| 0 <= j < bs1.len() implies #[trigger] bs1[j].1@ != domain@
                        && bs1[j].0 != ip && old(self).in_pool(bs1[j].0) by {
                        if same_ip is Some {
                        } else {
                            assert(bs1 == bs0);
                        }
                        assert(binding_in(bs0, bs1[j]) || bs1 == bs0);
                        if bs1 == bs0 {
                            assert(old(self).in_pool(bs0[j].0));
                        } else {
                            let orig = choose|x: int| 0 <= x < bs0.len() && bs0[x] == bs1[j];
                            assert(bs0[orig].1@ != domain@);
                            assert(old(self).in_pool(bs0[orig].0));
                        }
                    }
                }
                if self.bindings.len() >= self.capacity {
                    proof {
                        lemma_remove_binding(self.bindings@, 0);
                        assert forall|j: int|
                            0 <= j < bs1.remove(0).len() implies #[trigger] bs1.remove(0)[j].1@
                            != domain@ && bs1.remove(0)[j].0 != ip && old(self).in_pool(
                            bs1.remove(0)[j].0,
                        ) by {
                            assert(binding_in(bs1, bs1.remove(0)[j]));
                            let orig = choose|x: int|
                                0 <= x < bs1.len() && bs1[x] == bs1.remove(0)[j];
                        }
                    }
                    let _ = self.bindings.remove(0);
                }
                let ghost bs2 = self.bindings@;
                self.bindings.push((ip, domain.clone()));
                proof {
                    assert(unique_bindings(bs2));
                    assert(forall|j: int|
                        0 <= j < bs2.len() ==> #[trigger] bs2[j].1@ != domain@ && bs2[j].0 != ip
                            && old(self).in_pool(bs2[j].0));
                    assert forall|a: int, b: int|
                        0 <= a < b < self.bindings@.len() implies self.bindings@[a].0
                        != self.bindings@[b].0 && self.bindings@[a].1@
                        != self.bindings@[b].1@ by {
                        if b < bs2.len() {
                            assert(self.bindings@[a] == bs2[a]);
                            assert(self.bindings@[b] == bs2[b]);
                        } else {
                            assert(self.bindings@[a] == bs2[a]);
                        }
                    }
                    let last = self.bindings@.len() - 1;
                    assert(self.bindings@[last].0 == ip && self.bindings@[last].1@ == domain@);
                    let w2 = choose|x: int|
                        0 <= x < self.bindings@.len() && self.bindings@[x].0 == ip;
                    if w2 != last {
                        assert(self.bindings@[w2] == bs2[w2]);
                    }
                    assert forall|x: int| 0 <= x < self.bindings@.len() implies self.in_pool(
                        #[trigger] self.bindings@[x].0,
                    ) by {
                        if x < bs2.len() {
                            assert(self.bindings@[x] == bs2[x]);
                        }
                    }
                    let ghost cap = self.capacity as int;
                    assert(miss_evicts(bs0, cap, ip) <==> bs1.len() >= cap) by {
                        match same_ip {
                            Some(r) => {
                                assert(bs0[r as int].0 == ip);
                                bs0.remove_ensures(r as int);
                            },
                            None => {
                                assert(bs1 == bs0);
                                assert(!exists|x: int| 0 <= x < bs0.len() && bs0[x].0 == ip);
                            },
                        }
                    }
                    assert forall|i: int|
                        0 <= i < bs0.len() && bs0[i].0 != ip && !(miss_evicts(bs0, cap, ip) && i
                            == oldest_kept_index(bs0, ip)) implies #[trigger] binding_in(
                        self.bindings@,
                        bs0[i],
                    ) by {
                        let i1: int = match same_ip {
                            Some(r) => {
                                bs0.remove_ensures(r as int);
                                if i < r as int {
                                    i
                                } else {
                                    i - 1
                                }
                            },
                            None => i,
                        };
                        assert(bs1[i1] == bs0[i]);
                        if bs1.len() >= cap {
                            // the oldest remaining binding was evicted;
                            // the hypothesis excludes exactly it
                            match same_ip {
                                Some(r) => {
                                    if bs0[0].0 == ip {
                                        assert(r as int == 0);
                                        assert(oldest_kept_index(bs0, ip) == 1);
                                        assert(i != 1);
                                        assert(i1 >= 1);
                                    } else {
                                        assert(r as int != 0);
                                        assert(oldest_kept_index(bs0, ip) == 0);
                                        assert(i != 0);
                                        assert(i1 >= 1);
                                    }
                                },
                                None => {
                                    assert(oldest_kept_index(bs0, ip) == 0);
                                    assert(i1 >= 1);
                                },
                            }
                            bs1.remove_ensures(0);
                            assert(bs2[i1 - 1] == bs1[i1]);
                            assert(self.bindings@[i1 - 1] == bs2[i1 - 1]);
                        } else {
                            assert(bs2 == bs1);
                            assert(self.bindings@[i1] == bs2[i1]);
                        }
                    }
                }
                ip
            },
        }
    }
}

/// A 16-bit value in network byte order.
pub open spec fn be16(x: u16) -> Seq<u8> {
    seq![(x / 256) as u8, (x % 256) as u8]
}

/// A 32-bit value in network byte order.
pub open spec fn be32(x: u32) -> Seq<u8> {
    seq![
        ((x / 0x1000000) % 256) as u8,
        ((x / 0x10000) % 256) as u8,
        ((x / 256) % 256) as u8,
        (x % 256) as u8,
    ]
}

/// The minimal answer to a DNS A query: the query's identifier, the
/// standard response flags, one question and one answer, the echoed
/// question section, and an A record for the synthesized address that
/// names the question by a compression pointer and carries a
/// time-to-live of one second.
pub open spec fn dns_answer_bytes(id: u16, question: Seq<u8>, ip: u32) -> Seq<u8> {
    be16(id) + seq![0x81u8, 0x80u8] + be16(1) + be16(1) + be16(0) + be16(0) + question + seq![
        0xc0u8,
        0x0cu8,
    ] + be16(1) + be16(1) + be32(1) + be16(4) + be32(ip)
}

/// Builds the wire form of a synthesized answer: `id` and `question`
/// are taken from the query (the question section raw, name, type and
/// class), `ip` is the address allocated for it.
pub fn build_dns_answer(id: u16, question: &Vec<u8>, ip: u32) -> (out: Vec<u8>)
    ensures
        out@ == dns_answer_bytes(id, question@, ip),
{
    let mut out: Vec<u8> = Vec::new();
    out.push((id / 256) as u8);
    out.push((id % 256) as u8);
    out.push(0x81);
    out.push(0x80);
    out.push(0x00);
    out.push(0x01);
    out.push(0x00);
    out.push(0x01);
    out.push(0x00);
    out.push(0x00);
    out.push(0x00);
    out.push(0x00);
    let ghost header = out@;
    let mut i: usize = 0;
    let n = question.len();
    while i < n
        invariant
            i <= n,
            n == question@.len(),
            out@ =~= header + question@.subrange(0, i as int),
        decreases n - i,
    {
        out.push(question[i]);
        i += 1;
    }
    out.push(0xc0);
    out.push(0x0c);
    out.push(0x00);
    out.push(0x01);
    out.push(0x00);
    out.push(0x01);
    out.push(0x00);
    out.push(0x00);
    out.push(0x00);
    out.push(0x01);
    out.push(0x00);
    out.push(0x04);
    out.push(((ip / 0x1000000) % 256) as u8);
    out.push(((ip / 0x10000) % 256) as u8);
    out.push(((ip / 256) % 256) as u8);
    out.push((ip % 256) as u8);
    proof {
        assert(out@ =~= dns_answer_bytes(id, question@, ip));
    }
    out
}

/// Fake-DNS round trip: for as long as an address's binding stays in
/// the least-recently-used list, reverse lookup recovers exactly the
/// name bound to it.
pub proof fn lemma_fake_dns_round_trip(fd: FakeDns, ip: u32, i: int)
    requires
        fd.wf(),
        0 <= i < fd.bindings@.len(),
        fd.bindings@[i].0 == ip,
    ensures
        fd.reverse_spec(ip) == Some(fd.bindings@[i].1@),
{
    let w = choose|k: int| 0 <= k < fd.bindings@.len() && fd.bindings@[k].0 == ip;
    if w != i {
        if w < i {
            assert(fd.bindings@[w].0 != fd.bindings@[i].0);
        } else {
            assert(fd.bindings@[i].0 != fd.bindings@[w].0);
        }
    }
}

/// Chooses the fake-DNS mode from the two configured domain lists:
/// with an empty included list the policy is exclusion over the excluded
/// list, with an empty excluded list inclusion over the included list,
/// and with both lists non-empty the configuration is rejected.
pub fn fake_dns_mode_from_lists(excluded: Vec<String>, included: Vec<String>) -> (r: Result<
    (FakeDnsMode, Vec<String>),
    Error,
>)
    ensures
        match r {
            Ok((mode, filters)) => (included@.len() == 0 ==> mode == FakeDnsMode::Exclude
                && filters@ == excluded@) && (included@.len() > 0 && excluded@.len() == 0 ==> mode
                == FakeDnsMode::Include && filters@ == included@),
            Err(e) => e is Config && included@.len() > 0 && excluded@.len() > 0,
        },
        r is Err <==> included@.len() > 0 && excluded@.len() > 0,
{
    if included.len() == 0 {
        Ok((FakeDnsMode::Exclude, excluded))
    } else if excluded.len() == 0 {
        Ok((FakeDnsMode::Include, included))
    } else {
        Err(Error::Config("fake DNS runs in either included mode or excluded mode".to_owned()))
    }
}

} // verus!
