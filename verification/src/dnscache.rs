//! The DNS client's cache: resolved addresses per host and query type
//! with an expiry instant, hosts-file overrides, and the address
//! family preference applied to answers. The network resolver runs
//! outside; it feeds answers in and reads cached ones back.

use vstd::prelude::*;

use crate::types::{str_eq, IpAddress};

verus! {

/// The query type of a cache entry.
#[derive(Clone, Copy, Debug, PartialEq, Eq, Structural)]
pub enum QueryType {
    A,
    Aaaa,
}

/// One cache entry: `(hostname, query type)` mapped to the resolved
/// addresses and the instant they expire.
#[derive(Debug)]
pub struct DnsCacheEntry {
    pub host: String,
    pub qtype: QueryType,
    pub ips: Vec<IpAddress>,
    pub expiry: u64,
}

/// The entry occurs in the cache.
pub open spec fn dns_entry_in(es: Seq<DnsCacheEntry>, e: DnsCacheEntry) -> bool {
    exists|j: int| 0 <= j < es.len() && es[j] == e
}

/// No two entries share a `(hostname, query type)` key.
pub open spec fn unique_dns_keys(es: Seq<DnsCacheEntry>) -> bool {
    forall|i: int, j: int|
        0 <= i < j < es.len() ==> !(es[i].host@ == es[j].host@ && es[i].qtype == es[j].qtype)
}

/// Caches resolved addresses, with hosts-file overrides consulted
/// first. Negative answers are not cached.
#[derive(Debug)]
pub struct DnsCache {
    pub entries: Vec<DnsCacheEntry>,
    pub hosts: Vec<(String, Vec<IpAddress>)>,
}

impl DnsCache {
    pub open spec fn wf(self) -> bool {
        &&& unique_dns_keys(self.entries@)
        &&& forall|i: int, j: int|
            0 <= i < j < self.hosts@.len() ==> self.hosts@[i].0@ != self.hosts@[j].0@
    }

    /// A hosts-file override exists for the name.
    pub open spec fn has_override(self, host: Seq<char>) -> bool {
        exists|i: int| 0 <= i < self.hosts@.len() && self.hosts@[i].0@ == host
    }

    /// The overridden addresses of a name; meaningful when an override
    /// exists.
    pub open spec fn override_of(self, host: Seq<char>) -> Seq<IpAddress> {
        self.hosts@[choose|i: int| 0 <= i < self.hosts@.len() && self.hosts@[i].0@ == host].1@
    }

    /// A cache entry for the key exists.
    pub open spec fn has_entry(self, host: Seq<char>, qtype: QueryType) -> bool {
        exists|i: int|
            0 <= i < self.entries@.len() && self.entries@[i].host@ == host
                && self.entries@[i].qtype == qtype
    }

    /// The cache entry for the key; meaningful when one exists.
    pub open spec fn entry_of(self, host: Seq<char>, qtype: QueryType) -> DnsCacheEntry {
        self.entries@[choose|i: int|
            0 <= i < self.entries@.len() && self.entries@[i].host@ == host
                && self.entries@[i].qtype == qtype]
    }

    pub fn new() -> (c: DnsCache)
        ensures
            c.wf(),
            c.entries@.len() == 0,
            c.hosts@.len() == 0,
    {
        DnsCache { entries: Vec::new(), hosts: Vec::new() }
    }

    /// Adds a hosts-file override; the name must not be overridden
    /// yet.
    pub fn add_host_override(&mut self, host: String, ips: Vec<IpAddress>)
        requires
            old(self).wf(),
            !old(self).has_override(host@),
        ensures
            final(self).wf(),
            final(self).hosts@ == old(self).hosts@.push((host, ips)),
            final(self).entries@ == old(self).entries@,
    {
        let ghost pre = self.hosts@;
        self.hosts.push((host, ips));
        proof {
            assert forall|i: int, j: int|
                0 <= i < j < self.hosts@.len() implies self.hosts@[i].0@
                != self.hosts@[j].0@ by {
                if j < pre.len() {
                    assert(self.hosts@[i] == pre[i]);
                    assert(self.hosts@[j] == pre[j]);
                } else {
                    assert(self.hosts@[i] == pre[i]);
                }
            }
        }
    }

    /// Looks a name up at instant `now`: the hosts-file override when
    /// one exists, else the cached answer while it has not expired,
    /// else nothing and the resolver must be asked.
    pub fn get(&self, host: &String, qtype: QueryType, now: u64) -> (r: Option<&Vec<IpAddress>>)
        requires
            self.wf(),
        ensures
            match r {
                Some(ips) => if self.has_override(host@) {
                    ips@ == self.override_of(host@)
                } else {
                    &&& self.has_entry(host@, qtype)
                    &&& self.entry_of(host@, qtype).expiry >= now
                    &&& ips@ == self.entry_of(host@, qtype).ips@
                },
                None => !self.has_override(host@) && (self.has_entry(host@, qtype) ==> self.entry_of(
                    host@,
                    qtype,
                ).expiry < now),
            },
    {
        let mut i: usize = 0;
        let n = self.hosts.len();
        while i < n
            invariant
                i <= n,
                n == self.hosts@.len(),
                self.wf(),
                forall|j: int| 0 <= j < i ==> self.hosts@[j].0@ != host@,
            decreases n - i,
        {
            if str_eq(&self.hosts[i].0, host) {
                proof {
                    let w = choose|k: int|
                        0 <= k < self.hosts@.len() && self.hosts@[k].0@ == host@;
                    if w != i as int {
                        if w < i as int {
                            assert(self.hosts@[w].0@ != self.hosts@[i as int].0@);
                        } else {
                            assert(self.hosts@[i as int].0@ != self.hosts@[w].0@);
                        }
                    }
                }
                return Some(&self.hosts[i].1);
            }
            i += 1;
        }
        let mut k: usize = 0;
        let m = self.entries.len();
        while k < m
            invariant
                k <= m,
                m == self.entries@.len(),
                self.wf(),
                !self.has_override(host@),
                forall|j: int|
                    0 <= j < k ==> !(self.entries@[j].host@ == host@ && self.entries@[j].qtype
                        == qtype),
            decreases m - k,
        {
            if str_eq(&self.entries[k].host, host) && self.entries[k].qtype == qtype {
                proof {
                    let w = choose|x: int|
                        0 <= x < self.entries@.len() && self.entries@[x].host@ == host@
                            && self.entries@[x].qtype == qtype;
                    if w != k as int {
                        if w < k as int {
                            assert(!(self.entries@[w].host@ == self.entries@[k as int].host@
                                && self.entries@[w].qtype == self.entries@[k as int].qtype));
                        } else {
                            assert(!(self.entries@[k as int].host@ == self.entries@[w].host@
                                && self.entries@[k as int].qtype == self.entries@[w].qtype));
                        }
                    }
                }
                if self.entries[k].expiry >= now {
                    return Some(&self.entries[k].ips);
                } else {
                    return None;
                }
            }
            k += 1;
        }
        None
    }

    /// Records a resolved answer, replacing any earlier entry for the
    /// same key.
    #[verifier::rlimit(30)]
    pub fn put(&mut self, host: String, qtype: QueryType, ips: Vec<IpAddress>, expiry: u64)
        requires
            old(self).wf(),
        ensures
            final(self).wf(),
            final(self).hosts@ == old(self).hosts@,
            final(self).has_entry(host@, qtype),
            final(self).entry_of(host@, qtype).host@ == host@,
            final(self).entry_of(host@, qtype).qtype == qtype,
            final(self).entry_of(host@, qtype).ips@ == ips@,
            final(self).entry_of(host@, qtype).expiry == expiry,
            // entries of other keys are untouched
            forall|i: int|
                0 <= i < old(self).entries@.len() && !(old(self).entries@[i].host@ == host@
                    && old(self).entries@[i].qtype == qtype) ==> #[trigger] dns_entry_in(
                    final(self).entries@,
                    old(self).entries@[i],
                ),
    {
        let ghost pre = self.entries@;
        let mut i: usize = 0;
        let n = self.entries.len();
        let mut at: Option<usize> = None;
        while i < n && at.is_none()
            invariant
                i <= n,
                n == self.entries@.len(),
                self.entries@ == pre,
                pre == old(self).entries@,
                self.hosts@ == old(self).hosts@,
                unique_dns_keys(pre),
                match at {
                    Some(p) => 0 <= p < pre.len() && pre[p as int].host@ == host@
                        && pre[p as int].qtype == qtype,
                    None => forall|j: int|
                        0 <= j < i ==> !(pre[j].host@ == host@ && pre[j].qtype == qtype),
                },
            decreases n - i,
        {
            if str_eq(&self.entries[i].host, &host) && self.entries[i].qtype == qtype {
                at = Some(i);
            }
            i += 1;
        }
        let entry = DnsCacheEntry { host, qtype, ips, expiry };
        let ghost replaced_at: Option<int> = match at {
            Some(p) => Some(p as int),
            None => None,
        };
        match at {
            Some(p) => {
                self.entries.set(p, entry);
                proof {
                    assert forall|a: int, b: int|
                        0 <= a < b < self.entries@.len() implies !(self.entries@[a].host@
                        == self.entries@[b].host@ && self.entries@[a].qtype
                        == self.entries@[b].qtype) by {
                        assert(!(pre[a].host@ == pre[b].host@ && pre[a].qtype == pre[b].qtype));
                        if a != p as int {
                            assert(self.entries@[a] == pre[a]);
                        }
                        if b != p as int {
                            assert(self.entries@[b] == pre[b]);
                        }
                        assert(self.entries@[p as int].host@ == pre[p as int].host@
                            && self.entries@[p as int].qtype == pre[p as int].qtype);
                    }
                    assert(self.entries@[p as int] == entry);
                    assert(self.entries@[p as int].host@ == host@ && self.entries@[p as int].qtype
                        == qtype);
                    let w = choose|x: int|
                        0 <= x < self.entries@.len() && self.entries@[x].host@ == host@
                            && self.entries@[x].qtype == qtype;
                    if w != p as int {
                        if w < p as int {
                            assert(!(self.entries@[w].host@ == self.entries@[p as int].host@
                                && self.entries@[w].qtype == self.entries@[p as int].qtype));
                        } else {
                            assert(!(self.entries@[p as int].host@ == self.entries@[w].host@
                                && self.entries@[p as int].qtype == self.entries@[w].qtype));
                        }
                    }
                }
            },
            None => {
                self.entries.push(entry);
                proof {
                    let last = self.entries@.len() - 1;
                    assert forall|a: int, b: int|
                        0 <= a < b < self.entries@.len() implies !(self.entries@[a].host@
                        == self.entries@[b].host@ && self.entries@[a].qtype
                        == self.entries@[b].qtype) by {
                        if b < last {
                            assert(self.entries@[a] == pre[a]);
                            assert(self.entries@[b] == pre[b]);
                            assert(!(pre[a].host@ == pre[b].host@ && pre[a].qtype == pre[b].qtype));
                        } else {
                            assert(self.entries@[a] == pre[a]);
                        }
                    }
                    assert(self.entries@[last] == entry);
                    assert(self.entries@[last].host@ == host@ && self.entries@[last].qtype
                        == qtype);
                    let w = choose|x: int|
                        0 <= x < self.entries@.len() && self.entries@[x].host@ == host@
                            && self.entries@[x].qtype == qtype;
                    if w != last {
                        assert(self.entries@[w] == pre[w]);
                        assert(!(pre[w].host@ == host@ && pre[w].qtype == qtype));
                    }
                }
            },
        }
        proof {
            assert forall|i: int|
                0 <= i < old(self).entries@.len() && !(old(self).entries@[i].host@ == host@
                    && old(self).entries@[i].qtype == qtype) implies #[trigger] dns_entry_in(
                self.entries@,
                old(self).entries@[i],
            ) by {
                assert(old(self).entries@[i] == pre[i]);
                match replaced_at {
                    Some(p) => {
                        assert(pre[p].host@ == host@ && pre[p].qtype == qtype);
                        assert(i != p);
                        assert(self.entries@[i] == pre[i]);
                    },
                    None => {
                        assert(self.entries@[i] == pre[i]);
                    },
                }
            }
        }
    }

    /// Drops every expired entry at instant `now`.
    pub fn evict_expired(&mut self, now: u64)
        requires
            old(self).wf(),
        ensures
            final(self).wf(),
            final(self).hosts@ == old(self).hosts@,
            forall|i: int|
                0 <= i < final(self).entries@.len() ==> #[trigger] final(self).entries@[i].expiry
                    >= now,
            // every entry kept was cached, and every unexpired entry is
            // kept
            forall|i: int|
                0 <= i < final(self).entries@.len() ==> dns_entry_in(
                    old(self).entries@,
                    #[trigger] final(self).entries@[i],
                ),
            forall|i: int|
                0 <= i < old(self).entries@.len() && #[trigger] old(self).entries@[i].expiry
                    >= now ==> dns_entry_in(final(self).entries@, old(self).entries@[i]),
    {
        let ghost pre = self.entries@;
        let mut kept: Vec<DnsCacheEntry> = Vec::new();
        while self.entries.len() > 0
            invariant
                pre == old(self).entries@,
                self.hosts@ == old(self).hosts@,
                unique_dns_keys(pre),
                kept@.len() + self.entries@.len() <= pre.len(),
                self.entries@ =~= pre.subrange(
                    pre.len() - self.entries@.len(),
                    pre.len() as int,
                ),
                unique_dns_keys(kept@),
                forall|a: int| 0 <= a < kept@.len() ==> #[trigger] kept@[a].expiry >= now,
                forall|a: int|
                    0 <= a < kept@.len() ==> exists|b: int|
                        0 <= b < pre.len() - self.entries@.len() && #[trigger] kept@[a] == pre[b],
                forall|b: int|
                    0 <= b < pre.len() - self.entries@.len() && #[trigger] pre[b].expiry >= now
                        ==> dns_entry_in(kept@, pre[b]),
            decreases self.entries@.len(),
        {
            let ghost done = pre.len() - self.entries@.len();
            let e = self.entries.remove(0);
            proof {
                assert(e == pre[done]);
            }
            if e.expiry >= now {
                proof {
                    assert forall|a: int|
                        0 <= a < kept@.len() implies !(kept@[a].host@ == e.host@ && kept@[a].qtype
                            == e.qtype) by {
                        let b = choose|b: int| 0 <= b < done && kept@[a] == pre[b];
                        assert(!(pre[b].host@ == pre[done].host@ && pre[b].qtype
                            == pre[done].qtype));
                    }
                }
                let ghost kept0 = kept@;
                let ghost done2 = done;
                kept.push(e);
                proof {
                    assert forall|b: int|
                        0 <= b < done2 + 1 && #[trigger] pre[b].expiry >= now implies dns_entry_in(
                        kept@,
                        pre[b],
                    ) by {
                        if b < done2 {
                            assert(dns_entry_in(kept0, pre[b]));
                            let a = choose|a: int| 0 <= a < kept0.len() && kept0[a] == pre[b];
                            assert(kept@[a] == kept0[a]);
                        } else {
                            assert(kept@[kept@.len() - 1] == pre[done2]);
                        }
                    }
                }
            }
        }
        self.entries = kept;
    }
}

/// The first `n` addresses of one family, in order.
pub open spec fn family_prefix(ips: Seq<IpAddress>, n: int, v4: bool) -> Seq<IpAddress>
    decreases n,
{
    if n <= 0 {
        Seq::empty()
    } else {
        family_prefix(ips, n - 1, v4) + (if ips[n - 1].is_v4() == v4 {
            seq![ips[n - 1]]
        } else {
            Seq::empty()
        })
    }
}

/// Orders resolved addresses by family preference: with `prefer_v4`
/// every v4 address comes before every v6 address, each family keeping
/// its own order, and the other way around otherwise.
pub fn prefer_family(ips: &Vec<IpAddress>, prefer_v4: bool) -> (r: Vec<IpAddress>)
    ensures
        r@ == family_prefix(ips@, ips@.len() as int, prefer_v4) + family_prefix(
            ips@,
            ips@.len() as int,
            !prefer_v4,
        ),
{
    let mut first: Vec<IpAddress> = Vec::new();
    let mut second: Vec<IpAddress> = Vec::new();
    let n = ips.len();
    let mut i: usize = 0;
    while i < n
        invariant
            i <= n,
            n == ips@.len(),
            first@ == family_prefix(ips@, i as int, prefer_v4),
            second@ == family_prefix(ips@, i as int, !prefer_v4),
        decreases n - i,
    {
        let ip = ips[i];
        let is4 = matches!(ip, IpAddress::V4(_));
        if is4 == prefer_v4 {
            first.push(ip);
            proof {
                assert(second@ =~= family_prefix(ips@, i + 1, !prefer_v4));
                assert(first@ =~= family_prefix(ips@, i + 1, prefer_v4));
            }
        } else {
            second.push(ip);
            proof {
                assert(first@ =~= family_prefix(ips@, i + 1, prefer_v4));
                assert(second@ =~= family_prefix(ips@, i + 1, !prefer_v4));
            }
        }
        i += 1;
    }
    let mut r = first;
    let ghost fst = r@;
    let mut k: usize = 0;
    let m = second.len();
    while k < m
        invariant
            k <= m,
            m == second@.len(),
            second@ == family_prefix(ips@, n as int, !prefer_v4),
            fst == family_prefix(ips@, n as int, prefer_v4),
            n == ips@.len(),
            r@ =~= fst + second@.subrange(0, k as int),
        decreases m - k,
    {
        r.push(second[k]);
        k += 1;
    }
    proof {
        assert(r@ =~= fst + second@);
    }
    r
}

} // verus!
