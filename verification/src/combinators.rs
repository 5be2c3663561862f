//! Decision logic of the outbound combinators: the failover priority
//! list and attempt order, retry and try-all selection, the uniform
//! random pick, and the amux stream assignment. The attempts, probes
//! and timers themselves run in the surrounding tasks, which hand
//! their outcomes to these functions.

use vstd::prelude::*;

verus! {

/// The recorded round-trip time of an actor, where a failed probe has
/// none.
pub open spec fn rtt_at(rtts: Seq<Option<u64>>, idx: usize) -> u64 {
    match rtts[idx as int] {
        Some(v) => v,
        None => 0,
    }
}

/// The position in `healthy` before which every actor's round-trip
/// time is at most `v`: insertion keeps the list sorted and stable.
fn insert_pos(rtts: &Vec<Option<u64>>, healthy: &Vec<usize>, v: u64) -> (p: usize)
    requires
        forall|a: int| 0 <= a < healthy@.len() ==> #[trigger] healthy@[a] < rtts@.len(),
        forall|a: int| 0 <= a < healthy@.len() ==> rtts@[#[trigger] healthy@[a] as int] is Some,
    ensures
        p <= healthy@.len(),
        forall|a: int| 0 <= a < p ==> rtt_at(rtts@, #[trigger] healthy@[a]) <= v,
        p < healthy@.len() ==> rtt_at(rtts@, healthy@[p as int]) > v,
{
    let mut p: usize = 0;
    while p < healthy.len()
        invariant
            p <= healthy@.len(),
            forall|a: int| 0 <= a < healthy@.len() ==> #[trigger] healthy@[a] < rtts@.len(),
            forall|a: int| 0 <= a < healthy@.len() ==> rtts@[#[trigger] healthy@[a] as int] is Some,
            forall|a: int| 0 <= a < p ==> rtt_at(rtts@, #[trigger] healthy@[a]) <= v,
        decreases healthy@.len() - p,
    {
        let idx = healthy[p];
        let w = match rtts[idx] {
            Some(w) => w,
            None => 0,
        };
        if w > v {
            return p;
        }
        p += 1;
    }
    p
}

/// The failover priority list: actors with a successful last probe
/// first, sorted by ascending round-trip time; failed actors tail in
/// declaration order. The first component lists every actor index
/// exactly once; the second is the number of healthy actors.
pub fn priority_order(rtts: &Vec<Option<u64>>) -> (r: (Vec<usize>, usize))
    ensures
        r.0@.len() == rtts@.len(),
        r.1 <= r.0@.len(),
        forall|a: int| 0 <= a < r.0@.len() ==> #[trigger] r.0@[a] < rtts@.len(),
        forall|a: int, b: int| 0 <= a < b < r.0@.len() ==> r.0@[a] != r.0@[b],
        forall|a: int| 0 <= a < r.1 ==> rtts@[#[trigger] r.0@[a] as int] is Some,
        forall|a: int| r.1 <= a < r.0@.len() ==> rtts@[#[trigger] r.0@[a] as int] is None,
        forall|a: int, b: int|
            0 <= a < b < r.1 ==> rtt_at(rtts@, r.0@[a]) <= rtt_at(rtts@, r.0@[b]),
{
    let mut healthy: Vec<usize> = Vec::new();
    let mut failed: Vec<usize> = Vec::new();
    let mut i: usize = 0;
    while i < rtts.len()
        invariant
            i <= rtts@.len(),
            forall|a: int| 0 <= a < healthy@.len() ==> #[trigger] healthy@[a] < i,
            forall|a: int| 0 <= a < failed@.len() ==> #[trigger] failed@[a] < i,
            forall|a: int, b: int| 0 <= a < b < healthy@.len() ==> healthy@[a] != healthy@[b],
            forall|a: int, b: int| 0 <= a < b < failed@.len() ==> failed@[a] != failed@[b],
            forall|a: int|
                0 <= a < healthy@.len() ==> rtts@[#[trigger] healthy@[a] as int] is Some,
            forall|a: int| 0 <= a < failed@.len() ==> rtts@[#[trigger] failed@[a] as int] is None,
            forall|a: int, b: int|
                0 <= a < b < healthy@.len() ==> rtt_at(rtts@, healthy@[a]) <= rtt_at(
                    rtts@,
                    healthy@[b],
                ),
            healthy@.len() + failed@.len() == i,
        decreases rtts@.len() - i,
    {
        match rtts[i] {
            Some(v) => {
                let p = insert_pos(rtts, &healthy, v);
                let ghost pre = healthy@;
                healthy.insert(p, i);
                proof {
                    assert forall|a: int|
                        0 <= a < healthy@.len() implies #[trigger] healthy@[a] < i + 1
                            && rtts@[healthy@[a] as int] is Some by {
                        if a < p {
                            assert(healthy@[a] == pre[a]);
                        } else if a == p {
                            assert(healthy@[a] == i);
                        } else {
                            assert(healthy@[a] == pre[a - 1]);
                        }
                    }
                    assert forall|a: int, b: int|
                        0 <= a < b < healthy@.len() implies healthy@[a] != healthy@[b] && rtt_at(
                        rtts@,
                        healthy@[a],
                    ) <= rtt_at(rtts@, healthy@[b]) by {
                        let a2 = if a < p {
                            a
                        } else {
                            a - 1
                        };
                        let b2 = if b < p {
                            b
                        } else {
                            b - 1
                        };
                        if a == p {
                            assert(healthy@[a] == i);
                            assert(healthy@[b] == pre[b2]);
                            assert(rtt_at(rtts@, pre[b2]) > v);
                        } else if b == p {
                            assert(healthy@[b] == i);
                            assert(healthy@[a] == pre[a2]);
                            assert(rtt_at(rtts@, pre[a2]) <= v);
                        } else {
                            assert(healthy@[a] == pre[a2]);
                            assert(healthy@[b] == pre[b2]);
                        }
                    }
                }
            },
            None => {
                failed.push(i);
            },
        }
        i += 1;
    }
    let ghost hs = healthy@;
    let ghost fs = failed@;
    let count = healthy.len();
    let mut order = healthy;
    let mut k: usize = 0;
    let n = failed.len();
    while k < n
        invariant
            k <= n,
            n == fs.len(),
            failed@ == fs,
            count == hs.len(),
            hs.len() + fs.len() == rtts@.len(),
            order@.len() == hs.len() + k,
            forall|a: int| 0 <= a < hs.len() ==> order@[a] == hs[a],
            forall|a: int| hs.len() <= a < order@.len() ==> order@[a] == fs[a - hs.len()],
            forall|a: int| 0 <= a < hs.len() ==> #[trigger] hs[a] < rtts@.len(),
            forall|a: int| 0 <= a < fs.len() ==> #[trigger] fs[a] < rtts@.len(),
            forall|a: int| 0 <= a < hs.len() ==> rtts@[#[trigger] hs[a] as int] is Some,
            forall|a: int| 0 <= a < fs.len() ==> rtts@[#[trigger] fs[a] as int] is None,
            forall|a: int, b: int| 0 <= a < b < hs.len() ==> hs[a] != hs[b],
            forall|a: int, b: int| 0 <= a < b < fs.len() ==> fs[a] != fs[b],
            forall|a: int, b: int|
                0 <= a < b < hs.len() ==> rtt_at(rtts@, hs[a]) <= rtt_at(rtts@, hs[b]),
        decreases n - k,
    {
        order.push(failed[k]);
        k += 1;
    }
    proof {
        assert forall|a: int, b: int| 0 <= a < b < order@.len() implies order@[a]
            != order@[b] by {
            if b < hs.len() {
                assert(order@[a] == hs[a] && order@[b] == hs[b]);
            } else if a < hs.len() {
                assert(order@[a] == hs[a] && order@[b] == fs[b - hs.len()]);
                assert(rtts@[order@[a] as int] is Some);
                assert(rtts@[order@[b] as int] is None);
            } else {
                assert(order@[a] == fs[a - hs.len()] && order@[b] == fs[b - hs.len()]);
            }
        }
        assert forall|a: int| 0 <= a < order@.len() implies #[trigger] order@[a]
            < rtts@.len() by {
            if a < hs.len() {
                assert(order@[a] == hs[a]);
            } else {
                assert(order@[a] == fs[a - hs.len()]);
            }
        }
        assert forall|a: int| 0 <= a < count implies rtts@[#[trigger] order@[a] as int] is Some by {
            assert(order@[a] == hs[a]);
        }
        assert forall|a: int|
            count <= a < order@.len() implies rtts@[#[trigger] order@[a] as int] is None by {
            assert(order@[a] == fs[a - hs.len()]);
        }
        assert forall|a: int, b: int| 0 <= a < b < count implies rtt_at(rtts@, order@[a]) <= rtt_at(
            rtts@,
            order@[b],
        ) by {
            assert(order@[a] == hs[a] && order@[b] == hs[b]);
        }
    }
    (order, count)
}

/// The failover attempt order: each attempt `k` tries the actor at
/// priority position `k`, bounded by `fail_timeout`; on failure the
/// next is tried. With `failover` off only the head actor is
/// attempted. Given each attempt's outcome, returns the first
/// successful attempt and its actor, or nothing when every permitted
/// attempt failed.
pub fn failover_dispatch(order: &Vec<usize>, outcomes: &Vec<bool>, failover: bool) -> (r: Option<
    (usize, usize),
>)
    requires
        outcomes@.len() == order@.len(),
    ensures
        match r {
            Some((k, actor)) => {
                &&& k < order@.len()
                &&& outcomes@[k as int]
                &&& actor == order@[k as int]
                &&& forall|j: int| 0 <= j < k ==> !outcomes@[j]
                &&& (!failover ==> k == 0)
            },
            None => {
                &&& failover ==> forall|j: int| 0 <= j < outcomes@.len() ==> !outcomes@[j]
                &&& !failover ==> (outcomes@.len() == 0 || !outcomes@[0])
            },
        },
{
    let limit = if failover {
        order.len()
    } else if order.len() > 0 {
        1
    } else {
        0
    };
    let mut k: usize = 0;
    while k < limit
        invariant
            k <= limit <= order@.len(),
            outcomes@.len() == order@.len(),
            failover ==> limit == order@.len(),
            !failover ==> limit <= 1,
            forall|j: int| 0 <= j < k ==> !outcomes@[j],
        decreases limit - k,
    {
        if outcomes[k] {
            return Some((k, order[k]));
        }
        k += 1;
    }
    None
}

/// The retry order: attempts run round after round over the actors in
/// declaration order, up to `attempts` rounds, stopping at the first
/// success. Given each attempt's outcome in that order, returns the
/// first successful attempt, or nothing when all failed.
pub fn retry_dispatch(outcomes: &Vec<bool>) -> (r: Option<usize>)
    ensures
        match r {
            Some(i) => i < outcomes@.len() && outcomes@[i as int] && forall|j: int|
                0 <= j < i ==> !outcomes@[j],
            None => forall|j: int| 0 <= j < outcomes@.len() ==> !outcomes@[j],
        },
{
    let mut i: usize = 0;
    while i < outcomes.len()
        invariant
            i <= outcomes@.len(),
            forall|j: int| 0 <= j < i ==> !outcomes@[j],
        decreases outcomes@.len() - i,
    {
        if outcomes[i] {
            return Some(i);
        }
        i += 1;
    }
    None
}

/// The actor an overall attempt number falls on, when the actors are
/// tried in declaration order round after round.
pub fn attempt_actor(attempt: usize, n_actors: usize) -> (r: usize)
    requires
        n_actors > 0,
    ensures
        r == attempt % n_actors,
{
    attempt % n_actors
}

/// When every actor starts `delay_base` milliseconds after the one
/// before it, the moment actor `i`'s handshake completes.
pub open spec fn completion_time(delay_base: u64, i: int, rtt: u64) -> int {
    delay_base * i + rtt
}

/// The try-all winner: all actors start concurrently with staggered
/// starts, and the first completed handshake wins; the others are
/// cancelled. Given each actor's handshake time (none for a failed
/// handshake), returns the actor completing first, earliest start
/// winning ties, or nothing when every handshake failed.
pub fn tryall_winner(delay_base: u64, rtts: &Vec<Option<u64>>) -> (r: Option<usize>)
    ensures
        match r {
            Some(w) => {
                &&& w < rtts@.len()
                &&& rtts@[w as int] is Some
                &&& forall|j: int|
                    0 <= j < rtts@.len() && rtts@[j] is Some ==> completion_time(
                        delay_base,
                        w as int,
                        rtt_at(rtts@, w),
                    ) <= completion_time(delay_base, j, rtt_at(rtts@, j as usize))
                &&& forall|j: int|
                    0 <= j < w ==> !(rtts@[j] is Some && completion_time(
                        delay_base,
                        j,
                        rtt_at(rtts@, j as usize),
                    ) <= completion_time(delay_base, w as int, rtt_at(rtts@, w)))
            },
            None => forall|j: int| 0 <= j < rtts@.len() ==> rtts@[j] is None,
        },
{
    let mut best: Option<(usize, u128)> = None;
    let mut i: usize = 0;
    while i < rtts.len()
        invariant
            i <= rtts@.len(),
            match best {
                Some((w, t)) => {
                    &&& w < i
                    &&& rtts@[w as int] is Some
                    &&& t == completion_time(delay_base, w as int, rtt_at(rtts@, w))
                    &&& forall|j: int|
                        0 <= j < i && rtts@[j] is Some ==> t <= completion_time(
                            delay_base,
                            j,
                            rtt_at(rtts@, j as usize),
                        )
                    &&& forall|j: int|
                        0 <= j < w ==> !(rtts@[j] is Some && completion_time(
                            delay_base,
                            j,
                            rtt_at(rtts@, j as usize),
                        ) <= t)
                },
                None => forall|j: int| 0 <= j < i ==> rtts@[j] is None,
            },
        decreases rtts@.len() - i,
    {
        match rtts[i] {
            Some(v) => {
                proof {
                    assert((delay_base as int) * (i as int) + (v as int) < u128::MAX) by (nonlinear_arith)
                        requires
                            delay_base <= u64::MAX,
                            i <= u64::MAX,
                            v <= u64::MAX,
                    ;
                    assert((delay_base as int) * (i as int) >= 0) by (nonlinear_arith)
                        requires
                            delay_base >= 0,
                            i >= 0,
                    ;
                }
                let t = (delay_base as u128) * (i as u128) + (v as u128);
                match best {
                    Some((_, bt)) => {
                        if t < bt {
                            best = Some((i, t));
                        }
                    },
                    None => {
                        best = Some((i, t));
                    },
                }
            },
            None => {},
        }
        i += 1;
    }
    match best {
        Some((w, _)) => Some(w),
        None => None,
    }
}

/// The uniform pick of the random combinator: the actor a random draw
/// falls on.
pub fn random_pick(n_actors: usize, roll: u64) -> (r: usize)
    requires
        n_actors > 0,
        n_actors <= u64::MAX,
    ensures
        r < n_actors,
        r as int == (roll as int) % (n_actors as int),
{
    (roll % (n_actors as u64)) as usize
}

/// One fallback-cache entry: a destination host, the actor tag that
/// last succeeded for it, and the instant the record expires.
#[derive(Debug)]
pub struct FallbackEntry {
    pub host: String,
    pub tag: String,
    pub expiry: u64,
}

/// The record occurs in the cache.
pub open spec fn fallback_in(es: Seq<FallbackEntry>, e: FallbackEntry) -> bool {
    exists|j: int| 0 <= j < es.len() && es[j] == e
}

/// No two entries record the same host.
pub open spec fn unique_fallback_hosts(es: Seq<FallbackEntry>) -> bool {
    forall|i: int, j: int| 0 <= i < j < es.len() ==> es[i].host@ != es[j].host@
}

/// The failover combinator's fallback cache: remembers the actor that
/// last succeeded for a destination host, for a bounded number of
/// hosts and a bounded time, biasing subsequent attempts toward it.
#[derive(Debug)]
pub struct FallbackCache {
    pub entries: Vec<FallbackEntry>,
    pub capacity: usize,
}

impl FallbackCache {
    pub open spec fn wf(self) -> bool {
        &&& self.capacity >= 1
        &&& self.entries@.len() <= self.capacity
        &&& unique_fallback_hosts(self.entries@)
    }

    /// An entry for the host exists.
    pub open spec fn has_host(self, host: Seq<char>) -> bool {
        exists|i: int| 0 <= i < self.entries@.len() && self.entries@[i].host@ == host
    }

    /// The entry recorded for the host; meaningful when one exists.
    pub open spec fn entry_for(self, host: Seq<char>) -> FallbackEntry {
        self.entries@[choose|i: int|
            0 <= i < self.entries@.len() && self.entries@[i].host@ == host]
    }

    pub fn new(capacity: usize) -> (c: FallbackCache)
        requires
            capacity >= 1,
        ensures
            c.wf(),
            c.entries@.len() == 0,
            c.capacity == capacity,
    {
        FallbackCache { entries: Vec::new(), capacity }
    }

    /// The actor last recorded for the host, while the record has not
    /// expired; an expired or missing record biases nothing.
    pub fn get(&self, host: &String, now: u64) -> (r: Option<&String>)
        requires
            self.wf(),
        ensures
            match r {
                Some(tag) => self.has_host(host@) && self.entry_for(host@).expiry >= now && tag@
                    == self.entry_for(host@).tag@,
                None => self.has_host(host@) ==> self.entry_for(host@).expiry < now,
            },
    {
        let mut i: usize = 0;
        let n = self.entries.len();
        while i < n
            invariant
                i <= n,
                n == self.entries@.len(),
                self.wf(),
                forall|j: int| 0 <= j < i ==> self.entries@[j].host@ != host@,
            decreases n - i,
        {
            if crate::types::str_eq(&self.entries[i].host, host) {
                proof {
                    let w = choose|k: int|
                        0 <= k < self.entries@.len() && self.entries@[k].host@ == host@;
                    if w != i as int {
                        if w < i as int {
                            assert(self.entries@[w].host@ != self.entries@[i as int].host@);
                        } else {
                            assert(self.entries@[i as int].host@ != self.entries@[w].host@);
                        }
                    }
                }
                if self.entries[i].expiry >= now {
                    return Some(&self.entries[i].tag);
                } else {
                    return None;
                }
            }
            i += 1;
        }
        None
    }

    /// Records a successful actor for a host, replacing the host's
    /// earlier record; a full cache drops its oldest record.
    pub fn put(&mut self, host: String, tag: String, expiry: u64)
        requires
            old(self).wf(),
        ensures
            final(self).wf(),
            final(self).capacity == old(self).capacity,
            final(self).has_host(host@),
            final(self).entry_for(host@).tag@ == tag@,
            final(self).entry_for(host@).expiry == expiry,
            // records of other hosts are untouched, except the oldest,
            // which a full cache drops to make room
            old(self).has_host(host@) ==> forall|i: int|
                0 <= i < old(self).entries@.len() && old(self).entries@[i].host@ != host@
                    ==> #[trigger] fallback_in(final(self).entries@, old(self).entries@[i]),
            !old(self).has_host(host@) && old(self).entries@.len() < old(self).capacity
                ==> forall|i: int|
                0 <= i < old(self).entries@.len() ==> #[trigger] fallback_in(
                    final(self).entries@,
                    old(self).entries@[i],
                ),
            !old(self).has_host(host@) && old(self).entries@.len() >= old(self).capacity
                ==> forall|i: int|
                1 <= i < old(self).entries@.len() ==> #[trigger] fallback_in(
                    final(self).entries@,
                    old(self).entries@[i],
                ),
    {
        let ghost pre = self.entries@;
        let mut at: Option<usize> = None;
        let mut i: usize = 0;
        let n = self.entries.len();
        while i < n && at.is_none()
            invariant
                i <= n,
                n == self.entries@.len(),
                self.entries@ == pre,
                pre == old(self).entries@,
                self.capacity == old(self).capacity,
                unique_fallback_hosts(pre),
                match at {
                    Some(p) => 0 <= p < pre.len() && pre[p as int].host@ == host@,
                    None => forall|j: int| 0 <= j < i ==> pre[j].host@ != host@,
                },
            decreases n - i,
        {
            if crate::types::str_eq(&self.entries[i].host, &host) {
                at = Some(i);
            }
            i += 1;
        }
        match at {
            Some(p) => {
                let entry = FallbackEntry { host, tag, expiry };
                self.entries.set(p, entry);
                proof {
                    assert forall|a: int, b: int|
                        0 <= a < b < self.entries@.len() implies self.entries@[a].host@
                        != self.entries@[b].host@ by {
                        assert(pre[a].host@ != pre[b].host@);
                        if a != p as int {
                            assert(self.entries@[a] == pre[a]);
                        }
                        if b != p as int {
                            assert(self.entries@[b] == pre[b]);
                        }
                        assert(self.entries@[p as int].host@ == pre[p as int].host@);
                    }
                    assert(self.entries@[p as int].host@ == host@);
                    let w = choose|k: int|
                        0 <= k < self.entries@.len() && self.entries@[k].host@ == host@;
                    if w != p as int {
                        if w < p as int {
                            assert(self.entries@[w].host@ != self.entries@[p as int].host@);
                        } else {
                            assert(self.entries@[p as int].host@ != self.entries@[w].host@);
                        }
                    }
                    assert forall|i: int|
                        0 <= i < pre.len() && pre[i].host@ != host@ implies #[trigger] fallback_in(
                        self.entries@,
                        pre[i],
                    ) by {
                        assert(i != p as int);
                        assert(self.entries@[i] == pre[i]);
                    }
                }
            },
            None => {
                if self.entries.len() >= self.capacity {
                    let _ = self.entries.remove(0);
                    proof {
                        pre.remove_ensures(0);
                        assert forall|a: int, b: int|
                            0 <= a < b < self.entries@.len() implies self.entries@[a].host@
                            != self.entries@[b].host@ by {
                            assert(self.entries@[a] == pre[a + 1]);
                            assert(self.entries@[b] == pre[b + 1]);
                        }
                        assert forall|a: int|
                            0 <= a < self.entries@.len() implies #[trigger] self.entries@[a].host@
                            != host@ by {
                            assert(self.entries@[a] == pre[a + 1]);
                        }
                    }
                }
                let ghost mid = self.entries@;
                let entry = FallbackEntry { host, tag, expiry };
                self.entries.push(entry);
                proof {
                    let last = self.entries@.len() - 1;
                    assert(self.entries@[last].host@ == host@);
                    assert forall|a: int, b: int|
                        0 <= a < b < self.entries@.len() implies self.entries@[a].host@
                        != self.entries@[b].host@ by {
                        if b < last {
                            assert(self.entries@[a] == mid[a]);
                            assert(self.entries@[b] == mid[b]);
                        } else {
                            assert(self.entries@[a] == mid[a]);
                        }
                    }
                    let w = choose|k: int|
                        0 <= k < self.entries@.len() && self.entries@[k].host@ == host@;
                    if w != last {
                        assert(self.entries@[w].host@ != self.entries@[last].host@);
                    }
                    if pre.len() < self.capacity {
                        assert(mid == pre);
                        assert forall|i: int| 0 <= i < pre.len() implies #[trigger] fallback_in(
                            self.entries@,
                            pre[i],
                        ) by {
                            assert(self.entries@[i] == mid[i]);
                        }
                    } else {
                        pre.remove_ensures(0);
                        assert forall|i: int| 1 <= i < pre.len() implies #[trigger] fallback_in(
                            self.entries@,
                            pre[i],
                        ) by {
                            assert(mid[i - 1] == pre.remove(0)[i - 1]);
                            assert(pre.remove(0)[i - 1] == pre[i]);
                            assert(self.entries@[i - 1] == mid[i - 1]);
                        }
                    }
                }
            },
        }
    }
}

/// The stream-assignment state of an amux combinator: how many logical
/// streams each open physical connection carries.
#[derive(Debug)]
pub struct AmuxState {
    pub streams: Vec<u32>,
    pub max_accepts: usize,
    pub concurrency: u32,
}

impl AmuxState {
    pub open spec fn wf(self) -> bool {
        &&& self.streams@.len() <= self.max_accepts
        &&& self.concurrency >= 1
        &&& forall|i: int| 0 <= i < self.streams@.len() ==> #[trigger] self.streams@[i]
            <= self.concurrency
    }

    pub fn new(max_accepts: usize, concurrency: u32) -> (s: AmuxState)
        requires
            concurrency >= 1,
        ensures
            s.wf(),
            s.streams@.len() == 0,
            s.max_accepts == max_accepts,
            s.concurrency == concurrency,
    {
        AmuxState { streams: Vec::new(), max_accepts, concurrency }
    }

    /// Assigns a logical stream: the first open connection below its
    /// concurrency limit takes it; with all connections full a new one
    /// is opened on demand, up to `max_accepts`; beyond that the
    /// stream is refused. Returns the carrying connection and whether
    /// it was newly opened.
    pub fn assign_stream(&mut self) -> (r: Option<(usize, bool)>)
        requires
            old(self).wf(),
        ensures
            final(self).wf(),
            final(self).max_accepts == old(self).max_accepts,
            final(self).concurrency == old(self).concurrency,
            match r {
                Some((c, opened)) => {
                    &&& !opened ==> {
                        &&& c < old(self).streams@.len()
                        &&& old(self).streams@[c as int] < old(self).concurrency
                        &&& forall|j: int|
                            0 <= j < c ==> #[trigger] old(self).streams@[j] >= old(
                                self,
                            ).concurrency
                        &&& final(self).streams@ == old(self).streams@.update(
                            c as int,
                            (old(self).streams@[c as int] + 1) as u32,
                        )
                    }
                    &&& opened ==> {
                        &&& (forall|j: int|
                            0 <= j < old(self).streams@.len() ==> #[trigger] old(self).streams@[j]
                                >= old(self).concurrency)
                        &&& old(self).streams@.len() < old(self).max_accepts
                        &&& c == old(self).streams@.len()
                        &&& final(self).streams@ == old(self).streams@.push(1u32)
                    }
                },
                None => {
                    &&& forall|j: int|
                        0 <= j < old(self).streams@.len() ==> #[trigger] old(self).streams@[j]
                            >= old(self).concurrency
                    &&& old(self).streams@.len() >= old(self).max_accepts
                    &&& final(self).streams@ == old(self).streams@
                },
            },
    {
        let mut c: usize = 0;
        while c < self.streams.len()
            invariant
                c <= self.streams@.len(),
                self.wf(),
                self.streams@ == old(self).streams@,
                self.max_accepts == old(self).max_accepts,
                self.concurrency == old(self).concurrency,
                forall|j: int| 0 <= j < c ==> #[trigger] self.streams@[j] >= self.concurrency,
            decreases self.streams@.len() - c,
        {
            if self.streams[c] < self.concurrency {
                let cur = self.streams[c];
                self.streams.set(c, cur + 1);
                proof {
                    assert forall|i: int| 0 <= i < self.streams@.len() implies #[trigger] self.streams@[i]
                        <= self.concurrency by {
                        if i != c as int {
                            assert(self.streams@[i] == old(self).streams@[i]);
                        }
                    }
                }
                return Some((c, false));
            }
            c += 1;
        }
        if self.streams.len() < self.max_accepts {
            let c2 = self.streams.len();
            self.streams.push(1);
            return Some((c2, true));
        }
        None
    }
}

} // verus!
