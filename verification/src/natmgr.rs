//! The NAT manager: maps `(source, destination)` UDP pairs to
//! long-lived outbound sessions with an idle timeout.

use vstd::prelude::*;

use crate::types::SocketAddress;

verus! {

/// One NAT table entry: the inbound pair, the outbound session serving
/// it, and the instant of its last activity.
#[derive(Clone, Copy, Debug, PartialEq, Eq, Structural)]
pub struct NatEntry {
    pub source: SocketAddress,
    pub dest: SocketAddress,
    pub session: u64,
    pub last_activity: u64,
}

/// No two entries serve the same `(source, dest)` pair.
pub open spec fn unique_keys(es: Seq<NatEntry>) -> bool {
    forall|i: int, j: int|
        0 <= i < j < es.len() ==> !(es[i].source == es[j].source && es[i].dest == es[j].dest)
}

/// The entry occurs in the table.
pub open spec fn entry_in(es: Seq<NatEntry>, e: NatEntry) -> bool {
    exists|j: int| 0 <= j < es.len() && es[j] == e
}

/// Two entries serving the same pair are the same entry.
proof fn lemma_key_unique(es: Seq<NatEntry>, a: int, b: int)
    requires
        unique_keys(es),
        0 <= a < es.len(),
        0 <= b < es.len(),
        es[a].source == es[b].source,
        es[a].dest == es[b].dest,
    ensures
        a == b,
{
    if a < b {
        assert(!(es[a].source == es[b].source && es[a].dest == es[b].dest));
    } else if b < a {
        assert(!(es[b].source == es[a].source && es[b].dest == es[a].dest));
    }
}

/// Maps inbound UDP pairs to outbound sessions. An entry is reused
/// while its last activity lies within the idle window and evicted
/// otherwise; session identifiers are never reused.
#[derive(Debug)]
pub struct NatManager {
    pub entries: Vec<NatEntry>,
    pub timeout: u64,
    pub next_session: u64,
}

impl NatManager {
    /// Unique keys, and no session identifier at or beyond the
    /// allocator.
    pub open spec fn wf(self) -> bool {
        &&& unique_keys(self.entries@)
        &&& forall|i: int| 0 <= i < self.entries@.len() ==> #[trigger] self.entries@[i].session
            < self.next_session
    }

    /// The entry serving the pair, when one exists.
    pub open spec fn entry_for(self, source: SocketAddress, dest: SocketAddress) -> Option<
        NatEntry,
    > {
        if exists|i: int|
            0 <= i < self.entries@.len() && self.entries@[i].source == source
                && self.entries@[i].dest == dest {
            Some(
                self.entries@[choose|i: int|
                    0 <= i < self.entries@.len() && self.entries@[i].source == source
                        && self.entries@[i].dest == dest],
            )
        } else {
            None
        }
    }

    /// The entry is live at `now`: its last activity lies within the
    /// idle window.
    pub open spec fn live(self, e: NatEntry, now: u64) -> bool {
        now <= e.last_activity + self.timeout
    }

    pub fn new(timeout: u64) -> (m: NatManager)
        ensures
            m.wf(),
            m.entries@.len() == 0,
            m.timeout == timeout,
    {
        NatManager { entries: Vec::new(), timeout, next_session: 0 }
    }

    /// Returns the session for the pair at instant `now`: the existing
    /// session when the pair has one whose last activity lies within
    /// the idle window, refreshed to `now`; otherwise a fresh session,
    /// never seen before, replacing any expired entry for the pair.
    /// The second component says whether the session is new.
    pub fn get_or_create(&mut self, source: SocketAddress, dest: SocketAddress, now: u64) -> (r: (
        u64,
        bool,
    ))
        requires
            old(self).wf(),
            old(self).next_session < u64::MAX,
        ensures
            final(self).wf(),
            final(self).timeout == old(self).timeout,
            final(self).next_session <= old(self).next_session + 1,
            // the pair now maps to the returned session, active at `now`
            final(self).entry_for(source, dest) == Some(
                NatEntry { source, dest, session: r.0, last_activity: now },
            ),
            // reuse within the idle window
            match old(self).entry_for(source, dest) {
                Some(e) => if old(self).live(e, now) {
                    r.0 == e.session && r.1 == false
                } else {
                    r.0 == old(self).next_session && r.1 == true
                },
                None => r.0 == old(self).next_session && r.1 == true,
            },
            // a new session is one no old entry used
            r.1 ==> forall|i: int|
                0 <= i < old(self).entries@.len() ==> #[trigger] old(self).entries@[i].session
                    != r.0,
            // entries of other pairs are untouched
            forall|i: int|
                0 <= i < old(self).entries@.len() && !(#[trigger] old(self).entries@[i].source
                    == source && old(self).entries@[i].dest == dest) ==> entry_in(
                    final(self).entries@,
                    old(self).entries@[i],
                ),
    {
        let ghost pre = self.entries@;
        let mut i: usize = 0;
        while i < self.entries.len()
            invariant
                i <= self.entries@.len(),
                self.entries@ == pre,
                pre == old(self).entries@,
                unique_keys(pre),
                forall|k: int| 0 <= k < pre.len() ==> #[trigger] pre[k].session
                    < self.next_session,
                self.timeout == old(self).timeout,
                self.next_session == old(self).next_session,
                old(self).next_session < u64::MAX,
                forall|j: int|
                    0 <= j < i ==> !(pre[j].source == source && pre[j].dest == dest),
            decreases self.entries@.len() - i,
        {
            if self.entries[i].source == source && self.entries[i].dest == dest {
                proof {
                    let w = choose|k: int|
                        0 <= k < pre.len() && pre[k].source == source && pre[k].dest == dest;
                    lemma_key_unique(pre, w, i as int);
                }
                let e = self.entries[i];
                let session: u64;
                let is_new: bool;
                if now <= e.last_activity || now - e.last_activity <= self.timeout {
                    // live: reuse the session and refresh the activity
                    session = e.session;
                    is_new = false;
                } else {
                    // expired: evict and mint a fresh session
                    session = self.next_session;
                    self.next_session = self.next_session + 1;
                    is_new = true;
                }
                let entry = NatEntry { source, dest, session, last_activity: now };
                self.entries.set(i, entry);
                proof {
                    assert forall|a: int, b: int|
                        0 <= a < b < self.entries@.len() implies !(self.entries@[a].source
                        == self.entries@[b].source && self.entries@[a].dest
                        == self.entries@[b].dest) by {
                        assert(!(pre[a].source == pre[b].source && pre[a].dest == pre[b].dest));
                        if a != i as int {
                            assert(self.entries@[a] == pre[a]);
                        }
                        if b != i as int {
                            assert(self.entries@[b] == pre[b]);
                        }
                        assert(self.entries@[i as int].source == pre[i as int].source);
                        assert(self.entries@[i as int].dest == pre[i as int].dest);
                    }
                    let w2 = choose|k: int|
                        0 <= k < self.entries@.len() && self.entries@[k].source == source
                            && self.entries@[k].dest == dest;
                    lemma_key_unique(self.entries@, w2, i as int);
                    assert forall|a: int|
                        0 <= a < pre.len() && !(pre[a].source == source && pre[a].dest
                            == dest) implies entry_in(self.entries@, #[trigger] pre[a]) by {
                        assert(self.entries@[a] == pre[a]);
                    }
                }
                return (session, is_new);
            }
            i += 1;
        }
        // no entry for the pair: mint a fresh session
        let session = self.next_session;
        self.next_session = self.next_session + 1;
        let fresh = NatEntry { source, dest, session, last_activity: now };
        self.entries.push(fresh);
        proof {
            let last = self.entries@.len() - 1;
            assert(self.entries@[last] == fresh);
            assert forall|a: int, b: int|
                0 <= a < b < self.entries@.len() implies !(self.entries@[a].source
                == self.entries@[b].source && self.entries@[a].dest
                == self.entries@[b].dest) by {
                if b < last {
                    assert(self.entries@[a] == pre[a]);
                    assert(self.entries@[b] == pre[b]);
                    assert(!(pre[a].source == pre[b].source && pre[a].dest == pre[b].dest));
                } else {
                    assert(self.entries@[a] == pre[a]);
                }
            }
            let w2 = choose|k: int|
                0 <= k < self.entries@.len() && self.entries@[k].source == source
                    && self.entries@[k].dest == dest;
            lemma_key_unique(self.entries@, w2, last);
            assert forall|a: int|
                0 <= a < pre.len() && !(pre[a].source == source && pre[a].dest
                    == dest) implies entry_in(self.entries@, #[trigger] pre[a]) by {
                assert(self.entries@[a] == pre[a]);
            }
        }
        (session, true)
    }

    /// Drops every entry whose last activity lies outside the idle
    /// window at instant `now`.
    pub fn evict_idle(&mut self, now: u64)
        requires
            old(self).wf(),
        ensures
            final(self).wf(),
            final(self).timeout == old(self).timeout,
            final(self).next_session == old(self).next_session,
            forall|i: int|
                0 <= i < final(self).entries@.len() ==> final(self).live(
                    #[trigger] final(self).entries@[i],
                    now,
                ),
            forall|i: int|
                0 <= i < final(self).entries@.len() ==> entry_in(
                    old(self).entries@,
                    #[trigger] final(self).entries@[i],
                ),
            // eviction only drops expired entries: every live entry is
            // kept
            forall|i: int|
                0 <= i < old(self).entries@.len() && old(self).live(
                    #[trigger] old(self).entries@[i],
                    now,
                ) ==> entry_in(final(self).entries@, old(self).entries@[i]),
    {
        let ghost pre = self.entries@;
        let mut kept: Vec<NatEntry> = Vec::new();
        let mut i: usize = 0;
        while i < self.entries.len()
            invariant
                i <= self.entries@.len(),
                self.entries@ == pre,
                pre == old(self).entries@,
                unique_keys(pre),
                forall|k: int| 0 <= k < pre.len() ==> #[trigger] pre[k].session
                    < self.next_session,
                self.timeout == old(self).timeout,
                self.next_session == old(self).next_session,
                unique_keys(kept@),
                forall|a: int| 0 <= a < kept@.len() ==> entry_in(pre, #[trigger] kept@[a]),
                forall|a: int|
                    0 <= a < kept@.len() ==> now <= #[trigger] kept@[a].last_activity
                        + self.timeout,
                forall|a: int| 0 <= a < kept@.len() ==> #[trigger] kept@[a].session < self.next_session,
                forall|a: int|
                    0 <= a < kept@.len() ==> exists|b: int|
                        0 <= b < i && #[trigger] pre[b] == #[trigger] kept@[a],
                forall|b: int|
                    0 <= b < i && now <= #[trigger] pre[b].last_activity + self.timeout
                        ==> entry_in(kept@, pre[b]),
            decreases self.entries@.len() - i,
        {
            let e = self.entries[i];
            if now <= e.last_activity || now - e.last_activity <= self.timeout {
                proof {
                    assert forall|a: int|
                        0 <= a < kept@.len() implies !(kept@[a].source == e.source && kept@[a].dest
                            == e.dest) by {
                        let b = choose|b: int| 0 <= b < i && kept@[a] == pre[b];
                        assert(!(pre[b].source == pre[i as int].source && pre[b].dest
                            == pre[i as int].dest));
                    }
                }
                let ghost kept0 = kept@;
                kept.push(e);
                proof {
                    assert forall|b: int|
                        0 <= b < i + 1 && now <= #[trigger] pre[b].last_activity
                            + self.timeout implies entry_in(kept@, pre[b]) by {
                        if b < i {
                            assert(entry_in(kept0, pre[b]));
                            let a = choose|a: int| 0 <= a < kept0.len() && kept0[a] == pre[b];
                            assert(kept@[a] == kept0[a]);
                        } else {
                            assert(kept@[kept@.len() - 1] == pre[i as int]);
                        }
                    }
                }
            }
            i += 1;
        }
        self.entries = kept;
    }
}

} // verus!
