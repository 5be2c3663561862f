//! The bidirectional copy's per-direction state machine and its
//! fidelity: the bytes forwarded in one direction are exactly the
//! bytes read, in order. The surrounding task performs the reads,
//! writes and timers; this module decides what each event means.

use vstd::prelude::*;

verus! {

/// What the copy loop does in reaction to an event on one direction.
#[derive(Debug)]
pub enum CopyAction {
    /// Write these bytes to the peer, unchanged and in order.
    Forward(Vec<u8>),
    /// The source reached end of input: signal write-shutdown on the
    /// peer and keep copying the other direction.
    ShutdownPeer,
    /// The direction sat idle past its timeout: close the flow.
    Abort,
}

/// The concatenation of the first `n` chunks.
pub open spec fn concat_bytes(chunks: Seq<Vec<u8>>, n: int) -> Seq<u8>
    decreases n,
{
    if n <= 0 {
        Seq::empty()
    } else {
        concat_bytes(chunks, n - 1) + chunks[n - 1]@
    }
}

/// One direction of a TCP flow's copy loop. `forwarded` records the
/// bytes handed to the peer so far; `eof` is set once the source ends.
pub struct DirectionCopier {
    pub eof: bool,
    pub last_activity: u64,
    pub idle_timeout: u64,
    pub forwarded: Ghost<Seq<u8>>,
}

impl DirectionCopier {
    pub fn new(idle_timeout: u64, now: u64) -> (c: DirectionCopier)
        ensures
            !c.eof,
            c.forwarded@ == Seq::<u8>::empty(),
            c.idle_timeout == idle_timeout,
            c.last_activity == now,
    {
        DirectionCopier { eof: false, last_activity: now, idle_timeout, forwarded: Ghost(Seq::empty()) }
    }

    /// A chunk was read: forward exactly those bytes and refresh the
    /// direction's activity.
    pub fn on_data(&mut self, data: Vec<u8>, now: u64) -> (a: CopyAction)
        requires
            !old(self).eof,
        ensures
            a matches CopyAction::Forward(d) && d@ == data@,
            final(self).forwarded@ == old(self).forwarded@ + data@,
            final(self).eof == false,
            final(self).last_activity == now,
            final(self).idle_timeout == old(self).idle_timeout,
    {
        self.last_activity = now;
        proof {
            self.forwarded = Ghost(self.forwarded@ + data@);
        }
        CopyAction::Forward(data)
    }

    /// The source reached end of input: half-close. The peer gets a
    /// write-shutdown; bytes forwarded so far stay as they are, and
    /// the other direction keeps copying until it terminates.
    pub fn on_eof(&mut self) -> (a: CopyAction)
        ensures
            a is ShutdownPeer,
            final(self).eof == true,
            final(self).forwarded@ == old(self).forwarded@,
            final(self).idle_timeout == old(self).idle_timeout,
            final(self).last_activity == old(self).last_activity,
    {
        self.eof = true;
        CopyAction::ShutdownPeer
    }

    /// A timer tick: the flow is aborted exactly when the direction
    /// sat idle past its timeout.
    pub fn on_tick(&self, now: u64) -> (a: Option<CopyAction>)
        ensures
            match a {
                Some(act) => act is Abort && now > self.last_activity + self.idle_timeout,
                None => now <= self.last_activity + self.idle_timeout,
            },
    {
        if now > self.last_activity && now - self.last_activity > self.idle_timeout {
            Some(CopyAction::Abort)
        } else {
            None
        }
    }
}

/// Copy fidelity: feeding a sequence of read chunks through one
/// direction delivers their concatenation — every byte stream handed
/// to one side of a flow is observed on the other side exactly.
pub fn copy_direction(chunks: Vec<Vec<u8>>, idle_timeout: u64) -> (out: Vec<u8>)
    ensures
        out@ == concat_bytes(chunks@, chunks@.len() as int),
{
    let mut copier = DirectionCopier::new(idle_timeout, 0);
    let mut out: Vec<u8> = Vec::new();
    let n = chunks.len();
    let mut i: usize = 0;
    let ghost cs = chunks@;
    let mut rest = chunks;
    while i < n
        invariant
            i <= n,
            n == cs.len(),
            rest@ =~= cs.subrange(i as int, cs.len() as int),
            !copier.eof,
            copier.forwarded@ == concat_bytes(cs, i as int),
            out@ == copier.forwarded@,
        decreases n - i,
    {
        let chunk = rest.remove(0);
        proof {
            assert(chunk == cs[i as int]);
        }
        match copier.on_data(chunk, 0) {
            CopyAction::Forward(d) => {
                let mut j: usize = 0;
                let ghost out0 = out@;
                while j < d.len()
                    invariant
                        j <= d@.len(),
                        out@ =~= out0 + d@.subrange(0, j as int),
                    decreases d@.len() - j,
                {
                    out.push(d[j]);
                    j += 1;
                }
                proof {
                    assert(out@ =~= out0 + d@);
                }
            },
            _ => {},
        }
        i += 1;
    }
    let _ = copier.on_eof();
    out
}

} // verus!
