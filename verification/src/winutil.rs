//! Helpers for hosts whose system interfaces take wide strings, and
//! the registration state of the packet bridge between the platform
//! and the user-space network stack.

use vstd::prelude::*;

use crate::errors::Error;

verus! {

/// Returns the index of the first occurrence of `needle` in
/// `haystack`, or nothing when it does not occur.
pub fn unrolled_find_u16s(needle: u16, haystack: &[u16]) -> (r: Option<usize>)
    ensures
        match r {
            Some(i) => i < haystack@.len() && haystack@[i as int] == needle && forall|j: int|
                0 <= j < i ==> haystack@[j] != needle,
            None => forall|j: int| 0 <= j < haystack@.len() ==> haystack@[j] != needle,
        },
{
    let n = haystack.len();
    let mut i: usize = 0;
    while i < n
        invariant
            i <= n,
            n == haystack@.len(),
            forall|j: int| 0 <= j < i ==> haystack@[j] != needle,
        decreases n - i,
    {
        if haystack[i] == needle {
            return Some(i);
        }
        i += 1;
    }
    None
}

/// Terminates a wide string for a system call: appends the closing
/// zero unit, rejecting input that already holds one, since an
/// embedded zero would truncate the string at the system boundary.
pub fn to_u16s(units: &Vec<u16>) -> (r: Result<Vec<u16>, Error>)
    ensures
        match r {
            Ok(v) => v@ == units@.push(0u16) && forall|j: int|
                0 <= j < units@.len() ==> units@[j] != 0,
            Err(e) => e is Io && exists|j: int| 0 <= j < units@.len() && units@[j] == 0,
        },
{
    if unrolled_find_u16s(0, units.as_slice()).is_some() {
        return Err(Error::Io("strings passed to the system cannot contain zero units".to_owned()));
    }
    let mut v: Vec<u16> = Vec::new();
    let mut i: usize = 0;
    let n = units.len();
    while i < n
        invariant
            i <= n,
            n == units@.len(),
            v@ =~= units@.subrange(0, i as int),
        decreases n - i,
    {
        v.push(units[i]);
        i += 1;
    }
    v.push(0);
    proof {
        assert(v@ =~= units@.push(0u16));
    }
    Ok(v)
}

/// The registration state of the packet bridge. The platform registers
/// a callback and a packet channel; the network stack later takes the
/// channel's receiving end, exactly once; releasing the bridge stops
/// it. The channel itself and the callback live with the platform
/// glue; here the receiving end is named by its handle.
#[derive(Debug)]
pub enum ReceiverInfo {
    Registered { tun_rx: u64 },
    ReceiverTaken,
    Stopped,
}

impl ReceiverInfo {
    /// Takes the receiving end out of a registered bridge: yields its
    /// handle and remembers that it is gone; in any other state yields
    /// nothing and stays put.
    pub fn take_tun_rx(&mut self) -> (r: Option<u64>)
        ensures
            match *old(self) {
                ReceiverInfo::Registered { tun_rx } => r == Some(tun_rx) && *final(self)
                    == ReceiverInfo::ReceiverTaken,
                _ => r is None && *final(self) == *old(self),
            },
    {
        match self {
            ReceiverInfo::Registered { tun_rx } => {
                let rx = *tun_rx;
                *self = ReceiverInfo::ReceiverTaken;
                Some(rx)
            },
            _ => None,
        }
    }

    /// Registers a fresh bridge, replacing whatever state was there.
    pub fn register(&mut self, tun_rx: u64)
        ensures
            *final(self) == (ReceiverInfo::Registered { tun_rx }),
    {
        *self = ReceiverInfo::Registered { tun_rx };
    }

    /// Releases the bridge: stops it, and reports whether a
    /// registration was in place.
    pub fn release(&mut self) -> (r: bool)
        ensures
            *final(self) == ReceiverInfo::Stopped,
            r == !(*old(self) is Stopped),
    {
        let was = !matches!(self, ReceiverInfo::Stopped);
        *self = ReceiverInfo::Stopped;
        was
    }
}

} // verus!
