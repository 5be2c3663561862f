//! Plain data types shared across the proxy core: addresses, networks,
//! destinations and flows.

use vstd::prelude::*;

verus! {

/// An IP address: a v4 address as its 32-bit value, or a v6 address as
/// its 128-bit value.
#[derive(Clone, Copy, Debug, PartialEq, Eq, Structural)]
pub enum IpAddress {
    V4(u32),
    V6(u128),
}

impl IpAddress {
    pub open spec fn is_v4(self) -> bool {
        self is V4
    }
}

/// A socket address: an IP address and a port.
#[derive(Clone, Copy, Debug, PartialEq, Eq, Structural)]
pub struct SocketAddress {
    pub ip: IpAddress,
    pub port: u16,
}

/// The transport network of a flow.
#[derive(Clone, Copy, Debug, PartialEq, Eq, Structural)]
pub enum Network {
    Tcp,
    Udp,
}

/// The destination of a flow: either a literal socket address or an
/// unresolved host name with a port.
#[derive(Debug)]
pub enum Destination {
    Ip(SocketAddress),
    Domain(String, u16),
}

impl Clone for Destination {
    fn clone(&self) -> (res: Self)
        ensures
            res == *self,
    {
        match self {
            Destination::Ip(a) => Destination::Ip(*a),
            Destination::Domain(d, p) => Destination::Domain(d.clone(), *p),
        }
    }
}

/// The per-connection record passed through the pipeline.
///
/// A flow is created when a listener produces a connection and
/// destroyed when both transfer directions have terminated or a
/// timeout has expired.
#[derive(Debug)]
pub struct Flow {
    pub network: Network,
    pub source: SocketAddress,
    pub destination: Destination,
    pub inbound_tag: String,
}

/// Returns true exactly when the two strings hold the same characters.
pub fn str_eq(a: &String, b: &String) -> (r: bool)
    ensures
        r == (a@ == b@),
{
    *a == *b
}

/// Copies a vector of strings; the copy holds the same sequence of
/// string views.
pub fn clone_strings(v: &Vec<String>) -> (r: Vec<String>)
    ensures
        r@ == v@,
{
    let mut r: Vec<String> = Vec::new();
    let mut i: usize = 0;
    while i < v.len()
        invariant
            i <= v.len(),
            r@ =~= v@.subrange(0, i as int),
        decreases v.len() - i,
    {
        r.push(v[i].clone());
        i += 1;
    }
    proof {
        assert(r@ =~= v@);
    }
    r
}

/// Copies a list of addresses.
pub fn clone_ip_list(v: &Vec<IpAddress>) -> (r: Vec<IpAddress>)
    ensures
        r@ == v@,
{
    let mut r: Vec<IpAddress> = Vec::new();
    let mut i: usize = 0;
    while i < v.len()
        invariant
            i <= v.len(),
            r@ =~= v@.subrange(0, i as int),
        decreases v.len() - i,
    {
        r.push(v[i]);
        i += 1;
    }
    proof {
        assert(r@ =~= v@);
    }
    r
}

/// Returns true exactly when some element of `v` equals `s`.
pub fn contains_str(v: &Vec<String>, s: &String) -> (r: bool)
    ensures
        r == exists|i: int| 0 <= i < v@.len() && v@[i]@ == s@,
{
    let mut i: usize = 0;
    while i < v.len()
        invariant
            i <= v.len(),
            forall|j: int| 0 <= j < i ==> v@[j]@ != s@,
        decreases v.len() - i,
    {
        if str_eq(&v[i], s) {
            return true;
        }
        i += 1;
    }
    false
}

} // verus!
