//! The parsed, in-memory form of an outbound declaration.
//!
//! The configuration file format and its parser are collaborators of
//! the core; the core consumes declarations whose protocol-specific
//! settings have already been decoded into plain values.

use vstd::prelude::*;

use crate::types::IpAddress;

verus! {

/// Protocol-specific settings of an outbound declaration.
#[derive(Debug)]
pub enum Protocol {
    Direct,
    Drop,
    Redirect { address: String, port: u16 },
    Socks { address: String, port: u16 },
    Shadowsocks { address: String, port: u16, method: String, password: String },
    Trojan { address: String, port: u16, password: String },
    Vmess { address: String, port: u16, uuid: String, security: String },
    Tls { server_name: String, alpn: Vec<String> },
    Ws { path: String },
    Quic { address: String, port: u16, server_name: String, certificate: String },
    H2 { path: String, host: String },
    TryAll { actors: Vec<String>, delay_base: u32 },
    Random { actors: Vec<String> },
    Failover {
        actors: Vec<String>,
        fail_timeout: u32,
        health_check: bool,
        check_interval: u32,
        failover: bool,
        fallback_cache: bool,
        cache_size: u32,
        cache_timeout: u32,
    },
    Amux { address: String, port: u16, actors: Vec<String>, max_accepts: u32, concurrency: u32 },
    Chain { actors: Vec<String> },
    Retry { actors: Vec<String>, attempts: u32 },
    Select { actors: Vec<String> },
}

/// The protocol of a handler, without its settings.
#[derive(Clone, Copy, Debug, PartialEq, Eq, Structural)]
pub enum ProtocolKind {
    Direct,
    Drop,
    Redirect,
    Socks,
    Shadowsocks,
    Trojan,
    Vmess,
    Tls,
    Ws,
    Quic,
    H2,
    TryAll,
    Random,
    Failover,
    Amux,
    Chain,
    Retry,
    Select,
}

/// An outbound declaration: a unique tag, a bind address, and the
/// protocol with its settings.
#[derive(Debug)]
pub struct Outbound {
    pub tag: String,
    pub bind: IpAddress,
    pub protocol: Protocol,
}

impl Protocol {
    pub open spec fn kind_spec(self) -> ProtocolKind {
        match self {
            Protocol::Direct => ProtocolKind::Direct,
            Protocol::Drop => ProtocolKind::Drop,
            Protocol::Redirect { .. } => ProtocolKind::Redirect,
            Protocol::Socks { .. } => ProtocolKind::Socks,
            Protocol::Shadowsocks { .. } => ProtocolKind::Shadowsocks,
            Protocol::Trojan { .. } => ProtocolKind::Trojan,
            Protocol::Vmess { .. } => ProtocolKind::Vmess,
            Protocol::Tls { .. } => ProtocolKind::Tls,
            Protocol::Ws { .. } => ProtocolKind::Ws,
            Protocol::Quic { .. } => ProtocolKind::Quic,
            Protocol::H2 { .. } => ProtocolKind::H2,
            Protocol::TryAll { .. } => ProtocolKind::TryAll,
            Protocol::Random { .. } => ProtocolKind::Random,
            Protocol::Failover { .. } => ProtocolKind::Failover,
            Protocol::Amux { .. } => ProtocolKind::Amux,
            Protocol::Chain { .. } => ProtocolKind::Chain,
            Protocol::Retry { .. } => ProtocolKind::Retry,
            Protocol::Select { .. } => ProtocolKind::Select,
        }
    }

    /// The actor tags the declaration references; empty for endpoint
    /// protocols.
    pub open spec fn actors_spec(self) -> Seq<String> {
        match self {
            Protocol::TryAll { actors, .. } => actors@,
            Protocol::Random { actors } => actors@,
            Protocol::Failover { actors, .. } => actors@,
            Protocol::Amux { actors, .. } => actors@,
            Protocol::Chain { actors } => actors@,
            Protocol::Retry { actors, .. } => actors@,
            Protocol::Select { actors } => actors@,
            _ => Seq::empty(),
        }
    }

    pub fn kind(&self) -> (k: ProtocolKind)
        ensures
            k == self.kind_spec(),
    {
        match self {
            Protocol::Direct => ProtocolKind::Direct,
            Protocol::Drop => ProtocolKind::Drop,
            Protocol::Redirect { .. } => ProtocolKind::Redirect,
            Protocol::Socks { .. } => ProtocolKind::Socks,
            Protocol::Shadowsocks { .. } => ProtocolKind::Shadowsocks,
            Protocol::Trojan { .. } => ProtocolKind::Trojan,
            Protocol::Vmess { .. } => ProtocolKind::Vmess,
            Protocol::Tls { .. } => ProtocolKind::Tls,
            Protocol::Ws { .. } => ProtocolKind::Ws,
            Protocol::Quic { .. } => ProtocolKind::Quic,
            Protocol::H2 { .. } => ProtocolKind::H2,
            Protocol::TryAll { .. } => ProtocolKind::TryAll,
            Protocol::Random { .. } => ProtocolKind::Random,
            Protocol::Failover { .. } => ProtocolKind::Failover,
            Protocol::Amux { .. } => ProtocolKind::Amux,
            Protocol::Chain { .. } => ProtocolKind::Chain,
            Protocol::Retry { .. } => ProtocolKind::Retry,
            Protocol::Select { .. } => ProtocolKind::Select,
        }
    }

    /// The actor tags the declaration references, or `None` for an
    /// endpoint protocol.
    pub fn actors(&self) -> (r: Option<&Vec<String>>)
        ensures
            match r {
                Some(v) => v@ == self.actors_spec(),
                None => self.actors_spec() == Seq::<String>::empty() && !is_combinator_kind(
                    self.kind_spec(),
                ) && self.kind_spec() != ProtocolKind::Select,
            },
    {
        match self {
            Protocol::TryAll { actors, .. } => Some(actors),
            Protocol::Random { actors } => Some(actors),
            Protocol::Failover { actors, .. } => Some(actors),
            Protocol::Amux { actors, .. } => Some(actors),
            Protocol::Chain { actors } => Some(actors),
            Protocol::Retry { actors, .. } => Some(actors),
            Protocol::Select { actors } => Some(actors),
            _ => None,
        }
    }
}

/// Endpoint protocols: instantiated in a single pass, with
/// self-contained settings.
pub open spec fn is_endpoint_kind(k: ProtocolKind) -> bool {
    match k {
        ProtocolKind::Direct
        | ProtocolKind::Drop
        | ProtocolKind::Redirect
        | ProtocolKind::Socks
        | ProtocolKind::Shadowsocks
        | ProtocolKind::Trojan
        | ProtocolKind::Vmess
        | ProtocolKind::Tls
        | ProtocolKind::Ws
        | ProtocolKind::Quic
        | ProtocolKind::H2 => true,
        _ => false,
    }
}

/// Combinator protocols, built in the fixed-point passes; the select
/// combinator is handled separately so that its state can persist
/// across reloads.
pub open spec fn is_combinator_kind(k: ProtocolKind) -> bool {
    match k {
        ProtocolKind::TryAll
        | ProtocolKind::Random
        | ProtocolKind::Failover
        | ProtocolKind::Amux
        | ProtocolKind::Chain
        | ProtocolKind::Retry => true,
        _ => false,
    }
}

/// Protocols with a UDP capability.
pub open spec fn kind_has_udp(k: ProtocolKind) -> bool {
    match k {
        ProtocolKind::Tls | ProtocolKind::Ws | ProtocolKind::Quic | ProtocolKind::H2
        | ProtocolKind::Amux => false,
        _ => true,
    }
}

/// Protocols whose handlers hold background tasks whose cancellation
/// handles the manager must own.
pub open spec fn kind_has_background_task(k: ProtocolKind) -> bool {
    k == ProtocolKind::Failover || k == ProtocolKind::Amux
}

/// Executable test for [`is_endpoint_kind`].
pub fn endpoint_kind(k: ProtocolKind) -> (r: bool)
    ensures
        r == is_endpoint_kind(k),
{
    match k {
        ProtocolKind::Direct
        | ProtocolKind::Drop
        | ProtocolKind::Redirect
        | ProtocolKind::Socks
        | ProtocolKind::Shadowsocks
        | ProtocolKind::Trojan
        | ProtocolKind::Vmess
        | ProtocolKind::Tls
        | ProtocolKind::Ws
        | ProtocolKind::Quic
        | ProtocolKind::H2 => true,
        _ => false,
    }
}

/// Executable test for [`is_combinator_kind`].
pub fn combinator_kind(k: ProtocolKind) -> (r: bool)
    ensures
        r == is_combinator_kind(k),
{
    match k {
        ProtocolKind::TryAll
        | ProtocolKind::Random
        | ProtocolKind::Failover
        | ProtocolKind::Amux
        | ProtocolKind::Chain
        | ProtocolKind::Retry => true,
        _ => false,
    }
}

/// Executable test for [`kind_has_background_task`].
pub fn background_kind(k: ProtocolKind) -> (r: bool)
    ensures
        r == kind_has_background_task(k),
{
    match k {
        ProtocolKind::Failover | ProtocolKind::Amux => true,
        _ => false,
    }
}

/// Overrides every declaration's bind address with the host-supplied
/// one, leaving tags and protocols untouched; embedders on mobile
/// platforms pin all outbound traffic to one interface this way.
pub fn override_binds(outbounds: &mut Vec<Outbound>, bind: IpAddress)
    ensures
        final(outbounds)@.len() == old(outbounds)@.len(),
        forall|i: int|
            0 <= i < final(outbounds)@.len() ==> #[trigger] final(outbounds)@[i].bind == bind
                && final(outbounds)@[i].tag == old(outbounds)@[i].tag
                && final(outbounds)@[i].protocol == old(outbounds)@[i].protocol,
{
    let ghost init = outbounds@;
    let mut done: Vec<Outbound> = Vec::new();
    while outbounds.len() > 0
        invariant
            done@.len() + outbounds@.len() == init.len(),
            outbounds@ =~= init.subrange(done@.len() as int, init.len() as int),
            forall|i: int|
                0 <= i < done@.len() ==> #[trigger] done@[i].bind == bind && done@[i].tag
                    == init[i].tag && done@[i].protocol == init[i].protocol,
        decreases outbounds@.len(),
    {
        let ghost at = done@.len() as int;
        let mut ob = outbounds.remove(0);
        proof {
            assert(ob == init[at]);
        }
        ob.bind = bind;
        done.push(ob);
    }
    *outbounds = done;
}

/// All outbound tags are distinct.
pub open spec fn unique_outbound_tags(obs: Seq<Outbound>) -> bool {
    forall|i: int, j: int| 0 <= i < j < obs.len() ==> obs[i].tag@ != obs[j].tag@
}

/// Returns the position of the first pair of declarations sharing a
/// tag, or `None` when all tags are distinct.
pub fn find_duplicate_tag(obs: &Vec<Outbound>) -> (r: Option<usize>)
    ensures
        match r {
            Some(j) => exists|i: int| 0 <= i < j < obs@.len() && obs@[i].tag@ == obs@[j as int].tag@,
            None => unique_outbound_tags(obs@),
        },
{
    let mut j: usize = 0;
    while j < obs.len()
        invariant
            j <= obs.len(),
            forall|a: int, b: int| 0 <= a < b < j ==> obs@[a].tag@ != obs@[b].tag@,
        decreases obs.len() - j,
    {
        let mut i: usize = 0;
        while i < j
            invariant
                i <= j < obs@.len(),
                forall|a: int| 0 <= a < i ==> obs@[a].tag@ != obs@[j as int].tag@,
            decreases j - i,
        {
            if crate::types::str_eq(&obs[i].tag, &obs[j].tag) {
                return Some(j);
            }
            i += 1;
        }
        j += 1;
    }
    None
}

} // verus!
