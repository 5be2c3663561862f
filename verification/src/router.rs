//! The router: an ordered rule evaluator that picks an outbound tag
//! for each new flow.

use vstd::prelude::*;

use crate::strutil::{contains_seq, ends_with, str_contains, str_ends_with};
use crate::types::{str_eq, Destination, IpAddress, Network, SocketAddress};

verus! {

/// One predicate of a routing rule. A rule matches when all its
/// predicates match.
#[derive(Debug)]
pub enum RulePredicate {
    /// The destination host name equals the value.
    DomainExact(String),
    /// The destination host name ends with the value.
    DomainSuffix(String),
    /// The destination host name contains the value.
    DomainKeyword(String),
    /// A destination address lies in the network `base/prefix`.
    IpCidr { base: IpAddress, prefix: u8 },
    /// The source address lies in the network `base/prefix`.
    SourceCidr { base: IpAddress, prefix: u8 },
    /// The destination's GeoIP country code equals the value.
    GeoIp(String),
    /// The destination port lies in the inclusive range.
    PortRange { start: u16, end: u16 },
    /// The flow's transport network equals the value.
    NetworkIs(Network),
    /// The tag of the inbound that produced the flow equals the value.
    InboundTag(String),
}

/// One routing rule: predicates joined by short-circuit AND, and the
/// outbound tag chosen when they all hold.
#[derive(Debug)]
pub struct Rule {
    pub predicates: Vec<RulePredicate>,
    pub target: String,
}

/// The attributes of a flow that the router reads. Destination IPs
/// resolved from a host name and the GeoIP country are supplied by the
/// caller, which owns the DNS client and the GeoIP database; when they
/// are absent, the predicates needing them do not match, and their
/// rules are skipped.
#[derive(Debug)]
pub struct RouteQuery {
    pub network: Network,
    pub source: SocketAddress,
    pub destination: Destination,
    pub inbound_tag: String,
    pub resolved_ips: Vec<IpAddress>,
    pub dest_country: Option<String>,
}

/// The address lies in the network `base/prefix`. Addresses of the
/// other family than the base never match; a prefix of zero matches
/// every address of the family; a prefix at or beyond the address
/// width demands equality.
pub open spec fn cidr_match(base: IpAddress, prefix: u8, ip: IpAddress) -> bool {
    match (base, ip) {
        (IpAddress::V4(b), IpAddress::V4(a)) => if prefix == 0 {
            true
        } else if prefix >= 32 {
            a == b
        } else {
            a >> ((32 - prefix) as u32) == b >> ((32 - prefix) as u32)
        },
        (IpAddress::V6(b), IpAddress::V6(a)) => if prefix == 0 {
            true
        } else if prefix >= 128 {
            a == b
        } else {
            a >> ((128 - prefix) as u128) == b >> ((128 - prefix) as u128)
        },
        _ => false,
    }
}

/// The destination addresses a predicate on the destination IP ranges
/// over: the literal address, or the resolved addresses of a host
/// name.
pub open spec fn dest_candidates(q: RouteQuery) -> Seq<IpAddress> {
    match q.destination {
        Destination::Ip(sa) => seq![sa.ip],
        Destination::Domain(_, _) => q.resolved_ips@,
    }
}

/// The destination port of the query.
pub open spec fn dest_port(q: RouteQuery) -> u16 {
    match q.destination {
        Destination::Ip(sa) => sa.port,
        Destination::Domain(_, p) => p,
    }
}

/// The predicate holds of the query.
pub open spec fn pred_matches(p: RulePredicate, q: RouteQuery) -> bool {
    match p {
        RulePredicate::DomainExact(d) => match q.destination {
            Destination::Domain(h, _) => h@ == d@,
            _ => false,
        },
        RulePredicate::DomainSuffix(d) => match q.destination {
            Destination::Domain(h, _) => ends_with(h@, d@),
            _ => false,
        },
        RulePredicate::DomainKeyword(d) => match q.destination {
            Destination::Domain(h, _) => contains_seq(h@, d@),
            _ => false,
        },
        RulePredicate::IpCidr { base, prefix } => exists|i: int|
            0 <= i < dest_candidates(q).len() && cidr_match(base, prefix, dest_candidates(q)[i]),
        RulePredicate::SourceCidr { base, prefix } => cidr_match(base, prefix, q.source.ip),
        RulePredicate::GeoIp(c) => match q.dest_country {
            Some(cc) => cc@ == c@,
            None => false,
        },
        RulePredicate::PortRange { start, end } => start <= dest_port(q) && dest_port(q) <= end,
        RulePredicate::NetworkIs(n) => q.network == n,
        RulePredicate::InboundTag(t) => q.inbound_tag@ == t@,
    }
}

/// The rule matches: all its predicates hold.
pub open spec fn rule_matches(r: Rule, q: RouteQuery) -> bool {
    forall|i: int| 0 <= i < r.predicates@.len() ==> pred_matches(#[trigger] r.predicates@[i], q)
}

/// The target of the first matching rule, in declaration order.
pub open spec fn first_match_target(rules: Seq<Rule>, q: RouteQuery) -> Option<Seq<char>>
    decreases rules.len(),
{
    if rules.len() == 0 {
        None
    } else if rule_matches(rules[0], q) {
        Some(rules[0].target@)
    } else {
        first_match_target(rules.drop_first(), q)
    }
}

/// When no rule before `i` matches and rule `i` does, the first
/// matching target is rule `i`'s.
proof fn lemma_first_match_at(rules: Seq<Rule>, q: RouteQuery, i: int)
    requires
        0 <= i < rules.len(),
        rule_matches(rules[i], q),
        forall|j: int| 0 <= j < i ==> !rule_matches(#[trigger] rules[j], q),
    ensures
        first_match_target(rules, q) == Some(rules[i].target@),
    decreases i,
{
    if i == 0 {
    } else {
        assert(!rule_matches(rules[0], q));
        assert(rules.drop_first()[i - 1] == rules[i]);
        assert forall|j: int| 0 <= j < i - 1 implies !rule_matches(
            #[trigger] rules.drop_first()[j],
            q,
        ) by {
            assert(rules.drop_first()[j] == rules[j + 1]);
        }
        lemma_first_match_at(rules.drop_first(), q, i - 1);
    }
}

/// When no rule matches, there is no first matching target.
proof fn lemma_first_match_none(rules: Seq<Rule>, q: RouteQuery)
    requires
        forall|j: int| 0 <= j < rules.len() ==> !rule_matches(#[trigger] rules[j], q),
    ensures
        first_match_target(rules, q) is None,
    decreases rules.len(),
{
    if rules.len() > 0 {
        assert forall|j: int| 0 <= j < rules.drop_first().len() implies !rule_matches(
            #[trigger] rules.drop_first()[j],
            q,
        ) by {
            assert(rules.drop_first()[j] == rules[j + 1]);
        }
        lemma_first_match_none(rules.drop_first(), q);
    }
}

/// Returns true exactly when the address lies in `base/prefix`.
pub fn cidr_contains(base: IpAddress, prefix: u8, ip: IpAddress) -> (r: bool)
    ensures
        r == cidr_match(base, prefix, ip),
{
    match (base, ip) {
        (IpAddress::V4(b), IpAddress::V4(a)) => {
            if prefix == 0 {
                true
            } else if prefix >= 32 {
                a == b
            } else {
                let shift: u32 = (32 - prefix) as u32;
                (a >> shift) == (b >> shift)
            }
        },
        (IpAddress::V6(b), IpAddress::V6(a)) => {
            if prefix == 0 {
                true
            } else if prefix >= 128 {
                a == b
            } else {
                let shift: u128 = (128 - prefix) as u128;
                (a >> shift) == (b >> shift)
            }
        },
        _ => false,
    }
}

/// Returns true exactly when the predicate holds of the query.
pub fn pred_match(p: &RulePredicate, q: &RouteQuery) -> (r: bool)
    ensures
        r == pred_matches(*p, *q),
{
    match p {
        RulePredicate::DomainExact(d) => match &q.destination {
            Destination::Domain(h, _) => str_eq(h, d),
            _ => false,
        },
        RulePredicate::DomainSuffix(d) => match &q.destination {
            Destination::Domain(h, _) => str_ends_with(h.as_str(), d.as_str()),
            _ => false,
        },
        RulePredicate::DomainKeyword(d) => match &q.destination {
            Destination::Domain(h, _) => str_contains(h.as_str(), d.as_str()),
            _ => false,
        },
        RulePredicate::IpCidr { base, prefix } => {
            match &q.destination {
                Destination::Ip(sa) => {
                    let hit = cidr_contains(*base, *prefix, sa.ip);
                    proof {
                        assert(dest_candidates(*q) =~= seq![sa.ip]);
                        if hit {
                            assert(cidr_match(*base, *prefix, dest_candidates(*q)[0]));
                        }
                    }
                    hit
                },
                Destination::Domain(_, _) => {
                    let mut i: usize = 0;
                    let mut hit = false;
                    while i < q.resolved_ips.len()
                        invariant
                            i <= q.resolved_ips@.len(),
                            dest_candidates(*q) == q.resolved_ips@,
                            hit ==> exists|j: int|
                                0 <= j < q.resolved_ips@.len() && cidr_match(
                                    *base,
                                    *prefix,
                                    q.resolved_ips@[j],
                                ),
                            !hit ==> forall|j: int|
                                0 <= j < i ==> !cidr_match(*base, *prefix, q.resolved_ips@[j]),
                        decreases q.resolved_ips@.len() - i,
                    {
                        if cidr_contains(*base, *prefix, q.resolved_ips[i]) {
                            hit = true;
                        }
                        i += 1;
                    }
                    hit
                },
            }
        },
        RulePredicate::SourceCidr { base, prefix } => cidr_contains(*base, *prefix, q.source.ip),
        RulePredicate::GeoIp(c) => match &q.dest_country {
            Some(cc) => str_eq(cc, c),
            None => false,
        },
        RulePredicate::PortRange { start, end } => {
            let port = match &q.destination {
                Destination::Ip(sa) => sa.port,
                Destination::Domain(_, p) => *p,
            };
            *start <= port && port <= *end
        },
        RulePredicate::NetworkIs(n) => {
            let m = match (&q.network, n) {
                (Network::Tcp, Network::Tcp) => true,
                (Network::Udp, Network::Udp) => true,
                _ => false,
            };
            m
        },
        RulePredicate::InboundTag(t) => str_eq(&q.inbound_tag, t),
    }
}

/// Returns true exactly when all predicates of the rule hold of the
/// query; predicates are evaluated left to right with short-circuit
/// AND.
pub fn rule_match(r: &Rule, q: &RouteQuery) -> (res: bool)
    ensures
        res == rule_matches(*r, *q),
{
    let mut i: usize = 0;
    while i < r.predicates.len()
        invariant
            i <= r.predicates@.len(),
            forall|j: int| 0 <= j < i ==> pred_matches(#[trigger] r.predicates@[j], *q),
        decreases r.predicates@.len() - i,
    {
        if !pred_match(&r.predicates[i], q) {
            return false;
        }
        i += 1;
    }
    true
}

/// The router: an ordered rule list, evaluated in declaration order;
/// the first match wins; on no match the caller falls back to the
/// outbound manager's default handler.
#[derive(Debug)]
pub struct Router {
    pub rules: Vec<Rule>,
}

impl Router {
    pub fn new(rules: Vec<Rule>) -> (r: Router)
        ensures
            r.rules@ == rules@,
    {
        Router { rules }
    }

    /// Picks the outbound tag for a flow: the target of the first rule
    /// whose predicates all hold, or nothing when no rule matches.
    ///
    /// The result is a function of the rule list and the query alone:
    /// a fixed rule set and a fixed flow always yield the target of
    /// the first matching rule.
    pub fn route(&self, q: &RouteQuery) -> (r: Option<&String>)
        ensures
            match r {
                Some(t) => first_match_target(self.rules@, *q) == Some(t@),
                None => first_match_target(self.rules@, *q) is None,
            },
            match r {
                Some(t) => exists|i: int|
                    0 <= i < self.rules@.len() && rule_matches(#[trigger] self.rules@[i], *q)
                        && t@ == self.rules@[i].target@ && forall|j: int|
                        0 <= j < i ==> !rule_matches(#[trigger] self.rules@[j], *q),
                None => forall|i: int|
                    0 <= i < self.rules@.len() ==> !rule_matches(#[trigger] self.rules@[i], *q),
            },
    {
        let mut i: usize = 0;
        while i < self.rules.len()
            invariant
                i <= self.rules@.len(),
                forall|j: int| 0 <= j < i ==> !rule_matches(#[trigger] self.rules@[j], *q),
            decreases self.rules@.len() - i,
        {
            if rule_match(&self.rules[i], q) {
                proof {
                    lemma_first_match_at(self.rules@, *q, i as int);
                }
                return Some(&self.rules[i].target);
            }
            i += 1;
        }
        proof {
            lemma_first_match_none(self.rules@, *q);
        }
        None
    }
}

} // verus!
