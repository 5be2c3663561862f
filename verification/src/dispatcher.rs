//! The dispatcher's per-flow decisions: recover a host name from a
//! fake-DNS address, pick the outbound tag through the router, and
//! resolve the tag to a handler with fallback to the default.
//!
//! The surrounding per-flow pipeline — opening the outbound stream,
//! copying bytes, timers — performs these decisions' outcome; the
//! decisions themselves are pure functions of the flow's attributes
//! and the managers' state.

use vstd::prelude::*;

use crate::config::ProtocolKind;
use crate::fakedns::FakeDns;
use crate::manager::{has_selector_tag, has_tag, selector_selected_of, Handler, OutboundManager};
use crate::natmgr::{NatEntry, NatManager};
use crate::router::{first_match_target, RouteQuery, Router};
use crate::selector::opt_str_view;
use crate::types::{Destination, Flow, IpAddress, SocketAddress};

verus! {

/// The router's view of a flow, before any name resolution or GeoIP
/// lookup has been done for it.
pub fn route_query_of_flow(flow: Flow) -> (q: RouteQuery)
    ensures
        q.network == flow.network,
        q.source == flow.source,
        q.destination == flow.destination,
        q.inbound_tag@ == flow.inbound_tag@,
        q.resolved_ips@.len() == 0,
        q.dest_country is None,
{
    RouteQuery {
        network: flow.network,
        source: flow.source,
        destination: flow.destination,
        inbound_tag: flow.inbound_tag,
        resolved_ips: Vec::new(),
        dest_country: None,
    }
}

/// The destination substitution holds: a destination inside the fake
/// pool whose address has a binding became the bound host name with
/// the original port; everything else passed through unchanged.
pub open spec fn substituted(dest: Destination, fakedns: FakeDns, r: Destination) -> bool {
    match dest {
        Destination::Ip(sa) => match sa.ip {
            IpAddress::V4(ip4) => match fakedns.reverse_spec(ip4) {
                Some(h) => if fakedns.in_pool(ip4) {
                    match r {
                        Destination::Domain(rh, rp) => rh@ == h && rp == sa.port,
                        _ => false,
                    }
                } else {
                    r == dest
                },
                None => r == dest,
            },
            _ => r == dest,
        },
        _ => r == dest,
    }
}

/// Replaces a destination address taken from the fake-DNS pool by the
/// host name bound to it, so that routing and the outbound connect see
/// the name the client originally asked for.
pub fn effective_destination(dest: &Destination, fakedns: &FakeDns) -> (r: Destination)
    requires
        fakedns.wf(),
    ensures
        substituted(*dest, *fakedns, r),
{
    match dest {
        Destination::Ip(sa) => {
            match sa.ip {
                IpAddress::V4(ip4) => {
                    if fakedns.is_fake_ip(ip4) {
                        match fakedns.reverse(ip4) {
                            Some(h) => Destination::Domain(h.clone(), sa.port),
                            None => dest.clone(),
                        }
                    } else {
                        dest.clone()
                    }
                },
                _ => dest.clone(),
            }
        },
        _ => dest.clone(),
    }
}

/// The tag the dispatcher resolves for a query: the first matching
/// rule's target when a handler carries it, else the default handler's
/// tag when a handler carries that; otherwise nothing, and the flow is
/// closed.
pub open spec fn dispatch_tag_spec(om: OutboundManager, router: Router, q: RouteQuery) -> Option<
    Seq<char>,
> {
    match first_match_target(router.rules@, q) {
        Some(t) => if has_tag(om.handlers@, t) {
            Some(t)
        } else {
            default_tag_spec(om)
        },
        None => default_tag_spec(om),
    }
}

/// The default handler's tag, when the manager has one registered.
pub open spec fn default_tag_spec(om: OutboundManager) -> Option<Seq<char>> {
    match om.default_handler {
        Some(d) => if has_tag(om.handlers@, d@) {
            Some(d@)
        } else {
            None
        },
        None => None,
    }
}

/// Resolves the routed tag to a handler, falling back to the default
/// handler when the routed tag names none.
pub fn select_handler<'a>(om: &'a OutboundManager, router: &Router, q: &RouteQuery) -> (r: Option<
    &'a Handler,
>)
    ensures
        match r {
            Some(h) => Some(h.tag@) == dispatch_tag_spec(*om, *router, *q) && exists|i: int|
                0 <= i < om.handlers@.len() && om.handlers@[i] == *h,
            None => dispatch_tag_spec(*om, *router, *q) is None,
        },
{
    match router.route(q) {
        Some(tag) => {
            let t = tag.clone();
            match om.get(&t) {
                Some(h) => Some(h),
                None => fallback_default(om),
            }
        },
        None => fallback_default(om),
    }
}

/// Looks up the default handler.
fn fallback_default<'a>(om: &'a OutboundManager) -> (r: Option<&'a Handler>)
    ensures
        match r {
            Some(h) => Some(h.tag@) == default_tag_spec(*om) && exists|i: int|
                0 <= i < om.handlers@.len() && om.handlers@[i] == *h,
            None => default_tag_spec(*om) is None,
        },
{
    match om.default_handler() {
        Some(d) => om.get(&d),
        None => None,
    }
}

/// The dispatcher's whole TCP-path decision: substitute a fake-DNS
/// destination, route the substituted flow, and resolve the handler.
/// Reload replaces the manager's maps; the handler reference handed
/// out here stays tied to the graph generation it was taken from, so
/// an in-progress flow completes against its originally selected
/// handler.
pub fn dispatch_tcp<'a>(
    om: &'a OutboundManager,
    router: &Router,
    fakedns: &FakeDns,
    q: RouteQuery,
) -> (r: (Destination, Option<&'a Handler>))
    requires
        fakedns.wf(),
    ensures
        substituted(q.destination, *fakedns, r.0),
        match r.1 {
            Some(h) => Some(h.tag@) == dispatch_tag_spec(
                *om,
                *router,
                RouteQuery { destination: r.0, ..q },
            ) && exists|i: int| 0 <= i < om.handlers@.len() && om.handlers@[i] == *h,
            None => dispatch_tag_spec(*om, *router, RouteQuery { destination: r.0, ..q }) is None,
        },
{
    let dest = effective_destination(&q.destination, fakedns);
    let q2 = RouteQuery {
        network: q.network,
        source: q.source,
        destination: dest,
        inbound_tag: q.inbound_tag,
        resolved_ips: q.resolved_ips,
        dest_country: q.dest_country,
    };
    let h = select_handler(om, router, &q2);
    (q2.destination, h)
}

/// Resolves a select combinator to its selected actor's handler: a
/// select handler forwards to exactly the one actor its selector
/// names; any other handler serves the flow itself. Nothing is
/// returned when the selector is missing, has no selection, or names
/// an actor the manager does not carry.
pub fn resolve_selected<'a>(om: &'a OutboundManager, handler: &'a Handler) -> (r: Option<
    &'a Handler,
>)
    requires
        om.wf(),
    ensures
        handler.kind != ProtocolKind::Select ==> r == Some(handler),
        handler.kind == ProtocolKind::Select ==> match r {
            Some(h2) => {
                &&& has_selector_tag(om.selectors@, handler.tag@)
                &&& selector_selected_of(om.selectors@, handler.tag@) == Some(h2.tag@)
                &&& exists|i: int| 0 <= i < om.handlers@.len() && om.handlers@[i] == *h2
            },
            None => !has_selector_tag(om.selectors@, handler.tag@) || match selector_selected_of(
                om.selectors@,
                handler.tag@,
            ) {
                Some(t) => !has_tag(om.handlers@, t),
                None => true,
            },
        },
{
    if !matches!(handler.kind, ProtocolKind::Select) {
        return Some(handler);
    }
    match om.get_selector(&handler.tag) {
        Some(sel) => {
            proof {
                let w = choose|i: int|
                    0 <= i < om.selectors@.len() && om.selectors@[i].tag@ == handler.tag@;
                let v = choose|i: int|
                    0 <= i < om.selectors@.len() && om.selectors@[i] == *sel && sel.tag@
                        == handler.tag@;
                if w != v {
                    if w < v {
                        assert(om.selectors@[w].tag@ != om.selectors@[v].tag@);
                    } else {
                        assert(om.selectors@[v].tag@ != om.selectors@[w].tag@);
                    }
                }
            }
            match sel.get_selected_tag() {
                Some(t) => om.get(&t),
                None => None,
            }
        },
        None => None,
    }
}

/// The dispatcher's UDP path: key the flow's `(source, dest)` pair
/// into the NAT table — reusing the live session or creating one — and
/// resolve the handler whose UDP capability serves the session.
pub fn dispatch_udp<'a>(
    om: &'a OutboundManager,
    router: &Router,
    sessions: &mut NatManager,
    source: SocketAddress,
    dest: SocketAddress,
    q: &RouteQuery,
    now: u64,
) -> (r: ((u64, bool), Option<&'a Handler>))
    requires
        old(sessions).wf(),
        old(sessions).next_session < u64::MAX,
    ensures
        final(sessions).wf(),
        final(sessions).timeout == old(sessions).timeout,
        final(sessions).entry_for(source, dest) == Some(
            NatEntry { source, dest, session: r.0.0, last_activity: now },
        ),
        match old(sessions).entry_for(source, dest) {
            Some(e) => if old(sessions).live(e, now) {
                r.0.0 == e.session && r.0.1 == false
            } else {
                r.0.0 == old(sessions).next_session && r.0.1 == true
            },
            None => r.0.0 == old(sessions).next_session && r.0.1 == true,
        },
        match r.1 {
            Some(h) => Some(h.tag@) == dispatch_tag_spec(*om, *router, *q) && exists|i: int|
                0 <= i < om.handlers@.len() && om.handlers@[i] == *h,
            None => dispatch_tag_spec(*om, *router, *q) is None,
        },
{
    let session = sessions.get_or_create(source, dest, now);
    let handler = select_handler(om, router, q);
    (session, handler)
}

} // verus!
