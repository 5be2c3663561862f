//! The outbound manager: builds the handler graph from a sequence of
//! outbound declarations by fixed-point construction, provides
//! tag-indexed lookup, and reloads the graph while preserving the
//! selection state of `select` combinators.

use vstd::prelude::*;

use crate::config::{
    find_duplicate_tag, is_combinator_kind, is_endpoint_kind, kind_has_background_task,
    kind_has_udp, unique_outbound_tags, Outbound, ProtocolKind,
};
use crate::errors::Error;
use crate::selector::{opt_str_view, OutboundSelector};
use crate::types::{clone_strings, contains_str, str_eq};

verus! {

/// An outbound handler: a protocol endpoint or a combinator delegating
/// to other handlers through its actor tags. The protocol-specific
/// connect parameters stay with the declaration; the handler carries
/// what dispatch decisions read.
#[derive(Debug)]
pub struct Handler {
    pub tag: String,
    pub kind: ProtocolKind,
    pub has_tcp: bool,
    pub has_udp: bool,
    pub actors: Vec<String>,
}

/// Field-wise equality of handlers up to string views.
pub open spec fn handler_eq(a: Handler, b: Handler) -> bool {
    a.tag@ == b.tag@ && a.kind == b.kind && a.has_tcp == b.has_tcp && a.has_udp == b.has_udp
        && seq_str_eq(a.actors@, b.actors@)
}

impl Clone for Handler {
    fn clone(&self) -> (res: Self)
        ensures
            handler_eq(res, *self),
    {
        Handler {
            tag: self.tag.clone(),
            kind: self.kind,
            has_tcp: self.has_tcp,
            has_udp: self.has_udp,
            actors: clone_strings(&self.actors),
        }
    }
}

/// Element-wise view equality of two string sequences.
pub open spec fn seq_str_eq(a: Seq<String>, b: Seq<String>) -> bool {
    a.len() == b.len() && forall|i: int| 0 <= i < a.len() ==> a[i]@ == b[i]@
}

/// Some registered handler carries the tag.
pub open spec fn has_tag(hs: Seq<Handler>, t: Seq<char>) -> bool {
    exists|i: int| 0 <= i < hs.len() && hs[i].tag@ == t
}

/// All registered handlers carry distinct tags.
pub open spec fn unique_handler_tags(hs: Seq<Handler>) -> bool {
    forall|i: int, j: int| 0 <= i < j < hs.len() ==> hs[i].tag@ != hs[j].tag@
}

/// Every tag in `actors` names a registered handler.
pub open spec fn actors_resolve(hs: Seq<Handler>, actors: Seq<String>) -> bool {
    forall|k: int| 0 <= k < actors.len() ==> has_tag(hs, #[trigger] actors[k]@)
}

/// Graph closure: every handler's actor list resolves to registered
/// handlers.
pub open spec fn graph_closed(hs: Seq<Handler>) -> bool {
    forall|i: int| 0 <= i < hs.len() ==> actors_resolve(hs, #[trigger] hs[i].actors@)
}

/// The handler is the one the declaration describes: same tag, the
/// declaration's protocol and actor tags, a TCP capability, and a UDP
/// capability exactly when the protocol has one.
pub open spec fn matches_decl(h: Handler, ob: Outbound) -> bool {
    h.tag@ == ob.tag@ && h.kind == ob.protocol.kind_spec() && seq_str_eq(
        h.actors@,
        ob.protocol.actors_spec(),
    ) && h.has_tcp == true && h.has_udp == kind_has_udp(h.kind)
}

/// Every registered handler was built from one of the declarations.
pub open spec fn handlers_from_decls(hs: Seq<Handler>, obs: Seq<Outbound>) -> bool {
    forall|i: int| 0 <= i < hs.len() ==> exists|j: int|
        0 <= j < obs.len() && matches_decl(#[trigger] hs[i], obs[j])
}

/// Every endpoint declaration is registered.
pub open spec fn endpoints_built(hs: Seq<Handler>, obs: Seq<Outbound>) -> bool {
    forall|j: int|
        0 <= j < obs.len() && is_endpoint_kind(#[trigger] obs[j].protocol.kind_spec()) ==> has_tag(
            hs,
            obs[j].tag@,
        )
}

/// The tag names an endpoint declaration.
pub open spec fn tag_declared_endpoint(obs: Seq<Outbound>, t: Seq<char>) -> bool {
    exists|j: int| 0 <= j < obs.len() && obs[j].tag@ == t && is_endpoint_kind(
        obs[j].protocol.kind_spec(),
    )
}

/// A combinator declaration whose actors all name endpoint
/// declarations; such a combinator resolves in the first fixed-point
/// scan. Empty-actor combinators are skipped.
pub open spec fn combinator_ready(ob: Outbound, obs: Seq<Outbound>) -> bool {
    is_combinator_kind(ob.protocol.kind_spec()) && ob.protocol.actors_spec().len() > 0 && forall|
        a: int,
    |
        0 <= a < ob.protocol.actors_spec().len() ==> tag_declared_endpoint(
            obs,
            #[trigger] ob.protocol.actors_spec()[a]@,
        )
}

/// The tag of the first declaration whose protocol is an endpoint:
/// the first leaf encountered becomes the default handler.
pub open spec fn first_endpoint_tag(obs: Seq<Outbound>) -> Option<Seq<char>>
    decreases obs.len(),
{
    if obs.len() == 0 {
        None
    } else if is_endpoint_kind(obs[0].protocol.kind_spec()) {
        Some(obs[0].tag@)
    } else {
        first_endpoint_tag(obs.drop_first())
    }
}

/// When no declaration before `i` is an endpoint and declaration `i`
/// is, the first endpoint tag is declaration `i`'s.
proof fn lemma_first_endpoint_at(obs: Seq<Outbound>, i: int)
    requires
        0 <= i < obs.len(),
        is_endpoint_kind(obs[i].protocol.kind_spec()),
        forall|j: int| 0 <= j < i ==> !is_endpoint_kind(#[trigger] obs[j].protocol.kind_spec()),
    ensures
        first_endpoint_tag(obs) == Some(obs[i].tag@),
    decreases i,
{
    if i == 0 {
    } else {
        assert(!is_endpoint_kind(obs[0].protocol.kind_spec()));
        assert(obs.drop_first()[i - 1] == obs[i]);
        assert forall|j: int| 0 <= j < i - 1 implies !is_endpoint_kind(
            #[trigger] obs.drop_first()[j].protocol.kind_spec(),
        ) by {
            assert(obs.drop_first()[j] == obs[j + 1]);
        }
        lemma_first_endpoint_at(obs.drop_first(), i - 1);
    }
}

/// When no declaration is an endpoint, there is no first endpoint tag.
proof fn lemma_first_endpoint_none(obs: Seq<Outbound>)
    requires
        forall|j: int| 0 <= j < obs.len() ==> !is_endpoint_kind(
            #[trigger] obs[j].protocol.kind_spec(),
        ),
    ensures
        first_endpoint_tag(obs) is None,
    decreases obs.len(),
{
    if obs.len() > 0 {
        assert forall|j: int| 0 <= j < obs.drop_first().len() implies !is_endpoint_kind(
            #[trigger] obs.drop_first()[j].protocol.kind_spec(),
        ) by {
            assert(obs.drop_first()[j] == obs[j + 1]);
        }
        lemma_first_endpoint_none(obs.drop_first());
    }
}

/// The declaration names a combinator or select with no actors; such a
/// declaration is skipped, never registered.
pub open spec fn empty_actor_decl(ob: Outbound) -> bool {
    (is_combinator_kind(ob.protocol.kind_spec()) || ob.protocol.kind_spec()
        == ProtocolKind::Select) && ob.protocol.actors_spec().len() == 0
}

/// No empty-actor combinator or select declaration is registered.
pub open spec fn empty_actor_decls_absent(hs: Seq<Handler>, obs: Seq<Outbound>) -> bool {
    forall|j: int| 0 <= j < obs.len() && empty_actor_decl(#[trigger] obs[j]) ==> !has_tag(
        hs,
        obs[j].tag@,
    )
}

/// No empty-actor select declaration has a selector.
pub open spec fn empty_actor_selectors_absent(
    ss: Seq<OutboundSelector>,
    obs: Seq<Outbound>,
) -> bool {
    forall|j: int| 0 <= j < obs.len() && empty_actor_decl(#[trigger] obs[j]) ==> !has_selector_tag(
        ss,
        obs[j].tag@,
    )
}

/// Every depth-one combinator declaration is registered.
pub open spec fn ready_combinators_built(hs: Seq<Handler>, obs: Seq<Outbound>) -> bool {
    forall|j: int| 0 <= j < obs.len() && combinator_ready(#[trigger] obs[j], obs) ==> has_tag(
        hs,
        obs[j].tag@,
    )
}

/// The declaration resolves within `depth` combinator scans: an
/// endpoint, or a non-empty combinator whose actors all name
/// declarations resolving one scan earlier.
pub open spec fn buildable_within(obs: Seq<Outbound>, j: int, depth: nat) -> bool
    decreases depth, 1int,
{
    if !(0 <= j < obs.len()) {
        false
    } else if depth == 0 {
        is_endpoint_kind(obs[j].protocol.kind_spec())
    } else {
        buildable_within(obs, j, (depth - 1) as nat) || (is_combinator_kind(
            obs[j].protocol.kind_spec(),
        ) && obs[j].protocol.actors_spec().len() > 0 && forall|a: int|
            0 <= a < obs[j].protocol.actors_spec().len() ==> actor_buildable(
                obs,
                #[trigger] obs[j].protocol.actors_spec()[a]@,
                (depth - 1) as nat,
            ))
    }
}

/// Some declaration carries the actor tag and resolves within `depth`
/// scans.
pub open spec fn actor_buildable(obs: Seq<Outbound>, t: Seq<char>, depth: nat) -> bool
    decreases depth, 2int,
{
    exists|j2: int|
        0 <= j2 < obs.len() && (#[trigger] obs[j2].tag@) == t && buildable_within(obs, j2, depth)
}

/// Produces the declaration a buildable actor tag names.
proof fn lemma_actor_witness(obs: Seq<Outbound>, t: Seq<char>, depth: nat) -> (j2: int)
    requires
        actor_buildable(obs, t, depth),
    ensures
        0 <= j2 < obs.len(),
        obs[j2].tag@ == t,
        buildable_within(obs, j2, depth),
{
    choose|j2: int|
        0 <= j2 < obs.len() && (#[trigger] obs[j2].tag@) == t && buildable_within(obs, j2, depth)
}

/// A declaration that resolves within `depth + 1` scans but not within
/// `depth` is a non-empty combinator whose actors all resolve within
/// `depth`.
proof fn lemma_buildable_step(obs: Seq<Outbound>, j: int, depth: nat)
    requires
        buildable_within(obs, j, depth + 1),
        !buildable_within(obs, j, depth),
    ensures
        0 <= j < obs.len(),
        is_combinator_kind(obs[j].protocol.kind_spec()),
        obs[j].protocol.actors_spec().len() > 0,
        forall|a: int|
            0 <= a < obs[j].protocol.actors_spec().len() ==> actor_buildable(
                obs,
                #[trigger] obs[j].protocol.actors_spec()[a]@,
                depth,
            ),
{
}

/// Every declaration resolving within `depth` scans is registered: the
/// fixed-point construction is complete up to its scan bound.
pub open spec fn built_within(hs: Seq<Handler>, obs: Seq<Outbound>, depth: nat) -> bool {
    forall|j: int| 0 <= j < obs.len() && #[trigger] buildable_within(obs, j, depth) ==> has_tag(
        hs,
        obs[j].tag@,
    )
}

/// A select declaration whose actors all name endpoint declarations
/// and are not empty; such a selector resolves in the first selector
/// scan.
pub open spec fn select_ready(ob: Outbound, obs: Seq<Outbound>) -> bool {
    ob.protocol.kind_spec() == ProtocolKind::Select && ob.protocol.actors_spec().len() > 0
        && forall|a: int|
        0 <= a < ob.protocol.actors_spec().len() ==> tag_declared_endpoint(
            obs,
            #[trigger] ob.protocol.actors_spec()[a]@,
        )
}

/// Every depth-one select declaration is registered.
pub open spec fn ready_selects_built(hs: Seq<Handler>, obs: Seq<Outbound>) -> bool {
    forall|j: int| 0 <= j < obs.len() && select_ready(#[trigger] obs[j], obs) ==> has_tag(
        hs,
        obs[j].tag@,
    )
}

/// Some handler with background tasks carries the tag.
pub open spec fn tag_has_background_handler(hs: Seq<Handler>, t: Seq<char>) -> bool {
    exists|i: int| 0 <= i < hs.len() && hs[i].tag@ == t && kind_has_background_task(hs[i].kind)
}

/// The tag is on the cancellation list.
pub open spec fn tag_in_aborts(ts: Seq<String>, t: Seq<char>) -> bool {
    exists|k: int| 0 <= k < ts.len() && ts[k]@ == t
}

/// The manager owns the cancellation handles of exactly the handlers
/// that hold background tasks.
pub open spec fn abort_tags_ok(hs: Seq<Handler>, ts: Seq<String>) -> bool {
    &&& forall|k: int| 0 <= k < ts.len() ==> tag_has_background_handler(hs, #[trigger] ts[k]@)
    &&& forall|i: int|
        0 <= i < hs.len() && kind_has_background_task(#[trigger] hs[i].kind) ==> tag_in_aborts(
            ts,
            hs[i].tag@,
        )
}

/// Background-handler presence is kept when the handler list only
/// grows.
proof fn lemma_bg_mono(hs: Seq<Handler>, hs2: Seq<Handler>, t: Seq<char>)
    requires
        tag_has_background_handler(hs, t),
        hs2.len() >= hs.len(),
        forall|i: int| 0 <= i < hs.len() ==> hs2[i] == hs[i],
    ensures
        tag_has_background_handler(hs2, t),
{
    let i = choose|i: int|
        0 <= i < hs.len() && hs[i].tag@ == t && kind_has_background_task(hs[i].kind);
    assert(hs2[i] == hs[i]);
}

/// Some handler at or beyond position `lo` carries the tag: new
/// cancellation entries are backed by newly registered handlers.
pub open spec fn new_tag_backed(hs: Seq<Handler>, lo: int, t: Seq<char>) -> bool {
    exists|x: int| lo <= x < hs.len() && hs[x].tag@ == t
}

/// Backing by a new handler is kept when the handler list only grows.
proof fn lemma_backed_mono(hs: Seq<Handler>, hs2: Seq<Handler>, lo: int, t: Seq<char>)
    requires
        0 <= lo,
        new_tag_backed(hs, lo, t),
        hs2.len() >= hs.len(),
        forall|i: int| 0 <= i < hs.len() ==> hs2[i] == hs[i],
    ensures
        new_tag_backed(hs2, lo, t),
{
    let x = choose|x: int| lo <= x < hs.len() && hs[x].tag@ == t;
    assert(hs2[x] == hs[x]);
}

/// Cancellation-list membership is kept when the list only grows.
proof fn lemma_aborts_mono(ts: Seq<String>, ts2: Seq<String>, t: Seq<char>)
    requires
        tag_in_aborts(ts, t),
        ts2.len() >= ts.len(),
        forall|k: int| 0 <= k < ts.len() ==> ts2[k] == ts[k],
    ensures
        tag_in_aborts(ts2, t),
{
    let k = choose|k: int| 0 <= k < ts.len() && ts[k]@ == t;
    assert(ts2[k] == ts[k]);
}

/// All registered selectors carry distinct tags.
pub open spec fn unique_selector_tags(ss: Seq<OutboundSelector>) -> bool {
    forall|i: int, j: int| 0 <= i < j < ss.len() ==> ss[i].tag@ != ss[j].tag@
}

/// Some registered selector carries the tag.
pub open spec fn has_selector_tag(ss: Seq<OutboundSelector>, t: Seq<char>) -> bool {
    exists|i: int| 0 <= i < ss.len() && ss[i].tag@ == t
}

/// Selector actor lists resolve to registered handlers, and every
/// selection names an actor.
pub open spec fn selectors_resolve(ss: Seq<OutboundSelector>, hs: Seq<Handler>) -> bool {
    forall|i: int|
        0 <= i < ss.len() ==> actors_resolve(hs, #[trigger] ss[i].actors@) && ss[i].wf()
}

/// Each selector is registered alongside a select handler of the same
/// tag, and each select handler has its selector.
pub open spec fn selectors_sync(ss: Seq<OutboundSelector>, hs: Seq<Handler>) -> bool {
    &&& forall|i: int| 0 <= i < ss.len() ==> has_tag(hs, #[trigger] ss[i].tag@)
    &&& forall|i: int|
        0 <= i < hs.len() && hs[i].kind == ProtocolKind::Select ==> has_selector_tag(
            ss,
            #[trigger] hs[i].tag@,
        )
}

/// A declaration one of whose actor tags resolves to no registered
/// handler is itself absent: graph closure leaves no handler, and no
/// selector, whose actors dangle.
pub proof fn lemma_unresolved_decl_absent(m: OutboundManager, obs: Seq<Outbound>, j: int, a: int)
    requires
        m.wf(),
        handlers_from_decls(m.handlers@, obs),
        selectors_structure_from_decls(m.selectors@, obs),
        unique_outbound_tags(obs),
        0 <= j < obs.len(),
        0 <= a < obs[j].protocol.actors_spec().len(),
        !has_tag(m.handlers@, obs[j].protocol.actors_spec()[a]@),
    ensures
        !has_tag(m.handlers@, obs[j].tag@),
        !has_selector_tag(m.selectors@, obs[j].tag@),
{
    assert forall|x: int| 0 <= x < m.handlers@.len() implies #[trigger] m.handlers@[x].tag@
        != obs[j].tag@ by {
        if m.handlers@[x].tag@ == obs[j].tag@ {
            let d = choose|d: int|
                0 <= d < obs.len() && matches_decl(#[trigger] m.handlers@[x], obs[d]);
            if d != j {
                if d < j {
                    assert(obs[d].tag@ != obs[j].tag@);
                } else {
                    assert(obs[j].tag@ != obs[d].tag@);
                }
            }
            assert(seq_str_eq(m.handlers@[x].actors@, obs[j].protocol.actors_spec()));
            assert(actors_resolve(m.handlers@, m.handlers@[x].actors@));
            assert(has_tag(m.handlers@, m.handlers@[x].actors@[a]@));
            assert(m.handlers@[x].actors@[a]@ == obs[j].protocol.actors_spec()[a]@);
        }
    }
    assert forall|x: int| 0 <= x < m.selectors@.len() implies #[trigger] m.selectors@[x].tag@
        != obs[j].tag@ by {
        if m.selectors@[x].tag@ == obs[j].tag@ {
            assert(has_tag(m.handlers@, m.selectors@[x].tag@));
        }
    }
}

/// The selection persisted for a tag, when one is on record; keys are
/// unique, so the record is unambiguous.
pub open spec fn cached_selection(cached: Seq<(String, String)>, tag: Seq<char>) -> Option<
    Seq<char>,
> {
    if exists|i: int| 0 <= i < cached.len() && cached[i].0@ == tag {
        Some(cached[choose|i: int| 0 <= i < cached.len() && cached[i].0@ == tag].1@)
    } else {
        None
    }
}

/// Keys of a persisted-selection record are unique.
pub open spec fn unique_cached_keys(cached: Seq<(String, String)>) -> bool {
    forall|i: int, j: int| 0 <= i < j < cached.len() ==> cached[i].0@ != cached[j].0@
}

/// The selection a freshly built selector starts with: the persisted
/// one when it names an actor; nothing when the persisted one is
/// stale; otherwise the first actor.
pub open spec fn initial_selection(actors: Seq<String>, cached: Option<Seq<char>>) -> Option<
    Seq<char>,
> {
    match cached {
        Some(s) => if exists|i: int| 0 <= i < actors.len() && actors[i]@ == s {
            Some(s)
        } else {
            None
        },
        None => if actors.len() > 0 {
            Some(actors[0]@)
        } else {
            None
        },
    }
}

/// The selector is the one the declaration and the persisted record
/// describe.
pub open spec fn selector_matches_decl(
    sel: OutboundSelector,
    ob: Outbound,
    cached: Seq<(String, String)>,
) -> bool {
    sel.tag@ == ob.tag@ && ob.protocol.kind_spec() == ProtocolKind::Select && seq_str_eq(
        sel.actors@,
        ob.protocol.actors_spec(),
    ) && opt_str_view(sel.selected) == initial_selection(
        ob.protocol.actors_spec(),
        cached_selection(cached, sel.tag@),
    )
}

/// Every registered selector was built from one of the declarations.
pub open spec fn selector_has_decl(
    sel: OutboundSelector,
    obs: Seq<Outbound>,
    cached: Seq<(String, String)>,
) -> bool {
    exists|j: int| 0 <= j < obs.len() && #[trigger] selector_matches_decl(sel, obs[j], cached)
}

pub open spec fn selectors_from_decls(
    ss: Seq<OutboundSelector>,
    obs: Seq<Outbound>,
    cached: Seq<(String, String)>,
) -> bool {
    forall|i: int| 0 <= i < ss.len() ==> selector_has_decl(#[trigger] ss[i], obs, cached)
}

/// Returns an index of the handler carrying the tag, or `None` when no
/// handler does.
fn find_handler_index(hs: &Vec<Handler>, tag: &String) -> (r: Option<usize>)
    ensures
        match r {
            Some(i) => i < hs@.len() && hs@[i as int].tag@ == tag@ && forall|j: int|
                0 <= j < i ==> hs@[j].tag@ != tag@,
            None => !has_tag(hs@, tag@),
        },
{
    let mut i: usize = 0;
    while i < hs.len()
        invariant
            i <= hs.len(),
            forall|j: int| 0 <= j < i ==> hs@[j].tag@ != tag@,
        decreases hs.len() - i,
    {
        if str_eq(&hs[i].tag, tag) {
            return Some(i);
        }
        i += 1;
    }
    None
}

/// Returns an index of the selector carrying the tag, or `None` when
/// no selector does.
fn find_selector_index(ss: &Vec<OutboundSelector>, tag: &String) -> (r: Option<usize>)
    ensures
        match r {
            Some(i) => i < ss@.len() && ss@[i as int].tag@ == tag@,
            None => !has_selector_tag(ss@, tag@),
        },
{
    let mut i: usize = 0;
    while i < ss.len()
        invariant
            i <= ss.len(),
            forall|j: int| 0 <= j < i ==> ss@[j].tag@ != tag@,
        decreases ss.len() - i,
    {
        if str_eq(&ss[i].tag, tag) {
            return Some(i);
        }
        i += 1;
    }
    None
}

/// Returns true exactly when every actor tag names a registered
/// handler.
fn all_actors_present(hs: &Vec<Handler>, actors: &Vec<String>) -> (r: bool)
    ensures
        r == actors_resolve(hs@, actors@),
{
    let mut k: usize = 0;
    while k < actors.len()
        invariant
            k <= actors.len(),
            forall|j: int| 0 <= j < k ==> has_tag(hs@, #[trigger] actors@[j]@),
        decreases actors.len() - k,
    {
        if find_handler_index(hs, &actors[k]).is_none() {
            return false;
        }
        k += 1;
    }
    true
}

/// Returns the selection persisted for the tag, when one is on record.
fn find_cached<'a>(cached: &'a Vec<(String, String)>, tag: &String) -> (r: Option<&'a String>)
    requires
        unique_cached_keys(cached@),
    ensures
        match r {
            Some(s) => cached_selection(cached@, tag@) == Some(s@),
            None => cached_selection(cached@, tag@) is None,
        },
{
    let mut i: usize = 0;
    while i < cached.len()
        invariant
            i <= cached.len(),
            unique_cached_keys(cached@),
            forall|j: int| 0 <= j < i ==> cached@[j].0@ != tag@,
        decreases cached.len() - i,
    {
        if str_eq(&cached[i].0, tag) {
            proof {
                let w = choose|k: int| 0 <= k < cached@.len() && cached@[k].0@ == tag@;
                assert(w == i as int);
            }
            return Some(&cached[i].1);
        }
        i += 1;
    }
    None
}

/// Builds the handler a declaration describes.
fn make_handler(ob: &Outbound) -> (h: Handler)
    ensures
        matches_decl(h, *ob),
{
    let kind = ob.protocol.kind();
    let actors = match ob.protocol.actors() {
        Some(v) => clone_strings(v),
        None => Vec::new(),
    };
    let has_udp = match kind {
        ProtocolKind::Tls
        | ProtocolKind::Ws
        | ProtocolKind::Quic
        | ProtocolKind::H2
        | ProtocolKind::Amux => false,
        _ => true,
    };
    Handler { tag: ob.tag.clone(), kind, has_tcp: true, has_udp, actors }
}


/// Registering a handler keeps every tag that was already registered.
proof fn lemma_has_tag_push(hs: Seq<Handler>, h: Handler)
    ensures
        forall|t: Seq<char>| has_tag(hs, t) ==> has_tag(hs.push(h), t),
        has_tag(hs.push(h), h.tag@),
{
    assert forall|t: Seq<char>| has_tag(hs, t) implies has_tag(hs.push(h), t) by {
        let i = choose|i: int| 0 <= i < hs.len() && hs[i].tag@ == t;
        assert(hs.push(h)[i] == hs[i]);
    }
    assert(hs.push(h)[hs.len() as int] == h);
}

/// Registers a handler built from declaration `j`, whose tag is fresh
/// and whose actors already resolve; every graph invariant is kept and
/// every registered tag stays registered.
fn push_handler(
    handlers: &mut Vec<Handler>,
    h: Handler,
    Ghost(obs): Ghost<Seq<Outbound>>,
    Ghost(j): Ghost<int>,
)
    requires
        unique_handler_tags(old(handlers)@),
        graph_closed(old(handlers)@),
        handlers_from_decls(old(handlers)@, obs),
        !has_tag(old(handlers)@, h.tag@),
        actors_resolve(old(handlers)@, h.actors@),
        0 <= j < obs.len() && matches_decl(h, obs[j]),
    ensures
        final(handlers)@ == old(handlers)@.push(h),
        final(handlers)@.len() == old(handlers)@.len() + 1,
        forall|i: int| 0 <= i < old(handlers)@.len() ==> final(handlers)@[i] == old(handlers)@[i],
        final(handlers)@[old(handlers)@.len() as int] == h,
        unique_handler_tags(final(handlers)@),
        graph_closed(final(handlers)@),
        handlers_from_decls(final(handlers)@, obs),
        forall|t: Seq<char>| has_tag(final(handlers)@, t) <==> has_tag(old(handlers)@, t) || h.tag@
            == t,
        has_tag(final(handlers)@, h.tag@),
{
    let ghost pre = handlers@;
    handlers.push(h);
    proof {
        lemma_has_tag_push(pre, h);
        assert forall|t: Seq<char>| has_tag(handlers@, t) implies has_tag(pre, t) || h.tag@
            == t by {
            let i = choose|i: int| 0 <= i < handlers@.len() && handlers@[i].tag@ == t;
            if i < pre.len() {
                assert(handlers@[i] == pre[i]);
            } else {
                assert(handlers@[i] == h);
            }
        }
        assert forall|a: int, b: int|
            0 <= a < b < handlers@.len() implies handlers@[a].tag@ != handlers@[b].tag@ by {
            if b < pre.len() {
                assert(pre[a].tag@ != pre[b].tag@);
            } else {
                assert(handlers@[b] == h);
                assert(!has_tag(pre, h.tag@));
            }
        }
        assert forall|i: int| 0 <= i < handlers@.len() implies actors_resolve(
            handlers@,
            #[trigger] handlers@[i].actors@,
        ) by {
            let acts = handlers@[i].actors@;
            let base = if i < pre.len() {
                pre[i].actors@
            } else {
                h.actors@
            };
            assert(acts == base);
            assert(actors_resolve(pre, base));
            assert forall|k: int| 0 <= k < acts.len() implies has_tag(
                handlers@,
                #[trigger] acts[k]@,
            ) by {
                assert(has_tag(pre, acts[k]@));
            }
        }
        assert forall|i: int| 0 <= i < handlers@.len() implies exists|d: int|
            0 <= d < obs.len() && matches_decl(#[trigger] handlers@[i], obs[d]) by {
            if i < pre.len() {
                assert(handlers@[i] == pre[i]);
            } else {
                assert(handlers@[i] == h);
                assert(matches_decl(handlers@[i], obs[j]));
            }
        }
    }
}

/// The leaf pass: instantiates every endpoint declaration in one scan.
/// The first declaration becomes the default handler.
fn leaf_pass(obs: &Vec<Outbound>, handlers: &mut Vec<Handler>, default_handler: &mut Option<String>)
    requires
        unique_outbound_tags(obs@),
        unique_handler_tags(old(handlers)@),
        graph_closed(old(handlers)@),
        handlers_from_decls(old(handlers)@, obs@),
        empty_actor_decls_absent(old(handlers)@, obs@),
    ensures
        unique_handler_tags(final(handlers)@),
        graph_closed(final(handlers)@),
        handlers_from_decls(final(handlers)@, obs@),
        empty_actor_decls_absent(final(handlers)@, obs@),
        final(handlers)@.len() >= old(handlers)@.len(),
        forall|i: int| 0 <= i < old(handlers)@.len() ==> final(handlers)@[i] == old(handlers)@[i],
        forall|t: Seq<char>| has_tag(old(handlers)@, t) ==> has_tag(final(handlers)@, t),
        endpoints_built(final(handlers)@, obs@),
        forall|i: int|
            old(handlers)@.len() <= i < final(handlers)@.len() ==> is_endpoint_kind(
                #[trigger] final(handlers)@[i].kind,
            ),
        opt_str_view(*final(default_handler)) == match *old(default_handler) {
            Some(t) => Some(t@),
            None => first_endpoint_tag(obs@),
        },
{
    if default_handler.is_none() {
        let mut d: usize = 0;
        while d < obs.len() && default_handler.is_none()
            invariant
                d <= obs.len(),
                match *default_handler {
                    Some(t) => Some(t@) == first_endpoint_tag(obs@),
                    None => forall|j: int| 0 <= j < d ==> !is_endpoint_kind(
                        #[trigger] obs@[j].protocol.kind_spec(),
                    ),
                },
            decreases obs.len() - d,
        {
            if crate::config::endpoint_kind(obs[d].protocol.kind()) {
                *default_handler = Some(obs[d].tag.clone());
                proof {
                    lemma_first_endpoint_at(obs@, d as int);
                }
            }
            d += 1;
        }
        proof {
            if *default_handler is None {
                lemma_first_endpoint_none(obs@);
            }
        }
    }
    let ghost hs0 = handlers@;
    let mut i: usize = 0;
    while i < obs.len()
        invariant
            i <= obs.len(),
            unique_outbound_tags(obs@),
            unique_handler_tags(handlers@),
            graph_closed(handlers@),
            handlers_from_decls(handlers@, obs@),
            empty_actor_decls_absent(handlers@, obs@),
            handlers@.len() >= hs0.len(),
            forall|k: int| 0 <= k < hs0.len() ==> handlers@[k] == hs0[k],
            forall|t: Seq<char>| has_tag(hs0, t) ==> has_tag(handlers@, t),
            forall|j: int|
                0 <= j < i && is_endpoint_kind(#[trigger] obs@[j].protocol.kind_spec()) ==> has_tag(
                    handlers@,
                    obs@[j].tag@,
                ),
            forall|k: int|
                hs0.len() <= k < handlers@.len() ==> is_endpoint_kind(
                    #[trigger] handlers@[k].kind,
                ),
        decreases obs.len() - i,
    {
        let ob = &obs[i];
        let kind = ob.protocol.kind();
        if crate::config::endpoint_kind(kind) {
            if find_handler_index(handlers, &ob.tag).is_none() {
                let ghost pre = handlers@;
                let h = make_handler(ob);
                push_handler(handlers, h, Ghost(obs@), Ghost(i as int));
                proof {
                    assert forall|j: int|
                        0 <= j < obs@.len() && empty_actor_decl(#[trigger] obs@[j]) implies !has_tag(
                        handlers@,
                        obs@[j].tag@,
                    ) by {
                        assert(j != i as int);
                        assert(obs@[j].tag@ != obs@[i as int].tag@);
                        assert(!has_tag(pre, obs@[j].tag@));
                    }
                }
            }
        }
        i += 1;
    }
}

/// One combinator scan of the fixed-point construction: a combinator
/// is built only when all its actor tags already resolve; empty-actor
/// combinators are skipped.
fn combinator_scan(
    obs: &Vec<Outbound>,
    handlers: &mut Vec<Handler>,
    abort_tags: &mut Vec<String>,
    Ghost(depth): Ghost<nat>,
)
    requires
        unique_outbound_tags(obs@),
        unique_handler_tags(old(handlers)@),
        graph_closed(old(handlers)@),
        handlers_from_decls(old(handlers)@, obs@),
        endpoints_built(old(handlers)@, obs@),
        built_within(old(handlers)@, obs@, depth),
        empty_actor_decls_absent(old(handlers)@, obs@),
        abort_tags_ok(old(handlers)@, old(abort_tags)@),
    ensures
        unique_handler_tags(final(handlers)@),
        graph_closed(final(handlers)@),
        handlers_from_decls(final(handlers)@, obs@),
        endpoints_built(final(handlers)@, obs@),
        empty_actor_decls_absent(final(handlers)@, obs@),
        final(handlers)@.len() >= old(handlers)@.len(),
        forall|i: int| 0 <= i < old(handlers)@.len() ==> final(handlers)@[i] == old(handlers)@[i],
        forall|t: Seq<char>| has_tag(old(handlers)@, t) ==> has_tag(final(handlers)@, t),
        ready_combinators_built(final(handlers)@, obs@),
        built_within(final(handlers)@, obs@, depth + 1),
        abort_tags_ok(final(handlers)@, final(abort_tags)@),
        // a repeated scan at the fixed point adds nothing: the
        // cancellation list only grows by tags of newly registered
        // handlers
        final(abort_tags)@.len() >= old(abort_tags)@.len(),
        forall|k: int|
            0 <= k < old(abort_tags)@.len() ==> final(abort_tags)@[k] == old(abort_tags)@[k],
        forall|k: int|
            old(abort_tags)@.len() <= k < final(abort_tags)@.len() ==> new_tag_backed(
                final(handlers)@,
                old(handlers)@.len() as int,
                #[trigger] final(abort_tags)@[k]@,
            ),
        forall|i: int|
            old(handlers)@.len() <= i < final(handlers)@.len() ==> is_combinator_kind(
                #[trigger] final(handlers)@[i].kind,
            ),
{
    let ghost hs0 = old(handlers)@;
    let mut i: usize = 0;
    while i < obs.len()
        invariant
            i <= obs.len(),
            unique_outbound_tags(obs@),
            unique_handler_tags(handlers@),
            graph_closed(handlers@),
            handlers_from_decls(handlers@, obs@),
            endpoints_built(handlers@, obs@),
            handlers@.len() >= hs0.len(),
            forall|k: int| 0 <= k < hs0.len() ==> handlers@[k] == hs0[k],
            forall|t: Seq<char>| has_tag(hs0, t) ==> has_tag(handlers@, t),
            empty_actor_decls_absent(handlers@, obs@),
            built_within(handlers@, obs@, depth),
            forall|j: int|
                0 <= j < i && #[trigger] buildable_within(obs@, j, depth + 1) ==> has_tag(
                    handlers@,
                    obs@[j].tag@,
                ),
            abort_tags_ok(handlers@, abort_tags@),
            abort_tags@.len() >= old(abort_tags)@.len(),
            forall|k: int|
                0 <= k < old(abort_tags)@.len() ==> abort_tags@[k] == old(abort_tags)@[k],
            forall|k: int|
                old(abort_tags)@.len() <= k < abort_tags@.len() ==> new_tag_backed(
                    handlers@,
                    hs0.len() as int,
                    #[trigger] abort_tags@[k]@,
                ),
            forall|j: int|
                0 <= j < i && combinator_ready(#[trigger] obs@[j], obs@) ==> has_tag(
                    handlers@,
                    obs@[j].tag@,
                ),
            forall|k: int|
                hs0.len() <= k < handlers@.len() ==> is_combinator_kind(
                    #[trigger] handlers@[k].kind,
                ),
        decreases obs.len() - i,
    {
        let ob = &obs[i];
        let kind = ob.protocol.kind();
        if crate::config::combinator_kind(kind) {
            if find_handler_index(handlers, &ob.tag).is_none() {
                let buildable = match ob.protocol.actors() {
                    Some(v) => v.len() > 0 && all_actors_present(handlers, v),
                    None => false,
                };
                if buildable {
                    let ghost pre = handlers@;
                    let ghost ts0 = abort_tags@;
                    let h = make_handler(ob);
                    proof {
                        assert forall|k: int| 0 <= k < h.actors@.len() implies has_tag(
                            handlers@,
                            #[trigger] h.actors@[k]@,
                        ) by {
                            assert(h.actors@[k]@ == ob.protocol.actors_spec()[k]@);
                        }
                    }
                    push_handler(handlers, h, Ghost(obs@), Ghost(i as int));
                    if crate::config::background_kind(kind) {
                        abort_tags.push(ob.tag.clone());
                    }
                    proof {
                        assert(abort_tags_ok(pre, ts0));
                        assert forall|k: int| 0 <= k < abort_tags@.len() implies tag_has_background_handler(
                            handlers@,
                            #[trigger] abort_tags@[k]@,
                        ) by {
                            if k < ts0.len() {
                                assert(abort_tags@[k] == ts0[k]);
                                assert(tag_has_background_handler(pre, ts0[k]@));
                                lemma_bg_mono(pre, handlers@, ts0[k]@);
                            } else {
                                assert(handlers@[pre.len() as int] == h);
                                assert(abort_tags@[k]@ == h.tag@);
                                assert(handlers@[pre.len() as int].tag@ == abort_tags@[k]@
                                    && kind_has_background_task(
                                    handlers@[pre.len() as int].kind,
                                ));
                            }
                        }
                        assert forall|x: int|
                            0 <= x < handlers@.len() && kind_has_background_task(
                                #[trigger] handlers@[x].kind,
                            ) implies tag_in_aborts(abort_tags@, handlers@[x].tag@) by {
                            if x < pre.len() {
                                assert(handlers@[x] == pre[x]);
                                assert(tag_in_aborts(ts0, pre[x].tag@));
                                lemma_aborts_mono(ts0, abort_tags@, pre[x].tag@);
                            } else {
                                assert(handlers@[x] == h);
                                assert(abort_tags@[abort_tags@.len() - 1]@ == h.tag@);
                            }
                        }
                        assert forall|j: int|
                            0 <= j < obs@.len() && empty_actor_decl(#[trigger] obs@[j]) implies !has_tag(
                            handlers@,
                            obs@[j].tag@,
                        ) by {
                            assert(j != i as int);
                            assert(obs@[j].tag@ != obs@[i as int].tag@);
                            assert(!has_tag(pre, obs@[j].tag@));
                        }
                        assert forall|j: int|
                            0 <= j < obs@.len() && #[trigger] buildable_within(
                                obs@,
                                j,
                                depth,
                            ) implies has_tag(handlers@, obs@[j].tag@) by {
                            assert(has_tag(pre, obs@[j].tag@));
                        }
                        assert forall|k: int|
                            old(abort_tags)@.len() <= k < abort_tags@.len() implies new_tag_backed(
                            handlers@,
                            hs0.len() as int,
                            #[trigger] abort_tags@[k]@,
                        ) by {
                            if k < ts0.len() {
                                assert(abort_tags@[k] == ts0[k]);
                                assert(new_tag_backed(pre, hs0.len() as int, ts0[k]@));
                                lemma_backed_mono(pre, handlers@, hs0.len() as int, ts0[k]@);
                            } else {
                                assert(handlers@[pre.len() as int] == h);
                                assert(abort_tags@[k]@ == h.tag@);
                                assert(hs0.len() <= pre.len());
                                assert((pre.len() as int) < handlers@.len());
                            }
                        }
                    }
                } else {
                    proof {
                        if buildable_within(obs@, i as int, depth + 1) {
                            if buildable_within(obs@, i as int, depth) {
                                assert(has_tag(handlers@, obs@[i as int].tag@));
                                assert(false);
                            } else {
                                lemma_buildable_step(obs@, i as int, depth);
                                assert(obs@[i as int].protocol == ob.protocol);
                                assert(forall|a: int|
                                    0 <= a < obs@[i as int].protocol.actors_spec().len()
                                        ==> actor_buildable(
                                        obs@,
                                        #[trigger] obs@[i as int].protocol.actors_spec()[a]@,
                                        depth,
                                    ));
                                assert forall|a: int|
                                    0 <= a < obs@[i as int].protocol.actors_spec().len() implies has_tag(
                                    handlers@,
                                    #[trigger] obs@[i as int].protocol.actors_spec()[a]@,
                                ) by {
                                    assert(actor_buildable(
                                        obs@,
                                        obs@[i as int].protocol.actors_spec()[a]@,
                                        depth,
                                    ));
                                    let j2 = lemma_actor_witness(
                                        obs@,
                                        obs@[i as int].protocol.actors_spec()[a]@,
                                        depth,
                                    );
                                    assert(has_tag(handlers@, obs@[j2].tag@));
                                }
                                assert(actors_resolve(handlers@, obs@[i as int].protocol.actors_spec()));
                                assert(actors_resolve(handlers@, ob.protocol.actors_spec()));
                                assert(false);
                            }
                        }
                        if combinator_ready(obs@[i as int], obs@) {
                            assert forall|a: int|
                                0 <= a < ob.protocol.actors_spec().len() implies has_tag(
                                handlers@,
                                #[trigger] ob.protocol.actors_spec()[a]@,
                            ) by {
                                assert(tag_declared_endpoint(obs@, ob.protocol.actors_spec()[a]@));
                                let j = choose|j: int|
                                    0 <= j < obs@.len() && obs@[j].tag@
                                        == ob.protocol.actors_spec()[a]@ && is_endpoint_kind(
                                        obs@[j].protocol.kind_spec(),
                                    );
                                assert(has_tag(handlers@, obs@[j].tag@));
                            }
                            assert(actors_resolve(handlers@, ob.protocol.actors_spec()));
                        }
                    }
                }
            }
        }
        proof {
            if buildable_within(obs@, i as int, depth + 1) && buildable_within(
                obs@,
                i as int,
                depth,
            ) {
                assert(has_tag(handlers@, obs@[i as int].tag@));
            }
            if buildable_within(obs@, i as int, depth + 1) && !buildable_within(
                obs@,
                i as int,
                depth,
            ) {
                lemma_buildable_step(obs@, i as int, depth);
            }
        }
        i += 1;
    }
}

/// One selector scan of the fixed-point construction: a `select`
/// combinator is built only when all its actor tags already resolve
/// and its actor list is not empty. Its initial selection is the
/// persisted one when that names an actor, else the first actor.
fn selector_scan(
    obs: &Vec<Outbound>,
    handlers: &mut Vec<Handler>,
    selectors: &mut Vec<OutboundSelector>,
    cached: &Vec<(String, String)>,
)
    requires
        unique_outbound_tags(obs@),
        unique_cached_keys(cached@),
        unique_handler_tags(old(handlers)@),
        graph_closed(old(handlers)@),
        handlers_from_decls(old(handlers)@, obs@),
        endpoints_built(old(handlers)@, obs@),
        empty_actor_decls_absent(old(handlers)@, obs@),
        unique_selector_tags(old(selectors)@),
        selectors_resolve(old(selectors)@, old(handlers)@),
        selectors_sync(old(selectors)@, old(handlers)@),
        selectors_from_decls(old(selectors)@, obs@, cached@),
        empty_actor_selectors_absent(old(selectors)@, obs@),
    ensures
        unique_handler_tags(final(handlers)@),
        graph_closed(final(handlers)@),
        handlers_from_decls(final(handlers)@, obs@),
        endpoints_built(final(handlers)@, obs@),
        empty_actor_decls_absent(final(handlers)@, obs@),
        final(handlers)@.len() >= old(handlers)@.len(),
        forall|i: int| 0 <= i < old(handlers)@.len() ==> final(handlers)@[i] == old(handlers)@[i],
        forall|t: Seq<char>| has_tag(old(handlers)@, t) ==> has_tag(final(handlers)@, t),
        unique_selector_tags(final(selectors)@),
        selectors_resolve(final(selectors)@, final(handlers)@),
        selectors_sync(final(selectors)@, final(handlers)@),
        selectors_from_decls(final(selectors)@, obs@, cached@),
        empty_actor_selectors_absent(final(selectors)@, obs@),
        ready_selects_built(final(handlers)@, obs@),
        forall|i: int|
            old(handlers)@.len() <= i < final(handlers)@.len() ==> #[trigger] final(handlers)@[i].kind
                == ProtocolKind::Select,
{
    let ghost hs0 = old(handlers)@;
    let ghost ss0 = old(selectors)@;
    let mut i: usize = 0;
    while i < obs.len()
        invariant
            i <= obs.len(),
            unique_outbound_tags(obs@),
            unique_cached_keys(cached@),
            unique_handler_tags(handlers@),
            graph_closed(handlers@),
            handlers_from_decls(handlers@, obs@),
            endpoints_built(handlers@, obs@),
            handlers@.len() >= hs0.len(),
            forall|k: int| 0 <= k < hs0.len() ==> handlers@[k] == hs0[k],
            forall|t: Seq<char>| has_tag(hs0, t) ==> has_tag(handlers@, t),
            empty_actor_decls_absent(handlers@, obs@),
            unique_selector_tags(selectors@),
            selectors_resolve(selectors@, handlers@),
            selectors_sync(selectors@, handlers@),
            selectors_from_decls(selectors@, obs@, cached@),
            empty_actor_selectors_absent(selectors@, obs@),
            forall|j: int|
                0 <= j < i && select_ready(#[trigger] obs@[j], obs@) ==> has_tag(
                    handlers@,
                    obs@[j].tag@,
                ),
            forall|k: int|
                hs0.len() <= k < handlers@.len() ==> #[trigger] handlers@[k].kind
                    == ProtocolKind::Select,
        decreases obs.len() - i,
    {
        let ob = &obs[i];
        let kind = ob.protocol.kind();
        if matches!(kind, ProtocolKind::Select) {
            if find_handler_index(handlers, &ob.tag).is_none() {
                if let Some(v) = ob.protocol.actors() {
                    if v.len() > 0 && all_actors_present(handlers, v) {
                        let mut sel = OutboundSelector::new(ob.tag.clone(), clone_strings(v));
                        match find_cached(cached, &ob.tag) {
                            Some(s) => {
                                let wanted = s.clone();
                                let _ = sel.set_selected(&wanted);
                            },
                            None => {
                                let first = v[0].clone();
                                let _ = sel.set_selected(&first);
                            },
                        }
                        let ghost pre = handlers@;
                        let ghost sspre = selectors@;
                        proof {
                            assert(selector_matches_decl(sel, obs@[i as int], cached@));
                            assert forall|x: int|
                                0 <= x < sspre.len() implies sspre[x].tag@ != sel.tag@ by {
                                assert(has_tag(pre, sspre[x].tag@));
                            }
                        }
                        selectors.push(sel);
                        let h = make_handler(ob);
                        proof {
                            assert forall|k: int| 0 <= k < h.actors@.len() implies has_tag(
                                handlers@,
                                #[trigger] h.actors@[k]@,
                            ) by {
                                assert(h.actors@[k]@ == ob.protocol.actors_spec()[k]@);
                            }
                        }
                        push_handler(handlers, h, Ghost(obs@), Ghost(i as int));
                        proof {
                            assert forall|x: int| 0 <= x < selectors@.len() implies has_tag(
                                handlers@,
                                #[trigger] selectors@[x].tag@,
                            ) && actors_resolve(handlers@, selectors@[x].actors@)
                                && selectors@[x].wf() by {
                                if x < sspre.len() {
                                    assert(selectors@[x] == sspre[x]);
                                    assert(has_tag(pre, sspre[x].tag@));
                                    assert(actors_resolve(pre, sspre[x].actors@));
                                    assert forall|k: int|
                                        0 <= k < selectors@[x].actors@.len() implies has_tag(
                                        handlers@,
                                        #[trigger] selectors@[x].actors@[k]@,
                                    ) by {
                                        assert(has_tag(pre, sspre[x].actors@[k]@));
                                    }
                                } else {
                                    assert(selectors@[x] == sel);
                                    assert(has_tag(handlers@, h.tag@));
                                    assert forall|k: int|
                                        0 <= k < sel.actors@.len() implies has_tag(
                                        handlers@,
                                        #[trigger] sel.actors@[k]@,
                                    ) by {
                                        assert(sel.actors@[k]@ == ob.protocol.actors_spec()[k]@);
                                        assert(has_tag(pre, sel.actors@[k]@));
                                    }
                                }
                            }
                            assert forall|x: int|
                                0 <= x < handlers@.len() && handlers@[x].kind
                                    == ProtocolKind::Select implies has_selector_tag(
                                selectors@,
                                #[trigger] handlers@[x].tag@,
                            ) by {
                                if x < pre.len() {
                                    assert(handlers@[x] == pre[x]);
                                    let y = choose|y: int|
                                        0 <= y < sspre.len() && sspre[y].tag@ == pre[x].tag@;
                                    assert(selectors@[y].tag@ == handlers@[x].tag@);
                                } else {
                                    assert(handlers@[x] == h);
                                    assert(selectors@[sspre.len() as int].tag@ == h.tag@);
                                }
                            }
                            assert forall|j: int|
                                0 <= j < obs@.len() && empty_actor_decl(
                                    #[trigger] obs@[j],
                                ) implies !has_tag(handlers@, obs@[j].tag@) && !has_selector_tag(
                                selectors@,
                                obs@[j].tag@,
                            ) by {
                                assert(j != i as int);
                                assert(obs@[j].tag@ != obs@[i as int].tag@);
                                assert(!has_tag(pre, obs@[j].tag@));
                                assert(!has_selector_tag(sspre, obs@[j].tag@));
                                assert forall|y: int|
                                    0 <= y < selectors@.len() implies #[trigger] selectors@[y].tag@
                                    != obs@[j].tag@ by {
                                    if y < sspre.len() {
                                        assert(selectors@[y] == sspre[y]);
                                    } else {
                                        assert(selectors@[y] == sel);
                                    }
                                }
                            }
                        }
                    }
                }
            }
        }
        i += 1;
    }
}

pub open spec fn selector_structure(sel: OutboundSelector, ob: Outbound) -> bool {
    sel.tag@ == ob.tag@ && ob.protocol.kind_spec() == ProtocolKind::Select && seq_str_eq(
        sel.actors@,
        ob.protocol.actors_spec(),
    )
}

/// Every registered selector has the structure of one of the
/// declarations.
pub open spec fn selector_has_structure(sel: OutboundSelector, obs: Seq<Outbound>) -> bool {
    exists|j: int| 0 <= j < obs.len() && #[trigger] selector_structure(sel, obs[j])
}

pub open spec fn selectors_structure_from_decls(
    ss: Seq<OutboundSelector>,
    obs: Seq<Outbound>,
) -> bool {
    forall|i: int| 0 <= i < ss.len() ==> selector_has_structure(#[trigger] ss[i], obs)
}

/// Produces the declaration a registered selector was built from.
proof fn lemma_selector_witness(
    sel: OutboundSelector,
    obs: Seq<Outbound>,
    cached: Seq<(String, String)>,
) -> (j: int)
    requires
        selector_has_decl(sel, obs, cached),
    ensures
        0 <= j < obs.len(),
        selector_matches_decl(sel, obs[j], cached),
{
    choose|j: int| 0 <= j < obs.len() && #[trigger] selector_matches_decl(sel, obs[j], cached)
}

/// A selector that matches a declaration in full has its structure.
proof fn lemma_structure_from_decls(
    ss: Seq<OutboundSelector>,
    obs: Seq<Outbound>,
    cached: Seq<(String, String)>,
)
    requires
        selectors_from_decls(ss, obs, cached),
    ensures
        selectors_structure_from_decls(ss, obs),
{
    assert forall|i: int| 0 <= i < ss.len() implies selector_has_structure(
        #[trigger] ss[i],
        obs,
    ) by {
        let j = lemma_selector_witness(ss[i], obs, cached);
        assert(selector_structure(ss[i], obs[j]));
    }
}

/// The selection of the selector carrying `tag`; meaningful when the
/// tags are unique and some selector carries it.
pub open spec fn selector_selected_of(ss: Seq<OutboundSelector>, tag: Seq<char>) -> Option<
    Seq<char>,
> {
    opt_str_view(ss[choose|i: int| 0 <= i < ss.len() && ss[i].tag@ == tag].selected)
}

/// Owns the outbound handler graph: tag-indexed handlers, the select
/// combinators' state, the default handler tag, and the tags whose
/// handlers hold background tasks the manager must cancel on reload.
pub struct OutboundManager {
    pub handlers: Vec<Handler>,
    pub selectors: Vec<OutboundSelector>,
    pub default_handler: Option<String>,
    pub abort_tags: Vec<String>,
}

impl OutboundManager {
    /// The graph invariant: unique tags, closure of every actor list,
    /// and selectors kept in step with their select handlers.
    pub open spec fn wf(self) -> bool {
        &&& unique_handler_tags(self.handlers@)
        &&& graph_closed(self.handlers@)
        &&& unique_selector_tags(self.selectors@)
        &&& selectors_resolve(self.selectors@, self.handlers@)
        &&& selectors_sync(self.selectors@, self.handlers@)
        &&& abort_tags_ok(self.handlers@, self.abort_tags@)
    }

    /// The graph is the one the declarations describe, selection
    /// values aside: sound (every handler and selector matches a
    /// declaration), complete for endpoints and depth-one combinators
    /// and selects, with no empty-actor combinator or select
    /// registered, and the first endpoint declaration as the default.
    pub open spec fn built_structure(self, obs: Seq<Outbound>) -> bool {
        &&& handlers_from_decls(self.handlers@, obs)
        &&& endpoints_built(self.handlers@, obs)
        &&& ready_combinators_built(self.handlers@, obs)
        &&& built_within(self.handlers@, obs, 8)
        &&& ready_selects_built(self.handlers@, obs)
        &&& empty_actor_decls_absent(self.handlers@, obs)
        &&& selectors_structure_from_decls(self.selectors@, obs)
        &&& empty_actor_selectors_absent(self.selectors@, obs)
        &&& opt_str_view(self.default_handler) == first_endpoint_tag(obs)
    }

    /// As [`Self::built_structure`], and every selector starts with
    /// the selection the persisted record gives it.
    pub open spec fn built_from(self, obs: Seq<Outbound>, cached: Seq<(String, String)>) -> bool {
        &&& self.built_structure(obs)
        &&& selectors_from_decls(self.selectors@, obs, cached)
    }

    /// Builds the handler graph from the declarations by fixed-point
    /// construction: one endpoint pass, then repeated combinator and
    /// selector scans, repeated so that combinators over selects
    /// resolve too.
    ///
    /// Duplicate outbound tags are a configuration error and abort the
    /// construction; the result is an error exactly on them.
    pub fn new(outbounds: &Vec<Outbound>, cached_selections: &Vec<(String, String)>) -> (r: Result<
        OutboundManager,
        Error,
    >)
        requires
            unique_cached_keys(cached_selections@),
        ensures
            r is Ok <==> unique_outbound_tags(outbounds@),
            match r {
                Ok(m) => m.wf() && m.built_from(outbounds@, cached_selections@),
                Err(e) => e is Config,
            },
    {
        if find_duplicate_tag(outbounds).is_some() {
            return Err(Error::Config("duplicate outbound tag".to_owned()));
        }
        let mut handlers: Vec<Handler> = Vec::new();
        let mut selectors: Vec<OutboundSelector> = Vec::new();
        let mut default_handler: Option<String> = None;
        let mut abort_tags: Vec<String> = Vec::new();
        let mut round: usize = 0;
        while round < 4
            invariant
                unique_outbound_tags(outbounds@),
                unique_cached_keys(cached_selections@),
                unique_handler_tags(handlers@),
                graph_closed(handlers@),
                handlers_from_decls(handlers@, outbounds@),
                unique_selector_tags(selectors@),
                selectors_resolve(selectors@, handlers@),
                selectors_sync(selectors@, handlers@),
                selectors_from_decls(selectors@, outbounds@, cached_selections@),
                empty_actor_decls_absent(handlers@, outbounds@),
                empty_actor_selectors_absent(selectors@, outbounds@),
                abort_tags_ok(handlers@, abort_tags@),
                round >= 1 ==> {
                    &&& endpoints_built(handlers@, outbounds@)
                    &&& ready_combinators_built(handlers@, outbounds@)
                    &&& built_within(handlers@, outbounds@, 8)
                    &&& ready_selects_built(handlers@, outbounds@)
                },
                opt_str_view(default_handler) == (if round >= 1 {
                    first_endpoint_tag(outbounds@)
                } else {
                    None::<Seq<char>>
                }),
            decreases 4 - round,
        {
            let ghost hs_a = handlers@;
            let ghost ss_a = selectors@;
            let ghost ts_a = abort_tags@;
            let ghost round0 = round;
            leaf_pass(outbounds, &mut handlers, &mut default_handler);
            proof {
                if round0 >= 1 {
                    assert forall|j: int|
                        0 <= j < outbounds@.len() && #[trigger] buildable_within(
                            outbounds@,
                            j,
                            8,
                        ) implies has_tag(handlers@, outbounds@[j].tag@) by {
                        assert(has_tag(hs_a, outbounds@[j].tag@));
                    }
                }
                assert forall|j: int|
                    0 <= j < outbounds@.len() && #[trigger] buildable_within(
                        outbounds@,
                        j,
                        0,
                    ) implies has_tag(handlers@, outbounds@[j].tag@) by {
                    assert(is_endpoint_kind(outbounds@[j].protocol.kind_spec()));
                }
                assert forall|x: int| 0 <= x < ss_a.len() implies has_tag(
                    handlers@,
                    #[trigger] ss_a[x].tag@,
                ) && actors_resolve(handlers@, ss_a[x].actors@) by {
                    assert(has_tag(hs_a, ss_a[x].tag@));
                    assert forall|k: int| 0 <= k < ss_a[x].actors@.len() implies has_tag(
                        handlers@,
                        #[trigger] ss_a[x].actors@[k]@,
                    ) by {
                        assert(has_tag(hs_a, ss_a[x].actors@[k]@));
                    }
                }
                assert forall|x: int|
                    0 <= x < handlers@.len() && handlers@[x].kind
                        == ProtocolKind::Select implies has_selector_tag(
                    selectors@,
                    #[trigger] handlers@[x].tag@,
                ) by {
                    if x < hs_a.len() {
                        assert(handlers@[x] == hs_a[x]);
                    } else {
                        assert(is_endpoint_kind(handlers@[x].kind));
                    }
                }
                assert forall|k: int| 0 <= k < abort_tags@.len() implies tag_has_background_handler(
                    handlers@,
                    #[trigger] abort_tags@[k]@,
                ) by {
                    assert(abort_tags_ok(hs_a, ts_a));
                    assert(tag_has_background_handler(hs_a, ts_a[k]@));
                    lemma_bg_mono(hs_a, handlers@, ts_a[k]@);
                }
                assert forall|x: int|
                    0 <= x < handlers@.len() && kind_has_background_task(
                        #[trigger] handlers@[x].kind,
                    ) implies tag_in_aborts(abort_tags@, handlers@[x].tag@) by {
                    if x < hs_a.len() {
                        assert(handlers@[x] == hs_a[x]);
                        assert(tag_in_aborts(ts_a, hs_a[x].tag@));
                    } else {
                        assert(is_endpoint_kind(handlers@[x].kind));
                    }
                }
            }
            let mut k: usize = 0;
            while k < 8
                invariant
                    k <= 8,
                    unique_outbound_tags(outbounds@),
                    unique_cached_keys(cached_selections@),
                    unique_handler_tags(handlers@),
                    graph_closed(handlers@),
                    handlers_from_decls(handlers@, outbounds@),
                    endpoints_built(handlers@, outbounds@),
                    unique_selector_tags(selectors@),
                    selectors_resolve(selectors@, handlers@),
                    selectors_sync(selectors@, handlers@),
                    selectors_from_decls(selectors@, outbounds@, cached_selections@),
                    empty_actor_decls_absent(handlers@, outbounds@),
                    empty_actor_selectors_absent(selectors@, outbounds@),
                    abort_tags_ok(handlers@, abort_tags@),
                    built_within(handlers@, outbounds@, k as nat),
                    round0 >= 1 ==> built_within(handlers@, outbounds@, 8),
                    k >= 1 ==> ready_combinators_built(handlers@, outbounds@),
                decreases 8 - k,
            {
                let ghost hs_b = handlers@;
                let ghost ss_b = selectors@;
                combinator_scan(outbounds, &mut handlers, &mut abort_tags, Ghost(k as nat));
                proof {
                    if round0 >= 1 {
                        assert forall|j: int|
                            0 <= j < outbounds@.len() && #[trigger] buildable_within(
                                outbounds@,
                                j,
                                8,
                            ) implies has_tag(handlers@, outbounds@[j].tag@) by {
                            assert(has_tag(hs_b, outbounds@[j].tag@));
                        }
                    }
                    assert forall|x: int| 0 <= x < ss_b.len() implies has_tag(
                        handlers@,
                        #[trigger] ss_b[x].tag@,
                    ) && actors_resolve(handlers@, ss_b[x].actors@) by {
                        assert(has_tag(hs_b, ss_b[x].tag@));
                        assert forall|kk: int| 0 <= kk < ss_b[x].actors@.len() implies has_tag(
                            handlers@,
                            #[trigger] ss_b[x].actors@[kk]@,
                        ) by {
                            assert(has_tag(hs_b, ss_b[x].actors@[kk]@));
                        }
                    }
                    assert forall|x: int|
                        0 <= x < handlers@.len() && handlers@[x].kind
                            == ProtocolKind::Select implies has_selector_tag(
                        selectors@,
                        #[trigger] handlers@[x].tag@,
                    ) by {
                        if x < hs_b.len() {
                            assert(handlers@[x] == hs_b[x]);
                        } else {
                            assert(is_combinator_kind(handlers@[x].kind));
                        }
                    }
                }
                k += 1;
            }
            let mut k2: usize = 0;
            while k2 < 8
                invariant
                    k2 <= 8,
                    unique_outbound_tags(outbounds@),
                    unique_cached_keys(cached_selections@),
                    unique_handler_tags(handlers@),
                    graph_closed(handlers@),
                    handlers_from_decls(handlers@, outbounds@),
                    endpoints_built(handlers@, outbounds@),
                    ready_combinators_built(handlers@, outbounds@),
                    unique_selector_tags(selectors@),
                    selectors_resolve(selectors@, handlers@),
                    selectors_sync(selectors@, handlers@),
                    selectors_from_decls(selectors@, outbounds@, cached_selections@),
                    empty_actor_decls_absent(handlers@, outbounds@),
                    empty_actor_selectors_absent(selectors@, outbounds@),
                    abort_tags_ok(handlers@, abort_tags@),
                    built_within(handlers@, outbounds@, 8),
                    k2 >= 1 ==> ready_selects_built(handlers@, outbounds@),
                decreases 8 - k2,
            {
                let ghost hs_c = handlers@;
                let ghost ts_c = abort_tags@;
                selector_scan(outbounds, &mut handlers, &mut selectors, cached_selections);
                proof {
                    assert forall|j: int|
                        0 <= j < outbounds@.len() && #[trigger] buildable_within(
                            outbounds@,
                            j,
                            8,
                        ) implies has_tag(handlers@, outbounds@[j].tag@) by {
                        assert(has_tag(hs_c, outbounds@[j].tag@));
                    }
                    assert forall|j: int|
                        0 <= j < outbounds@.len() && combinator_ready(
                            #[trigger] outbounds@[j],
                            outbounds@,
                        ) implies has_tag(handlers@, outbounds@[j].tag@) by {
                        assert(has_tag(hs_c, outbounds@[j].tag@));
                    }
                    assert forall|kk: int| 0 <= kk < abort_tags@.len() implies tag_has_background_handler(
                        handlers@,
                        #[trigger] abort_tags@[kk]@,
                    ) by {
                        assert(abort_tags_ok(hs_c, ts_c));
                        assert(tag_has_background_handler(hs_c, ts_c[kk]@));
                        lemma_bg_mono(hs_c, handlers@, ts_c[kk]@);
                    }
                    assert forall|x: int|
                        0 <= x < handlers@.len() && kind_has_background_task(
                            #[trigger] handlers@[x].kind,
                        ) implies tag_in_aborts(abort_tags@, handlers@[x].tag@) by {
                        if x < hs_c.len() {
                            assert(handlers@[x] == hs_c[x]);
                            assert(tag_in_aborts(ts_c, hs_c[x].tag@));
                        } else {
                            assert(handlers@[x].kind == ProtocolKind::Select);
                        }
                    }
                }
                k2 += 1;
            }
            round += 1;
        }
        proof {
            lemma_structure_from_decls(selectors@, outbounds@, cached_selections@);
        }
        Ok(OutboundManager { handlers, selectors, default_handler, abort_tags })
    }

    /// Rebuilds the handler graph from new declarations, preserving
    /// the selection of every select combinator present in both the
    /// old and the new configuration, as long as the selected actor is
    /// still an actor of the new selector. The caller aborts the
    /// background tasks named by the previous generation's
    /// `abort_tags` once the call returns; handler values already
    /// handed to in-flight flows are unaffected.
    ///
    /// Duplicate outbound tags are a configuration error; the old
    /// graph then stays in place untouched.
    pub fn reload(
        &mut self,
        outbounds: &Vec<Outbound>,
        cached_selections: &Vec<(String, String)>,
    ) -> (r: Result<(), Error>)
        requires
            unique_cached_keys(cached_selections@),
            old(self).wf(),
        ensures
            r is Ok <==> unique_outbound_tags(outbounds@),
            r is Err ==> final(self).handlers@ == old(self).handlers@ && final(self).selectors@
                == old(self).selectors@ && final(self).default_handler == old(
                self,
            ).default_handler && final(self).abort_tags@ == old(self).abort_tags@,
            r is Ok ==> final(self).wf() && final(self).built_structure(outbounds@),
            // Reload preserves selectors: a select tag present in both
            // generations keeps its selected actor.
            r is Ok ==> forall|i: int|
                0 <= i < final(self).selectors@.len() ==> {
                    let sel = #[trigger] final(self).selectors@[i];
                    has_selector_tag(old(self).selectors@, sel.tag@) ==> match selector_selected_of(
                        old(self).selectors@,
                        sel.tag@,
                    ) {
                        Some(s) => (exists|k: int|
                            0 <= k < sel.actors@.len() && sel.actors@[k]@ == s) ==> opt_str_view(
                            sel.selected,
                        ) == Some(s),
                        None => true,
                    }
                },
    {
        match Self::new(outbounds, cached_selections) {
            Err(e) => Err(e),
            Ok(m) => {
                let OutboundManager {
                    handlers: new_handlers,
                    selectors: mut work,
                    default_handler: new_default,
                    abort_tags: new_abort,
                } = m;
                let ghost init = work@;
                proof {
                    assert forall|x: int| 0 <= x < init.len() implies init[x].wf()
                        && actors_resolve(new_handlers@, init[x].actors@) && has_tag(
                        new_handlers@,
                        init[x].tag@,
                    ) by {}
                }
                let mut restored: Vec<OutboundSelector> = Vec::new();
                while work.len() > 0
                    invariant
                        old(self).wf(),
                        restored@.len() + work@.len() == init.len(),
                        work@ =~= init.subrange(restored@.len() as int, init.len() as int),
                        forall|i: int|
                            0 <= i < restored@.len() ==> #[trigger] restored@[i].tag@
                                == init[i].tag@ && restored@[i].actors@ == init[i].actors@
                                && restored@[i].wf(),
                        forall|i: int|
                            0 <= i < restored@.len() ==> {
                                let sel = #[trigger] restored@[i];
                                if has_selector_tag(old(self).selectors@, sel.tag@) {
                                    match selector_selected_of(old(self).selectors@, sel.tag@) {
                                        Some(s) => if exists|k: int|
                                            0 <= k < sel.actors@.len() && sel.actors@[k]@ == s {
                                            opt_str_view(sel.selected) == Some(s)
                                        } else {
                                            sel.selected == init[i].selected
                                        },
                                        None => sel.selected == init[i].selected,
                                    }
                                } else {
                                    sel.selected == init[i].selected
                                }
                            },
                        forall|x: int| 0 <= x < init.len() ==> #[trigger] init[x].wf(),
                    decreases work@.len(),
                {
                    let ghost idx = restored@.len() as int;
                    let mut sel = work.remove(0);
                    proof {
                        assert(sel == init[idx]);
                    }
                    match find_selector_index(&self.selectors, &sel.tag) {
                        Some(j) => {
                            proof {
                                let w = choose|i: int|
                                    0 <= i < self.selectors@.len() && self.selectors@[i].tag@
                                        == sel.tag@;
                                assert(w == j as int);
                            }
                            match self.selectors[j].get_selected_tag() {
                                Some(s) => {
                                    let _ = sel.set_selected(&s);
                                },
                                None => {},
                            }
                        },
                        None => {},
                    }
                    restored.push(sel);
                }
                proof {
                    assert forall|i: int, j: int|
                        0 <= i < j < restored@.len() implies restored@[i].tag@
                        != restored@[j].tag@ by {
                        assert(unique_selector_tags(init));
                        assert(init[i].tag@ != init[j].tag@);
                    }
                    assert forall|i: int| 0 <= i < restored@.len() implies actors_resolve(
                        new_handlers@,
                        #[trigger] restored@[i].actors@,
                    ) && restored@[i].wf() && has_tag(new_handlers@, restored@[i].tag@) by {
                        assert(actors_resolve(new_handlers@, init[i].actors@));
                        assert(has_tag(new_handlers@, init[i].tag@));
                    }
                    assert forall|x: int|
                        0 <= x < new_handlers@.len() && new_handlers@[x].kind
                            == ProtocolKind::Select implies has_selector_tag(
                        restored@,
                        #[trigger] new_handlers@[x].tag@,
                    ) by {
                        let y = choose|y: int|
                            0 <= y < init.len() && init[y].tag@ == new_handlers@[x].tag@;
                        assert(restored@[y].tag@ == new_handlers@[x].tag@);
                    }
                    assert forall|j: int|
                        0 <= j < outbounds@.len() && empty_actor_decl(
                            #[trigger] outbounds@[j],
                        ) implies !has_selector_tag(restored@, outbounds@[j].tag@) by {
                        assert(!has_selector_tag(init, outbounds@[j].tag@));
                        assert forall|y: int|
                            0 <= y < restored@.len() implies #[trigger] restored@[y].tag@
                            != outbounds@[j].tag@ by {
                            assert(restored@[y].tag@ == init[y].tag@);
                            assert(init[y].tag@ != outbounds@[j].tag@);
                        }
                    }
                    assert forall|i: int| 0 <= i < restored@.len() implies selector_has_structure(
                        #[trigger] restored@[i],
                        outbounds@,
                    ) by {
                        assert(selector_has_decl(init[i], outbounds@, cached_selections@));
                        let j = lemma_selector_witness(init[i], outbounds@, cached_selections@);
                        assert(selector_structure(restored@[i], outbounds@[j]));
                    }
                }
                self.handlers = new_handlers;
                self.selectors = restored;
                self.default_handler = new_default;
                self.abort_tags = new_abort;
                Ok(())
            },
        }
    }

    /// Looks up a handler by tag.
    pub fn get(&self, tag: &String) -> (r: Option<&Handler>)
        ensures
            match r {
                Some(h) => exists|i: int|
                    0 <= i < self.handlers@.len() && self.handlers@[i] == *h && h.tag@ == tag@,
                None => !has_tag(self.handlers@, tag@),
            },
    {
        match find_handler_index(&self.handlers, tag) {
            Some(i) => Some(&self.handlers[i]),
            None => None,
        }
    }

    /// The tag of the default handler: the first declared outbound.
    pub fn default_handler(&self) -> (r: Option<String>)
        ensures
            opt_str_view(r) == opt_str_view(self.default_handler),
    {
        match &self.default_handler {
            Some(t) => Some(t.clone()),
            None => None,
        }
    }

    /// Registers a handler under the tag, replacing any handler the
    /// tag already has; everything else — other entries, the default,
    /// the selectors, the cancellation list — stays as it was. The
    /// stored handler carries the tag it is registered under.
    ///
    /// Registration alone cannot break the graph invariant when the
    /// handler's actors resolve, it is no select and holds no
    /// background task, and the same was true of whatever it replaces;
    /// the conditional clause below says so.
    pub fn add(&mut self, tag: String, handler: Handler)
        ensures
            final(self).selectors@ == old(self).selectors@,
            final(self).default_handler == old(self).default_handler,
            final(self).abort_tags@ == old(self).abort_tags@,
            ({
                let stored = (Handler {
                    tag: tag,
                    kind: handler.kind,
                    has_tcp: handler.has_tcp,
                    has_udp: handler.has_udp,
                    actors: handler.actors,
                });
                if has_tag(old(self).handlers@, tag@) {
                    exists|j: int|
                        0 <= j < old(self).handlers@.len() && old(self).handlers@[j].tag@ == tag@
                            && (forall|k: int|
                            0 <= k < j ==> old(self).handlers@[k].tag@ != tag@) && final(self).handlers@
                            == old(self).handlers@.update(j, stored)
                } else {
                    final(self).handlers@ == old(self).handlers@.push(stored)
                }
            }),
            (old(self).wf() && actors_resolve(old(self).handlers@, handler.actors@)
                && handler.kind != ProtocolKind::Select && !kind_has_background_task(handler.kind)
                && (forall|j: int|
                0 <= j < old(self).handlers@.len() && #[trigger] old(self).handlers@[j].tag@
                    == tag@ ==> old(self).handlers@[j].kind != ProtocolKind::Select
                    && !kind_has_background_task(old(self).handlers@[j].kind))) ==> final(self).wf(),
    {
        let ghost pre = self.handlers@;
        let ghost cond = old(self).wf() && actors_resolve(pre, handler.actors@) && handler.kind
            != ProtocolKind::Select && !kind_has_background_task(handler.kind) && (forall|j: int|
            0 <= j < pre.len() && #[trigger] pre[j].tag@ == tag@ ==> pre[j].kind
                != ProtocolKind::Select && !kind_has_background_task(pre[j].kind));
        let at = find_handler_index(&self.handlers, &tag);
        let stored = Handler {
            tag,
            kind: handler.kind,
            has_tcp: handler.has_tcp,
            has_udp: handler.has_udp,
            actors: handler.actors,
        };
        match at {
            Some(j) => {
                self.handlers.set(j, stored);
                proof {
                    assert(self.handlers@[j as int].tag@ == pre[j as int].tag@);
                    if cond {
                        assert forall|a: int, b: int|
                            0 <= a < b < self.handlers@.len() implies self.handlers@[a].tag@
                            != self.handlers@[b].tag@ by {
                            if a != j as int {
                                assert(self.handlers@[a] == pre[a]);
                            }
                            if b != j as int {
                                assert(self.handlers@[b] == pre[b]);
                            }
                            assert(pre[a].tag@ != pre[b].tag@);
                        }
                        assert forall|t: Seq<char>|
                            has_tag(self.handlers@, t) <==> has_tag(pre, t) by {
                            if has_tag(self.handlers@, t) {
                                let x = choose|x: int|
                                    0 <= x < self.handlers@.len() && self.handlers@[x].tag@ == t;
                                if x != j as int {
                                    assert(self.handlers@[x] == pre[x]);
                                } else {
                                    assert(pre[j as int].tag@ == t);
                                }
                            }
                            if has_tag(pre, t) {
                                let x = choose|x: int| 0 <= x < pre.len() && pre[x].tag@ == t;
                                if x != j as int {
                                    assert(self.handlers@[x] == pre[x]);
                                } else {
                                    assert(self.handlers@[j as int].tag@ == t);
                                }
                            }
                        }
                        assert forall|i: int| 0 <= i < self.handlers@.len() implies actors_resolve(
                            self.handlers@,
                            #[trigger] self.handlers@[i].actors@,
                        ) by {
                            let base = if i == j as int {
                                handler.actors@
                            } else {
                                pre[i].actors@
                            };
                            assert(self.handlers@[i].actors@ == base);
                            assert(actors_resolve(pre, base));
                            assert forall|k: int| 0 <= k < base.len() implies has_tag(
                                self.handlers@,
                                #[trigger] base[k]@,
                            ) by {
                                assert(has_tag(pre, base[k]@));
                            }
                        }
                        assert forall|i: int| 0 <= i < self.selectors@.len() implies has_tag(
                            self.handlers@,
                            #[trigger] self.selectors@[i].tag@,
                        ) && actors_resolve(self.handlers@, self.selectors@[i].actors@) by {
                            assert(has_tag(pre, self.selectors@[i].tag@));
                            assert forall|k: int|
                                0 <= k < self.selectors@[i].actors@.len() implies has_tag(
                                self.handlers@,
                                #[trigger] self.selectors@[i].actors@[k]@,
                            ) by {
                                assert(has_tag(pre, self.selectors@[i].actors@[k]@));
                            }
                        }
                        assert forall|i: int|
                            0 <= i < self.handlers@.len() && self.handlers@[i].kind
                                == ProtocolKind::Select implies has_selector_tag(
                            self.selectors@,
                            #[trigger] self.handlers@[i].tag@,
                        ) by {
                            assert(i != j as int);
                            assert(self.handlers@[i] == pre[i]);
                        }
                        assert forall|k: int|
                            0 <= k < self.abort_tags@.len() implies tag_has_background_handler(
                            self.handlers@,
                            #[trigger] self.abort_tags@[k]@,
                        ) by {
                            assert(tag_has_background_handler(pre, self.abort_tags@[k]@));
                            let x = choose|x: int|
                                0 <= x < pre.len() && pre[x].tag@ == self.abort_tags@[k]@
                                    && kind_has_background_task(pre[x].kind);
                            assert(x != j as int);
                            assert(self.handlers@[x] == pre[x]);
                        }
                        assert forall|x: int|
                            0 <= x < self.handlers@.len() && kind_has_background_task(
                                #[trigger] self.handlers@[x].kind,
                            ) implies tag_in_aborts(self.abort_tags@, self.handlers@[x].tag@) by {
                            assert(x != j as int);
                            assert(self.handlers@[x] == pre[x]);
                            assert(tag_in_aborts(self.abort_tags@, pre[x].tag@));
                        }
                    }
                }
            },
            None => {
                self.handlers.push(stored);
                proof {
                    lemma_has_tag_push(pre, stored);
                    if cond {
                        assert forall|a: int, b: int|
                            0 <= a < b < self.handlers@.len() implies self.handlers@[a].tag@
                            != self.handlers@[b].tag@ by {
                            if b < pre.len() {
                                assert(pre[a].tag@ != pre[b].tag@);
                            } else {
                                assert(self.handlers@[b] == stored);
                            }
                        }
                        assert forall|i: int| 0 <= i < self.handlers@.len() implies actors_resolve(
                            self.handlers@,
                            #[trigger] self.handlers@[i].actors@,
                        ) by {
                            let base = if i < pre.len() {
                                pre[i].actors@
                            } else {
                                handler.actors@
                            };
                            assert(self.handlers@[i].actors@ == base);
                            assert(actors_resolve(pre, base));
                            assert forall|k: int| 0 <= k < base.len() implies has_tag(
                                self.handlers@,
                                #[trigger] base[k]@,
                            ) by {
                                assert(has_tag(pre, base[k]@));
                            }
                        }
                        assert forall|i: int| 0 <= i < self.selectors@.len() implies has_tag(
                            self.handlers@,
                            #[trigger] self.selectors@[i].tag@,
                        ) && actors_resolve(self.handlers@, self.selectors@[i].actors@) by {
                            assert(has_tag(pre, self.selectors@[i].tag@));
                            assert forall|k: int|
                                0 <= k < self.selectors@[i].actors@.len() implies has_tag(
                                self.handlers@,
                                #[trigger] self.selectors@[i].actors@[k]@,
                            ) by {
                                assert(has_tag(pre, self.selectors@[i].actors@[k]@));
                            }
                        }
                        assert forall|i: int|
                            0 <= i < self.handlers@.len() && self.handlers@[i].kind
                                == ProtocolKind::Select implies has_selector_tag(
                            self.selectors@,
                            #[trigger] self.handlers@[i].tag@,
                        ) by {
                            assert(self.handlers@[i] == pre[i]);
                        }
                        assert forall|k: int|
                            0 <= k < self.abort_tags@.len() implies tag_has_background_handler(
                            self.handlers@,
                            #[trigger] self.abort_tags@[k]@,
                        ) by {
                            assert(tag_has_background_handler(pre, self.abort_tags@[k]@));
                            lemma_bg_mono(pre, self.handlers@, self.abort_tags@[k]@);
                        }
                        assert forall|x: int|
                            0 <= x < self.handlers@.len() && kind_has_background_task(
                                #[trigger] self.handlers@[x].kind,
                            ) implies tag_in_aborts(self.abort_tags@, self.handlers@[x].tag@) by {
                            assert(self.handlers@[x] == pre[x]);
                            assert(tag_in_aborts(self.abort_tags@, pre[x].tag@));
                        }
                    }
                }
            },
        }
    }

    /// Hands out the registered handlers in registration order.
    pub fn handlers(&self) -> (r: Handlers<'_>)
        ensures
            r.inner@ == self.handlers@,
            r.pos == 0,
    {
        Handlers { inner: &self.handlers, pos: 0 }
    }

    /// Looks up the selector of a select combinator by tag.
    pub fn get_selector(&self, tag: &String) -> (r: Option<&OutboundSelector>)
        ensures
            match r {
                Some(s) => exists|i: int|
                    0 <= i < self.selectors@.len() && self.selectors@[i] == *s && s.tag@ == tag@,
                None => !has_selector_tag(self.selectors@, tag@),
            },
    {
        match find_selector_index(&self.selectors, tag) {
            Some(i) => Some(&self.selectors[i]),
            None => None,
        }
    }

    /// Selects an actor of the select combinator carrying `tag`; an
    /// error when no such selector exists or the actor is not one of
    /// its actors.
    pub fn set_selected(&mut self, tag: &String, actor: &String) -> (r: Result<(), Error>)
        requires
            old(self).wf(),
        ensures
            final(self).wf(),
            final(self).handlers@ == old(self).handlers@,
            final(self).default_handler == old(self).default_handler,
            final(self).abort_tags@ == old(self).abort_tags@,
            final(self).selectors@.len() == old(self).selectors@.len(),
            forall|i: int|
                0 <= i < final(self).selectors@.len() ==> #[trigger] final(self).selectors@[i].tag@ == old(self).selectors@[i].tag@ && final(self).selectors@[i].actors@ == old(self).selectors@[i].actors@,
            // success exactly when a selector carries the tag and the
            // actor is one of its actors
            r is Ok <==> exists|i: int|
                0 <= i < old(self).selectors@.len() && #[trigger] old(self).selectors@[i].tag@
                    == tag@ && exists|k: int|
                    0 <= k < old(self).selectors@[i].actors@.len() && old(self).selectors@[i].actors@[k]@ == actor@,
            // failure leaves every selection as it was
            r is Err ==> final(self).selectors@ == old(self).selectors@,
            forall|i: int|
                0 <= i < final(self).selectors@.len() ==> #[trigger] old(self).selectors@[i].tag@ != tag@ ==> final(self).selectors@[i].selected == old(self).selectors@[i].selected,
            r is Ok ==> forall|i: int|
                0 <= i < final(self).selectors@.len() && #[trigger] old(self).selectors@[i].tag@
                    == tag@ ==> opt_str_view(final(self).selectors@[i].selected) == Some(actor@),
    {
        match find_selector_index(&self.selectors, tag) {
            Some(i) => {
                let ghost pre = self.selectors@;
                let r = self.selectors[i].set_selected(actor);
                proof {
                    assert forall|j: int|
                        0 <= j < self.selectors@.len() && j != i implies self.selectors@[j]
                        == pre[j] by {}
                    if r is Err {
                        assert(self.selectors@[i as int] == pre[i as int]);
                        assert(self.selectors@ =~= pre);
                    }
                    let w = choose|w: int| 0 <= w < pre.len() && pre[w].tag@ == tag@;
                    if w != i as int {
                        if w < i as int {
                            assert(pre[w].tag@ != pre[i as int].tag@);
                        } else {
                            assert(pre[i as int].tag@ != pre[w].tag@);
                        }
                    }
                    if r is Ok {
                        assert(exists|k: int|
                            0 <= k < pre[i as int].actors@.len() && pre[i as int].actors@[k]@
                                == actor@);
                    } else {
                        assert forall|x: int|
                            0 <= x < pre.len() && #[trigger] pre[x].tag@ == tag@ implies !exists|
                            k: int,
                        |
                            0 <= k < pre[x].actors@.len() && pre[x].actors@[k]@ == actor@ by {
                            if x < i as int {
                                assert(pre[x].tag@ != pre[i as int].tag@);
                            } else if x > i as int {
                                assert(pre[i as int].tag@ != pre[x].tag@);
                            }
                        }
                    }
                }
                r
            },
            None => Err(Error::Config("selector not found".to_owned())),
        }
    }
}

/// Iterates over the registered handlers.
pub struct Handlers<'a> {
    pub inner: &'a Vec<Handler>,
    pub pos: usize,
}

impl<'a> Handlers<'a> {
    /// The next handler, or `None` when the iteration is done.
    pub fn next(&mut self) -> (r: Option<&'a Handler>)
        requires
            old(self).pos <= old(self).inner@.len(),
        ensures
            final(self).inner@ == old(self).inner@,
            match r {
                Some(h) => old(self).pos < old(self).inner@.len() && *h == old(self).inner@[old(self).pos as int] && final(self).pos == old(self).pos + 1,
                None => old(self).pos == old(self).inner@.len() && final(self).pos == old(self).pos,
            },
    {
        if self.pos < self.inner.len() {
            let h = &self.inner[self.pos];
            self.pos += 1;
            Some(h)
        } else {
            None
        }
    }
}

} // verus!
