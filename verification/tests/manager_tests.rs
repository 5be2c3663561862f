use leaf::{
    to_errno, Error, IpAddress, Outbound, OutboundManager, Protocol, ProtocolKind, ERR_CONFIG,
};

fn ob(tag: &str, protocol: Protocol) -> Outbound {
    Outbound { tag: tag.to_owned(), bind: IpAddress::V4(0), protocol: protocol }
}

fn tags(v: &[&str]) -> Vec<String> {
    v.iter().map(|s| (*s).to_owned()).collect()
}

#[test]
fn duplicate_tags_are_a_config_error() {
    let outbounds = vec![ob("a", Protocol::Direct), ob("a", Protocol::Drop)];
    let r = OutboundManager::new(&outbounds, &Vec::new());
    match r {
        Err(e) => {
            assert!(matches!(e, Error::Config(_)));
            assert_eq!(to_errno(&e), ERR_CONFIG);
        }
        Ok(_) => panic!("duplicate tags must be rejected"),
    }
}

#[test]
fn endpoints_and_combinators_are_built() {
    let outbounds = vec![
        ob(
            "f",
            Protocol::Failover {
                actors: tags(&["b", "a"]),
                fail_timeout: 1,
                health_check: true,
                check_interval: 10,
                failover: true,
                fallback_cache: false,
                cache_size: 16,
                cache_timeout: 60,
            },
        ),
        ob("a", Protocol::Direct),
        ob("b", Protocol::Drop),
    ];
    let m = OutboundManager::new(&outbounds, &Vec::new()).unwrap();
    let f = m.get(&"f".to_owned()).expect("failover must resolve over endpoints");
    assert_eq!(f.kind, ProtocolKind::Failover);
    assert_eq!(f.actors, tags(&["b", "a"]));
    assert!(f.has_tcp && f.has_udp);
    assert_eq!(m.get(&"a".to_owned()).unwrap().kind, ProtocolKind::Direct);
    assert_eq!(m.get(&"b".to_owned()).unwrap().kind, ProtocolKind::Drop);
    // the first leaf encountered becomes the default handler, not the
    // combinator declared before it
    assert_eq!(m.default_handler().as_deref(), Some("a"));
    // the failover's background probe task is owned for cancellation
    assert_eq!(m.abort_tags, tags(&["f"]));
}

#[test]
fn unresolved_actor_drops_the_combinator_silently() {
    let outbounds = vec![
        ob("a", Protocol::Direct),
        ob("t", Protocol::TryAll { actors: tags(&["a", "missing"]), delay_base: 0 }),
    ];
    let m = OutboundManager::new(&outbounds, &Vec::new()).unwrap();
    assert!(m.get(&"t".to_owned()).is_none());
    assert!(m.get(&"a".to_owned()).is_some());
}

#[test]
fn empty_actor_combinators_are_skipped() {
    let outbounds = vec![
        ob("a", Protocol::Direct),
        ob("t", Protocol::TryAll { actors: Vec::new(), delay_base: 0 }),
        ob(
            "m",
            Protocol::Amux {
                address: "example.org".to_owned(),
                port: 443,
                actors: Vec::new(),
                max_accepts: 8,
                concurrency: 2,
            },
        ),
        ob("s", Protocol::Select { actors: Vec::new() }),
        ob(
            "m2",
            Protocol::Amux {
                address: "example.org".to_owned(),
                port: 443,
                actors: vec!["a".to_owned()],
                max_accepts: 8,
                concurrency: 2,
            },
        ),
    ];
    let m = OutboundManager::new(&outbounds, &Vec::new()).unwrap();
    assert!(m.get(&"t".to_owned()).is_none());
    assert!(m.get(&"m".to_owned()).is_none());
    assert!(m.get(&"s".to_owned()).is_none());
    assert!(m.get_selector(&"s".to_owned()).is_none());
    let amux = m.get(&"m2".to_owned()).expect("amux with actors is built");
    assert_eq!(amux.kind, ProtocolKind::Amux);
    assert!(amux.has_tcp && !amux.has_udp);
}

#[test]
fn no_endpoint_means_no_default() {
    let outbounds = vec![ob("r", Protocol::Retry { actors: vec!["x".to_owned()], attempts: 2 })];
    let m = OutboundManager::new(&outbounds, &Vec::new()).unwrap();
    assert_eq!(m.default_handler(), None);
}

#[test]
fn nested_combinators_resolve_through_the_fixed_point() {
    // a chain over a failover over endpoints: needs more than one scan
    let outbounds = vec![
        ob("c", Protocol::Chain { actors: tags(&["r", "a"]) }),
        ob("r", Protocol::Retry { actors: tags(&["b"]), attempts: 2 }),
        ob("a", Protocol::Direct),
        ob("b", Protocol::Drop),
    ];
    let m = OutboundManager::new(&outbounds, &Vec::new()).unwrap();
    assert_eq!(m.get(&"r".to_owned()).unwrap().kind, ProtocolKind::Retry);
    assert_eq!(m.get(&"c".to_owned()).unwrap().kind, ProtocolKind::Chain);
}

#[test]
fn selector_starts_at_first_actor_and_selection_switches() {
    let outbounds = vec![
        ob("s", Protocol::Select { actors: tags(&["a", "b"]) }),
        ob("a", Protocol::Direct),
        ob("b", Protocol::Drop),
    ];
    let mut m = OutboundManager::new(&outbounds, &Vec::new()).unwrap();
    let sel = m.get_selector(&"s".to_owned()).expect("selector registered");
    assert_eq!(sel.get_selected_tag().as_deref(), Some("a"));
    // a runtime call switches the selection; flows now go to the drop handler
    m.set_selected(&"s".to_owned(), &"b".to_owned()).unwrap();
    let selected = m
        .get_selector(&"s".to_owned())
        .unwrap()
        .get_selected_tag()
        .unwrap();
    assert_eq!(selected, "b");
    assert_eq!(m.get(&selected).unwrap().kind, ProtocolKind::Drop);
    // selecting an unknown actor fails and changes nothing
    assert!(m.set_selected(&"s".to_owned(), &"zz".to_owned()).is_err());
    assert_eq!(
        m.get_selector(&"s".to_owned()).unwrap().get_selected_tag().as_deref(),
        Some("b")
    );
}

#[test]
fn persisted_selection_is_restored_at_construction() {
    let outbounds = vec![
        ob("s", Protocol::Select { actors: tags(&["a", "b"]) }),
        ob("a", Protocol::Direct),
        ob("b", Protocol::Drop),
    ];
    let cached = vec![("s".to_owned(), "b".to_owned())];
    let m = OutboundManager::new(&outbounds, &cached).unwrap();
    assert_eq!(
        m.get_selector(&"s".to_owned()).unwrap().get_selected_tag().as_deref(),
        Some("b")
    );
}

#[test]
fn reload_preserves_selections() {
    let make = || {
        vec![
            ob("s", Protocol::Select { actors: tags(&["a", "b"]) }),
            ob("a", Protocol::Direct),
            ob("b", Protocol::Drop),
        ]
    };
    let mut m = OutboundManager::new(&make(), &Vec::new()).unwrap();
    m.set_selected(&"s".to_owned(), &"b".to_owned()).unwrap();
    m.reload(&make(), &Vec::new()).unwrap();
    assert_eq!(
        m.get_selector(&"s".to_owned()).unwrap().get_selected_tag().as_deref(),
        Some("b")
    );
}

#[test]
fn reload_rejects_duplicates_and_keeps_the_old_graph() {
    let mut m = OutboundManager::new(&vec![ob("a", Protocol::Direct)], &Vec::new()).unwrap();
    let bad = vec![ob("x", Protocol::Direct), ob("x", Protocol::Drop)];
    assert!(m.reload(&bad, &Vec::new()).is_err());
    assert!(m.get(&"a".to_owned()).is_some());
    assert_eq!(m.default_handler().as_deref(), Some("a"));
}

#[test]
fn reload_swaps_the_graph_but_flows_keep_their_handler() {
    let mut m = OutboundManager::new(&vec![ob("a", Protocol::Direct)], &Vec::new()).unwrap();
    // an in-progress flow takes its handler before the reload
    let flow_handler = m.get(&"a".to_owned()).unwrap().clone();
    m.reload(&vec![ob("z", Protocol::Drop)], &Vec::new()).unwrap();
    // the new generation no longer carries the old tag
    assert!(m.get(&"a".to_owned()).is_none());
    assert_eq!(m.default_handler().as_deref(), Some("z"));
    // the flow's handler value is untouched by the swap
    assert_eq!(flow_handler.tag, "a");
    assert_eq!(flow_handler.kind, ProtocolKind::Direct);
}

#[test]
fn add_get_and_iteration() {
    let mut m = OutboundManager::new(&vec![ob("a", Protocol::Direct)], &Vec::new()).unwrap();
    let h = leaf::Handler {
        tag: "extra".to_owned(),
        kind: ProtocolKind::Socks,
        has_tcp: true,
        has_udp: true,
        actors: Vec::new(),
    };
    m.add("extra".to_owned(), h);
    assert_eq!(m.get(&"extra".to_owned()).unwrap().kind, ProtocolKind::Socks);
    // registering under a taken tag replaces the entry
    let h2 = leaf::Handler {
        tag: "extra".to_owned(),
        kind: ProtocolKind::Trojan,
        has_tcp: true,
        has_udp: true,
        actors: Vec::new(),
    };
    m.add("extra".to_owned(), h2);
    assert_eq!(m.get(&"extra".to_owned()).unwrap().kind, ProtocolKind::Trojan);
    let mut it = m.handlers();
    let mut seen: Vec<String> = Vec::new();
    while let Some(h) = it.next() {
        seen.push(h.tag.clone());
    }
    assert_eq!(seen, vec!["a".to_owned(), "extra".to_owned()]);
}

#[test]
fn select_with_unresolved_actor_is_absent_from_both_maps() {
    let outbounds = vec![
        ob("a", Protocol::Direct),
        ob("s", Protocol::Select { actors: tags(&["a", "missing"]) }),
    ];
    let m = OutboundManager::new(&outbounds, &Vec::new()).unwrap();
    assert!(m.get(&"s".to_owned()).is_none());
    assert!(m.get_selector(&"s".to_owned()).is_none());
}

#[test]
fn selection_calls_succeed_exactly_on_known_selector_and_actor() {
    let outbounds = vec![
        ob("s", Protocol::Select { actors: tags(&["a", "b"]) }),
        ob("a", Protocol::Direct),
        ob("b", Protocol::Drop),
    ];
    let mut m = OutboundManager::new(&outbounds, &Vec::new()).unwrap();
    assert!(m.set_selected(&"s".to_owned(), &"b".to_owned()).is_ok());
    // unknown selector tag fails and changes nothing
    assert!(m.set_selected(&"zz".to_owned(), &"a".to_owned()).is_err());
    assert_eq!(
        m.get_selector(&"s".to_owned()).unwrap().get_selected_tag().as_deref(),
        Some("b")
    );
}
