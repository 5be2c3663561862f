use leaf::{
    copy_direction, dispatch_tcp, CopyAction, Destination, DirectionCopier, FakeDns, FakeDnsMode,
    IpAddress, Network, Outbound, OutboundManager, Protocol, ProtocolKind, RouteQuery, Router,
    Rule, RulePredicate, SocketAddress,
};

fn ob(tag: &str, protocol: Protocol) -> Outbound {
    Outbound { tag: tag.to_owned(), bind: IpAddress::V4(0x7F000001), protocol: protocol }
}

fn query_to(dest: Destination) -> RouteQuery {
    RouteQuery {
        network: Network::Tcp,
        source: SocketAddress { ip: IpAddress::V4(0x7F000001), port: 51000 },
        destination: dest,
        inbound_tag: "socks-in".to_owned(),
        resolved_ips: Vec::new(),
        dest_country: None,
    }
}

const POOL_BASE: u32 = 0xC6120000;
const POOL_SIZE: u32 = 1 << 17;

#[test]
fn connect_through_the_single_direct_outbound() {
    // one direct outbound, no rules: every flow takes the default
    let om = OutboundManager::new(&vec![ob("d", Protocol::Direct)], &Vec::new()).unwrap();
    let router = Router::new(Vec::new());
    let fd = FakeDns::new(FakeDnsMode::Exclude, 16, POOL_BASE, POOL_SIZE);
    let q = query_to(Destination::Domain("example.com".to_owned(), 80));
    let (dest, handler) = dispatch_tcp(&om, &router, &fd, q);
    match dest {
        Destination::Domain(h, p) => {
            assert_eq!(h, "example.com");
            assert_eq!(p, 80);
        }
        other => panic!("destination changed unexpectedly: {:?}", other),
    }
    let h = handler.expect("the default handler serves the flow");
    assert_eq!(h.tag, "d");
    assert_eq!(h.kind, ProtocolKind::Direct);
    // the client's bytes arrive at the upstream byte for byte
    let sent = b"GET / HTTP/1.0\r\n\r\n".to_vec();
    let received = copy_direction(vec![sent.clone()], 30_000);
    assert_eq!(received, sent);
}

#[test]
fn suffix_rule_picks_direct_and_default_picks_proxy() {
    let om = OutboundManager::new(
        &vec![
            ob("proxy", Protocol::Socks { address: "10.0.0.2".to_owned(), port: 1080 }),
            ob("direct", Protocol::Direct),
        ],
        &Vec::new(),
    )
    .unwrap();
    let router = Router::new(vec![Rule {
        predicates: vec![RulePredicate::DomainSuffix(".cn".to_owned())],
        target: "direct".to_owned(),
    }]);
    let fd = FakeDns::new(FakeDnsMode::Exclude, 16, POOL_BASE, POOL_SIZE);

    let (_, h1) = dispatch_tcp(&om, &router, &fd, query_to(Destination::Domain("foo.cn".to_owned(), 80)));
    assert_eq!(h1.unwrap().tag, "direct");

    let (_, h2) = dispatch_tcp(&om, &router, &fd, query_to(Destination::Domain("foo.com".to_owned(), 80)));
    assert_eq!(h2.unwrap().tag, "proxy");
}

#[test]
fn fake_address_is_dispatched_under_its_host_name() {
    let om = OutboundManager::new(&vec![ob("d", Protocol::Direct)], &Vec::new()).unwrap();
    let router = Router::new(Vec::new());
    let mut fd = FakeDns::new(FakeDnsMode::Exclude, 16, POOL_BASE, POOL_SIZE);
    let a = fd.query(&"test.invalid".to_owned());
    let q = query_to(Destination::Ip(SocketAddress { ip: IpAddress::V4(a), port: 443 }));
    let (dest, handler) = dispatch_tcp(&om, &router, &fd, q);
    match dest {
        Destination::Domain(h, p) => {
            assert_eq!(h, "test.invalid");
            assert_eq!(p, 443);
        }
        other => panic!("expected the recovered host name, got {:?}", other),
    }
    assert_eq!(handler.unwrap().tag, "d");
}

#[test]
fn routed_tag_without_handler_falls_back_to_default() {
    let om = OutboundManager::new(&vec![ob("d", Protocol::Direct)], &Vec::new()).unwrap();
    let router = Router::new(vec![Rule { predicates: Vec::new(), target: "ghost".to_owned() }]);
    let fd = FakeDns::new(FakeDnsMode::Exclude, 16, POOL_BASE, POOL_SIZE);
    let (_, h) = dispatch_tcp(&om, &router, &fd, query_to(Destination::Domain("a.b".to_owned(), 1)));
    assert_eq!(h.unwrap().tag, "d");
}

#[test]
fn copied_bytes_are_exactly_the_bytes_read() {
    // an arbitrary byte stream, chunked arbitrarily, survives unchanged
    let chunks: Vec<Vec<u8>> = vec![
        vec![0x00, 0xff, 0x10],
        vec![],
        vec![0x7f],
        (0u8..=255u8).collect(),
        vec![0x0a, 0x0d],
    ];
    let whole: Vec<u8> = chunks.iter().flatten().copied().collect();
    assert_eq!(copy_direction(chunks, 1000), whole);
}

#[test]
fn half_close_and_idle_timeout_decisions() {
    let mut c = DirectionCopier::new(30_000, 0);
    match c.on_data(vec![1, 2, 3], 100) {
        CopyAction::Forward(d) => assert_eq!(d, vec![1, 2, 3]),
        other => panic!("expected a forward, got {:?}", other),
    }
    // end of input: the peer gets a write-shutdown, not a close
    assert!(matches!(c.on_eof(), CopyAction::ShutdownPeer));
    // idle checks: inside the window nothing happens, past it the flow aborts
    let c2 = DirectionCopier::new(30_000, 0);
    assert!(c2.on_tick(30_000).is_none());
    assert!(matches!(c2.on_tick(30_001), Some(CopyAction::Abort)));
}

#[test]
fn select_combinator_forwards_to_the_selected_actor() {
    let mut m = OutboundManager::new(
        &vec![
            ob("s", Protocol::Select { actors: vec!["a".to_owned(), "b".to_owned()] }),
            ob("a", Protocol::Direct),
            ob("b", Protocol::Drop),
        ],
        &Vec::new(),
    )
    .unwrap();
    let picked = leaf::resolve_selected(&m, m.get(&"s".to_owned()).unwrap()).unwrap();
    assert_eq!(picked.tag, "a");
    // after switching the selection, subsequent flows are dropped
    m.set_selected(&"s".to_owned(), &"b".to_owned()).unwrap();
    let picked = leaf::resolve_selected(&m, m.get(&"s".to_owned()).unwrap()).unwrap();
    assert_eq!(picked.tag, "b");
    assert_eq!(picked.kind, ProtocolKind::Drop);
    // a non-select handler serves the flow itself
    let direct = m.get(&"a".to_owned()).unwrap();
    assert_eq!(leaf::resolve_selected(&m, direct).unwrap().tag, "a");
}

#[test]
fn udp_path_keys_the_nat_and_routes() {
    let om = OutboundManager::new(&vec![ob("d", Protocol::Direct)], &Vec::new()).unwrap();
    let router = Router::new(Vec::new());
    let mut nat = leaf::NatManager::new(30_000);
    let src = SocketAddress { ip: IpAddress::V4(0x0A000001), port: 5353 };
    let dst = SocketAddress { ip: IpAddress::V4(0x08080808), port: 53 };
    let q = query_to(Destination::Ip(dst));
    let ((s1, new1), h1) = leaf::dispatch_udp(&om, &router, &mut nat, src, dst, &q, 0);
    assert!(new1);
    assert_eq!(h1.unwrap().tag, "d");
    let q2 = query_to(Destination::Ip(dst));
    let ((s2, new2), _) = leaf::dispatch_udp(&om, &router, &mut nat, src, dst, &q2, 10_000);
    assert!(!new2);
    assert_eq!(s1, s2);
}

#[test]
fn flows_become_route_queries_unresolved() {
    let flow = leaf::Flow {
        network: Network::Udp,
        source: SocketAddress { ip: IpAddress::V4(1), port: 2 },
        destination: Destination::Domain("a.b".to_owned(), 53),
        inbound_tag: "tun-in".to_owned(),
    };
    let q = leaf::route_query_of_flow(flow);
    assert!(matches!(q.network, Network::Udp));
    assert_eq!(q.inbound_tag, "tun-in");
    assert!(q.resolved_ips.is_empty());
    assert!(q.dest_country.is_none());
}
