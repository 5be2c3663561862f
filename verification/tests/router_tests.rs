use leaf::{
    Destination, IpAddress, Network, RouteQuery, Router, Rule, RulePredicate, SocketAddress,
};

fn query_to(dest: Destination) -> RouteQuery {
    RouteQuery {
        network: Network::Tcp,
        source: SocketAddress { ip: IpAddress::V4(0x0A000001), port: 40000 },
        destination: dest,
        inbound_tag: "socks-in".to_owned(),
        resolved_ips: Vec::new(),
        dest_country: None,
    }
}

fn domain(host: &str, port: u16) -> Destination {
    Destination::Domain(host.to_owned(), port)
}

fn rule(preds: Vec<RulePredicate>, target: &str) -> Rule {
    Rule { predicates: preds, target: target.to_owned() }
}

#[test]
fn domain_suffix_routes_and_default_applies() {
    let router = Router::new(vec![rule(
        vec![RulePredicate::DomainSuffix(".cn".to_owned())],
        "direct",
    )]);
    assert_eq!(
        router.route(&query_to(domain("foo.cn", 80))).map(|s| s.as_str()),
        Some("direct")
    );
    // no match: the caller falls back to the default handler
    assert_eq!(router.route(&query_to(domain("foo.com", 80))), None);
}

#[test]
fn first_matching_rule_wins_deterministically() {
    let rules = vec![
        rule(vec![RulePredicate::DomainKeyword("exam".to_owned())], "one"),
        rule(vec![RulePredicate::DomainSuffix(".com".to_owned())], "two"),
    ];
    let router = Router::new(rules);
    let q = query_to(domain("example.com", 443));
    // both rules match; the first declared wins, on every evaluation
    for _ in 0..3 {
        assert_eq!(router.route(&q).map(|s| s.as_str()), Some("one"));
    }
}

#[test]
fn predicates_join_with_short_circuit_and() {
    let router = Router::new(vec![rule(
        vec![
            RulePredicate::DomainSuffix(".com".to_owned()),
            RulePredicate::PortRange { start: 443, end: 443 },
        ],
        "tls-only",
    )]);
    assert_eq!(
        router.route(&query_to(domain("a.com", 443))).map(|s| s.as_str()),
        Some("tls-only")
    );
    assert_eq!(router.route(&query_to(domain("a.com", 80))), None);
}

#[test]
fn domain_exact_and_keyword() {
    let router = Router::new(vec![
        rule(vec![RulePredicate::DomainExact("one.test".to_owned())], "x"),
        rule(vec![RulePredicate::DomainKeyword("tracker".to_owned())], "y"),
    ]);
    assert_eq!(router.route(&query_to(domain("one.test", 1))).map(|s| s.as_str()), Some("x"));
    assert_eq!(
        router.route(&query_to(domain("ads.tracker.net", 1))).map(|s| s.as_str()),
        Some("y")
    );
    assert_eq!(router.route(&query_to(domain("two.test", 1))), None);
}

#[test]
fn ip_cidr_matches_literal_destination() {
    // 10.0.0.0/8
    let router = Router::new(vec![rule(
        vec![RulePredicate::IpCidr { base: IpAddress::V4(0x0A000000), prefix: 8 }],
        "lan",
    )]);
    let inside = Destination::Ip(SocketAddress { ip: IpAddress::V4(0x0A636363), port: 22 });
    let outside = Destination::Ip(SocketAddress { ip: IpAddress::V4(0x0B000001), port: 22 });
    assert_eq!(router.route(&query_to(inside)).map(|s| s.as_str()), Some("lan"));
    assert_eq!(router.route(&query_to(outside)), None);
}

#[test]
fn ip_cidr_uses_resolved_addresses_for_host_names() {
    let router = Router::new(vec![rule(
        vec![RulePredicate::IpCidr { base: IpAddress::V4(0xC0A80000), prefix: 16 }],
        "lan",
    )]);
    let mut q = query_to(domain("printer.local", 631));
    // without resolution the rule is skipped rather than resolved
    assert_eq!(router.route(&q), None);
    q.resolved_ips = vec![IpAddress::V4(0xC0A80177)];
    assert_eq!(router.route(&q).map(|s| s.as_str()), Some("lan"));
}

#[test]
fn source_network_inbound_and_geoip_predicates() {
    let router = Router::new(vec![
        rule(
            vec![RulePredicate::SourceCidr { base: IpAddress::V4(0x0A000000), prefix: 8 }],
            "from-lan",
        ),
        rule(vec![RulePredicate::NetworkIs(Network::Udp)], "udp-out"),
        rule(vec![RulePredicate::InboundTag("tun-in".to_owned())], "tun-out"),
        rule(vec![RulePredicate::GeoIp("NL".to_owned())], "nl-out"),
    ]);
    let q = query_to(domain("a.b", 1));
    assert_eq!(router.route(&q).map(|s| s.as_str()), Some("from-lan"));

    let mut q2 = query_to(domain("a.b", 1));
    q2.source = SocketAddress { ip: IpAddress::V4(0x7F000001), port: 1 };
    q2.network = Network::Udp;
    assert_eq!(router.route(&q2).map(|s| s.as_str()), Some("udp-out"));

    let mut q3 = query_to(domain("a.b", 1));
    q3.source = SocketAddress { ip: IpAddress::V4(0x7F000001), port: 1 };
    q3.inbound_tag = "tun-in".to_owned();
    assert_eq!(router.route(&q3).map(|s| s.as_str()), Some("tun-out"));

    let mut q4 = query_to(domain("a.b", 1));
    q4.source = SocketAddress { ip: IpAddress::V4(0x7F000001), port: 1 };
    q4.dest_country = Some("NL".to_owned());
    assert_eq!(router.route(&q4).map(|s| s.as_str()), Some("nl-out"));

    let mut q5 = query_to(domain("a.b", 1));
    q5.source = SocketAddress { ip: IpAddress::V4(0x7F000001), port: 1 };
    assert_eq!(router.route(&q5), None);
}

#[test]
fn ipv6_cidr() {
    let base = IpAddress::V6(0x2001_0db8_0000_0000_0000_0000_0000_0000u128);
    let router = Router::new(vec![rule(
        vec![RulePredicate::IpCidr { base, prefix: 32 }],
        "doc",
    )]);
    let inside = Destination::Ip(SocketAddress {
        ip: IpAddress::V6(0x2001_0db8_0000_0000_0000_0000_0000_0001u128),
        port: 1,
    });
    let outside = Destination::Ip(SocketAddress {
        ip: IpAddress::V6(0x2001_0db9_0000_0000_0000_0000_0000_0001u128),
        port: 1,
    });
    assert_eq!(router.route(&query_to(inside)).map(|s| s.as_str()), Some("doc"));
    assert_eq!(router.route(&query_to(outside)), None);
}
