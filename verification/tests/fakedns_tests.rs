use leaf::{
    fake_dns_mode_from_lists, to_errno, Destination, FakeDns, FakeDnsMode, IpAddress,
    SocketAddress, ERR_CONFIG,
};

// 198.18.0.0/15: the conventional benchmarking range used as the
// synthetic pool
const POOL_BASE: u32 = 0xC6120000;
const POOL_SIZE: u32 = 1 << 17;

fn exclude_all() -> FakeDns {
    FakeDns::new(FakeDnsMode::Exclude, 64, POOL_BASE, POOL_SIZE)
}

#[test]
fn mode_selection_from_lists() {
    // both lists empty: exclude mode with no excludes, everything accepted
    let (mode, filters) = fake_dns_mode_from_lists(Vec::new(), Vec::new()).unwrap();
    assert_eq!(mode, FakeDnsMode::Exclude);
    assert!(filters.is_empty());

    let (mode, filters) =
        fake_dns_mode_from_lists(Vec::new(), vec!["corp".to_owned()]).unwrap();
    assert_eq!(mode, FakeDnsMode::Include);
    assert_eq!(filters, vec!["corp".to_owned()]);

    let (mode, filters) =
        fake_dns_mode_from_lists(vec!["corp".to_owned()], Vec::new()).unwrap();
    assert_eq!(mode, FakeDnsMode::Exclude);
    assert_eq!(filters, vec!["corp".to_owned()]);

    // both lists non-empty is a configuration error
    let err = fake_dns_mode_from_lists(vec!["a".to_owned()], vec!["b".to_owned()]).unwrap_err();
    assert_eq!(to_errno(&err), ERR_CONFIG);
}

#[test]
fn accept_follows_the_policy() {
    let mut fd = exclude_all();
    assert!(fd.accept(&"test.invalid".to_owned()));
    fd.add_filter("corp.example".to_owned());
    assert!(!fd.accept(&"www.corp.example".to_owned()));
    assert!(fd.accept(&"other.example".to_owned()));

    let mut inc = FakeDns::new(FakeDnsMode::Include, 64, POOL_BASE, POOL_SIZE);
    inc.add_filter("corp.example".to_owned());
    assert!(inc.accept(&"www.corp.example".to_owned()));
    assert!(!inc.accept(&"other.example".to_owned()));
}

#[test]
fn synthesized_answer_reverse_maps_to_the_query_name() {
    let mut fd = exclude_all();
    let a = fd.query(&"test.invalid".to_owned());
    // the answer lies in 198.18.0.0/15
    assert!(a >= POOL_BASE && a < POOL_BASE + POOL_SIZE);
    assert_eq!(fd.reverse(a).map(|s| s.as_str()), Some("test.invalid"));
    assert!(fd.is_fake_ip(a));
    assert!(!fd.is_fake_ip(0x08080808));
}

#[test]
fn repeated_queries_reuse_the_binding() {
    let mut fd = exclude_all();
    let a1 = fd.query(&"host.example".to_owned());
    let a2 = fd.query(&"host.example".to_owned());
    assert_eq!(a1, a2);
    let b = fd.query(&"other.example".to_owned());
    assert_ne!(a1, b);
}

#[test]
fn eviction_drops_the_least_recently_used_binding() {
    let mut fd = FakeDns::new(FakeDnsMode::Exclude, 2, POOL_BASE, POOL_SIZE);
    let a = fd.query(&"one.example".to_owned());
    let b = fd.query(&"two.example".to_owned());
    // touch "one" so that "two" is now the oldest
    let _ = fd.query(&"one.example".to_owned());
    let c = fd.query(&"three.example".to_owned());
    assert_eq!(fd.reverse(a).map(|s| s.as_str()), Some("one.example"));
    assert_eq!(fd.reverse(b), None);
    assert_eq!(fd.reverse(c).map(|s| s.as_str()), Some("three.example"));
}

#[test]
fn dispatcher_substitutes_the_fake_address() {
    let mut fd = exclude_all();
    let a = fd.query(&"test.invalid".to_owned());
    let dest = Destination::Ip(SocketAddress { ip: IpAddress::V4(a), port: 443 });
    match leaf::effective_destination(&dest, &fd) {
        Destination::Domain(host, port) => {
            assert_eq!(host, "test.invalid");
            assert_eq!(port, 443);
        }
        other => panic!("expected the host name back, got {:?}", other),
    }
    // an address outside the pool passes through unchanged
    let plain = Destination::Ip(SocketAddress { ip: IpAddress::V4(0x01020304), port: 80 });
    match leaf::effective_destination(&plain, &fd) {
        Destination::Ip(sa) => assert_eq!(sa.ip, IpAddress::V4(0x01020304)),
        other => panic!("expected the address back, got {:?}", other),
    }
}

#[test]
fn synthesized_answer_wire_format() {
    // query id 0xabcd, question "a.b" A IN
    let question: Vec<u8> = vec![
        1, b'a', 1, b'b', 0, // QNAME a.b
        0, 1, // QTYPE A
        0, 1, // QCLASS IN
    ];
    let out = leaf::build_dns_answer(0xabcd, &question, 0xC6120001);
    let mut expected: Vec<u8> = vec![
        0xab, 0xcd, // id echoed
        0x81, 0x80, // standard response flags
        0, 1, 0, 1, 0, 0, 0, 0, // one question, one answer
    ];
    expected.extend_from_slice(&question);
    expected.extend_from_slice(&[
        0xc0, 0x0c, // name: pointer to the question
        0, 1, 0, 1, // type A, class IN
        0, 0, 0, 1, // TTL = 1
        0, 4, // four bytes of address
        0xc6, 0x12, 0x00, 0x01,
    ]);
    assert_eq!(out, expected);
}
