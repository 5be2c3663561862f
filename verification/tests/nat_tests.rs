use leaf::{IpAddress, NatManager, SocketAddress};

fn sa(ip: u32, port: u16) -> SocketAddress {
    SocketAddress { ip: IpAddress::V4(ip), port }
}

#[test]
fn datagrams_within_the_idle_window_reuse_the_session() {
    let mut nat = NatManager::new(30_000);
    let src = sa(0x0A000001, 5000);
    let dst = sa(0x08080808, 53);
    let (s1, new1) = nat.get_or_create(src, dst, 1_000);
    let (s2, new2) = nat.get_or_create(src, dst, 10_000);
    assert!(new1);
    assert!(!new2);
    assert_eq!(s1, s2);
}

#[test]
fn idle_expiry_creates_a_new_session() {
    let mut nat = NatManager::new(30_000);
    let src = sa(0x0A000001, 5000);
    let dst = sa(0x08080808, 53);
    let (s1, _) = nat.get_or_create(src, dst, 1_000);
    let (s2, new2) = nat.get_or_create(src, dst, 40_000);
    assert!(new2);
    assert_ne!(s1, s2);
}

#[test]
fn activity_refreshes_the_window() {
    let mut nat = NatManager::new(30_000);
    let src = sa(0x0A000001, 5000);
    let dst = sa(0x08080808, 53);
    let (s1, _) = nat.get_or_create(src, dst, 0);
    // each datagram within the window refreshes the last activity
    let (s2, _) = nat.get_or_create(src, dst, 25_000);
    let (s3, new3) = nat.get_or_create(src, dst, 50_000);
    assert_eq!(s1, s2);
    assert_eq!(s2, s3);
    assert!(!new3);
}

#[test]
fn distinct_pairs_get_distinct_sessions() {
    let mut nat = NatManager::new(30_000);
    let (s1, _) = nat.get_or_create(sa(1, 10), sa(9, 53), 0);
    let (s2, _) = nat.get_or_create(sa(1, 11), sa(9, 53), 0);
    let (s3, _) = nat.get_or_create(sa(1, 10), sa(9, 54), 0);
    assert_ne!(s1, s2);
    assert_ne!(s1, s3);
    assert_ne!(s2, s3);
}

#[test]
fn idle_entries_are_evicted() {
    let mut nat = NatManager::new(30_000);
    let old_pair = (sa(1, 10), sa(9, 53));
    let live_pair = (sa(1, 11), sa(9, 53));
    let _ = nat.get_or_create(old_pair.0, old_pair.1, 0);
    let _ = nat.get_or_create(live_pair.0, live_pair.1, 40_000);
    nat.evict_idle(50_000);
    assert_eq!(nat.entries.len(), 1);
    assert_eq!(nat.entries[0].source, live_pair.0);
}
