use leaf::{
    attempt_actor, failover_dispatch, priority_order, random_pick, retry_dispatch, tryall_winner,
    AmuxState,
};

#[test]
fn priority_sorts_healthy_actors_by_rtt() {
    let rtts = vec![Some(30), None, Some(10), Some(20), None];
    let (order, healthy) = priority_order(&rtts);
    assert_eq!(healthy, 3);
    assert_eq!(&order[..3], &[2, 3, 0]);
    // failed actors tail in declaration order
    assert_eq!(&order[3..], &[1, 4]);
}

#[test]
fn failover_tries_actors_in_order_until_one_succeeds() {
    // actors declared [b, a]: b times out, a answers; the flow
    // completes after a single failed attempt, within twice the
    // per-attempt timeout
    let order = vec![0, 1];
    let outcomes = vec![false, true];
    let (k, actor) = failover_dispatch(&order, &outcomes, true).unwrap();
    assert_eq!(k, 1);
    assert_eq!(actor, 1);
    let fail_timeout_secs: u64 = 1;
    let failed_attempts = k as u64;
    assert!(failed_attempts * fail_timeout_secs < 2 * fail_timeout_secs);
}

#[test]
fn failover_disabled_tries_only_the_head() {
    let order = vec![0, 1];
    let outcomes = vec![false, true];
    assert_eq!(failover_dispatch(&order, &outcomes, false), None);
    let outcomes2 = vec![true, false];
    assert_eq!(failover_dispatch(&order, &outcomes2, false), Some((0, 0)));
}

#[test]
fn retry_stops_at_the_first_success() {
    // two actors, two rounds: failures until the third attempt
    let outcomes = vec![false, false, true, false];
    let first = retry_dispatch(&outcomes).unwrap();
    assert_eq!(first, 2);
    assert_eq!(attempt_actor(first, 2), 0);
    assert_eq!(retry_dispatch(&vec![false, false]), None);
}

#[test]
fn tryall_earliest_completion_wins() {
    // starts staggered by 100 ms: actor 0 completes at 250, actor 1 at
    // 150, actor 2 fails
    let rtts = vec![Some(250), Some(50), None];
    assert_eq!(tryall_winner(100, &rtts), Some(1));
    // with no stagger, ties go to the earlier actor
    let rtts2 = vec![Some(50), Some(50)];
    assert_eq!(tryall_winner(0, &rtts2), Some(0));
    assert_eq!(tryall_winner(100, &vec![None, None]), None);
}

#[test]
fn random_pick_is_the_draw_modulo_the_actor_count() {
    assert_eq!(random_pick(3, 0), 0);
    assert_eq!(random_pick(3, 7), 1);
    assert_eq!(random_pick(1, u64::MAX), 0);
}

#[test]
fn amux_fills_connections_up_to_the_limits() {
    let mut s = AmuxState::new(2, 2);
    assert_eq!(s.assign_stream(), Some((0, true)));
    assert_eq!(s.assign_stream(), Some((0, false)));
    assert_eq!(s.assign_stream(), Some((1, true)));
    assert_eq!(s.assign_stream(), Some((1, false)));
    // both connections full and no more may be opened
    assert_eq!(s.assign_stream(), None);
}

#[test]
fn fallback_cache_biases_within_its_ttl() {
    let mut c = leaf::FallbackCache::new(2);
    c.put("a.example".to_owned(), "tag-a".to_owned(), 1_000);
    assert_eq!(
        c.get(&"a.example".to_owned(), 500).map(|s| s.as_str()),
        Some("tag-a")
    );
    // expired records bias nothing
    assert_eq!(c.get(&"a.example".to_owned(), 1_001), None);
    // a new success replaces the host's record
    c.put("a.example".to_owned(), "tag-b".to_owned(), 2_000);
    assert_eq!(
        c.get(&"a.example".to_owned(), 1_500).map(|s| s.as_str()),
        Some("tag-b")
    );
    // the cache is bounded: a third host drops the oldest record
    c.put("b.example".to_owned(), "tag-a".to_owned(), 2_000);
    c.put("c.example".to_owned(), "tag-a".to_owned(), 2_000);
    assert_eq!(c.entries.len(), 2);
    assert_eq!(c.get(&"a.example".to_owned(), 1_500), None);
}
