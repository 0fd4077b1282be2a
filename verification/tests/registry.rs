use std::collections::hash_map::DefaultHasher;
use std::hash::{Hash, Hasher};
use tachyon::config::BackendConfig;
use tachyon::registry::{Backend, BackendRegistry};

fn backend(addr: &str, is_alive: bool, active_connections: usize) -> Backend {
    Backend { id: 0, addr: addr.to_string(), is_alive, active_connections, consecutive_errors: 0, weight: 1 }
}

fn registry(mut backends: Vec<Backend>) -> BackendRegistry {
    let mut next_id = 0;
    for b in &mut backends {
        b.id = next_id;
        next_id += 1;
    }
    BackendRegistry { backends, curr: 0, next_id }
}

fn named(backends: &[(&str, usize)]) -> Vec<BackendConfig> {
    backends
        .iter()
        .map(|(address, weight)| BackendConfig { address: address.to_string(), weight: *weight })
        .collect()
}

fn ids(r: &BackendRegistry) -> Vec<(u64, String)> {
    r.backends.iter().map(|b| (b.id, b.addr.clone())).collect()
}

#[test]
fn from_config_keeps_order() {
    let configs = vec![
        BackendConfig { address: "127.0.0.1:9001".to_string(), weight: 10 },
        BackendConfig { address: "127.0.0.1:9002".to_string(), weight: 1 },
    ];
    let r = BackendRegistry::from_config(&configs);
    assert_eq!(r.curr, 0);
    assert_eq!(r.backends.len(), 2);
    assert_eq!(r.backends[0].addr, "127.0.0.1:9001");
    assert_eq!(r.backends[1].addr, "127.0.0.1:9002");
    for b in &r.backends {
        assert!(b.is_alive);
        assert_eq!(b.active_connections, 0);
        assert_eq!(b.consecutive_errors, 0);
    }
    assert_eq!(r.backends[0].weight, 10);
    assert_eq!(r.backends[1].weight, 1);
    assert_ne!(r.backends[0].id, r.backends[1].id);
    assert_eq!(r.next_id, 2);
}

#[test]
fn a_backend_is_found_by_its_id() {
    let r = BackendRegistry::from_config(&named(&[("a", 1), ("b", 1), ("b", 1)]));
    for (at, b) in r.backends.iter().enumerate() {
        assert_eq!(r.locate(b.id), Some(at));
    }
    assert_eq!(r.locate(3), None);
}

#[test]
fn a_new_config_brings_its_backends() {
    let mut r = BackendRegistry::from_config(&named(&[("a", 1), ("b", 2)]));
    r.connect(1);
    r.record_failure(1);
    r.record_probe(0, false);
    r.curr = 7;
    r.apply_config(&named(&[("c", 5), ("b", 9)]));
    assert_eq!(ids(&r), vec![(2, "c".to_string()), (1, "b".to_string())]);
    assert_eq!(r.curr, 7);
    assert_eq!(r.next_id, 3);
    assert!(r.backends[0].is_alive);
    assert_eq!(r.backends[0].active_connections, 0);
    assert_eq!(r.backends[0].weight, 5);
    assert_eq!(r.backends[1].active_connections, 1);
    assert_eq!(r.backends[1].consecutive_errors, 1);
    assert_eq!(r.backends[1].weight, 9);
    assert_eq!(r.locate(0), None);
    assert_eq!(r.locate(1), Some(1));
}

#[test]
fn a_backend_that_comes_back_is_another_one() {
    let mut r = BackendRegistry::from_config(&named(&[("a", 1)]));
    r.connect(0);
    r.apply_config(&named(&[]));
    assert!(r.backends.is_empty());
    r.apply_config(&named(&[("a", 1)]));
    assert_eq!(ids(&r), vec![(1, "a".to_string())]);
    assert_eq!(r.backends[0].active_connections, 0);
    assert_eq!(r.locate(0), None);
}

#[test]
fn backends_with_one_address_are_told_apart() {
    let mut r = BackendRegistry::from_config(&named(&[("a", 1), ("a", 1), ("b", 1)]));
    r.connect(1);
    r.apply_config(&named(&[("b", 1), ("a", 1), ("a", 1), ("a", 1)]));
    assert_eq!(
        ids(&r),
        vec![(2, "b".to_string()), (0, "a".to_string()), (1, "a".to_string()), (3, "a".to_string())]
    );
    assert_eq!(r.backends[1].active_connections, 0);
    assert_eq!(r.backends[2].active_connections, 1);
}

#[test]
fn the_same_config_changes_nothing() {
    let configs = named(&[("a", 1), ("b", 1)]);
    let mut r = BackendRegistry::from_config(&configs);
    for _ in 0..5 {
        r.record_failure(0);
    }
    r.connect(1);
    r.apply_config(&configs);
    assert_eq!(ids(&r), vec![(0, "a".to_string()), (1, "b".to_string())]);
    assert!(!r.backends[0].is_alive);
    assert_eq!(r.backends[0].consecutive_errors, 5);
    assert_eq!(r.backends[1].active_connections, 1);
    assert_eq!(r.next_id, 2);
}

#[test]
fn draws_fall_in_proportion_to_the_weights() {
    let mut r = BackendRegistry::from_config(&named(&[("a", 10), ("b", 1), ("c", 0), ("d", 4)]));
    let share = |r: &BackendRegistry, name: &str, total: u128| {
        (0..total).filter(|d| r.weighted_random(*d).unwrap().addr == name).count()
    };
    assert_eq!(["a", "b", "c", "d"].map(|n| share(&r, n, 15)), [10, 1, 0, 4]);
    assert_eq!(r.weighted_random(9).unwrap().addr, "a");
    assert_eq!(r.weighted_random(10).unwrap().addr, "b");
    assert_eq!(r.weighted_random(11).unwrap().addr, "d");
    assert_eq!(r.weighted_random(15 * 7 + 10).unwrap().addr, "b");
    r.record_probe(0, false);
    assert_eq!(["a", "b", "c", "d"].map(|n| share(&r, n, 5)), [0, 1, 0, 4]);
}

#[test]
fn draws_need_a_live_weight() {
    assert!(BackendRegistry::from_config(&named(&[])).weighted_random(3).is_none());
    assert!(BackendRegistry::from_config(&named(&[("a", 0)])).weighted_random(3).is_none());
    assert!(registry(vec![backend("a", false, 0)]).weighted_random(3).is_none());
    let r = BackendRegistry::from_config(&named(&[("a", usize::MAX), ("b", usize::MAX)]));
    assert_eq!(r.weighted_random(usize::MAX as u128 - 1).unwrap().addr, "a");
    assert_eq!(r.weighted_random(usize::MAX as u128).unwrap().addr, "b");
}

#[test]
fn capacity_is_reached_by_all_backends_together() {
    let r = registry(vec![backend("a", true, 3), backend("b", false, 4)]);
    assert!(r.at_capacity(6));
    assert!(r.at_capacity(7));
    assert!(!r.at_capacity(8));
    assert!(registry(vec![]).at_capacity(0));
    assert!(!registry(vec![]).at_capacity(1));
    assert!(registry(vec![backend("a", true, usize::MAX), backend("b", true, 1)]).at_capacity(usize::MAX));
}

#[test]
fn round_robin_takes_turns() {
    let mut r = registry(vec![backend("a", true, 0), backend("b", true, 0), backend("c", true, 0)]);
    let mut picked = Vec::new();
    for _ in 0..7 {
        picked.push(r.round_robin().unwrap().addr.clone());
    }
    assert_eq!(picked, vec!["a", "b", "c", "a", "b", "c", "a"]);
    assert_eq!(r.curr, 7);
}

#[test]
fn round_robin_skips_dead_backends() {
    let mut r = registry(vec![backend("a", false, 0), backend("b", true, 0), backend("c", false, 0)]);
    assert_eq!(r.round_robin().unwrap().addr, "b");
    assert_eq!(r.curr, 2);
    assert_eq!(r.round_robin().unwrap().addr, "b");
    assert_eq!(r.curr, 5);
}

#[test]
fn round_robin_gives_up_after_one_turn() {
    let mut r = registry(vec![backend("a", false, 0), backend("b", false, 0)]);
    assert!(r.round_robin().is_none());
    assert_eq!(r.curr, 2);
    let mut empty = registry(vec![]);
    assert!(empty.round_robin().is_none());
    assert_eq!(empty.curr, 0);
}

#[test]
fn round_robin_cursor_wraps() {
    let mut r = registry(vec![backend("a", true, 0), backend("b", true, 0)]);
    r.curr = usize::MAX;
    assert_eq!(r.round_robin().unwrap().addr, "b");
    assert_eq!(r.curr, 0);
}

#[test]
fn round_robin_can_miss_a_live_backend_when_the_cursor_wraps() {
    let mut r = registry(vec![backend("a", false, 0), backend("b", true, 0), backend("c", false, 0)]);
    r.curr = usize::MAX - 1;
    assert!(r.round_robin().is_none());
    assert_eq!(r.curr, 1);
    assert_eq!(r.round_robin().unwrap().addr, "b");
}

#[test]
fn least_connections_picks_the_first_minimum() {
    let r = registry(vec![
        backend("a", true, 3),
        backend("b", false, 0),
        backend("c", true, 1),
        backend("d", true, 1),
    ]);
    assert_eq!(r.least_connections().unwrap().addr, "c");
    assert_eq!(r.least_connections_at(), Some(2));
}

#[test]
fn least_connections_needs_a_live_backend() {
    assert!(registry(vec![backend("a", false, 0)]).least_connections().is_none());
    assert!(registry(vec![]).least_connections().is_none());
    assert_eq!(registry(vec![]).least_connections_at(), None);
}

#[test]
fn hash_picks_among_live_backends() {
    let r = registry(vec![
        backend("a", true, 0),
        backend("b", false, 0),
        backend("c", true, 0),
        backend("d", true, 0),
    ]);
    assert_eq!(r.pick_by_hash(0).unwrap().addr, "a");
    assert_eq!(r.pick_by_hash(1).unwrap().addr, "c");
    assert_eq!(r.pick_by_hash(2).unwrap().addr, "d");
    assert_eq!(r.pick_by_hash(3).unwrap().addr, "a");
    assert!(registry(vec![backend("a", false, 0)]).pick_by_hash(7).is_none());
}

#[test]
fn ip_hash_goes_by_the_default_hasher() {
    let names = ["a", "b", "c", "d", "e"];
    let r = registry(names.iter().map(|n| backend(n, true, 0)).collect());
    let mut seen = Vec::new();
    for host in 0..50 {
        let ip = format!("10.0.0.{}", host);
        let mut hasher = DefaultHasher::new();
        ip.as_str().hash(&mut hasher);
        let expected = names[(hasher.finish() as usize) % 5];
        assert_eq!(r.ip_hash(&ip).unwrap().addr, expected);
        seen.push(expected);
    }
    assert!(names.iter().all(|n| seen.contains(n)));
}

#[test]
fn ip_hash_is_sticky_under_load() {
    let mut r = registry(vec![backend("a", true, 0), backend("b", true, 0), backend("c", false, 0)]);
    let before = r.ip_hash("192.168.1.7").unwrap().addr.clone();
    r.connect(0);
    r.connect(1);
    r.record_failure(0);
    assert_eq!(r.ip_hash("192.168.1.7").unwrap().addr, before);
    assert!(registry(vec![]).ip_hash("192.168.1.7").is_none());
}

#[test]
fn least_connections_balances() {
    let mut r = registry(vec![backend("a", true, 0), backend("b", true, 0), backend("c", true, 0)]);
    for _ in 0..10 {
        let at = r.least_connections_at().unwrap();
        r.connect(at);
    }
    let loads: Vec<usize> = r.backends.iter().map(|b| b.active_connections).collect();
    assert_eq!(loads, vec![4, 3, 3]);
}

#[test]
fn connections_are_counted_up_and_down() {
    let mut r = registry(vec![backend("a", true, 4), backend("b", true, 9)]);
    r.connect(0);
    assert_eq!(r.backends[0].active_connections, 5);
    r.release(0);
    r.release(0);
    assert_eq!(r.backends[0].active_connections, 3);
    assert_eq!(r.backends[1].active_connections, 9);
}

#[test]
fn connection_counts_wrap() {
    let mut r = registry(vec![backend("a", true, usize::MAX)]);
    r.connect(0);
    assert_eq!(r.backends[0].active_connections, 0);
    r.release(0);
    assert_eq!(r.backends[0].active_connections, usize::MAX);
}

#[test]
fn breaker_trips_at_the_fifth_failure_in_a_row() {
    let mut r = registry(vec![backend("a", true, 0), backend("b", true, 0)]);
    for n in 1..5 {
        assert_eq!(r.record_failure(0), n);
        assert!(r.backends[0].is_alive);
    }
    assert_eq!(r.record_failure(0), 5);
    assert!(!r.backends[0].is_alive);
    assert!(r.backends[1].is_alive);
    assert_eq!(r.least_connections().unwrap().addr, "b");
}

#[test]
fn an_answer_resets_the_failures_but_revives_nothing() {
    let mut r = registry(vec![backend("a", true, 0)]);
    for _ in 0..4 {
        r.record_failure(0);
    }
    r.record_answer(0);
    assert_eq!(r.backends[0].consecutive_errors, 0);
    assert_eq!(r.record_failure(0), 1);
    assert!(r.backends[0].is_alive);
    r.record_probe(0, false);
    r.record_answer(0);
    assert!(!r.backends[0].is_alive);
}

#[test]
fn health_checks_decide() {
    let mut r = registry(vec![backend("a", false, 0), backend("b", true, 0)]);
    r.backends[0].consecutive_errors = 7;
    r.backends[1].consecutive_errors = 2;
    r.record_probe(0, true);
    r.record_probe(1, false);
    assert!(r.backends[0].is_alive);
    assert_eq!(r.backends[0].consecutive_errors, 0);
    assert!(!r.backends[1].is_alive);
    assert_eq!(r.backends[1].consecutive_errors, 2);
}

#[test]
fn a_dead_backend_waits_for_a_health_check() {
    let mut r = registry(vec![backend("a", true, 0), backend("b", true, 9)]);
    for _ in 0..5 {
        r.record_failure(0);
    }
    for _ in 0..4 {
        assert_eq!(r.least_connections().unwrap().addr, "b");
        assert_eq!(r.round_robin().unwrap().addr, "b");
        assert_eq!(r.ip_hash("10.1.1.1").unwrap().addr, "b");
    }
    r.record_probe(0, true);
    assert_eq!(r.least_connections().unwrap().addr, "a");
}

#[test]
fn what_is_learnt_of_one_backend_leaves_the_others_alone() {
    let mut r = registry(vec![backend("a", true, 1), backend("b", true, 2), backend("c", false, 3)]);
    r.connect(1);
    r.release(1);
    r.connect(1);
    r.record_failure(1);
    r.record_answer(1);
    r.record_probe(1, false);
    let seen: Vec<(String, bool, usize)> =
        r.backends.iter().map(|b| (b.addr.clone(), b.is_alive, b.active_connections)).collect();
    assert_eq!(
        seen,
        vec![("a".to_string(), true, 1), ("b".to_string(), false, 3), ("c".to_string(), false, 3)]
    );
    assert_eq!(r.curr, 0);
}
