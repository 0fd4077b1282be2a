use tachyon::config::{BackendConfig, Config};
use tachyon::metrics::{count_request, metrics_text, RequestCount};
use tachyon::registry::BackendRegistry;
use tachyon::reply::{Body, Reply};
use tachyon::state::LbState;
use tachyon::stats::{hits_key, stats_page, Hits};
use tachyon::upstream::{Dispatch, Forward};

fn config(addresses: &[&str]) -> Config {
    Config {
        backends: addresses
            .iter()
            .map(|address| BackendConfig { address: address.to_string(), weight: 1 })
            .collect(),
        ..Config::default()
    }
}

fn started(addresses: &[&str]) -> LbState {
    LbState::start("config.toml", Ok(config(addresses))).ok().unwrap()
}

fn addresses(state: &LbState) -> Vec<String> {
    state.registry.backends.iter().map(|b| b.addr.clone()).collect()
}

fn send(state: &mut LbState) -> Forward {
    let x = state.open("GET", "/x", None);
    match state.dispatch(&x) {
        Dispatch::Forward(f) => f,
        _ => panic!("the request was expected to go out"),
    }
}

fn counts(requests: &[RequestCount]) -> Vec<(String, u16, u64)> {
    requests.iter().map(|c| (c.backend.clone(), c.status, c.count)).collect()
}

fn text(reply: &Reply) -> String {
    match &reply.body {
        Body::Text(text) => text.clone(),
        Body::Bytes(_) => panic!("a text was expected"),
    }
}

#[test]
fn a_balancer_starts_with_the_configured_backends() {
    let state = started(&["h:1", "h:2"]);
    assert_eq!(addresses(&state), vec!["h:1", "h:2"]);
    assert_eq!(state.config.path(), "config.toml");
    assert!(state.requests.is_empty());
    assert_eq!(
        LbState::start("config.toml", Err("no such file".to_string())).err(),
        Some("no such file".to_string())
    );
    assert_eq!(
        LbState::start("config.toml", Ok(Config { timeout_ms: 0, ..config(&[]) })).err(),
        Some("Valid startup configuration: timeout_ms must be non-zero".to_string())
    );
}

#[test]
fn a_reload_moves_the_traffic() {
    let mut state = started(&["h:1", "h:2"]);
    let before = send(&mut state);
    assert_eq!(before.addr, "h:1");
    assert_eq!(state.reload_with_validation(Ok(config(&["h:3", "h:1"]))), Ok(()));
    assert_eq!(addresses(&state), vec!["h:3", "h:1"]);
    assert_eq!(state.config.get().backends[0].address, "h:3");
    for _ in 0..20 {
        assert!(["h:3", "h:1"].contains(&send(&mut state).addr.as_str()));
    }
    let x = state.open("GET", "/x", None);
    let load = state.registry.backends[1].active_connections;
    state.answered(&x, &before, 200, &None);
    assert_eq!(state.registry.backends[1].active_connections, load - 1);
}

#[test]
fn a_bad_reload_changes_nothing() {
    let mut state = started(&["h:1"]);
    let bad = Config { max_connections: 0, ..config(&["h:9"]) };
    assert_eq!(state.reload_with_validation(Ok(bad)), Err("max_connections must be non-zero".to_string()));
    assert_eq!(state.reload_with_validation(Err("unreadable".to_string())), Err("unreadable".to_string()));
    assert_eq!(addresses(&state), vec!["h:1"]);
    assert_eq!(state.config.get().backends[0].address, "h:1");
}

#[test]
fn a_reload_gives_new_requests_the_new_settings() {
    let mut state = started(&["h:1"]);
    let before = state.open("GET", "/x", None);
    let changed = Config { timeout_ms: 50, max_connections: 1, ..config(&["h:1"]) };
    assert_eq!(state.reload_with_validation(Ok(changed)), Ok(()));
    assert_eq!(before.timeout_ms, 8000);
    assert_eq!(send(&mut state).timeout_ms, 50);
    let x = state.open("GET", "/x", None);
    assert!(matches!(state.dispatch(&x), Dispatch::Refused(_)));
}

#[test]
fn a_request_under_way_survives_the_removal_of_its_backend() {
    let mut state = started(&["h:1", "h:2"]);
    let f = send(&mut state);
    assert_eq!(state.reload_with_validation(Ok(config(&["h:2"]))), Ok(()));
    assert_eq!(state.reload_with_validation(Ok(config(&["h:1", "h:2"]))), Ok(()));
    let x = state.open("GET", "/x", None);
    let failure = state.failed(&x, &f);
    assert_eq!(failure.errors, 0);
    for b in &state.registry.backends {
        assert_eq!(b.active_connections, 0);
        assert_eq!(b.consecutive_errors, 0);
    }
}

#[test]
fn every_outcome_is_counted_by_backend_and_status() {
    let mut state = started(&["h:1"]);
    let x = state.open("GET", "/x", None);
    for status in [200, 404, 200] {
        let f = send(&mut state);
        state.answered(&x, &f, status, &None);
    }
    let f = send(&mut state);
    assert_eq!(state.failed(&x, &f).reply.status, 502);
    let f = send(&mut state);
    assert_eq!(state.timed_out(&x, &f).reply.status, 504);
    let f = send(&mut state);
    state.abandoned(&x, &f);
    let h = "h:1".to_string();
    assert_eq!(
        counts(&state.requests),
        vec![(h.clone(), 200, 2), (h.clone(), 404, 1), (h.clone(), 502, 1), (h, 504, 1)]
    );
    assert_eq!(state.registry.backends[0].active_connections, 0);
    let page = text(&state.metrics(&x));
    assert!(page.contains("tachyon_requests_total{backend=\"h:1\",status=\"200\"} 2\n"));
    assert!(page.contains("tachyon_requests_total{backend=\"h:1\",status=\"504\"} 1\n"));
    assert!(page.ends_with("tachyon_active_connections{backend=\"h:1\"} 0\n"));
}

#[test]
fn a_health_check_finds_its_backend() {
    let mut state = started(&["h:1", "h:2"]);
    let id = state.registry.backends[1].id;
    state.record_probe(id, false);
    assert!(state.registry.backends[0].is_alive);
    assert!(!state.registry.backends[1].is_alive);
    assert_eq!(state.reload_with_validation(Ok(config(&["h:2", "h:1"]))), Ok(()));
    assert!(!state.registry.backends[0].is_alive);
    state.record_probe(id, true);
    assert!(state.registry.backends[0].is_alive);
    state.record_probe(99, false);
    assert!(state.registry.backends.iter().all(|b| b.is_alive));
}

#[test]
fn totals_stop_at_the_end_of_the_counter() {
    let mut requests = vec![RequestCount { backend: "h:1".to_string(), status: 200, count: u64::MAX - 1 }];
    count_request(&mut requests, "h:1", 200);
    count_request(&mut requests, "h:1", 200);
    count_request(&mut requests, "h:2", 200);
    assert_eq!(
        counts(&requests),
        vec![("h:1".to_string(), 200, u64::MAX), ("h:2".to_string(), 200, 1)]
    );
}

#[test]
fn labels_are_escaped() {
    let r = BackendRegistry::from_config(&config(&["a\\b\"c\nd\u{e9}"]).backends);
    let page = metrics_text(&r, &vec![]);
    assert!(page.ends_with("tachyon_active_connections{backend=\"a\\\\b\\\"c\\nd\u{e9}\"} 0\n"));
}

#[test]
fn successes_show_as_hits() {
    let mut state = started(&["h:1", "h:2"]);
    let x = state.open("GET", "/x", None);
    let mut store: Vec<Hits> = Vec::new();
    for status in [200, 201, 500, 204, 302] {
        let f = send(&mut state);
        assert_eq!(f.addr, "h:1");
        if let Some(key) = state.answered(&x, &f, status, &None).count_hit {
            match store.iter_mut().find(|hits| hits.key == key) {
                Some(hits) => hits.count = hits.count.map(|n| n + 1),
                None => store.push(Hits { key, count: Some(1) }),
            }
        }
    }
    let f = send(&mut state);
    state.failed(&x, &f);
    assert_eq!(store.len(), 1);
    assert_eq!(store[0].key, hits_key("h:1"));
    let page = stats_page(&store);
    assert_eq!(page.matches("<li>").count(), 1);
    assert!(page.contains("<li><b>h:1</b>: 3 hits</li>"));
}

#[test]
fn hits_are_shown_beside_an_address_that_holds_the_prefix() {
    let page = stats_page(&vec![
        Hits { key: hits_key("lb:hits:x"), count: Some(5) },
        Hits { key: hits_key("h:1"), count: Some(2) },
    ]);
    assert!(page.contains("<li><b>x</b>: 5 hits</li>"));
    assert_eq!(page.matches("<li><b>h:1</b>: 2 hits</li>").count(), 1);
    assert!(!page.contains("<b>lb:hits:x</b>"));
}
