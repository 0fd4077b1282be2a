use tachyon::config::{Config, FeatureFlags};
use tachyon::exchange::{Exchange, Step};
use tachyon::metrics::count_request;
use tachyon::rate::RATE_LIMIT_SCRIPT;
use tachyon::registry::{Backend, BackendRegistry};
use tachyon::reply::{Body, Reply};
use tachyon::stats::Hits;
use tachyon::upstream::{Dispatch, Forward, ForwardError};

fn config(caching: bool, limiting: bool) -> Config {
    Config {
        feature_flags: FeatureFlags {
            enable_caching: caching,
            enable_rate_limiting: limiting,
            rate_limit_per_second: 3,
        },
        ..Config::default()
    }
}

fn exchange(caching: bool, limiting: bool, method: &str, path: &str) -> Exchange {
    Exchange::open(&config(caching, limiting), method, path, Some("10.0.0.1".to_string()))
}

fn registry(backends: &[(&str, bool, usize)]) -> BackendRegistry {
    BackendRegistry {
        backends: backends
            .iter()
            .enumerate()
            .map(|(at, (addr, is_alive, active_connections))| Backend {
                id: at as u64,
                addr: addr.to_string(),
                is_alive: *is_alive,
                active_connections: *active_connections,
                consecutive_errors: 0,
                weight: 1,
            })
            .collect(),
        curr: 0,
        next_id: backends.len() as u64,
    }
}

fn text(reply: &Reply) -> String {
    match &reply.body {
        Body::Text(text) => text.clone(),
        Body::Bytes(_) => panic!("a text was expected"),
    }
}

fn forward(d: Dispatch) -> Forward {
    match d {
        Dispatch::Forward(f) => f,
        _ => panic!("the request was expected to go out"),
    }
}

#[test]
fn open_reads_request_and_config() {
    let x = exchange(true, true, "GET", "/index.html");
    assert!(x.caching);
    assert_eq!(x.rate_limit, Some(3));
    assert!(x.is_get);
    assert_eq!(x.client_ip, "10.0.0.1");
    assert_eq!(x.path, "/index.html");
    assert_eq!(x.timeout_ms, 8000);
    assert_eq!(x.max_connections, 1000);
    let y = Exchange::open(&config(false, false), "get", "/", None);
    assert!(!y.caching);
    assert_eq!(y.rate_limit, None);
    assert!(!y.is_get);
    assert_eq!(y.client_ip, "unknown");
}

#[test]
fn a_limited_client_is_counted_first() {
    match exchange(true, true, "GET", "/stats").begin() {
        Step::Count { key, max_requests, window_secs } => {
            assert_eq!(key, "rate_limit:10.0.0.1");
            assert_eq!(max_requests, 3);
            assert_eq!(window_secs, 1);
        }
        _ => panic!("the request was expected to be counted"),
    }
    assert!(RATE_LIMIT_SCRIPT.contains("redis.call('ZREMRANGEBYSCORE', key, '-inf', expired)"));
    assert!(RATE_LIMIT_SCRIPT.contains("local count = redis.call('ZCARD', key)"));
    assert!(RATE_LIMIT_SCRIPT.contains("return { count, pttl }"));
}

#[test]
fn a_client_over_its_limit_is_refused() {
    let x = exchange(true, true, "GET", "/");
    match x.counted(Some(vec![4, 500])) {
        Step::Respond(reply) => {
            assert_eq!(reply.status, 429);
            assert_eq!(text(&reply), "429 Too Many Requests\n");
            assert!(reply.content_type.is_none());
        }
        _ => panic!("the request was expected to be refused"),
    }
    assert!(matches!(x.counted(Some(vec![3, 500])), Step::LookUp { .. }));
}

#[test]
fn no_second_lets_more_than_the_limit_through() {
    let x = exchange(false, true, "GET", "/");
    let times: Vec<i64> = (0..40).map(|n| n * n * 7 % 90 + n * 90).collect();
    let passed: Vec<i64> = times
        .iter()
        .enumerate()
        .filter(|(k, now)| {
            let count = times[..=*k].iter().filter(|t| **now - 1000 < **t).count() as i64;
            matches!(x.counted(Some(vec![count, 1000])), Step::Dispatch)
        })
        .map(|(_, now)| *now)
        .collect();
    assert!(passed.len() >= 3);
    for from in -1000..4600 {
        assert!(passed.iter().filter(|t| from < **t && **t <= from + 1000).count() <= 3);
    }
    let spread: Vec<i64> = (0..20).map(|n| n * 334).collect();
    for (k, now) in spread.iter().enumerate() {
        let count = spread[..=k].iter().filter(|t| *now - 1000 < **t).count() as i64;
        assert!(matches!(x.counted(Some(vec![count, 1000])), Step::Dispatch));
    }
}

#[test]
fn a_request_that_cannot_be_counted_passes() {
    assert!(matches!(exchange(false, true, "GET", "/").counted(None), Step::Dispatch));
    assert!(matches!(exchange(false, true, "GET", "/stats").counted(None), Step::CollectStats));
}

#[test]
fn only_get_uses_the_cache() {
    match exchange(true, false, "GET", "/a").begin() {
        Step::LookUp { key } => assert_eq!(key, "/a"),
        _ => panic!("the cache was expected to be looked up"),
    }
    assert!(matches!(exchange(true, false, "POST", "/a").begin(), Step::Dispatch));
    assert!(matches!(exchange(false, false, "GET", "/a").begin(), Step::Dispatch));
}

#[test]
fn a_cached_body_is_the_answer() {
    let x = exchange(true, false, "GET", "/a");
    match x.looked_up(Some(vec![1, 2, 3])) {
        Step::Respond(reply) => {
            assert_eq!(reply.status, 200);
            assert!(reply.content_type.is_none());
            assert!(matches!(reply.body, Body::Bytes(bytes) if bytes == vec![1, 2, 3]));
        }
        _ => panic!("the cached body was expected"),
    }
    assert!(matches!(x.looked_up(None), Step::Dispatch));
}

#[test]
fn the_statistics_are_not_forwarded() {
    assert!(matches!(exchange(false, false, "POST", "/stats").begin(), Step::CollectStats));
    assert!(matches!(exchange(true, false, "GET", "/stats").looked_up(None), Step::CollectStats));
    assert!(matches!(exchange(false, false, "GET", "/stats/").begin(), Step::Dispatch));
    let hits = vec![Hits { key: "lb:hits:a:1".to_string(), count: Some(7) }];
    let reply = exchange(false, false, "GET", "/stats").stats_collected(&hits);
    assert_eq!(reply.status, 200);
    assert_eq!(reply.content_type, Some("text/html".to_string()));
    assert!(text(&reply).contains("<li><b>a:1</b>: 7 hits</li>"));
}

#[test]
fn dispatch_goes_to_the_least_loaded_backend() {
    let mut r = registry(&[("h:1", true, 5), ("h:2", true, 2), ("h:3", false, 0)]);
    let f = forward(exchange(false, false, "GET", "/x").dispatch(&mut r));
    assert_eq!(f.id, 1);
    assert_eq!(f.addr, "h:2");
    assert_eq!(f.timeout_ms, 8000);
    assert_eq!(f.uri, "http://h:2/x");
    assert_eq!(f.forwarded_for, "10.0.0.1");
    assert_eq!(r.backends[1].active_connections, 3);
    assert_eq!(r.backends[0].active_connections, 5);
}

#[test]
fn dispatch_without_live_backends_is_refused() {
    let mut r = registry(&[("h:1", false, 5)]);
    match exchange(false, false, "GET", "/x").dispatch(&mut r) {
        Dispatch::Refused(reply) => {
            assert_eq!(reply.status, 503);
            assert_eq!(text(&reply), "No healthy backends avaiable\n");
        }
        _ => panic!("the request was expected to be refused"),
    }
    assert_eq!(r.backends[0].active_connections, 5);
}

#[test]
fn a_request_without_a_uri_is_dropped_and_not_counted() {
    let long = format!("/{}", "a".repeat(65530));
    for (addr, path) in [("h:1", long.as_str()), ("not a host", "/x")] {
        let mut r = registry(&[(addr, true, 0)]);
        match exchange(false, false, "GET", path).dispatch(&mut r) {
            Dispatch::Aborted(e) => assert_eq!(e, ForwardError::InvalidUri),
            _ => panic!("the request was expected to be dropped"),
        }
        assert_eq!(r.backends[0].active_connections, 0);
    }
}

#[test]
fn a_client_name_must_make_a_header() {
    let open = |client: &str| Exchange::open(&config(false, false), "GET", "/", Some(client.to_string()));
    for client in ["10.0.0.1\n", "a\u{7f}", "\0"] {
        let mut r = registry(&[("h:1", true, 0)]);
        match open(client).dispatch(&mut r) {
            Dispatch::Aborted(e) => assert_eq!(e, ForwardError::InvalidClient),
            _ => panic!("the request was expected to be dropped"),
        }
        assert_eq!(r.backends[0].active_connections, 0);
    }
    for client in ["::1", "unknown", "a\tb", "\u{e9}"] {
        let mut r = registry(&[("h:1", true, 0)]);
        assert_eq!(forward(open(client).dispatch(&mut r)).forwarded_for, client);
    }
}

#[test]
fn prepare_goes_by_what_was_found_out() {
    let x = exchange(false, false, "GET", "/x");
    let route = |r: &BackendRegistry| x.route(r).ok().unwrap().1;
    let r = registry(&[("h:1", true, 0)]);
    assert_eq!(x.prepare(route(&r), false, true).err(), Some(ForwardError::InvalidUri));
    assert_eq!(x.prepare(route(&r), false, false).err(), Some(ForwardError::InvalidUri));
    assert_eq!(x.prepare(route(&r), true, false).err(), Some(ForwardError::InvalidClient));
    assert_eq!(x.prepare(route(&r), true, true).ok().unwrap().uri, "http://h:1/x");
    assert_eq!(x.prepare(route(&r), true, true).ok().unwrap().id, 0);
    assert_eq!(x.prepare(route(&r), true, true).ok().unwrap().timeout_ms, 8000);
}

#[test]
fn no_more_connections_than_the_maximum() {
    let config = Config { max_connections: 3, timeout_ms: 250, ..config(false, false) };
    let x = Exchange::open(&config, "GET", "/x", None);
    let mut r = registry(&[("h:1", true, 0), ("h:2", true, 0)]);
    let sent: Vec<Forward> = (0..3).map(|_| forward(x.dispatch(&mut r))).collect();
    assert!(sent.iter().all(|f| f.timeout_ms == 250));
    match x.dispatch(&mut r) {
        Dispatch::Refused(reply) => {
            assert_eq!(reply.status, 503);
            assert_eq!(text(&reply), "Too many active connections\n");
        }
        _ => panic!("the request was expected to be refused"),
    }
    assert_eq!(r.backends[0].active_connections + r.backends[1].active_connections, 3);
    x.answered(&mut r, &sent[1], 200, &None);
    assert_eq!(forward(x.dispatch(&mut r)).id, sent[1].id);
}

#[test]
fn a_request_that_takes_too_long_is_a_failure() {
    let x = exchange(false, false, "GET", "/x");
    let mut r = registry(&[("h:1", true, 2)]);
    r.backends[0].consecutive_errors = 3;
    for n in 4..=5 {
        let f = forward(x.dispatch(&mut r));
        let failure = x.timed_out(&mut r, &f);
        assert_eq!(failure.errors, n);
        assert_eq!(failure.tripped, n == 5);
        assert_eq!(failure.reply.status, 504);
        assert_eq!(text(&failure.reply), "504 Gateway Timeout: Backend h:1 took too long\n");
        assert_eq!(r.backends[0].active_connections, 2);
    }
    assert!(!r.backends[0].is_alive);
}

#[test]
fn a_client_that_leaves_changes_nothing() {
    let x = exchange(false, false, "GET", "/x");
    let mut r = registry(&[("h:1", true, 2), ("h:2", true, 1)]);
    r.backends[1].consecutive_errors = 4;
    let f = forward(x.dispatch(&mut r));
    assert_eq!(r.backends[1].active_connections, 2);
    x.abandoned(&mut r, &f);
    assert_eq!(r.backends[0].active_connections, 2);
    assert_eq!(r.backends[1].active_connections, 1);
    assert_eq!(r.backends[1].consecutive_errors, 4);
    assert!(r.backends[1].is_alive);
}

#[test]
fn a_gone_backend_leaves_no_trace() {
    let x = exchange(true, false, "GET", "/x");
    let mut r = registry(&[("h:1", true, 0), ("h:2", true, 5)]);
    let f = forward(x.dispatch(&mut r));
    r.backends.remove(0);
    let failure = x.failed(&mut r, &f);
    assert_eq!(failure.errors, 0);
    assert!(!failure.tripped);
    assert_eq!(text(&failure.reply), "502 Bad Gateway: Backend h:1 dropped the Connection\n");
    assert_eq!(x.answered(&mut r, &f, 200, &None).count_hit, Some("lb:hits:h:1".to_string()));
    x.abandoned(&mut r, &f);
    assert_eq!(r.backends[0].active_connections, 5);
    assert_eq!(r.backends[0].consecutive_errors, 0);
}

#[test]
fn the_metrics_are_not_forwarded() {
    assert!(matches!(exchange(false, false, "GET", "/metrics").begin(), Step::CollectMetrics));
    assert!(matches!(exchange(false, false, "POST", "/metrics").begin(), Step::CollectMetrics));
    assert!(matches!(exchange(true, false, "GET", "/metrics").looked_up(None), Step::CollectMetrics));
    assert!(matches!(exchange(false, true, "GET", "/metrics").counted(None), Step::CollectMetrics));
    assert!(matches!(exchange(false, false, "GET", "/metrics/").begin(), Step::Dispatch));
    let r = registry(&[("h:1", true, 2), ("h:2", false, 0)]);
    let mut requests = Vec::new();
    count_request(&mut requests, "h:1", 200);
    count_request(&mut requests, "h:1", 200);
    count_request(&mut requests, "h:1", 502);
    let reply = exchange(false, false, "GET", "/metrics").metrics_collected(&r, &requests);
    assert_eq!(reply.status, 200);
    assert_eq!(reply.content_type, Some("text/plain; version=0.0.4".to_string()));
    assert_eq!(
        text(&reply),
        "# HELP tachyon_requests_total Total requests routed, labeled by backend and status\n\
         # TYPE tachyon_requests_total counter\n\
         tachyon_requests_total{backend=\"h:1\",status=\"200\"} 2\n\
         tachyon_requests_total{backend=\"h:1\",status=\"502\"} 1\n\
         # HELP tachyon_active_connections Currently active connections per backend\n\
         # TYPE tachyon_active_connections gauge\n\
         tachyon_active_connections{backend=\"h:1\"} 2\n\
         tachyon_active_connections{backend=\"h:2\"} 0\n"
    );
}

#[test]
fn a_failed_request_is_answered_and_noted() {
    let x = exchange(true, false, "GET", "/x");
    let mut r = registry(&[("h:1", true, 0)]);
    for n in 1..=5 {
        let f = forward(x.dispatch(&mut r));
        let failure = x.failed(&mut r, &f);
        assert_eq!(failure.errors, n);
        assert_eq!(failure.tripped, n == 5);
        assert_eq!(failure.reply.status, 502);
        assert_eq!(text(&failure.reply), "502 Bad Gateway: Backend h:1 dropped the Connection\n");
        assert_eq!(r.backends[0].active_connections, 0);
    }
    assert!(!r.backends[0].is_alive);
    assert!(matches!(x.dispatch(&mut r), Dispatch::Refused(_)));
}

#[test]
fn a_success_is_counted_and_cached() {
    let x = exchange(true, false, "GET", "/x");
    let mut r = registry(&[("h:1", true, 0)]);
    r.backends[0].consecutive_errors = 3;
    let f = forward(x.dispatch(&mut r));
    let d = x.answered(&mut r, &f, 200, &Some(b"5242880".to_vec()));
    assert_eq!(d.count_hit, Some("lb:hits:h:1".to_string()));
    assert_eq!(d.store, Some(("/x".to_string(), 5242880)));
    assert_eq!(r.backends[0].active_connections, 0);
    assert_eq!(r.backends[0].consecutive_errors, 0);
    match exchange(true, false, "GET", "/x").begin() {
        Step::LookUp { key } => assert_eq!(Some(key), d.store.map(|(key, _)| key)),
        _ => panic!("the cache was expected to be looked up"),
    }
}

#[test]
fn not_every_response_is_cached() {
    let store = |x: &Exchange, status: u16, length: Option<&str>| {
        let mut r = registry(&[("h:1", true, 0)]);
        let f = forward(x.dispatch(&mut r));
        let header = length.map(|l| l.as_bytes().to_vec());
        x.answered(&mut r, &f, status, &header).store.is_some()
    };
    let get = exchange(true, false, "GET", "/x");
    assert!(store(&get, 200, Some("10")));
    assert!(store(&get, 299, Some("+0")));
    assert!(!store(&get, 200, Some("5242881")));
    assert!(!store(&get, 200, None));
    assert!(!store(&get, 200, Some("ten")));
    assert!(!store(&get, 200, Some("")));
    assert!(!store(&get, 300, Some("10")));
    assert!(!store(&get, 199, Some("10")));
    assert!(!store(&exchange(true, false, "HEAD", "/x"), 200, Some("10")));
    assert!(!store(&exchange(false, false, "GET", "/x"), 200, Some("10")));
}

#[test]
fn a_response_too_long_for_the_cache_is_told_apart() {
    let too_long = |x: &Exchange, status: u16, length: Option<&str>| {
        let mut r = registry(&[("h:1", true, 0)]);
        let f = forward(x.dispatch(&mut r));
        let header = length.map(|l| l.as_bytes().to_vec());
        x.answered(&mut r, &f, status, &header).too_long
    };
    let get = exchange(true, false, "GET", "/x");
    assert!(too_long(&get, 200, Some("5242881")));
    assert!(too_long(&get, 200, None));
    assert!(!too_long(&get, 200, Some("5242880")));
    assert!(!too_long(&get, 404, Some("5242881")));
    assert!(!too_long(&exchange(true, false, "POST", "/x"), 200, None));
    assert!(!too_long(&exchange(false, false, "GET", "/x"), 200, None));
}

#[test]
fn a_plain_answer_has_a_status_of_three_digits() {
    for status in [100, 200, 999] {
        let reply = Reply::plain(status, "ok\n".to_string());
        assert_eq!(reply.status, status);
        assert_eq!(reply.content_type, None);
        assert_eq!(text(&reply), "ok\n");
    }
}

#[test]
fn an_error_status_is_an_answer_but_no_hit() {
    let x = exchange(false, false, "GET", "/x");
    let mut r = registry(&[("h:1", true, 0)]);
    r.backends[0].consecutive_errors = 4;
    let f = forward(x.dispatch(&mut r));
    let d = x.answered(&mut r, &f, 500, &None);
    assert_eq!(d.count_hit, None);
    assert_eq!(d.store, None);
    assert_eq!(r.backends[0].consecutive_errors, 0);
    assert!(r.backends[0].is_alive);
}
