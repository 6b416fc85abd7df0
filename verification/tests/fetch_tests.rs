use rdapx::cache::CacheStore;
use rdapx::fetch::{
    attempt_decision, document_is_valid, fetch_for_query, Attempt, AttemptDecision, FetchConfig,
    FetchError,
};

fn cfg(use_cache: bool, retries: usize) -> FetchConfig {
    FetchConfig { use_cache, ttl: 600, retries, retry_delay_ms: 300 }
}

fn net(msg: &str) -> Attempt {
    Attempt::NetError(msg.to_string())
}

fn ok_json(body: &[u8]) -> Attempt {
    Attempt::Success(body.to_vec())
}

const URL: &str = "https://rdap.apnic.net/ip/1.1.1.1";

#[test]
fn transport_failures_consume_all_attempts() {
    let mut store = CacheStore::new();
    let attempts = vec![net("refused"), net("timeout"), net("reset"), ok_json(b"{}")];
    let (res, calls) = fetch_for_query(&mut store, URL, 1000, &cfg(true, 2), &attempts);
    // retries = 2 means 3 attempts in total; the fourth is never reached
    assert_eq!(calls, 3);
    match res {
        Err(FetchError::Transport(m)) => assert_eq!(m, "reset"),
        _ => panic!("expected a transport error"),
    }
    // nothing was cached
    assert_eq!(store.len(), 0);
}

#[test]
fn status_error_is_terminal_not_retried() {
    let mut store = CacheStore::new();
    let attempts = vec![
        Attempt::HttpError(404, "not found".to_string()),
        ok_json(b"{}"),
        ok_json(b"{}"),
    ];
    let (res, calls) = fetch_for_query(&mut store, URL, 1000, &cfg(true, 2), &attempts);
    assert_eq!(calls, 1);
    match res {
        Err(FetchError::Status(code, body)) => {
            assert_eq!(code, 404);
            assert_eq!(body, "not found");
        },
        _ => panic!("expected a status error"),
    }
    assert_eq!(store.len(), 0);
}

#[test]
fn transport_then_success_recovers() {
    let mut store = CacheStore::new();
    let attempts = vec![net("timeout"), ok_json(b"{\"ok\":true}"), net("unused")];
    let (res, calls) = fetch_for_query(&mut store, URL, 1000, &cfg(true, 2), &attempts);
    assert_eq!(calls, 2);
    assert_eq!(res.unwrap(), b"{\"ok\":true}".to_vec());
    assert_eq!(store.len(), 1);
}

#[test]
fn second_resolution_within_ttl_is_served_from_cache() {
    let mut store = CacheStore::new();
    let first = vec![ok_json(b"{\"handle\":\"X\"}")];
    let (res1, calls1) = fetch_for_query(&mut store, URL, 1000, &cfg(true, 0), &first);
    assert_eq!(calls1, 1);
    let body1 = res1.unwrap();

    // the second script would answer differently, but must not be consulted
    let second = vec![ok_json(b"{\"handle\":\"Y\"}")];
    let (res2, calls2) = fetch_for_query(&mut store, URL, 1600, &cfg(true, 0), &second);
    assert_eq!(calls2, 0);
    assert_eq!(res2.unwrap(), body1);
}

#[test]
fn expired_entry_is_bypassed_and_refetched() {
    let mut store = CacheStore::new();
    let first = vec![ok_json(b"{\"v\":1}")];
    let (_res1, _c1) = fetch_for_query(&mut store, URL, 1000, &cfg(true, 0), &first);

    // one second past the TTL: the stale entry still exists but is bypassed
    let second = vec![ok_json(b"{\"v\":2}")];
    let (res2, calls2) = fetch_for_query(&mut store, URL, 1601, &cfg(true, 0), &second);
    assert_eq!(calls2, 1);
    assert_eq!(res2.unwrap(), b"{\"v\":2}".to_vec());
}

#[test]
fn caching_disabled_never_reads_or_writes() {
    let mut store = CacheStore::new();
    let first = vec![ok_json(b"{}")];
    let (_r, c1) = fetch_for_query(&mut store, URL, 1000, &cfg(false, 0), &first);
    assert_eq!(c1, 1);
    assert_eq!(store.len(), 0);
    let second = vec![ok_json(b"{}")];
    let (_r, c2) = fetch_for_query(&mut store, URL, 1001, &cfg(false, 0), &second);
    assert_eq!(c2, 1);
}

#[test]
fn success_with_invalid_json_is_a_document_error() {
    let mut store = CacheStore::new();
    let attempts = vec![ok_json(b"not json at all")];
    let (res, calls) = fetch_for_query(&mut store, URL, 1000, &cfg(true, 0), &attempts);
    assert_eq!(calls, 1);
    assert!(matches!(res, Err(FetchError::Document)));
    assert_eq!(store.len(), 0);
}

#[test]
fn valid_json_shapes_are_accepted() {
    let mut store = CacheStore::new();
    // an array is a JSON document too
    let attempts = vec![ok_json(b"[1, 2, 3]")];
    let (res, _calls) = fetch_for_query(&mut store, URL, 1000, &cfg(false, 0), &attempts);
    assert!(res.is_ok());
}

#[test]
fn decision_retries_transport_while_attempts_remain() {
    let c = cfg(true, 2);
    match attempt_decision(net("refused"), 0, &c) {
        AttemptDecision::RetryAfter(delay) => assert_eq!(delay, 300),
        _ => panic!("expected a retry"),
    }
    match attempt_decision(net("refused"), 2, &c) {
        AttemptDecision::Finish(Err(FetchError::Transport(m))) => assert_eq!(m, "refused"),
        _ => panic!("expected a terminal transport error"),
    }
}

#[test]
fn decision_finishes_on_status() {
    let c = cfg(true, 2);
    match attempt_decision(Attempt::HttpError(500, "boom".to_string()), 0, &c) {
        AttemptDecision::Finish(Err(FetchError::Status(code, body))) => {
            assert_eq!(code, 500);
            assert_eq!(body, "boom");
        },
        _ => panic!("expected a terminal status error"),
    }
}

#[test]
fn corrupt_cache_entry_is_bypassed_and_refetched() {
    let mut store = CacheStore::new();
    // a fresh entry whose bytes do not parse counts as a miss
    store.store(URL, b"not json", 1000);
    let attempts = vec![ok_json(b"{\"v\":1}")];
    let (res, calls) = fetch_for_query(&mut store, URL, 1100, &cfg(true, 0), &attempts);
    assert_eq!(calls, 1);
    assert_eq!(res.unwrap(), b"{\"v\":1}".to_vec());
    // the fresh network success replaced the corrupt entry
    let got = store.lookup(URL, 1100, 600).unwrap();
    assert_eq!(got, b"{\"v\":1}".to_vec());
}

#[test]
fn document_validity_matches_the_pipeline() {
    assert!(document_is_valid(b"{}"));
    assert!(document_is_valid(b"[1, 2]"));
    assert!(!document_is_valid(b"nope"));
}
