use rdapx::bulk::{clamp_concurrency, filter_queries, run_bulk, BulkError, FetchOutcome};
use rdapx::cache::CacheStore;
use rdapx::fetch::{Attempt, FetchConfig};

fn cfg() -> FetchConfig {
    FetchConfig { use_cache: true, ttl: 600, retries: 0, retry_delay_ms: 0 }
}

fn ok_script() -> Vec<Attempt> {
    vec![Attempt::Success(b"{\"ok\":true}".to_vec())]
}

#[test]
fn filtering_trims_and_drops_blank_and_comment_lines() {
    let lines = vec![
        "  example.com  ".to_string(),
        "".to_string(),
        "# a comment".to_string(),
        "1.1.1.1".to_string(),
        "   ".to_string(),
    ];
    let kept = filter_queries(&lines);
    assert_eq!(kept, vec!["example.com".to_string(), "1.1.1.1".to_string()]);
}

#[test]
fn filtering_keeps_order() {
    let lines = vec!["b.com".to_string(), "a.com".to_string()];
    assert_eq!(filter_queries(&lines), vec!["b.com".to_string(), "a.com".to_string()]);
}

#[test]
fn bulk_isolates_the_failing_query() {
    // five queries; the third fails classification; the rest succeed
    let queries = vec![
        "example.com".to_string(),
        "1.1.1.1".to_string(),
        "???".to_string(),
        "AS13335".to_string(),
        "13335".to_string(),
    ];
    let scripts = vec![ok_script(), ok_script(), ok_script(), ok_script(), ok_script()];
    let mut store = CacheStore::new();
    let outcomes = run_bulk(&mut store, &queries, 1000, &cfg(), &scripts);
    assert_eq!(outcomes.len(), 5);
    let mut successes = 0;
    let mut failures = 0;
    for (i, o) in outcomes.iter().enumerate() {
        match o {
            FetchOutcome::Success(_) => successes += 1,
            FetchOutcome::Failure(q, BulkError::Classification) => {
                failures += 1;
                assert_eq!(i, 2);
                assert_eq!(q, "???");
            },
            FetchOutcome::Failure(_, _) => panic!("unexpected fetch failure"),
        }
    }
    assert_eq!(successes, 4);
    assert_eq!(failures, 1);
}

#[test]
fn bulk_failure_does_not_stop_later_queries() {
    let queries = vec!["???".to_string(), "example.com".to_string()];
    let scripts = vec![ok_script(), ok_script()];
    let mut store = CacheStore::new();
    let outcomes = run_bulk(&mut store, &queries, 1000, &cfg(), &scripts);
    assert_eq!(outcomes.len(), 2);
    assert!(matches!(outcomes[0], FetchOutcome::Failure(_, BulkError::Classification)));
    assert!(matches!(outcomes[1], FetchOutcome::Success(_)));
}

#[test]
fn bulk_fetch_errors_carry_the_query_text() {
    let queries = vec!["example.com".to_string()];
    let scripts = vec![vec![Attempt::NetError("timeout".to_string())]];
    let mut store = CacheStore::new();
    let outcomes = run_bulk(&mut store, &queries, 1000, &cfg(), &scripts);
    match &outcomes[0] {
        FetchOutcome::Failure(q, BulkError::Fetch(_)) => assert_eq!(q, "example.com"),
        _ => panic!("expected a fetch failure"),
    }
}

#[test]
fn bulk_shares_the_cache_across_queries() {
    // both queries resolve to the same endpoint; the second script
    // would fail, but the entry written by the first serves it
    let queries = vec!["1.1.1.1".to_string(), "1.1.1.1".to_string()];
    let scripts = vec![ok_script(), vec![Attempt::NetError("down".to_string())]];
    let mut store = CacheStore::new();
    let outcomes = run_bulk(&mut store, &queries, 1000, &cfg(), &scripts);
    assert!(matches!(outcomes[0], FetchOutcome::Success(_)));
    assert!(matches!(outcomes[1], FetchOutcome::Success(_)));
}

#[test]
fn concurrency_is_clamped_to_at_least_one() {
    assert_eq!(clamp_concurrency(0), 1);
    assert_eq!(clamp_concurrency(1), 1);
    assert_eq!(clamp_concurrency(8), 8);
}
