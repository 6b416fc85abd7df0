//! The resolution pipeline for one query: cache consult, a bounded
//! retry walk over network attempts, and cache write-back. The rule the
//! pipeline preserves exactly: a non-success HTTP status is terminal
//! and never retried, a transport-level failure is retried up to the
//! configured count with a fixed delay between attempts.
//!
//! The pipeline is stated over the outcomes the transport hands back,
//! so every property holds whatever the network does; the runner that
//! performs the actual I/O feeds outcomes in one at a time via
//! [`attempt_decision`].

use vstd::prelude::*;
use crate::cache::{CacheLine, CacheStore, fresh_at};

verus! {

/// What one network attempt yielded: a success body, a non-success
/// HTTP status with its body text, or a transport-level failure.
#[derive(Debug)]
pub enum Attempt {
    Success(Vec<u8>),
    HttpError(u16, String),
    NetError(String),
}

/// Spec-level form of an attempt outcome.
pub enum SpecAttempt {
    Success(Seq<u8>),
    HttpError(u16, Seq<char>),
    NetError(Seq<char>),
}

impl View for Attempt {
    type V = SpecAttempt;

    open spec fn view(&self) -> SpecAttempt {
        match self {
            Attempt::Success(b) => SpecAttempt::Success(b@),
            Attempt::HttpError(c, m) => SpecAttempt::HttpError(*c, m@),
            Attempt::NetError(m) => SpecAttempt::NetError(m@),
        }
    }
}

/// A terminal fetch failure.
#[derive(Debug)]
pub enum FetchError {
    /// The remote rejected or could not find the resource; retrying
    /// cannot help. Carries the status code and response body.
    Status(u16, String),
    /// Every allowed attempt failed at the transport level; carries
    /// the last transport error's text.
    Transport(String),
    /// The remote answered success but the body is not a JSON document.
    Document,
}

/// Spec-level form of a terminal fetch failure.
pub enum SpecFetchError {
    Status(u16, Seq<char>),
    Transport(Seq<char>),
    Document,
}

impl View for FetchError {
    type V = SpecFetchError;

    open spec fn view(&self) -> SpecFetchError {
        match self {
            FetchError::Status(c, m) => SpecFetchError::Status(*c, m@),
            FetchError::Transport(m) => SpecFetchError::Transport(m@),
            FetchError::Document => SpecFetchError::Document,
        }
    }
}

pub open spec fn result_view(r: Result<Vec<u8>, FetchError>) -> Result<Seq<u8>, SpecFetchError> {
    match r {
        Ok(b) => Ok(b@),
        Err(e) => Err(e@),
    }
}

/// Fetch policy for one query.
#[derive(Clone, Copy, Debug)]
pub struct FetchConfig {
    /// Whether the cache is consulted and written at all this run.
    pub use_cache: bool,
    /// Maximum age, in seconds, for a cache entry to serve a request.
    pub ttl: u64,
    /// How many additional attempts follow a transport failure.
    pub retries: usize,
    /// The fixed delay, in milliseconds, between attempts.
    pub retry_delay_ms: u64,
}

/// Whether these bytes parse as a JSON document; a function of the
/// bytes alone.
pub uninterp spec fn is_json(bytes: Seq<u8>) -> bool;

/// Relies on serde_json::from_slice: whether a byte string parses as a
/// JSON document is decided by serde_json and depends on the bytes
/// alone.
#[verifier::external_body]
fn json_is_valid(bytes: &[u8]) -> (r: bool)
    ensures
        r == is_json(bytes@),
{
    serde_json::from_slice::<serde_json::Value>(bytes).is_ok()
}

/// The message of a transport failure.
pub open spec fn net_msg(a: SpecAttempt) -> Seq<char> {
    match a {
        SpecAttempt::NetError(m) => m,
        _ => Seq::empty(),
    }
}

/// The retry walk from attempt `k` on: what the pipeline returns and
/// how many attempts it consumes in total, given what each attempt
/// would yield.
pub open spec fn attempts_spec(script: Seq<SpecAttempt>, k: nat, retries: nat) -> (Result<
    Seq<u8>,
    SpecFetchError,
>, nat)
    recommends
        k <= retries < script.len(),
    decreases retries - k,
{
    match script[k as int] {
        SpecAttempt::Success(b) => (
            if is_json(b) {
                Ok(b)
            } else {
                Err(SpecFetchError::Document)
            },
            (k + 1) as nat,
        ),
        SpecAttempt::HttpError(c, m) => (Err(SpecFetchError::Status(c, m)), (k + 1) as nat),
        SpecAttempt::NetError(m) => if k < retries {
            attempts_spec(script, (k + 1) as nat, retries)
        } else {
            (Err(SpecFetchError::Transport(m)), (k + 1) as nat)
        },
    }
}

/// What one resolution does: the outcome, the number of network
/// attempts consumed, and the cache afterwards.
pub struct FetchSpec {
    pub outcome: Result<Seq<u8>, SpecFetchError>,
    pub calls: nat,
    pub cache: Map<Seq<char>, CacheLine>,
}

/// Whether the cache serves this request: an entry exists, its age
/// satisfies the TTL, and its contents parse. Corrupt contents count
/// as a cache miss, never an error, so the pipeline can always
/// proceed to a network fetch.
pub open spec fn cache_serves(
    cache: Map<Seq<char>, CacheLine>,
    endpoint: Seq<char>,
    now: u64,
    ttl: u64,
) -> bool {
    &&& cache.contains_key(endpoint)
    &&& fresh_at(now, cache[endpoint].mtime, ttl)
    &&& is_json(cache[endpoint].bytes)
}

/// The whole pipeline for one endpoint: a fresh, well-formed cache
/// entry answers with zero attempts and an unchanged cache; otherwise
/// — including when a fresh entry's bytes do not parse — the retry
/// walk runs, and only a networked success (with caching enabled)
/// writes the body back under the endpoint's key.
pub open spec fn fetch_spec(
    cache: Map<Seq<char>, CacheLine>,
    endpoint: Seq<char>,
    now: u64,
    cfg: FetchConfig,
    script: Seq<SpecAttempt>,
) -> FetchSpec
    recommends
        cfg.retries < script.len(),
{
    if cfg.use_cache && cache_serves(cache, endpoint, now, cfg.ttl) {
        FetchSpec { outcome: Ok(cache[endpoint].bytes), calls: 0, cache }
    } else {
        let stepped = attempts_spec(script, 0, cfg.retries as nat);
        FetchSpec {
            outcome: stepped.0,
            calls: stepped.1,
            cache: match stepped.0 {
                Ok(b) => if cfg.use_cache {
                    cache.insert(endpoint, CacheLine { bytes: b, mtime: now })
                } else {
                    cache
                },
                Err(_) => cache,
            },
        }
    }
}

/// What the pipeline does after one attempt's outcome.
#[derive(Debug)]
pub enum AttemptDecision {
    /// The query is finished with this outcome; on a success with
    /// caching enabled, the caller writes the body back.
    Finish(Result<Vec<u8>, FetchError>),
    /// Transport failure with attempts left: wait this many
    /// milliseconds, then try again.
    RetryAfter(u64),
}

fn clone_attempt(a: &Attempt) -> (r: Attempt)
    ensures
        r@ == a@,
{
    match a {
        Attempt::Success(b) => Attempt::Success(vstd::slice::slice_to_vec(b.as_slice())),
        Attempt::HttpError(c, m) => Attempt::HttpError(*c, m.clone()),
        Attempt::NetError(m) => Attempt::NetError(m.clone()),
    }
}

/// Decides, from one attempt's outcome, whether the query is finished
/// or the transport should be retried after the backoff delay. This is
/// the per-event form of the retry walk, for a runner that performs
/// attempts one at a time.
pub fn attempt_decision(a: Attempt, attempt_index: usize, cfg: &FetchConfig) -> (d:
    AttemptDecision)
    ensures
        match a@ {
            SpecAttempt::Success(b) => d matches AttemptDecision::Finish(r) && result_view(r) == (
            if is_json(b) {
                Ok::<Seq<u8>, SpecFetchError>(b)
            } else {
                Err::<Seq<u8>, SpecFetchError>(SpecFetchError::Document)
            }),
            SpecAttempt::HttpError(c, m) => d matches AttemptDecision::Finish(r) && result_view(r)
                == Err::<Seq<u8>, SpecFetchError>(SpecFetchError::Status(c, m)),
            SpecAttempt::NetError(m) => if attempt_index < cfg.retries {
                d matches AttemptDecision::RetryAfter(w) && w == cfg.retry_delay_ms
            } else {
                d matches AttemptDecision::Finish(r) && result_view(r) == Err::<
                    Seq<u8>,
                    SpecFetchError,
                >(SpecFetchError::Transport(m))
            },
        },
{
    match a {
        Attempt::Success(b) => {
            if json_is_valid(b.as_slice()) {
                AttemptDecision::Finish(Ok(b))
            } else {
                AttemptDecision::Finish(Err(FetchError::Document))
            }
        },
        Attempt::HttpError(c, m) => AttemptDecision::Finish(Err(FetchError::Status(c, m))),
        Attempt::NetError(m) => {
            if attempt_index < cfg.retries {
                AttemptDecision::RetryAfter(cfg.retry_delay_ms)
            } else {
                AttemptDecision::Finish(Err(FetchError::Transport(m)))
            }
        },
    }
}

/// Runs the resolution pipeline for one already-resolved endpoint
/// against the cache store, with the outcome each network attempt
/// would yield supplied in `attempts`: consult the cache when enabled,
/// otherwise walk the attempts under the retry policy, writing a
/// networked success back. Returns the outcome and how many attempts
/// were consumed.
pub fn fetch_for_query(
    store: &mut CacheStore,
    endpoint: &str,
    now: u64,
    cfg: &FetchConfig,
    attempts: &Vec<Attempt>,
) -> (r: (Result<Vec<u8>, FetchError>, usize))
    requires
        old(store).wf(),
        cfg.retries < attempts@.len(),
    ensures
        final(store).wf(),
        ({
            let fs = fetch_spec(
                old(store)@,
                endpoint@,
                now,
                *cfg,
                attempts@.map_values(|a: Attempt| a@),
            );
            &&& result_view(r.0) == fs.outcome
            &&& r.1 == fs.calls
            &&& final(store)@ == fs.cache
        }),
{
    let ghost script = attempts@.map_values(|a: Attempt| a@);
    if cfg.use_cache {
        if let Some(b) = store.lookup(endpoint, now, cfg.ttl) {
            if json_is_valid(b.as_slice()) {
                return (Ok(b), 0);
            }
            // corrupt contents count as a miss: fall through to the network
        }
    }
    let n = attempts.len();
    let mut k: usize = 0;
    loop
        invariant
            store.wf(),
            *store == *old(store),
            n == attempts@.len(),
            cfg.retries < attempts@.len(),
            script == attempts@.map_values(|a: Attempt| a@),
            0 <= k <= cfg.retries,
            attempts_spec(script, k as nat, cfg.retries as nat) == attempts_spec(
                script,
                0,
                cfg.retries as nat,
            ),
            !(cfg.use_cache && cache_serves(old(store)@, endpoint@, now, cfg.ttl)),
        decreases cfg.retries - k,
    {
        let a = clone_attempt(&attempts[k]);
        proof {
            assert(script[k as int] == attempts@[k as int]@);
        }
        match attempt_decision(a, k, cfg) {
            AttemptDecision::Finish(outcome) => {
                match outcome {
                    Ok(b) => {
                        if cfg.use_cache {
                            store.store(endpoint, b.as_slice(), now);
                        }
                        return (Ok(b), k + 1);
                    },
                    Err(e) => {
                        return (Err(e), k + 1);
                    },
                }
            },
            AttemptDecision::RetryAfter(_w) => {
                k = k + 1;
            },
        }
    }
}

proof fn lemma_attempts_calls(script: Seq<SpecAttempt>, k: nat, retries: nat)
    requires
        k <= retries < script.len(),
    ensures
        ({
            let stepped = attempts_spec(script, k, retries);
            k + 1 <= stepped.1 <= retries + 1
        }),
    decreases retries - k,
{
    match script[k as int] {
        SpecAttempt::NetError(_m) => {
            if k < retries {
                lemma_attempts_calls(script, (k + 1) as nat, retries);
            }
        },
        _ => {},
    }
}

proof fn lemma_attempts_ok_is_json(script: Seq<SpecAttempt>, k: nat, retries: nat)
    requires
        k <= retries < script.len(),
    ensures
        attempts_spec(script, k, retries).0 matches Ok(b) ==> is_json(b),
    decreases retries - k,
{
    match script[k as int] {
        SpecAttempt::NetError(_m) => {
            if k < retries {
                lemma_attempts_ok_is_json(script, (k + 1) as nat, retries);
            }
        },
        _ => {},
    }
}

/// Law: a resolution never succeeds with a document that does not
/// parse: on every path — cache hit or network — a successful outcome
/// carries bytes that `is_json` accepts, so a corrupt cache entry is
/// bypassed rather than served.
pub proof fn lemma_success_is_wellformed(
    cache: Map<Seq<char>, CacheLine>,
    endpoint: Seq<char>,
    now: u64,
    cfg: FetchConfig,
    script: Seq<SpecAttempt>,
)
    requires
        cfg.retries < script.len(),
    ensures
        fetch_spec(cache, endpoint, now, cfg, script).outcome matches Ok(b) ==> is_json(b),
{
    lemma_attempts_ok_is_json(script, 0, cfg.retries as nat);
}

/// Decides whether bytes form a well-formed document, for a runner
/// holding its own entry storage: what this accepts is exactly what
/// the pipeline's cache-hit path accepts, so such a runner can bypass
/// corrupt entries the same way the verified pipeline does.
pub fn document_is_valid(bytes: &[u8]) -> (r: bool)
    ensures
        r == is_json(bytes@),
{
    json_is_valid(bytes)
}

/// Law: when a resolution went to the network and succeeded, a second
/// resolution of the same endpoint within the TTL window, with caching
/// enabled, consumes no network attempt at all: it is served from the
/// cache, byte-identical to the first outcome, and leaves the cache
/// unchanged.
pub proof fn lemma_cached_idempotence(
    cache: Map<Seq<char>, CacheLine>,
    endpoint: Seq<char>,
    t1: u64,
    t2: u64,
    cfg: FetchConfig,
    s1: Seq<SpecAttempt>,
    s2: Seq<SpecAttempt>,
)
    requires
        cfg.use_cache,
        cfg.retries < s1.len(),
        cfg.retries < s2.len(),
        fetch_spec(cache, endpoint, t1, cfg, s1).outcome is Ok,
        fetch_spec(cache, endpoint, t1, cfg, s1).calls >= 1,
        t1 <= t2,
        t2 - t1 <= cfg.ttl,
    ensures
        ({
            let first = fetch_spec(cache, endpoint, t1, cfg, s1);
            let second = fetch_spec(first.cache, endpoint, t2, cfg, s2);
            &&& second.calls == 0
            &&& second.outcome == first.outcome
            &&& second.cache == first.cache
        }),
{
    lemma_attempts_ok_is_json(s1, 0, cfg.retries as nat);
    let first = fetch_spec(cache, endpoint, t1, cfg, s1);
    assert(first.cache.contains_key(endpoint));
    assert(first.cache[endpoint].mtime == t1);
    assert(is_json(first.cache[endpoint].bytes));
    assert(fresh_at(t2, t1, cfg.ttl));
}

/// Law: once the TTL has elapsed, a stored entry no longer serves a
/// resolution: even though the entry is still present, the next fetch
/// of its endpoint consumes at least one network attempt.
pub proof fn lemma_ttl_expiry_refetches(
    cache: Map<Seq<char>, CacheLine>,
    endpoint: Seq<char>,
    now: u64,
    cfg: FetchConfig,
    script: Seq<SpecAttempt>,
)
    requires
        cfg.retries < script.len(),
        cache.contains_key(endpoint),
        !fresh_at(now, cache[endpoint].mtime, cfg.ttl),
    ensures
        fetch_spec(cache, endpoint, now, cfg, script).calls >= 1,
{
    lemma_attempts_calls(script, 0, cfg.retries as nat);
}

/// Law: with every attempt up to the allowance failing at the
/// transport level, the retry walk from attempt `k` consumes exactly
/// the whole allowance — the first try plus one retry per configured
/// attempt — and surfaces the last transport error.
pub proof fn lemma_transport_exhaustion(script: Seq<SpecAttempt>, k: nat, retries: nat)
    requires
        k <= retries < script.len(),
        forall|j: int| k <= j <= retries ==> (#[trigger] script[j]) is NetError,
    ensures
        attempts_spec(script, k, retries) == (
            Err::<Seq<u8>, SpecFetchError>(
                SpecFetchError::Transport(net_msg(script[retries as int])),
            ),
            (retries + 1) as nat,
        ),
    decreases retries - k,
{
    if k < retries {
        lemma_transport_exhaustion(script, (k + 1) as nat, retries);
    }
}

/// Law: a non-success HTTP status ends the query at the attempt it
/// arrives on — after `k` leading transport failures, exactly `k + 1`
/// attempts are consumed and the status error is surfaced; the status
/// is never retried.
pub proof fn lemma_status_terminal(script: Seq<SpecAttempt>, k: nat, retries: nat)
    requires
        k <= retries < script.len(),
        forall|j: int| 0 <= j < k ==> (#[trigger] script[j]) is NetError,
        script[k as int] matches SpecAttempt::HttpError(c, m),
    ensures
        ({
            let stepped = attempts_spec(script, 0, retries);
            &&& stepped.1 == k + 1
            &&& stepped.0 matches Err(e) && e == SpecFetchError::Status(
                http_code(script[k as int]),
                http_body(script[k as int]),
            )
        }),
{
    lemma_status_terminal_from(script, 0, k, retries);
}

/// The status code of a non-success HTTP answer.
pub open spec fn http_code(a: SpecAttempt) -> u16 {
    match a {
        SpecAttempt::HttpError(c, _m) => c,
        _ => 0,
    }
}

/// The response body of a non-success HTTP answer.
pub open spec fn http_body(a: SpecAttempt) -> Seq<char> {
    match a {
        SpecAttempt::HttpError(_c, m) => m,
        _ => Seq::empty(),
    }
}

proof fn lemma_status_terminal_from(script: Seq<SpecAttempt>, i: nat, k: nat, retries: nat)
    requires
        i <= k <= retries < script.len(),
        forall|j: int| i <= j < k ==> (#[trigger] script[j]) is NetError,
        script[k as int] is HttpError,
    ensures
        ({
            let stepped = attempts_spec(script, i, retries);
            &&& stepped.1 == k + 1
            &&& stepped.0 matches Err(e) && e == SpecFetchError::Status(
                http_code(script[k as int]),
                http_body(script[k as int]),
            )
        }),
    decreases k - i,
{
    if i < k {
        lemma_status_terminal_from(script, (i + 1) as nat, k, retries);
    }
}

} // verus!
