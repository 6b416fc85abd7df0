//! Bulk mode: preparing the input list, fanning queries out to the
//! fetch pipeline with per-query failure isolation, and the scheduler
//! model under which the concurrency cap is stated. The verified
//! drainer here resolves queries in input order; a runner may race
//! completions in any order, which is why consumers must not assume
//! outcomes arrive in input order.

use vstd::prelude::*;
use crate::cache::{CacheLine, CacheStore};
use crate::classify::{classify_spec, normalize, trim_spec, trim_str, Kind, SpecClass};
use crate::endpoint::{classify_to_url, endpoint_url};
use crate::fetch::{
    fetch_for_query, fetch_spec, Attempt, FetchConfig, FetchError, SpecAttempt, SpecFetchError,
};
use vstd::string::StrSliceExecFns;

verus! {

/// Whether a trimmed input line is scheduled at all: blank lines and
/// comment lines are dropped before fan-out.
pub open spec fn keep_line(s: Seq<char>) -> bool {
    s.len() > 0 && s[0] != '#'
}

/// The queries a raw input list yields: each line trimmed, blank and
/// comment lines dropped, order kept.
pub open spec fn filter_lines(lines: Seq<Seq<char>>) -> Seq<Seq<char>>
    decreases lines.len(),
{
    if lines.len() == 0 {
        Seq::empty()
    } else {
        let rest = filter_lines(lines.drop_last());
        let t = trim_spec(lines.last());
        if keep_line(t) {
            rest.push(t)
        } else {
            rest
        }
    }
}

/// Prepares a bulk input list: trims every line and drops blank and
/// comment lines, once, before any scheduling.
pub fn filter_queries(lines: &Vec<String>) -> (r: Vec<String>)
    ensures
        r@.map_values(|s: String| s@) == filter_lines(lines@.map_values(|s: String| s@)),
{
    let ghost all = lines@.map_values(|s: String| s@);
    let mut out: Vec<String> = Vec::new();
    let mut i: usize = 0;
    while i < lines.len()
        invariant
            0 <= i <= lines@.len(),
            all == lines@.map_values(|s: String| s@),
            out@.map_values(|s: String| s@) == filter_lines(all.take(i as int)),
        decreases lines@.len() - i,
    {
        proof {
            assert(all.take(i + 1).drop_last() =~= all.take(i as int));
            assert(all.take(i + 1).last() == all[i as int]);
        }
        let t = trim_str(lines[i].as_str());
        if t.unicode_len() > 0 && t.get_char(0) != '#' {
            out.push(t.to_owned());
            proof {
                assert(out@.map_values(|s: String| s@) =~= filter_lines(all.take(i + 1)));
            }
        } else {
            proof {
                assert(out@.map_values(|s: String| s@) =~= filter_lines(all.take(i + 1)));
            }
        }
        i = i + 1;
    }
    proof {
        assert(all.take(all.len() as int) =~= all);
    }
    out
}

/// Why one bulk query failed.
#[derive(Debug)]
pub enum BulkError {
    /// The query matched no recognized identifier shape.
    Classification,
    /// The fetch ended in a terminal error.
    Fetch(FetchError),
}

/// Spec-level form of a bulk failure reason.
pub enum SpecBulkError {
    Classification,
    Fetch(SpecFetchError),
}

impl View for BulkError {
    type V = SpecBulkError;

    open spec fn view(&self) -> SpecBulkError {
        match self {
            BulkError::Classification => SpecBulkError::Classification,
            BulkError::Fetch(e) => SpecBulkError::Fetch(e@),
        }
    }
}

/// The per-query outcome of a bulk run: a resolved document body, or a
/// failure tagged with the original query text.
#[derive(Debug)]
pub enum FetchOutcome {
    Success(Vec<u8>),
    Failure(String, BulkError),
}

/// Spec-level form of a per-query outcome.
pub enum SpecOutcome {
    Success(Seq<u8>),
    Failure(Seq<char>, SpecBulkError),
}

impl View for FetchOutcome {
    type V = SpecOutcome;

    open spec fn view(&self) -> SpecOutcome {
        match self {
            FetchOutcome::Success(b) => SpecOutcome::Success(b@),
            FetchOutcome::Failure(q, e) => SpecOutcome::Failure(q@, e@),
        }
    }
}

pub open spec fn class_kind(c: SpecClass) -> Kind {
    match c {
        SpecClass::Asn(_n) => Kind::Asn,
        SpecClass::Ip(_n) => Kind::Ip,
        SpecClass::Domain(_n) => Kind::Domain,
        SpecClass::Invalid => Kind::Domain,
    }
}

pub open spec fn class_norm(c: SpecClass) -> Seq<char> {
    match c {
        SpecClass::Asn(n) => n,
        SpecClass::Ip(n) => n,
        SpecClass::Domain(n) => n,
        SpecClass::Invalid => Seq::empty(),
    }
}

/// What one bulk query does: an unclassifiable query fails on its own
/// without touching the cache; any other runs the fetch pipeline on
/// its endpoint.
pub open spec fn query_spec(
    cache: Map<Seq<char>, CacheLine>,
    q: Seq<char>,
    now: u64,
    cfg: FetchConfig,
    script: Seq<SpecAttempt>,
) -> (SpecOutcome, Map<Seq<char>, CacheLine>)
    recommends
        cfg.retries < script.len(),
{
    let c = classify_spec(q);
    if c is Invalid {
        (SpecOutcome::Failure(q, SpecBulkError::Classification), cache)
    } else {
        let url = endpoint_url(class_kind(c), class_norm(c));
        let fs = fetch_spec(cache, url, now, cfg, script);
        match fs.outcome {
            Ok(b) => (SpecOutcome::Success(b), fs.cache),
            Err(e) => (SpecOutcome::Failure(q, SpecBulkError::Fetch(e)), fs.cache),
        }
    }
}

/// A whole bulk run over the shared cache, one outcome per query in
/// input order.
pub open spec fn bulk_spec(
    cache: Map<Seq<char>, CacheLine>,
    queries: Seq<Seq<char>>,
    now: u64,
    cfg: FetchConfig,
    scripts: Seq<Seq<SpecAttempt>>,
) -> (Seq<SpecOutcome>, Map<Seq<char>, CacheLine>)
    recommends
        queries.len() == scripts.len(),
    decreases queries.len(),
{
    if queries.len() == 0 {
        (Seq::empty(), cache)
    } else {
        let prev = bulk_spec(cache, queries.drop_last(), now, cfg, scripts.drop_last());
        let one = query_spec(prev.1, queries.last(), now, cfg, scripts.last());
        (prev.0.push(one.0), one.1)
    }
}

/// Resolves a list of queries, one outcome per query: a query that
/// fails classification or fetch yields a `Failure` tagged with its
/// original text while the remaining queries continue; a success runs
/// through the shared cache exactly as a single resolution would. The
/// outcome each network attempt would yield is supplied per query in
/// `scripts`.
pub fn run_bulk(
    store: &mut CacheStore,
    queries: &Vec<String>,
    now: u64,
    cfg: &FetchConfig,
    scripts: &Vec<Vec<Attempt>>,
) -> (r: Vec<FetchOutcome>)
    requires
        old(store).wf(),
        queries@.len() == scripts@.len(),
        forall|i: int| 0 <= i < scripts@.len() ==> cfg.retries < (#[trigger] scripts@[i])@.len(),
    ensures
        final(store).wf(),
        ({
            let bs = bulk_spec(
                old(store)@,
                queries@.map_values(|q: String| q@),
                now,
                *cfg,
                scripts@.map_values(|s: Vec<Attempt>| s@.map_values(|a: Attempt| a@)),
            );
            &&& r@.map_values(|o: FetchOutcome| o@) == bs.0
            &&& final(store)@ == bs.1
        }),
{
    let ghost qs = queries@.map_values(|q: String| q@);
    let ghost sc = scripts@.map_values(|s: Vec<Attempt>| s@.map_values(|a: Attempt| a@));
    let mut out: Vec<FetchOutcome> = Vec::new();
    let mut i: usize = 0;
    while i < queries.len()
        invariant
            store.wf(),
            0 <= i <= queries@.len(),
            queries@.len() == scripts@.len(),
            qs == queries@.map_values(|q: String| q@),
            sc == scripts@.map_values(|s: Vec<Attempt>| s@.map_values(|a: Attempt| a@)),
            forall|j: int| 0 <= j < scripts@.len() ==> cfg.retries < (#[trigger] scripts@[j])@.len(),
            out@.map_values(|o: FetchOutcome| o@) == bulk_spec(
                old(store)@,
                qs.take(i as int),
                now,
                *cfg,
                sc.take(i as int),
            ).0,
            store@ == bulk_spec(old(store)@, qs.take(i as int), now, *cfg, sc.take(i as int)).1,
        decreases queries@.len() - i,
    {
        proof {
            assert(qs.take(i + 1).drop_last() =~= qs.take(i as int));
            assert(sc.take(i + 1).drop_last() =~= sc.take(i as int));
            assert(qs.take(i + 1).last() == qs[i as int]);
            assert(sc.take(i + 1).last() == sc[i as int]);
            assert(sc[i as int] == scripts@[i as int]@.map_values(|a: Attempt| a@));
        }
        match normalize(queries[i].as_str()) {
            Err(_e) => {
                out.push(FetchOutcome::Failure(queries[i].clone(), BulkError::Classification));
            },
            Ok((kind, norm)) => {
                let url = classify_to_url(kind, norm.as_str());
                let res = fetch_for_query(store, url.as_str(), now, cfg, &scripts[i]);
                match res.0 {
                    Ok(b) => {
                        out.push(FetchOutcome::Success(b));
                    },
                    Err(e) => {
                        out.push(FetchOutcome::Failure(queries[i].clone(), BulkError::Fetch(e)));
                    },
                }
            },
        }
        proof {
            assert(out@.map_values(|o: FetchOutcome| o@) =~= bulk_spec(
                old(store)@,
                qs.take(i + 1),
                now,
                *cfg,
                sc.take(i + 1),
            ).0);
        }
        i = i + 1;
    }
    proof {
        assert(qs.take(qs.len() as int) =~= qs);
        assert(sc.take(sc.len() as int) =~= sc);
    }
    out
}

/// Law: bulk isolation — a run yields exactly one outcome per query,
/// in input order, and a query that fails classification yields a
/// failure tagged with its own original text; no failure ends the run
/// early, so every other query still gets its outcome.
pub proof fn lemma_bulk_isolation(
    cache: Map<Seq<char>, CacheLine>,
    queries: Seq<Seq<char>>,
    now: u64,
    cfg: FetchConfig,
    scripts: Seq<Seq<SpecAttempt>>,
)
    requires
        queries.len() == scripts.len(),
    ensures
        bulk_spec(cache, queries, now, cfg, scripts).0.len() == queries.len(),
        forall|i: int|
            0 <= i < queries.len() && classify_spec(#[trigger] queries[i]) is Invalid
                ==> bulk_spec(cache, queries, now, cfg, scripts).0[i] == SpecOutcome::Failure(
                queries[i],
                SpecBulkError::Classification,
            ),
    decreases queries.len(),
{
    if queries.len() > 0 {
        lemma_bulk_isolation(cache, queries.drop_last(), now, cfg, scripts.drop_last());
        let bs = bulk_spec(cache, queries, now, cfg, scripts);
        let prev = bulk_spec(cache, queries.drop_last(), now, cfg, scripts.drop_last());
        assert forall|i: int|
            0 <= i < queries.len() && classify_spec(#[trigger] queries[i]) is Invalid implies bs.0[i]
            == SpecOutcome::Failure(queries[i], SpecBulkError::Classification) by {
            if i < queries.len() - 1 {
                assert(queries.drop_last()[i] == queries[i]);
                assert(bs.0[i] == prev.0[i]);
            }
        }
    }
}

/// The bulk scheduler's bookkeeping: how many queries wait, run, and
/// are finished, under the concurrency cap.
pub struct SchedState {
    pub pending: nat,
    pub in_flight: nat,
    pub done: nat,
    pub cap: nat,
}

/// One scheduler move: start a waiting query, or retire a running one.
pub enum SchedStep {
    Start,
    Finish,
}

/// The scheduler's initial state: every query pending, nothing in
/// flight, the cap clamped to at least one.
pub open spec fn sched_init(n_queries: nat, cap: nat) -> SchedState {
    SchedState {
        pending: n_queries,
        in_flight: 0,
        done: 0,
        cap: if cap >= 1 {
            cap
        } else {
            1
        },
    }
}

/// When a move is allowed: a query may start only while fewer fetches
/// than the cap are in flight; a query may finish only while one runs.
pub open spec fn sched_enabled(s: SchedState, step: SchedStep) -> bool {
    match step {
        SchedStep::Start => s.pending > 0 && s.in_flight < s.cap,
        SchedStep::Finish => s.in_flight > 0,
    }
}

pub open spec fn sched_next(s: SchedState, step: SchedStep) -> SchedState {
    match step {
        SchedStep::Start => SchedState {
            pending: (s.pending - 1) as nat,
            in_flight: s.in_flight + 1,
            done: s.done,
            cap: s.cap,
        },
        SchedStep::Finish => SchedState {
            pending: s.pending,
            in_flight: (s.in_flight - 1) as nat,
            done: s.done + 1,
            cap: s.cap,
        },
    }
}

/// The concurrency bound together with query conservation.
pub open spec fn sched_inv(s: SchedState, n_queries: nat) -> bool {
    &&& s.cap >= 1
    &&& s.in_flight <= s.cap
    &&& s.pending + s.in_flight + s.done == n_queries
}

/// Law: the concurrency bound holds initially.
pub proof fn lemma_sched_init_inv(n_queries: nat, cap: nat)
    ensures
        sched_inv(sched_init(n_queries, cap), n_queries),
{
}

/// Law: every enabled scheduler move keeps the number of in-flight
/// fetches at or below the cap, and conserves queries — so at no point
/// of any run do more fetches run at once than the cap, and a drained
/// run (nothing pending, nothing in flight) has produced exactly one
/// outcome per query.
pub proof fn lemma_sched_step_inv(s: SchedState, step: SchedStep, n_queries: nat)
    requires
        sched_inv(s, n_queries),
        sched_enabled(s, step),
    ensures
        sched_inv(sched_next(s, step), n_queries),
{
}

/// Clamps the configured concurrency to at least one.
pub fn clamp_concurrency(c: usize) -> (r: usize)
    ensures
        r >= 1,
        r as nat == sched_init(0, c as nat).cap,
{
    if c == 0 {
        1
    } else {
        c
    }
}

} // verus!
