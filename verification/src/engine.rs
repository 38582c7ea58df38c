//! Sync orchestration.
//!
//! A sync runs in two phases around the vendor fetch, which is the one
//! operation the engine cannot perform itself:
//!
//! 1. [`SeriesStore::prepare_sync`] provisions storage, seeds the ledger for
//!    new series and resolves one fetch plan per request;
//!    [`build_fetch_requests`] then collapses the plans into a deduplicated
//!    list of vendor calls.
//! 2. The caller performs those calls — concurrently, in any order — and
//!    hands the outcomes back to [`SeriesStore::complete_sync`], which
//!    normalizes and loads the fetched rows, refreshes each ledger from what
//!    is actually stored, and reads back the requested range for every
//!    request.
//!
//! Every per-series failure is isolated: it surfaces as that series' error
//! and leaves every other series, and the failed series' ledger, untouched.

use vstd::prelude::*;

use crate::calendar::{valid_ts, EPOCH_START_MS, MAX_TIMESTAMP_MS};
use crate::models::{
    blob_of, granularity_of_name, ledger_matches_key, row_matches_key, same_key, FetchPlan,
    RawRow, SeriesKey, SeriesRow, SyncError, SyncRequest,
};
use crate::normalize::{lemma_normalized_rows_blob, normalize_rows, normalize_rows_spec};
use crate::resolver::resolve_spec;
use crate::store::{
    is_max_ts, is_min_ts, lemma_filter_all, lemma_filter_none, sorted_by_ts, SeriesStore,
};

verus! {

broadcast use crate::models::lemma_same_key_symmetric;

/// One deduplicated vendor call: fetch the rows of `key` between `from` and
/// `to` (milliseconds since the epoch).
pub struct FetchRequest {
    pub key: SeriesKey,
    pub from: i64,
    pub to: i64,
}

impl Clone for FetchRequest {
    fn clone(&self) -> (r: Self)
        ensures
            r == *self,
    {
        FetchRequest { key: self.key.clone(), from: self.from, to: self.to }
    }
}

/// What one vendor call produced: raw rows, or a failure of any kind.
pub enum FetchOutcome {
    Rows(Vec<RawRow>),
    Failed,
}

/// Two fetch requests that would resolve to an identical underlying vendor
/// call.
pub open spec fn same_fetch(a: FetchRequest, b: FetchRequest) -> bool {
    same_key(a.key, b.key) && a.from == b.from && a.to == b.to
}

/// No two requests in the batch address the same series.
pub open spec fn distinct_keys(reqs: Seq<SyncRequest>) -> bool {
    forall|i: int, j: int| 0 <= i < j < reqs.len() ==> !same_key(reqs[i].key, reqs[j].key)
}

/// No two fetches address the same series.
pub open spec fn distinct_fetch_keys(fs: Seq<FetchRequest>) -> bool {
    forall|i: int, j: int| 0 <= i < j < fs.len() ==> !same_key(fs[i].key, fs[j].key)
}

/// The vendor call a resolved plan gives rise to, if any.
pub open spec fn planned_fetch(req: SyncRequest, plan: Result<FetchPlan, SyncError>) -> Option<
    FetchRequest,
> {
    match plan {
        Ok(FetchPlan::NewSeries { from, to }) => Some(FetchRequest { key: req.key, from, to }),
        Ok(FetchPlan::Extend { from, to }) => Some(FetchRequest { key: req.key, from, to }),
        _ => None,
    }
}

/// What the preparation phase decides for one request, judged against the
/// store as it stood before the phase: a provisioning error for a series
/// name without a recognized granularity suffix, else the resolver's plan.
pub open spec fn prepare_plan_spec(s: SeriesStore, req: SyncRequest, now: i64) -> Result<
    FetchPlan,
    SyncError,
> {
    if granularity_of_name(req.key.series_name@) is None {
        Err(SyncError::Provision)
    } else {
        resolve_spec(s, req.key, now)
    }
}

/// The ledger holds exactly the freshly seeded entry for `k`: range from the
/// epoch-start sentinel to `now`.
pub open spec fn seeded_singleton(s: SeriesStore, k: SeriesKey, now: i64) -> bool {
    &&& s.ledger_docs_for(k).len() == 1
    &&& {
        let d = s.ledger_docs_for(k)[0];
        ledger_matches_key(d, k) && d.from == EPOCH_START_MS && d.to == now && d.last_updated
            == now
    }
}

/// What the preparation phase did for one request, relating the store before
/// the phase (`s0`) and after it (`s1`).
pub open spec fn prepared_one(
    s0: SeriesStore,
    s1: SeriesStore,
    req: SyncRequest,
    now: i64,
    plan: Result<FetchPlan, SyncError>,
) -> bool {
    &&& plan == prepare_plan_spec(s0, req, now)
    &&& (plan matches Ok(FetchPlan::NewSeries { .. }) ==> seeded_singleton(s1, req.key, now))
    &&& (!(plan matches Ok(FetchPlan::NewSeries { .. })) ==> s1.ledger_docs_for(req.key)
        == s0.ledger_docs_for(req.key))
    &&& (plan is Ok ==> s1.has_collection(req.key.series_name@))
}

impl SeriesStore {
    /// Phase one of a sync: for each request, provision the collection pair,
    /// seed the ledger when the series is new, and resolve the fetch plan.
    /// Rows are never touched, and the ledger of every series outside the
    /// batch is left unchanged.  When the batch's keys are pairwise
    /// distinct, each request's plan and seeding are exactly what the
    /// resolver decides against the pre-phase store.
    pub fn prepare_sync(&mut self, requests: &Vec<SyncRequest>, now: i64) -> (plans: Vec<
        Result<FetchPlan, SyncError>,
    >)
        requires
            old(self).wf(),
            valid_ts(now as int),
        ensures
            final(self).wf(),
            plans@.len() == requests@.len(),
            forall|k: SeriesKey| #[trigger] final(self).rows_for(k) == old(self).rows_for(k),
            forall|k: SeriesKey, f: int, t: int| #[trigger]
                final(self).rows_in_window(k, f, t) == old(self).rows_in_window(k, f, t),
            forall|k: SeriesKey|
                (forall|j: int|
                    0 <= j < requests@.len() ==> !same_key(k, (#[trigger] requests@[j]).key))
                    ==> #[trigger] final(self).ledger_docs_for(k) == old(self).ledger_docs_for(k),
            forall|n: Seq<char>|
                old(self).has_collection(n) ==> #[trigger] final(self).has_collection(n),
            distinct_keys(requests@) ==> forall|i: int|
                0 <= i < requests@.len() ==> prepared_one(
                    *old(self),
                    *final(self),
                    requests@[i],
                    now,
                    #[trigger] plans@[i],
                ),
    {
        let mut plans: Vec<Result<FetchPlan, SyncError>> = Vec::new();
        let n = requests.len();
        let mut i: usize = 0;
        while i < n
            invariant
                self.wf(),
                valid_ts(now as int),
                n == requests@.len(),
                i <= n,
                plans@.len() == i,
                forall|k: SeriesKey| #[trigger] self.rows_for(k) == old(self).rows_for(k),
                forall|k: SeriesKey, f: int, t: int| #[trigger]
                    self.rows_in_window(k, f, t) == old(self).rows_in_window(k, f, t),
                forall|k: SeriesKey|
                    (forall|j: int| 0 <= j < i ==> !same_key(k, (#[trigger] requests@[j]).key))
                        ==> #[trigger] self.ledger_docs_for(k) == old(self).ledger_docs_for(k),
                forall|nm: Seq<char>|
                    old(self).has_collection(nm) ==> #[trigger] self.has_collection(nm),
                distinct_keys(requests@) ==> forall|j: int|
                    0 <= j < i ==> prepared_one(
                        *old(self),
                        *self,
                        requests@[j],
                        now,
                        #[trigger] plans@[j],
                    ),
            decreases n - i,
        {
            let req = &requests[i];
            let ghost s_pre = *self;
            let ghost kreq = requests@[i as int].key;
            match self.ensure_series_storage(&req.key.series_name) {
                Err(_) => {
                    plans.push(Err(SyncError::Provision));
                    proof {
                        assert(prepare_plan_spec(*old(self), requests@[i as int], now) == Err::<
                            FetchPlan,
                            SyncError,
                        >(SyncError::Provision));
                        if distinct_keys(requests@) {
                            assert forall|j: int| 0 <= j <= i implies prepared_one(
                                *old(self),
                                *self,
                                requests@[j],
                                now,
                                #[trigger] plans@[j],
                            ) by {
                                if j < i {
                                    assert(prepared_one(
                                        *old(self),
                                        s_pre,
                                        requests@[j],
                                        now,
                                        plans@[j],
                                    ));
                                } else {
                                    assert(forall|x: int|
                                        0 <= x < i ==> !same_key(
                                            kreq,
                                            (#[trigger] requests@[x]).key,
                                        ));
                                    assert(self.ledger_docs_for(kreq) == old(
                                        self,
                                    ).ledger_docs_for(kreq));
                                }
                            }
                        }
                    }
                },
                Ok(()) => {
                    let ghost s_mid = *self;
                    proof {
                        // A provisioned collection always has a recognized
                        // granularity suffix.
                        let nm = kreq.series_name@;
                        assert(granularity_of_name(nm) is Some) by {
                            if s_pre.has_collection(nm) {
                                let ci = s_pre.collection_index(nm);
                                assert(0 <= ci < s_pre.collections@.len()
                                    && s_pre.collections@[ci].name@ == nm);
                                assert(s_pre.collections@[ci].wf());
                            }
                        }
                        if distinct_keys(requests@) {
                            assert(forall|x: int|
                                0 <= x < i ==> !same_key(kreq, (#[trigger] requests@[x]).key));
                            assert(s_pre.ledger_docs_for(kreq) == old(self).ledger_docs_for(kreq));
                            assert(s_mid.ledger_docs_for(kreq) == old(self).ledger_docs_for(kreq));
                        }
                    }
                    let plan = self.resolve(req, now);
                    match plan {
                        Ok(FetchPlan::NewSeries { from, to }) => {
                            let seeded = self.insert_metadata(&req.key, now);
                            proof {
                                assert(seeded is Ok);
                            }
                            plans.push(Ok(FetchPlan::NewSeries { from, to }));
                            proof {
                                let ghost doc = seeded.unwrap();
                                assert(self.ledger_docs_for(kreq) == s_mid.ledger_docs_for(
                                    kreq,
                                ).push(doc));
                                lemma_prepare_frame(s_mid, *self, *old(self), requests@, i as int,
                                    doc);
                                if distinct_keys(requests@) {
                                    assert(s_mid.ledger_docs_for(kreq).len() == 0);
                                    assert(seeded_singleton(*self, kreq, now));
                                    assert forall|j: int| 0 <= j <= i implies prepared_one(
                                        *old(self),
                                        *self,
                                        requests@[j],
                                        now,
                                        #[trigger] plans@[j],
                                    ) by {
                                        if j < i {
                                            assert(prepared_one(
                                                *old(self),
                                                s_pre,
                                                requests@[j],
                                                now,
                                                plans@[j],
                                            ));
                                            assert(!same_key(requests@[j].key, kreq));
                                            assert(!ledger_matches_key(doc, requests@[j].key));
                                            assert(self.ledger_docs_for(requests@[j].key)
                                                == s_mid.ledger_docs_for(requests@[j].key));
                                        }
                                    }
                                }
                            }
                        },
                        Ok(FetchPlan::Extend { from, to }) => {
                            plans.push(Ok(FetchPlan::Extend { from, to }));
                            proof {
                                lemma_prepare_unchanged(s_mid, *self, *old(self), requests@,
                                    plans@, i as int, now, s_pre, distinct_keys(requests@));
                            }
                        },
                        Ok(FetchPlan::UpToDate) => {
                            plans.push(Ok(FetchPlan::UpToDate));
                            proof {
                                lemma_prepare_unchanged(s_mid, *self, *old(self), requests@,
                                    plans@, i as int, now, s_pre, distinct_keys(requests@));
                            }
                        },
                        Err(e) => {
                            plans.push(Err(e));
                            proof {
                                lemma_prepare_unchanged(s_mid, *self, *old(self), requests@,
                                    plans@, i as int, now, s_pre, distinct_keys(requests@));
                            }
                        },
                    }
                },
            }
            i = i + 1;
        }
        plans
    }
}

/// After seeding one new series, every other series' ledger is as it was.
proof fn lemma_prepare_frame(
    s_mid: SeriesStore,
    s_now: SeriesStore,
    s0: SeriesStore,
    reqs: Seq<SyncRequest>,
    i: int,
    doc: crate::models::SeriesMetadata,
)
    requires
        0 <= i < reqs.len(),
        ledger_matches_key(doc, reqs[i].key),
        forall|k: SeriesKey| #[trigger]
            s_now.ledger_docs_for(k) == if ledger_matches_key(doc, k) {
                s_mid.ledger_docs_for(k).push(doc)
            } else {
                s_mid.ledger_docs_for(k)
            },
        forall|k: SeriesKey|
            (forall|j: int| 0 <= j < i ==> !same_key(k, (#[trigger] reqs[j]).key))
                ==> #[trigger] s_mid.ledger_docs_for(k) == s0.ledger_docs_for(k),
    ensures
        forall|k: SeriesKey|
            (forall|j: int| 0 <= j < i + 1 ==> !same_key(k, (#[trigger] reqs[j]).key))
                ==> #[trigger] s_now.ledger_docs_for(k) == s0.ledger_docs_for(k),
{
    assert forall|k: SeriesKey|
        (forall|j: int|
            0 <= j < i + 1 ==> !same_key(k, (#[trigger] reqs[j]).key)) implies
        #[trigger] s_now.ledger_docs_for(k) == s0.ledger_docs_for(k) by {
        assert(!same_key(k, reqs[i].key));
        assert(!ledger_matches_key(doc, k));
        assert(forall|j: int| 0 <= j < i ==> !same_key(k, (#[trigger] reqs[j]).key));
    }
}

/// Collapses the resolved plans into the list of vendor calls to make, with
/// Whether some fetch in the list already addresses the series key.
pub open spec fn has_key_in(fs: Seq<FetchRequest>, k: SeriesKey) -> bool {
    exists|j: int| 0 <= j < fs.len() && same_key((#[trigger] fs[j]).key, k)
}

/// The deduplicated list of vendor calls a batch of resolved plans gives
/// rise to: one fetch per planned series, first occurrence of a series key
/// winning.  Fetch requests that would resolve to an identical underlying
/// call collapse to one, because duplicate keys in one batch resolve to
/// identical plans.
pub open spec fn fetch_list_spec(
    reqs: Seq<SyncRequest>,
    plans: Seq<Result<FetchPlan, SyncError>>,
) -> Seq<FetchRequest>
    decreases reqs.len(),
{
    if reqs.len() == 0 || plans.len() < reqs.len() {
        Seq::empty()
    } else {
        let prefix = fetch_list_spec(reqs.drop_last(), plans.take(reqs.len() - 1));
        match planned_fetch(reqs.last(), plans[reqs.len() - 1]) {
            Some(f) => if has_key_in(prefix, f.key) {
                prefix
            } else {
                prefix.push(f)
            },
            None => prefix,
        }
    }
}

/// The fetch list never addresses the same series twice.
pub proof fn lemma_fetch_list_distinct(
    reqs: Seq<SyncRequest>,
    plans: Seq<Result<FetchPlan, SyncError>>,
)
    ensures
        distinct_fetch_keys(fetch_list_spec(reqs, plans)),
    decreases reqs.len(),
{
    if reqs.len() > 0 && plans.len() >= reqs.len() {
        let prefix = fetch_list_spec(reqs.drop_last(), plans.take(reqs.len() - 1));
        lemma_fetch_list_distinct(reqs.drop_last(), plans.take(reqs.len() - 1));
        let fs = fetch_list_spec(reqs, plans);
        match planned_fetch(reqs.last(), plans[reqs.len() - 1]) {
            Some(f) => {
                if !has_key_in(prefix, f.key) {
                    assert forall|a: int, b: int| 0 <= a < b < fs.len() implies !same_key(
                        fs[a].key,
                        fs[b].key,
                    ) by {
                        if b < fs.len() - 1 {
                            assert(!same_key(prefix[a].key, prefix[b].key));
                        } else {
                            assert(fs[a] == prefix[a]);
                            if same_key(prefix[a].key, f.key) {
                                assert(has_key_in(prefix, f.key));
                            }
                        }
                    }
                }
            },
            None => {},
        }
    }
}

/// Collapses the resolved plans into the deduplicated list of vendor calls
/// to make: exactly `fetch_list_spec`, which keeps one fetch per planned
/// series.
pub fn build_fetch_requests(
    requests: &Vec<SyncRequest>,
    plans: &Vec<Result<FetchPlan, SyncError>>,
) -> (r: Vec<FetchRequest>)
    requires
        plans@.len() == requests@.len(),
    ensures
        r@ == fetch_list_spec(requests@, plans@),
        distinct_fetch_keys(r@),
{
    let mut r: Vec<FetchRequest> = Vec::new();
    let n = requests.len();
    let mut i: usize = 0;
    while i < n
        invariant
            n == requests@.len(),
            plans@.len() == n,
            i <= n,
            r@ == fetch_list_spec(requests@.take(i as int), plans@.take(i as int)),
        decreases n - i,
    {
        proof {
            assert(requests@.take(i + 1).drop_last() =~= requests@.take(i as int));
            assert(plans@.take(i + 1).take(i as int) =~= plans@.take(i as int));
            assert(requests@.take(i + 1).last() == requests@[i as int]);
            assert(plans@.take(i + 1)[i as int] == plans@[i as int]);
        }
        let plan = plans[i];
        let (pf, pt, planned) = match plan {
            Ok(FetchPlan::NewSeries { from, to }) => (from, to, true),
            Ok(FetchPlan::Extend { from, to }) => (from, to, true),
            _ => (0, 0, false),
        };
        if planned {
            proof {
                assert(planned_fetch(requests@[i as int], plans@[i as int]) matches Some(f)
                    && f.key == requests@[i as int].key && f.from == pf && f.to == pt);
            }
            match find_fetch_for(&r, &requests[i].key) {
                Some(jf) => {
                    proof {
                        assert(same_key(r@[jf as int].key, requests@[i as int].key));
                        assert(has_key_in(r@, requests@[i as int].key));
                    }
                },
                None => {
                    let ghost r0 = r@;
                    r.push(FetchRequest { key: requests[i].key.clone(), from: pf, to: pt });
                    proof {
                        let f = planned_fetch(requests@[i as int], plans@[i as int]).unwrap();
                        if has_key_in(r0, f.key) {
                            let w = choose|j: int|
                                0 <= j < r0.len() && same_key((#[trigger] r0[j]).key, f.key);
                            assert(false);
                        }
                        assert(r@ == r0.push(f));
                    }
                },
            }
        }
        i = i + 1;
    }
    proof {
        assert(requests@.take(n as int) =~= requests@);
        assert(plans@.take(n as int) =~= plans@);
        lemma_fetch_list_distinct(requests@, plans@);
    }
    r
}

/// When a request changes nothing (its plan needs no seeding), the loop
/// invariant of `prepare_sync` carries over directly.
proof fn lemma_prepare_unchanged(
    s_mid: SeriesStore,
    s_now: SeriesStore,
    s0: SeriesStore,
    reqs: Seq<SyncRequest>,
    plans: Seq<Result<FetchPlan, SyncError>>,
    i: int,
    now: i64,
    s_pre: SeriesStore,
    distinct: bool,
)
    requires
        0 <= i < reqs.len(),
        plans.len() == i + 1,
        s_now == s_mid,
        granularity_of_name(reqs[i].key.series_name@) is Some,
        s_mid.has_collection(reqs[i].key.series_name@),
        plans[i as int] == resolve_spec(s_mid, reqs[i].key, now),
        !(plans[i as int] matches Ok(FetchPlan::NewSeries { .. })),
        distinct ==> s_mid.ledger_docs_for(reqs[i].key) == s0.ledger_docs_for(reqs[i].key),
        distinct ==> forall|j: int|
            0 <= j < i ==> prepared_one(s0, s_pre, reqs[j], now, #[trigger] plans[j]),
        forall|k: SeriesKey| #[trigger] s_mid.ledger_docs_for(k) == s_pre.ledger_docs_for(k),
        forall|n: Seq<char>|
            s_pre.has_collection(n) ==> #[trigger] s_mid.has_collection(n),
    ensures
        distinct ==> forall|j: int|
            0 <= j <= i ==> prepared_one(s0, s_now, reqs[j], now, #[trigger] plans[j]),
{
    if distinct {
        assert(resolve_spec(s_mid, reqs[i].key, now) == resolve_spec(s0, reqs[i].key, now));
        assert forall|j: int| 0 <= j <= i implies prepared_one(
            s0,
            s_now,
            reqs[j],
            now,
            #[trigger] plans[j],
        ) by {
            if j < i {
                assert(prepared_one(s0, s_pre, reqs[j], now, plans[j]));
                assert(s_now.ledger_docs_for(reqs[j].key) == s_pre.ledger_docs_for(reqs[j].key));
            }
        }
    }
}

/// The position of the first fetch in `r` that is the same underlying
/// vendor call as `(key, from, to)`, if any.
fn find_same_fetch(r: &Vec<FetchRequest>, key: &SeriesKey, from: i64, to: i64) -> (res: Option<
    usize,
>)
    ensures
        match res {
            Some(j) => j < r@.len() && same_fetch(
                r@[j as int],
                FetchRequest { key: *key, from, to },
            ),
            None => forall|x: int|
                0 <= x < r@.len() ==> !same_fetch(
                    #[trigger] r@[x],
                    FetchRequest { key: *key, from, to },
                ),
        },
{
    let n = r.len();
    let mut x: usize = 0;
    while x < n
        invariant
            n == r@.len(),
            x <= n,
            forall|y: int|
                0 <= y < x ==> !same_fetch(#[trigger] r@[y], FetchRequest { key: *key, from, to }),
        decreases n - x,
    {
        if r[x].key.is_same_series(key) && r[x].from == from && r[x].to == to {
            return Some(x);
        }
        x = x + 1;
    }
    None
}

/// The position of the first fetch addressing the series key, if any.
fn find_fetch_for(fetches: &Vec<FetchRequest>, key: &SeriesKey) -> (res: Option<usize>)
    ensures
        match res {
            Some(j) => j < fetches@.len() && same_key(fetches@[j as int].key, *key) && (forall|
                x: int,
            |
                0 <= x < j ==> !same_key((#[trigger] fetches@[x]).key, *key)),
            None => forall|x: int|
                0 <= x < fetches@.len() ==> !same_key((#[trigger] fetches@[x]).key, *key),
        },
{
    let n = fetches.len();
    let mut x: usize = 0;
    while x < n
        invariant
            n == fetches@.len(),
            x <= n,
            forall|y: int| 0 <= y < x ==> !same_key((#[trigger] fetches@[y]).key, *key),
        decreases n - x,
    {
        if fetches[x].key.is_same_series(key) {
            return Some(x);
        }
        x = x + 1;
    }
    None
}

/// The rows one fetch outcome loads for its key: the normalized raw rows
/// under the key's metadata blob, nothing on failure.
pub open spec fn loaded_rows(f: FetchRequest, outcome: FetchOutcome) -> Seq<SeriesRow> {
    match outcome {
        FetchOutcome::Rows(raws) => normalize_rows_spec(raws@, blob_of(f.key)),
        FetchOutcome::Failed => Seq::empty(),
    }
}

/// The error, if any, that applying one fetch outcome reports, judged
/// against the store as it stood before the completion phase: a failed
/// vendor call, a missing collection, or a ledger entry count other than
/// one.
pub open spec fn fetch_status_spec(s0: SeriesStore, f: FetchRequest, outcome: FetchOutcome) -> Result<
    (),
    SyncError,
> {
    match outcome {
        FetchOutcome::Failed => Err(SyncError::Fetch),
        FetchOutcome::Rows(raws) => {
            if !s0.has_collection(f.key.series_name@) {
                Err(SyncError::Load)
            } else if s0.ledger_docs_for(f.key).len() == 0 {
                Err(SyncError::Update)
            } else if s0.ledger_docs_for(f.key).len() > 1 {
                Err(SyncError::DuplicateMetadata)
            } else {
                Ok(())
            }
        },
    }
}

/// The ledger holds exactly one entry for `k`, refreshed from the stored
/// rows: its range is the true minimum and maximum stored timestamp.
pub open spec fn refreshed_ledger(
    s: SeriesStore,
    k: SeriesKey,
    stored: Seq<SeriesRow>,
    now: i64,
) -> bool {
    &&& s.ledger_docs_for(k).len() == 1
    &&& {
        let d = s.ledger_docs_for(k)[0];
        ledger_matches_key(d, k) && is_min_ts(stored, d.from as int) && is_max_ts(
            stored,
            d.to as int,
        ) && d.last_updated == now
    }
}

/// What applying one fetch outcome did to its key, relating the store
/// before the completion phase (`s0`) and after it (`s1`): a failure leaves
/// rows and ledger untouched; fetched rows are appended, and the ledger —
/// when it holds exactly one entry — is refreshed from what is then stored,
/// unless nothing at all is stored for the key.
pub open spec fn applied_fetch(
    s0: SeriesStore,
    s1: SeriesStore,
    f: FetchRequest,
    outcome: FetchOutcome,
    now: i64,
) -> bool {
    match fetch_status_spec(s0, f, outcome) {
        Err(e) => {
            &&& s1.ledger_docs_for(f.key) == s0.ledger_docs_for(f.key)
            &&& (e == SyncError::Fetch || e == SyncError::Load ==> s1.rows_for(f.key)
                == s0.rows_for(f.key))
            &&& (e == SyncError::Update || e == SyncError::DuplicateMetadata ==> s1.rows_for(f.key)
                == s0.rows_for(f.key) + loaded_rows(f, outcome))
        },
        Ok(()) => {
            &&& s1.rows_for(f.key) == s0.rows_for(f.key) + loaded_rows(f, outcome)
            &&& if s0.rows_for(f.key).len() + loaded_rows(f, outcome).len() == 0 {
                s1.ledger_docs_for(f.key) == s0.ledger_docs_for(f.key)
            } else {
                refreshed_ledger(s1, f.key, s0.rows_for(f.key) + loaded_rows(f, outcome), now)
            }
        },
    }
}

/// The rows a request's result must hold: the stored rows of its key in the
/// requested window, in ascending timestamp order.
pub open spec fn read_back(s: SeriesStore, req: SyncRequest, rows: Vec<SeriesRow>) -> bool {
    &&& sorted_by_ts(rows@)
    &&& rows@.to_multiset() == s.rows_in_window(
        req.key,
        req.requested_from as int,
        req.requested_to as int,
    ).to_multiset()
}

/// Whether some fetch in the list addresses the series key.
pub open spec fn has_fetch_for(fetches: Seq<FetchRequest>, k: SeriesKey) -> bool {
    exists|j: int| 0 <= j < fetches.len() && same_key((#[trigger] fetches[j]).key, k)
}

/// The position of the fetch addressing the series key.
pub open spec fn fetch_index_for(fetches: Seq<FetchRequest>, k: SeriesKey) -> int {
    choose|j: int| 0 <= j < fetches.len() && same_key((#[trigger] fetches[j]).key, k)
}

/// What one request's result is, judged against the pre-phase store (for
/// the error cases) and the post-phase store (for the rows read back): the
/// request's own resolution error; the data of an up-to-date series; its
/// fetch's error; or the stored rows of the requested range after the load.
pub open spec fn result_spec(
    s0: SeriesStore,
    s1: SeriesStore,
    req: SyncRequest,
    plan: Result<FetchPlan, SyncError>,
    fetches: Seq<FetchRequest>,
    outcomes: Seq<FetchOutcome>,
    res: Result<Vec<SeriesRow>, SyncError>,
) -> bool {
    match plan {
        Err(e) => res == Err::<Vec<SeriesRow>, SyncError>(e),
        Ok(FetchPlan::UpToDate) => res matches Ok(rows) && read_back(s1, req, rows),
        Ok(_) => {
            if has_fetch_for(fetches, req.key) {
                let j = fetch_index_for(fetches, req.key);
                match fetch_status_spec(s0, fetches[j], outcomes[j]) {
                    Err(e) => res == Err::<Vec<SeriesRow>, SyncError>(e),
                    Ok(()) => res matches Ok(rows) && read_back(s1, req, rows),
                }
            } else {
                res == Err::<Vec<SeriesRow>, SyncError>(SyncError::Fetch)
            }
        },
    }
}

impl SeriesStore {
    /// Phase two of a sync: loads each fetch's outcome once — normalizing
    /// the raw rows, bulk-appending them to the key's collection, and
    /// refreshing the key's ledger from what is then actually stored — and
    /// then reads back every request's requested range.  Failures are
    /// isolated per series: a failed fetch leaves its key's ledger untouched
    /// and eligible for retry, and series not addressed by any fetch are not
    /// changed at all.
    ///
    /// The fetches are expected to address pairwise distinct series, which
    /// is exactly what [`build_fetch_requests`] produces.
    pub fn complete_sync(
        &mut self,
        requests: &Vec<SyncRequest>,
        plans: &Vec<Result<FetchPlan, SyncError>>,
        fetches: &Vec<FetchRequest>,
        outcomes: &Vec<FetchOutcome>,
        now: i64,
    ) -> (results: Vec<Result<Vec<SeriesRow>, SyncError>>)
        requires
            old(self).wf(),
            valid_ts(now as int),
            plans@.len() == requests@.len(),
            outcomes@.len() == fetches@.len(),
            distinct_fetch_keys(fetches@),
        ensures
            final(self).wf(),
            results@.len() == requests@.len(),
            forall|j: int|
                0 <= j < fetches@.len() ==> applied_fetch(
                    *old(self),
                    *final(self),
                    #[trigger] fetches@[j],
                    outcomes@[j],
                    now,
                ),
            forall|k: SeriesKey|
                (forall|j: int|
                    0 <= j < fetches@.len() ==> !same_key(k, (#[trigger] fetches@[j]).key)) ==> (
                #[trigger] final(self).rows_for(k) == old(self).rows_for(k)
                    && final(self).ledger_docs_for(k) == old(self).ledger_docs_for(k)),
            forall|i: int|
                0 <= i < requests@.len() ==> result_spec(
                    *old(self),
                    *final(self),
                    requests@[i],
                    plans@[i],
                    fetches@,
                    outcomes@,
                    #[trigger] results@[i],
                ),
    {
        let m = fetches.len();
        let mut statuses: Vec<Result<(), SyncError>> = Vec::new();
        let mut j: usize = 0;
        while j < m
            invariant
                self.wf(),
                valid_ts(now as int),
                m == fetches@.len(),
                outcomes@.len() == m,
                j <= m,
                statuses@.len() == j,
                distinct_fetch_keys(fetches@),
                forall|k: SeriesKey|
                    (forall|x: int|
                        0 <= x < j ==> !same_key(k, (#[trigger] fetches@[x]).key)) ==> (
                    #[trigger] self.rows_for(k) == old(self).rows_for(k)
                        && self.ledger_docs_for(k) == old(self).ledger_docs_for(k)),
                forall|n: Seq<char>| #[trigger]
                    self.has_collection(n) == old(self).has_collection(n),
                forall|x: int|
                    0 <= x < j ==> applied_fetch(
                        *old(self),
                        *self,
                        #[trigger] fetches@[x],
                        outcomes@[x],
                        now,
                    ) && statuses@[x] == fetch_status_spec(*old(self), fetches@[x], outcomes@[x]),
            decreases m - j,
        {
            let f = &fetches[j];
            let ghost fkey = fetches@[j as int].key;
            let ghost s_pre = *self;
            proof {
                assert(forall|x: int| 0 <= x < j ==> !same_key(fkey, (#[trigger] fetches@[x]).key));
                assert(s_pre.rows_for(fkey) == old(self).rows_for(fkey));
                assert(s_pre.ledger_docs_for(fkey) == old(self).ledger_docs_for(fkey));
            }
            match &outcomes[j] {
                FetchOutcome::Failed => {
                    statuses.push(Err(SyncError::Fetch));
                    proof {
                        assert(fetch_status_spec(*old(self), fetches@[j as int], outcomes@[j as int])
                            == Err::<(), SyncError>(SyncError::Fetch));
                        assert forall|x: int| 0 <= x < j + 1 implies applied_fetch(
                            *old(self),
                            *self,
                            #[trigger] fetches@[x],
                            outcomes@[x],
                            now,
                        ) && statuses@[x] == fetch_status_spec(
                            *old(self),
                            fetches@[x],
                            outcomes@[x],
                        ) by {
                            if x < j {
                                assert(applied_fetch(*old(self), s_pre, fetches@[x], outcomes@[x],
                                    now));
                            }
                        }
                        assert forall|k: SeriesKey|
                            (forall|x: int|
                                0 <= x < j + 1 ==> !same_key(
                                    k,
                                    (#[trigger] fetches@[x]).key,
                                )) implies (self.rows_for(k) == old(self).rows_for(k)
                            && self.ledger_docs_for(k) == old(self).ledger_docs_for(k)) by {
                            assert(forall|x: int|
                                0 <= x < j ==> !same_key(k, (#[trigger] fetches@[x]).key));
                        }
                    }
                },
                FetchOutcome::Rows(raws) => {
                    let meta = crate::models::series_metadata_for(&f.key);
                    let (rows, _dropped) = normalize_rows(raws, &meta);
                    let ghost added = normalize_rows_spec(raws@, blob_of(fkey));
                    proof {
                        lemma_normalized_rows_blob(raws@, blob_of(fkey));
                        assert(rows@ == added);
                    }
                    let ins = self.insert_series(&f.key.series_name, rows);
                    let ghost s_ins = *self;
                    let status = match ins {
                        Err(e) => Err(e),
                        Ok(()) => {
                            match self.update_metadata_dates(&f.key, now) {
                                Err(e) => Err(e),
                                Ok(()) => Ok(()),
                            }
                        },
                    };
                    statuses.push(status);
                    proof {
                        let s0 = *old(self);
                        let fj = fetches@[j as int];
                        let oj = outcomes@[j as int];
                        let nm = fj.key.series_name@;
                        // This step touches only this fetch's key: rows
                        // appended for other keys filter to nothing, and the
                        // ledger update names only this key.
                        assert forall|k: SeriesKey| !same_key(k, fkey) implies (self.rows_for(k)
                            == s_pre.rows_for(k) && self.ledger_docs_for(k)
                            == s_pre.ledger_docs_for(k)) by {
                            if ins is Ok {
                                if k.series_name@ == nm {
                                    assert forall|x: int| 0 <= x < added.len() implies
                                        !row_matches_key(#[trigger] added[x], k) by {
                                        assert(added[x].metadata == blob_of(fkey));
                                        if row_matches_key(added[x], k) {
                                            assert(same_key(k, fkey));
                                        }
                                    }
                                    lemma_filter_none(
                                        added,
                                        |row: SeriesRow| row_matches_key(row, k),
                                    );
                                    assert(s_pre.rows_for(k) + Seq::<SeriesRow>::empty()
                                        =~= s_pre.rows_for(k));
                                }
                                assert(s_ins.rows_for(k) == s_pre.rows_for(k));
                                assert(s_ins.ledger_docs_for(k) == s_pre.ledger_docs_for(k));
                            } else {
                                assert(*self == s_pre);
                            }
                        }
                        // The rows now stored for this key are the old ones
                        // plus everything normalized from this outcome.
                        if ins is Ok {
                            assert forall|x: int| 0 <= x < added.len() implies row_matches_key(
                                #[trigger] added[x],
                                fkey,
                            ) by {
                                assert(added[x].metadata == blob_of(fkey));
                            }
                            lemma_filter_all(added, |row: SeriesRow| row_matches_key(row, fkey));
                            assert(s_ins.rows_for(fkey) == s_pre.rows_for(fkey) + added);
                            assert(s_ins.ledger_docs_for(fkey) == s_pre.ledger_docs_for(fkey));
                        }
                        assert(statuses@.last() == fetch_status_spec(s0, fj, oj));
                        assert(applied_fetch(s0, *self, fj, oj, now));
                        assert forall|x: int| 0 <= x < j + 1 implies applied_fetch(
                            s0,
                            *self,
                            #[trigger] fetches@[x],
                            outcomes@[x],
                            now,
                        ) && statuses@[x] == fetch_status_spec(s0, fetches@[x], outcomes@[x]) by {
                            if x < j {
                                assert(applied_fetch(s0, s_pre, fetches@[x], outcomes@[x], now));
                                assert(!same_key(fetches@[x].key, fkey));
                                assert(self.rows_for(fetches@[x].key) == s_pre.rows_for(
                                    fetches@[x].key,
                                ));
                                assert(self.ledger_docs_for(fetches@[x].key)
                                    == s_pre.ledger_docs_for(fetches@[x].key));
                            }
                        }
                        assert forall|k: SeriesKey|
                            (forall|x: int|
                                0 <= x < j + 1 ==> !same_key(
                                    k,
                                    (#[trigger] fetches@[x]).key,
                                )) implies (self.rows_for(k) == s0.rows_for(k)
                            && self.ledger_docs_for(k) == s0.ledger_docs_for(k)) by {
                            assert(!same_key(k, fkey));
                            assert(forall|x: int|
                                0 <= x < j ==> !same_key(k, (#[trigger] fetches@[x]).key));
                        }
                    }
                },
            }
            j = j + 1;
        }
        // Read back every request's requested range from the final store.
        let mut results: Vec<Result<Vec<SeriesRow>, SyncError>> = Vec::new();
        let n = requests.len();
        let mut i: usize = 0;
        while i < n
            invariant
                self.wf(),
                n == requests@.len(),
                plans@.len() == n,
                m == fetches@.len(),
                outcomes@.len() == m,
                statuses@.len() == m,
                i <= n,
                results@.len() == i,
                distinct_fetch_keys(fetches@),
                forall|x: int|
                    0 <= x < m ==> statuses@[x] == fetch_status_spec(
                        *old(self),
                        #[trigger] fetches@[x],
                        outcomes@[x],
                    ),
                forall|x: int|
                    0 <= x < i ==> result_spec(
                        *old(self),
                        *self,
                        requests@[x],
                        plans@[x],
                        fetches@,
                        outcomes@,
                        #[trigger] results@[x],
                    ),
            decreases n - i,
        {
            let req = &requests[i];
            let plan = plans[i];
            match plan {
                Err(e) => {
                    results.push(Err(e));
                },
                Ok(FetchPlan::UpToDate) => {
                    let rows = self.read_series(&req.key, req.requested_from, req.requested_to);
                    results.push(Ok(rows));
                },
                Ok(_) => {
                    match find_fetch_for(fetches, &req.key) {
                        None => {
                            results.push(Err(SyncError::Fetch));
                            proof {
                                assert(!has_fetch_for(fetches@, requests@[i as int].key));
                            }
                        },
                        Some(fj) => {
                            proof {
                                assert(has_fetch_for(fetches@, requests@[i as int].key));
                                let c = fetch_index_for(fetches@, requests@[i as int].key);
                                assert(0 <= c < m && same_key(
                                    fetches@[c].key,
                                    requests@[i as int].key,
                                ));
                                if c != fj as int {
                                    assert(same_key(fetches@[c].key, fetches@[fj as int].key));
                                    if c < fj as int {
                                        assert(!same_key(
                                            fetches@[c].key,
                                            fetches@[fj as int].key,
                                        ));
                                    } else {
                                        assert(!same_key(
                                            fetches@[fj as int].key,
                                            fetches@[c].key,
                                        ));
                                    }
                                }
                                assert(fetch_index_for(fetches@, requests@[i as int].key)
                                    == fj as int);
                            }
                            match statuses[fj] {
                                Err(e) => {
                                    results.push(Err(e));
                                },
                                Ok(()) => {
                                    let rows = self.read_series(
                                        &req.key,
                                        req.requested_from,
                                        req.requested_to,
                                    );
                                    results.push(Ok(rows));
                                },
                            }
                        },
                    }
                },
            }
            i = i + 1;
        }
        results
    }
}

/// Reads the system clock.
///
/// Relies on chrono::Utc::now and DateTime::timestamp_millis: the current
/// system time as milliseconds since the Unix epoch.  Nothing is promised
/// of the reading; note that chrono aborts the process when the system
/// clock reads a time before the epoch.
#[verifier::external_body]
fn system_time_millis() -> i64 {
    chrono::Utc::now().timestamp_millis()
}

/// The current time as a sync horizon, when the system clock reads a time
/// the engine's calendar can represent; nothing otherwise.
pub fn current_datetime_millis() -> (r: Option<i64>)
    ensures
        r matches Some(t) ==> valid_ts(t as int),
{
    let t = system_time_millis();
    if 0 <= t && t < MAX_TIMESTAMP_MS {
        Some(t)
    } else {
        None
    }
}

} // verus!
