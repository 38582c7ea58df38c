//! The engine's cross-component guarantees, stated and proved once over the
//! specification functions that the operations' own contracts use.

use vstd::prelude::*;

use crate::calendar::business_day_between;
use crate::engine::{
    applied_fetch, fetch_list_spec, fetch_status_spec, loaded_rows, planned_fetch,
    seeded_singleton, FetchOutcome, FetchRequest,
};
use crate::models::{row_matches_key, FetchPlan, SeriesKey, SeriesRow, SyncError, SyncRequest};
use crate::resolver::resolve_spec;
use crate::store::{
    is_max_ts, is_min_ts, lemma_filter_elements, sorted_by_ts, SeriesStore,
};

verus! {

/// A first sync of a new series produces exactly one ledger entry, and its
/// range is the true minimum and maximum timestamp of the rows actually
/// inserted — never the requested range.
///
/// `s1` is the store after the preparation phase seeded the new series (so
/// nothing is stored for the key yet), `s2` the store after the completion
/// phase applied a successful, non-empty fetch for it.
pub proof fn lemma_new_series_ledger(
    s1: SeriesStore,
    s2: SeriesStore,
    f: FetchRequest,
    outcome: FetchOutcome,
    now: i64,
)
    requires
        seeded_singleton(s1, f.key, now),
        s1.rows_for(f.key).len() == 0,
        applied_fetch(s1, s2, f, outcome, now),
        fetch_status_spec(s1, f, outcome) == Ok::<(), SyncError>(()),
        loaded_rows(f, outcome).len() > 0,
    ensures
        s2.ledger_docs_for(f.key).len() == 1,
        s2.rows_for(f.key) == loaded_rows(f, outcome),
        is_min_ts(loaded_rows(f, outcome), s2.ledger_docs_for(f.key)[0].from as int),
        is_max_ts(loaded_rows(f, outcome), s2.ledger_docs_for(f.key)[0].to as int),
        s2.ledger_docs_for(f.key)[0].last_updated == now,
{
    assert(s1.rows_for(f.key) + loaded_rows(f, outcome) =~= loaded_rows(f, outcome));
}

/// Idempotence of an immediate second sync: when every requested series
/// already has its single ledger entry and no business day lies between the
/// entry's `to` and the sync horizon, the resolver answers `UpToDate` for
/// every request, and the batch plans no vendor call at all.
pub proof fn lemma_second_sync_up_to_date(
    s: SeriesStore,
    reqs: Seq<SyncRequest>,
    plans: Seq<Result<FetchPlan, SyncError>>,
    now: i64,
)
    requires
        plans.len() == reqs.len(),
        forall|i: int|
            0 <= i < reqs.len() ==> s.ledger_docs_for((#[trigger] reqs[i]).key).len() == 1,
        forall|i: int|
            0 <= i < reqs.len() ==> !business_day_between(
                s.ledger_docs_for((#[trigger] reqs[i]).key)[0].to as int,
                now as int,
            ),
        forall|i: int|
            0 <= i < reqs.len() ==> #[trigger] plans[i] == resolve_spec(s, reqs[i].key, now),
    ensures
        forall|i: int|
            0 <= i < plans.len() ==> #[trigger] plans[i] == Ok::<FetchPlan, SyncError>(
                FetchPlan::UpToDate,
            ),
        fetch_list_spec(reqs, plans) == Seq::<FetchRequest>::empty(),
{
    assert(forall|i: int|
        0 <= i < plans.len() ==> #[trigger] plans[i] == Ok::<FetchPlan, SyncError>(
            FetchPlan::UpToDate,
        ));
    lemma_no_planned_fetches(reqs, plans);
}

/// A batch whose plans call for no fetch produces an empty fetch list.
pub proof fn lemma_no_planned_fetches(
    reqs: Seq<SyncRequest>,
    plans: Seq<Result<FetchPlan, SyncError>>,
)
    requires
        forall|i: int|
            0 <= i < reqs.len() && i < plans.len() ==> planned_fetch(
                reqs[i],
                #[trigger] plans[i],
            ) is None,
    ensures
        fetch_list_spec(reqs, plans) == Seq::<FetchRequest>::empty(),
    decreases reqs.len(),
{
    if reqs.len() > 0 && plans.len() >= reqs.len() {
        lemma_no_planned_fetches(reqs.drop_last(), plans.take(reqs.len() - 1));
    }
}

/// Gap extension: a series with an existing ledger entry `[D1, D2]` and an
/// elapsed business day is planned as a fetch of exactly `[D2, now]` —
/// never re-fetching from `D1`.
pub proof fn lemma_gap_extension(s: SeriesStore, key: SeriesKey, now: i64)
    requires
        s.ledger_docs_for(key).len() == 1,
        business_day_between(s.ledger_docs_for(key)[0].to as int, now as int),
    ensures
        resolve_spec(s, key, now) == Ok::<FetchPlan, SyncError>(
            FetchPlan::Extend { from: s.ledger_docs_for(key)[0].to, to: now },
        ),
{
}

/// Duplicate-metadata detection: a series key with more than one ledger
/// entry is reported as the duplicate-metadata corruption, not planned.
pub proof fn lemma_duplicate_metadata_detected(s: SeriesStore, key: SeriesKey, now: i64)
    requires
        s.ledger_docs_for(key).len() > 1,
    ensures
        resolve_spec(s, key, now) == Err::<FetchPlan, SyncError>(SyncError::DuplicateMetadata),
{
}

/// Partial-failure isolation: within one completed batch, a failed fetch
/// leaves its own series' rows and ledger exactly as they were (safe to
/// retry next cycle), while a successful fetch for another series in the
/// same batch completes and has its ledger refreshed.
pub proof fn lemma_failure_isolated(
    s0: SeriesStore,
    s1: SeriesStore,
    fa: FetchRequest,
    fb: FetchRequest,
    ob: FetchOutcome,
    now: i64,
)
    requires
        applied_fetch(s0, s1, fa, FetchOutcome::Failed, now),
        applied_fetch(s0, s1, fb, ob, now),
        fetch_status_spec(s0, fb, ob) == Ok::<(), SyncError>(()),
        s0.rows_for(fb.key).len() + loaded_rows(fb, ob).len() > 0,
    ensures
        s1.ledger_docs_for(fa.key) == s0.ledger_docs_for(fa.key),
        s1.rows_for(fa.key) == s0.rows_for(fa.key),
        s1.rows_for(fb.key) == s0.rows_for(fb.key) + loaded_rows(fb, ob),
        s1.ledger_docs_for(fb.key).len() == 1,
        is_min_ts(s0.rows_for(fb.key) + loaded_rows(fb, ob), s1.ledger_docs_for(fb.key)[0].from as int),
        is_max_ts(s0.rows_for(fb.key) + loaded_rows(fb, ob), s1.ledger_docs_for(fb.key)[0].to as int),
        s1.ledger_docs_for(fb.key)[0].last_updated == now,
{
}

/// A sequence whose elements all carry pairwise distinct timestamps holds
/// pairwise distinct values.
proof fn lemma_distinct_ts_no_duplicates(s: Seq<SeriesRow>)
    requires
        forall|a: int, b: int| 0 <= a < b < s.len() ==> s[a].datetime != s[b].datetime,
    ensures
        s.no_duplicates(),
{
    assert forall|a: int, b: int| 0 <= a < b < s.len() implies s[a] != s[b] by {
        assert(s[a].datetime != s[b].datetime);
    }
}

/// Filtering keeps a duplicate-free sequence duplicate free.
proof fn lemma_filter_no_duplicates<A>(s: Seq<A>, pred: spec_fn(A) -> bool)
    requires
        s.no_duplicates(),
    ensures
        s.filter(pred).no_duplicates(),
    decreases s.len(),
{
    reveal(Seq::filter);
    if s.len() > 0 {
        let prefix = s.drop_last();
        lemma_filter_no_duplicates(prefix, pred);
        if pred(s.last()) {
            lemma_filter_elements(prefix, pred);
            assert forall|i: int, j: int|
                0 <= i < j < s.filter(pred).len() implies s.filter(pred)[i] != s.filter(
                pred,
            )[j] by {
                if j == s.filter(pred).len() - 1 {
                    assert(s.filter(pred)[j] == s.last());
                    assert(prefix.contains(prefix.filter(pred)[i]));
                    let w = choose|w: int| 0 <= w < prefix.len() && prefix[w] == prefix.filter(pred)[i];
                    assert(s[w] == prefix.filter(pred)[i]);
                    assert(s[w] != s.last());
                }
            }
        }
    }
}

/// Round trip: rows loaded for a series are retrievable for any sub-range —
/// the reader returns, in ascending timestamp order and without duplicates,
/// exactly the loaded rows whose timestamps fall in the window.
///
/// `s1` is the store after the load appended `rows` for the key into a
/// window that held nothing; `out` is what the reader returned for the
/// window.  The hypotheses are the loader's and reader's own contracts; the
/// distinct-timestamp hypothesis is the non-overlap the gap resolver
/// guarantees upstream.
pub proof fn lemma_round_trip(
    s0: SeriesStore,
    s1: SeriesStore,
    k: SeriesKey,
    rows: Seq<SeriesRow>,
    out: Seq<SeriesRow>,
    from: int,
    to: int,
)
    requires
        s0.rows_in_window(k, from, to).len() == 0,
        s1.rows_in_window(k, from, to) == s0.rows_in_window(k, from, to) + rows.filter(
            |row: SeriesRow| row_matches_key(row, k) && from <= row.datetime <= to,
        ),
        sorted_by_ts(out),
        out.to_multiset() == s1.rows_in_window(k, from, to).to_multiset(),
        forall|a: int, b: int| 0 <= a < b < rows.len() ==> rows[a].datetime != rows[b].datetime,
    ensures
        sorted_by_ts(out),
        out.to_multiset() == rows.filter(
            |row: SeriesRow| row_matches_key(row, k) && from <= row.datetime <= to,
        ).to_multiset(),
        out.no_duplicates(),
{
    let pred = |row: SeriesRow| row_matches_key(row, k) && from <= row.datetime <= to;
    let kept = rows.filter(pred);
    assert(s0.rows_in_window(k, from, to) + kept =~= kept);
    lemma_distinct_ts_no_duplicates(rows);
    lemma_filter_no_duplicates(rows, pred);
    kept.lemma_multiset_has_no_duplicates();
    assert forall|x: SeriesRow| out.to_multiset().contains(x) implies out.to_multiset().count(x)
        == 1 by {
        assert(kept.to_multiset().contains(x));
    }
    out.lemma_multiset_has_no_duplicates_conv();
}

} // verus!
