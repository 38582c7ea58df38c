//! The gap resolver: decides, from the metadata ledger alone, what must be
//! fetched for one requested series.

use vstd::prelude::*;

use crate::calendar::{business_day_between, valid_ts, EPOCH_START_MS};
use crate::models::{FetchPlan, SeriesKey, SyncError, SyncRequest};
use crate::store::SeriesStore;

verus! {

/// What the resolver decides for a series key at sync horizon `now`:
/// - no ledger entry: the series is new — fetch the full range from the
///   epoch-start sentinel to `now`;
/// - one ledger entry: fetch only the extension beyond the last synced
///   point, and only when at least one business day lies in the elapsed
///   window `(entry.to, now]` — otherwise the series is up to date and is
///   skipped entirely for this cycle;
/// - more than one entry: the ledger is corrupt for this key — report it,
///   never auto-merge.
pub open spec fn resolve_spec(s: SeriesStore, key: SeriesKey, now: i64) -> Result<
    FetchPlan,
    SyncError,
> {
    let docs = s.ledger_docs_for(key);
    if docs.len() == 0 {
        Ok(FetchPlan::NewSeries { from: EPOCH_START_MS, to: now })
    } else if docs.len() == 1 {
        if business_day_between(docs[0].to as int, now as int) {
            Ok(FetchPlan::Extend { from: docs[0].to, to: now })
        } else {
            Ok(FetchPlan::UpToDate)
        }
    } else {
        Err(SyncError::DuplicateMetadata)
    }
}

impl SeriesStore {
    /// Resolves the fetch plan for one sync request against the current
    /// ledger.  A pure query: the store is not changed.
    pub fn resolve(&self, request: &SyncRequest, now: i64) -> (r: Result<FetchPlan, SyncError>)
        requires
            self.wf(),
            valid_ts(now as int),
        ensures
            r == resolve_spec(*self, request.key, now),
    {
        let docs = self.metadata_for(&request.key);
        if docs.len() == 0 {
            Ok(FetchPlan::NewSeries { from: EPOCH_START_MS, to: now })
        } else if docs.len() == 1 {
            if crate::calendar::has_business_day_between(docs[0].to, now) {
                Ok(FetchPlan::Extend { from: docs[0].to, to: now })
            } else {
                Ok(FetchPlan::UpToDate)
            }
        } else {
            Err(SyncError::DuplicateMetadata)
        }
    }
}

} // verus!
