use molly_db::calendar::string_to_datetime;
use molly_db::engine::{build_fetch_requests, current_datetime_millis, FetchOutcome, FetchRequest};
use molly_db::models::{
    FetchPlan, RawField, RawRow, RawValue, SeriesKey, SeriesRow, SyncError, SyncRequest,
};
use molly_db::store::SeriesStore;

fn key(ticker: &str, series: &str) -> SeriesKey {
    SeriesKey {
        ticker: ticker.to_string(),
        exchange: "US".to_string(),
        series_name: series.to_string(),
        source: "eod".to_string(),
    }
}

fn request(ticker: &str, series: &str, from: &str, to: &str) -> SyncRequest {
    SyncRequest {
        key: key(ticker, series),
        requested_from: string_to_datetime(from).unwrap(),
        requested_to: string_to_datetime(to).unwrap(),
    }
}

fn raw_row(date: &str, close: f64, volume: i64) -> RawRow {
    RawRow {
        fields: vec![
            RawField {
                name: "date".to_string(),
                value: RawValue::Text(date.to_string()),
            },
            RawField {
                name: "open".to_string(),
                value: RawValue::Real((close - 1.0).to_bits()),
            },
            RawField {
                name: "high".to_string(),
                value: RawValue::Real((close + 1.0).to_bits()),
            },
            RawField {
                name: "low".to_string(),
                value: RawValue::Real((close - 2.0).to_bits()),
            },
            RawField {
                name: "close".to_string(),
                value: RawValue::Real(close.to_bits()),
            },
            RawField {
                name: "adjusted_close".to_string(),
                value: RawValue::Real(close.to_bits()),
            },
            RawField { name: "volume".to_string(), value: RawValue::Int(volume) },
        ],
    }
}

/// Runs one full sync cycle: resolve plans, build the deduplicated vendor
/// calls, answer them with `vendor`, and complete.
fn run_sync(
    store: &mut SeriesStore,
    requests: &Vec<SyncRequest>,
    vendor: &dyn Fn(&FetchRequest) -> FetchOutcome,
    now: i64,
) -> (
    Vec<Result<FetchPlan, SyncError>>,
    Vec<FetchRequest>,
    Vec<Result<Vec<SeriesRow>, SyncError>>,
) {
    let plans = store.prepare_sync(requests, now);
    let fetches = build_fetch_requests(requests, &plans);
    let outcomes: Vec<FetchOutcome> = fetches.iter().map(|f| vendor(f)).collect();
    let results = store.complete_sync(requests, &plans, &fetches, &outcomes, now);
    (plans, fetches, results)
}

fn aapl_vendor_rows() -> Vec<RawRow> {
    vec![
        raw_row("1980-12-12", 28.75, 2093900),
        raw_row("1980-12-15", 27.25, 785200),
        raw_row("1980-12-16", 25.37, 472000),
        raw_row("2023-12-29", 192.53, 42628800),
    ]
}

/// The ordering and contents of what the store returns equal the vendor's
/// own data: inserting a series and reading it back yields the same rows in
/// the same (ascending) order.
#[test]
fn test_run() {
    let mut store = SeriesStore::new();
    let now = string_to_datetime("2023-12-29").unwrap();
    let requests = vec![request("AAPL", "equity_spot_1d", "1970-01-01", "2023-12-29")];
    let (plans, fetches, results) = run_sync(
        &mut store,
        &requests,
        &|_f| FetchOutcome::Rows(aapl_vendor_rows()),
        now,
    );
    assert!(matches!(plans[0], Ok(FetchPlan::NewSeries { .. })));
    assert_eq!(fetches.len(), 1);
    let rows = results[0].as_ref().unwrap();
    let vendor = aapl_vendor_rows();
    assert_eq!(rows.len(), vendor.len());
    // Same dates in ascending order, same payload values.
    assert_eq!(rows[0].datetime, string_to_datetime("1980-12-12").unwrap());
    assert_eq!(rows[0].close, Some(28.75_f64.to_bits()));
    assert_eq!(rows[0].volume, Some(2093900));
    assert_eq!(rows[1].datetime, string_to_datetime("1980-12-15").unwrap());
    assert_eq!(rows[2].datetime, string_to_datetime("1980-12-16").unwrap());
    assert_eq!(rows[3].datetime, string_to_datetime("2023-12-29").unwrap());
    assert_eq!(rows[3].close, Some(192.53_f64.to_bits()));
}

/// A sync of a series with no prior ledger entry produces exactly one
/// ledger document whose range is the true min and max of the rows actually
/// inserted, not the requested range.
#[test]
fn new_series_gets_one_ledger_document_with_true_range() {
    let mut store = SeriesStore::new();
    let now = string_to_datetime("2024-01-01").unwrap();
    let requests = vec![request("AAPL", "equity_spot_1d", "1970-01-01", "2024-01-01")];
    run_sync(
        &mut store,
        &requests,
        &|_f| FetchOutcome::Rows(aapl_vendor_rows()),
        now,
    );
    let docs = store.metadata_for(&requests[0].key);
    assert_eq!(docs.len(), 1);
    // The instrument's true first trading day, not the requested 1970-01-01.
    assert_eq!(docs[0].from, string_to_datetime("1980-12-12").unwrap());
    assert_eq!(docs[0].to, string_to_datetime("2023-12-29").unwrap());
    assert_eq!(docs[0].last_updated, now);
}

/// The example request on an empty store: one new metadata document whose
/// `from` is the first available trading day and whose `to` is the last
/// available trading day on or before the horizon.
#[test]
fn example_request_on_empty_store() {
    let mut store = SeriesStore::new();
    let now = string_to_datetime("2024-01-01").unwrap();
    let requests = vec![request("AAPL", "equity_spot_1d", "1970-01-01", "2024-01-01")];
    let (plans, _fetches, results) = run_sync(
        &mut store,
        &requests,
        &|_f| FetchOutcome::Rows(aapl_vendor_rows()),
        now,
    );
    assert_eq!(plans.len(), 1);
    match plans[0] {
        Ok(FetchPlan::NewSeries { from, to }) => {
            assert_eq!(from, 0);
            assert_eq!(to, now);
        }
        other => panic!("unexpected plan {:?}", other),
    }
    let docs = store.metadata_for(&requests[0].key);
    assert_eq!(docs.len(), 1);
    assert!(docs[0].from > string_to_datetime("1970-01-01").unwrap());
    assert_eq!(docs[0].from, string_to_datetime("1980-12-12").unwrap());
    assert!(docs[0].to <= now);
    assert_eq!(docs[0].to, string_to_datetime("2023-12-29").unwrap());
    assert_eq!(results[0].as_ref().unwrap().len(), 4);
}

/// Running the sync twice in immediate succession performs zero additional
/// fetches and zero additional writes: the second run resolves to
/// `UpToDate` for every series.
#[test]
fn second_run_is_idempotent() {
    let mut store = SeriesStore::new();
    let now = string_to_datetime("2023-12-29").unwrap();
    let requests = vec![request("AAPL", "equity_spot_1d", "1970-01-01", "2023-12-29")];
    run_sync(
        &mut store,
        &requests,
        &|_f| FetchOutcome::Rows(aapl_vendor_rows()),
        now,
    );
    let docs_before = store.metadata_for(&requests[0].key);
    let rows_before = store.read_series(&requests[0].key, 0, now);

    let (plans, fetches, results) = run_sync(
        &mut store,
        &requests,
        &|_f| panic!("the second run must not fetch"),
        now,
    );
    assert!(matches!(plans[0], Ok(FetchPlan::UpToDate)));
    assert_eq!(fetches.len(), 0);
    // No additional writes: the ledger and the stored rows are unchanged.
    let docs_after = store.metadata_for(&requests[0].key);
    assert_eq!(docs_after.len(), 1);
    assert_eq!(docs_after[0].from, docs_before[0].from);
    assert_eq!(docs_after[0].to, docs_before[0].to);
    assert_eq!(docs_after[0].last_updated, docs_before[0].last_updated);
    let rows_after = store.read_series(&requests[0].key, 0, now);
    assert_eq!(rows_after.len(), rows_before.len());
    // The caller still receives the series' data.
    assert_eq!(results[0].as_ref().unwrap().len(), rows_before.len());
}

/// Rows inserted for a range are retrievable for any sub-range, ascending,
/// with no duplicates.
#[test]
fn round_trip_sub_range() {
    let mut store = SeriesStore::new();
    let now = string_to_datetime("2023-12-29").unwrap();
    let requests = vec![request("AAPL", "equity_spot_1d", "1970-01-01", "2023-12-29")];
    run_sync(
        &mut store,
        &requests,
        &|_f| FetchOutcome::Rows(aapl_vendor_rows()),
        now,
    );
    let sub = store.read_series(
        &requests[0].key,
        string_to_datetime("1980-12-13").unwrap(),
        string_to_datetime("1980-12-16").unwrap(),
    );
    assert_eq!(sub.len(), 2);
    assert_eq!(sub[0].datetime, string_to_datetime("1980-12-15").unwrap());
    assert_eq!(sub[1].datetime, string_to_datetime("1980-12-16").unwrap());
    for w in sub.windows(2) {
        assert!(w[0].datetime < w[1].datetime);
    }
}

/// Gap extension: with an existing ledger `[D1, D2]` and an elapsed
/// business day, the plan requests exactly `[D2, now]` — never `[D1, now]`.
#[test]
fn gap_extension_fetches_only_the_extension() {
    let mut store = SeriesStore::new();
    let now1 = string_to_datetime("2023-12-29").unwrap();
    let requests = vec![request("AAPL", "equity_spot_1d", "1970-01-01", "2024-01-02")];
    run_sync(
        &mut store,
        &requests,
        &|_f| FetchOutcome::Rows(aapl_vendor_rows()),
        now1,
    );
    let d1 = string_to_datetime("1980-12-12").unwrap();
    let d2 = string_to_datetime("2023-12-29").unwrap();
    let docs = store.metadata_for(&requests[0].key);
    assert_eq!((docs[0].from, docs[0].to), (d1, d2));

    // 2024-01-02 is a Tuesday: business days have elapsed since D2.
    let now2 = string_to_datetime("2024-01-02").unwrap();
    let plans = store.prepare_sync(&requests, now2);
    match plans[0] {
        Ok(FetchPlan::Extend { from, to }) => {
            assert_eq!(from, d2);
            assert_ne!(from, d1);
            assert_eq!(to, now2);
        }
        other => panic!("unexpected plan {:?}", other),
    }
}

/// Two ledger documents for one series key are reported as the
/// duplicate-metadata corruption and exclude that key, while unrelated keys
/// in the same batch sync normally.
#[test]
fn duplicate_metadata_is_reported_and_isolated() {
    let mut store = SeriesStore::new();
    let corrupted = request("AAPL", "equity_spot_1d", "1970-01-01", "2024-01-01");
    let healthy = request("MSFT", "equity_spot_1d", "1970-01-01", "2024-01-01");
    let now = string_to_datetime("2023-12-29").unwrap();
    // Seed two metadata documents for the same key.
    store.ensure_series_storage(&corrupted.key.series_name).unwrap();
    store.insert_metadata(&corrupted.key, now).unwrap();
    store.insert_metadata(&corrupted.key, now).unwrap();

    let requests = vec![corrupted, healthy];
    let (plans, fetches, results) = run_sync(
        &mut store,
        &requests,
        &|_f| FetchOutcome::Rows(vec![raw_row("2023-12-28", 370.0, 100)]),
        now,
    );
    assert_eq!(plans[0], Err(SyncError::DuplicateMetadata));
    assert!(matches!(results[0], Err(SyncError::DuplicateMetadata)));
    // The corrupted key was not auto-healed: still two documents.
    assert_eq!(store.metadata_for(&requests[0].key).len(), 2);
    // The unrelated key synced normally.
    assert_eq!(fetches.len(), 1);
    assert_eq!(results[1].as_ref().unwrap().len(), 1);
    let msft_docs = store.metadata_for(&requests[1].key);
    assert_eq!(msft_docs.len(), 1);
    assert_eq!(msft_docs[0].from, string_to_datetime("2023-12-28").unwrap());
}

/// A fetch failure for one key does not prevent another key in the same
/// batch from completing and having its ledger updated; the failed key's
/// ledger stays untouched and retryable.
#[test]
fn fetch_failure_is_isolated_per_key() {
    let mut store = SeriesStore::new();
    let now = string_to_datetime("2023-12-29").unwrap();
    let requests = vec![
        request("AAPL", "equity_spot_1d", "1970-01-01", "2024-01-01"),
        request("MSFT", "equity_spot_1d", "1970-01-01", "2024-01-01"),
    ];
    let (_plans, fetches, results) = run_sync(
        &mut store,
        &requests,
        &|f| {
            if f.key.ticker == "AAPL" {
                FetchOutcome::Failed
            } else {
                FetchOutcome::Rows(vec![raw_row("2023-12-28", 370.0, 100)])
            }
        },
        now,
    );
    assert_eq!(fetches.len(), 2);
    assert!(matches!(results[0], Err(SyncError::Fetch)));
    // The failed key keeps its freshly seeded ledger untouched by the load
    // phase, so the next cycle can retry it.
    let aapl_docs = store.metadata_for(&requests[0].key);
    assert_eq!(aapl_docs.len(), 1);
    assert_eq!(aapl_docs[0].from, 0);
    assert_eq!(aapl_docs[0].to, now);
    assert_eq!(store.read_series(&requests[0].key, 0, now).len(), 0);
    // The other key completed fully.
    let msft_rows = results[1].as_ref().unwrap();
    assert_eq!(msft_rows.len(), 1);
    let msft_docs = store.metadata_for(&requests[1].key);
    assert_eq!(msft_docs[0].from, string_to_datetime("2023-12-28").unwrap());
    assert_eq!(msft_docs[0].to, string_to_datetime("2023-12-28").unwrap());
}

/// Identical requests in one batch collapse to a single vendor call.
#[test]
fn duplicate_requests_fetch_once() {
    let mut store = SeriesStore::new();
    let now = string_to_datetime("2023-12-29").unwrap();
    let requests = vec![
        request("AAPL", "equity_spot_1d", "1970-01-01", "2024-01-01"),
        request("AAPL", "equity_spot_1d", "1970-01-01", "2024-01-01"),
    ];
    let (_plans, fetches, results) = run_sync(
        &mut store,
        &requests,
        &|_f| FetchOutcome::Rows(aapl_vendor_rows()),
        now,
    );
    assert_eq!(fetches.len(), 1);
    // Both requests get the data, and the rows were loaded only once.
    assert_eq!(results[0].as_ref().unwrap().len(), 4);
    assert_eq!(results[1].as_ref().unwrap().len(), 4);
    assert_eq!(store.read_series(&requests[0].key, 0, now).len(), 4);
    assert_eq!(store.metadata_for(&requests[0].key).len(), 1);
}

/// The clock wrapper reports a representable, plausible current time.
#[test]
fn current_time_is_in_range() {
    let t = current_datetime_millis().unwrap();
    // After 2020-01-01 and within the supported calendar range.
    assert!(t > string_to_datetime("2020-01-01").unwrap());
    assert!(t < molly_db::calendar::MAX_TIMESTAMP_MS);
}
