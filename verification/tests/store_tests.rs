use molly_db::calendar::string_to_datetime;
use molly_db::models::{
    granularity_for, series_metadata_for, EodExchangeTypes, Granularity, OhlcvMetaData,
    OhlcvMetadata, RawField, RawRow, RawValue, SeriesKey, SeriesRow, SyncError,
};
use molly_db::normalize::normalize_rows;
use molly_db::store::SeriesStore;

fn key(ticker: &str, series: &str) -> SeriesKey {
    SeriesKey {
        ticker: ticker.to_string(),
        exchange: "US".to_string(),
        series_name: series.to_string(),
        source: "eod".to_string(),
    }
}

fn row_for(k: &SeriesKey, date: &str, close: f64) -> SeriesRow {
    SeriesRow {
        datetime: string_to_datetime(date).unwrap(),
        open: Some(close.to_bits()),
        high: Some(close.to_bits()),
        low: Some(close.to_bits()),
        close: Some(close.to_bits()),
        adjusted_close: Some(close.to_bits()),
        volume: Some(1000),
        metadata: series_metadata_for(k),
    }
}

#[test]
fn granularity_follows_name_suffix() {
    assert_eq!(granularity_for("equity_spot_1d"), Some(Granularity::Hours));
    assert_eq!(granularity_for("equity_spot_1h"), Some(Granularity::Hours));
    assert_eq!(granularity_for("crypto_spot_5m"), Some(Granularity::Minutes));
    assert_eq!(granularity_for("tick_1s"), Some(Granularity::Seconds));
    assert_eq!(granularity_for("equity_spot_1x"), None);
    assert_eq!(granularity_for(""), None);
}

#[test]
fn provisioning_is_idempotent_and_rejects_bad_suffixes() {
    let mut store = SeriesStore::new();
    let name = "equity_spot_1d".to_string();
    assert_eq!(store.ensure_series_storage(&name), Ok(()));
    assert_eq!(store.collections.len(), 1);
    // Ensuring again neither fails nor creates a second collection pair.
    assert_eq!(store.ensure_series_storage(&name), Ok(()));
    assert_eq!(store.collections.len(), 1);
    // An unrecognized granularity suffix is a provisioning error.
    let bad = "equity_spot_1x".to_string();
    assert_eq!(store.ensure_series_storage(&bad), Err(SyncError::Provision));
    assert_eq!(store.collections.len(), 1);
}

#[test]
fn loading_into_missing_collection_is_a_load_error() {
    let mut store = SeriesStore::new();
    let k = key("AAPL", "equity_spot_1d");
    let rows = vec![row_for(&k, "2024-01-03", 185.0)];
    assert_eq!(
        store.insert_series(&"equity_spot_1d".to_string(), rows),
        Err(SyncError::Load)
    );
}

#[test]
fn loading_empty_rows_is_a_no_op() {
    let mut store = SeriesStore::new();
    let name = "equity_spot_1d".to_string();
    store.ensure_series_storage(&name).unwrap();
    assert_eq!(store.insert_series(&name, Vec::new()), Ok(()));
    assert_eq!(store.collections[0].rows.len(), 0);
}

#[test]
fn refresh_without_ledger_entry_is_an_update_error() {
    let mut store = SeriesStore::new();
    let k = key("AAPL", "equity_spot_1d");
    // No collection at all.
    assert_eq!(store.update_metadata_dates(&k, 1000), Err(SyncError::Update));
    // Collection, but no ledger entry.
    store.ensure_series_storage(&k.series_name).unwrap();
    assert_eq!(store.update_metadata_dates(&k, 1000), Err(SyncError::Update));
    // Seeding into a missing collection is likewise an update error.
    let other = key("AAPL", "crypto_spot_5m");
    assert!(store.insert_metadata(&other, 1000).is_err());
}

#[test]
fn refresh_with_no_stored_rows_preserves_ledger() {
    let mut store = SeriesStore::new();
    let k = key("AAPL", "equity_spot_1d");
    store.ensure_series_storage(&k.series_name).unwrap();
    let now = string_to_datetime("2024-01-05").unwrap();
    let seeded = store.insert_metadata(&k, now).unwrap();
    assert_eq!(seeded.from, 0);
    assert_eq!(seeded.to, now);
    // Nothing stored for the key: the prior ledger values stay unchanged.
    assert_eq!(store.update_metadata_dates(&k, now + 1), Ok(()));
    let docs = store.metadata_for(&k);
    assert_eq!(docs.len(), 1);
    assert_eq!(docs[0].from, 0);
    assert_eq!(docs[0].to, now);
    assert_eq!(docs[0].last_updated, now);
}

#[test]
fn refresh_records_true_min_and_max() {
    let mut store = SeriesStore::new();
    let k = key("AAPL", "equity_spot_1d");
    store.ensure_series_storage(&k.series_name).unwrap();
    let now = string_to_datetime("2024-01-05").unwrap();
    store.insert_metadata(&k, now).unwrap();
    let rows = vec![
        row_for(&k, "2024-01-03", 185.0),
        row_for(&k, "2024-01-02", 184.0),
        row_for(&k, "2024-01-04", 186.0),
    ];
    store.insert_series(&k.series_name, rows).unwrap();
    store.update_metadata_dates(&k, now).unwrap();
    let docs = store.metadata_for(&k);
    assert_eq!(docs.len(), 1);
    assert_eq!(docs[0].from, string_to_datetime("2024-01-02").unwrap());
    assert_eq!(docs[0].to, string_to_datetime("2024-01-04").unwrap());
    assert_eq!(docs[0].last_updated, now);
}

#[test]
fn read_series_filters_sorts_and_ignores_other_keys() {
    let mut store = SeriesStore::new();
    let k = key("AAPL", "equity_spot_1d");
    let other = key("MSFT", "equity_spot_1d");
    store.ensure_series_storage(&k.series_name).unwrap();
    let rows = vec![
        row_for(&k, "2024-01-04", 186.0),
        row_for(&other, "2024-01-03", 370.0),
        row_for(&k, "2024-01-02", 184.0),
        row_for(&k, "2024-01-03", 185.0),
    ];
    store.insert_series(&k.series_name, rows).unwrap();
    // The full window comes back ascending by timestamp, only this key's rows.
    let got = store.read_series(&k, 0, i64::MAX >> 1);
    assert_eq!(got.len(), 3);
    assert_eq!(got[0].datetime, string_to_datetime("2024-01-02").unwrap());
    assert_eq!(got[1].datetime, string_to_datetime("2024-01-03").unwrap());
    assert_eq!(got[2].datetime, string_to_datetime("2024-01-04").unwrap());
    assert_eq!(got[1].close, Some(185.0_f64.to_bits()));
    // A sub-range is filtered with inclusive bounds.
    let sub = store.read_series(
        &k,
        string_to_datetime("2024-01-03").unwrap(),
        string_to_datetime("2024-01-04").unwrap(),
    );
    assert_eq!(sub.len(), 2);
    assert_eq!(sub[0].datetime, string_to_datetime("2024-01-03").unwrap());
    // Reading a key that was never provisioned yields nothing.
    let missing = key("AAPL", "crypto_spot_5m");
    assert_eq!(store.read_series(&missing, 0, i64::MAX >> 1).len(), 0);
}

#[test]
fn normalizer_maps_fields_by_schema() {
    let k = key("AAPL", "equity_spot_1d");
    let blob = series_metadata_for(&k);
    let raws = vec![RawRow {
        fields: vec![
            RawField {
                name: "date".to_string(),
                value: RawValue::Text("2024-01-03".to_string()),
            },
            RawField {
                name: "open".to_string(),
                value: RawValue::Real(184.25_f64.to_bits()),
            },
            RawField {
                name: "close".to_string(),
                value: RawValue::Text("not a number".to_string()),
            },
            RawField { name: "volume".to_string(), value: RawValue::Int(123456) },
            RawField { name: "unknown_column".to_string(), value: RawValue::Int(7) },
            RawField { name: "high".to_string(), value: RawValue::Null },
        ],
    }];
    let (rows, dropped) = normalize_rows(&raws, &blob);
    assert_eq!(dropped, 0);
    assert_eq!(rows.len(), 1);
    let row = &rows[0];
    assert_eq!(row.datetime, string_to_datetime("2024-01-03").unwrap());
    assert_eq!(row.open, Some(184.25_f64.to_bits()));
    // A field of the wrong shape is omitted, not fatal for the row.
    assert_eq!(row.close, None);
    // An explicit null is omitted too.
    assert_eq!(row.high, None);
    assert_eq!(row.volume, Some(123456));
    assert_eq!(row.metadata.ticker, "AAPL".to_string());
    assert_eq!(row.metadata.metadata_collection_name, "equity_spot_1d".to_string());
}

#[test]
fn normalizer_drops_rows_without_timestamp_and_keeps_last_occurrence() {
    let k = key("AAPL", "equity_spot_1d");
    let blob = series_metadata_for(&k);
    let raws = vec![
        RawRow {
            fields: vec![RawField {
                name: "open".to_string(),
                value: RawValue::Real(1.0_f64.to_bits()),
            }],
        },
        RawRow {
            fields: vec![
                RawField {
                    name: "datetime".to_string(),
                    value: RawValue::Text("2024-01-03 10:00:00".to_string()),
                },
                RawField {
                    name: "open".to_string(),
                    value: RawValue::Real(1.0_f64.to_bits()),
                },
                RawField {
                    name: "open".to_string(),
                    value: RawValue::Real(2.0_f64.to_bits()),
                },
            ],
        },
        RawRow {
            fields: vec![RawField {
                name: "date".to_string(),
                value: RawValue::Text("2024-99-99".to_string()),
            }],
        },
    ];
    let (rows, dropped) = normalize_rows(&raws, &blob);
    // The first row has no timestamp field; the last has an unparseable one.
    assert_eq!(dropped, 2);
    assert_eq!(rows.len(), 1);
    // The later occurrence of a repeated field wins.
    assert_eq!(rows[0].open, Some(2.0_f64.to_bits()));
    assert_eq!(
        rows[0].datetime,
        string_to_datetime("2024-01-03 10:00:00").unwrap()
    );
}

#[test]
fn metadata_blobs_carry_their_key() {
    let k = key("AAPL", "equity_spot_1d");
    let blob: OhlcvMetaData = series_metadata_for(&k);
    assert_eq!(blob.ticker, "AAPL".to_string());
    assert_eq!(blob.exchange, "US".to_string());
    assert_eq!(blob.source, "eod".to_string());
    assert_eq!(blob.metadata_collection_name, "equity_spot_1d".to_string());
    assert!(blob.currency.is_none());

    let info = OhlcvMetadata::for_ticker_series(
        "US0378331005".to_string(),
        "AAPL".to_string(),
        "eod".to_string(),
        "US".to_string(),
    );
    assert_eq!(info.data_type, "ticker_series".to_string());
    assert_eq!(info.isin, "US0378331005".to_string());

    // The exchange code families exist and compare structurally.
    assert_eq!(EodExchangeTypes::US, EodExchangeTypes::US);
    assert!(EodExchangeTypes::CC != EodExchangeTypes::FOREX);
}
