//! Data model of the sync engine: series identity, requests, stored rows,
//! ledger entries, fetch plans and error kinds.

use vstd::prelude::*;

verus! {

/// Canonical identity of one logical time series: ticker, exchange, series
/// name (which also names the physical collection pair) and data source.
/// Immutable once created.
pub struct SeriesKey {
    pub ticker: String,
    pub exchange: String,
    pub series_name: String,
    pub source: String,
}

/// Two keys denote the same series when all four components agree.
pub open spec fn same_key(a: SeriesKey, b: SeriesKey) -> bool {
    &&& a.ticker@ == b.ticker@
    &&& a.exchange@ == b.exchange@
    &&& a.series_name@ == b.series_name@
    &&& a.source@ == b.source@
}

/// Denoting the same series is symmetric.
pub broadcast proof fn lemma_same_key_symmetric(a: SeriesKey, b: SeriesKey)
    ensures
        #[trigger] same_key(a, b) == same_key(b, a),
{
}

impl SeriesKey {
    /// Whether `self` and `other` identify the same series.
    pub fn is_same_series(&self, other: &SeriesKey) -> (r: bool)
        ensures
            r == same_key(*self, *other),
    {
        self.ticker == other.ticker && self.exchange == other.exchange && self.series_name
            == other.series_name && self.source == other.source
    }
}

impl Clone for SeriesKey {
    fn clone(&self) -> (r: Self)
        ensures
            r == *self,
    {
        SeriesKey {
            ticker: self.ticker.clone(),
            exchange: self.exchange.clone(),
            series_name: self.series_name.clone(),
            source: self.source.clone(),
        }
    }
}

/// One sync request: a series key plus the date range the caller wants read
/// back after the sync.  Consumed once per sync invocation; never persisted.
pub struct SyncRequest {
    pub key: SeriesKey,
    pub requested_from: i64,
    pub requested_to: i64,
}

impl Clone for SyncRequest {
    fn clone(&self) -> (r: Self)
        ensures
            r == *self,
    {
        SyncRequest {
            key: self.key.clone(),
            requested_from: self.requested_from,
            requested_to: self.requested_to,
        }
    }
}

/// The series metadata blob embedded in every stored row; it is the grouping
/// field of the time-series collection and what range reads filter on.
pub struct OhlcvMetaData {
    pub metadata_collection_name: String,
    pub ticker: String,
    pub source: String,
    pub exchange: String,
    pub currency: Option<String>,
}

impl Clone for OhlcvMetaData {
    fn clone(&self) -> (r: Self)
        ensures
            r == *self,
    {
        OhlcvMetaData {
            metadata_collection_name: self.metadata_collection_name.clone(),
            ticker: self.ticker.clone(),
            source: self.source.clone(),
            exchange: self.exchange.clone(),
            currency: match &self.currency {
                Some(c) => Some(c.clone()),
                None => None,
            },
        }
    }
}

/// Whether an embedded row blob belongs to the given series key.
pub open spec fn blob_matches_key(m: OhlcvMetaData, k: SeriesKey) -> bool {
    &&& m.ticker@ == k.ticker@
    &&& m.exchange@ == k.exchange@
    &&& m.metadata_collection_name@ == k.series_name@
    &&& m.source@ == k.source@
}

impl OhlcvMetaData {
    /// Whether this blob belongs to the given series key.
    pub fn matches_key(&self, k: &SeriesKey) -> (r: bool)
        ensures
            r == blob_matches_key(*self, *k),
    {
        self.ticker == k.ticker && self.exchange == k.exchange && self.metadata_collection_name
            == k.series_name && self.source == k.source
    }
}

/// The metadata blob a series key induces: the key's own components, with no
/// currency resolved.
pub open spec fn blob_of(k: SeriesKey) -> OhlcvMetaData {
    OhlcvMetaData {
        metadata_collection_name: k.series_name,
        ticker: k.ticker,
        source: k.source,
        exchange: k.exchange,
        currency: None,
    }
}

/// Builds the metadata blob that is embedded in every row loaded for `key`.
/// The currency is not resolved for any of the supported exchange codes, so
/// it is always absent.
pub fn series_metadata_for(key: &SeriesKey) -> (r: OhlcvMetaData)
    ensures
        r == blob_of(*key),
        blob_matches_key(r, *key),
        r.currency is None,
{
    OhlcvMetaData {
        metadata_collection_name: key.series_name.clone(),
        ticker: key.ticker.clone(),
        source: key.source.clone(),
        exchange: key.exchange.clone(),
        currency: None,
    }
}

/// Metadata blob of the fundamental-data consumer: identifies a ticker series
/// together with its ISIN.
pub struct OhlcvMetadata {
    pub data_type: String,
    pub isin: String,
    pub ticker: String,
    pub source: String,
    pub exchange: String,
}

impl OhlcvMetadata {
    /// Assembles the blob for one ticker series.
    pub fn for_ticker_series(isin: String, ticker: String, source: String, exchange: String) -> (r:
        OhlcvMetadata)
        ensures
            r.isin@ == isin@,
            r.ticker@ == ticker@,
            r.source@ == source@,
            r.exchange@ == exchange@,
            r.data_type@ == "ticker_series"@,
    {
        OhlcvMetadata { data_type: "ticker_series".to_owned(), isin, ticker, source, exchange }
    }
}

/// Exchange code families the vendor distinguishes.  `US` is the aggregate of
/// the US equity exchanges; the others are commodities, crypto currencies,
/// bonds and foreign exchange.
#[derive(Clone, Copy, PartialEq, Eq, Structural, Debug)]
pub enum EodExchangeTypes {
    US,
    COMM,
    CC,
    BOND,
    FOREX,
}

/// One stored OHLCV observation.  The price fields carry an opaque 64-bit
/// payload chosen by the caller (typically the bit pattern of the vendor's
/// floating-point value); the engine stores and returns it without
/// interpreting it.  A missing or null vendor field is `None`.
pub struct SeriesRow {
    pub datetime: i64,
    pub open: Option<u64>,
    pub high: Option<u64>,
    pub low: Option<u64>,
    pub close: Option<u64>,
    pub adjusted_close: Option<u64>,
    pub volume: Option<i64>,
    pub metadata: OhlcvMetaData,
}

impl Clone for SeriesRow {
    fn clone(&self) -> (r: Self)
        ensures
            r == *self,
    {
        SeriesRow {
            datetime: self.datetime,
            open: self.open,
            high: self.high,
            low: self.low,
            close: self.close,
            adjusted_close: self.adjusted_close,
            volume: self.volume,
            metadata: self.metadata.clone(),
        }
    }
}

/// Whether a stored row belongs to the given series key, judged by its
/// embedded metadata blob.
pub open spec fn row_matches_key(r: SeriesRow, k: SeriesKey) -> bool {
    blob_matches_key(r.metadata, k)
}

/// One ledger entry: the synced `[from, to]` range of a series and when it
/// was last updated.  At most one entry may exist per series key; more than
/// one is a corruption condition that the resolver reports.
pub struct SeriesMetadata {
    pub ticker: String,
    pub exchange: String,
    pub series_name: String,
    pub source: String,
    pub from: i64,
    pub to: i64,
    pub last_updated: i64,
}

impl Clone for SeriesMetadata {
    fn clone(&self) -> (r: Self)
        ensures
            r == *self,
    {
        SeriesMetadata {
            ticker: self.ticker.clone(),
            exchange: self.exchange.clone(),
            series_name: self.series_name.clone(),
            source: self.source.clone(),
            from: self.from,
            to: self.to,
            last_updated: self.last_updated,
        }
    }
}

/// Whether a ledger entry belongs to the given series key.
pub open spec fn ledger_matches_key(m: SeriesMetadata, k: SeriesKey) -> bool {
    &&& m.ticker@ == k.ticker@
    &&& m.exchange@ == k.exchange@
    &&& m.series_name@ == k.series_name@
    &&& m.source@ == k.source@
}

impl SeriesMetadata {
    /// Whether this ledger entry belongs to the given series key.
    pub fn matches_key(&self, k: &SeriesKey) -> (r: bool)
        ensures
            r == ledger_matches_key(*self, *k),
    {
        self.ticker == k.ticker && self.exchange == k.exchange && self.series_name == k.series_name
            && self.source == k.source
    }
}

/// Storage bucketing granularity of a time-series collection, derived from
/// the trailing character of the series name.
#[derive(Clone, Copy, PartialEq, Eq, Structural, Debug)]
pub enum Granularity {
    Hours,
    Minutes,
    Seconds,
}

/// The bucketing granularity a series name calls for: daily and hourly series
/// bucket by hours, minute series by minutes, second series by seconds.  Any
/// other suffix is a provisioning error.
pub open spec fn granularity_of_name(name: Seq<char>) -> Option<Granularity> {
    if name.len() == 0 {
        None
    } else if name.last() == 'h' || name.last() == 'd' {
        Some(Granularity::Hours)
    } else if name.last() == 'm' {
        Some(Granularity::Minutes)
    } else if name.last() == 's' {
        Some(Granularity::Seconds)
    } else {
        None
    }
}

/// Derives the bucketing granularity from a series name.
pub fn granularity_for(name: &str) -> (r: Option<Granularity>)
    ensures
        r == granularity_of_name(name@),
{
    let n = name.unicode_len();
    if n == 0 {
        return None;
    }
    let c = name.get_char(n - 1);
    if c == 'h' || c == 'd' {
        Some(Granularity::Hours)
    } else if c == 'm' {
        Some(Granularity::Minutes)
    } else if c == 's' {
        Some(Granularity::Seconds)
    } else {
        None
    }
}

/// What the gap resolver decides for one requested series.
#[derive(Clone, Copy, PartialEq, Eq, Structural, Debug)]
pub enum FetchPlan {
    /// No ledger entry exists: fetch the full range from the epoch-start
    /// sentinel up to the sync horizon.
    NewSeries { from: i64, to: i64 },
    /// A ledger entry exists and a business day has elapsed since its `to`:
    /// fetch only the extension.
    Extend { from: i64, to: i64 },
    /// A ledger entry exists and no business day has elapsed: skip the series
    /// entirely for this cycle.
    UpToDate,
}

/// The per-series error kinds of the engine.
#[derive(Clone, Copy, PartialEq, Eq, Structural, Debug)]
pub enum SyncError {
    /// Storage setup failed: the series name has no recognized granularity
    /// suffix.  Fatal for that series in this batch.
    Provision,
    /// The vendor call for the series failed; the ledger is left untouched,
    /// so the series is retried on the next cycle.
    Fetch,
    /// More than one ledger entry exists for one series key.  Reported and
    /// excluded, never auto-merged.
    DuplicateMetadata,
    /// A bulk insert addressed a collection that does not exist.
    Load,
    /// A ledger write addressed a collection or ledger entry that does not
    /// exist.
    Update,
}

/// One raw vendor field value, as the fetcher hands them over: a null, an
/// opaque 64-bit numeric payload, an integer, or text.
pub enum RawValue {
    Null,
    Real(u64),
    Int(i64),
    Text(String),
}

/// One named field of a raw vendor row.
pub struct RawField {
    pub name: String,
    pub value: RawValue,
}

/// One raw vendor row: an ordered list of named fields.
pub struct RawRow {
    pub fields: Vec<RawField>,
}

} // verus!
