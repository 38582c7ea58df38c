//! The row normalizer: converts raw vendor rows, field by field, into typed
//! stored documents.
//!
//! The mapping is schema driven: each output field is taken from the raw
//! field of its name when the value has the expected shape.  A field of the
//! wrong shape is an error for that field alone — the field is omitted and
//! the row kept.  The one required field is the timestamp (`datetime`, or
//! `date` for daily data): a row without a parseable timestamp is dropped and
//! counted.  When the same name occurs more than once, the last well-shaped
//! occurrence wins, as a document built by repeated insertion would have it.

use vstd::prelude::*;

use crate::calendar::{parsed_millis, valid_ts};
use crate::models::{OhlcvMetaData, RawField, RawRow, RawValue, SeriesRow};

verus! {

/// The opaque numeric payload of the last field named `name` whose value is
/// numeric or null; null and absent both yield nothing.
pub open spec fn field_real(fields: Seq<RawField>, name: Seq<char>) -> Option<u64>
    decreases fields.len(),
{
    if fields.len() == 0 {
        None
    } else {
        let f = fields.last();
        if f.name@ == name && (f.value is Real || f.value is Null) {
            match f.value {
                RawValue::Real(b) => Some(b),
                _ => None,
            }
        } else {
            field_real(fields.drop_last(), name)
        }
    }
}

/// The integer value of the last field named `name` whose value is an
/// integer or null.
pub open spec fn field_int(fields: Seq<RawField>, name: Seq<char>) -> Option<i64>
    decreases fields.len(),
{
    if fields.len() == 0 {
        None
    } else {
        let f = fields.last();
        if f.name@ == name && (f.value is Int || f.value is Null) {
            match f.value {
                RawValue::Int(v) => Some(v),
                _ => None,
            }
        } else {
            field_int(fields.drop_last(), name)
        }
    }
}

/// The timestamp of the row: the last field named `datetime` or `date` whose
/// text parses as a date or datetime.
pub open spec fn field_datetime(fields: Seq<RawField>) -> Option<int>
    decreases fields.len(),
{
    if fields.len() == 0 {
        None
    } else {
        let f = fields.last();
        if (f.name@ == "datetime"@ || f.name@ == "date"@) && f.value is Text && parsed_millis(
            f.value->Text_0@,
        ) is Some {
            parsed_millis(f.value->Text_0@)
        } else {
            field_datetime(fields.drop_last())
        }
    }
}

/// What one raw row normalizes to under a given metadata blob, if it has a
/// timestamp at all.
pub open spec fn normalize_row_spec(raw: RawRow, meta: OhlcvMetaData) -> Option<SeriesRow> {
    match field_datetime(raw.fields@) {
        None => None,
        Some(t) => Some(
            SeriesRow {
                datetime: t as i64,
                open: field_real(raw.fields@, "open"@),
                high: field_real(raw.fields@, "high"@),
                low: field_real(raw.fields@, "low"@),
                close: field_real(raw.fields@, "close"@),
                adjusted_close: field_real(raw.fields@, "adjusted_close"@),
                volume: field_int(raw.fields@, "volume"@),
                metadata: meta,
            },
        ),
    }
}

/// What a batch of raw rows normalizes to, in order, dropping rows without a
/// timestamp.
pub open spec fn normalize_rows_spec(raws: Seq<RawRow>, meta: OhlcvMetaData) -> Seq<SeriesRow>
    decreases raws.len(),
{
    if raws.len() == 0 {
        Seq::empty()
    } else {
        let rest = normalize_rows_spec(raws.drop_last(), meta);
        match normalize_row_spec(raws.last(), meta) {
            Some(row) => rest.push(row),
            None => rest,
        }
    }
}

/// Every normalized row carries the blob it was normalized under.
pub proof fn lemma_normalized_rows_blob(raws: Seq<RawRow>, meta: OhlcvMetaData)
    ensures
        forall|i: int|
            0 <= i < normalize_rows_spec(raws, meta).len() ==> (#[trigger] normalize_rows_spec(
                raws,
                meta,
            )[i]).metadata == meta,
        normalize_rows_spec(raws, meta).len() <= raws.len(),
    decreases raws.len(),
{
    if raws.len() > 0 {
        lemma_normalized_rows_blob(raws.drop_last(), meta);
    }
}

/// The numeric payload of the last well-shaped raw field named `name`.
fn find_real(fields: &Vec<RawField>, name: &String) -> (r: Option<u64>)
    ensures
        r == field_real(fields@, name@),
{
    let mut i = fields.len();
    proof {
        assert(fields@.take(i as int) =~= fields@);
    }
    while i > 0
        invariant
            i <= fields@.len(),
            field_real(fields@, name@) == field_real(fields@.take(i as int), name@),
        decreases i,
    {
        i = i - 1;
        proof {
            assert(fields@.take(i + 1).drop_last() =~= fields@.take(i as int));
            assert(fields@.take(i + 1).last() == fields@[i as int]);
        }
        let f = &fields[i];
        if f.name == *name {
            match &f.value {
                RawValue::Real(b) => {
                    return Some(*b);
                },
                RawValue::Null => {
                    return None;
                },
                _ => {},
            }
        }
    }
    proof {
        assert(fields@.take(0) =~= Seq::<RawField>::empty());
    }
    None
}

/// The integer value of the last well-shaped raw field named `name`.
fn find_int(fields: &Vec<RawField>, name: &String) -> (r: Option<i64>)
    ensures
        r == field_int(fields@, name@),
{
    let mut i = fields.len();
    proof {
        assert(fields@.take(i as int) =~= fields@);
    }
    while i > 0
        invariant
            i <= fields@.len(),
            field_int(fields@, name@) == field_int(fields@.take(i as int), name@),
        decreases i,
    {
        i = i - 1;
        proof {
            assert(fields@.take(i + 1).drop_last() =~= fields@.take(i as int));
            assert(fields@.take(i + 1).last() == fields@[i as int]);
        }
        let f = &fields[i];
        if f.name == *name {
            match &f.value {
                RawValue::Int(v) => {
                    return Some(*v);
                },
                RawValue::Null => {
                    return None;
                },
                _ => {},
            }
        }
    }
    proof {
        assert(fields@.take(0) =~= Seq::<RawField>::empty());
    }
    None
}

/// The row's timestamp: the last `datetime` or `date` field that parses.
fn find_datetime(fields: &Vec<RawField>) -> (r: Option<i64>)
    ensures
        match r {
            Some(t) => field_datetime(fields@) == Some(t as int) && valid_ts(t as int),
            None => field_datetime(fields@) is None,
        },
{
    let datetime_name: String = "datetime".to_owned();
    let date_name: String = "date".to_owned();
    let mut i = fields.len();
    proof {
        assert(fields@.take(i as int) =~= fields@);
    }
    while i > 0
        invariant
            i <= fields@.len(),
            field_datetime(fields@) == field_datetime(fields@.take(i as int)),
            datetime_name@ == "datetime"@,
            date_name@ == "date"@,
        decreases i,
    {
        i = i - 1;
        proof {
            assert(fields@.take(i + 1).drop_last() =~= fields@.take(i as int));
            assert(fields@.take(i + 1).last() == fields@[i as int]);
        }
        let f = &fields[i];
        if f.name == datetime_name || f.name == date_name {
            match &f.value {
                RawValue::Text(s) => {
                    match crate::calendar::string_to_datetime(s.as_str()) {
                        Some(t) => {
                            return Some(t);
                        },
                        None => {},
                    }
                },
                _ => {},
            }
        }
    }
    proof {
        assert(fields@.take(0) =~= Seq::<RawField>::empty());
    }
    None
}

/// Normalizes one raw row under a metadata blob; nothing when the row has no
/// parseable timestamp.
pub fn normalize_row(raw: &RawRow, meta: OhlcvMetaData) -> (r: Option<SeriesRow>)
    ensures
        r == normalize_row_spec(*raw, meta),
        r matches Some(row) ==> valid_ts(row.datetime as int),
{
    let t = match find_datetime(&raw.fields) {
        None => {
            return None;
        },
        Some(t) => t,
    };
    let open_name: String = "open".to_owned();
    let high_name: String = "high".to_owned();
    let low_name: String = "low".to_owned();
    let close_name: String = "close".to_owned();
    let adjusted_name: String = "adjusted_close".to_owned();
    let volume_name: String = "volume".to_owned();
    Some(
        SeriesRow {
            datetime: t,
            open: find_real(&raw.fields, &open_name),
            high: find_real(&raw.fields, &high_name),
            low: find_real(&raw.fields, &low_name),
            close: find_real(&raw.fields, &close_name),
            adjusted_close: find_real(&raw.fields, &adjusted_name),
            volume: find_int(&raw.fields, &volume_name),
            metadata: meta,
        },
    )
}

/// Normalizes a batch of raw rows under a metadata blob.  Returns the kept
/// rows in order together with how many rows were dropped for want of a
/// timestamp.
pub fn normalize_rows(raws: &Vec<RawRow>, meta: &OhlcvMetaData) -> (r: (Vec<SeriesRow>, usize))
    ensures
        r.0@ == normalize_rows_spec(raws@, *meta),
        forall|i: int|
            0 <= i < r.0@.len() ==> valid_ts((#[trigger] r.0@[i]).datetime as int),
        r.1 + r.0@.len() == raws@.len(),
{
    let mut kept: Vec<SeriesRow> = Vec::new();
    let mut dropped: usize = 0;
    let n = raws.len();
    let mut i: usize = 0;
    while i < n
        invariant
            i <= n,
            n == raws@.len(),
            kept@ == normalize_rows_spec(raws@.take(i as int), *meta),
            forall|j: int|
                0 <= j < kept@.len() ==> valid_ts((#[trigger] kept@[j]).datetime as int),
            dropped + kept@.len() == i,
        decreases n - i,
    {
        proof {
            assert(raws@.take(i + 1).drop_last() =~= raws@.take(i as int));
            assert(raws@.take(i + 1).last() == raws@[i as int]);
        }
        match normalize_row(&raws[i], meta.clone()) {
            Some(row) => {
                kept.push(row);
            },
            None => {
                dropped = dropped + 1;
            },
        }
        i = i + 1;
    }
    proof {
        assert(raws@.take(n as int) =~= raws@);
    }
    (kept, dropped)
}

} // verus!
