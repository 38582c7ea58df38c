//! Calendar arithmetic on epoch-based timestamps.
//!
//! Timestamps are milliseconds since 1970-01-01T00:00:00 UTC, the unit the
//! store keeps for every row and ledger entry.  Dates are proleptic Gregorian
//! within the years 1970 to 9999, the engine's supported domain.

use vstd::prelude::*;

verus! {

/// Milliseconds in one calendar day.
pub const MILLIS_PER_DAY: i64 = 86_400_000;

/// Strict upper bound on every timestamp the calendar functions can produce
/// (a little above the last representable instant of the year 9999).
pub const MAX_TIMESTAMP_MS: i64 = 254_000_000_000_000;

/// The epoch-start sentinel used when a new series is seeded in the ledger:
/// midnight, 1970-01-01.
pub const EPOCH_START_MS: i64 = 0;

/// A timestamp the engine accepts: non-negative and within the supported
/// calendar range.
pub open spec fn valid_ts(t: int) -> bool {
    0 <= t < MAX_TIMESTAMP_MS as int
}

pub open spec fn is_leap_year(y: int) -> bool {
    (y % 4 == 0 && y % 100 != 0) || y % 400 == 0
}

pub open spec fn days_in_year(y: int) -> int {
    if is_leap_year(y) {
        366
    } else {
        365
    }
}

/// Days from 1970-01-01 up to the first day of year `y` (for `y >= 1970`).
pub open spec fn days_before_year(y: int) -> int
    decreases y,
{
    if y <= 1970 {
        0
    } else {
        days_before_year(y - 1) + days_in_year(y - 1)
    }
}

pub open spec fn days_in_month(y: int, m: int) -> int {
    if m == 2 {
        if is_leap_year(y) {
            29
        } else {
            28
        }
    } else if m == 4 || m == 6 || m == 9 || m == 11 {
        30
    } else {
        31
    }
}

/// Days from the first of January of year `y` up to the first day of month
/// `m` of the same year.
pub open spec fn days_before_month(y: int, m: int) -> int
    decreases m,
{
    if m <= 1 {
        0
    } else {
        days_before_month(y, m - 1) + days_in_month(y, m - 1)
    }
}

pub open spec fn valid_civil_date(y: int, m: int, d: int) -> bool {
    1970 <= y <= 9999 && 1 <= m <= 12 && 1 <= d <= days_in_month(y, m)
}

/// The day number (days since 1970-01-01) of a civil date.
pub open spec fn epoch_day_of(y: int, m: int, d: int) -> int {
    days_before_year(y) + days_before_month(y, m) + (d - 1)
}

/// The day number a millisecond timestamp falls on (for non-negative input).
pub open spec fn day_of_ms(ms: int) -> int {
    ms / (MILLIS_PER_DAY as int)
}

/// Day of the week of a day number, 0 = Monday .. 6 = Sunday.
/// Day 0 (1970-01-01) was a Thursday, hence the offset of 3.
pub open spec fn weekday_of_day(day: int) -> int {
    (day + 3) % 7
}

/// Monday through Friday.
pub open spec fn is_weekday(day: int) -> bool {
    weekday_of_day(day) < 5
}

/// Whether some calendar day strictly after the day of `from_ms` and no later
/// than the day of `to_ms` is a business day (Monday through Friday).  This is
/// the gap resolver's "is it plausible that new data exists" test: it is
/// deliberately unaware of holidays.
pub open spec fn business_day_between(from_ms: int, to_ms: int) -> bool {
    exists|d: int| day_of_ms(from_ms) < d <= day_of_ms(to_ms) && is_weekday(d)
}

proof fn lemma_days_before_year_bound(y: int)
    requires
        1970 <= y <= 10000,
    ensures
        0 <= days_before_year(y) <= 366 * (y - 1970),
    decreases y,
{
    if y > 1970 {
        lemma_days_before_year_bound(y - 1);
    }
}

proof fn lemma_days_before_month_bound(y: int, m: int)
    requires
        1 <= m <= 13,
    ensures
        0 <= days_before_month(y, m) <= 31 * (m - 1),
    decreases m,
{
    if m > 1 {
        lemma_days_before_month_bound(y, m - 1);
    }
}

/// Every valid civil date maps to a day number within the supported range.
pub proof fn lemma_epoch_day_in_range(y: int, m: int, d: int)
    requires
        valid_civil_date(y, m, d),
    ensures
        0 <= epoch_day_of(y, m, d) < 2_939_000,
{
    lemma_days_before_year_bound(y);
    lemma_days_before_month_bound(y, m);
}

fn is_leap_year_exec(y: i64) -> (r: bool)
    ensures
        r == is_leap_year(y as int),
{
    (y % 4 == 0 && y % 100 != 0) || y % 400 == 0
}

fn days_in_year_exec(y: i64) -> (r: i64)
    ensures
        r == days_in_year(y as int),
{
    if is_leap_year_exec(y) {
        366
    } else {
        365
    }
}

pub fn days_in_month_exec(y: i64, m: i64) -> (r: i64)
    ensures
        r == days_in_month(y as int, m as int),
{
    if m == 2 {
        if is_leap_year_exec(y) {
            29
        } else {
            28
        }
    } else if m == 4 || m == 6 || m == 9 || m == 11 {
        30
    } else {
        31
    }
}

fn days_before_year_exec(y: i64) -> (r: i64)
    requires
        1970 <= y <= 10000,
    ensures
        r == days_before_year(y as int),
{
    proof {
        lemma_days_before_year_bound(y as int);
    }
    let mut acc: i64 = 0;
    let mut i: i64 = 1970;
    while i < y
        invariant
            1970 <= i <= y <= 10000,
            acc == days_before_year(i as int),
        decreases y - i,
    {
        proof {
            lemma_days_before_year_bound(i as int);
            lemma_days_before_year_bound((i + 1) as int);
        }
        acc = acc + days_in_year_exec(i);
        i = i + 1;
    }
    acc
}

fn days_before_month_exec(y: i64, m: i64) -> (r: i64)
    requires
        1 <= m <= 13,
    ensures
        r == days_before_month(y as int, m as int),
{
    proof {
        lemma_days_before_month_bound(y as int, m as int);
    }
    let mut acc: i64 = 0;
    let mut i: i64 = 1;
    while i < m
        invariant
            1 <= i <= m <= 13,
            acc == days_before_month(y as int, i as int),
        decreases m - i,
    {
        proof {
            lemma_days_before_month_bound(y as int, i as int);
            lemma_days_before_month_bound(y as int, (i + 1) as int);
        }
        acc = acc + days_in_month_exec(y, i);
        i = i + 1;
    }
    acc
}

/// The day number of a valid civil date.
pub fn epoch_day(y: i64, m: i64, d: i64) -> (r: i64)
    requires
        valid_civil_date(y as int, m as int, d as int),
    ensures
        r == epoch_day_of(y as int, m as int, d as int),
        0 <= r < 2_939_000,
{
    proof {
        lemma_epoch_day_in_range(y as int, m as int, d as int);
    }
    days_before_year_exec(y) + days_before_month_exec(y, m) + (d - 1)
}

/// Whether the day a (non-negative) timestamp falls on is a weekday.
pub fn is_weekday_of_ms(ms: i64) -> (r: bool)
    requires
        ms >= 0,
    ensures
        r == is_weekday(day_of_ms(ms as int)),
{
    let day = ms / MILLIS_PER_DAY;
    (day + 3) % 7 < 5
}

/// Whether at least one business day lies strictly after the day of `from_ms`
/// and no later than the day of `to_ms`.  The gap resolver skips a series
/// exactly when this is false, so a sync is only skipped when the entire
/// elapsed window is weekend.
pub fn has_business_day_between(from_ms: i64, to_ms: i64) -> (r: bool)
    requires
        from_ms >= 0,
        to_ms >= 0,
    ensures
        r == business_day_between(from_ms as int, to_ms as int),
{
    let day_from = from_ms / MILLIS_PER_DAY;
    let day_to = to_ms / MILLIS_PER_DAY;
    if day_to <= day_from {
        return false;
    }
    let mut d = day_from + 1;
    while d <= day_to
        invariant
            0 <= day_from < day_to,
            day_from + 1 <= d <= day_to + 1,
            day_to == day_of_ms(to_ms as int),
            day_from == day_of_ms(from_ms as int),
            forall|x: int| day_from < x < d ==> !is_weekday(x),
        decreases day_to + 1 - d,
    {
        if (d + 3) % 7 < 5 {
            assert(day_of_ms(from_ms as int) < d as int <= day_of_ms(to_ms as int) && is_weekday(
                d as int,
            ));
            return true;
        }
        d = d + 1;
    }
    false
}

pub open spec fn is_digit(c: char) -> bool {
    48 <= c as int <= 57
}

pub open spec fn digit_val(c: char) -> int {
    c as int - 48
}

/// The two-digit decimal number at positions `i`, `i + 1`.
pub open spec fn num2(s: Seq<char>, i: int) -> int {
    digit_val(s[i]) * 10 + digit_val(s[i + 1])
}

/// The four-digit decimal number at positions `i` .. `i + 3`.
pub open spec fn num4(s: Seq<char>, i: int) -> int {
    digit_val(s[i]) * 1000 + digit_val(s[i + 1]) * 100 + digit_val(s[i + 2]) * 10 + digit_val(
        s[i + 3],
    )
}

/// A well-formed `YYYY-MM-DD` date string denoting a valid civil date in the
/// supported year range.
pub open spec fn is_date_str(s: Seq<char>) -> bool {
    &&& s.len() == 10
    &&& is_digit(s[0]) && is_digit(s[1]) && is_digit(s[2]) && is_digit(s[3])
    &&& s[4] == '-'
    &&& is_digit(s[5]) && is_digit(s[6])
    &&& s[7] == '-'
    &&& is_digit(s[8]) && is_digit(s[9])
    &&& valid_civil_date(num4(s, 0), num2(s, 5), num2(s, 8))
}

/// The timestamp (midnight UTC) denoted by a well-formed date string.
pub open spec fn date_str_millis(s: Seq<char>) -> int {
    epoch_day_of(num4(s, 0), num2(s, 5), num2(s, 8)) * (MILLIS_PER_DAY as int)
}

/// A well-formed `YYYY-MM-DD HH:MM:SS` string.
pub open spec fn is_datetime_str(s: Seq<char>) -> bool {
    &&& s.len() == 19
    &&& is_date_str(s.subrange(0, 10))
    &&& s[10] == ' '
    &&& is_digit(s[11]) && is_digit(s[12])
    &&& s[13] == ':'
    &&& is_digit(s[14]) && is_digit(s[15])
    &&& s[16] == ':'
    &&& is_digit(s[17]) && is_digit(s[18])
    &&& num2(s, 11) < 24
    &&& num2(s, 14) < 60
    &&& num2(s, 17) < 60
}

/// The timestamp denoted by a well-formed datetime string.
pub open spec fn datetime_str_millis(s: Seq<char>) -> int {
    date_str_millis(s.subrange(0, 10)) + (num2(s, 11) * 3600 + num2(s, 14) * 60 + num2(s, 17))
        * 1000
}

/// The decimal value of the character at `i`, or -1 if it is not a digit.
fn read_digit(s: &str, i: usize) -> (r: i64)
    requires
        i < s@.len(),
    ensures
        is_digit(s@[i as int]) ==> r == digit_val(s@[i as int]) && 0 <= r <= 9,
        !is_digit(s@[i as int]) ==> r == -1,
{
    let c = s.get_char(i);
    let v = c as u32;
    if 48 <= v && v <= 57 {
        (v - 48) as i64
    } else {
        -1
    }
}

/// Parses the `YYYY-MM-DD` date occupying positions 0..10 of `s` and returns
/// its timestamp (midnight UTC).
fn parse_date_at_start(s: &str) -> (r: Option<i64>)
    requires
        s@.len() >= 10,
    ensures
        match r {
            Some(t) => is_date_str(s@.subrange(0, 10)) && t == date_str_millis(
                s@.subrange(0, 10),
            ) && 0 <= t < 2_939_000 * 86_400_000,
            None => !is_date_str(s@.subrange(0, 10)),
        },
{
    let ghost sub = s@.subrange(0, 10);
    assert(forall|i: int| 0 <= i < 10 ==> sub[i] == s@[i]);
    let d0 = read_digit(s, 0);
    let d1 = read_digit(s, 1);
    let d2 = read_digit(s, 2);
    let d3 = read_digit(s, 3);
    let d5 = read_digit(s, 5);
    let d6 = read_digit(s, 6);
    let d8 = read_digit(s, 8);
    let d9 = read_digit(s, 9);
    if d0 < 0 || d1 < 0 || d2 < 0 || d3 < 0 || d5 < 0 || d6 < 0 || d8 < 0 || d9 < 0 {
        return None;
    }
    if s.get_char(4) != '-' || s.get_char(7) != '-' {
        return None;
    }
    let y = d0 * 1000 + d1 * 100 + d2 * 10 + d3;
    let mo = d5 * 10 + d6;
    let da = d8 * 10 + d9;
    if y < 1970 {
        return None;
    }
    if mo < 1 || mo > 12 {
        return None;
    }
    if da < 1 || da > days_in_month_exec(y, mo) {
        return None;
    }
    let ed = epoch_day(y, mo, da);
    Some(ed * MILLIS_PER_DAY)
}

/// The timestamp a date or datetime string denotes, if it is well formed:
/// strings of at most 10 characters are read as plain dates, longer ones as
/// datetimes.
pub open spec fn parsed_millis(s: Seq<char>) -> Option<int> {
    if s.len() <= 10 {
        if is_date_str(s) {
            Some(date_str_millis(s))
        } else {
            None
        }
    } else {
        if is_datetime_str(s) {
            Some(datetime_str_millis(s))
        } else {
            None
        }
    }
}

/// Parses a date string as the vendor data feeds write them: a plain
/// `YYYY-MM-DD` date when the string is at most 10 characters long, otherwise
/// a `YYYY-MM-DD HH:MM:SS` datetime.  Returns the denoted timestamp in
/// milliseconds since the epoch, or `None` when the string is malformed or
/// outside the supported calendar range.
pub fn string_to_datetime(s: &str) -> (r: Option<i64>)
    ensures
        s@.len() <= 10 ==> match r {
            Some(t) => is_date_str(s@) && t == date_str_millis(s@) && valid_ts(t as int),
            None => !is_date_str(s@),
        },
        s@.len() > 10 ==> match r {
            Some(t) => is_datetime_str(s@) && t == datetime_str_millis(s@) && valid_ts(t as int),
            None => !is_datetime_str(s@),
        },
        match r {
            Some(t) => parsed_millis(s@) == Some(t as int) && valid_ts(t as int),
            None => parsed_millis(s@) is None,
        },
{
    let n = s.unicode_len();
    if n <= 10 {
        if n != 10 {
            return None;
        }
        assert(s@.subrange(0, 10) =~= s@);
        parse_date_at_start(s)
    } else {
        if n != 19 {
            return None;
        }
        let date_ms = match parse_date_at_start(s) {
            Some(t) => t,
            None => {
                return None;
            },
        };
        if s.get_char(10) != ' ' || s.get_char(13) != ':' || s.get_char(16) != ':' {
            return None;
        }
        let h0 = read_digit(s, 11);
        let h1 = read_digit(s, 12);
        let m0 = read_digit(s, 14);
        let m1 = read_digit(s, 15);
        let s0 = read_digit(s, 17);
        let s1 = read_digit(s, 18);
        if h0 < 0 || h1 < 0 || m0 < 0 || m1 < 0 || s0 < 0 || s1 < 0 {
            return None;
        }
        let hh = h0 * 10 + h1;
        let mi = m0 * 10 + m1;
        let ss = s0 * 10 + s1;
        if hh >= 24 || mi >= 60 || ss >= 60 {
            return None;
        }
        Some(date_ms + (hh * 3600 + mi * 60 + ss) * 1000)
    }
}

/// The length in milliseconds of one vendor request window for an intraday
/// granularity suffix: 120 days for minute data, 350 days for hourly data.
/// Other suffixes are not paginated this way.
pub open spec fn window_duration_ms(gran: Seq<char>) -> Option<i64> {
    if gran.len() == 0 {
        None
    } else if gran.last() == 'm' {
        Some((120 * MILLIS_PER_DAY) as i64)
    } else if gran.last() == 'h' {
        Some((350 * MILLIS_PER_DAY) as i64)
    } else {
        None
    }
}

/// How many whole windows of length `dur` fit in `[from, to]`.
pub open spec fn window_count(from: int, to: int, dur: int) -> int {
    if to > from {
        (to - from) / dur
    } else {
        0
    }
}

/// Splits `[from_ms, to_ms]` into consecutive fetch windows for an intraday
/// granularity, as `(start, end)` pairs in seconds: window `k` starts at
/// `from + k * dur` and ends one second before the next window starts.
/// Returns `None` when the granularity suffix has no window length.
pub fn get_timestamps_tuple(from_ms: i64, to_ms: i64, granularity: &str) -> (r: Option<
    Vec<(i64, i64)>,
>)
    requires
        valid_ts(from_ms as int),
        valid_ts(to_ms as int),
    ensures
        match r {
            None => window_duration_ms(granularity@) is None,
            Some(v) => window_duration_ms(granularity@) is Some && ({
                let dur = window_duration_ms(granularity@).unwrap();
                &&& v@.len() == window_count(from_ms as int, to_ms as int, dur as int)
                &&& forall|k: int|
                    0 <= k < v@.len() ==> (#[trigger] v@[k]).0 == (from_ms + k * dur) / 1000
                        && v@[k].1 == (from_ms + (k + 1) * dur - 1000) / 1000
            }),
        },
{
    let n = granularity.unicode_len();
    if n == 0 {
        return None;
    }
    let last = granularity.get_char(n - 1);
    let dur: i64 = if last == 'm' {
        120 * MILLIS_PER_DAY
    } else if last == 'h' {
        350 * MILLIS_PER_DAY
    } else {
        return None;
    };
    let mut v: Vec<(i64, i64)> = Vec::new();
    let mut cur = from_ms;
    while cur + dur <= to_ms
        invariant
            1000 <= dur <= 350 * 86_400_000,
            from_ms <= cur,
            0 <= from_ms < MAX_TIMESTAMP_MS,
            to_ms < MAX_TIMESTAMP_MS,
            cur == from_ms || cur <= to_ms,
            cur as int == from_ms as int + v@.len() * (dur as int),
            forall|k: int|
                0 <= k < v@.len() ==> (#[trigger] v@[k]).0 == (from_ms + k * dur) / 1000
                    && v@[k].1 == (from_ms + (k + 1) * dur - 1000) / 1000,
        decreases to_ms - cur,
    {
        let ghost k = v@.len() as int;
        proof {
            assert((k + 1) * (dur as int) == k * (dur as int) + dur as int) by (nonlinear_arith);
            assert(cur as int + dur as int == from_ms as int + (k + 1) * (dur as int));
        }
        let ws = cur / 1000;
        let we = (cur + dur - 1000) / 1000;
        proof {
            assert(ws as int == (from_ms as int + k * (dur as int)) / 1000);
            assert(we as int == (from_ms as int + (k + 1) * (dur as int) - 1000) / 1000);
        }
        v.push((ws, we));
        proof {
            assert(v@[k].0 == (from_ms + k * dur) / 1000);
            assert(v@[k].1 == (from_ms + (k + 1) * dur - 1000) / 1000);
        }
        cur = cur + dur;
    }
    proof {
        let f = from_ms as int;
        let t = to_ms as int;
        let d = dur as int;
        let nw = v@.len() as int;
        assert(cur as int == f + nw * d);
        assert(cur as int + d > t);
        if t <= f {
            if nw > 0 {
                assert(nw * d >= d) by (nonlinear_arith)
                    requires
                        nw >= 1,
                        d > 0,
                ;
                assert(cur as int >= f + d);
                assert(cur as int <= t);
                assert(false);
            }
        }
        if t > f {
            assert(nw * d >= 0) by (nonlinear_arith)
                requires
                    nw >= 0,
                    d > 0,
            ;
            assert(cur as int <= t);
            vstd::arithmetic::div_mod::lemma_fundamental_div_mod_converse(t - f, d, nw, t - f - nw
                * d);
        }
    }
    Some(v)
}

} // verus!

