use molly_db::calendar::{
    epoch_day, get_timestamps_tuple, has_business_day_between, is_weekday_of_ms,
    string_to_datetime, EPOCH_START_MS, MILLIS_PER_DAY,
};

#[test]
fn epoch_start_is_day_zero() {
    assert_eq!(string_to_datetime("1970-01-01"), Some(EPOCH_START_MS));
    assert_eq!(string_to_datetime("1970-01-02"), Some(MILLIS_PER_DAY));
}

#[test]
fn known_dates_have_known_timestamps() {
    // 2024-01-01 is day 19723 since the epoch.
    assert_eq!(string_to_datetime("2024-01-01"), Some(19723 * MILLIS_PER_DAY));
    assert_eq!(epoch_day(2024, 1, 1), 19723);
    // Leap day handling: 2024 is a leap year, 1900-style century rules do
    // not apply in range, 2000 was a leap year.
    assert_eq!(epoch_day(2024, 3, 1), epoch_day(2024, 2, 29) + 1);
    assert_eq!(epoch_day(2000, 3, 1), epoch_day(2000, 2, 29) + 1);
    assert_eq!(epoch_day(2100, 3, 1), epoch_day(2100, 2, 28) + 1);
}

#[test]
fn datetime_strings_carry_time_of_day() {
    let midnight = string_to_datetime("2024-01-01").unwrap();
    let later = string_to_datetime("2024-01-01 12:30:45").unwrap();
    assert_eq!(later, midnight + ((12 * 3600 + 30 * 60 + 45) * 1000));
}

#[test]
fn malformed_dates_are_rejected() {
    assert_eq!(string_to_datetime(""), None);
    assert_eq!(string_to_datetime("banana"), None);
    assert_eq!(string_to_datetime("2024-1-1"), None);
    assert_eq!(string_to_datetime("2024-13-01"), None);
    assert_eq!(string_to_datetime("2024-00-10"), None);
    assert_eq!(string_to_datetime("2024-02-30"), None);
    assert_eq!(string_to_datetime("2023-02-29"), None);
    assert_eq!(string_to_datetime("1969-12-31"), None);
    assert_eq!(string_to_datetime("2024-01-01T00:00:00"), None);
    assert_eq!(string_to_datetime("2024-01-01 25:00:00"), None);
}

#[test]
fn weekday_of_known_days() {
    // 1970-01-01 was a Thursday, 1970-01-03 a Saturday.
    assert!(is_weekday_of_ms(string_to_datetime("1970-01-01").unwrap()));
    assert!(is_weekday_of_ms(string_to_datetime("1970-01-02").unwrap()));
    assert!(!is_weekday_of_ms(string_to_datetime("1970-01-03").unwrap()));
    assert!(!is_weekday_of_ms(string_to_datetime("1970-01-04").unwrap()));
    assert!(is_weekday_of_ms(string_to_datetime("2024-01-01").unwrap())); // a Monday
}

#[test]
fn business_day_between_weekend_only_window_is_false() {
    let friday = string_to_datetime("2023-12-29").unwrap();
    let saturday = string_to_datetime("2023-12-30").unwrap();
    let sunday = string_to_datetime("2023-12-31").unwrap();
    let monday = string_to_datetime("2024-01-01").unwrap();
    // Same instant: no day has elapsed at all.
    assert!(!has_business_day_between(friday, friday));
    // Friday to the weekend: the elapsed window is all weekend.
    assert!(!has_business_day_between(friday, saturday));
    assert!(!has_business_day_between(friday, sunday));
    // Friday to Monday: a business day has elapsed.
    assert!(has_business_day_between(friday, monday));
    // Thursday to Friday: plainly a business day.
    let thursday = string_to_datetime("2023-12-28").unwrap();
    assert!(has_business_day_between(thursday, friday));
}

#[test]
fn intraday_windows_split_exactly() {
    let dur_m = 120 * MILLIS_PER_DAY;
    let to = 2 * dur_m + 5000;
    let windows = get_timestamps_tuple(0, to, "crypto_spot_5m").unwrap();
    assert_eq!(windows.len(), 2);
    assert_eq!(windows[0], (0, dur_m / 1000 - 1));
    assert_eq!(windows[1], (dur_m / 1000, 2 * dur_m / 1000 - 1));

    let dur_h = 350 * MILLIS_PER_DAY;
    let windows_h = get_timestamps_tuple(0, dur_h, "equity_spot_1h").unwrap();
    assert_eq!(windows_h.len(), 1);
    assert_eq!(windows_h[0], (0, dur_h / 1000 - 1));

    // An empty or backwards range yields no windows.
    assert_eq!(get_timestamps_tuple(5000, 5000, "x_5m").unwrap().len(), 0);
    assert_eq!(get_timestamps_tuple(9000, 5000, "x_5m").unwrap().len(), 0);

    // Daily granularity is not paginated this way.
    assert!(get_timestamps_tuple(0, dur_m, "equity_spot_1d").is_none());
    assert!(get_timestamps_tuple(0, dur_m, "").is_none());
}
