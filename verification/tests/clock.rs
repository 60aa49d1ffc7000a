use pragya::clock::{chrono_now, civil_fields, datetime_of_reading, format_datetime, is_leap};

#[test]
fn epoch_is_midnight_on_new_year_1970() {
    assert_eq!(format_datetime(0), "1970-01-01 00:00:00");
    assert_eq!(format_datetime(86399), "1970-01-01 23:59:59");
    assert_eq!(format_datetime(86400), "1970-01-02 00:00:00");
}

#[test]
fn leap_days_are_counted() {
    assert_eq!(format_datetime(951782400), "2000-02-29 00:00:00");
    assert_eq!(format_datetime(951868800), "2000-03-01 00:00:00");
    assert_eq!(format_datetime(1709251199), "2024-02-29 23:59:59");
    assert_eq!(format_datetime(1735689599), "2024-12-31 23:59:59");
    assert_eq!(format_datetime(1735689600), "2025-01-01 00:00:00");
    assert_eq!(format_datetime(4107542400), "2100-03-01 00:00:00");
}

#[test]
fn leap_years() {
    assert!(is_leap(2000));
    assert!(is_leap(2024));
    assert!(!is_leap(1900));
    assert!(!is_leap(2023));
}

#[test]
fn fields_read_back_to_the_same_second() {
    fn days_before_year(y: u64) -> u64 {
        (1970..y).map(|k| if is_leap(k) { 366 } else { 365 }).sum()
    }
    let months = [31u64, 28, 31, 30, 31, 30, 31, 31, 30, 31, 30, 31];
    for secs in [0u64, 1, 86399, 951782400, 1234567890, 1709251199, 1735689600, 4102444799] {
        let (y, mo, d, h, mi, s) = civil_fields(secs);
        assert!((1..=12).contains(&mo));
        let mut days = days_before_year(y);
        for m in 0..(mo - 1) as usize {
            days += months[m] + if m == 1 && is_leap(y) { 1 } else { 0 };
        }
        days += d - 1;
        assert_eq!(days * 86400 + h * 3600 + mi * 60 + s, secs);
    }
}

#[test]
fn now_has_the_timestamp_shape() {
    let now = chrono_now();
    assert_eq!(now.len(), 19);
    let b = now.as_bytes();
    assert_eq!(b[4], b'-');
    assert_eq!(b[7], b'-');
    assert_eq!(b[10], b' ');
    assert_eq!(b[13], b':');
    assert_eq!(b[16], b':');
    assert!(now.as_str() > "2020-01-01 00:00:00");
}

#[test]
fn a_clock_before_1970_reads_as_the_epoch() {
    assert_eq!(datetime_of_reading(None), "1970-01-01 00:00:00");
    assert_eq!(datetime_of_reading(Some(0)), "1970-01-01 00:00:00");
    assert_eq!(datetime_of_reading(Some(86400)), "1970-01-02 00:00:00");
}

#[test]
fn timestamps_keep_the_clock_order() {
    let secs = [0u64, 59, 60, 3599, 3600, 86399, 86400, 951782399, 951782400, 1735689599, 1735689600, 253402300799];
    for w in secs.windows(2) {
        let (a, b) = (format_datetime(w[0]), format_datetime(w[1]));
        assert!(a < b, "{} !< {}", a, b);
    }
    assert_eq!(format_datetime(253402300799), "9999-12-31 23:59:59");
    assert_eq!(format_datetime(1234567890), format_datetime(1234567890));
}
