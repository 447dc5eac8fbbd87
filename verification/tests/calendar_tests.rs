use chrono::{Datelike, NaiveDate, NaiveTime, Timelike};
use tg_trainer::calendar::{Date, Time, MAX_DAY, MIN_DAY, UNIX_EPOCH_DAY};

fn date(y: i32, m: u32, d: u32) -> Date {
    Date::from_ymd(y, m, d).unwrap()
}

fn naive(d: Date) -> NaiveDate {
    NaiveDate::from_num_days_from_ce_opt(d.days).unwrap()
}

#[test]
fn day_numbers_follow_the_calendar() {
    assert_eq!(date(1, 1, 1).days, 1);
    assert_eq!(date(1999, 9, 3).days, 730_000);
    assert_eq!(date(1970, 1, 1).days, UNIX_EPOCH_DAY);
    assert_eq!(Date::default().days, UNIX_EPOCH_DAY);
    assert_eq!(NaiveDate::MIN.num_days_from_ce(), MIN_DAY);
    assert_eq!(NaiveDate::MAX.num_days_from_ce(), MAX_DAY);
    assert!(Date::from_days(MIN_DAY).is_some());
    assert!(Date::from_days(MAX_DAY).is_some());
    assert!(Date::from_days(MIN_DAY - 1).is_none());
    assert!(Date::from_days(MAX_DAY + 1).is_none());
    assert!(Date::from_ymd(2023, 4, 31).is_none());
    assert!(Date::from_ymd(2024, 2, 29).is_some());
    assert_eq!(Date::from_days(MAX_DAY).unwrap().ymd(), (262142, 12, 31));
    assert_eq!(Date::from_days(MIN_DAY).unwrap().ymd(), (-262143, 1, 1));
}

#[test]
fn add_days_moves_along_the_calendar() {
    let d = date(2025, 12, 30);
    assert_eq!(d.add_days(3), date(2026, 1, 2));
    assert_eq!(d.add_days(-30), date(2025, 11, 30));
}

#[test]
fn weekdays_count_from_monday() {
    assert_eq!(date(2015, 9, 8).weekday_from_monday(), 1);
    assert_eq!(date(2025, 9, 21).weekday_from_monday(), 6);
    assert_eq!(date(2025, 9, 22).weekday_from_monday(), 0);
    for offset in 0..30 {
        let d = date(2024, 2, 10).add_days(offset);
        assert_eq!(d.weekday_from_monday(), naive(d).weekday().num_days_from_monday());
    }
}

#[test]
fn day_month_text_matches_strftime() {
    assert_eq!(date(2025, 9, 5).format_day_month(), "05.09");
    assert_eq!(date(2025, 12, 31).format_day_month(), "31.12");
    for offset in (0..400).step_by(7) {
        let d = date(2024, 1, 1).add_days(offset);
        assert_eq!(d.format_day_month(), naive(d).format("%d.%m").to_string());
    }
}

#[test]
fn date_text_matches_display() {
    assert_eq!(date(2025, 9, 5).to_text(), "2025-09-05");
    assert_eq!(date(5, 1, 2).to_text(), "0005-01-02");
    assert_eq!(date(-5, 1, 2).to_text(), "-0005-01-02");
    assert_eq!(date(12345, 6, 7).to_text(), "+12345-06-07");
    for d in [date(1, 1, 1), date(9999, 12, 31), date(10000, 1, 1), date(-1, 3, 4), Date::from_days(MIN_DAY).unwrap(), Date::from_days(MAX_DAY).unwrap()] {
        assert_eq!(d.to_text(), naive(d).to_string());
    }
}

#[test]
fn date_text_reads_back() {
    for d in [date(2025, 9, 5), date(1, 1, 1), date(9999, 12, 31), date(0, 2, 29)] {
        assert_eq!(Date::parse(&d.to_text()), Some(d));
    }
    assert_eq!(Date::parse("2025-13-01"), None);
    assert_eq!(Date::parse("hello"), None);
}

#[test]
fn times_format_like_chrono() {
    let t = Time::from_hms_opt(9, 5, 7).unwrap();
    assert_eq!(t.format_hour_minute(), "09:05");
    assert_eq!(t.to_text(), "09:05:07");
    assert!(Time::from_hms_opt(24, 0, 0).is_none());
    assert!(Time::from_hms_opt(23, 60, 0).is_none());
    assert_eq!(Time::default(), Time { secs: 0, nanos: 0 });
    for (secs, nanos) in [(0u32, 0u32), (45_296, 500_000_000), (45_296, 123_000), (45_296, 1), (86_399, 1_500_000_000), (59, 1_000_000_000)] {
        let t = Time { secs, nanos };
        let n = NaiveTime::from_num_seconds_from_midnight_opt(secs, nanos).unwrap();
        assert_eq!(t.to_text(), n.to_string());
        assert_eq!(t.format_hour_minute(), n.format("%H:%M").to_string());
        assert_eq!(t.secs, n.num_seconds_from_midnight());
    }
    assert_eq!(Time { secs: 86_399, nanos: 1_500_000_000 }.to_text(), "23:59:60.500");
}

#[test]
fn time_order_is_seconds_then_fraction() {
    let a = Time { secs: 10, nanos: 5 };
    let b = Time { secs: 10, nanos: 6 };
    let c = Time { secs: 11, nanos: 0 };
    assert!(a.is_not_after(&b));
    assert!(!b.is_not_after(&a));
    assert!(b.is_not_after(&c));
    assert!(a.is_not_after(&a));
}

use tg_trainer::calendar::{format_date_parts, format_day_month_parts};

#[test]
fn date_parts_format_like_strftime() {
    assert_eq!(format_day_month_parts(5, 9), "05.09");
    assert_eq!(format_day_month_parts(31, 12), "31.12");
    assert_eq!(format_date_parts(2025, 9, 5), "2025-09-05");
    assert_eq!(format_date_parts(-5, 1, 2), "-0005-01-02");
    assert_eq!(format_date_parts(262142, 12, 31), "+262142-12-31");
    assert_eq!(format_date_parts(0, 2, 29), "0000-02-29");
}

#[test]
fn day_numbers_and_weekdays_agree_with_chrono_over_the_calendar() {
    let mut d = NaiveDate::from_ymd_opt(-401, 1, 1).unwrap();
    let end = NaiveDate::from_ymd_opt(2401, 12, 31).unwrap();
    while d <= end {
        let ours = date(d.year(), d.month(), d.day());
        assert_eq!(ours.days, d.num_days_from_ce());
        assert_eq!(ours.ymd(), (d.year(), d.month(), d.day()));
        assert_eq!(ours.weekday_from_monday(), d.weekday().num_days_from_monday());
        assert_eq!(ours.weekday_from_monday() as i64, ((ours.days as i64 - 1).rem_euclid(7)));
        d = d + chrono::Duration::days(13);
    }
    for (y, m, dd) in [(2023, 2, 29), (1900, 2, 29), (-100, 2, 29), (2023, 4, 31), (2023, 13, 1), (2023, 0, 1), (262143, 1, 1)] {
        assert!(Date::from_ymd(y, m, dd).is_none());
        assert!(NaiveDate::from_ymd_opt(y, m, dd).is_none());
    }
    for (y, m, dd) in [(2000, 2, 29), (-4, 2, 29), (-400, 2, 29), (262142, 12, 31), (-262143, 1, 1)] {
        assert_eq!(Date::from_ymd(y, m, dd).unwrap().days, NaiveDate::from_ymd_opt(y, m, dd).unwrap().num_days_from_ce());
    }
}

#[test]
fn validity_checks() {
    assert!(date(2025, 1, 1).is_valid());
    assert!(!Date { days: MAX_DAY + 1 }.is_valid());
    assert!(Time { secs: 59, nanos: 1_500_000_000 }.is_valid());
    assert!(!Time { secs: 58, nanos: 1_500_000_000 }.is_valid());
    assert!(!Time { secs: 86_400, nanos: 0 }.is_valid());
}
