use chrono::{Datelike, NaiveDate};
use next_meeting::date::Date;
use next_meeting::local_time::LocalTime;
use next_meeting::locale::{
    bare_time, day_header, format_time, hour_axis_label, long_date, short_date, to_12h,
    uses_24h_clock, Locale,
};

fn posix() -> Locale {
    Locale { time_format: None, weekdays: vec![None; 7], months: vec![None; 12] }
}

fn with_format(format: &str) -> Locale {
    Locale { time_format: Some(format.to_string()), ..posix() }
}

fn date(y: i32, m: u32, d: u32) -> Date {
    Date { day_number: NaiveDate::from_ymd_opt(y, m, d).unwrap().num_days_from_ce() }
}

fn clock(hour: i64, minute: i64) -> LocalTime {
    LocalTime { wall_secs: hour * 3600 + minute * 60 + 59, nanos: 0, offset_secs: 3600 }
}

#[test]
fn hour_labels_on_a_24h_clock() {
    assert_eq!(hour_axis_label(&posix(), 9), "09");
    assert_eq!(hour_axis_label(&posix(), 0), "00");
    assert_eq!(hour_axis_label(&posix(), 24), "00");
    assert_eq!(hour_axis_label(&posix(), 23), "23");
}

#[test]
fn hour_labels_on_a_12h_clock() {
    let locale = with_format("%r");
    assert_eq!(hour_axis_label(&locale, 0), "12 AM");
    assert_eq!(hour_axis_label(&locale, 9), "9 AM");
    assert_eq!(hour_axis_label(&locale, 12), "12 PM");
    assert_eq!(hour_axis_label(&locale, 13), "1 PM");
    assert_eq!(hour_axis_label(&locale, 24), "12 AM");
}

#[test]
fn the_time_format_decides_on_the_clock() {
    assert!(uses_24h_clock(&posix()));
    assert!(uses_24h_clock(&with_format("%H:%M:%S")));
    assert!(uses_24h_clock(&with_format("% I p r")));
    assert!(!uses_24h_clock(&with_format("%I:%M:%S")));
    assert!(!uses_24h_clock(&with_format("%r")));
    assert!(!uses_24h_clock(&with_format("%H:%M %p")));
    assert!(uses_24h_clock(&with_format("")));
}

#[test]
fn hours_of_a_12h_clock() {
    assert_eq!(to_12h(0), (12, "AM"));
    assert_eq!(to_12h(1), (1, "AM"));
    assert_eq!(to_12h(11), (11, "AM"));
    assert_eq!(to_12h(12), (12, "PM"));
    assert_eq!(to_12h(23), (11, "PM"));
    assert_eq!(to_12h(25), (1, "AM"));
}

#[test]
fn times_of_day() {
    assert_eq!(format_time(&posix(), &clock(9, 5)), "09:05");
    assert_eq!(format_time(&posix(), &clock(0, 0)), "00:00");
    assert_eq!(format_time(&with_format("%I"), &clock(9, 5)), "9:05 AM");
    assert_eq!(format_time(&with_format("%I"), &clock(12, 0)), "12:00 PM");
    assert_eq!(format_time(&with_format("%I"), &clock(23, 59)), "11:59 PM");
    assert_eq!(bare_time(&clock(13, 30)), "1:30");
}

#[test]
fn dates_without_a_locale_are_in_english() {
    assert_eq!(day_header(&posix(), date(2026, 6, 15)), "Mon 15");
    assert_eq!(day_header(&posix(), date(2026, 6, 7)), "Sun 7");
    assert_eq!(short_date(&posix(), date(2026, 6, 15)), "Jun 15");
    assert_eq!(long_date(&posix(), date(2024, 2, 29)), "Thu, Feb 29");
    assert_eq!(long_date(&posix(), date(2026, 12, 31)), "Thu, Dec 31");
}

#[test]
fn dates_in_the_locale_of_the_user() {
    let mut locale = posix();
    locale.weekdays[0] = Some("dim.".to_string());
    locale.months[0] = Some("janv.".to_string());
    assert_eq!(day_header(&locale, date(2026, 1, 4)), "dim. 4");
    assert_eq!(short_date(&locale, date(2026, 1, 31)), "janv. 31");
    assert_eq!(long_date(&locale, date(2026, 1, 4)), "dim., janv. 4");
    assert_eq!(long_date(&locale, date(2026, 1, 5)), "Mon, janv. 5");
}
