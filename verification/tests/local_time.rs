use chrono::{Datelike, Local, NaiveDate, TimeZone};
use next_meeting::date::{Date, MAX_DAY};
use next_meeting::local_time::{clock_at, local_dt, now, or_now, resolve_local, zone_name, LocalTime};

fn date(y: i32, m: u32, d: u32) -> Date {
    Date { day_number: NaiveDate::from_ymd_opt(y, m, d).unwrap().num_days_from_ce() }
}

fn at(wall_secs: i64, nanos: u32, offset_secs: i32) -> LocalTime {
    LocalTime { wall_secs, nanos, offset_secs }
}

#[test]
fn the_wall_clock() {
    let t = at(13 * 3600 + 5 * 60 + 59, 0, -7200);
    assert_eq!((t.hour(), t.minute(), t.minute_of_day()), (13, 5, 785));
    assert_eq!(t.date_naive(), date(1970, 1, 1));
    let before = at(-1, 0, 0);
    assert_eq!((before.hour(), before.minute()), (23, 59));
    assert_eq!(before.date_naive(), date(1969, 12, 31));
}

#[test]
fn times_are_ordered_as_they_follow_one_another() {
    assert_eq!(at(3600, 5, 3600), at(0, 5, 0));
    assert!(at(3600, 0, 3600) < at(1, 0, 0));
    assert!(at(0, 1, 0) > at(0, 0, 0));
    assert!(at(0, 0, 0).is_before(&at(0, 1, 0)));
    assert!(!at(0, 0, 0).is_before(&at(7200, 0, 7200)));
    assert!(at(0, 0, 0) != at(0, 0, 1));
}

#[test]
fn offsets_in_words() {
    assert_eq!(zone_name(&at(0, 0, 0)), "+00:00");
    assert_eq!(zone_name(&at(0, 0, -7 * 3600)), "-07:00");
    assert_eq!(zone_name(&at(0, 0, 5 * 3600 + 1800)), "+05:30");
    assert_eq!(zone_name(&at(0, 0, 3600 + 61)), "+01:01:01");
    assert_eq!(zone_name(&at(0, 0, -86399)), "-23:59:59");
}

#[test]
fn minutes_of_a_day_on_the_clock() {
    let day = date(2026, 6, 15);
    assert_eq!(clock_at(day, 0), (day, 0, 0));
    assert_eq!(clock_at(day, -5), (day, 0, 0));
    assert_eq!(clock_at(day, 545), (day, 9, 5));
    assert_eq!(clock_at(day, 1439), (day, 23, 59));
    assert_eq!(clock_at(day, 1440), (date(2026, 6, 16), 0, 0));
    assert_eq!(clock_at(day, 2000), (date(2026, 6, 16), 0, 0));
    let last = Date { day_number: MAX_DAY };
    assert_eq!(clock_at(last, 1440), (last, 0, 0));
}

#[test]
fn minutes_of_a_day_in_the_zone_of_the_machine() {
    let t = Local.with_ymd_and_hms(2026, 6, 15, 9, 5, 0).earliest().unwrap();
    let expected = at(
        t.naive_local().and_utc().timestamp(),
        0,
        t.offset().local_minus_utc(),
    );
    let found = resolve_local(date(2026, 6, 15), 545).unwrap();
    assert_eq!(found, expected);
    assert_eq!(found.wall_secs, expected.wall_secs);
    assert_eq!(local_dt(date(2026, 6, 15), 545, now()), expected);
    assert_eq!(found.date_naive(), date(2026, 6, 15));
    assert_eq!(found.minute_of_day(), 545);
}

#[test]
fn the_end_of_a_day_is_the_next_midnight() {
    let end = local_dt(date(2026, 6, 15), 1440, now());
    assert_eq!(end, local_dt(date(2026, 6, 16), 0, now()));
}

#[test]
fn a_time_that_the_clock_skips_is_now() {
    let t = at(100, 0, 0);
    assert_eq!(or_now(None, t), t);
    assert_eq!(or_now(Some(at(5, 0, 0)), t), at(5, 0, 0));
}

#[test]
fn the_current_time() {
    let before = Local::now().timestamp();
    let t = now();
    let after = Local::now().timestamp();
    let utc = t.wall_secs - i64::from(t.offset_secs);
    assert!(before <= utc && utc <= after);
    assert_eq!(t.offset_secs, Local::now().offset().local_minus_utc());
}
