use chrono::{Local, TimeZone};
use next_meeting::local_time::LocalTime;
use next_meeting::locale::Locale;
use next_meeting::scheduling::{compose_availability, merge_spans, Span};

fn dt(y: i32, mo: u32, d: u32, h: u32, mi: u32) -> LocalTime {
    let t = Local.with_ymd_and_hms(y, mo, d, h, mi, 0).unwrap();
    LocalTime {
        wall_secs: t.naive_local().and_utc().timestamp(),
        nanos: t.timestamp_subsec_nanos(),
        offset_secs: t.offset().local_minus_utc(),
    }
}

/// A time on a clock that is `offset` seconds ahead of UTC.
fn at(secs: i64, offset: i32) -> LocalTime {
    LocalTime { wall_secs: secs, nanos: 0, offset_secs: offset }
}

fn posix() -> Locale {
    Locale { time_format: None, weekdays: vec![None; 7], months: vec![None; 12] }
}

fn twelve_hours() -> Locale {
    Locale {
        time_format: Some("%I:%M:%S %p".to_string()),
        weekdays: vec![None; 7],
        months: vec![None; 12],
    }
}

#[test]
fn merges_overlapping_same_day() {
    let m = merge_spans(&[
        (dt(2026, 6, 15, 9, 0), dt(2026, 6, 15, 10, 0)),
        (dt(2026, 6, 15, 9, 30), dt(2026, 6, 15, 11, 0)),
    ]);
    assert_eq!(m.len(), 1);
    assert_eq!(m[0], (dt(2026, 6, 15, 9, 0), dt(2026, 6, 15, 11, 0)));
}

#[test]
fn merges_touching_spans() {
    let m = merge_spans(&[
        (dt(2026, 6, 15, 9, 0), dt(2026, 6, 15, 10, 0)),
        (dt(2026, 6, 15, 10, 0), dt(2026, 6, 15, 11, 0)),
    ]);
    assert_eq!(m.len(), 1);
    assert_eq!(m[0].1, dt(2026, 6, 15, 11, 0));
}

#[test]
fn keeps_gap_same_day() {
    let m = merge_spans(&[
        (dt(2026, 6, 15, 9, 0), dt(2026, 6, 15, 10, 0)),
        (dt(2026, 6, 15, 14, 0), dt(2026, 6, 15, 15, 0)),
    ]);
    assert_eq!(m.len(), 2);
}

#[test]
fn sorts_unordered_and_separates_days() {
    let m = merge_spans(&[
        (dt(2026, 6, 16, 9, 0), dt(2026, 6, 16, 10, 0)),
        (dt(2026, 6, 15, 9, 0), dt(2026, 6, 15, 10, 0)),
    ]);
    assert_eq!(m.len(), 2);
    assert!(m[0].0 < m[1].0, "spans should be chronological");
}

#[test]
fn compose_empty_is_empty() {
    assert_eq!(compose_availability(&posix(), &[], "Intro:"), "");
}

#[test]
fn compose_uses_intro_and_one_line_per_day() {
    let msg = compose_availability(
        &posix(),
        &[
            (dt(2026, 6, 15, 9, 0), dt(2026, 6, 15, 10, 0)),
            (dt(2026, 6, 16, 9, 0), dt(2026, 6, 16, 10, 0)),
        ],
        "Intro:",
    );
    assert!(msg.starts_with("Intro:"), "got: {msg}");
    assert_eq!(msg.matches('•').count(), 2);
}

#[test]
fn message_on_a_24h_clock() {
    let spans = [
        (dt(2026, 6, 15, 9, 0), dt(2026, 6, 15, 10, 30)),
        (dt(2026, 6, 16, 13, 0), dt(2026, 6, 16, 14, 5)),
        (dt(2026, 6, 15, 14, 0), dt(2026, 6, 15, 15, 0)),
    ];
    assert_eq!(
        compose_availability(&posix(), &spans, "My times:"),
        "My times:\n\n• Mon, Jun 15: 09:00 – 10:30, 14:00 – 15:00\n• Tue, Jun 16: 13:00 – 14:05"
    );
}

#[test]
fn message_on_a_12h_clock_gives_a_shared_meridiem_once() {
    let spans = [
        (dt(2026, 6, 15, 9, 0), dt(2026, 6, 15, 10, 30)),
        (dt(2026, 6, 15, 11, 0), dt(2026, 6, 15, 13, 0)),
        (dt(2026, 6, 16, 12, 0), dt(2026, 6, 16, 14, 0)),
    ];
    assert_eq!(
        compose_availability(&twelve_hours(), &spans, "I"),
        "I\n\n• Mon, Jun 15: 9:00 – 10:30 AM, 11:00 AM – 1:00 PM\n• Tue, Jun 16: 12:00 – 2:00 PM"
    );
}

#[test]
fn message_in_the_locale_of_the_user() {
    let mut locale = posix();
    locale.weekdays[1] = Some("lun.".to_string());
    locale.months[5] = Some("juin".to_string());
    let spans = [(dt(2026, 6, 15, 9, 0), dt(2026, 6, 15, 10, 0))];
    assert_eq!(
        compose_availability(&locale, &spans, ""),
        "\n\n• lun., juin 15: 09:00 – 10:00"
    );
}

#[test]
fn spans_on_two_days_do_not_join_though_they_touch() {
    let day = 86400;
    let spans = [(at(day - 3600, 0), at(day, 0)), (at(day, 0), at(day + 3600, 0))];
    assert_eq!(merge_spans(&spans).len(), 2);
}

#[test]
fn a_span_within_another_adds_nothing() {
    let spans = [(at(0, 0), at(7200, 0)), (at(600, 0), at(1200, 0))];
    assert_eq!(merge_spans(&spans), vec![(at(0, 0), at(7200, 0))]);
}

#[test]
fn spans_that_start_together_stay_in_their_order() {
    // The same points in time, read on clocks that are an hour apart.
    let spans: Vec<Span> = vec![(at(86400, 0), at(86400, 0)), (at(86400 - 3600, -3600), at(90000, 0))];
    let m = merge_spans(&spans);
    assert_eq!(m.len(), 2);
    assert_eq!(m[0].0.offset_secs, 0);
    assert_eq!(m[1].0.offset_secs, -3600);
}

#[test]
fn merging_twice_comes_to_the_same() {
    let spans = [
        (at(7200, 0), at(9000, 0)),
        (at(0, 0), at(3600, 0)),
        (at(3600, 0), at(5400, 0)),
        (at(100000, 0), at(101000, 0)),
    ];
    let once = merge_spans(&spans);
    assert_eq!(once, vec![
        (at(0, 0), at(5400, 0)),
        (at(7200, 0), at(9000, 0)),
        (at(100000, 0), at(101000, 0)),
    ]);
    assert_eq!(merge_spans(&once), once);
}

#[test]
fn merging_in_steps_comes_to_the_same() {
    let first = [(at(0, 0), at(3600, 0)), (at(10800, 0), at(14400, 0))];
    let more = [(at(3000, 0), at(11000, 0))];
    let mut stepped = merge_spans(&first);
    stepped.extend(more);
    let mut all = first.to_vec();
    all.extend(more);
    assert_eq!(merge_spans(&stepped), merge_spans(&all));
    assert_eq!(merge_spans(&all), vec![(at(0, 0), at(14400, 0))]);
}

#[test]
fn the_order_in_which_spans_come_makes_no_difference() {
    let a = [(at(0, 0), at(600, 0)), (at(500, 0), at(900, 0)), (at(2000, 0), at(2500, 0))];
    let b = [a[2], a[0], a[1], a[0]];
    assert_eq!(merge_spans(&a), merge_spans(&b));
    let message = compose_availability(&posix(), &a, "Intro");
    assert_eq!(compose_availability(&posix(), &b, "Intro"), message);
    assert_eq!(compose_availability(&posix(), &[a[1], a[2], a[0]], "Intro"), message);
    assert_eq!(compose_availability(&posix(), &merge_spans(&a), "Intro"), message);
}
