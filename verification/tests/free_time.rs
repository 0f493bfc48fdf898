use chrono::{Datelike, NaiveDate};
use next_meeting::calendar::CalendarEventBlock;
use next_meeting::date::Date;
use next_meeting::free_time::{clamp, day_windows, first_minute_of, free_slots, Slot};
use next_meeting::local_time::LocalTime;

fn monday() -> Date {
    Date { day_number: NaiveDate::from_ymd_opt(2026, 6, 15).unwrap().num_days_from_ce() }
}

fn later(days: i32) -> Date {
    Date { day_number: monday().day_number + days }
}

fn at(day: Date, minute: i64) -> LocalTime {
    LocalTime {
        wall_secs: (i64::from(day.day_number) - 719163) * 86400 + minute * 60,
        nanos: 0,
        offset_secs: 0,
    }
}

fn event(start: LocalTime, end: LocalTime) -> CalendarEventBlock {
    CalendarEventBlock {
        calendar_uid: "work".to_string(),
        title: "Standup".to_string(),
        color: None,
        start,
        end,
    }
}

fn meeting(day: Date, from: i64, to: i64) -> CalendarEventBlock {
    event(at(day, from), at(day, to))
}

fn slot(date: Date, from: i32, to: i32) -> Slot {
    Slot { date, from, to }
}

#[test]
fn clamping() {
    assert_eq!(clamp(5, 1, 3), 3);
    assert_eq!(clamp(-5, 1, 3), 1);
    assert_eq!(clamp(2, 1, 3), 2);
}

#[test]
fn a_day_without_events_is_free() {
    assert_eq!(day_windows(&vec![], monday(), 540, 1020, 540), vec![(540, 1020)]);
}

#[test]
fn windows_lie_between_the_events() {
    let events = vec![
        meeting(monday(), 840, 900),
        meeting(monday(), 600, 660),
        meeting(monday(), 630, 690),
        meeting(later(1), 700, 710),
    ];
    assert_eq!(
        day_windows(&events, monday(), 540, 1020, 540),
        vec![(540, 600), (690, 840), (900, 1020)]
    );
}

#[test]
fn windows_shorter_than_a_step_are_left_out() {
    let events = vec![meeting(monday(), 554, 600), meeting(monday(), 615, 1005)];
    assert_eq!(
        day_windows(&events, monday(), 540, 1020, 540),
        vec![(600, 615), (1005, 1020)]
    );
}

#[test]
fn events_outside_the_hours_take_nothing() {
    let events = vec![
        meeting(monday(), 0, 540),
        meeting(monday(), 1020, 1100),
        meeting(monday(), 700, 700),
        event(at(later(-1), 600), at(monday(), 500)),
        event(at(later(-2), 600), at(later(-1), 700)),
        event(at(later(1), 600), at(later(2), 700)),
    ];
    assert_eq!(day_windows(&events, monday(), 540, 1020, 540), vec![(540, 1020)]);
}

#[test]
fn an_event_from_the_day_before_takes_the_start_of_the_day() {
    let overnight = vec![event(at(later(-1), 1320), at(monday(), 720))];
    assert_eq!(day_windows(&overnight, monday(), 540, 1020, 540), vec![(720, 1020)]);
    let long = vec![event(at(later(-1), 600), at(later(1), 30))];
    assert_eq!(day_windows(&long, monday(), 540, 1020, 540), vec![]);
}

#[test]
fn an_event_past_midnight_takes_the_rest_of_the_day() {
    let events = vec![event(at(monday(), 900), at(later(1), 60))];
    assert_eq!(day_windows(&events, monday(), 540, 1440, 540), vec![(540, 900)]);
    assert_eq!(day_windows(&events, later(1), 0, 120, 0), vec![(60, 120)]);
}

#[test]
fn a_minute_that_an_event_ends_in_is_taken() {
    let mut late = meeting(monday(), 600, 660);
    late.end.wall_secs += 30;
    assert_eq!(
        day_windows(&vec![late], monday(), 540, 1020, 540),
        vec![(540, 600), (661, 1020)]
    );
    let mut barely = meeting(monday(), 600, 660);
    barely.end.nanos = 1;
    assert_eq!(
        day_windows(&vec![barely], monday(), 540, 1020, 540),
        vec![(540, 600), (661, 1020)]
    );
    let mut late_start = meeting(monday(), 600, 660);
    late_start.start.wall_secs += 30;
    assert_eq!(
        day_windows(&vec![late_start], monday(), 540, 1020, 540),
        vec![(540, 600), (660, 1020)]
    );
    let mut empty = meeting(monday(), 600, 600);
    empty.start.wall_secs += 30;
    empty.end.wall_secs += 30;
    assert_eq!(day_windows(&vec![empty], monday(), 540, 1020, 540), vec![(540, 1020)]);
    let mut to_midnight = meeting(monday(), 600, 1439);
    to_midnight.end.wall_secs += 30;
    assert_eq!(day_windows(&vec![to_midnight], monday(), 540, 1440, 540), vec![(540, 600)]);
}

#[test]
fn today_starts_at_the_next_step() {
    assert_eq!(first_minute_of(&at(monday(), 600), monday(), 540), 600);
    assert_eq!(first_minute_of(&at(monday(), 601), monday(), 540), 615);
    assert_eq!(first_minute_of(&at(monday(), 100), monday(), 540), 540);
    assert_eq!(first_minute_of(&at(monday(), 601), later(1), 540), 540);
}

#[test]
fn a_minute_that_has_begun_is_past() {
    let mut now = at(monday(), 600);
    now.wall_secs += 30;
    assert_eq!(first_minute_of(&now, monday(), 540), 615);
    let mut just_after = at(monday(), 600);
    just_after.nanos = 1;
    assert_eq!(first_minute_of(&just_after, monday(), 540), 615);
    let mut last = at(monday(), 1439);
    last.wall_secs += 1;
    assert_eq!(first_minute_of(&last, monday(), 540), 1440);
}

#[test]
fn slots_of_a_week() {
    let days = vec![monday(), later(1), later(2)];
    let events = vec![meeting(later(1), 540, 1020), meeting(later(2), 600, 1000)];
    assert_eq!(
        free_slots(&events, &days, 540, 1020, &at(monday(), 1000)),
        vec![slot(monday(), 1005, 1020), slot(later(2), 540, 600), slot(later(2), 1000, 1020)]
    );
}

#[test]
fn a_day_that_is_over_has_no_slots() {
    let now = at(monday(), 1100);
    assert_eq!(free_slots(&vec![], &vec![monday()], 540, 1020, &now), vec![]);
    let almost = at(monday(), 1006);
    assert_eq!(free_slots(&vec![], &vec![monday()], 540, 1020, &almost), vec![]);
}
