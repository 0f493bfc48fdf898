use chrono::{Datelike, NaiveDate};
use next_meeting::calendar::{CalendarEventBlock, CalendarInfo};
use next_meeting::date::{Date, MAX_DAY};
use next_meeting::free_time::Slot;
use next_meeting::gesture::Reaction;
use next_meeting::local_time::{now, LocalTime};
use next_meeting::locale::Locale;
use next_meeting::scheduling::Span;
use next_meeting::scheduling_app::{
    picked_spans, timezone_at, timezone_label, Effect, Msg, OptionsPage, SchedulingApp, FETCH_DAYS,
    MAX_WEEK_OFFSET,
};
use next_meeting::uid_set::UidSet;
use next_meeting::window::{
    gesture_message, message_at, pick_day_end, pick_day_start, CalendarRow, Summary,
};

fn posix() -> Locale {
    Locale { time_format: None, weekdays: vec![None; 7], months: vec![None; 12] }
}

fn monday() -> Date {
    Date { day_number: NaiveDate::from_ymd_opt(2026, 6, 15).unwrap().num_days_from_ce() }
}

fn later(days: i32) -> Date {
    Date { day_number: monday().day_number + days }
}

fn at(day: Date, minute: i64) -> LocalTime {
    LocalTime {
        wall_secs: (i64::from(day.day_number) - 719163) * 86400 + minute * 60,
        nanos: 0,
        offset_secs: 0,
    }
}

fn span(day: Date, from: i64, to: i64) -> Span {
    (at(day, from), at(day, to))
}

fn event(calendar: &str, from: i64, to: i64) -> CalendarEventBlock {
    CalendarEventBlock {
        calendar_uid: calendar.to_string(),
        title: format!("{calendar} {from}"),
        color: Some("#3584e4".to_string()),
        start: at(monday(), from),
        end: at(monday(), to),
    }
}

fn calendar(uid: &str, meeting_source: bool) -> CalendarInfo {
    CalendarInfo {
        uid: uid.to_string(),
        display_name: uid.to_uppercase(),
        color: None,
        meeting_source,
    }
}

fn open(enabled: &[&str]) -> SchedulingApp {
    SchedulingApp::init(enabled.iter().map(|u| u.to_string()).collect(), vec!["me@x".to_string()])
}

fn send(app: &mut SchedulingApp, msg: Msg) {
    assert!(matches!(app.update(msg, &posix(), "Intro"), Effect::Nothing));
}

fn titles(app: &SchedulingApp) -> Vec<String> {
    app.visible_events.iter().map(|e| e.title.clone()).collect()
}

#[test]
fn the_window_as_it_opens() {
    let app = open(&["a"]);
    assert_eq!(app.enabled_uids, ["a"]);
    assert_eq!(app.additional_emails, ["me@x"]);
    assert_eq!((app.day_start_hour, app.day_end_hour, app.week_offset), (9, 17, 0));
    assert!(app.loading && !app.show_options && !app.include_weekends);
    assert!(app.events.is_empty() && app.calendars.is_empty() && app.availability.is_empty());
    assert_eq!(app.selected_calendars.len(), 0);
    assert_eq!(app.options_page, OptionsPage::default());
    assert!(matches!(app.on_close_requested(), Some(Msg::Close)));
}

#[test]
fn all_events_are_shown_until_the_calendars_are_known() {
    let mut app = open(&[]);
    send(&mut app, Msg::EventsLoaded(vec![event("a", 600, 660), event("b", 700, 760)]));
    assert!(!app.loading);
    assert_eq!(titles(&app), ["a 600", "b 700"]);
    send(&mut app, Msg::CalendarsLoaded(vec![calendar("b", true), calendar("c", false)]));
    assert_eq!(app.calendars.len(), 1);
    assert_eq!(titles(&app), ["b 700"]);
}

#[test]
fn toggling_a_calendar() {
    let mut app = open(&[]);
    send(&mut app, Msg::CalendarsLoaded(vec![calendar("a", true), calendar("b", true)]));
    send(&mut app, Msg::EventsLoaded(vec![event("a", 600, 660), event("b", 700, 760)]));
    assert_eq!(app.calendar_summary(), Summary::All);
    send(&mut app, Msg::ToggleCalendar("a".to_string()));
    assert_eq!(titles(&app), ["b 700"]);
    assert_eq!(app.calendar_summary(), Summary::Counted { selected: 1, total: 2 });
    send(&mut app, Msg::ToggleCalendar("a".to_string()));
    assert_eq!(titles(&app), ["a 600", "b 700"]);
    assert_eq!(app.calendar_summary(), Summary::All);
}

#[test]
fn calendars_that_are_not_enabled_stay_off() {
    let mut app = open(&["a"]);
    send(&mut app, Msg::CalendarsLoaded(vec![calendar("a", true), calendar("b", true)]));
    send(&mut app, Msg::EventsLoaded(vec![event("a", 600, 660), event("b", 700, 760)]));
    assert!(app.is_calendar_enabled(&"a".to_string()));
    assert!(!app.is_calendar_enabled(&"b".to_string()));
    assert_eq!(titles(&app), ["a 600"]);
    send(&mut app, Msg::ToggleCalendar("b".to_string()));
    assert_eq!(titles(&app), ["a 600"]);
    assert_eq!(
        app.options_calendars_page(),
        vec![
            CalendarRow { enabled: true, checked: true },
            CalendarRow { enabled: false, checked: false },
        ]
    );
    assert_eq!(app.calendar_summary(), Summary::All);
    send(&mut app, Msg::ToggleCalendar("a".to_string()));
    assert_eq!(app.options_calendars_page()[0], CalendarRow { enabled: true, checked: false });
}

#[test]
fn no_calendars_are_not_all() {
    let app = open(&[]);
    assert_eq!(app.calendar_summary(), Summary::Counted { selected: 0, total: 0 });
}

#[test]
fn the_hours_stay_in_order() {
    let mut app = open(&[]);
    send(&mut app, Msg::SetDayStart(20));
    assert_eq!((app.day_start_hour, app.day_end_hour), (20, 21));
    send(&mut app, Msg::SetDayStart(23));
    assert_eq!((app.day_start_hour, app.day_end_hour), (23, 24));
    send(&mut app, Msg::SetDayStart(8));
    assert_eq!((app.day_start_hour, app.day_end_hour), (8, 24));
    send(&mut app, Msg::SetDayEnd(5));
    assert_eq!((app.day_start_hour, app.day_end_hour), (4, 5));
    send(&mut app, Msg::SetDayEnd(0));
    assert_eq!((app.day_start_hour, app.day_end_hour), (0, 0));
    send(&mut app, Msg::SetDayStart(30));
    assert_eq!((app.day_start_hour, app.day_end_hour), (30, 24));
}

#[test]
fn hours_are_picked_from_lists() {
    assert!(matches!(pick_day_start(0), Msg::SetDayStart(0)));
    assert!(matches!(pick_day_start(23), Msg::SetDayStart(23)));
    assert!(matches!(pick_day_end(0), Msg::SetDayEnd(1)));
    assert!(matches!(pick_day_end(23), Msg::SetDayEnd(24)));
    assert!(matches!(pick_day_start(1 << 40), Msg::SetDayStart(9)));
    assert!(matches!(pick_day_end(1 << 40), Msg::SetDayEnd(17)));
}

#[test]
fn the_main_page_of_the_options() {
    let mut app = open(&[]);
    send(&mut app, Msg::SetWeekends(true));
    let page = app.options_main_page(&posix());
    assert_eq!(page.start_labels.len(), 24);
    assert_eq!((page.start_labels[0].as_str(), page.start_labels[23].as_str()), ("00", "23"));
    assert_eq!(page.end_labels.len(), 24);
    assert_eq!((page.end_labels[0].as_str(), page.end_labels[23].as_str()), ("01", "00"));
    assert_eq!((page.start_index, page.end_index), (9, 16));
    assert!(page.include_weekends);
    send(&mut app, Msg::SetDayEnd(0));
    assert_eq!(app.options_main_page(&posix()).end_index, 0);
}

#[test]
fn options_open_at_their_main_page() {
    let mut app = open(&[]);
    send(&mut app, Msg::ToggleOptions);
    send(&mut app, Msg::OpenCalendarsPage);
    assert_eq!(app.pane(&posix(), &vec![], "").options, Some(OptionsPage::Calendars));
    send(&mut app, Msg::OptionsBack);
    assert_eq!(app.options_page, OptionsPage::Main);
    send(&mut app, Msg::OpenCalendarsPage);
    send(&mut app, Msg::CloseOptions);
    assert_eq!(app.pane(&posix(), &vec![], "").options, None);
    send(&mut app, Msg::ToggleOptions);
    assert_eq!(app.pane(&posix(), &vec![], "").options, Some(OptionsPage::Main));
    send(&mut app, Msg::OpenCalendarsPage);
    send(&mut app, Msg::ToggleOptions);
    assert!(!app.show_options);
    assert_eq!(app.options_page, OptionsPage::Calendars);
}

#[test]
fn paging_through_the_weeks() {
    let mut app = open(&[]);
    send(&mut app, Msg::PrevWeek);
    assert_eq!(app.week_offset, 0);
    let pane = app.pane(&posix(), &vec![], "");
    assert!(!pane.can_go_back && pane.can_go_forward);
    for _ in 0..5 {
        send(&mut app, Msg::NextWeek);
    }
    assert_eq!(app.week_offset, MAX_WEEK_OFFSET);
    let pane = app.pane(&posix(), &vec![], "");
    assert!(pane.can_go_back && !pane.can_go_forward);
    send(&mut app, Msg::PrevWeek);
    assert_eq!(app.week_offset, 2);
    assert_eq!(FETCH_DAYS, 7 * (MAX_WEEK_OFFSET + 1));
}

#[test]
fn the_days_of_a_week() {
    let mut app = open(&[]);
    let wednesday = later(2);
    assert_eq!(
        app.visible_days_from(wednesday).unwrap(),
        vec![later(2), later(3), later(4), later(7), later(8)]
    );
    send(&mut app, Msg::SetWeekends(true));
    send(&mut app, Msg::NextWeek);
    let days = app.visible_days_from(wednesday).unwrap();
    assert_eq!(days, (9..16).map(later).collect::<Vec<_>>());
    assert_eq!(app.pane(&posix(), &days, "").week_label, "Jun 24 – Jun 30");
    assert_eq!(app.pane(&posix(), &vec![], "").week_label, "");
    let last = Date { day_number: MAX_DAY };
    assert_eq!(app.visible_days_from(last), None);
    send(&mut app, Msg::PrevWeek);
    assert_eq!(app.visible_days_from(last), Some(vec![last]));
}

#[test]
fn the_days_that_are_shown_today() {
    let mut app = open(&[]);
    assert_eq!(app.visible_days().unwrap().len(), 5);
    send(&mut app, Msg::SetWeekends(true));
    assert_eq!(app.visible_days().unwrap().len(), 7);
}

#[test]
fn marking_and_clearing_spans() {
    let mut app = open(&[]);
    send(&mut app, Msg::AddAvailability(at(monday(), 600), at(monday(), 660)));
    send(&mut app, Msg::AddAvailability(at(monday(), 720), at(monday(), 780)));
    send(&mut app, Msg::AddAvailability(at(monday(), 540), at(monday(), 600)));
    assert_eq!(app.availability, vec![span(monday(), 540, 660), span(monday(), 720, 780)]);
    send(&mut app, Msg::ResizeAvailability(0, at(monday(), 540), at(monday(), 730)));
    assert_eq!(app.availability, vec![span(monday(), 540, 780)]);
    send(&mut app, Msg::ResizeAvailability(1, at(monday(), 0), at(monday(), 30)));
    assert_eq!(app.availability, vec![span(monday(), 540, 780)]);
    send(&mut app, Msg::RemoveAvailability(1));
    assert_eq!(app.availability.len(), 1);
    send(&mut app, Msg::RemoveAvailability(0));
    assert!(app.availability.is_empty());
    send(&mut app, Msg::AddAvailability(at(monday(), 600), at(monday(), 660)));
    send(&mut app, Msg::Clear);
    assert!(app.availability.is_empty());
}

#[test]
fn removing_a_span_keeps_the_others_apart() {
    let mut app = open(&[]);
    for k in 0..3 {
        send(&mut app, Msg::AddAvailability(at(monday(), 600 + 60 * k), at(monday(), 630 + 60 * k)));
    }
    send(&mut app, Msg::RemoveAvailability(1));
    assert_eq!(app.availability, vec![span(monday(), 600, 630), span(monday(), 720, 750)]);
}

#[test]
fn marking_the_same_again_changes_nothing() {
    let mut app = open(&[]);
    let added = vec![span(monday(), 600, 660), span(later(1), 600, 660)];
    app.mark(&added);
    let once = app.availability.clone();
    app.mark(&added);
    assert_eq!(app.availability, once);
    assert_eq!(once, added);
}

#[test]
fn copying_the_message() {
    let mut app = open(&[]);
    assert!(matches!(app.update(Msg::Copy, &posix(), "Intro"), Effect::Nothing));
    let pane = app.pane(&posix(), &vec![], "Intro");
    assert_eq!((pane.message.as_str(), pane.can_copy, pane.loading), ("", false, true));
    send(&mut app, Msg::AddAvailability(at(monday(), 600), at(monday(), 660)));
    match app.update(Msg::Copy, &posix(), "Intro") {
        Effect::WriteClipboard(text) => {
            assert_eq!(text, "Intro\n\n• Mon, Jun 15: 10:00 – 11:00");
            assert_eq!(text, app.message_text(&posix(), "Intro"));
        }
        other => panic!("{other:?}"),
    }
    assert!(app.pane(&posix(), &vec![], "Intro").can_copy);
    assert!(matches!(app.update(Msg::Close, &posix(), ""), Effect::Exit));
}

#[test]
fn free_time_that_can_be_picked() {
    let mut app = open(&[]);
    send(&mut app, Msg::EventsLoaded(vec![event("a", 600, 660)]));
    let days = vec![monday(), later(1)];
    assert_eq!(
        app.pickable_slots(&days, &at(monday(), 560)),
        vec![
            Slot { date: monday(), from: 570, to: 600 },
            Slot { date: monday(), from: 660, to: 1020 },
            Slot { date: later(1), from: 540, to: 1020 },
        ]
    );
}

#[test]
fn picking_free_time() {
    let mut app = open(&[]);
    send(&mut app, Msg::NextWeek);
    send(&mut app, Msg::AutoPick);
    assert_eq!(app.availability.len(), 5);
    for s in &app.availability {
        assert_eq!((s.0.minute_of_day(), s.1.minute_of_day()), (540, 1020));
        assert!(!s.0.date_naive().is_weekend());
        assert_eq!(s.0.date_naive(), s.1.date_naive());
    }
    send(&mut app, Msg::AutoPick);
    assert_eq!(app.availability.len(), 5);
}

#[test]
fn spans_of_what_the_time_zone_answers() {
    let (a, b, now) = (at(monday(), 600), at(monday(), 660), at(monday(), 5));
    let found = vec![(Some(a), Some(b)), (None, Some(b)), (Some(a), None), (None, None)];
    assert_eq!(picked_spans(&found, now), vec![(a, b), (now, b), (a, now), (now, now)]);
    assert_eq!(picked_spans(&vec![], now), vec![]);
}

#[test]
fn picking_skips_what_is_past_and_what_an_event_covers() {
    let mut app = open(&[]);
    let mut overnight = event("a", 1320, 1400);
    overnight.end = at(later(1), 720);
    send(&mut app, Msg::EventsLoaded(vec![overnight]));
    let mut now = at(monday(), 600);
    now.wall_secs += 30;
    app.auto_pick_at(now, monday());
    let first = app.availability[0];
    assert_eq!((first.0.date_naive(), first.0.minute_of_day()), (monday(), 615));
    let second = app.availability[1];
    assert_eq!((second.0.date_naive(), second.0.minute_of_day()), (later(1), 720));
    assert_eq!(second.1.minute_of_day(), 1020);
    let once = app.availability.clone();
    app.auto_pick_at(now, monday());
    assert_eq!(app.availability, once);
}

#[test]
fn picking_free_time_on_a_given_day() {
    let mut app = open(&[]);
    send(&mut app, Msg::EventsLoaded(vec![event("a", 600, 660)]));
    send(&mut app, Msg::AddAvailability(at(later(60), 600), at(later(60), 660)));
    app.auto_pick_at(at(monday(), 560), monday());
    let minutes: Vec<_> = app
        .availability
        .iter()
        .map(|s| (s.0.date_naive(), s.0.minute_of_day(), s.1.minute_of_day()))
        .collect();
    assert_eq!(
        minutes,
        vec![
            (monday(), 570, 600),
            (monday(), 660, 1020),
            (later(1), 540, 1020),
            (later(2), 540, 1020),
            (later(3), 540, 1020),
            (later(4), 540, 1020),
            (later(60), 600, 660),
        ]
    );
    send(&mut app, Msg::Clear);
    send(&mut app, Msg::NextWeek);
    app.auto_pick_at(at(monday(), 560), Date { day_number: MAX_DAY });
    assert!(app.availability.is_empty());
}

#[test]
fn nothing_is_picked_where_no_hours_are_shown() {
    let mut app = open(&[]);
    send(&mut app, Msg::SetDayEnd(0));
    send(&mut app, Msg::AutoPick);
    assert!(app.availability.is_empty());
}

#[test]
fn the_name_of_the_time_zone() {
    let now = LocalTime { wall_secs: 0, nanos: 0, offset_secs: -7 * 3600 };
    assert_eq!(timezone_at("PDT".to_string(), &now), "PDT");
    assert_eq!(timezone_at(String::new(), &now), "-07:00");
    assert_eq!(timezone_label("CET".to_string()), "CET");
    let offset = timezone_label(String::new());
    assert!(offset.starts_with('+') || offset.starts_with('-'));
    assert_eq!(offset.len(), 6);
}

#[test]
fn gestures_send_messages() {
    let slot = Slot { date: monday(), from: 600, to: 660 };
    match gesture_message(Reaction::Add(slot), now()) {
        Some(Msg::AddAvailability(start, end)) => {
            assert_eq!((start.date_naive(), start.minute_of_day()), (monday(), 600));
            assert_eq!((end.date_naive(), end.minute_of_day()), (monday(), 660));
        }
        other => panic!("{other:?}"),
    }
    match gesture_message(Reaction::Resize(3, slot), now()) {
        Some(Msg::ResizeAvailability(i, start, _)) => {
            assert_eq!((i, start.minute_of_day()), (3, 600));
        }
        other => panic!("{other:?}"),
    }
    assert!(matches!(gesture_message(Reaction::Remove(2), now()), Some(Msg::RemoveAvailability(2))));
    assert!(gesture_message(Reaction::Ignore, now()).is_none());
    assert!(gesture_message(Reaction::Redraw, now()).is_none());
    assert!(gesture_message(Reaction::Capture, now()).is_none());
    let (a, b) = (at(monday(), 1), at(monday(), 2));
    match message_at(Reaction::Add(slot), a, b) {
        Some(Msg::AddAvailability(start, end)) => assert_eq!((start, end), (a, b)),
        other => panic!("{other:?}"),
    }
}

#[test]
fn sets_of_calendars() {
    let (a, b) = ("a".to_string(), "b".to_string());
    let mut set = UidSet::new();
    assert!(set.insert(a.clone()));
    assert!(!set.insert(a.clone()));
    assert!(set.insert(b.clone()));
    assert_eq!(set.len(), 2);
    assert!(set.contains(&a) && set.contains(&b));
    assert!(set.remove(&a));
    assert!(!set.remove(&a));
    assert!(!set.contains(&a) && set.contains(&b));
    assert_eq!(set.len(), 1);
}
