use chrono::{Datelike, NaiveDate};
use next_meeting::calendar::CalendarEventBlock;
use next_meeting::date::Date;
use next_meeting::free_time::Slot;
use next_meeting::gesture::{
    topmost, topmost_edge, Active, Edge, EdgeProbe, GridEvent, GridState, Hover, Pointer, Press,
    Reaction,
};
use next_meeting::grid::{CalendarGrid, Layout};
use next_meeting::local_time::LocalTime;
use next_meeting::locale::Locale;
use next_meeting::scene::{label_hours, Block, Placed};
use next_meeting::scheduling::Span;

fn monday() -> Date {
    Date { day_number: NaiveDate::from_ymd_opt(2026, 6, 15).unwrap().num_days_from_ce() }
}

fn later(days: i32) -> Date {
    Date { day_number: monday().day_number + days }
}

fn at(day: Date, minute: i64) -> LocalTime {
    LocalTime {
        wall_secs: (i64::from(day.day_number) - 719163) * 86400 + minute * 60,
        nanos: 0,
        offset_secs: 0,
    }
}

fn span(day: Date, from: i64, to: i64) -> Span {
    (at(day, from), at(day, to))
}

fn event(day: Date, from: i64, to: i64) -> CalendarEventBlock {
    CalendarEventBlock {
        calendar_uid: "work".to_string(),
        title: "Standup".to_string(),
        color: None,
        start: at(day, from),
        end: at(day, to),
    }
}

fn grid<'a>(events: &'a Vec<CalendarEventBlock>, spans: &'a Vec<Span>) -> CalendarGrid<'a> {
    CalendarGrid {
        days: vec![monday(), later(1)],
        day_start_hour: 9,
        day_end_hour: 17,
        events,
        availability: spans,
    }
}

fn press(delete: Option<usize>, edge: Option<(usize, Edge)>, cell: Option<(usize, i32)>) -> GridEvent {
    GridEvent::Pressed(Some(Press { delete, edge, cell }))
}

fn moved(minute: i32) -> GridEvent {
    GridEvent::Moved(Some(Hover { minute, avail: None, event: None }))
}

fn layout() -> Layout {
    Layout { cols: 2, start_min: 540, total_min: 480 }
}

#[test]
fn the_layout_of_the_grid() {
    let (events, spans) = (vec![], vec![]);
    let mut g = grid(&events, &spans);
    assert_eq!(g.layout(), Some(layout()));
    assert_eq!(layout().bottom_min(), 1020);
    g.day_end_hour = 9;
    assert_eq!(g.layout(), None);
    g.day_end_hour = 17;
    g.days = vec![];
    assert_eq!(g.layout(), None);
}

#[test]
fn the_pointer_moves_from_step_to_step() {
    assert_eq!(layout().snap(40), 600);
    assert_eq!(layout().snap(0), 540);
    assert_eq!(layout().snap(-3), 540);
    assert_eq!(layout().snap(100), 1020);
    assert_eq!(layout().locate(1, 40), Some((1, 600)));
    assert_eq!(layout().locate(2, 40), None);
}

#[test]
fn where_spans_stand() {
    let (events, spans) = (vec![], vec![]);
    let g = grid(&events, &spans);
    let l = layout();
    let minutes = |s: Span| g.span_minutes(&l, s.0, s.1);
    assert_eq!(minutes(span(monday(), 600, 660)), Some((0, 600, 660)));
    assert_eq!(minutes(span(later(1), 300, 600)), Some((1, 540, 600)));
    assert_eq!(minutes(span(later(1), 600, 1300)), Some((1, 600, 1020)));
    assert_eq!(minutes((at(monday(), 600), at(later(1), 30))), Some((0, 600, 1020)));
    assert_eq!(minutes(span(later(2), 600, 660)), None);
}

#[test]
fn the_free_time_between_spans() {
    let events = vec![];
    let spans = vec![span(monday(), 600, 660), span(monday(), 720, 780), span(later(1), 540, 1015)];
    let g = grid(&events, &spans);
    let l = layout();
    assert_eq!(g.free_gap(&l, 0, 555), Some((540, 600)));
    assert_eq!(g.free_gap(&l, 0, 600), Some((540, 600)));
    assert_eq!(g.free_gap(&l, 0, 630), None);
    assert_eq!(g.free_gap(&l, 0, 660), Some((660, 720)));
    assert_eq!(g.free_gap(&l, 0, 900), Some((780, 1020)));
    assert_eq!(g.free_gap(&l, 1, 1020), None);
    assert_eq!(g.free_gap(&l, 5, 700), Some((540, 1020)));
}

#[test]
fn spans_outside_the_hours_bound_nothing() {
    let events = vec![];
    let spans = vec![span(monday(), 360, 480), span(monday(), 1080, 1140)];
    let g = grid(&events, &spans);
    let l = layout();
    assert_eq!(g.free_gap(&l, 0, 540), Some((540, 1020)));
    assert_eq!(g.free_gap(&l, 0, 1020), Some((540, 1020)));
    assert_eq!(g.free_gap(&l, 0, 700), Some((540, 1020)));
    let touching = vec![
        span(monday(), 480, 540),
        span(monday(), 1020, 1080),
        (at(monday(), 1100), at(later(1), 0)),
    ];
    let g = grid(&events, &touching);
    assert_eq!(g.free_gap(&l, 0, 540), Some((540, 1020)));
    assert_eq!(g.free_gap(&l, 0, 1020), Some((540, 1020)));
}

#[test]
fn spans_without_length_within_the_hours_bound_the_free_time() {
    let events = vec![];
    let spans = vec![span(monday(), 600, 600), span(later(1), 700, 660)];
    let g = grid(&events, &spans);
    let l = layout();
    assert_eq!(g.free_gap(&l, 0, 570), Some((540, 600)));
    assert_eq!(g.free_gap(&l, 0, 600), None);
    assert_eq!(g.free_gap(&l, 0, 630), Some((600, 1020)));
    assert_eq!(g.free_gap(&l, 1, 600), Some((540, 700)));
    assert_eq!(g.free_gap(&l, 1, 800), Some((660, 1020)));
    let at_the_edges = vec![span(monday(), 540, 540), span(later(1), 1020, 1020)];
    let g = grid(&events, &at_the_edges);
    assert_eq!(g.free_gap(&l, 0, 540), None);
    assert_eq!(g.free_gap(&l, 0, 600), Some((540, 1020)));
    assert_eq!(g.free_gap(&l, 1, 1020), None);
}

#[test]
fn dragging_out_a_span() {
    let (events, spans) = (vec![], vec![span(monday(), 720, 780)]);
    let g = grid(&events, &spans);
    let l = layout();
    let mut state = GridState::new();
    state.hover = Some(0);
    assert_eq!(g.update(&l, &mut state, press(None, None, Some((0, 660)))), Reaction::Capture);
    assert_eq!(state.hover, None);
    assert_eq!(
        state.active,
        Some(Active::Create {
            day: 0,
            anchor_min: 660,
            current_min: 660,
            min_bound: 540,
            max_bound: 720
        })
    );
    assert_eq!(g.update(&l, &mut state, moved(900)), Reaction::Capture);
    assert_eq!(state.preview(), Some(Block { col: 0, lo: 660, hi: 720 }));
    assert_eq!(g.update(&l, &mut state, GridEvent::Moved(None)), Reaction::Capture);
    assert_eq!(
        g.update(&l, &mut state, GridEvent::Released),
        Reaction::Add(Slot { date: monday(), from: 660, to: 720 })
    );
    assert_eq!(state.active, None);
    assert_eq!(g.update(&l, &mut state, GridEvent::Released), Reaction::Ignore);
}

#[test]
fn a_click_makes_a_span_of_one_step() {
    let (events, spans) = (vec![], vec![]);
    let g = grid(&events, &spans);
    let l = layout();
    let mut state = GridState::new();
    g.update(&l, &mut state, press(None, None, Some((1, 600))));
    assert_eq!(
        g.update(&l, &mut state, GridEvent::Released),
        Reaction::Add(Slot { date: later(1), from: 600, to: 615 })
    );
}

#[test]
fn a_span_without_room_is_not_made() {
    let (events, spans) = (vec![], vec![span(monday(), 720, 780)]);
    let g = grid(&events, &spans);
    let l = layout();
    let mut state = GridState::new();
    g.update(&l, &mut state, press(None, None, Some((0, 720))));
    assert!(state.active.is_some());
    assert_eq!(g.update(&l, &mut state, GridEvent::Released), Reaction::Ignore);
    assert_eq!(state.active, None);
}

#[test]
fn nothing_starts_inside_a_span_or_off_the_grid() {
    let (events, spans) = (vec![], vec![span(monday(), 600, 660)]);
    let g = grid(&events, &spans);
    let l = layout();
    let mut state = GridState::new();
    state.hover_event = Some(3);
    assert_eq!(g.update(&l, &mut state, GridEvent::Pressed(None)), Reaction::Ignore);
    assert_eq!(state.hover_event, Some(3));
    assert_eq!(g.update(&l, &mut state, press(None, None, Some((0, 630)))), Reaction::Ignore);
    assert_eq!(state, GridState::new());
    assert_eq!(g.update(&l, &mut state, press(None, None, None)), Reaction::Ignore);
}

#[test]
fn deleting_comes_before_resizing() {
    let (events, spans) = (vec![], vec![span(monday(), 600, 660)]);
    let g = grid(&events, &spans);
    let mut state = GridState::new();
    let event = press(Some(0), Some((0, Edge::Top)), Some((0, 600)));
    assert_eq!(g.update(&layout(), &mut state, event), Reaction::Remove(0));
    assert_eq!(state.active, None);
}

#[test]
fn resizing_by_either_edge() {
    let (events, spans) = (vec![], vec![span(monday(), 600, 660)]);
    let g = grid(&events, &spans);
    let l = layout();
    let mut state = GridState::new();
    assert_eq!(
        g.update(&l, &mut state, press(None, Some((0, Edge::Top)), Some((0, 600)))),
        Reaction::Capture
    );
    g.update(&l, &mut state, moved(570));
    assert_eq!(
        g.update(&l, &mut state, GridEvent::Released),
        Reaction::Resize(0, Slot { date: monday(), from: 570, to: 660 })
    );
    g.update(&l, &mut state, press(None, Some((0, Edge::Bottom)), None));
    g.update(&l, &mut state, moved(570));
    assert_eq!(
        g.update(&l, &mut state, GridEvent::Released),
        Reaction::Resize(0, Slot { date: monday(), from: 570, to: 600 })
    );
    g.update(&l, &mut state, press(None, Some((0, Edge::Top)), None));
    g.update(&l, &mut state, moved(660));
    assert_eq!(
        g.update(&l, &mut state, GridEvent::Released),
        Reaction::Resize(0, Slot { date: monday(), from: 660, to: 675 })
    );
}

#[test]
fn the_end_that_is_not_dragged_stays_put() {
    let bounds = |fixed_min, moving_min| {
        Active::Resize { index: 0, day: 0, fixed_min, moving_min }.bounds()
    };
    assert_eq!(bounds(605, 600), (590, 605));
    assert_eq!(bounds(605, 590), (590, 605));
    assert_eq!(bounds(605, 585), (585, 605));
    assert_eq!(bounds(600, 605), (600, 615));
    assert_eq!(bounds(600, 660), (600, 660));
    assert_eq!(bounds(10, 5), (0, 10));
}

#[test]
fn a_gesture_on_a_day_that_is_gone_is_dropped() {
    let (events, spans) = (vec![], vec![span(monday(), 600, 660)]);
    let mut g = grid(&events, &spans);
    let l = layout();
    let mut state = GridState::new();
    g.update(&l, &mut state, press(None, Some((0, Edge::Top)), None));
    g.days = vec![];
    assert_eq!(g.update(&l, &mut state, GridEvent::Released), Reaction::Ignore);
    assert_eq!(state.active, None);
}

#[test]
fn hovering() {
    let (events, spans) = (vec![event(monday(), 600, 660)], vec![span(monday(), 600, 660)]);
    let g = grid(&events, &spans);
    let l = layout();
    let mut state = GridState::new();
    let over_both = GridEvent::Moved(Some(Hover { minute: 600, avail: Some(0), event: Some(0) }));
    assert_eq!(g.update(&l, &mut state, over_both), Reaction::Redraw);
    assert_eq!((state.hover, state.hover_event), (Some(0), None));
    assert_eq!(g.update(&l, &mut state, over_both), Reaction::Ignore);
    let over_event = GridEvent::Moved(Some(Hover { minute: 600, avail: None, event: Some(0) }));
    assert_eq!(g.update(&l, &mut state, over_event), Reaction::Redraw);
    assert_eq!((state.hover, state.hover_event), (None, Some(0)));
    assert_eq!(
        g.tooltip(&l, &state),
        Some(Placed { index: 0, block: Block { col: 0, lo: 600, hi: 660 }, delete: false })
    );
    assert_eq!(g.update(&l, &mut state, GridEvent::Left), Reaction::Redraw);
    assert_eq!(g.update(&l, &mut state, GridEvent::Left), Reaction::Ignore);
    assert_eq!(state, GridState::new());
    assert_eq!(g.update(&l, &mut state, GridEvent::Moved(None)), Reaction::Ignore);
}

#[test]
fn the_block_that_was_drawn_last_is_hit() {
    assert_eq!(topmost(&vec![true, true, false]), Some(1));
    assert_eq!(topmost(&vec![false, false]), None);
    assert_eq!(topmost(&vec![]), None);
    let probe = |in_column, near_top, near_bottom| EdgeProbe { in_column, near_top, near_bottom };
    assert_eq!(
        topmost_edge(&vec![probe(true, true, true), probe(false, true, true)]),
        Some((0, Edge::Top))
    );
    assert_eq!(
        topmost_edge(&vec![probe(true, true, false), probe(true, false, true)]),
        Some((1, Edge::Bottom))
    );
    assert_eq!(topmost_edge(&vec![probe(true, false, false)]), None);
}

#[test]
fn the_pointer_shows_what_it_would_do() {
    let mut state = GridState::new();
    assert_eq!(state.mouse_interaction(true, true, true), Pointer::ResizingVertically);
    assert_eq!(state.mouse_interaction(false, true, true), Pointer::Pointer);
    assert_eq!(state.mouse_interaction(false, false, true), Pointer::Crosshair);
    assert_eq!(state.mouse_interaction(false, false, false), Pointer::Default);
    state.active = Some(Active::Resize { index: 0, day: 0, fixed_min: 0, moving_min: 0 });
    assert_eq!(state.mouse_interaction(false, true, true), Pointer::ResizingVertically);
    state.active = Some(Active::Create {
        day: 0,
        anchor_min: 0,
        current_min: 0,
        min_bound: 0,
        max_bound: 0,
    });
    assert_eq!(state.mouse_interaction(true, false, false), Pointer::Crosshair);
}

#[test]
fn blocks_of_events() {
    let events = vec![
        event(monday(), 600, 660),
        event(later(5), 600, 660),
        event(monday(), 300, 400),
        event(later(1), 1000, 1200),
    ];
    let spans = vec![];
    let g = grid(&events, &spans);
    assert_eq!(
        g.event_blocks(&layout()),
        vec![
            Placed { index: 0, block: Block { col: 0, lo: 600, hi: 660 }, delete: false },
            Placed { index: 3, block: Block { col: 1, lo: 1000, hi: 1020 }, delete: false },
        ]
    );
    let block = |e: &CalendarEventBlock| g.block_between(&layout(), e.start, e.end);
    assert_eq!(block(&events[0]), Some(Block { col: 0, lo: 600, hi: 660 }));
    assert_eq!(block(&events[1]), None);
    assert_eq!(block(&events[2]), None);
    let mut state = GridState::new();
    state.hover_event = Some(1);
    assert_eq!(g.tooltip(&layout(), &state), None);
    state.hover_event = Some(9);
    assert_eq!(g.tooltip(&layout(), &state), None);
}

#[test]
fn blocks_of_spans() {
    let events = vec![];
    let spans = vec![span(monday(), 600, 660), span(later(1), 700, 760), span(monday(), 0, 100)];
    let g = grid(&events, &spans);
    let l = layout();
    let mut state = GridState::new();
    state.hover = Some(1);
    let first = Placed { index: 0, block: Block { col: 0, lo: 600, hi: 660 }, delete: false };
    let second = Placed { index: 1, block: Block { col: 1, lo: 700, hi: 760 }, delete: true };
    assert_eq!(g.span_blocks(&l, &state), vec![first, second]);
    state.active = Some(Active::Resize { index: 1, day: 1, fixed_min: 760, moving_min: 800 });
    let resized = Placed { index: 1, block: Block { col: 1, lo: 760, hi: 800 }, delete: false };
    assert_eq!(g.span_blocks(&l, &state), vec![first, resized]);
    assert_eq!(state.preview(), None);
}

#[test]
fn lines_and_headers_of_the_grid() {
    let locale = Locale { time_format: None, weekdays: vec![None; 7], months: vec![None; 12] };
    let (events, spans) = (vec![], vec![]);
    let g = grid(&events, &spans);
    assert_eq!(
        g.hour_lines(&locale),
        ["09", "10", "11", "12", "13", "14", "15", "16", "17"]
    );
    assert_eq!(g.day_headers(&locale), ["Mon 15", "Tue 16"]);
    assert!(label_hours(&locale, 5, 5).is_empty());
    assert!(label_hours(&locale, 6, 5).is_empty());
}
