//! What the calls give.
use vstd::prelude::*;

use crate::app_laws;
use crate::calendar::CalendarEventBlock;
use crate::date;
use crate::date::{Date, MAX_DAY};
use crate::date_laws;
use crate::drag_laws;
use crate::free_time;
use crate::free_time::Slot;
use crate::gesture;
use crate::gesture::{Active, Edge, EdgeProbe, GridState, Pointer, Reaction};
use crate::grid;
use crate::grid::{CalendarGrid, Layout};
use crate::launch;
use crate::launch::{Command, WindowPlan};
use crate::local_time;
use crate::local_time::LocalTime;
use crate::locale;
use crate::locale::Locale;
use crate::message_laws;
use crate::picking_laws;
use crate::scene;
use crate::scene::Placed;
use crate::scene_laws;
use crate::scheduling;
use crate::scheduling::Span;
use crate::scheduling_app;
use crate::scheduling_app::{Found, Msg, OptionsPage, SchedulingApp};
use crate::span_laws;
use crate::state_laws;
use crate::text;
use crate::window;
use crate::window::{CalendarRow, MainPage, Pane};

verus! {

/// A calendar is said to be enabled exactly where it stands in the list, or the list is empty.
pub proof fn a_calendar_is_enabled_where_it_is_listed(app: SchedulingApp, uid: String, b: bool)
    requires
        call_ensures(SchedulingApp::is_calendar_enabled, (&app, &uid), b),
    ensures
        b <==> app.enabled_uids@.len() == 0 || exists|i: int|
            0 <= i < app.enabled_uids@.len() && (#[trigger] app.enabled_uids@[i])@ == uid@,
{
    let list = app@.enabled_uids;
    if list.contains(uid@) {
        let i = choose|i: int| 0 <= i < list.len() && list[i] == uid@;
        assert(app.enabled_uids@[i]@ == uid@);
    }
    if exists|i: int|
        0 <= i < app.enabled_uids@.len() && (#[trigger] app.enabled_uids@[i])@ == uid@ {
        let i = choose|i: int|
            0 <= i < app.enabled_uids@.len() && (#[trigger] app.enabled_uids@[i])@ == uid@;
        assert(list[i] == uid@);
    }
}

/// The message that is composed about spans says all of them, merged, in lines that follow the
/// intro and an empty line; about none it is empty.
pub proof fn composed_messages_leave_nothing_out(
    locale: Locale,
    spans: &[Span],
    intro: &str,
    msg: String,
)
    requires
        call_ensures(scheduling::compose_availability, (&locale, spans, intro), msg),
    ensures
        spans@.len() == 0 ==> msg@.len() == 0,
        spans@.len() > 0 ==> exists|list: Seq<Seq<char>>, cuts: Seq<int>| #[trigger]
            message_laws::tells_of_runs(list, cuts, locale, scheduling::merged(spans@)) && msg@
                == intro@ + seq!['\n', '\n'] + text::joined(list, seq!['\n']),
{
    if spans@.len() > 0 {
        message_laws::the_message_leaves_nothing_out(locale, spans@, intro@);
    }
}

/// The message that is composed about spans has a line for each day on which one starts.
pub proof fn composed_messages_have_a_line_per_day(
    locale: Locale,
    spans: &[Span],
    intro: &str,
    msg: String,
)
    requires
        call_ensures(scheduling::compose_availability, (&locale, spans, intro), msg),
        spans@.len() > 0,
        span_laws::days_follow_clock(spans@),
        forall|k: int|
            0 <= k < spans@.len() ==> message_laws::one_line(
                locale.long_label((#[trigger] spans@[k]).0.day()),
            ),
    ensures
        exists|days: Seq<int>| #[trigger]
            message_laws::is_message(
                msg@,
                intro@,
                days,
                locale,
                scheduling::merged(spans@),
            ) && forall|n: int|
                days.contains(n) <==> #[trigger] message_laws::some_start_on(spans@, n),
{
    message_laws::the_message_says_all_that_is_marked(locale, spans@, intro@);
}

/// What merging gives is in order and apart, holds each of the spans, and starts and ends where they
/// do.
pub proof fn merged_spans_are_the_spans(spans: &[Span], r: Vec<Span>, k: int, i: int)
    requires
        call_ensures(scheduling::merge_spans, (spans,), r),
    ensures
        span_laws::chronological(r@),
        span_laws::separate(r@),
        0 <= k < spans@.len() ==> span_laws::held_by(spans@[k], r@),
        0 <= i < r@.len() ==> span_laws::starts_like_one(r@[i], spans@)
            && span_laws::ends_like_one(r@[i], spans@),
{
    span_laws::merging_sorts(spans@);
    span_laws::merging_separates(spans@);
    if 0 <= k < spans@.len() {
        span_laws::merging_loses_no_time(spans@, k);
    }
    if 0 <= i < r@.len() {
        span_laws::merging_keeps_starts(spans@, i);
        span_laws::merging_keeps_ends(spans@, i);
    }
}

/// The window's buttons can be pressed exactly where that changes something: there is a week to page
/// to, and a message to copy. What it shows is what the state holds.
pub proof fn buttons_work_where_they_change_something(
    app: SchedulingApp,
    locale: Locale,
    days: Vec<Date>,
    intro: &str,
    pane: Pane,
)
    requires
        app.week_offset <= 3,
        call_ensures(SchedulingApp::pane, (&app, &locale, &days, intro), pane),
    ensures
        pane.can_go_back <==> scheduling_app::step(app@, Msg::PrevWeek) != app@,
        pane.can_go_forward <==> scheduling_app::step(app@, Msg::NextWeek) != app@,
        pane.can_copy <==> app.availability@.len() > 0,
        pane.message@ == scheduling::message(locale, app.availability@, intro@),
        pane.options is Some <==> app.show_options,
        pane.options matches Some(page) ==> page == app.options_page,
        pane.loading == app.loading,
        days@.len() == 0 ==> pane.week_label@.len() == 0,
        days@.len() > 0 ==> pane.week_label@ == locale.short_label(days@[0].n()) + seq![
            ' ',
            '\u{2013}',
            ' ',
        ] + locale.short_label(days@[days@.len() - 1].n()),
{
    assert(scheduling_app::step(app@, Msg::PrevWeek).week_offset != app@.week_offset
        <==> app.week_offset > 0);
    assert(scheduling_app::step(app@, Msg::NextWeek).week_offset != app@.week_offset
        <==> app.week_offset < 3);
}

/// The options show the hours that are set: the entry that is marked is the hour's label, and picking
/// it again sets the same hour.
pub proof fn the_options_show_the_hours_that_are_set(
    app: SchedulingApp,
    locale: Locale,
    page: MainPage,
    start: Msg,
    end: Msg,
)
    requires
        app.day_start_hour < 24,
        1 <= app.day_end_hour <= 24,
        call_ensures(SchedulingApp::options_main_page, (&app, &locale), page),
        call_ensures(window::pick_day_start, (page.start_index,), start),
        call_ensures(window::pick_day_end, (page.end_index,), end),
    ensures
        start == Msg::SetDayStart(app.day_start_hour),
        end == Msg::SetDayEnd(app.day_end_hour),
        page.start_labels@.len() == 24 && page.end_labels@.len() == 24,
        page.start_labels@[page.start_index as int]@ == locale::hour_label(
            locale.clock_24h(),
            app.day_start_hour as int,
        ),
        page.end_labels@[page.end_index as int]@ == locale::hour_label(
            locale.clock_24h(),
            app.day_end_hour as int,
        ),
        page.include_weekends == app.include_weekends,
        page.summary == window::summary(app@),
{
    let starts = text::texts(page.start_labels@);
    let ends = text::texts(page.end_labels@);
    assert(starts.len() == 24 && ends.len() == 24);
    assert(starts[page.start_index as int] == page.start_labels@[page.start_index as int]@);
    assert(ends[page.end_index as int] == page.end_labels@[page.end_index as int]@);
}

/// Picking an hour of the list sets that hour.
pub proof fn picked_hours_are_set(i: usize, start: Msg, end: Msg)
    requires
        i < 24,
        call_ensures(window::pick_day_start, (i,), start),
        call_ensures(window::pick_day_end, (i,), end),
    ensures
        start matches Msg::SetDayStart(hour) && hour == i,
        end matches Msg::SetDayEnd(hour) && hour == i + 1,
{
}

/// There is a row for each calendar, in order.
pub proof fn each_calendar_has_its_row(app: SchedulingApp, rows: Vec<CalendarRow>, i: int)
    requires
        call_ensures(SchedulingApp::options_calendars_page, (&app,), rows),
    ensures
        rows@.len() == app.calendars@.len(),
        0 <= i < rows@.len() ==> {
            let uid = app.calendars@[i].uid@;
            let enabled = app@.enabled_uids.len() == 0 || app@.enabled_uids.contains(uid);
            &&& rows@[i].enabled <==> enabled
            &&& rows@[i].checked <==> enabled && app.selected_calendars@.contains(uid)
        },
{
    if 0 <= i < rows@.len() {
        state_laws::rows_show_what_is_enabled_and_selected(app@, app.calendars@[i]);
    }
}

/// The grid has a column for each day, and shows the minutes of the hours; it shows nothing where it
/// has no days or no hours.
pub proof fn the_grid_shows_its_days_and_hours(grid: CalendarGrid, l: Option<Layout>)
    requires
        call_ensures(CalendarGrid::layout, (&grid,), l),
    ensures
        l is None <==> grid.days@.len() == 0 || grid.day_end_hour <= grid.day_start_hour,
        l matches Some(l) ==> {
            &&& l.cols == grid.days@.len()
            &&& l.start_min == 60 * grid.day_start_hour
            &&& l.total_min == 60 * (grid.day_end_hour - grid.day_start_hour)
        },
{
}

/// A step of the grid is a quarter of an hour. The pointer is taken to be at the step that it is at,
/// within the hours that are shown, and in its column where there is one.
pub proof fn the_pointer_is_at_its_step(
    l: Layout,
    col: usize,
    step: i32,
    m: i32,
    cell: Option<(usize, i32)>,
)
    requires
        l.wf(),
        call_ensures(Layout::snap, (&l, step), m),
        call_ensures(Layout::locate, (&l, col, step), cell),
    ensures
        l.start_min <= m <= l.start_min + l.total_min,
        l.start_min <= step * 15 <= l.start_min + l.total_min ==> m == step * 15,
        step * 15 < l.start_min ==> m == l.start_min,
        step * 15 > l.start_min + l.total_min ==> m == l.start_min + l.total_min,
        cell is Some <==> col < l.cols,
        cell matches Some(c) ==> c == (col, m),
{
}

/// The pointer shows what it does: it resizes while an edge is dragged or can be grabbed, and has
/// crosshairs while a span is dragged out or can be.
pub proof fn the_pointer_shows_what_it_does(
    state: GridState,
    over_edge: bool,
    over_span: bool,
    in_grid: bool,
    p: Pointer,
)
    requires
        call_ensures(GridState::mouse_interaction, (&state, over_edge, over_span, in_grid), p),
    ensures
        p == Pointer::ResizingVertically <==> (state.active is Some && state.active->0 is Resize)
            || state.active is None && over_edge,
        p == Pointer::Crosshair <==> (state.active is Some && state.active->0 is Create)
            || state.active is None && in_grid && !over_edge && !over_span,
        p == Pointer::Pointer <==> state.active is None && over_span && !over_edge,
{
}

/// What is found on top is what was drawn last of all that is under the pointer.
pub proof fn the_last_hit_is_on_top(hits: Vec<bool>, top: Option<usize>, k: int)
    requires
        call_ensures(gesture::topmost, (&hits,), top),
    ensures
        0 <= k < hits@.len() && hits@[k] ==> (top matches Some(i) && k <= i),
        top matches Some(i) ==> i < hits@.len() && hits@[i as int],
{
    match top {
        Some(i) => {
            drag_laws::what_is_on_top_was_drawn_last(hits@, i as int, k);
        },
        None => {
            if 0 <= k < hits@.len() && hits@[k] {
                assert(hits@.contains(true));
            }
        },
    }
}

/// The edge that is found is one of the block that was drawn last of all whose edges can be grabbed,
/// and its top edge wherever that can be.
pub proof fn the_last_edge_is_grabbed(
    probes: Vec<EdgeProbe>,
    grab: Option<(usize, Edge)>,
    k: int,
)
    requires
        call_ensures(gesture::topmost_edge, (&probes,), grab),
    ensures
        0 <= k < probes@.len() && probes@[k].in_column && (probes@[k].near_top
            || probes@[k].near_bottom) ==> (grab matches Some(g) && k <= g.0),
        grab matches Some(g) ==> g.0 < probes@.len() && {
            let probe = probes@[g.0 as int];
            &&& probe.in_column
            &&& g.1 == Edge::Top <==> probe.near_top
            &&& g.1 == Edge::Bottom ==> probe.near_bottom
        },
{
    if 0 <= k < probes@.len() {
        drag_laws::the_top_edge_is_grabbed_first(probes@[k]);
    }
    match grab {
        Some(g) => {
            drag_laws::the_top_edge_is_grabbed_first(probes@[g.0 as int]);
        },
        None => {},
    }
}

/// The days add up: one day later is the next day, and what is `a` days later than what is `b` days
/// later is `a + b` days later.
pub proof fn days_add_up(
    date: Date,
    a: u64,
    b: u64,
    next: Option<Date>,
    one: Option<Date>,
    mid: Date,
    last: Option<Date>,
)
    requires
        date.wf(),
        call_ensures(Date::succ_opt, (date,), next),
        call_ensures(Date::checked_add_days, (date, 1), one),
        call_ensures(Date::checked_add_days, (date, b), Some(mid)),
        call_ensures(Date::checked_add_days, (mid, a), last),
    ensures
        next is Some <==> date.n() < MAX_DAY,
        next is Some <==> one is Some,
        next matches Some(d) ==> d.n() == date.n() + 1,
        next is Some ==> next->0.n() == one->0.n(),
        mid.n() - date.n() == b,
        last is Some <==> date.n() + a + b <= MAX_DAY,
        last matches Some(d) ==> d.n() - date.n() == a + b,
{
}

/// The date, the hour and the minute of a time are those that its wall clock shows.
pub proof fn times_say_what_the_wall_clock_shows(
    t: LocalTime,
    date: Date,
    hour: u32,
    minute: u32,
    m: i32,
)
    requires
        call_ensures(LocalTime::date_naive, (&t,), date),
        call_ensures(LocalTime::hour, (&t,), hour),
        call_ensures(LocalTime::minute, (&t,), minute),
        call_ensures(LocalTime::minute_of_day, (&t,), m),
    ensures
        hour < 24 && minute < 60,
        m == hour * 60 + minute,
        local_time::wall_at(date.n(), m as int) <= t.wall_secs < local_time::wall_at(
            date.n(),
            m + 1,
        ),
{
    date_laws::minutes_lie_within_the_day(t);
    date_laws::times_show_the_minute_they_are_in(t, t.day(), t.minutes());
}

/// A time is earlier exactly where its second in UTC is, or the part of it where they are the same.
pub proof fn the_earlier_time_is_before(a: LocalTime, b: LocalTime, before: bool)
    requires
        call_ensures(LocalTime::is_before, (&a, &b), before),
    ensures
        before <==> a.wall_secs - a.offset_secs < b.wall_secs - b.offset_secs || a.wall_secs
            - a.offset_secs == b.wall_secs - b.offset_secs && a.nanos < b.nanos,
{
}

/// There is a span for each of the slots that were asked for, from the one time that was found to the
/// other; the current time stands in for each that was not.
pub proof fn each_slot_has_its_span(found: Vec<Found>, now: LocalTime, added: Vec<Span>, i: int)
    requires
        call_ensures(scheduling_app::picked_spans, (&found, now), added),
    ensures
        added@.len() == found@.len(),
        0 <= i < found@.len() ==> {
            let (start, end) = found@[i];
            &&& start matches Some(t) ==> added@[i].0 == t
            &&& start is None ==> added@[i].0 == now
            &&& end matches Some(t) ==> added@[i].1 == t
            &&& end is None ==> added@[i].1 == now
        },
{
}

/// The days that are shown are, in order, those of the seven days from today on, or from as many weeks
/// later on as were paged forward, that are not left out as a Saturday or a Sunday.
pub proof fn the_week_starts_today(app: SchedulingApp, today: Date, days: Option<Vec<Date>>, d: Date)
    requires
        today.wf(),
        call_ensures(SchedulingApp::visible_days_from, (&app, today), days),
    ensures
        days is Some <==> today.n() + 7 * app.week_offset <= MAX_DAY,
        days matches Some(days) ==> {
            let first = today.n() + 7 * app.week_offset;
            &&& days@.contains(d) <==> first <= d.n() < first + 7 && d.n() <= MAX_DAY && (
            app.include_weekends || !date::is_weekend(d.n()))
            &&& forall|i: int, j: int|
                0 <= i < j < days@.len() ==> (#[trigger] days@[i]).n() < (#[trigger] days@[j]).n()
        },
{
    app_laws::shown_days_are_those_of_the_week(app@, today.n(), d);
}

/// The slots that are found are free, and all free time lies in them: no event takes up a minute of
/// one, and whatever stretch of a day is free, a quarter of an hour long, within the hours and, today,
/// ahead and from a quarter on lies in one.
pub proof fn slots_are_the_free_time(
    events: Vec<CalendarEventBlock>,
    days: Vec<Date>,
    day_start: i32,
    day_end: i32,
    now: LocalTime,
    slots: Vec<Slot>,
    i: int,
    m: int,
    date: Date,
    a: int,
    b: int,
)
    requires
        0 <= day_start,
        call_ensures(free_time::free_slots, (&events, &days, day_start, day_end, &now), slots),
    ensures
        0 <= i < slots@.len() && slots@[i].from <= m < slots@[i].to ==> {
            &&& days@.contains(slots@[i].date)
            &&& day_start <= m < day_end
            &&& !free_time::is_busy(events@, slots@[i].date.n(), m)
            &&& slots@[i].date.n() >= now.day() ==> free_time::is_ahead(
                now,
                slots@[i].date.n(),
                m,
            )
        },
        0 <= i < slots@.len() ==> slots@[i].to - slots@[i].from >= 15,
        days@.contains(date) && day_start <= a && a + 15 <= b <= day_end && (date.n() == now.day()
            ==> a % 15 == 0 && free_time::is_ahead(now, date.n(), a)) && (forall|k: int|
            a <= k < b ==> !#[trigger] free_time::is_busy(events@, date.n(), k)) ==> exists|j: int|
            0 <= j < slots@.len() && (#[trigger] slots@[j]).date == date && slots@[j].from <= a && b
                <= slots@[j].to,
{
    if 0 <= i < slots@.len() {
        assert(slots@.contains(slots@[i]));
        if slots@[i].from <= m < slots@[i].to {
            free_time::free_slots_are_free(
                events@,
                days@,
                now,
                day_start as int,
                day_end as int,
                slots@[i],
                m,
            );
        }
    }
    if days@.contains(date) && day_start <= a && a + 15 <= b <= day_end && (date.n() == now.day()
        ==> a % 15 == 0 && free_time::is_ahead(now, date.n(), a)) && (forall|k: int|
        a <= k < b ==> !#[trigger] free_time::is_busy(events@, date.n(), k)) {
        picking_laws::time_is_offered_from_the_next_quarter_on(
            now,
            date.n(),
            day_start as int,
            a,
        );
        free_time::all_free_time_is_offered(
            events@,
            days@,
            now,
            day_start as int,
            day_end as int,
            date,
            a,
            b,
        );
        let slot = choose|slot: Slot| #[trigger]
            free_time::is_free_slot(
                events@,
                days@,
                now,
                day_start as int,
                day_end as int,
                slot,
            ) && slot.date == date && slot.from <= a && b <= slot.to;
        assert(slots@.contains(slot));
        let j = choose|j: int| 0 <= j < slots@.len() && slots@[j] == slot;
        assert(slots@[j].date == date);
    }
}

/// The windows of a day that are found are its free time.
pub proof fn windows_are_the_free_time_of_the_day(
    events: Vec<CalendarEventBlock>,
    date: Date,
    day_start: i32,
    day_end: i32,
    from: i32,
    windows: Vec<(i32, i32)>,
    i: int,
    m: int,
    a: int,
    b: int,
)
    requires
        call_ensures(free_time::day_windows, (&events, date, day_start, day_end, from), windows),
    ensures
        0 <= i < windows@.len() && windows@[i].0 <= m < windows@[i].1 ==> from <= m < day_end
            && !free_time::is_busy(events@, date.n(), m),
        from <= a && a + 15 <= b && b <= day_end && (forall|k: int|
            a <= k < b ==> !#[trigger] free_time::is_busy(events@, date.n(), k)) ==> exists|j: int|
            0 <= j < windows@.len() && (#[trigger] windows@[j]).0 <= a && b <= windows@[j].1,
{
    free_time::free_windows_are_the_free_time(
        windows@,
        events@,
        date.n(),
        from as int,
        day_end as int,
        i,
        m,
        a,
        b,
    );
}

/// The message that a gesture sends has the ends that the time zone gives, and `now` only where it
/// gives none.
pub proof fn sent_messages_have_the_times_of_the_zone(
    reaction: Reaction,
    now: LocalTime,
    msg: Option<Msg>,
)
    requires
        call_ensures(window::gesture_message, (reaction, now), msg),
    ensures
        reaction matches Reaction::Add(slot) ==> (msg matches Some(
            Msg::AddAvailability(start, end),
        ) && state_laws::has_ends(
            start,
            end,
            slot.date,
            slot.from as int,
            slot.to as int,
            now,
        )),
        reaction matches Reaction::Resize(i, slot) ==> (msg matches Some(
            Msg::ResizeAvailability(j, start, end),
        ) && j == i && state_laws::has_ends(
            start,
            end,
            slot.date,
            slot.from as int,
            slot.to as int,
            now,
        )),
        reaction matches Reaction::Remove(i) ==> (msg matches Some(Msg::RemoveAvailability(j)) && j
            == i),
        reaction is Ignore || reaction is Redraw || reaction is Capture ==> msg is None,
{
    state_laws::gestures_send_the_times_of_the_zone(reaction, now, msg);
}

/// Given the times at the ends, the message that a gesture sends has just these.
pub proof fn sent_messages_have_the_times_they_are_given(
    reaction: Reaction,
    start: LocalTime,
    end: LocalTime,
    msg: Option<Msg>,
)
    requires
        call_ensures(window::message_at, (reaction, start, end), msg),
    ensures
        reaction is Add ==> msg == Some(Msg::AddAvailability(start, end)),
        reaction matches Reaction::Resize(i, _) ==> msg == Some(
            Msg::ResizeAvailability(i, start, end),
        ),
        reaction matches Reaction::Remove(i) ==> msg == Some(Msg::RemoveAvailability(i)),
        msg is None <==> reaction is Ignore || reaction is Redraw || reaction is Capture,
{
}

/// A time that stands for a minute is the one that the zone gives for it; the given time stands in
/// only where the zone gives none.
pub proof fn minutes_get_the_times_of_the_zone(
    date: Date,
    minute: i32,
    now: LocalTime,
    found: Option<LocalTime>,
    t: LocalTime,
)
    requires
        date.wf(),
        call_ensures(local_time::resolve_local, (date, minute), found),
        call_ensures(local_time::local_dt, (date, minute, now), t),
    ensures
        local_time::is_zone_answer(found, date, minute as int),
        0 <= minute < 24 * 60 && found is Some ==> found->0.wall_secs == local_time::wall_at(
            date.n(),
            minute as int,
        ),
        picking_laws::is_time_of(t, date, minute as int, now),
{
}

/// The program is what its flags say, and ends with success only where it succeeded.
pub proof fn the_program_does_what_it_was_started_for(
    args: Vec<String>,
    c: Command,
    success: bool,
    status: i32,
)
    requires
        call_ensures(launch::command_of, (&args,), c),
        call_ensures(launch::exit_status, (success,), status),
    ensures
        c == Command::JoinNext <==> launch::is_given(text::texts(args@), "--join-next"@),
        c == Command::Applet ==> !launch::is_given(text::texts(args@), "--open-menu"@)
            && !launch::is_given(text::texts(args@), "--scheduling-helper"@),
        status == 0 <==> success,
        status == 0 || status == 1,
{
    launch::the_flags_decide(text::texts(args@));
}

/// The window opens within its limits. Where it cannot be resized, the limits leave it one size only;
/// where it can, it may grow without limit, and shrink.
pub proof fn the_window_opens_within_its_limits(resizable: bool, plan: WindowPlan)
    requires
        call_ensures(launch::window_plan, (resizable,), plan),
    ensures
        plan.resizable == resizable,
        plan.min_width <= plan.width && plan.min_height <= plan.height,
        resizable ==> plan.max_width is None && plan.max_height is None && plan.min_width
            < plan.width && plan.min_height < plan.height,
        !resizable ==> plan.max_width == Some(plan.min_width) && plan.max_height == Some(
            plan.min_height,
        ) && plan.min_width == plan.width && plan.min_height == plan.height,
{
}

/// A text that is made to fit is kept where there is room for it; else it is as much of its start as
/// there is room for beside the ellipsis, one character at least, and the ellipsis.
pub proof fn texts_are_made_to_fit(text: &str, cols: usize, lines: usize, s: String)
    requires
        cols * lines <= usize::MAX,
        call_ensures(text::fit_text, (text, cols, lines), s),
    ensures
        ({
            let room = if cols * lines < 1 {
                1
            } else {
                cols * lines
            };
            &&& text@.len() <= room ==> s@ == text@
            &&& text@.len() > room && room >= 2 ==> s@.len() == room && s@.drop_last()
                == text@.take(room - 1) && s@.last() == '\u{2026}'
            &&& text@.len() > room && room == 1 ==> s@ == seq![text@[0], '\u{2026}']
        }),
{
    text::boxes_hold_columns_times_lines(cols as int, lines as int);
    let room = text::budget(cols as int, lines as int);
    if room >= 2 {
        text::fitted_text_fits(text@, room);
    } else if text@.len() > room {
        text::fitted_text_keeps_a_character(text@, room);
        assert(s@ =~= seq![text@[0], '\u{2026}']);
    }
}

/// The lines that a text is said to take hold it, and one line less would not.
pub proof fn texts_take_the_lines_they_need(text: &str, cols: usize, lines: usize)
    requires
        cols > 0,
        call_ensures(text::wrapped_lines, (text, cols), lines),
    ensures
        lines >= 1,
        lines * cols >= text@.len(),
        lines == 1 || (lines - 1) * cols < text@.len(),
{
    text::lines_hold_the_text(text@.len() as int, cols as int);
}

/// A text is an entry exactly where it is not empty.
pub proof fn entries_are_not_empty(text: String, entry: Option<String>)
    requires
        call_ensures(text::non_empty, (text,), entry),
    ensures
        entry is None <==> text@.len() == 0,
        entry matches Some(e) ==> e == text,
{
}

/// The blocks that are drawn are those of the spans and of the events, each once and where it stands.
pub proof fn blocks_are_drawn_once(
    grid: CalendarGrid,
    l: Layout,
    state: GridState,
    spans: Vec<Placed>,
    events: Vec<Placed>,
    i: int,
)
    requires
        l.wf(),
        state.wf(),
        call_ensures(CalendarGrid::span_blocks, (&grid, &l, &state), spans),
        call_ensures(CalendarGrid::event_blocks, (&grid, &l), events),
        grid.days@.len() <= usize::MAX,
        grid.availability@.len() <= usize::MAX,
        grid.events@.len() <= usize::MAX,
    ensures
        scene_laws::in_order(spans@) && scene_laws::in_order(events@),
        0 <= i < spans@.len() ==> spans@[i].index < grid.availability@.len()
            && scene_laws::stands_at(
            spans@[i].block,
            scene::span_place(
                l,
                grid.days@,
                grid.availability@,
                state,
                spans@[i].index as int,
            ),
        ),
        0 <= i < grid.availability@.len() && scene_laws::has_height(
            scene::span_place(l, grid.days@, grid.availability@, state, i),
        ) ==> scene_laws::has_block(spans@, i),
        0 <= i < events@.len() ==> events@[i].index < grid.events@.len() && scene_laws::stands_at(
            events@[i].block,
            grid::block(
                l,
                grid.days@,
                (
                    grid.events@[events@[i].index as int].start,
                    grid.events@[events@[i].index as int].end,
                ),
            ),
        ),
        0 <= i < grid.events@.len() && scene_laws::has_height(
            grid::block(l, grid.days@, (grid.events@[i].start, grid.events@[i].end)),
        ) ==> scene_laws::has_block(events@, i),
{
    scene_laws::each_span_is_shown_once(
        l,
        grid.days@,
        grid.availability@,
        state,
        grid.availability@.len() as int,
    );
    scene_laws::each_event_is_shown_once(
        l,
        grid.days@,
        grid.events@,
        grid.events@.len() as int,
    );
}

/// There is a line for each hour from the first that is shown to the end of the last, and a head for
/// each column.
pub proof fn each_line_and_column_is_labelled(
    grid: CalendarGrid,
    locale: Locale,
    hours: Vec<String>,
    heads: Vec<String>,
    i: int,
)
    requires
        grid.day_start_hour <= grid.day_end_hour,
        call_ensures(CalendarGrid::hour_lines, (&grid, &locale), hours),
        call_ensures(CalendarGrid::day_headers, (&grid, &locale), heads),
    ensures
        hours@.len() == grid.day_end_hour - grid.day_start_hour + 1,
        0 <= i < hours@.len() ==> hours@[i]@ == locale::hour_label(
            locale.clock_24h(),
            grid.day_start_hour + i,
        ),
        heads@.len() == grid.days@.len(),
        0 <= i < heads@.len() ==> heads@[i]@ == locale.header_label(grid.days@[i].n()),
{
    let a = text::texts(hours@);
    let b = text::texts(heads@);
    assert(a.len() == hours@.len() && b.len() == heads@.len());
    if 0 <= i < hours@.len() {
        assert(a[i] == hours@[i]@);
    }
    if 0 <= i < heads@.len() {
        assert(b[i] == heads@[i]@);
    }
}

/// The labels of times and days are those of the locale, which has a twelve-hour clock exactly where
/// its format of a time says so.
pub proof fn labels_are_those_of_the_locale(
    locale: Locale,
    t: LocalTime,
    date: Date,
    clock_24h: bool,
    time: String,
    head: String,
    short: String,
    long: String,
)
    requires
        call_ensures(locale::uses_24h_clock, (&locale,), clock_24h),
        call_ensures(locale::format_time, (&locale, &t), time),
        call_ensures(locale::day_header, (&locale, date), head),
        call_ensures(locale::short_date, (&locale, date), short),
        call_ensures(locale::long_date, (&locale, date), long),
    ensures
        clock_24h == locale.clock_24h(),
        time@ == locale::time_label(clock_24h, t.minutes()),
        head@ == locale.header_label(date.n()),
        short@ == locale.short_label(date.n()),
        long@ == locale.weekday_name(date.n()) + seq![',', ' '] + short@,
{
}

/// The window opens with the given calendars enabled and the given addresses, on the current week, with
/// nothing marked.
pub proof fn the_window_opens_as_it_was_told(
    enabled_uids: Vec<String>,
    emails: Vec<String>,
    app: SchedulingApp,
)
    requires
        call_ensures(SchedulingApp::init, (enabled_uids, emails), app),
    ensures
        app@.enabled_uids == text::texts(enabled_uids@),
        app@.additional_emails == text::texts(emails@),
        app.availability@.len() == 0 && app.week_offset == 0 && app.loading && !app.show_options,
        app.day_start_hour == 9 && app.day_end_hour == 12 + 5 && !app.include_weekends,
        app.options_page == OptionsPage::Main,
{
    state_laws::the_window_opens_empty(text::texts(enabled_uids@), text::texts(emails@));
    assert(app@.availability == app.availability@);
}

/// The time zone is called by its abbreviation; without one, by how far the clock is off UTC at a time
/// that the clock gave.
pub proof fn zones_are_called_as_they_are(abbrev: String, name: String)
    requires
        call_ensures(scheduling_app::timezone_label, (abbrev,), name),
    ensures
        abbrev@.len() > 0 ==> name@ == abbrev@,
        abbrev@.len() == 0 ==> exists|now: LocalTime| #[trigger]
            local_time::is_clock_reading(now) && name@ == local_time::offset_label(
                now.offset_secs as int,
            ),
{
    let now = choose|now: LocalTime|
        local_time::is_clock_reading(now) && name@ == #[trigger] scheduling_app::zone_label(
            abbrev@,
            now,
        );
    assert(local_time::is_clock_reading(now));
}

/// The days that are shown are those of the week of a time that the clock gave.
pub proof fn the_days_of_the_clock_are_shown(app: SchedulingApp, days: Option<Vec<Date>>)
    requires
        call_ensures(SchedulingApp::visible_days, (&app,), days),
    ensures
        exists|now: LocalTime| #[trigger]
            local_time::is_clock_reading(now) && (days is Some <==> now.day() + 7
                * app.week_offset <= MAX_DAY) && (days matches Some(list) ==> forall|date: Date|
                #[trigger] list@.contains(date) <==> picking_laws::in_week(app@, now, date)),
{
    let (now, today) = choose|now: LocalTime, today: Date|
        local_time::is_clock_reading(now) && today.n() == now.day()
            && #[trigger] scheduling_app::shows_on(app@, now, today, days);
    picking_laws::shown_days_start_today(app@, now, today, days);
    assert(local_time::is_clock_reading(now));
}

/// Closing the window ends the program.
pub proof fn closing_the_window_ends_the_program(app: SchedulingApp, msg: Option<Msg>)
    requires
        call_ensures(SchedulingApp::on_close_requested, (&app,), msg),
    ensures
        msg is Some && msg->0 is Close,
{
}

/// What a gesture would leave behind lies within its bounds while a span is dragged out, and keeps the
/// end that is not dragged while one is resized.
pub proof fn bounds_are_where_the_gesture_is(active: Active, b: (i32, i32))
    requires
        active.wf(),
        call_ensures(Active::bounds, (&active,), b),
    ensures
        active matches Active::Create { anchor_min, current_min, min_bound, max_bound, .. } ==> {
            &&& min_bound <= b.0 <= b.1 <= max_bound
            &&& b.0 == anchor_min || b.0 == current_min
            &&& b.0 <= anchor_min && b.0 <= current_min
            &&& b.1 >= anchor_min && b.1 >= current_min
            &&& b.1 == anchor_min || b.1 == current_min || b.1 == max_bound || b.1 == b.0 + 15
            &&& b.1 > anchor_min && b.1 > current_min ==> b.1 <= b.0 + 15
        },
        active matches Active::Resize { fixed_min, moving_min, .. } ==> {
            &&& b.0 == fixed_min || b.1 == fixed_min
            &&& moving_min >= fixed_min + 15 ==> b == (fixed_min, moving_min)
            &&& moving_min <= fixed_min - 15 ==> b == (moving_min, fixed_min)
        },
{
}

} // verus!
