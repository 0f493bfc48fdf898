//! What holds of the window whatever happens to it.
use vstd::prelude::*;

use crate::calendar::{CalendarEventBlock, CalendarInfo};
use crate::date;
use crate::date::{Date, MAX_DAY};
use crate::free_time;
use crate::free_time::{Slot, SNAP_MIN};
use crate::gesture;
use crate::local_time;
use crate::local_time::LocalTime;
use crate::locale::Locale;
use crate::scheduling;
use crate::scheduling::Span;
use crate::scheduling_app;
use crate::scheduling_app::{AppView, Found, Msg, OptionsPage, FETCH_DAYS, MAX_WEEK_OFFSET};
use crate::span_laws;
use crate::window;
use crate::window::Summary;

verus! {

/// Whether the day starts at an hour from 0 to 23, ends at one from 1 to 24, and ends after it
/// starts.
pub open spec fn hours_in_order(v: AppView) -> bool {
    &&& v.day_start_hour <= 23
    &&& 1 <= v.day_end_hour <= 24
    &&& v.day_start_hour < v.day_end_hour
}

/// Whether the message sets only such hours as a day can start or end at.
pub open spec fn sets_hours_of_a_day(msg: Msg) -> bool {
    match msg {
        Msg::SetDayStart(hour) => hour <= 23,
        Msg::SetDayEnd(hour) => 1 <= hour <= 24,
        _ => true,
    }
}

/// Whether each calendar in the list holds meetings.
pub open spec fn lists_meeting_sources(calendars: Seq<CalendarInfo>) -> bool {
    forall|i: int| 0 <= i < calendars.len() ==> (#[trigger] calendars[i]).meeting_source
}

/// Whether each calendar that is selected is enabled.
pub open spec fn selects_enabled(v: AppView) -> bool {
    forall|uid: Seq<char>| #[trigger]
        v.selected_calendars.contains(uid) ==> scheduling_app::is_enabled(v.enabled_uids, uid)
}

/// Whether the parts of the state fit together: the hours are in order, the week is one that can
/// be paged to, the events that are shown are those of the selected calendars, each selected
/// calendar is enabled, and each listed one holds meetings.
pub open spec fn consistent(v: AppView) -> bool {
    &&& hours_in_order(v)
    &&& v.week_offset <= MAX_WEEK_OFFSET
    &&& v.visible_events == scheduling_app::shown_events(v)
    &&& selects_enabled(v)
    &&& lists_meeting_sources(v.calendars)
}

/// The window opens in a consistent state.
pub proof fn the_window_opens_consistent(
    enabled_uids: Seq<Seq<char>>,
    additional_emails: Seq<Seq<char>>,
)
    ensures
        consistent(scheduling_app::initial(enabled_uids, additional_emails)),
{
}

/// No message makes the state inconsistent.
pub proof fn messages_keep_the_window_consistent(v: AppView, msg: Msg, after: AppView)
    requires
        consistent(v),
        sets_hours_of_a_day(msg),
        scheduling_app::follows(v, msg, after),
    ensures
        consistent(after),
{
    match msg {
        Msg::CalendarsLoaded(calendars) => {
            lemma_meeting_sources(calendars@);
        },
        _ => {},
    }
}

proof fn lemma_meeting_sources(calendars: Seq<CalendarInfo>)
    ensures
        lists_meeting_sources(scheduling_app::meeting_sources(calendars)),
    decreases calendars.len(),
{
    reveal(Seq::filter);
    if calendars.len() > 0 {
        lemma_meeting_sources(calendars.drop_last());
        let before = scheduling_app::meeting_sources(calendars.drop_last());
        let sources = scheduling_app::meeting_sources(calendars);
        assert forall|i: int| 0 <= i < sources.len() implies (
        #[trigger] sources[i]).meeting_source by {
            if i < before.len() {
                assert(before[i].meeting_source);
            }
        }
    }
}

/// Messages change neither the list of enabled calendars nor the user's addresses.
pub proof fn messages_keep_the_settings(v: AppView, msg: Msg, after: AppView)
    requires
        scheduling_app::follows(v, msg, after),
    ensures
        after.enabled_uids == v.enabled_uids,
        after.additional_emails == v.additional_emails,
{
}

/// Setting the start of the day sets it, and so does setting its end.
pub proof fn hours_are_set(v: AppView, hour: u32)
    ensures
        scheduling_app::step(v, Msg::SetDayStart(hour)).day_start_hour == hour,
        hour < v.day_end_hour ==> scheduling_app::step(v, Msg::SetDayStart(hour)).day_end_hour
            == v.day_end_hour,
        scheduling_app::step(v, Msg::SetDayEnd(hour)).day_end_hour == hour,
        v.day_start_hour < hour ==> scheduling_app::step(v, Msg::SetDayEnd(hour)).day_start_hour
            == v.day_start_hour,
{
}

/// An event that is shown is one that was fetched, and its calendar is selected, once the calendars
/// are known.
pub proof fn shown_events_are_of_selected_calendars(v: AppView, i: int)
    requires
        v.visible_events == scheduling_app::shown_events(v),
        0 <= i < v.visible_events.len(),
    ensures
        v.events.contains(v.visible_events[i]),
        v.calendars.len() > 0 ==> v.selected_calendars.contains(
            v.visible_events[i].calendar_uid@,
        ),
{
    if v.calendars.len() > 0 {
        lemma_events_of(v.events, v.selected_calendars, i);
    }
}

/// An event of a selected calendar that was fetched is shown.
pub proof fn events_of_selected_calendars_are_shown(v: AppView, i: int)
    requires
        v.visible_events == scheduling_app::shown_events(v),
        0 <= i < v.events.len(),
        v.calendars.len() == 0 || v.selected_calendars.contains(v.events[i].calendar_uid@),
    ensures
        v.visible_events.contains(v.events[i]),
{
    if v.calendars.len() > 0 {
        lemma_in_events_of(v.events, v.selected_calendars, i);
    }
}

proof fn lemma_events_of(events: Seq<CalendarEventBlock>, selected: Set<Seq<char>>, i: int)
    requires
        0 <= i < scheduling_app::events_of(events, selected).len(),
    ensures
        events.contains(scheduling_app::events_of(events, selected)[i]),
        selected.contains(scheduling_app::events_of(events, selected)[i].calendar_uid@),
    decreases events.len(),
{
    reveal(Seq::filter);
    if events.len() > 0 {
        let before = scheduling_app::events_of(events.drop_last(), selected);
        if i < before.len() {
            lemma_events_of(events.drop_last(), selected, i);
            let k = choose|k: int|
                0 <= k < events.drop_last().len() && events.drop_last()[k] == before[i];
            assert(events[k] == before[i]);
        } else {
            assert(events[events.len() - 1] == events.last());
        }
    }
}

proof fn lemma_in_events_of(events: Seq<CalendarEventBlock>, selected: Set<Seq<char>>, i: int)
    requires
        0 <= i < events.len(),
        selected.contains(events[i].calendar_uid@),
    ensures
        scheduling_app::events_of(events, selected).contains(events[i]),
    decreases events.len(),
{
    reveal(Seq::filter);
    let before = scheduling_app::events_of(events.drop_last(), selected);
    let shown = scheduling_app::events_of(events, selected);
    if i < events.len() - 1 {
        assert(events.drop_last()[i] == events[i]);
        lemma_in_events_of(events.drop_last(), selected, i);
        let k = choose|k: int| 0 <= k < before.len() && before[k] == events[i];
        assert(shown[k] == events[i]);
    } else {
        assert(shown[before.len() as int] == events[i]);
    }
}

/// Toggling a calendar twice changes nothing.
pub proof fn toggling_twice_changes_nothing(v: AppView, uid: Seq<char>)
    requires
        v.visible_events == scheduling_app::shown_events(v),
    ensures
        scheduling_app::toggled(scheduling_app::toggled(v, uid), uid) == v,
{
    let once = scheduling_app::toggled(v, uid);
    let twice = scheduling_app::toggled(once, uid);
    assert(twice.selected_calendars =~= v.selected_calendars);
    assert(twice =~= v);
}

/// A calendar that is not enabled is locked: toggling it changes nothing.
pub proof fn calendars_that_are_not_enabled_are_locked(v: AppView, uid: Seq<char>)
    requires
        !scheduling_app::is_enabled(v.enabled_uids, uid),
    ensures
        scheduling_app::toggled(v, uid) == v,
{
}

/// A calendar's toggle is on only where it can be toggled.
pub proof fn locked_calendars_are_off(v: AppView, calendar: CalendarInfo)
    ensures
        window::calendar_row(v, calendar).checked ==> window::calendar_row(v, calendar).enabled,
{
}

/// Whether no two of the calendars are the same.
pub open spec fn calendars_differ(calendars: Seq<CalendarInfo>) -> bool {
    forall|i: int, j: int|
        0 <= i < j < calendars.len() ==> (#[trigger] calendars[i]).uid@ != (
        #[trigger] calendars[j]).uid@
}

/// When the calendars are loaded, all that are enabled are selected, and the options say so.
pub proof fn loading_selects_all(v: AppView, calendars: Seq<CalendarInfo>)
    requires
        calendars_differ(scheduling_app::meeting_sources(calendars)),
        scheduling_app::meeting_sources(calendars).len() > 0,
    ensures
        window::summary(scheduling_app::with_calendars(v, calendars)) == Summary::All,
        forall|uid: Seq<char>|
            scheduling_app::with_calendars(v, calendars).selected_calendars.contains(uid)
                <==> #[trigger] scheduling_app::lists(
                scheduling_app::meeting_sources(calendars),
                uid,
            ) && scheduling_app::is_enabled(v.enabled_uids, uid),
{
    let sources = scheduling_app::meeting_sources(calendars);
    let after = scheduling_app::with_calendars(v, calendars);
    lemma_enabled_count(sources, v.enabled_uids);
    assert(window::enabled_calendars(after) == enabled_among(sources, v.enabled_uids));
}

/// The calendars among `calendars` that are enabled.
pub open spec fn enabled_among(
    calendars: Seq<CalendarInfo>,
    enabled_uids: Seq<Seq<char>>,
) -> Seq<CalendarInfo> {
    calendars.filter(|c: CalendarInfo| scheduling_app::is_enabled(enabled_uids, c.uid@))
}

pub proof fn lemma_enabled_count(calendars: Seq<CalendarInfo>, enabled_uids: Seq<Seq<char>>)
    requires
        calendars_differ(calendars),
    ensures
        scheduling_app::all_enabled(calendars, enabled_uids).finite(),
        scheduling_app::all_enabled(calendars, enabled_uids).len() == enabled_among(
            calendars,
            enabled_uids,
        ).len(),
    decreases calendars.len(),
{
    reveal(Seq::filter);
    let all = scheduling_app::all_enabled(calendars, enabled_uids);
    if calendars.len() == 0 {
        assert(all =~= Set::empty());
    } else {
        let rest = calendars.drop_last();
        let last = calendars.last();
        assert(calendars_differ(rest)) by {
            assert forall|i: int, j: int| 0 <= i < j < rest.len() implies (
            #[trigger] rest[i]).uid@ != (#[trigger] rest[j]).uid@ by {
                assert(calendars[i].uid@ != calendars[j].uid@);
            }
        }
        lemma_enabled_count(rest, enabled_uids);
        scheduling_app::lemma_next_enabled(calendars, enabled_uids, calendars.len() - 1);
        assert(calendars.take(calendars.len() as int) == calendars);
        assert(calendars.take(calendars.len() - 1) == rest);
        assert(!scheduling_app::lists(rest, last.uid@)) by {
            if scheduling_app::lists(rest, last.uid@) {
                let i = choose|i: int|
                    0 <= i < rest.len() && (#[trigger] rest[i]).uid@ == last.uid@;
                assert(calendars[i].uid@ != calendars[calendars.len() - 1].uid@);
            }
        }
    }
}

/// Paging back undoes paging forward, as long as there is a week to page to, and paging never
/// leaves the weeks that can be paged to.
pub proof fn paging_back_undoes_paging_forward(v: AppView)
    requires
        v.week_offset <= MAX_WEEK_OFFSET,
    ensures
        v.week_offset < MAX_WEEK_OFFSET ==> scheduling_app::step(
            scheduling_app::step(v, Msg::NextWeek),
            Msg::PrevWeek,
        ) == v,
        v.week_offset > 0 ==> scheduling_app::step(
            scheduling_app::step(v, Msg::PrevWeek),
            Msg::NextWeek,
        ) == v,
        scheduling_app::step(v, Msg::NextWeek).week_offset <= MAX_WEEK_OFFSET,
        v.week_offset == 0 ==> scheduling_app::step(v, Msg::PrevWeek) == v,
        v.week_offset == MAX_WEEK_OFFSET ==> scheduling_app::step(v, Msg::NextWeek) == v,
{
}

/// The options open at their main page.
pub proof fn options_open_at_the_main_page(v: AppView)
    requires
        !v.show_options,
    ensures
        scheduling_app::step(v, Msg::ToggleOptions).show_options,
        scheduling_app::step(v, Msg::ToggleOptions).options_page == OptionsPage::Main,
{
}

/// A day is shown if it is one of the seven days from the start of the week on, and not left out
/// as a Saturday or a Sunday.
pub proof fn shown_days_are_those_of_the_week(v: AppView, today: int, day: Date)
    requires
        date::MIN_DAY <= today,
    ensures
        scheduling_app::shown_days(v, today).contains(day) <==> {
            let start = scheduling_app::week_start(v, today);
            &&& start <= day.n() < start + 7
            &&& day.n() <= MAX_DAY
            &&& v.include_weekends || !date::is_weekend(day.n())
        },
{
    lemma_days_from(scheduling_app::week_start(v, today), v.include_weekends, 7, day);
}

proof fn lemma_days_from(base: int, weekends: bool, k: int, day: Date)
    requires
        0 <= k,
        date::MIN_DAY <= base,
    ensures
        scheduling_app::days_from(base, weekends, k).contains(day) <==> base <= day.n() < base + k
            && day.n() <= MAX_DAY && (weekends || !date::is_weekend(day.n())),
    decreases k,
{
    if k > 0 {
        lemma_days_from(base, weekends, k - 1, day);
        let before = scheduling_app::days_from(base, weekends, k - 1);
        let days = scheduling_app::days_from(base, weekends, k);
        let n = base + k - 1;
        if days.contains(day) {
            let i = choose|i: int| 0 <= i < days.len() && days[i] == day;
            if i < before.len() {
                assert(before[i] == day);
            }
        }
        if before.contains(day) {
            let i = choose|i: int| 0 <= i < before.len() && before[i] == day;
            assert(days[i] == day);
        }
        if day.n() == n && n <= MAX_DAY && (weekends || !date::is_weekend(n)) {
            assert(days[before.len() as int] == day);
        }
    }
}

/// A week has seven days, and five without Saturday and Sunday.
pub proof fn a_week_has_five_or_seven_days(v: AppView, today: int)
    requires
        scheduling_app::week_start(v, today) + 6 <= MAX_DAY,
    ensures
        v.include_weekends ==> scheduling_app::shown_days(v, today).len() == 7,
        !v.include_weekends ==> scheduling_app::shown_days(v, today).len() == 5,
{
    let base = scheduling_app::week_start(v, today);
    lemma_one_more_day(base, v.include_weekends, 1);
    lemma_one_more_day(base, v.include_weekends, 2);
    lemma_one_more_day(base, v.include_weekends, 3);
    lemma_one_more_day(base, v.include_weekends, 4);
    lemma_one_more_day(base, v.include_weekends, 5);
    lemma_one_more_day(base, v.include_weekends, 6);
    lemma_one_more_day(base, v.include_weekends, 7);
}

proof fn lemma_one_more_day(base: int, weekends: bool, k: int)
    requires
        k > 0,
        base + k - 1 <= MAX_DAY,
    ensures
        scheduling_app::days_from(base, weekends, k).len() == scheduling_app::days_from(
            base,
            weekends,
            k - 1,
        ).len() + if weekends || !date::is_weekend(base + k - 1) {
            1int
        } else {
            0
        },
        k == 1 ==> scheduling_app::days_from(base, weekends, k - 1).len() == 0,
{
}

/// Every day that can be paged to is one whose events are fetched.
pub proof fn the_events_of_every_shown_day_are_fetched(v: AppView, today: int, day: Date)
    requires
        date::MIN_DAY <= today,
        v.week_offset <= MAX_WEEK_OFFSET,
        scheduling_app::shown_days(v, today).contains(day),
    ensures
        today <= day.n() < today + FETCH_DAYS,
{
    shown_days_are_those_of_the_week(v, today, day);
}

/// No more days of events are fetched than can be paged to.
pub proof fn no_more_events_are_fetched_than_are_shown()
    ensures
        FETCH_DAYS == 7 * (MAX_WEEK_OFFSET + 1),
{
}

/// No day is shown in two weeks.
pub proof fn weeks_do_not_overlap(v: AppView, w: AppView, today: int, day: Date)
    requires
        date::MIN_DAY <= today,
        v.week_offset != w.week_offset,
        scheduling_app::shown_days(v, today).contains(day),
    ensures
        !scheduling_app::shown_days(w, today).contains(day),
{
    shown_days_are_those_of_the_week(v, today, day);
    shown_days_are_those_of_the_week(w, today, day);
}

/// The spans that are merged when a message is done: those that are marked, and the one that the
/// message adds or changes.
pub open spec fn candidates(v: AppView, msg: Msg) -> Seq<Span> {
    match msg {
        Msg::AddAvailability(start, end) => v.availability + seq![(start, end)],
        Msg::ResizeAvailability(i, start, end) => if i < v.availability.len() {
            v.availability.update(i as int, (start, end))
        } else {
            v.availability
        },
        _ => v.availability,
    }
}

/// Whether the spans that are marked stand in order, and no two that start on the same day overlap
/// or touch.
pub open spec fn availability_in_order(v: AppView) -> bool {
    &&& span_laws::chronological(v.availability)
    &&& span_laws::no_overlap(v.availability)
}

/// No message makes the spans that are marked overlap, wherever their days follow the clock.
#[verifier::spinoff_prover]
#[verifier::rlimit(40)]
pub proof fn availability_never_overlaps(v: AppView, msg: Msg)
    requires
        availability_in_order(v),
        span_laws::days_follow_clock(candidates(v, msg)),
    ensures
        availability_in_order(scheduling_app::step(v, msg)),
{
    let spans = candidates(v, msg);
    match msg {
        Msg::AddAvailability(_, _) => {
            span_laws::merging_leaves_no_overlap(spans);
            span_laws::merging_sorts(spans);
        },
        Msg::ResizeAvailability(i, _, _) => {
            if i < v.availability.len() {
                span_laws::merging_leaves_no_overlap(spans);
                span_laws::merging_sorts(spans);
            }
        },
        Msg::RemoveAvailability(i) => {
            if i < v.availability.len() {
                lemma_removed_in_order(v.availability, i as int);
            }
        },
        _ => {},
    }
}

/// Spans in order stay in order where one of them is removed.
proof fn lemma_removed_in_order(before: Seq<Span>, i: int)
    requires
        0 <= i < before.len(),
        span_laws::chronological(before),
        span_laws::no_overlap(before),
    ensures
        span_laws::chronological(before.remove(i)),
        span_laws::no_overlap(before.remove(i)),
{
    let after = before.remove(i);
    assert forall|k: int, l: int| 0 <= k <= l < after.len() implies (
    #[trigger] after[k]).0.instant() <= (#[trigger] after[l]).0.instant() by {
        let a = if k < i {
            k
        } else {
            k + 1
        };
        let b = if l < i {
            l
        } else {
            l + 1
        };
        assert(before[a].0.instant() <= before[b].0.instant());
    }
    assert forall|k: int, l: int|
        0 <= k < l < after.len() && (#[trigger] after[k]).0.day() == (
        #[trigger] after[l]).0.day() implies after[k].1.instant() < after[l].0.instant() by {
        let a = if k < i {
            k
        } else {
            k + 1
        };
        let b = if l < i {
            l
        } else {
            l + 1
        };
        assert(before[a].0.day() == before[b].0.day());
    }
}

/// Picking free time does not make the spans that are marked overlap either.
pub proof fn picking_never_overlaps(v: AppView, added: Seq<Span>)
    requires
        span_laws::days_follow_clock(v.availability + added),
    ensures
        availability_in_order(scheduling_app::with_spans(v, added)),
{
    span_laws::merging_leaves_no_overlap(v.availability + added);
    span_laws::merging_sorts(v.availability + added);
}

/// Picking free time marks only free time: the slot of each span that it adds takes nothing from an
/// event that is shown, lies within the hours that are shown, and is not in the past.
pub proof fn picking_marks_only_free_time(
    v: AppView,
    after: AppView,
    today: int,
    now: LocalTime,
    slots: Seq<Slot>,
    found: Seq<Found>,
    i: int,
    m: int,
)
    requires
        scheduling_app::is_auto_pick(v, after, today, now, slots, found),
        0 <= i < slots.len(),
        slots[i].from <= m < slots[i].to,
    ensures
        !free_time::is_busy(v.visible_events, slots[i].date.n(), m),
        v.day_start_hour * 60 <= m < v.day_end_hour * 60,
        slots[i].date.n() >= now.day() ==> free_time::is_ahead(now, slots[i].date.n(), m),
{
    assert(slots.contains(slots[i]));
    free_time::free_slots_are_free(
        v.visible_events,
        scheduling_app::shown_days(v, today),
        now,
        v.day_start_hour * 60,
        v.day_end_hour * 60,
        slots[i],
        m,
    );
}

/// Picking free time marks all of it: whatever stretch of a day that is shown is free, long enough
/// for a span, within the hours and not in the past lies in the slot of a span that is added.
pub proof fn picking_marks_all_free_time(
    v: AppView,
    after: AppView,
    today: int,
    now: LocalTime,
    slots: Seq<Slot>,
    found: Seq<Found>,
    date: Date,
    a: int,
    b: int,
)
    requires
        scheduling_app::hours_fit(v),
        scheduling_app::is_auto_pick(v, after, today, now, slots, found),
        scheduling_app::shown_days(v, today).contains(date),
        free_time::first_minute(now, date.n(), v.day_start_hour * 60) <= a,
        b <= v.day_end_hour * 60,
        b - a >= SNAP_MIN,
        forall|m: int|
            a <= m < b ==> !#[trigger] free_time::is_busy(v.visible_events, date.n(), m),
    ensures
        exists|i: int|
            0 <= i < slots.len() && (#[trigger] slots[i]).date == date && slots[i].from <= a && b
                <= slots[i].to,
{
    let days = scheduling_app::shown_days(v, today);
    let from = v.day_start_hour * 60;
    let to = v.day_end_hour * 60;
    free_time::all_free_time_is_offered(v.visible_events, days, now, from, to, date, a, b);
    let slot = choose|slot: Slot| #[trigger]
        free_time::is_free_slot(v.visible_events, days, now, from, to, slot) && slot.date == date
            && slot.from <= a && b <= slot.to;
    assert(slots.contains(slot));
    let i = choose|i: int| 0 <= i < slots.len() && slots[i] == slot;
    assert(slots[i].date == date);
}

/// Whether the times that were found for the starts of the slots are read on a clock that is
/// `offset` seconds ahead of UTC.
pub open spec fn starts_on_clock(found: Seq<Found>, offset: int) -> bool {
    forall|i: int|
        0 <= i < found.len() ==> ((#[trigger] found[i]).0 matches Some(t) ==> t.offset_secs == offset)
}

/// Whether a time was found for both ends of each slot, and all are read on a clock that is `offset`
/// seconds ahead of UTC.
pub open spec fn all_on_clock(found: Seq<Found>, offset: int) -> bool {
    forall|i: int|
        0 <= i < found.len() ==> ((#[trigger] found[i]).0 matches Some(s) && s.offset_secs == offset
            && (found[i].1 matches Some(e) && e.offset_secs == offset))
}

/// What is picked is not past: no span that picking free time marks starts before the time at
/// which it is picked, wherever the clock is not put forward or back in between.
pub proof fn picked_spans_are_not_past(
    v: AppView,
    after: AppView,
    today: int,
    now: LocalTime,
    slots: Seq<Slot>,
    found: Seq<Found>,
    k: int,
)
    requires
        scheduling_app::is_auto_pick(v, after, today, now, slots, found),
        hours_in_order(v),
        v.availability.len() == 0,
        date::MIN_DAY <= now.day() <= today,
        starts_on_clock(found, now.offset_secs as int),
        0 <= k < after.availability.len(),
    ensures
        after.availability[k].0.instant() >= now.instant(),
{
    let added = scheduling_app::spans_of(found, now);
    assert(v.availability + added == added);
    span_laws::merging_keeps_starts(added, k);
    let i = choose|i: int|
        0 <= i < added.len() && (#[trigger] added[i]).0 == after.availability[k].0;
    let slot = slots[i];
    assert(scheduling_app::are_ends_of(found[i], slot));
    match found[i].0 {
        Some(t) => {
            let n = slot.date.n();
            lemma_slot_of_day(v, after, today, now, slots, found, i);
            picking_marks_only_free_time(v, after, today, now, slots, found, i, slot.from as int);
            assert(t.wall_secs == local_time::wall_at(n, slot.from as int));
            assert(free_time::is_ahead(now, n, slot.from as int));
        },
        None => {},
    }
}

/// A slot lies on a day that is shown, within the day.
proof fn lemma_slot_of_day(
    v: AppView,
    after: AppView,
    today: int,
    now: LocalTime,
    slots: Seq<Slot>,
    found: Seq<Found>,
    i: int,
)
    requires
        scheduling_app::is_auto_pick(v, after, today, now, slots, found),
        hours_in_order(v),
        date::MIN_DAY <= today,
        0 <= i < slots.len(),
    ensures
        slots[i].date.n() >= today,
        0 <= slots[i].from,
        slots[i].from + SNAP_MIN <= slots[i].to <= 1440,
{
    assert(slots.contains(slots[i]));
    shown_days_are_those_of_the_week(v, today, slots[i].date);
}

/// Whether `event` starts and ends on a clock that is `offset` seconds ahead of UTC.
pub open spec fn event_on_clock(event: CalendarEventBlock, offset: int) -> bool {
    event.start.offset_secs == offset && event.end.offset_secs == offset
}

/// An event and a slot that some point in time lies in have a minute in common.
#[verifier::spinoff_prover]
proof fn lemma_common_minute(event: CalendarEventBlock, slot: Slot, span: Span, offset: int, t: int)
    requires
        event_on_clock(event, offset),
        0 <= slot.from < slot.to <= 1440,
        local_time::answers(Some(span.0), slot.date, slot.from as int),
        local_time::answers(Some(span.1), slot.date, slot.to as int),
        span.0.offset_secs == offset,
        span.1.offset_secs == offset,
        span_laws::covers(span, t),
        event.start.instant() <= t < event.end.instant(),
    ensures
        exists|m: int|
            slot.from <= m < slot.to && #[trigger] free_time::takes_up(event, slot.date.n(), m),
{
    let n = slot.date.n();
    let s = event.start.wall_secs as int;
    let e = event.end.wall_secs as int;
    let base = local_time::wall_at(n, 0);
    assert(s < span.1.wall_secs);
    assert(s < e || s == e && event.start.nanos < event.end.nanos);
    assert(span.0.wall_secs < e || span.0.wall_secs == e && event.end.nanos > 0);
    assert(base == (n - local_time::EPOCH_DAY) * 86400);
    assert(span.0.wall_secs == base + slot.from * 60);
    assert(span.1.wall_secs <= base + slot.to * 60);
    let a = (s - base) / 60;
    let b = (e - base) / 60;
    lemma_minute_on_clock(n, a, s);
    lemma_minute_on_clock(n, b, e);
    let m = if a > slot.from {
        a
    } else {
        slot.from as int
    };
    assert(b >= m);
    assert(b == m ==> e % 60 != 0 || event.end.nanos > 0) by {
        if b == m && e % 60 == 0 {
            assert(e == base + m * 60);
        }
    }
    assert(free_time::takes_up(event, n, m));
}

/// The day and the minute that the wall clock shows within the minute that starts `a` minutes after
/// the midnight of day `n`.
#[verifier::spinoff_prover]
proof fn lemma_minute_on_clock(n: int, a: int, wall: int)
    requires
        a == (wall - local_time::wall_at(n, 0)) / 60,
    ensures
        wall == local_time::wall_at(n, 0) + a * 60 + wall % 60,
        a < 0 ==> wall / 86400 + local_time::EPOCH_DAY < n,
        0 <= a < 1440 ==> wall / 86400 + local_time::EPOCH_DAY == n && local_time::minute_of_day(
            wall,
        ) == a,
        a >= 1440 ==> wall / 86400 + local_time::EPOCH_DAY > n,
{
    let q = n - local_time::EPOCH_DAY;
    assert(local_time::wall_at(n, 0) == q * 86400);
    assert((wall - q * 86400) % 60 == wall % 60);
    assert(wall == q * 86400 + a * 60 + wall % 60);
}

/// What is picked is free: no span that picking free time marks overlaps an event that is shown,
/// wherever the clock skips none of its ends and is not put forward or back in between.
pub proof fn picked_spans_overlap_no_event(
    v: AppView,
    after: AppView,
    today: int,
    now: LocalTime,
    slots: Seq<Slot>,
    found: Seq<Found>,
    offset: int,
    k: int,
    j: int,
)
    requires
        scheduling_app::is_auto_pick(v, after, today, now, slots, found),
        hours_in_order(v),
        v.availability.len() == 0,
        date::MIN_DAY <= today,
        all_on_clock(found, offset),
        0 <= k < after.availability.len(),
        0 <= j < v.visible_events.len(),
        event_on_clock(v.visible_events[j], offset),
    ensures
        ({
            let span = after.availability[k];
            let event = v.visible_events[j];
            gesture::max_of(span.0.instant(), event.start.instant()) >= gesture::min_of(
                span.1.instant(),
                event.end.instant(),
            )
        }),
{
    let span = after.availability[k];
    let event = v.visible_events[j];
    let t = gesture::max_of(span.0.instant(), event.start.instant());
    if t < gesture::min_of(span.1.instant(), event.end.instant()) {
        let added = scheduling_app::spans_of(found, now);
        assert(v.availability + added == added);
        span_laws::merging_adds_no_time(added, k, t);
        let i = choose|i: int|
            0 <= i < added.len() && span_laws::covers(#[trigger] added[i], t)
                && added[i].0.day() == span.0.day();
        let slot = slots[i];
        assert(scheduling_app::are_ends_of(found[i], slot));
        assert(found[i].0 is Some && found[i].1 is Some);
        lemma_slot_of_day(v, after, today, now, slots, found, i);
        lemma_common_minute(event, slot, added[i], offset, t);
        let m = choose|m: int|
            slot.from <= m < slot.to && #[trigger] free_time::takes_up(event, slot.date.n(), m);
        picking_marks_only_free_time(v, after, today, now, slots, found, i, m);
        assert(free_time::takes_up(v.visible_events[j], slot.date.n(), m));
        assert(free_time::is_busy(v.visible_events, slot.date.n(), m));
    }
}

/// Marking spans keeps all that was marked, and marks all that is added: each of the spans lies
/// whole in one that is marked afterwards.
pub proof fn marking_loses_no_time(v: AppView, added: Seq<Span>, k: int)
    requires
        0 <= k < v.availability.len() + added.len(),
    ensures
        span_laws::held_by(
            (v.availability + added)[k],
            scheduling_app::with_spans(v, added).availability,
        ),
{
    span_laws::merging_loses_no_time(v.availability + added, k);
}

/// Marking spans again that were just marked changes nothing, wherever those that start together
/// start on the same day, and no span that is marked ends before it starts.
pub proof fn marking_twice_is_marking_once(v: AppView, added: Seq<Span>)
    requires
        span_laws::starts_agree(added),
        span_laws::proper(scheduling_app::with_spans(v, added).availability),
    ensures
        scheduling_app::with_spans(scheduling_app::with_spans(v, added), added)
            == scheduling_app::with_spans(v, added),
{
    span_laws::merging_the_same_again_changes_nothing(v.availability, added);
}

/// Picking free time changes nothing but the spans that are marked, and nothing at all where no
/// hours are shown.
pub proof fn picking_changes_only_availability(v: AppView, after: AppView)
    requires
        scheduling_app::auto_picked(v, after),
    ensures
        after == (AppView { availability: after.availability, ..v }),
        v.day_end_hour <= v.day_start_hour ==> after == v,
{
}

/// Whether `s` lies on an earlier day than `t`, or starts earlier on the same day.
spec fn comes_before(s: Slot, t: Slot) -> bool {
    s.date.n() < t.date.n() || s.date.n() == t.date.n() && s.from < t.from
}

spec fn slots_in_order(slots: Seq<Slot>) -> bool {
    forall|i: int, j: int|
        0 <= i < j < slots.len() ==> comes_before(#[trigger] slots[i], #[trigger] slots[j])
}

/// Slots in order are known once it is known which they are.
proof fn lemma_same_slots(a: Seq<Slot>, b: Seq<Slot>)
    requires
        slots_in_order(a),
        slots_in_order(b),
        forall|s: Slot| #[trigger] a.contains(s) <==> b.contains(s),
    ensures
        a == b,
    decreases a.len(),
{
    if a.len() == 0 {
        if b.len() > 0 {
            assert(b.contains(b[0]));
            assert(a.contains(b[0]));
        }
        assert(a == b);
    } else {
        let x = a.last();
        assert(a[a.len() - 1] == x);
        assert(a.contains(x));
        assert(b.contains(x));
        let k = choose|k: int| 0 <= k < b.len() && b[k] == x;
        let y = b.last();
        assert(b[b.len() - 1] == y);
        assert(b.contains(y));
        assert(a.contains(y));
        let l = choose|l: int| 0 <= l < a.len() && a[l] == y;
        if k < b.len() - 1 {
            assert(comes_before(b[k], b[b.len() - 1]));
            assert(l < a.len() - 1 ==> comes_before(a[l], a[a.len() - 1]));
        }
        assert(x == y);
        let p = a.drop_last();
        let q = b.drop_last();
        assert forall|s: Slot| #[trigger] p.contains(s) <==> q.contains(s) by {
            if p.contains(s) {
                let i = choose|i: int| 0 <= i < p.len() && p[i] == s;
                assert(a[i] == s);
                assert(comes_before(a[i], a[a.len() - 1]));
                assert(a.contains(s));
                let j = choose|j: int| 0 <= j < b.len() && b[j] == s;
                assert(q[j] == s);
            }
            if q.contains(s) {
                let j = choose|j: int| 0 <= j < q.len() && q[j] == s;
                assert(b[j] == s);
                assert(comes_before(b[j], b[b.len() - 1]));
                assert(b.contains(s));
                assert(a.contains(s));
                let i = choose|i: int| 0 <= i < a.len() && a[i] == s;
                assert(p[i] == s);
            }
        }
        assert forall|i: int, j: int| 0 <= i < j < p.len() implies comes_before(
            #[trigger] p[i],
            #[trigger] p[j],
        ) by {
            assert(comes_before(a[i], a[j]));
        }
        assert forall|i: int, j: int| 0 <= i < j < q.len() implies comes_before(
            #[trigger] q[i],
            #[trigger] q[j],
        ) by {
            assert(comes_before(b[i], b[j]));
        }
        lemma_same_slots(p, q);
        assert(p.push(x) == a);
        assert(q.push(x) == b);
    }
}

proof fn lemma_pickable_in_order(v: AppView, days: Seq<Date>, now: LocalTime, slots: Seq<Slot>)
    requires
        scheduling_app::are_pickable(v, days, now, slots),
    ensures
        slots_in_order(slots),
{
    assert forall|i: int, j: int| 0 <= i < j < slots.len() implies comes_before(
        #[trigger] slots[i],
        #[trigger] slots[j],
    ) by {
        assert(slots.contains(slots[i]));
    }
}

/// Spans for slots start together only on the same day, if their starts are read on one clock.
pub proof fn starts_on_one_clock_agree(found: Seq<Found>, now: LocalTime)
    requires
        starts_on_clock(found, now.offset_secs as int),
    ensures
        span_laws::starts_agree(scheduling_app::spans_of(found, now)),
{
    let added = scheduling_app::spans_of(found, now);
    assert forall|i: int| 0 <= i < added.len() implies (#[trigger] added[i]).0.offset_secs
        == now.offset_secs by {
        assert(found[i].0 matches Some(t) ==> t.offset_secs == now.offset_secs);
    }
}

/// Picking free time a second time at the same time of the same day finds the same slots, and
/// changes nothing if the time zone answers the same for them, wherever spans for slots that start
/// together start on the same day, and no span that is marked ends before it starts.
pub proof fn picking_twice_is_picking_once(
    v: AppView,
    once: AppView,
    twice: AppView,
    today: int,
    now: LocalTime,
    slots: Seq<Slot>,
    again: Seq<Slot>,
    found: Seq<Found>,
)
    requires
        scheduling_app::is_auto_pick(v, once, today, now, slots, found),
        scheduling_app::is_auto_pick(once, twice, today, now, again, found),
        span_laws::starts_agree(scheduling_app::spans_of(found, now)),
        span_laws::proper(once.availability),
    ensures
        again == slots,
        twice == once,
{
    let days = scheduling_app::shown_days(v, today);
    lemma_pickable_in_order(v, days, now, slots);
    lemma_pickable_in_order(once, days, now, again);
    lemma_same_slots(slots, again);
    marking_twice_is_marking_once(v, scheduling_app::spans_of(found, now));
}

/// Removing the spans leaves nothing to copy, and there is something to copy wherever a span is
/// marked.
pub proof fn there_is_a_message_where_a_span_is_marked(
    locale: Locale,
    spans: Seq<Span>,
    intro: Seq<char>,
)
    ensures
        scheduling::message(locale, spans, intro).len() > 0 <==> spans.len() > 0,
{
}

} // verus!
