//! What each message does to the window.
use vstd::prelude::*;

use crate::app_laws;
use crate::calendar::{CalendarEventBlock, CalendarInfo};
use crate::date::Date;
use crate::gesture::Reaction;
use crate::local_time;
use crate::local_time::LocalTime;
use crate::locale::Locale;
use crate::picking_laws;
use crate::scheduling;
use crate::scheduling::Span;
use crate::scheduling_app;
use crate::scheduling_app::{AppView, Effect, Msg, OptionsPage, SchedulingApp};
use crate::span_laws;
use crate::window;
use crate::window::Summary;

verus! {

/// Each calendar in the list of enabled ones is enabled, wherever in the list it stands.
pub proof fn listed_calendars_are_enabled(list: Seq<Seq<char>>, i: int)
    requires
        0 <= i < list.len(),
    ensures
        scheduling_app::is_enabled(list, list[i]),
{
}

/// Where the list of enabled calendars holds any, no other is enabled; where it holds none, all are.
pub proof fn only_listed_calendars_are_enabled(list: Seq<Seq<char>>, uid: Seq<char>)
    ensures
        list.len() > 0 && scheduling_app::is_enabled(list, uid) ==> exists|i: int|
            0 <= i < list.len() && #[trigger] list[i] == uid,
        list.len() == 0 ==> scheduling_app::is_enabled(list, uid),
{
}

/// One more calendar in the list is enabled too, and changes nothing for the others, but that all
/// are enabled no longer where it is the first.
pub proof fn listing_a_calendar_enables_it(list: Seq<Seq<char>>, uid: Seq<char>, other: Seq<char>)
    ensures
        scheduling_app::is_enabled(list.push(uid), uid),
        other != uid && list.len() > 0 ==> scheduling_app::is_enabled(list.push(uid), other)
            == scheduling_app::is_enabled(list, other),
        other != uid && list.len() == 0 ==> !scheduling_app::is_enabled(list.push(uid), other),
{
    let more = list.push(uid);
    assert(more[list.len() as int] == uid);
    if more.contains(other) {
        let i = choose|i: int| 0 <= i < more.len() && more[i] == other;
        assert(i < list.len() ==> list[i] == other);
    }
    if list.contains(other) {
        let i = choose|i: int| 0 <= i < list.len() && list[i] == other;
        assert(more[i] == other);
    }
}

/// Whether one of the calendars holds meetings and is called `uid`.
pub open spec fn lists_source(calendars: Seq<CalendarInfo>, uid: Seq<char>) -> bool {
    exists|i: int|
        0 <= i < calendars.len() && (#[trigger] calendars[i]).meeting_source && calendars[i].uid@
            == uid
}

/// Of the calendars, those are kept that hold meetings, in their order.
pub proof fn meeting_sources_are_kept_one_by_one(calendars: Seq<CalendarInfo>, c: CalendarInfo)
    ensures
        scheduling_app::meeting_sources(Seq::empty()).len() == 0,
        c.meeting_source ==> scheduling_app::meeting_sources(calendars.push(c))
            == scheduling_app::meeting_sources(calendars).push(c),
        !c.meeting_source ==> scheduling_app::meeting_sources(calendars.push(c))
            == scheduling_app::meeting_sources(calendars),
{
    reveal(Seq::filter);
    assert(calendars.push(c).drop_last() == calendars);
}

proof fn lemma_sources(calendars: Seq<CalendarInfo>, uid: Seq<char>)
    ensures
        scheduling_app::lists(scheduling_app::meeting_sources(calendars), uid) <==> lists_source(
            calendars,
            uid,
        ),
    decreases calendars.len(),
{
    if calendars.len() == 0 {
        meeting_sources_are_kept_one_by_one(calendars, arbitrary());
        assert(calendars == Seq::<CalendarInfo>::empty());
    } else {
        let rest = calendars.drop_last();
        let last = calendars.last();
        assert(rest.push(last) == calendars);
        lemma_sources(rest, uid);
        meeting_sources_are_kept_one_by_one(rest, last);
        let before = scheduling_app::meeting_sources(rest);
        let sources = scheduling_app::meeting_sources(calendars);
        if scheduling_app::lists(sources, uid) {
            let i = choose|i: int| 0 <= i < sources.len() && (#[trigger] sources[i]).uid@ == uid;
            if i < before.len() {
                assert(before[i].uid@ == uid);
            } else {
                assert(calendars[calendars.len() - 1].uid@ == uid);
            }
        }
        if lists_source(rest, uid) {
            let i = choose|i: int|
                0 <= i < rest.len() && (#[trigger] rest[i]).meeting_source && rest[i].uid@ == uid;
            assert(calendars[i].meeting_source && calendars[i].uid@ == uid);
            let k = choose|k: int| 0 <= k < before.len() && (#[trigger] before[k]).uid@ == uid;
            assert(sources[k].uid@ == uid);
        }
        if lists_source(calendars, uid) && !lists_source(rest, uid) {
            let i = choose|i: int|
                0 <= i < calendars.len() && (#[trigger] calendars[i]).meeting_source
                    && calendars[i].uid@ == uid;
            if i < rest.len() {
                assert(rest[i].meeting_source);
            }
            assert(sources[before.len() as int].uid@ == uid);
        }
    }
}

/// When the calendars are loaded, those that hold meetings are kept, each of them that is enabled is
/// selected, and no other calendar is. Only the events that are shown change beside that.
pub proof fn loading_selects_each_enabled_source(
    v: AppView,
    calendars: Vec<CalendarInfo>,
    after: AppView,
    uid: Seq<char>,
)
    requires
        scheduling_app::follows(v, Msg::CalendarsLoaded(calendars), after),
    ensures
        after.selected_calendars.contains(uid) <==> lists_source(calendars@, uid) && (
        v.enabled_uids.len() == 0 || exists|j: int|
            0 <= j < v.enabled_uids.len() && #[trigger] v.enabled_uids[j] == uid),
        scheduling_app::lists(after.calendars, uid) <==> lists_source(calendars@, uid),
        after.calendars == scheduling_app::meeting_sources(calendars@),
        shows_selected(after),
        after == (AppView {
            calendars: after.calendars,
            selected_calendars: after.selected_calendars,
            visible_events: after.visible_events,
            ..v
        }),
{
    lemma_sources(calendars@, uid);
    lemma_shows_selected(after);
    only_listed_calendars_are_enabled(v.enabled_uids, uid);
}

/// Whether the event is shown, by the calendars that are selected.
pub open spec fn is_to_be_shown(v: AppView, event: CalendarEventBlock) -> bool {
    v.calendars.len() == 0 || v.selected_calendars.contains(event.calendar_uid@)
}

/// The places of the first `k` events that are to be shown.
pub open spec fn places(v: AppView, k: int) -> Seq<int>
    decreases k,
{
    if k <= 0 {
        Seq::empty()
    } else if is_to_be_shown(v, v.events[k - 1]) {
        places(v, k - 1).push(k - 1)
    } else {
        places(v, k - 1)
    }
}

/// Whether those events are shown that are to be shown, each once and in their order.
pub open spec fn shows_selected(v: AppView) -> bool {
    let shown = places(v, v.events.len() as int);
    &&& v.visible_events.len() == shown.len()
    &&& forall|i: int|
        0 <= i < shown.len() ==> 0 <= #[trigger] shown[i] < v.events.len() && v.visible_events[i]
            == v.events[shown[i]]
}

proof fn lemma_shows_selected(v: AppView)
    requires
        v.visible_events == scheduling_app::shown_events(v),
    ensures
        shows_selected(v),
{
    lemma_places(v, v.events.len() as int);
    assert(v.events.take(v.events.len() as int) == v.events);
}

proof fn lemma_places(v: AppView, k: int)
    requires
        0 <= k <= v.events.len(),
    ensures
        ({
            let list = if v.calendars.len() == 0 {
                v.events.take(k)
            } else {
                scheduling_app::events_of(v.events.take(k), v.selected_calendars)
            };
            let shown = places(v, k);
            &&& list.len() == shown.len()
            &&& forall|i: int|
                0 <= i < shown.len() ==> 0 <= #[trigger] shown[i] < k && list[i]
                    == v.events[shown[i]]
        }),
    decreases k,
{
    reveal(Seq::filter);
    if k > 0 {
        lemma_places(v, k - 1);
        assert(v.events.take(k).drop_last() == v.events.take(k - 1));
        assert(v.events.take(k).last() == v.events[k - 1]);
        let before = places(v, k - 1);
        let shown = places(v, k);
        let old_list = if v.calendars.len() == 0 {
            v.events.take(k - 1)
        } else {
            scheduling_app::events_of(v.events.take(k - 1), v.selected_calendars)
        };
        let list = if v.calendars.len() == 0 {
            v.events.take(k)
        } else {
            scheduling_app::events_of(v.events.take(k), v.selected_calendars)
        };
        assert forall|i: int| 0 <= i < shown.len() implies 0 <= #[trigger] shown[i] < k && list[i]
            == v.events[shown[i]] by {
            if i < before.len() {
                assert(shown[i] == before[i]);
                assert(old_list[i] == v.events[before[i]]);
                assert(list[i] == old_list[i]);
            }
        }
    }
}

/// The events that are to be shown are at the places that are found for them: each is, once, and in
/// their order.
pub proof fn places_are_those_of_the_events_to_be_shown(v: AppView, k: int, n: int)
    requires
        0 <= k <= v.events.len(),
    ensures
        places(v, k).contains(n) <==> 0 <= n < k && is_to_be_shown(v, v.events[n]),
        forall|i: int, j: int|
            0 <= i < j < places(v, k).len() ==> #[trigger] places(v, k)[i] < #[trigger] places(
                v,
                k,
            )[j],
        forall|i: int| 0 <= i < places(v, k).len() ==> #[trigger] places(v, k)[i] < k,
    decreases k,
{
    if k > 0 {
        places_are_those_of_the_events_to_be_shown(v, k - 1, n);
        let before = places(v, k - 1);
        let shown = places(v, k);
        if shown.contains(n) {
            let i = choose|i: int| 0 <= i < shown.len() && shown[i] == n;
            if i < before.len() {
                assert(before[i] == n);
            }
        }
        if before.contains(n) {
            let i = choose|i: int| 0 <= i < before.len() && before[i] == n;
            assert(shown[i] == n);
        }
        if n == k - 1 && is_to_be_shown(v, v.events[n]) {
            assert(shown[before.len() as int] == n);
        }
        assert forall|i: int, j: int| 0 <= i < j < shown.len() implies #[trigger] shown[i]
            < #[trigger] shown[j] by {
            if j < before.len() {
                assert(before[i] < before[j]);
            } else {
                assert(before[i] < k - 1);
            }
        }
        assert forall|i: int| 0 <= i < shown.len() implies #[trigger] shown[i] < k by {
            if i < before.len() {
                assert(before[i] < k - 1);
            }
        }
    }
}

/// When the events are loaded, they take the place of those that were there, and those of selected
/// calendars are shown; nothing else changes, but that the wait for them is over.
pub proof fn loaded_events_are_shown(
    v: AppView,
    events: Vec<CalendarEventBlock>,
    after: AppView,
)
    requires
        scheduling_app::follows(v, Msg::EventsLoaded(events), after),
    ensures
        after.events == events@,
        !after.loading,
        shows_selected(after),
        after == (AppView {
            events: after.events,
            visible_events: after.visible_events,
            loading: after.loading,
            ..v
        }),
{
    lemma_shows_selected(after);
}

/// Toggling a calendar that is enabled selects it where it was not selected, and the other way
/// round, and leaves all others as they were. One that is not enabled cannot be toggled.
pub proof fn toggling_flips_one_calendar(v: AppView, uid: String, after: AppView, other: Seq<char>)
    requires
        scheduling_app::follows(v, Msg::ToggleCalendar(uid), after),
    ensures
        v.enabled_uids.len() == 0 || v.enabled_uids.contains(uid@) ==> {
            &&& after.selected_calendars.contains(uid@) != v.selected_calendars.contains(uid@)
            &&& other != uid@ ==> after.selected_calendars.contains(other)
                == v.selected_calendars.contains(other)
            &&& shows_selected(after)
            &&& after == (AppView {
                selected_calendars: after.selected_calendars,
                visible_events: after.visible_events,
                ..v
            })
        },
        v.enabled_uids.len() > 0 && !v.enabled_uids.contains(uid@) ==> after == v,
{
    if v.enabled_uids.len() == 0 || v.enabled_uids.contains(uid@) {
        lemma_shows_selected(after);
    }
}

/// The hour at which the day is set to start is the one it starts at. It ends when it did, or an
/// hour after it starts where that would be no later, and at midnight at the latest.
pub proof fn setting_the_start_moves_the_end_only_where_it_must(
    v: AppView,
    hour: u32,
    after: AppView,
)
    requires
        scheduling_app::follows(v, Msg::SetDayStart(hour), after),
    ensures
        after.day_start_hour == hour,
        hour < v.day_end_hour ==> after.day_end_hour == v.day_end_hour,
        v.day_end_hour <= hour < 24 ==> after.day_end_hour == hour + 1,
        v.day_end_hour <= hour && hour >= 24 ==> after.day_end_hour == 24,
        after == (AppView {
            day_start_hour: after.day_start_hour,
            day_end_hour: after.day_end_hour,
            ..v
        }),
{
}

/// The hour at which the day is set to end is the one it ends at. It starts when it did, or an hour
/// before it ends where that would be no earlier, and at midnight at the earliest.
pub proof fn setting_the_end_moves_the_start_only_where_it_must(
    v: AppView,
    hour: u32,
    after: AppView,
)
    requires
        scheduling_app::follows(v, Msg::SetDayEnd(hour), after),
    ensures
        after.day_end_hour == hour,
        v.day_start_hour < hour ==> after.day_start_hour == v.day_start_hour,
        1 <= hour <= v.day_start_hour ==> after.day_start_hour == hour - 1,
        hour == 0 ==> after.day_start_hour == 0,
        after == (AppView {
            day_start_hour: after.day_start_hour,
            day_end_hour: after.day_end_hour,
            ..v
        }),
{
}

/// Saturdays and Sundays are included when that is asked for, and nothing else changes.
pub proof fn weekends_are_included_as_asked(v: AppView, enabled: bool, after: AppView)
    requires
        scheduling_app::follows(v, Msg::SetWeekends(enabled), after),
    ensures
        after.include_weekends == enabled,
        after == (AppView { include_weekends: after.include_weekends, ..v }),
{
}

/// The options open and close by turns, and open at their main page; leaving them keeps the page.
/// Nothing else changes.
pub proof fn options_open_and_close(v: AppView, after: AppView)
    ensures
        scheduling_app::follows(v, Msg::ToggleOptions, after) ==> {
            &&& after.show_options != v.show_options
            &&& after.show_options ==> after.options_page == OptionsPage::Main
            &&& !after.show_options ==> after.options_page == v.options_page
            &&& after == (AppView {
                show_options: after.show_options,
                options_page: after.options_page,
                ..v
            })
        },
        scheduling_app::follows(v, Msg::CloseOptions, after) ==> !after.show_options && after == (
        AppView { show_options: after.show_options, ..v }),
        scheduling_app::follows(v, Msg::OpenCalendarsPage, after) ==> after.options_page
            == OptionsPage::Calendars && after == (AppView {
            options_page: after.options_page,
            ..v
        }),
        scheduling_app::follows(v, Msg::OptionsBack, after) ==> after.options_page
            == OptionsPage::Main && after == (AppView { options_page: after.options_page, ..v }),
{
}

/// Paging goes one week forward or back, from the current week to three weeks later, and changes
/// nothing else.
pub proof fn paging_goes_week_by_week(v: AppView, after: AppView)
    requires
        v.week_offset <= 3,
    ensures
        scheduling_app::follows(v, Msg::NextWeek, after) ==> {
            &&& v.week_offset < 3 ==> after.week_offset == v.week_offset + 1
            &&& v.week_offset == 3 ==> after.week_offset == 3
            &&& after == (AppView { week_offset: after.week_offset, ..v })
        },
        scheduling_app::follows(v, Msg::PrevWeek, after) ==> {
            &&& v.week_offset > 0 ==> after.week_offset == v.week_offset - 1
            &&& v.week_offset == 0 ==> after.week_offset == 0
            &&& after == (AppView { week_offset: after.week_offset, ..v })
        },
{
}

/// The spans without span `i`.
pub open spec fn others(spans: Seq<Span>, i: int) -> Seq<Span> {
    Seq::new((spans.len() - 1) as nat, |k: int| if k < i {
        spans[k]
    } else {
        spans[k + 1]
    })
}

/// Whether the spans `after` mark what `spans` do, and `added`, and nothing else.
pub open spec fn marks_also(spans: Seq<Span>, added: Span, after: Seq<Span>) -> bool {
    &&& span_laws::held_by(added, after)
    &&& forall|k: int|
        0 <= k < spans.len() ==> span_laws::held_by(#[trigger] spans[k], after)
    &&& forall|t: int| #[trigger]
        picking_laws::is_covered(after, t) ==> picking_laws::is_covered(spans, t)
            || span_laws::covers(added, t)
    &&& forall|k: int|
        0 <= k < after.len() ==> span_laws::starts_like_one(#[trigger] after[k], spans)
            || after[k].0 == added.0
}

proof fn lemma_marks_also(spans: Seq<Span>, added: Span, all: Seq<Span>, i: int)
    requires
        0 <= i < all.len(),
        all[i] == added,
        all.len() == spans.len() + 1,
        forall|k: int| 0 <= k < spans.len() ==> #[trigger] spans[k] == all[if k < i {
            k
        } else {
            k + 1
        }],
    ensures
        marks_also(spans, added, scheduling::merged(all)),
{
    let after = scheduling::merged(all);
    span_laws::merging_loses_no_time(all, i);
    assert forall|k: int| 0 <= k < spans.len() implies span_laws::held_by(
        #[trigger] spans[k],
        after,
    ) by {
        let j = if k < i {
            k
        } else {
            k + 1
        };
        span_laws::merging_loses_no_time(all, j);
    }
    assert forall|t: int| #[trigger] picking_laws::is_covered(after, t) implies
        picking_laws::is_covered(spans, t) || span_laws::covers(added, t) by {
        let k = choose|k: int|
            0 <= k < after.len() && span_laws::covers(#[trigger] after[k], t);
        span_laws::merging_adds_no_time(all, k, t);
        let j = choose|j: int|
            0 <= j < all.len() && span_laws::covers(#[trigger] all[j], t) && all[j].0.day()
                == after[k].0.day();
        if j != i {
            let p = if j < i {
                j
            } else {
                j - 1
            };
            assert(spans[p] == all[j]);
        }
    }
    assert forall|k: int| 0 <= k < after.len() implies span_laws::starts_like_one(
        #[trigger] after[k],
        spans,
    ) || after[k].0 == added.0 by {
        span_laws::merging_keeps_starts(all, k);
        let j = choose|j: int| 0 <= j < all.len() && (#[trigger] all[j]).0 == after[k].0;
        if j != i {
            let p = if j < i {
                j
            } else {
                j - 1
            };
            assert(spans[p] == all[j]);
        }
    }
}

/// Adding a span marks it beside what is marked, and nothing else.
pub proof fn adding_marks_one_span_more(
    v: AppView,
    start: LocalTime,
    end: LocalTime,
    after: AppView,
)
    requires
        scheduling_app::follows(v, Msg::AddAvailability(start, end), after),
    ensures
        marks_also(v.availability, (start, end), after.availability),
        span_laws::chronological(after.availability),
        span_laws::separate(after.availability),
        after == (AppView { availability: after.availability, ..v }),
{
    let all = v.availability + seq![(start, end)];
    lemma_marks_also(v.availability, (start, end), all, v.availability.len() as int);
    span_laws::merging_sorts(all);
    span_laws::merging_separates(all);
}

/// Resizing a span marks its new bounds in place of the old ones, and leaves the other spans
/// marked. Where there is no such span, nothing changes.
pub proof fn resizing_changes_one_span(
    v: AppView,
    i: usize,
    start: LocalTime,
    end: LocalTime,
    after: AppView,
)
    requires
        scheduling_app::follows(v, Msg::ResizeAvailability(i, start, end), after),
    ensures
        i < v.availability.len() ==> {
            &&& marks_also(others(v.availability, i as int), (start, end), after.availability)
            &&& span_laws::chronological(after.availability)
            &&& span_laws::separate(after.availability)
        },
        i >= v.availability.len() ==> after.availability == v.availability,
        after == (AppView { availability: after.availability, ..v }),
{
    if i < v.availability.len() {
        let all = v.availability.update(i as int, (start, end));
        lemma_marks_also(others(v.availability, i as int), (start, end), all, i as int);
        span_laws::merging_sorts(all);
        span_laws::merging_separates(all);
    }
}

/// Removing a span leaves all others as they are. Where there is no such span, nothing changes.
pub proof fn removing_takes_away_one_span(v: AppView, i: usize, after: AppView)
    requires
        scheduling_app::follows(v, Msg::RemoveAvailability(i), after),
    ensures
        i < v.availability.len() ==> after.availability == others(v.availability, i as int),
        i >= v.availability.len() ==> after.availability == v.availability,
        after == (AppView { availability: after.availability, ..v }),
{
    if i < v.availability.len() {
        assert(after.availability =~= others(v.availability, i as int));
    }
}

/// Clearing leaves no span marked, and changes nothing else.
pub proof fn clearing_leaves_nothing_marked(v: AppView, after: AppView)
    requires
        scheduling_app::follows(v, Msg::Clear, after),
    ensures
        after.availability.len() == 0,
        after == (AppView { availability: after.availability, ..v }),
{
}

/// Copying and closing change nothing. Copying writes the message to the clipboard wherever a span
/// is marked, and nothing where none is; closing ends the program; no other message does either.
pub proof fn copying_and_closing_have_their_effects(
    v: AppView,
    msg: Msg,
    after: AppView,
    locale: Locale,
    intro: Seq<char>,
    effect: Effect,
)
    requires
        scheduling_app::follows(v, msg, after),
        scheduling_app::is_effect(v, msg, locale, intro, effect),
    ensures
        msg is Copy || msg is Close ==> after == v,
        effect is Exit <==> msg is Close,
        effect is WriteClipboard <==> msg is Copy && v.availability.len() > 0,
        effect matches Effect::WriteClipboard(text) ==> text@ == scheduling::message(
            locale,
            v.availability,
            intro,
        ),
{
}

/// The window opens on the current week, from nine to five without Saturdays and Sundays, with
/// nothing loaded yet, nothing marked, and the options closed.
pub proof fn the_window_opens_empty(enabled: Seq<Seq<char>>, emails: Seq<Seq<char>>)
    ensures
        ({
            let v = scheduling_app::initial(enabled, emails);
            &&& v.enabled_uids == enabled && v.additional_emails == emails
            &&& v.day_start_hour == 9 && v.day_end_hour == 12 + 5
            &&& !v.include_weekends && v.week_offset == 0
            &&& v.events.len() == 0 && v.visible_events.len() == 0 && v.calendars.len() == 0
            &&& forall|uid: Seq<char>| !#[trigger] v.selected_calendars.contains(uid)
            &&& v.availability.len() == 0
            &&& v.loading && !v.show_options && v.options_page == OptionsPage::Main
        }),
{
}

/// Of the calendars, those are counted that are enabled.
pub proof fn enabled_calendars_are_kept_one_by_one(v: AppView, c: CalendarInfo)
    ensures
        ({
            let more = AppView { calendars: v.calendars.push(c), ..v };
            window::enabled_calendars(more) == if v.enabled_uids.len() == 0
                || v.enabled_uids.contains(c.uid@) {
                window::enabled_calendars(v).push(c)
            } else {
                window::enabled_calendars(v)
            }
        }),
        v.calendars.len() == 0 ==> window::enabled_calendars(v).len() == 0,
{
    reveal(Seq::filter);
    assert(v.calendars.push(c).drop_last() == v.calendars);
}

/// The options say that all calendars are selected exactly where there are calendars and each that
/// is enabled is selected; else they say how many are, of how many.
pub proof fn the_summary_says_whether_all_are_selected(v: AppView)
    requires
        app_laws::calendars_differ(v.calendars),
        v.calendars.len() <= usize::MAX,
        v.selected_calendars.subset_of(scheduling_app::all_enabled(v.calendars, v.enabled_uids)),
    ensures
        window::summary(v) == Summary::All <==> v.calendars.len() > 0 && forall|i: int|
            0 <= i < v.calendars.len() && (v.enabled_uids.len() == 0 || v.enabled_uids.contains(
                (#[trigger] v.calendars[i]).uid@,
            )) ==> v.selected_calendars.contains(v.calendars[i].uid@),
        window::summary(v) matches Summary::Counted { selected, total } ==> selected
            == v.selected_calendars.len() && total == v.calendars.len(),
{
    let all = scheduling_app::all_enabled(v.calendars, v.enabled_uids);
    let selected = v.selected_calendars;
    app_laws::lemma_enabled_count(v.calendars, v.enabled_uids);
    vstd::set_lib::lemma_len_subset(selected, all);
    assert(all.len() <= v.calendars.len()) by {
        lemma_enabled_at_most(v);
    }
    let every = forall|i: int|
        0 <= i < v.calendars.len() && (v.enabled_uids.len() == 0 || v.enabled_uids.contains(
            (#[trigger] v.calendars[i]).uid@,
        )) ==> selected.contains(v.calendars[i].uid@);
    if every {
        assert forall|uid: Seq<char>| all.contains(uid) implies selected.contains(uid) by {
            let i = choose|i: int|
                0 <= i < v.calendars.len() && (#[trigger] v.calendars[i]).uid@ == uid;
            assert(selected.contains(v.calendars[i].uid@));
        }
        assert(selected =~= all);
    }
    if selected.len() == all.len() {
        vstd::set_lib::lemma_subset_equality(selected, all);
        assert forall|i: int|
            0 <= i < v.calendars.len() && (v.enabled_uids.len() == 0 || v.enabled_uids.contains(
                (#[trigger] v.calendars[i]).uid@,
            )) implies selected.contains(v.calendars[i].uid@) by {
            assert(scheduling_app::lists(v.calendars, v.calendars[i].uid@));
            assert(all.contains(v.calendars[i].uid@));
        }
    }
}

proof fn lemma_enabled_at_most(v: AppView)
    ensures
        window::enabled_calendars(v).len() <= v.calendars.len(),
{
    v.calendars.lemma_filter_len(
        |c: CalendarInfo| scheduling_app::is_enabled(v.enabled_uids, c.uid@),
    );
}

/// A calendar's row can be toggled exactly where it is enabled, and its toggle is on exactly where
/// it is selected as well.
pub proof fn rows_show_what_is_enabled_and_selected(v: AppView, calendar: CalendarInfo)
    ensures
        ({
            let row = window::calendar_row(v, calendar);
            let enabled = v.enabled_uids.len() == 0 || v.enabled_uids.contains(calendar.uid@);
            &&& row.enabled <==> enabled
            &&& row.checked <==> enabled && v.selected_calendars.contains(calendar.uid@)
        }),
{
}

/// The time zone is called by its abbreviation, and where it has none by how far it is off UTC.
pub proof fn zones_are_called_by_their_abbreviations(abbrev: Seq<char>, now: LocalTime)
    ensures
        abbrev.len() > 0 ==> scheduling_app::zone_label(abbrev, now) == abbrev,
        abbrev.len() == 0 ==> scheduling_app::zone_label(abbrev, now) == local_time::offset_label(
            now.offset_secs as int,
        ),
{
}

/// What the state of the window says is what it holds.
pub proof fn the_state_says_what_it_holds(app: SchedulingApp, i: int)
    ensures
        app@.enabled_uids.len() == app.enabled_uids@.len(),
        0 <= i < app.enabled_uids@.len() ==> app@.enabled_uids[i] == app.enabled_uids@[i]@,
        app@.additional_emails.len() == app.additional_emails@.len(),
        0 <= i < app.additional_emails@.len() ==> app@.additional_emails[i]
            == app.additional_emails@[i]@,
        app@.day_start_hour == app.day_start_hour,
        app@.day_end_hour == app.day_end_hour,
        app@.include_weekends == app.include_weekends,
        app@.week_offset == app.week_offset,
        app@.events == app.events@,
        app@.visible_events == app.visible_events@,
        app@.calendars == app.calendars@,
        app@.selected_calendars == app.selected_calendars@,
        app@.availability == app.availability@,
        app@.loading == app.loading,
        app@.show_options == app.show_options,
        app@.options_page == app.options_page,
{
}

/// The end of a span in a message is the time that the machine's time zone gives for it, and the
/// current time only where the zone gives none.
pub proof fn gestures_send_the_times_of_the_zone(reaction: Reaction, now: LocalTime, msg: Option<Msg>)
    requires
        window::may_send(reaction, now, msg),
    ensures
        reaction matches Reaction::Add(slot) ==> (msg matches Some(
            Msg::AddAvailability(start, end),
        ) && has_ends(start, end, slot.date, slot.from as int, slot.to as int, now)),
        reaction matches Reaction::Resize(i, slot) ==> (msg matches Some(
            Msg::ResizeAvailability(j, start, end),
        ) && j == i && has_ends(start, end, slot.date, slot.from as int, slot.to as int, now)),
        reaction matches Reaction::Remove(i) ==> (msg matches Some(Msg::RemoveAvailability(j)) && j
            == i),
        reaction is Ignore || reaction is Redraw || reaction is Capture ==> msg is None,
{
}

/// Whether `start` and `end` are the times of minutes `from` and `to` of `date`, each as the zone
/// gives it, or `now` where it gives none.
pub open spec fn has_ends(
    start: LocalTime,
    end: LocalTime,
    date: Date,
    from: int,
    to: int,
    now: LocalTime,
) -> bool {
    &&& picking_laws::is_time_of(start, date, from, now)
    &&& picking_laws::is_time_of(end, date, to, now)
}

} // verus!
