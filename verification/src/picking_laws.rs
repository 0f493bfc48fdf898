//! What picking free time marks.
use vstd::prelude::*;

use crate::app_laws;
use crate::calendar::CalendarEventBlock;
use crate::date;
use crate::date::{Date, MAX_DAY};
use crate::date_laws;
use crate::free_time;
use crate::free_time::Slot;
use crate::local_time;
use crate::local_time::LocalTime;
use crate::scheduling;
use crate::scheduling::Span;
use crate::scheduling_app;
use crate::scheduling_app::{AppView, Found};
use crate::span_laws;

verus! {

/// An event takes up the minutes of a day that some of it lies in, and no others: it starts before
/// the minute ends, and ends after the minute starts. One that has no length takes up none. What
/// comes behind midnight is taken up by events that go on behind it.
pub proof fn events_take_up_the_minutes_they_lie_in(event: CalendarEventBlock, n: int, m: int)
    requires
        0 <= m,
    ensures
        m >= 24 * 60 ==> (free_time::takes_up(event, n, m) <==> event.start.day() <= n
            && event.end.day() > n),
        m < 24 * 60 ==> (free_time::takes_up(event, n, m) <==> {
            let (start, end) = (event.start, event.end);
            &&& start.wall_secs < end.wall_secs || start.wall_secs == end.wall_secs && start.nanos
                < end.nanos
            &&& start.wall_secs < local_time::wall_at(n, m + 1)
            &&& end.wall_secs > local_time::wall_at(n, m) || end.wall_secs == local_time::wall_at(
                n,
                m,
            ) && end.nanos > 0
        }),
{
    if m < 24 * 60 {
        lemma_shown_by(event.start, n, m);
        lemma_over_by(event.end, n, m);
    }
    lemma_order(event.start, event.end);
    date_laws::minutes_lie_within_the_day(event.start);
    date_laws::minutes_lie_within_the_day(event.end);
}

/// By the end of minute `m` of day `n`, the clock has shown `t` or has it in that minute.
#[verifier::spinoff_prover]
proof fn lemma_shown_by(t: LocalTime, n: int, m: int)
    requires
        0 <= m < 24 * 60,
    ensures
        t.day() < n || t.day() == n && t.minutes() <= m <==> t.wall_secs < local_time::wall_at(
            n,
            m + 1,
        ),
{
    let secs = t.wall_secs as int;
    assert(secs == (secs / 86400) * 86400 + secs % 86400);
    assert(local_time::wall_at(n, m + 1) == (n - local_time::EPOCH_DAY) * 86400 + (m + 1) * 60);
    let d = t.day() - n;
    assert(secs - local_time::wall_at(n, 0) == d * 86400 + secs % 86400);
}

/// `t` is over the start of minute `m` of day `n` where the clock shows a later minute, or some of
/// that one is past.
#[verifier::spinoff_prover]
proof fn lemma_over_by(t: LocalTime, n: int, m: int)
    requires
        0 <= m < 24 * 60,
    ensures
        t.day() > n || t.day() == n && m < free_time::minute_ahead(t) <==> t.wall_secs
            > local_time::wall_at(n, m) || t.wall_secs == local_time::wall_at(n, m) && t.nanos > 0,
{
    let secs = t.wall_secs as int;
    let rest = secs % 86400;
    assert(secs == (secs / 86400) * 86400 + rest);
    assert(secs % 60 == rest % 60);
    assert(local_time::wall_at(n, m) == (n - local_time::EPOCH_DAY) * 86400 + m * 60);
    let d = t.day() - n;
    assert(secs - local_time::wall_at(n, 0) == d * 86400 + rest);
}

/// A clock that shows less has not gone on.
proof fn lemma_order(a: LocalTime, b: LocalTime)
    ensures
        b.wall_secs <= a.wall_secs ==> b.day() < a.day() || b.day() == a.day() && b.minutes()
            <= a.minutes(),
{
    let (x, y) = (a.wall_secs as int, b.wall_secs as int);
    assert(x == (x / 86400) * 86400 + x % 86400);
    assert(y == (y / 86400) * 86400 + y % 86400);
}

/// A minute lies ahead exactly where it is the first that starts at `now` or later, or a later one.
#[verifier::spinoff_prover]
proof fn lemma_ahead_from(now: LocalTime, m: int)
    requires
        0 <= m,
    ensures
        free_time::is_ahead(now, now.day(), m) <==> free_time::minute_ahead(now) <= m,
{
    let n = now.day();
    let secs = now.wall_secs as int;
    let rest = secs % 86400;
    assert(secs == (secs / 86400) * 86400 + rest);
    assert(secs % 60 == rest % 60);
    assert(local_time::wall_at(n, m) == (n - local_time::EPOCH_DAY) * 86400 + m * 60);
}

/// Today, time is offered from the first quarter of an hour on that lies ahead and within the
/// hours; on other days from the first hour on.
pub proof fn time_is_offered_from_the_next_quarter_on(
    now: LocalTime,
    n: int,
    day_start: int,
    m: int,
)
    requires
        0 <= day_start,
    ensures
        n != now.day() ==> free_time::first_minute(now, n, day_start) == day_start,
        n == now.day() ==> {
            let first = free_time::first_minute(now, n, day_start);
            &&& first >= day_start
            &&& first % 15 == 0
            &&& free_time::is_ahead(now, n, first)
            &&& m >= day_start && m % 15 == 0 && free_time::is_ahead(now, n, m) ==> first <= m
        },
{
    if n == now.day() {
        date_laws::minutes_lie_within_the_day(now);
        lemma_ahead_from(now, free_time::first_minute(now, n, day_start));
        if m >= 0 {
            lemma_ahead_from(now, m);
        }
    }
}

/// Whether `t` is the time that the machine's time zone gives for minute `minute` of `date`, or
/// `now` where it gives none.
pub open spec fn is_time_of(t: LocalTime, date: Date, minute: int, now: LocalTime) -> bool {
    exists|found: Option<LocalTime>|
        {
            &&& #[trigger] local_time::is_zone_answer(found, date, minute)
            &&& found matches Some(x) ==> t == x
            &&& found is None ==> t == now
        }
}

/// Whether `date` is one of the days of the week that is shown at the time `now`.
pub open spec fn in_week(v: AppView, now: LocalTime, date: Date) -> bool {
    &&& now.day() + 7 * v.week_offset <= date.n() <= now.day() + 7 * v.week_offset + 6
    &&& date.n() <= MAX_DAY
    &&& v.include_weekends || !date::is_weekend(date.n())
}

/// Whether minutes `from` to `to` of `date` can be picked at the time `now`: the day is one of the
/// week that is shown, the minutes are within the hours that are shown, a quarter of an hour at
/// least, not past, and none is taken up by an event that is shown.
pub open spec fn can_be_picked(
    v: AppView,
    now: LocalTime,
    date: Date,
    from: int,
    to: int,
) -> bool {
    &&& in_week(v, now, date)
    &&& v.day_start_hour * 60 <= from
    &&& from + 15 <= to
    &&& to <= v.day_end_hour * 60
    &&& free_time::is_ahead(now, date.n(), from)
    &&& forall|m: int| from <= m < to ==> !#[trigger] free_time::is_busy(
        v.visible_events,
        date.n(),
        m,
    )
}

/// Whether `span` runs from minute `from` to minute `to` of `date`.
pub open spec fn runs(span: Span, now: LocalTime, date: Date, from: int, to: int) -> bool {
    is_time_of(span.0, date, from, now) && is_time_of(span.1, date, to, now)
}

/// Whether `span` runs over minutes that can be picked.
pub open spec fn is_pick(v: AppView, now: LocalTime, span: Span) -> bool {
    exists|date: Date, from: int, to: int| #[trigger]
        can_be_picked(v, now, date, from, to) && runs(span, now, date, from, to)
}

/// Whether some span that is marked holds one that runs over minutes `a` to `b` of `date`.
pub open spec fn is_marked_over(
    spans: Seq<Span>,
    now: LocalTime,
    date: Date,
    a: int,
    b: int,
) -> bool {
    exists|span: Span, from: int, to: int| #[trigger]
        runs(span, now, date, from, to) && from <= a && b <= to && span_laws::held_by(span, spans)
}

/// Whether point in time `t` lies in one of the spans.
pub open spec fn is_covered(spans: Seq<Span>, t: int) -> bool {
    exists|i: int| 0 <= i < spans.len() && span_laws::covers(#[trigger] spans[i], t)
}

/// Whether point in time `t` lies in a span over minutes that can be picked.
pub open spec fn lies_in_a_pick(v: AppView, now: LocalTime, t: int) -> bool {
    exists|span: Span| #[trigger] is_pick(v, now, span) && span_laws::covers(span, t)
}

/// Whether `span` starts as one that was marked does, or as one over minutes that can be picked.
pub open spec fn starts_rightly(v: AppView, now: LocalTime, span: Span) -> bool {
    ||| span_laws::starts_like_one(span, v.availability)
    ||| exists|pick: Span| #[trigger] is_pick(v, now, pick) && pick.0 == span.0
}

/// Whether `after` is marked where it should be: what was marked still is, all that can be picked
/// at the time `now` is, and nothing else.
pub open spec fn marks_all_that_is_free(v: AppView, after: AppView, now: LocalTime) -> bool {
    &&& forall|i: int|
        0 <= i < v.availability.len() ==> span_laws::held_by(
            #[trigger] v.availability[i],
            after.availability,
        )
    &&& forall|date: Date, a: int, b: int| #[trigger]
        can_be_picked(v, now, date, a, b) && (date.n() == now.day() ==> a % 15 == 0)
            ==> is_marked_over(after.availability, now, date, a, b)
    &&& forall|k: int|
        0 <= k < after.availability.len() ==> starts_rightly(
            v,
            now,
            #[trigger] after.availability[k],
        )
    &&& forall|t: int| #[trigger]
        is_covered(after.availability, t) ==> is_covered(v.availability, t) || lies_in_a_pick(
            v,
            now,
            t,
        )
}

/// What was found for the ends of a slot is what a span for it runs from and to.
proof fn lemma_runs(found: Found, slot: Slot, now: LocalTime)
    requires
        scheduling_app::are_ends_of(found, slot),
    ensures
        runs(
            (local_time::found_or(found.0, now), local_time::found_or(found.1, now)),
            now,
            slot.date,
            slot.from as int,
            slot.to as int,
        ),
{
    assert(local_time::is_zone_answer(found.0, slot.date, slot.from as int));
    assert(local_time::is_zone_answer(found.1, slot.date, slot.to as int));
}

/// What a slot is can be picked.
proof fn lemma_slot_can_be_picked(
    v: AppView,
    after: AppView,
    now: LocalTime,
    slots: Seq<Slot>,
    found: Seq<Found>,
    i: int,
)
    requires
        now.wf(),
        scheduling_app::is_auto_pick(v, after, now.day(), now, slots, found),
        0 <= i < slots.len(),
    ensures
        can_be_picked(v, now, slots[i].date, slots[i].from as int, slots[i].to as int),
        is_pick(v, now, scheduling_app::spans_of(found, now)[i]),
{
    let slot = slots[i];
    assert(slots.contains(slot));
    app_laws::shown_days_are_those_of_the_week(v, now.day(), slot.date);
    app_laws::picking_marks_only_free_time(
        v,
        after,
        now.day(),
        now,
        slots,
        found,
        i,
        slot.from as int,
    );
    assert forall|m: int| slot.from <= m < slot.to implies !#[trigger] free_time::is_busy(
        v.visible_events,
        slot.date.n(),
        m,
    ) by {
        app_laws::picking_marks_only_free_time(v, after, now.day(), now, slots, found, i, m);
    }
    assert(scheduling_app::are_ends_of(found[i], slot));
    lemma_runs(found[i], slot, now);
    assert(can_be_picked(v, now, slot.date, slot.from as int, slot.to as int));
}

proof fn lemma_marks_all(
    v: AppView,
    after: AppView,
    now: LocalTime,
    slots: Seq<Slot>,
    found: Seq<Found>,
    date: Date,
    a: int,
    b: int,
)
    requires
        now.wf(),
        scheduling_app::hours_fit(v),
        scheduling_app::is_auto_pick(v, after, now.day(), now, slots, found),
        can_be_picked(v, now, date, a, b),
        date.n() == now.day() ==> a % 15 == 0,
    ensures
        is_marked_over(after.availability, now, date, a, b),
{
    app_laws::shown_days_are_those_of_the_week(v, now.day(), date);
    time_is_offered_from_the_next_quarter_on(now, date.n(), v.day_start_hour * 60, a);
    app_laws::picking_marks_all_free_time(v, after, now.day(), now, slots, found, date, a, b);
    let i = choose|i: int|
        0 <= i < slots.len() && (#[trigger] slots[i]).date == date && slots[i].from <= a && b
            <= slots[i].to;
    let added = scheduling_app::spans_of(found, now);
    assert(scheduling_app::are_ends_of(found[i], slots[i]));
    lemma_runs(found[i], slots[i], now);
    let k = v.availability.len() + i;
    assert((v.availability + added)[k] == added[i]);
    app_laws::marking_loses_no_time(v, added, k);
    assert(runs(added[i], now, date, slots[i].from as int, slots[i].to as int));
}

/// Picking free time marks all that is free, and only that: for the time `now` that the clock gave,
/// each stretch of the days from today on, or from as many weeks later on as were paged forward,
/// that is within the hours, not past and free of events is marked, what was marked stays marked,
/// and nothing else is. Where no hours are shown, or the week is one that no date can name, nothing
/// changes.
pub proof fn picking_marks_the_free_time_of_the_week(v: AppView, after: AppView)
    requires
        scheduling_app::hours_fit(v),
        scheduling_app::auto_picked(v, after),
    ensures
        exists|now: LocalTime|
            {
                &&& #[trigger] local_time::is_clock_reading(now)
                &&& if v.day_start_hour < v.day_end_hour && now.day() + 7 * v.week_offset
                    <= MAX_DAY {
                    marks_all_that_is_free(v, after, now)
                } else {
                    after.availability == v.availability
                }
            },
{
    let now = choose|now: LocalTime|
        local_time::is_clock_reading(now) && #[trigger] scheduling_app::picked_at(
            v,
            after,
            now,
            now.day(),
        );
    local_time::clock_readings_are_well_formed(now);
    if v.day_start_hour < v.day_end_hour && now.day() + 7 * v.week_offset <= MAX_DAY {
        let (slots, found) = choose|slots: Seq<Slot>, found: Seq<Found>| #[trigger]
            scheduling_app::is_auto_pick(v, after, now.day(), now, slots, found);
        let added = scheduling_app::spans_of(found, now);
        let all = v.availability + added;
        assert(after.availability == scheduling::merged(all));
        assert forall|i: int| 0 <= i < v.availability.len() implies span_laws::held_by(
            #[trigger] v.availability[i],
            after.availability,
        ) by {
            app_laws::marking_loses_no_time(v, added, i);
            assert(all[i] == v.availability[i]);
        }
        assert forall|date: Date, a: int, b: int| #[trigger]
            can_be_picked(v, now, date, a, b) && (date.n() == now.day() ==> a % 15
                == 0) implies is_marked_over(after.availability, now, date, a, b) by {
            lemma_marks_all(v, after, now, slots, found, date, a, b);
        }
        assert forall|k: int| 0 <= k < after.availability.len() implies starts_rightly(
            v,
            now,
            #[trigger] after.availability[k],
        ) by {
            span_laws::merging_keeps_starts(all, k);
            let span = after.availability[k];
            let i = choose|i: int| 0 <= i < all.len() && (#[trigger] all[i]).0 == span.0;
            if i < v.availability.len() {
                assert(v.availability[i].0 == span.0);
            } else {
                let j = i - v.availability.len();
                lemma_slot_can_be_picked(v, after, now, slots, found, j);
                assert(is_pick(v, now, added[j]) && added[j].0 == span.0);
            }
        }
        assert forall|t: int| #[trigger] is_covered(after.availability, t) implies is_covered(
            v.availability,
            t,
        ) || lies_in_a_pick(v, now, t) by {
            let k = choose|k: int|
                0 <= k < after.availability.len() && span_laws::covers(
                    #[trigger] after.availability[k],
                    t,
                );
            span_laws::merging_adds_no_time(all, k, t);
            let i = choose|i: int|
                0 <= i < all.len() && span_laws::covers(#[trigger] all[i], t) && all[i].0.day()
                    == after.availability[k].0.day();
            if i < v.availability.len() {
                assert(span_laws::covers(v.availability[i], t));
            } else {
                let j = i - v.availability.len();
                lemma_slot_can_be_picked(v, after, now, slots, found, j);
                assert(is_pick(v, now, added[j]) && span_laws::covers(added[j], t));
            }
        }
    }
    assert(local_time::is_clock_reading(now));
}

/// Whether `span` starts in the week that is shown at the time `now`.
pub open spec fn starts_in_week(v: AppView, now: LocalTime, span: Span) -> bool {
    now.day() + 7 * v.week_offset <= span.0.day() <= now.day() + 7 * v.week_offset + 6
}

/// Picking free time marks only the week that is shown: for the time `now` that the clock gave, a
/// span that is marked then starts as one did before, or in the seven days from today on, or from as
/// many weeks later on as were paged forward, or at `now`, which stands in for a start that the
/// clock skips.
pub proof fn picking_marks_only_the_week(v: AppView, after: AppView)
    requires
        app_laws::hours_in_order(v),
        scheduling_app::auto_picked(v, after),
    ensures
        exists|now: LocalTime| #[trigger]
            local_time::is_clock_reading(now) && forall|k: int|
                0 <= k < after.availability.len() ==> {
                    ||| span_laws::starts_like_one(#[trigger] after.availability[k], v.availability)
                    ||| starts_in_week(v, now, after.availability[k])
                    ||| after.availability[k].0 == now
                },
{
    picking_marks_the_free_time_of_the_week(v, after);
    let now = choose|now: LocalTime|
        {
            &&& #[trigger] local_time::is_clock_reading(now)
            &&& if v.day_start_hour < v.day_end_hour && now.day() + 7 * v.week_offset <= MAX_DAY {
                marks_all_that_is_free(v, after, now)
            } else {
                after.availability == v.availability
            }
        };
    local_time::clock_readings_are_well_formed(now);
    assert forall|k: int| 0 <= k < after.availability.len() implies {
        ||| span_laws::starts_like_one(#[trigger] after.availability[k], v.availability)
        ||| starts_in_week(v, now, after.availability[k])
        ||| after.availability[k].0 == now
    } by {
        let span = after.availability[k];
        if now.day() + 7 * v.week_offset > MAX_DAY {
            assert(v.availability[k].0 == span.0);
        } else {
            assert(starts_rightly(v, now, span));
            if !span_laws::starts_like_one(span, v.availability) {
                let pick = choose|pick: Span| #[trigger]
                    is_pick(v, now, pick) && pick.0 == span.0;
                let (date, from, to) = choose|date: Date, from: int, to: int| #[trigger]
                    can_be_picked(v, now, date, from, to) && runs(pick, now, date, from, to);
                lemma_time_on_day(v, now, date, from, to, span.0);
            }
        }
    }
}

proof fn lemma_time_on_day(
    v: AppView,
    now: LocalTime,
    date: Date,
    from: int,
    to: int,
    t: LocalTime,
)
    requires
        app_laws::hours_in_order(v),
        now.wf(),
        can_be_picked(v, now, date, from, to),
        is_time_of(t, date, from, now),
    ensures
        t == now || t.day() == date.n(),
{
    let found = choose|found: Option<LocalTime>|
        {
            &&& #[trigger] local_time::is_zone_answer(found, date, from)
            &&& found matches Some(x) ==> t == x
            &&& found is None ==> t == now
        };
    local_time::zone_answers_show_the_minute(found, date, from);
    date_laws::minutes_stand_for_themselves(date.n(), from);
    if found is Some {
        date_laws::times_show_the_minute_they_are_in(t, date.n(), from);
    }
}

/// The days that are shown are those of the clock's week, at a time that the clock gave.
pub proof fn shown_days_start_today(v: AppView, now: LocalTime, today: Date, days: Option<Vec<Date>>)
    requires
        scheduling_app::shows_on(v, now, today, days),
    ensures
        days is Some <==> now.day() + 7 * v.week_offset <= MAX_DAY,
        days matches Some(days) ==> forall|date: Date| #[trigger]
            days@.contains(date) <==> in_week(v, now, date),
        days matches Some(days) ==> forall|i: int, j: int|
            0 <= i < j < days@.len() ==> (#[trigger] days@[i]).n() < (#[trigger] days@[j]).n(),
{
    match days {
        Some(days) => {
            assert forall|date: Date| #[trigger] days@.contains(date) <==> in_week(
                v,
                now,
                date,
            ) by {
                app_laws::shown_days_are_those_of_the_week(v, now.day(), date);
            }
        },
        None => {},
    }
}

} // verus!
