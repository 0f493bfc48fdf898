//! What holds of every gesture on the week grid.
use vstd::prelude::*;

use crate::date::Date;
use crate::free_time;
use crate::free_time::SNAP_MIN;
use crate::gesture;
use crate::gesture::{Active, GridEvent, GridState, Press, Reaction};
use crate::grid;
use crate::grid::Layout;
use crate::scheduling::Span;

verus! {

/// Whether `span` starts on day `n` and marks minute `m` of it. A span that ends on a later day
/// marks the rest of the day.
pub open spec fn marks(span: Span, n: int, m: int) -> bool {
    &&& span.0.day() == n
    &&& span.0.minutes() <= m
    &&& span.1.day() > n || m < span.1.minutes()
}

/// Whether some span marks minute `m` of day `n`.
pub open spec fn is_marked(spans: Seq<Span>, n: int, m: int) -> bool {
    exists|i: int| 0 <= i < spans.len() && marks(#[trigger] spans[i], n, m)
}

/// Whether no day is shown twice.
pub open spec fn days_differ(days: Seq<Date>) -> bool {
    forall|i: int, j: int|
        0 <= i < j < days.len() ==> (#[trigger] days[i]).n() != (#[trigger] days[j]).n()
}

/// A day that is shown once is shown in the column that it stands in.
pub proof fn lemma_column(days: Seq<Date>, col: int)
    requires
        days_differ(days),
        0 <= col < days.len(),
    ensures
        grid::column_of(days, days[col].n()) == Some(col),
{
    let n = days[col].n();
    assert forall|k: int| 0 <= k < col implies (#[trigger] days[k]).n() != n by {}
    assert(grid::is_column(days, n, col));
    let c = choose|c: int| grid::is_column(days, n, c);
    assert(grid::is_column(days, n, c));
    if c < col {
        assert(days[c].n() != days[col].n());
    } else if c > col {
        assert(days[col].n() != n);
    }
}

/// A gap ends where a span ends or starts, or where the hours do, and no span reaches into it.
proof fn lemma_gap(l: Layout, days: Seq<Date>, spans: Seq<Span>, col: int, min: int, i: int)
    requires
        0 <= i < spans.len(),
    ensures
        grid::block(l, days, spans[i]) matches Some(b) ==> b.0 == col && !grid::is_hidden(
            l,
            spans[i],
        ) ==> {
            &&& b.2 <= min ==> b.2 <= grid::gap_floor(l, days, spans, col, min)
            &&& min <= b.1 ==> grid::gap_ceiling(l, days, spans, col, min) <= b.1
        },
    decreases spans.len(),
{
    if i < spans.len() - 1 {
        lemma_gap(l, days, spans.drop_last(), col, min, i);
        assert(spans.drop_last()[i] == spans[i]);
    }
}

/// The free time around a minute is free: no span that starts that day marks a minute of it.
pub proof fn gaps_are_free(
    l: Layout,
    days: Seq<Date>,
    spans: Seq<Span>,
    col: int,
    min: int,
    m: int,
)
    requires
        l.wf(),
        days_differ(days),
        0 <= col < days.len(),
        l.start_min <= min <= l.bottom(),
        grid::gap(l, days, spans, col, min) matches Some(g) && g.0 <= m < g.1,
    ensures
        !is_marked(spans, days[col].n(), m),
{
    let n = days[col].n();
    lemma_column(days, col);
    gesture::lemma_gap_bounds(l, days, spans, col, min);
    if is_marked(spans, n, m) {
        let i = choose|i: int| 0 <= i < spans.len() && marks(#[trigger] spans[i], n, m);
        lemma_gap(l, days, spans, col, min, i);
        let b = grid::block(l, days, spans[i])->0;
        assert(b.0 == col);
        assert(b.1 <= m < b.2);
        assert(!grid::surrounds(l, days, spans[i], col, min));
    }
}

/// Whether the bounds of a new span that is being dragged out are the free time around some
/// minute of its column.
pub open spec fn confined(l: Layout, days: Seq<Date>, spans: Seq<Span>, state: GridState) -> bool {
    state.active matches Some(Active::Create { day, min_bound, max_bound, .. }) ==> exists|min: int|
        l.start_min <= min <= l.bottom() && #[trigger] grid::gap(l, days, spans, day as int, min)
            == Some((min_bound as int, max_bound as int))
}

/// Whatever the pointer does, a new span that is being dragged out stays confined to the free
/// time around it.
pub proof fn drags_stay_confined(
    l: Layout,
    days: Seq<Date>,
    spans: Seq<Span>,
    state: GridState,
    event: GridEvent,
)
    requires
        l.wf(),
        event.wf(l, spans),
        confined(l, days, spans, state),
    ensures
        confined(l, days, spans, gesture::transition(l, days, spans, state, event).0),
{
    let next = gesture::transition(l, days, spans, state, event).0;
    match event {
        GridEvent::Pressed(Some(press)) => {
            match press.cell {
                Some(c) => {
                    gesture::lemma_gap_bounds(l, days, spans, c.0 as int, c.1 as int);
                    match grid::gap(l, days, spans, c.0 as int, c.1 as int) {
                        Some(g) => {
                            assert(g.0 as i32 == g.0 && g.1 as i32 == g.1);
                        },
                        None => {},
                    }
                },
                None => {},
            }
        },
        _ => {},
    }
    assert(confined(l, days, spans, next));
}

/// A span that a drag creates overlaps no span that is there: none that starts that day marks a
/// minute of it.
pub proof fn new_spans_do_not_overlap(
    l: Layout,
    days: Seq<Date>,
    spans: Seq<Span>,
    state: GridState,
    m: int,
)
    requires
        l.wf(),
        days_differ(days),
        state.wf(),
        confined(l, days, spans, state),
        gesture::released(days, state).1 matches Reaction::Add(slot) && slot.from <= m < slot.to,
    ensures
        gesture::released(days, state).1 matches Reaction::Add(slot) && !is_marked(
            spans,
            slot.date.n(),
            m,
        ),
{
    match state.active {
        Some(Active::Create { day, min_bound, max_bound, .. }) => {
            let min = choose|min: int|
                l.start_min <= min <= l.bottom() && #[trigger] grid::gap(
                    l,
                    days,
                    spans,
                    day as int,
                    min,
                ) == Some((min_bound as int, max_bound as int));
            gaps_are_free(l, days, spans, day as int, min, m);
        },
        _ => {},
    }
}

/// A span that a drag creates lies within the hours that are shown, and is a grid step long at
/// least.
pub proof fn new_spans_lie_within_the_hours(
    l: Layout,
    days: Seq<Date>,
    spans: Seq<Span>,
    state: GridState,
)
    requires
        l.wf(),
        state.wf(),
        confined(l, days, spans, state),
        gesture::released(days, state).1 is Add,
    ensures
        gesture::released(days, state).1 matches Reaction::Add(slot) && l.start_min <= slot.from
            && slot.from + SNAP_MIN <= slot.to <= l.bottom(),
{
    match state.active {
        Some(Active::Create { day, min_bound, max_bound, .. }) => {
            let min = choose|min: int|
                l.start_min <= min <= l.bottom() && #[trigger] grid::gap(
                    l,
                    days,
                    spans,
                    day as int,
                    min,
                ) == Some((min_bound as int, max_bound as int));
            gesture::lemma_gap_bounds(l, days, spans, day as int, min);
        },
        _ => {},
    }
}

/// A span that is resized keeps the end that is not dragged where it is. It is a grid step long at
/// least, unless there is no room for that before midnight.
pub proof fn resizing_keeps_one_end(days: Seq<Date>, state: GridState)
    requires
        state.wf(),
        gesture::released(days, state).1 is Resize,
    ensures
        gesture::released(days, state).1 matches Reaction::Resize(index, slot) && state.active
            matches Some(Active::Resize { index: i, fixed_min, moving_min, .. }) && {
            &&& index == i
            &&& fixed_min <= moving_min ==> slot.from == fixed_min
            &&& moving_min < fixed_min ==> slot.to == fixed_min
            &&& moving_min <= fixed_min - SNAP_MIN ==> slot.from == moving_min
            &&& moving_min >= fixed_min + SNAP_MIN ==> slot.to == moving_min
            &&& slot.from + SNAP_MIN <= slot.to || slot.from == 0
            &&& slot.from < slot.to
        },
{
}

/// The state after the pointer has done all of `events`, one after the other.
pub open spec fn after(
    l: Layout,
    days: Seq<Date>,
    spans: Seq<Span>,
    state: GridState,
    events: Seq<GridEvent>,
) -> GridState
    decreases events.len(),
{
    if events.len() == 0 {
        state
    } else {
        gesture::transition(
            l,
            days,
            spans,
            after(l, days, spans, state, events.drop_last()),
            events.last(),
        ).0
    }
}

/// Whatever the pointer has done before, a span that it creates overlaps no span that is there.
pub proof fn no_gesture_creates_an_overlap(
    l: Layout,
    days: Seq<Date>,
    spans: Seq<Span>,
    state: GridState,
    events: Seq<GridEvent>,
    m: int,
)
    requires
        l.wf(),
        days_differ(days),
        state.active is None,
        forall|i: int| 0 <= i < events.len() ==> (#[trigger] events[i]).wf(l, spans),
        gesture::released(days, after(l, days, spans, state, events)).1 matches Reaction::Add(slot)
            && slot.from <= m < slot.to,
    ensures
        gesture::released(days, after(l, days, spans, state, events)).1 matches Reaction::Add(slot)
            && !is_marked(spans, slot.date.n(), m),
{
    lemma_after(l, days, spans, state, events);
    new_spans_do_not_overlap(l, days, spans, after(l, days, spans, state, events), m);
}

proof fn lemma_after(
    l: Layout,
    days: Seq<Date>,
    spans: Seq<Span>,
    state: GridState,
    events: Seq<GridEvent>,
)
    requires
        l.wf(),
        state.active is None,
        forall|i: int| 0 <= i < events.len() ==> (#[trigger] events[i]).wf(l, spans),
    ensures
        after(l, days, spans, state, events).wf(),
        confined(l, days, spans, after(l, days, spans, state, events)),
    decreases events.len(),
{
    if events.len() > 0 {
        let before = events.drop_last();
        assert forall|i: int| 0 <= i < before.len() implies (#[trigger] before[i]).wf(l, spans) by {
            assert(before[i] == events[i]);
        }
        lemma_after(l, days, spans, state, before);
        let s = after(l, days, spans, state, before);
        drags_stay_confined(l, days, spans, s, events.last());
        lemma_transition_wf(l, days, spans, s, events.last());
    }
}

/// Whatever the pointer does, the gesture stays well-formed.
proof fn lemma_transition_wf(
    l: Layout,
    days: Seq<Date>,
    spans: Seq<Span>,
    state: GridState,
    event: GridEvent,
)
    requires
        l.wf(),
        state.wf(),
        event.wf(l, spans),
    ensures
        gesture::transition(l, days, spans, state, event).0.wf(),
{
    match event {
        GridEvent::Pressed(Some(press)) => {
            match press.cell {
                Some(c) => {
                    gesture::lemma_gap_bounds(l, days, spans, c.0 as int, c.1 as int);
                },
                None => {},
            }
        },
        _ => {},
    }
}

/// The free time around a minute is all of it: it reaches up and down to a span in its column, or
/// to where the hours end.
pub proof fn gaps_are_as_large_as_can_be(
    l: Layout,
    days: Seq<Date>,
    spans: Seq<Span>,
    col: int,
    min: int,
)
    ensures
        grid::gap(l, days, spans, col, min) matches Some(g) ==> {
            &&& g.0 == l.start_min || ends_at(l, days, spans, col, g.0)
            &&& g.1 == l.bottom() || starts_at(l, days, spans, col, g.1)
        },
{
    lemma_floor_reached(l, days, spans, col, min);
    lemma_ceiling_reached(l, days, spans, col, min);
}

/// Whether a span in column `col` ends at minute `m`.
pub open spec fn ends_at(l: Layout, days: Seq<Date>, spans: Seq<Span>, col: int, m: int) -> bool {
    exists|i: int|
        0 <= i < spans.len() && (grid::block(l, days, #[trigger] spans[i]) matches Some(b) && b.0
            == col && b.2 == m)
}

/// Whether a span in column `col` starts at minute `m`.
pub open spec fn starts_at(l: Layout, days: Seq<Date>, spans: Seq<Span>, col: int, m: int) -> bool {
    exists|i: int|
        0 <= i < spans.len() && (grid::block(l, days, #[trigger] spans[i]) matches Some(b) && b.0
            == col && b.1 == m)
}

proof fn lemma_floor_reached(l: Layout, days: Seq<Date>, spans: Seq<Span>, col: int, min: int)
    ensures
        ({
            let floor = grid::gap_floor(l, days, spans, col, min);
            floor == l.start_min || ends_at(l, days, spans, col, floor)
        }),
    decreases spans.len(),
{
    let floor = grid::gap_floor(l, days, spans, col, min);
    if spans.len() > 0 {
        let before = spans.drop_last();
        lemma_floor_reached(l, days, before, col, min);
        if floor != l.start_min {
            if ends_at(l, days, before, col, floor) {
                let i = choose|i: int|
                    0 <= i < before.len() && (grid::block(
                        l,
                        days,
                        #[trigger] before[i],
                    ) matches Some(b) && b.0 == col && b.2 == floor);
                assert(spans[i] == before[i]);
            } else {
                assert(spans[spans.len() - 1] == spans.last());
            }
        }
    }
}

proof fn lemma_ceiling_reached(l: Layout, days: Seq<Date>, spans: Seq<Span>, col: int, min: int)
    ensures
        ({
            let ceiling = grid::gap_ceiling(l, days, spans, col, min);
            ceiling == l.bottom() || starts_at(l, days, spans, col, ceiling)
        }),
    decreases spans.len(),
{
    let ceiling = grid::gap_ceiling(l, days, spans, col, min);
    if spans.len() > 0 {
        let before = spans.drop_last();
        lemma_ceiling_reached(l, days, before, col, min);
        if ceiling != l.bottom() {
            if starts_at(l, days, before, col, ceiling) {
                let i = choose|i: int|
                    0 <= i < before.len() && (grid::block(
                        l,
                        days,
                        #[trigger] before[i],
                    ) matches Some(b) && b.0 == col && b.1 == ceiling);
                assert(spans[i] == before[i]);
            } else {
                assert(spans[spans.len() - 1] == spans.last());
            }
        }
    }
}

/// A press hides what was hovered over.
pub proof fn pressing_hides_what_is_hovered_over(
    l: Layout,
    days: Seq<Date>,
    spans: Seq<Span>,
    state: GridState,
    press: Press,
)
    ensures
        ({
            let next = gesture::pressed(l, days, spans, state, press).0;
            next.hover is None && next.hover_event is None
        }),
{
}

/// A span and an event are never both hovered over: the span comes first.
pub proof fn spans_come_before_events(
    l: Layout,
    days: Seq<Date>,
    spans: Seq<Span>,
    state: GridState,
    event: GridEvent,
)
    requires
        state.hover is None || state.hover_event is None,
    ensures
        ({
            let next = gesture::transition(l, days, spans, state, event).0;
            next.hover is None || next.hover_event is None
        }),
{
}

/// A gesture is over when the button comes up, and nothing else changes then.
pub proof fn releasing_ends_the_gesture(days: Seq<Date>, state: GridState)
    ensures
        gesture::released(days, state).0 == state.with_active(None),
{
}

/// The minute that the pointer is at lies on the grid, if the hours start and end on it.
pub proof fn snapped_minutes_lie_on_the_grid(l: Layout, step: int)
    requires
        l.start_min % SNAP_MIN == 0,
        l.bottom() % SNAP_MIN as int == 0,
    ensures
        free_time::clamped(step * SNAP_MIN, l.start_min as int, l.bottom()) % SNAP_MIN as int == 0,
{
}

} // verus!
