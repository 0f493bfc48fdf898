//! What comes of a gesture from its start to its end.
use vstd::prelude::*;

use crate::date::Date;
use crate::free_time;
use crate::free_time::Slot;
use crate::gesture;
use crate::gesture::{Edge, EdgeProbe, GridEvent, GridState, Hover, Pointer, Press, Reaction};
use crate::gesture_laws;
use crate::grid;
use crate::grid::Layout;
use crate::scheduling::Span;

verus! {

/// Whether the pointer only moves: the button goes neither down on the grid nor up.
pub open spec fn only_moves(events: Seq<GridEvent>) -> bool {
    forall|i: int| 0 <= i < events.len() ==> keeps_button(#[trigger] events[i])
}

/// Whether the button goes neither down on the grid nor up.
pub open spec fn keeps_button(event: GridEvent) -> bool {
    match event {
        GridEvent::Pressed(press) => press is None,
        GridEvent::Released => false,
        _ => true,
    }
}

/// The minute of the grid that the pointer was at last, if it started at minute `start`.
pub open spec fn last_minute(events: Seq<GridEvent>, start: int) -> int
    decreases events.len(),
{
    if events.len() == 0 {
        start
    } else {
        match events.last() {
            GridEvent::Moved(Some(h)) => h.minute as int,
            _ => last_minute(events.drop_last(), start),
        }
    }
}

/// What comes of a press, of what follows, and of letting go.
pub open spec fn outcome(
    l: Layout,
    days: Seq<Date>,
    spans: Seq<Span>,
    state: GridState,
    press: Press,
    events: Seq<GridEvent>,
) -> Reaction {
    let begun = gesture::transition(l, days, spans, state, GridEvent::Pressed(Some(press))).0;
    gesture::transition(
        l,
        days,
        spans,
        gesture_laws::after(l, days, spans, begun, events),
        GridEvent::Released,
    ).1
}

/// Minutes `from` to `to` of the day `date`.
pub open spec fn is_slot(slot: Slot, date: Date, from: int, to: int) -> bool {
    slot.date == date && slot.from == from && slot.to == to
}

proof fn lemma_create_goes_on(
    l: Layout,
    days: Seq<Date>,
    spans: Seq<Span>,
    state: GridState,
    day: usize,
    p: i32,
    lo: i32,
    hi: i32,
    events: Seq<GridEvent>,
)
    requires
        lo <= p <= hi,
        state.active == Some(
            (gesture::Active::Create {
                day,
                anchor_min: p,
                current_min: p,
                min_bound: lo,
                max_bound: hi,
            }),
        ),
        only_moves(events),
    ensures
        ({
            let m = last_minute(events, p as int);
            let k = if m < lo {
                lo as int
            } else if m > hi {
                hi as int
            } else {
                m
            };
            gesture_laws::after(l, days, spans, state, events).active == Some(
                (gesture::Active::Create {
                    day,
                    anchor_min: p,
                    current_min: k as i32,
                    min_bound: lo,
                    max_bound: hi,
                }),
            )
        }),
    decreases events.len(),
{
    if events.len() > 0 {
        let before = events.drop_last();
        assert forall|i: int| 0 <= i < before.len() implies keeps_button(#[trigger] before[i]) by {
            assert(before[i] == events[i]);
        }
        lemma_create_goes_on(l, days, spans, state, day, p, lo, hi, before);
        assert(keeps_button(events[events.len() - 1]));
    }
}

/// A press at minute `p` of free time from `lo` to `hi`, a drag that ends at minute `m`, and
/// letting go mark the time between `p` and `m`, as far as it is free. What is shorter than a
/// quarter of an hour grows to one, down from where it starts; where there is no room for that,
/// nothing is marked.
pub proof fn a_drag_marks_what_it_runs_over(
    l: Layout,
    days: Seq<Date>,
    spans: Seq<Span>,
    state: GridState,
    press: Press,
    events: Seq<GridEvent>,
    col: usize,
    p: i32,
    lo: int,
    hi: int,
)
    requires
        l.wf(),
        l.start_min <= p <= l.bottom(),
        col < days.len(),
        press.delete is None,
        press.edge matches Some(e) ==> grid::block(l, days, spans[e.0 as int]) is None,
        press.cell == Some((col, p)),
        grid::gap(l, days, spans, col as int, p as int) == Some((lo, hi)),
        only_moves(events),
    ensures
        ({
            let m = last_minute(events, p as int);
            let k = if m < lo {
                lo
            } else if m > hi {
                hi
            } else {
                m
            };
            let r = outcome(l, days, spans, state, press, events);
            &&& lo <= p <= hi
            &&& k - p >= 15 ==> (r matches Reaction::Add(slot) && is_slot(
                slot,
                days[col as int],
                p as int,
                k,
            ))
            &&& p - k >= 15 ==> (r matches Reaction::Add(slot) && is_slot(
                slot,
                days[col as int],
                k,
                p as int,
            ))
            &&& 0 <= k - p < 15 && p + 15 <= hi ==> (r matches Reaction::Add(slot) && is_slot(
                slot,
                days[col as int],
                p as int,
                p + 15,
            ))
            &&& 0 < p - k < 15 && k + 15 <= hi ==> (r matches Reaction::Add(slot) && is_slot(
                slot,
                days[col as int],
                k,
                k + 15,
            ))
            &&& 0 <= k - p < 15 && p + 15 > hi ==> r == Reaction::Ignore
            &&& 0 < p - k < 15 && k + 15 > hi ==> r == Reaction::Ignore
        }),
{
    gesture::lemma_gap_bounds(l, days, spans, col as int, p as int);
    let begun = gesture::transition(l, days, spans, state, GridEvent::Pressed(Some(press))).0;
    lemma_create_goes_on(l, days, spans, begun, col, p, lo as i32, hi as i32, events);
}

proof fn lemma_resize_goes_on(
    l: Layout,
    days: Seq<Date>,
    spans: Seq<Span>,
    state: GridState,
    index: usize,
    day: usize,
    fixed: i32,
    start: i32,
    events: Seq<GridEvent>,
)
    requires
        state.active == Some(
            (gesture::Active::Resize { index, day, fixed_min: fixed, moving_min: start }),
        ),
        only_moves(events),
    ensures
        gesture_laws::after(l, days, spans, state, events).active == Some(
            (gesture::Active::Resize {
                index,
                day,
                fixed_min: fixed,
                moving_min: last_minute(events, start as int) as i32,
            }),
        ),
    decreases events.len(),
{
    if events.len() > 0 {
        let before = events.drop_last();
        assert forall|i: int| 0 <= i < before.len() implies keeps_button(#[trigger] before[i]) by {
            assert(before[i] == events[i]);
        }
        lemma_resize_goes_on(l, days, spans, state, index, day, fixed, start, before);
        assert(keeps_button(events[events.len() - 1]));
    }
}

/// Whether `r` gives span `index` new bounds on day `date`: those between minute `fixed` and
/// minute `m`, and a quarter of an hour where they are closer together, which does not start before
/// midnight for that.
pub open spec fn resizes(r: Reaction, index: usize, date: Date, fixed: int, m: int) -> bool {
    r matches Reaction::Resize(i, slot) && {
        &&& i == index
        &&& m >= fixed + 15 ==> is_slot(slot, date, fixed, m)
        &&& fixed <= m < fixed + 15 ==> is_slot(slot, date, fixed, fixed + 15)
        &&& m <= fixed - 15 ==> is_slot(slot, date, m, fixed)
        &&& fixed - 15 < m < fixed && fixed >= 15 ==> is_slot(slot, date, fixed - 15, fixed)
        &&& fixed - 15 < m < fixed && fixed < 15 && m >= 0 ==> is_slot(slot, date, 0, fixed)
        &&& fixed - 15 < m < fixed && fixed < 15 && m < 0 ==> is_slot(slot, date, m, fixed)
    }
}

proof fn lemma_last_minute(events: Seq<GridEvent>, start: int)
    requires
        i32::MIN <= start <= i32::MAX,
    ensures
        i32::MIN <= last_minute(events, start) <= i32::MAX,
    decreases events.len(),
{
    if events.len() > 0 {
        lemma_last_minute(events.drop_last(), start);
    }
}

/// A press on the edge of a span that stands in column `c` from minute `lo` to minute `hi`, a
/// drag that ends at minute `m`, and letting go move that edge to `m`: the other edge stays put.
pub proof fn a_resize_moves_the_edge_that_was_pressed(
    l: Layout,
    days: Seq<Date>,
    spans: Seq<Span>,
    state: GridState,
    press: Press,
    events: Seq<GridEvent>,
    index: usize,
    edge: Edge,
    c: int,
    lo: int,
    hi: int,
)
    requires
        l.wf(),
        days.len() <= usize::MAX,
        index < spans.len(),
        press.delete is None,
        press.edge == Some((index, edge)),
        grid::block(l, days, spans[index as int]) == Some((c, lo, hi)),
        only_moves(events),
    ensures
        ({
            let r = outcome(l, days, spans, state, press, events);
            &&& edge == Edge::Bottom ==> resizes(
                r,
                index,
                days[c],
                lo,
                last_minute(events, hi),
            )
            &&& edge == Edge::Top ==> resizes(
                r,
                index,
                days[c],
                hi,
                last_minute(events, lo),
            )
        }),
{
    let n = spans[index as int].0.day();
    assert(grid::is_column(days, n, c));
    let begun = gesture::transition(l, days, spans, state, GridEvent::Pressed(Some(press))).0;
    match edge {
        Edge::Bottom => {
            lemma_last_minute(events, hi);
            lemma_resize_goes_on(
                l,
                days,
                spans,
                begun,
                index,
                c as usize,
                lo as i32,
                hi as i32,
                events,
            );
        },
        Edge::Top => {
            lemma_last_minute(events, lo);
            lemma_resize_goes_on(
                l,
                days,
                spans,
                begun,
                index,
                c as usize,
                hi as i32,
                lo as i32,
                events,
            );
        },
    }
}

/// A press on a delete button removes the span it belongs to, and begins no gesture.
pub proof fn the_delete_button_removes_its_span(
    l: Layout,
    days: Seq<Date>,
    spans: Seq<Span>,
    state: GridState,
    press: Press,
    i: usize,
)
    requires
        press.delete == Some(i),
    ensures
        ({
            let r = gesture::transition(l, days, spans, state, GridEvent::Pressed(Some(press)));
            r.1 == Reaction::Remove(i) && r.0.active == state.active
        }),
{
}

/// A press begins a gesture on an edge of a span that is shown, and in free time, and nowhere else.
pub proof fn a_press_begins_a_gesture_on_an_edge_or_in_free_time(
    l: Layout,
    days: Seq<Date>,
    spans: Seq<Span>,
    state: GridState,
    press: Press,
)
    requires
        state.active is None,
    ensures
        ({
            let r = gesture::transition(l, days, spans, state, GridEvent::Pressed(Some(press)));
            let on_edge = press.edge matches Some(e) && grid::block(
                l,
                days,
                spans[e.0 as int],
            ) is Some;
            let in_free_time = press.cell matches Some(c) && grid::gap(
                l,
                days,
                spans,
                c.0 as int,
                c.1 as int,
            ) is Some;
            &&& r.0.active is Some <==> press.delete is None && (on_edge || in_free_time)
            &&& r.1 == Reaction::Capture <==> r.0.active is Some
            &&& r.0.active matches Some(a) ==> (a is Resize <==> on_edge)
            &&& press.delete is None && !on_edge && !in_free_time ==> r.1 == Reaction::Ignore
        }),
{
}

/// A press off the grid does nothing.
pub proof fn a_press_off_the_grid_does_nothing(
    l: Layout,
    days: Seq<Date>,
    spans: Seq<Span>,
    state: GridState,
)
    ensures
        gesture::transition(l, days, spans, state, GridEvent::Pressed(None)) == (
            state,
            Reaction::Ignore,
        ),
{
}

/// While nothing is dragged, what is hovered over is what is under the pointer, a span before an
/// event, and the grid is drawn anew where that has changed and only there.
pub proof fn what_is_under_the_pointer_is_hovered_over(
    l: Layout,
    days: Seq<Date>,
    spans: Seq<Span>,
    state: GridState,
    hover: Option<Hover>,
)
    requires
        state.active is None,
    ensures
        ({
            let r = gesture::transition(l, days, spans, state, GridEvent::Moved(hover));
            &&& r.0.active is None
            &&& hover is None ==> r.0.hover is None && r.0.hover_event is None
            &&& hover matches Some(h) ==> r.0.hover == h.avail && (h.avail is None
                ==> r.0.hover_event == h.event) && (h.avail is Some ==> r.0.hover_event is None)
            &&& r.1 == if r.0 == state {
                Reaction::Ignore
            } else {
                Reaction::Redraw
            }
        }),
{
}

/// While something is dragged, no other event sees the moves, and what is hovered over stays.
pub proof fn drags_capture_the_moves(
    l: Layout,
    days: Seq<Date>,
    spans: Seq<Span>,
    state: GridState,
    hover: Option<Hover>,
)
    requires
        state.active is Some,
    ensures
        ({
            let r = gesture::transition(l, days, spans, state, GridEvent::Moved(hover));
            &&& r.1 == Reaction::Capture
            &&& r.0.active is Some
            &&& r.0.hover == state.hover && r.0.hover_event == state.hover_event
            &&& hover is None ==> r.0 == state
        }),
{
}

/// When the pointer leaves, the gesture goes on, nothing stays hovered over, and the grid is drawn
/// anew where that has changed and only there.
pub proof fn leaving_ends_the_hovering_only(
    l: Layout,
    days: Seq<Date>,
    spans: Seq<Span>,
    state: GridState,
)
    ensures
        ({
            let r = gesture::transition(l, days, spans, state, GridEvent::Left);
            &&& r.0.active == state.active
            &&& r.0.hover is None && r.0.hover_event is None
            &&& r.1 == if r.0 == state {
                Reaction::Ignore
            } else {
                Reaction::Redraw
            }
        }),
{
}

/// Letting go ends the gesture. Without one, or where its column is gone, nothing comes of it.
pub proof fn letting_go_ends_the_gesture(
    l: Layout,
    days: Seq<Date>,
    spans: Seq<Span>,
    state: GridState,
)
    ensures
        ({
            let r = gesture::transition(l, days, spans, state, GridEvent::Released);
            &&& r.0.active is None
            &&& r.0.hover == state.hover && r.0.hover_event == state.hover_event
            &&& (state.active matches Some(a) ==> a.column() >= days.len()) ==> r.1
                == Reaction::Ignore
        }),
{
}

/// A span is shown in the column of the day that it starts on, from the minute it starts at to the
/// minute it ends at, as far as these are shown. One that ends on a later day goes on to the
/// bottom, and one whose day is not shown is not shown.
pub proof fn spans_are_shown_where_they_are(l: Layout, days: Seq<Date>, span: Span, c: int)
    requires
        l.wf(),
        gesture_laws::days_differ(days),
    ensures
        grid::block(l, days, span) is Some <==> exists|i: int|
            0 <= i < days.len() && (#[trigger] days[i]).n() == span.0.day(),
        0 <= c < days.len() && days[c].n() == span.0.day() ==> (grid::block(
            l,
            days,
            span,
        ) matches Some(b) && {
            let (top, bottom) = (l.start_min as int, l.bottom());
            let (start, end) = (span.0.minutes(), span.1.minutes());
            let later = span.1.day() > span.0.day();
            &&& b.0 == c
            &&& top <= b.1 <= bottom && top <= b.2 <= bottom
            &&& top <= start <= bottom ==> b.1 == start
            &&& start < top ==> b.1 == top
            &&& start > bottom ==> b.1 == bottom
            &&& later ==> b.2 == bottom
            &&& !later && top <= end <= bottom ==> b.2 == end
            &&& !later && end < top ==> b.2 == top
            &&& !later && end > bottom ==> b.2 == bottom
        }),
{
    let n = span.0.day();
    if 0 <= c < days.len() && days[c].n() == n {
        gesture_laws::lemma_column(days, c);
    }
    if exists|i: int| 0 <= i < days.len() && (#[trigger] days[i]).n() == n {
        let i = choose|i: int| 0 <= i < days.len() && (#[trigger] days[i]).n() == n;
        gesture_laws::lemma_column(days, i);
    }
    if exists|k: int| grid::is_column(days, n, k) {
        let k = choose|k: int| grid::is_column(days, n, k);
        assert(days[k].n() == n);
    }
}

/// Whether each span ends after it starts, on the clock.
pub open spec fn all_last(spans: Seq<Span>) -> bool {
    forall|i: int| 0 <= i < spans.len() ==> lasts(#[trigger] spans[i])
}

/// Whether a span ends after it starts, on the clock.
pub open spec fn lasts(span: Span) -> bool {
    span.1.day() > span.0.day() || span.1.minutes() > span.0.minutes()
}

proof fn lemma_gap_found(
    l: Layout,
    days: Seq<Date>,
    spans: Seq<Span>,
    col: int,
    min: int,
    a: int,
    b: int,
)
    requires
        l.wf(),
        gesture_laws::days_differ(days),
        0 <= col < days.len(),
        l.start_min <= a <= min <= b <= l.bottom(),
        a < b,
        all_last(spans),
        forall|m: int| a <= m < b ==> !#[trigger] gesture_laws::is_marked(spans, days[col].n(), m),
    ensures
        grid::gap_floor(l, days, spans, col, min) <= a,
        b <= grid::gap_ceiling(l, days, spans, col, min),
        forall|i: int|
            0 <= i < spans.len() ==> !grid::surrounds(l, days, #[trigger] spans[i], col, min),
    decreases spans.len(),
{
    if spans.len() > 0 {
        let rest = spans.drop_last();
        let last = spans.last();
        let n = days[col].n();
        assert forall|i: int| 0 <= i < rest.len() implies lasts(#[trigger] rest[i]) by {
            assert(rest[i] == spans[i]);
        }
        assert forall|m: int| a <= m < b implies !#[trigger] gesture_laws::is_marked(
            rest,
            n,
            m,
        ) by {
            assert(!gesture_laws::is_marked(spans, n, m));
            if gesture_laws::is_marked(rest, n, m) {
                let i = choose|i: int|
                    0 <= i < rest.len() && gesture_laws::marks(#[trigger] rest[i], n, m);
                assert(gesture_laws::marks(spans[i], n, m));
            }
        }
        lemma_gap_found(l, days, rest, col, min, a, b);
        assert(lasts(spans[spans.len() - 1]));
        match grid::block(l, days, last) {
            Some(k) => {
                assert(grid::is_column(days, last.0.day(), k.0));
                if k.0 == col && k.1 < k.2 {
                    let m = if k.1 > a {
                        k.1
                    } else {
                        a
                    };
                    if k.2 > a && k.1 < b {
                        assert(gesture_laws::marks(spans[spans.len() - 1], n, m));
                        assert(gesture_laws::is_marked(spans, n, m));
                    }
                }
            },
            None => {},
        }
        assert forall|i: int| 0 <= i < spans.len() implies !grid::surrounds(
            l,
            days,
            #[trigger] spans[i],
            col,
            min,
        ) by {
            if i < rest.len() {
                assert(!grid::surrounds(l, days, rest[i], col, min));
            }
        }
    }
}

/// All free time can be pressed in: where no span marks a minute from `a` to `b`, which are a
/// quarter of an hour apart at least, a press at any minute of them finds free time that holds
/// them all.
pub proof fn all_free_time_can_be_pressed_in(
    l: Layout,
    days: Seq<Date>,
    spans: Seq<Span>,
    col: int,
    min: int,
    a: int,
    b: int,
)
    requires
        l.wf(),
        gesture_laws::days_differ(days),
        0 <= col < days.len(),
        l.start_min <= a <= min <= b <= l.bottom(),
        b - a >= 15,
        all_last(spans),
        forall|m: int| a <= m < b ==> !#[trigger] gesture_laws::is_marked(spans, days[col].n(), m),
    ensures
        grid::gap(l, days, spans, col, min) matches Some(g) && g.0 <= a && b <= g.1,
{
    lemma_gap_found(l, days, spans, col, min, a, b);
}

/// The free time around a minute lies around it, is shown, and is a quarter of an hour long at
/// least. Inside a span there is none.
pub proof fn free_time_lies_around_its_minute(
    l: Layout,
    days: Seq<Date>,
    spans: Seq<Span>,
    col: int,
    min: int,
    i: int,
)
    requires
        l.wf(),
        gesture_laws::days_differ(days),
        0 <= col < days.len(),
        l.start_min <= min <= l.bottom(),
    ensures
        grid::gap(l, days, spans, col, min) matches Some(g) ==> l.start_min <= g.0 <= min && min
            <= g.1 <= l.bottom() && g.1 - g.0 >= 15,
        0 <= i < spans.len() && l.start_min < min < l.bottom() && gesture_laws::marks(
            spans[i],
            days[col].n(),
            min - 1,
        ) && gesture_laws::marks(spans[i], days[col].n(), min) ==> grid::gap(
            l,
            days,
            spans,
            col,
            min,
        ) is None,
{
    gesture::lemma_gap_bounds(l, days, spans, col, min);
    if 0 <= i < spans.len() && gesture_laws::marks(spans[i], days[col].n(), min) {
        gesture_laws::lemma_column(days, col);
        if l.start_min < min < l.bottom() && gesture_laws::marks(
            spans[i],
            days[col].n(),
            min - 1,
        ) {
            assert(grid::surrounds(l, days, spans[i], col, min));
        }
    }
}

/// A span that ends after it starts is hidden exactly where it marks no minute that is shown.
pub proof fn hidden_spans_mark_nothing_that_is_shown(l: Layout, span: Span)
    requires
        l.wf(),
        l.start_min < l.bottom(),
        lasts(span),
    ensures
        grid::is_hidden(l, span) <==> forall|m: int|
            l.start_min <= m < l.bottom() ==> !#[trigger] gesture_laws::marks(
                span,
                span.0.day(),
                m,
            ),
{
    let m = if span.0.minutes() > l.start_min {
        span.0.minutes()
    } else {
        l.start_min as int
    };
    if !grid::is_hidden(l, span) {
        assert(gesture_laws::marks(span, span.0.day(), m));
    }
}

/// Whether `span` stands in column `col` from minute `a` to minute `b`, and is not hidden.
pub open spec fn stands_in(
    l: Layout,
    days: Seq<Date>,
    span: Span,
    col: int,
    a: int,
    b: int,
) -> bool {
    grid::block(l, days, span) == Some((col, a, b)) && !grid::is_hidden(l, span)
}

/// Whether a span in column `col` ends at minute `m`.
pub open spec fn one_ends_at(
    l: Layout,
    days: Seq<Date>,
    spans: Seq<Span>,
    col: int,
    m: int,
) -> bool {
    exists|i: int, a: int|
        0 <= i < spans.len() && #[trigger] stands_in(l, days, spans[i], col, a, m)
}

/// Whether a span in column `col` starts at minute `m`.
pub open spec fn one_starts_at(
    l: Layout,
    days: Seq<Date>,
    spans: Seq<Span>,
    col: int,
    m: int,
) -> bool {
    exists|i: int, b: int|
        0 <= i < spans.len() && #[trigger] stands_in(l, days, spans[i], col, m, b)
}

proof fn lemma_floor(l: Layout, days: Seq<Date>, spans: Seq<Span>, col: int, min: int)
    requires
        l.start_min <= min,
    ensures
        ({
            let floor = grid::gap_floor(l, days, spans, col, min);
            &&& floor <= min
            &&& floor == l.start_min || one_ends_at(l, days, spans, col, floor)
            &&& forall|m: int| floor < m <= min ==> !#[trigger] one_ends_at(l, days, spans, col, m)
        }),
    decreases spans.len(),
{
    let floor = grid::gap_floor(l, days, spans, col, min);
    if spans.len() > 0 {
        let rest = spans.drop_last();
        let last = spans.last();
        lemma_floor(l, days, rest, col, min);
        assert(spans[spans.len() - 1] == last);
        if one_ends_at(l, days, rest, col, floor) {
            let (i, a) = choose|i: int, a: int|
                0 <= i < rest.len() && #[trigger] stands_in(l, days, rest[i], col, a, floor);
            assert(stands_in(l, days, spans[i], col, a, floor));
        } else if floor != l.start_min {
            let b = grid::block(l, days, last)->0;
            assert(stands_in(l, days, spans[spans.len() - 1], col, b.1, floor));
        }
        assert forall|m: int| floor < m <= min implies !#[trigger] one_ends_at(
            l,
            days,
            spans,
            col,
            m,
        ) by {
            if one_ends_at(l, days, spans, col, m) {
                let (i, a) = choose|i: int, a: int|
                    0 <= i < spans.len() && #[trigger] stands_in(l, days, spans[i], col, a, m);
                if i < rest.len() {
                    assert(stands_in(l, days, rest[i], col, a, m));
                    assert(one_ends_at(l, days, rest, col, m));
                }
            }
        }
    } else {
        assert forall|m: int| floor < m <= min implies !#[trigger] one_ends_at(
            l,
            days,
            spans,
            col,
            m,
        ) by {}
    }
}

proof fn lemma_ceiling(l: Layout, days: Seq<Date>, spans: Seq<Span>, col: int, min: int)
    requires
        min <= l.bottom(),
    ensures
        ({
            let ceiling = grid::gap_ceiling(l, days, spans, col, min);
            &&& min <= ceiling
            &&& ceiling == l.bottom() || one_starts_at(l, days, spans, col, ceiling)
            &&& forall|m: int|
                min <= m < ceiling ==> !#[trigger] one_starts_at(l, days, spans, col, m)
        }),
    decreases spans.len(),
{
    let ceiling = grid::gap_ceiling(l, days, spans, col, min);
    if spans.len() > 0 {
        let rest = spans.drop_last();
        let last = spans.last();
        lemma_ceiling(l, days, rest, col, min);
        assert(spans[spans.len() - 1] == last);
        if one_starts_at(l, days, rest, col, ceiling) {
            let (i, b) = choose|i: int, b: int|
                0 <= i < rest.len() && #[trigger] stands_in(l, days, rest[i], col, ceiling, b);
            assert(stands_in(l, days, spans[i], col, ceiling, b));
        } else if ceiling != l.bottom() {
            let b = grid::block(l, days, last)->0;
            assert(stands_in(l, days, spans[spans.len() - 1], col, ceiling, b.2));
        }
        assert forall|m: int| min <= m < ceiling implies !#[trigger] one_starts_at(
            l,
            days,
            spans,
            col,
            m,
        ) by {
            if one_starts_at(l, days, spans, col, m) {
                let (i, b) = choose|i: int, b: int|
                    0 <= i < spans.len() && #[trigger] stands_in(l, days, spans[i], col, m, b);
                if i < rest.len() {
                    assert(stands_in(l, days, rest[i], col, m, b));
                    assert(one_starts_at(l, days, rest, col, m));
                }
            }
        }
    } else {
        assert forall|m: int| min <= m < ceiling implies !#[trigger] one_starts_at(
            l,
            days,
            spans,
            col,
            m,
        ) by {}
    }
}

/// The free time around a minute goes up to where the next span above ends, or to the top, and down
/// to where the next span below starts, or to the bottom. There is none inside a span, and none
/// where a quarter of an hour has no room.
pub proof fn free_time_goes_from_span_to_span(
    l: Layout,
    days: Seq<Date>,
    spans: Seq<Span>,
    col: int,
    min: int,
    up: int,
    down: int,
)
    requires
        l.wf(),
        l.start_min <= up <= min <= down <= l.bottom(),
        up == l.start_min || one_ends_at(l, days, spans, col, up),
        down == l.bottom() || one_starts_at(l, days, spans, col, down),
        forall|m: int| up < m <= min ==> !#[trigger] one_ends_at(l, days, spans, col, m),
        forall|m: int| min <= m < down ==> !#[trigger] one_starts_at(l, days, spans, col, m),
    ensures
        grid::gap(l, days, spans, col, min) is None <==> down - up < 15 || exists|i: int|
            0 <= i < spans.len() && is_inside(l, days, #[trigger] spans[i], col, min),
        grid::gap(l, days, spans, col, min) matches Some(g) ==> g == (up, down),
{
    lemma_floor(l, days, spans, col, min);
    lemma_ceiling(l, days, spans, col, min);
    gesture::lemma_gap_bounds(l, days, spans, col, min);
    let floor = grid::gap_floor(l, days, spans, col, min);
    let ceiling = grid::gap_ceiling(l, days, spans, col, min);
    assert(floor == up);
    assert(ceiling == down);
    assert forall|i: int| 0 <= i < spans.len() implies is_inside(
        l,
        days,
        #[trigger] spans[i],
        col,
        min,
    ) == grid::surrounds(l, days, spans[i], col, min) by {}
}

/// Whether minute `min` of column `col` lies inside `span`, and not at one of its ends.
pub open spec fn is_inside(l: Layout, days: Seq<Date>, span: Span, col: int, min: int) -> bool {
    grid::block(l, days, span) matches Some(b) && b.0 == col && b.1 < min && min < b.2
}

/// What is on top is under the pointer, and nothing that was drawn later is; so there is only one.
pub proof fn what_is_on_top_was_drawn_last(hits: Seq<bool>, i: int, j: int)
    requires
        gesture::is_topmost(hits, i),
    ensures
        0 <= i < hits.len() && hits[i],
        0 <= j < hits.len() && hits[j] ==> j <= i,
        gesture::is_topmost(hits, j) ==> i == j,
{
}

/// The pointer grabs the top edge of a block wherever it can, else the bottom edge wherever it can,
/// and neither beside the block.
pub proof fn the_top_edge_is_grabbed_first(probe: EdgeProbe)
    ensures
        probe.edge() == Some(Edge::Top) <==> probe.in_column && probe.near_top,
        probe.edge() == Some(Edge::Bottom) <==> probe.in_column && probe.near_bottom
            && !probe.near_top,
        probe.edge() is None <==> !probe.in_column || !probe.near_top && !probe.near_bottom,
{
}

/// As many minutes are shown as lie between the top and the bottom.
pub proof fn the_hours_end_at_the_bottom(l: Layout)
    ensures
        l.bottom() - l.start_min == l.total_min,
{
}

/// A number held within bounds is the number itself within them, and the nearer bound beyond them.
pub proof fn held_numbers_are_the_nearest(x: int, lo: int, hi: int, y: int)
    requires
        lo <= y <= hi,
    ensures
        lo <= free_time::clamped(x, lo, hi) <= hi,
        x <= y ==> x <= free_time::clamped(x, lo, hi) <= y,
        x >= y ==> y <= free_time::clamped(x, lo, hi) <= x,
{
}

/// While nothing is dragged, the pointer tells what a press would do: an edge comes before the
/// span, and the span before the columns.
pub proof fn the_pointer_tells_what_a_press_would_do(
    over_edge: bool,
    over_span: bool,
    in_grid: bool,
)
    ensures
        ({
            let p = gesture::idle_pointer(over_edge, over_span, in_grid);
            &&& p == Pointer::ResizingVertically <==> over_edge
            &&& p == Pointer::Pointer <==> over_span && !over_edge
            &&& p == Pointer::Crosshair <==> in_grid && !over_edge && !over_span
            &&& p == Pointer::Default <==> !in_grid && !over_edge && !over_span
        }),
{
}

} // verus!
