//! What the grid shows of events and spans.
use vstd::prelude::*;

use crate::calendar::CalendarEventBlock;
use crate::date::Date;
use crate::gesture::{Active, GridState};
use crate::grid;
use crate::grid::Layout;
use crate::locale;
use crate::locale::Locale;
use crate::scene;
use crate::scene::{Block, Placed};
use crate::scheduling::Span;

verus! {

/// Whether `block` stands in the column and between the minutes of `place`, and has a height.
pub open spec fn stands_at(block: Block, place: Option<(int, int, int)>) -> bool {
    place matches Some(p) && block.col == p.0 && block.lo == p.1 && block.hi == p.2 && p.1 < p.2
}

/// Whether a block at `place` would have a height.
pub open spec fn has_height(place: Option<(int, int, int)>) -> bool {
    place matches Some(p) && p.1 < p.2
}

/// Whether each of `blocks` comes after the one before it in the list that they are of.
pub open spec fn in_order(blocks: Seq<Placed>) -> bool {
    forall|i: int, j: int|
        0 <= i < j < blocks.len() ==> (#[trigger] blocks[i]).index < (#[trigger] blocks[j]).index
}

/// Whether one of `blocks` is that of the event or span `i`.
pub open spec fn has_block(blocks: Seq<Placed>, i: int) -> bool {
    exists|j: int| 0 <= j < blocks.len() && (#[trigger] blocks[j]).index == i
}

proof fn lemma_block_fits(l: Layout, days: Seq<Date>, span: Span)
    requires
        l.wf(),
        days.len() <= usize::MAX,
    ensures
        grid::block(l, days, span) matches Some(b) ==> {
            &&& 0 <= b.0 < days.len()
            &&& l.start_min <= b.1 <= l.bottom()
            &&& l.start_min <= b.2 <= l.bottom()
        },
{
    match grid::block(l, days, span) {
        Some(b) => {
            assert(grid::is_column(days, span.0.day(), b.0));
        },
        None => {},
    }
}

/// A span that no gesture resizes is shown where it stands, and one that is resized where the drag
/// would leave it.
pub proof fn spans_stand_where_they_are_or_are_dragged_to(
    l: Layout,
    days: Seq<Date>,
    spans: Seq<Span>,
    state: GridState,
    i: int,
)
    ensures
        ({
            let place = scene::span_place(l, days, spans, state, i);
            &&& state.active matches Some(Active::Resize { index, .. }) ==> index != i ==> place
                == grid::block(l, days, spans[i])
            &&& !(state.active is Some && state.active->0 is Resize) ==> place == grid::block(
                l,
                days,
                spans[i],
            )
            &&& state.active matches Some(a) ==> a is Resize && a->index == i ==> place == Some(
                (a.column() as int, a.from(), a.to()),
            )
        }),
{
}

/// Each span that has a height is shown, once, where it stands, in the order of the spans, and
/// nothing else is. The span that is hovered over shows its delete button, unless it is being
/// resized.
pub proof fn each_span_is_shown_once(
    l: Layout,
    days: Seq<Date>,
    spans: Seq<Span>,
    state: GridState,
    k: int,
)
    requires
        l.wf(),
        state.wf(),
        days.len() <= usize::MAX,
        0 <= k <= spans.len() <= usize::MAX,
    ensures
        ({
            let blocks = scene::span_blocks(l, days, spans, state, k);
            &&& in_order(blocks)
            &&& forall|j: int|
                0 <= j < blocks.len() ==> {
                    let b = #[trigger] blocks[j];
                    let resized = state.active matches Some(Active::Resize { index, .. }) && index
                        == b.index;
                    &&& b.index < k
                    &&& stands_at(
                        b.block,
                        scene::span_place(l, days, spans, state, b.index as int),
                    )
                    &&& b.delete <==> state.hover == Some(b.index) && !resized
                }
            &&& forall|i: int|
                0 <= i < k && has_height(#[trigger] scene::span_place(l, days, spans, state, i))
                    ==> has_block(blocks, i)
        }),
    decreases k,
{
    if k > 0 {
        each_span_is_shown_once(l, days, spans, state, k - 1);
        let before = scene::span_blocks(l, days, spans, state, k - 1);
        let blocks = scene::span_blocks(l, days, spans, state, k);
        lemma_block_fits(l, days, spans[k - 1]);
        let place = scene::span_place(l, days, spans, state, k - 1);
        assert(scene::visible(place) is Some <==> has_height(place));
        assert forall|i: int|
            0 <= i < k && has_height(
                #[trigger] scene::span_place(l, days, spans, state, i),
            ) implies has_block(blocks, i) by {
            if i < k - 1 {
                assert(has_block(before, i));
                let j = choose|j: int| 0 <= j < before.len() && (#[trigger] before[j]).index == i;
                assert(blocks[j].index == i);
            } else {
                assert(blocks[before.len() as int].index == i);
            }
        }
        assert forall|i: int, j: int| 0 <= i < j < blocks.len() implies (
        #[trigger] blocks[i]).index < (#[trigger] blocks[j]).index by {
            if j < before.len() {
                assert(before[i].index < before[j].index);
            } else {
                assert(before[i].index < k - 1);
            }
        }
        assert forall|j: int| 0 <= j < blocks.len() implies {
            let b = #[trigger] blocks[j];
            let resized = state.active matches Some(Active::Resize { index, .. }) && index
                == b.index;
            &&& b.index < k
            &&& stands_at(b.block, scene::span_place(l, days, spans, state, b.index as int))
            &&& b.delete <==> state.hover == Some(b.index) && !resized
        } by {
            if j < before.len() {
                assert(before[j] == blocks[j]);
                assert(before[j].index < k - 1);
            }
        }
    }
}

/// Each event that has a height is shown, once, where it stands, in the order of the events, and
/// nothing else is.
pub proof fn each_event_is_shown_once(
    l: Layout,
    days: Seq<Date>,
    events: Seq<CalendarEventBlock>,
    k: int,
)
    requires
        l.wf(),
        days.len() <= usize::MAX,
        0 <= k <= events.len() <= usize::MAX,
    ensures
        ({
            let blocks = scene::event_blocks(l, days, events, k);
            &&& in_order(blocks)
            &&& forall|j: int|
                0 <= j < blocks.len() ==> {
                    let b = #[trigger] blocks[j];
                    let event = events[b.index as int];
                    &&& b.index < k
                    &&& stands_at(b.block, grid::block(l, days, (event.start, event.end)))
                    &&& !b.delete
                }
            &&& forall|i: int|
                0 <= i < k && has_height(
                    grid::block(l, days, ((#[trigger] events[i]).start, events[i].end)),
                ) ==> has_block(blocks, i)
        }),
    decreases k,
{
    if k > 0 {
        each_event_is_shown_once(l, days, events, k - 1);
        let before = scene::event_blocks(l, days, events, k - 1);
        let blocks = scene::event_blocks(l, days, events, k);
        let event = events[k - 1];
        lemma_block_fits(l, days, (event.start, event.end));
        assert forall|i: int|
            0 <= i < k && has_height(
                grid::block(l, days, ((#[trigger] events[i]).start, events[i].end)),
            ) implies has_block(blocks, i) by {
            if i < k - 1 {
                assert(has_block(before, i));
                let j = choose|j: int| 0 <= j < before.len() && (#[trigger] before[j]).index == i;
                assert(blocks[j].index == i);
            } else {
                assert(blocks[before.len() as int].index == i);
            }
        }
        assert forall|i: int, j: int| 0 <= i < j < blocks.len() implies (
        #[trigger] blocks[i]).index < (#[trigger] blocks[j]).index by {
            if j < before.len() {
                assert(before[i].index < before[j].index);
            } else {
                assert(before[i].index < k - 1);
            }
        }
        assert forall|j: int| 0 <= j < blocks.len() implies {
            let b = #[trigger] blocks[j];
            let event = events[b.index as int];
            &&& b.index < k
            &&& stands_at(b.block, grid::block(l, days, (event.start, event.end)))
            &&& !b.delete
        } by {
            if j < before.len() {
                assert(before[j] == blocks[j]);
                assert(before[j].index < k - 1);
            }
        }
    }
}

/// The event that is hovered over shows its title beside its block, and no other does.
pub proof fn the_hovered_event_shows_its_title(
    l: Layout,
    days: Seq<Date>,
    events: Seq<CalendarEventBlock>,
    state: GridState,
)
    requires
        l.wf(),
        days.len() <= usize::MAX,
    ensures
        ({
            let tip = scene::tooltip(l, days, events, state);
            &&& state.hover_event is None ==> tip is None
            &&& tip matches Some(t) ==> {
                let event = events[t.index as int];
                &&& state.hover_event == Some(t.index)
                &&& t.index < events.len()
                &&& stands_at(t.block, grid::block(l, days, (event.start, event.end)))
            }
            &&& state.hover_event matches Some(i) ==> i < events.len() && has_height(
                grid::block(l, days, (events[i as int].start, events[i as int].end)),
            ) ==> tip is Some
        }),
{
    match state.hover_event {
        Some(i) => {
            lemma_block_fits(l, days, (events[i as int].start, events[i as int].end));
        },
        None => {},
    }
}

/// A span that is being dragged out is shown where it would come to stand, and nothing is while none
/// is dragged out.
pub proof fn previews_stand_where_the_drag_is(state: GridState)
    requires
        state.wf(),
    ensures
        state.active is None ==> scene::preview(state) is None,
        state.active matches Some(a) ==> {
            &&& a is Resize ==> scene::preview(state) is None
            &&& a is Create && a.from() < a.to() ==> (scene::preview(state) matches Some(b)
                && stands_at(b, Some((a.column() as int, a.from(), a.to()))))
            &&& a.from() >= a.to() ==> scene::preview(state) is None
        },
{
}

/// There is a label for each hour from the first to the last, in order.
pub proof fn each_hour_has_its_label(clock_24h: bool, from: int, to: int, i: int)
    ensures
        from <= to ==> scene::hour_labels(clock_24h, from, to).len() == to - from,
        from > to ==> scene::hour_labels(clock_24h, from, to).len() == 0,
        0 <= i < to - from ==> scene::hour_labels(clock_24h, from, to)[i] == locale::hour_label(
            clock_24h,
            from + i,
        ),
{
}

/// There is a head for each column, in order.
pub proof fn each_column_has_its_head(locale: Locale, days: Seq<Date>, i: int)
    ensures
        scene::header_labels(locale, days).len() == days.len(),
        0 <= i < days.len() ==> scene::header_labels(locale, days)[i] == locale.header_label(
            days[i].n(),
        ),
{
}

} // verus!
