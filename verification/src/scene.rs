//! What the week grid shows, in columns and minutes.
use vstd::prelude::*;

use crate::calendar;
use crate::calendar::CalendarEventBlock;
use crate::date::Date;
use crate::gesture;
use crate::gesture::{Active, GridState};
use crate::grid;
use crate::grid::{CalendarGrid, Layout};
use crate::local_time::LocalTime;
use crate::locale;
use crate::locale::Locale;
use crate::scheduling::Span;
use crate::text;

verus! {

/// A block in the grid: its column, and the minutes it starts and ends at.
#[derive(Clone, Copy, Debug, PartialEq, Eq, Structural)]
pub struct Block {
    pub col: usize,
    pub lo: i32,
    pub hi: i32,
}

/// The block of an event or a span, with its place in the list of them.
#[derive(Clone, Copy, Debug, PartialEq, Eq, Structural)]
pub struct Placed {
    pub index: usize,
    pub block: Block,
    /// Whether the block shows a delete button.
    pub delete: bool,
}

/// The block between the minutes `b.1` and `b.2` of column `b.0`, if it has any height.
pub open spec fn visible(b: Option<(int, int, int)>) -> Option<Block> {
    match b {
        Some(b) => if b.1 < b.2 {
            Some(Block { col: b.0 as usize, lo: b.1 as i32, hi: b.2 as i32 })
        } else {
            None
        },
        None => None,
    }
}

/// Whether span `i` is being resized.
pub open spec fn is_resizing(state: GridState, i: int) -> bool {
    state.active matches Some(Active::Resize { index, .. }) && index == i
}

/// Where span `i` stands: while it is resized, where the drag would leave it.
pub open spec fn span_place(
    l: Layout,
    days: Seq<Date>,
    spans: Seq<Span>,
    state: GridState,
    i: int,
) -> Option<(int, int, int)> {
    if is_resizing(state, i) {
        let a = state.active->0;
        Some((a.column() as int, a.from(), a.to()))
    } else {
        grid::block(l, days, spans[i])
    }
}

/// The blocks of the first `k` spans. The one that is hovered over shows its delete button, unless
/// it is being resized.
pub open spec fn span_blocks(
    l: Layout,
    days: Seq<Date>,
    spans: Seq<Span>,
    state: GridState,
    k: int,
) -> Seq<Placed>
    decreases k,
{
    if k <= 0 {
        Seq::empty()
    } else {
        let before = span_blocks(l, days, spans, state, k - 1);
        match visible(span_place(l, days, spans, state, k - 1)) {
            Some(block) => before.push(
                Placed {
                    index: (k - 1) as usize,
                    block,
                    delete: state.hover == Some((k - 1) as usize) && !is_resizing(state, k - 1),
                },
            ),
            None => before,
        }
    }
}

/// The block of an event.
pub open spec fn event_block(l: Layout, days: Seq<Date>, event: CalendarEventBlock) -> Option<
    Block,
> {
    visible(grid::block(l, days, (event.start, event.end)))
}

/// The blocks of the first `k` events.
pub open spec fn event_blocks(
    l: Layout,
    days: Seq<Date>,
    events: Seq<CalendarEventBlock>,
    k: int,
) -> Seq<Placed>
    decreases k,
{
    if k <= 0 {
        Seq::empty()
    } else {
        let before = event_blocks(l, days, events, k - 1);
        match event_block(l, days, events[k - 1]) {
            Some(block) => before.push(
                Placed { index: (k - 1) as usize, block, delete: false },
            ),
            None => before,
        }
    }
}

/// The block of the span that is being dragged out.
pub open spec fn preview(state: GridState) -> Option<Block> {
    match state.active {
        Some(a) => if a is Create {
            visible(Some((a.column() as int, a.from(), a.to())))
        } else {
            None
        },
        None => None,
    }
}

/// The event that is hovered over, with its block; `None` where it is not shown.
pub open spec fn tooltip(
    l: Layout,
    days: Seq<Date>,
    events: Seq<CalendarEventBlock>,
    state: GridState,
) -> Option<Placed> {
    match state.hover_event {
        Some(i) => if i < events.len() {
            match event_block(l, days, events[i as int]) {
                Some(block) => Some(Placed { index: i, block, delete: false }),
                None => None,
            }
        } else {
            None
        },
        None => None,
    }
}

/// The labels of the hours from `from` up to, but without, `to`.
pub open spec fn hour_labels(clock_24h: bool, from: int, to: int) -> Seq<Seq<char>> {
    Seq::new(
        if from <= to {
            (to - from) as nat
        } else {
            0
        },
        |i: int| locale::hour_label(clock_24h, from + i),
    )
}

/// The heads of the columns.
pub open spec fn header_labels(locale: Locale, days: Seq<Date>) -> Seq<Seq<char>> {
    Seq::new(days.len(), |i: int| locale.header_label(days[i].n()))
}

fn block_of(b: Option<(usize, i32, i32)>) -> (block: Option<Block>)
    ensures
        b matches Some(b) ==> block == visible(Some((b.0 as int, b.1 as int, b.2 as int))),
        b is None ==> block is None,
{
    match b {
        Some((col, lo, hi)) => if lo < hi {
            Some(Block { col, lo, hi })
        } else {
            None
        },
        None => None,
    }
}

/// The labels of the hours from `from` up to, but without, `to`.
pub fn label_hours(locale: &Locale, from: u32, to: u32) -> (labels: Vec<String>)
    ensures
        text::texts(labels@) == hour_labels(locale.clock_24h(), from as int, to as int),
{
    let mut labels: Vec<String> = Vec::new();
    let mut hour: u32 = from;
    while hour < to
        invariant
            from <= hour,
            hour <= to || hour == from,
            text::texts(labels@) == hour_labels(locale.clock_24h(), from as int, hour as int),
        decreases to - hour,
    {
        let label = locale::hour_axis_label(locale, hour);
        proof {
            text::lemma_texts_push(labels@, label);
            assert(hour_labels(locale.clock_24h(), from as int, hour + 1) =~= hour_labels(
                locale.clock_24h(),
                from as int,
                hour as int,
            ).push(label@));
        }
        labels.push(label);
        hour += 1;
    }
    assert(text::texts(labels@) == hour_labels(locale.clock_24h(), from as int, to as int));
    labels
}

impl<'a> CalendarGrid<'a> {
    /// The labels of the lines between the hours, from the top of the grid to its bottom.
    pub fn hour_lines(&self, locale: &Locale) -> (labels: Vec<String>)
        requires
            self.wf(),
        ensures
            text::texts(labels@) == hour_labels(
                locale.clock_24h(),
                self.day_start_hour as int,
                self.day_end_hour + 1,
            ),
    {
        label_hours(locale, self.day_start_hour, self.day_end_hour + 1)
    }

    /// The heads of the columns.
    pub fn day_headers(&self, locale: &Locale) -> (labels: Vec<String>)
        requires
            locale.wf(),
            forall|i: int| 0 <= i < self.days@.len() ==> (#[trigger] self.days@[i]).wf(),
        ensures
            text::texts(labels@) == header_labels(*locale, self.days@),
    {
        let mut labels: Vec<String> = Vec::new();
        let mut i: usize = 0;
        while i < self.days.len()
            invariant
                i <= self.days@.len(),
                locale.wf(),
                forall|i: int| 0 <= i < self.days@.len() ==> (#[trigger] self.days@[i]).wf(),
                text::texts(labels@) == header_labels(*locale, self.days@.take(i as int)),
            decreases self.days@.len() - i,
        {
            let label = locale::day_header(locale, self.days[i]);
            proof {
                text::lemma_texts_push(labels@, label);
                assert(header_labels(*locale, self.days@.take(i + 1)) =~= header_labels(
                    *locale,
                    self.days@.take(i as int),
                ).push(label@));
            }
            labels.push(label);
            i += 1;
        }
        assert(self.days@.take(i as int) == self.days@);
        labels
    }

    /// The block between two times, if it has any height.
    pub fn block_between(&self, l: &Layout, start: LocalTime, end: LocalTime) -> (block: Option<
        Block,
    >)
        requires
            l.wf(),
            start.wf(),
            end.wf(),
        ensures
            block == visible(grid::block(*l, self.days@, (start, end))),
    {
        block_of(self.span_minutes(l, start, end))
    }

    /// The blocks of the events, in the order in which they are drawn.
    pub fn event_blocks(&self, l: &Layout) -> (blocks: Vec<Placed>)
        requires
            l.wf(),
            calendar::events_wf(self.events@),
        ensures
            blocks@ == event_blocks(*l, self.days@, self.events@, self.events@.len() as int),
    {
        let mut blocks: Vec<Placed> = Vec::new();
        let mut i: usize = 0;
        while i < self.events.len()
            invariant
                i <= self.events@.len(),
                l.wf(),
                calendar::events_wf(self.events@),
                blocks@ == event_blocks(*l, self.days@, self.events@, i as int),
            decreases self.events@.len() - i,
        {
            let event = &self.events[i];
            match self.block_between(l, event.start, event.end) {
                Some(block) => {
                    blocks.push(Placed { index: i, block, delete: false });
                },
                None => {},
            }
            i += 1;
        }
        blocks
    }

    /// Where span `i` stands: while it is resized, where the drag would leave it.
    fn place(&self, l: &Layout, state: &GridState, i: usize) -> (b: Option<(usize, i32, i32)>)
        requires
            self.wf(),
            l.wf(),
            state.wf(),
            i < self.availability@.len(),
        ensures
            b matches Some(b) ==> span_place(*l, self.days@, self.availability@, *state, i as int)
                == Some((b.0 as int, b.1 as int, b.2 as int)),
            b is None ==> span_place(*l, self.days@, self.availability@, *state, i as int) is None,
    {
        match state.active {
            Some(active) => match active {
                Active::Resize { index, day, .. } => if index == i {
                    let (lo, hi) = active.bounds();
                    return Some((day, lo, hi));
                },
                Active::Create { .. } => {},
            },
            None => {},
        }
        let span = self.availability[i];
        self.span_minutes(l, span.0, span.1)
    }

    /// The blocks of the spans, in the order in which they are drawn. One that is being resized is
    /// where the drag would leave it.
    pub fn span_blocks(&self, l: &Layout, state: &GridState) -> (blocks: Vec<Placed>)
        requires
            self.wf(),
            l.wf(),
            state.wf(),
        ensures
            blocks@ == span_blocks(
                *l,
                self.days@,
                self.availability@,
                *state,
                self.availability@.len() as int,
            ),
    {
        let mut blocks: Vec<Placed> = Vec::new();
        let mut i: usize = 0;
        while i < self.availability.len()
            invariant
                i <= self.availability@.len(),
                self.wf(),
                l.wf(),
                state.wf(),
                blocks@ == span_blocks(*l, self.days@, self.availability@, *state, i as int),
            decreases self.availability@.len() - i,
        {
            let resizing = match state.active {
                Some(Active::Resize { index, .. }) => index == i,
                _ => false,
            };
            let hovered = match state.hover {
                Some(index) => index == i,
                None => false,
            };
            match block_of(self.place(l, state, i)) {
                Some(block) => {
                    blocks.push(Placed { index: i, block, delete: hovered && !resizing });
                },
                None => {},
            }
            i += 1;
        }
        blocks
    }

    /// The event that is hovered over, with its block; `None` where it is not shown.
    pub fn tooltip(&self, l: &Layout, state: &GridState) -> (tip: Option<Placed>)
        requires
            l.wf(),
            calendar::events_wf(self.events@),
        ensures
            tip == tooltip(*l, self.days@, self.events@, *state),
    {
        match state.hover_event {
            Some(i) => {
                if i >= self.events.len() {
                    return None;
                }
                let event = &self.events[i];
                match self.block_between(l, event.start, event.end) {
                    Some(block) => Some(Placed { index: i, block, delete: false }),
                    None => None,
                }
            },
            None => None,
        }
    }
}

impl GridState {
    /// The block of the span that is being dragged out.
    pub fn preview(&self) -> (block: Option<Block>)
        requires
            self.wf(),
        ensures
            block == preview(*self),
    {
        match self.active {
            Some(active) => match active {
                Active::Create { day, .. } => {
                    let (lo, hi) = active.bounds();
                    block_of(Some((day, lo, hi)))
                },
                Active::Resize { .. } => None,
            },
            None => None,
        }
    }
}

/// The span of a resize drag has a height, so the span that is resized is always shown.
pub proof fn resized_spans_are_shown(
    l: Layout,
    days: Seq<Date>,
    spans: Seq<Span>,
    state: GridState,
    i: int,
)
    requires
        state.wf(),
        is_resizing(state, i),
    ensures
        visible(span_place(l, days, spans, state, i)) is Some,
{
}

/// What is shown while a span is dragged out or resized is what the end of the gesture makes of
/// it.
pub proof fn previews_show_what_comes(
    l: Layout,
    days: Seq<Date>,
    spans: Seq<Span>,
    state: GridState,
)
    requires
        state.wf(),
    ensures
        gesture::released(days, state).1 matches gesture::Reaction::Add(slot) ==> preview(state)
            matches Some(b) && days[b.col as int] == slot.date && b.lo == slot.from && b.hi
            == slot.to,
        gesture::released(days, state).1 matches gesture::Reaction::Resize(i, slot) ==> visible(
            span_place(l, days, spans, state, i as int),
        ) matches Some(b) && days[b.col as int] == slot.date && b.lo == slot.from && b.hi
            == slot.to,
{
}

} // verus!
