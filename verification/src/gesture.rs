//! Gestures on the week grid: dragging out a span, resizing one, hovering over one.
use vstd::prelude::*;

use crate::date::Date;
use crate::free_time;
use crate::free_time::{Slot, SNAP_MIN};
use crate::grid;
use crate::grid::{CalendarGrid, Layout};
use crate::scheduling::Span;

verus! {

/// The edge of a span that a resize drag moves.
#[derive(Clone, Copy, Debug, PartialEq, Eq, Structural)]
pub enum Edge {
    Top,
    Bottom,
}

/// A gesture that is going on.
#[derive(Clone, Copy, Debug, PartialEq, Eq, Structural)]
pub enum Active {
    /// Dragging out a new span in the column of a day. `min_bound` and `max_bound` confine the
    /// drag to the free time between the spans next to it, so it can never overlap one.
    Create { day: usize, anchor_min: i32, current_min: i32, min_bound: i32, max_bound: i32 },
    /// Resizing a span by one edge; `fixed_min` stays put.
    Resize { index: usize, day: usize, fixed_min: i32, moving_min: i32 },
}

/// What the pointer is doing to the grid.
#[derive(Clone, Copy, Debug, PartialEq, Eq, Structural)]
pub struct GridState {
    pub active: Option<Active>,
    /// The span that is hovered over; it shows its delete button.
    pub hover: Option<usize>,
    /// The event that is hovered over; it shows its full title.
    pub hover_event: Option<usize>,
}

/// What lies under the pointer when its button goes down.
#[derive(Clone, Copy, Debug)]
pub struct Press {
    /// The span whose delete button is there.
    pub delete: Option<usize>,
    /// The span whose edge is there.
    pub edge: Option<(usize, Edge)>,
    /// The column and the minute that are there.
    pub cell: Option<(usize, i32)>,
}

/// What lies under the pointer when it moves.
#[derive(Clone, Copy, Debug, PartialEq, Eq, Structural)]
pub struct Hover {
    /// The minute that is nearest.
    pub minute: i32,
    /// The span that is there.
    pub avail: Option<usize>,
    /// The event that is there.
    pub event: Option<usize>,
}

/// What the pointer did.
#[derive(Clone, Copy, Debug)]
pub enum GridEvent {
    /// The button went down; `None` off the grid.
    Pressed(Option<Press>),
    /// The pointer moved; `None` off the grid.
    Moved(Option<Hover>),
    /// The pointer left the window.
    Left,
    /// The button came up.
    Released,
}

/// What is to be done about it.
#[derive(Clone, Copy, Debug, PartialEq, Eq, Structural)]
pub enum Reaction {
    /// Nothing.
    Ignore,
    /// Draw the grid anew.
    Redraw,
    /// Draw the grid anew, and let nothing else see what the pointer did.
    Capture,
    /// Remove a span.
    Remove(usize),
    /// Add a span.
    Add(Slot),
    /// Give a span new bounds.
    Resize(usize, Slot),
}

/// The smaller of two numbers.
pub open spec fn min_of(a: int, b: int) -> int {
    if a <= b {
        a
    } else {
        b
    }
}

/// The larger of two numbers.
pub open spec fn max_of(a: int, b: int) -> int {
    if a >= b {
        a
    } else {
        b
    }
}

fn min_i32(a: i32, b: i32) -> (r: i32)
    ensures
        r == min_of(a as int, b as int),
{
    if a <= b {
        a
    } else {
        b
    }
}

fn max_i32(a: i32, b: i32) -> (r: i32)
    ensures
        r == max_of(a as int, b as int),
{
    if a >= b {
        a
    } else {
        b
    }
}

/// Whether `m` is a minute that can be counted, with a grid step to spare.
pub open spec fn countable(m: i32) -> bool {
    0 <= m <= i32::MAX - SNAP_MIN
}

impl Active {
    /// Whether the minutes can be counted, and a new span stays within its bounds.
    pub open spec fn wf(self) -> bool {
        match self {
            Active::Create { anchor_min, current_min, min_bound, max_bound, .. } => {
                &&& countable(min_bound) && countable(max_bound)
                &&& min_bound <= anchor_min <= max_bound
                &&& min_bound <= current_min <= max_bound
            },
            Active::Resize { fixed_min, moving_min, .. } => countable(fixed_min) && countable(
                moving_min,
            ),
        }
    }

    /// The column that the gesture is in.
    pub open spec fn column(self) -> usize {
        match self {
            Active::Create { day, .. } => day,
            Active::Resize { day, .. } => day,
        }
    }

    /// Where the span would start. The end of a resized span that is not dragged stays put: a span
    /// that would be shorter than a grid step grows away from it, up to midnight.
    pub open spec fn from(self) -> int {
        match self {
            Active::Create { anchor_min, current_min, .. } => min_of(
                anchor_min as int,
                current_min as int,
            ),
            Active::Resize { fixed_min, moving_min, .. } => if fixed_min <= moving_min {
                fixed_min as int
            } else {
                min_of(moving_min as int, max_of(fixed_min - SNAP_MIN, 0))
            },
        }
    }

    /// Where the span would end: at the other end of the drag, a grid step from the start at
    /// least, but for a new span no later than its bound.
    pub open spec fn to(self) -> int {
        match self {
            Active::Create { anchor_min, current_min, max_bound, .. } => min_of(
                max_of(max_of(anchor_min as int, current_min as int), self.from() + SNAP_MIN),
                max_bound as int,
            ),
            Active::Resize { fixed_min, moving_min, .. } => if fixed_min <= moving_min {
                max_of(moving_min as int, fixed_min + SNAP_MIN)
            } else {
                fixed_min as int
            },
        }
    }

    /// The bounds that the span would have if the gesture ended here.
    pub fn bounds(&self) -> (b: (i32, i32))
        requires
            self.wf(),
        ensures
            b.0 == self.from(),
            b.1 == self.to(),
    {
        match *self {
            Active::Create { anchor_min, current_min, max_bound, .. } => {
                let lo = min_i32(anchor_min, current_min);
                let hi = min_i32(
                    max_i32(max_i32(anchor_min, current_min), lo + SNAP_MIN),
                    max_bound,
                );
                (lo, hi)
            },
            Active::Resize { fixed_min, moving_min, .. } => {
                if fixed_min <= moving_min {
                    (fixed_min, max_i32(moving_min, fixed_min + SNAP_MIN))
                } else {
                    (min_i32(moving_min, max_i32(fixed_min - SNAP_MIN, 0)), fixed_min)
                }
            },
        }
    }
}

impl GridState {
    /// Nothing going on.
    pub fn new() -> (s: GridState)
        ensures
            s.active is None && s.hover is None && s.hover_event is None,
            s.wf(),
    {
        GridState { active: None, hover: None, hover_event: None }
    }

    /// Whether the gesture that is going on is well-formed.
    pub open spec fn wf(self) -> bool {
        self.active matches Some(a) ==> a.wf()
    }

    /// The state without anything hovered over.
    pub open spec fn unhovered(self) -> GridState {
        GridState { active: self.active, hover: None, hover_event: None }
    }

    /// The state with another gesture.
    pub open spec fn with_active(self, active: Option<Active>) -> GridState {
        GridState { active, hover: self.hover, hover_event: self.hover_event }
    }
}

/// The resize of span `index`, which stands at `b`, by its edge `edge`.
pub open spec fn resize_of(index: usize, edge: Edge, b: (int, int, int)) -> Active {
    match edge {
        Edge::Top => Active::Resize {
            index,
            day: b.0 as usize,
            fixed_min: b.2 as i32,
            moving_min: b.1 as i32,
        },
        Edge::Bottom => Active::Resize {
            index,
            day: b.0 as usize,
            fixed_min: b.1 as i32,
            moving_min: b.2 as i32,
        },
    }
}

/// The resize that a press on an edge starts, if there is an edge.
pub open spec fn resize_at(
    l: Layout,
    days: Seq<Date>,
    spans: Seq<Span>,
    edge: Option<(usize, Edge)>,
) -> Option<Active> {
    match edge {
        Some(e) => match grid::block(l, days, spans[e.0 as int]) {
            Some(b) => Some(resize_of(e.0, e.1, b)),
            None => None,
        },
        None => None,
    }
}

/// The drag that a press on a cell starts, if the cell lies in free time.
pub open spec fn create_at(
    l: Layout,
    days: Seq<Date>,
    spans: Seq<Span>,
    cell: Option<(usize, i32)>,
) -> Option<Active> {
    match cell {
        Some(c) => match grid::gap(l, days, spans, c.0 as int, c.1 as int) {
            Some(g) => Some(
                Active::Create {
                    day: c.0,
                    anchor_min: c.1,
                    current_min: c.1,
                    min_bound: g.0 as i32,
                    max_bound: g.1 as i32,
                },
            ),
            None => None,
        },
        None => None,
    }
}

/// What a press does: it removes the span whose delete button it hits, else resizes the span
/// whose edge it hits, else drags out a new span. Whatever it does, nothing stays hovered over.
pub open spec fn pressed(
    l: Layout,
    days: Seq<Date>,
    spans: Seq<Span>,
    state: GridState,
    press: Press,
) -> (GridState, Reaction) {
    let state = state.unhovered();
    match press.delete {
        Some(i) => (state, Reaction::Remove(i)),
        None => match resize_at(l, days, spans, press.edge) {
            Some(a) => (state.with_active(Some(a)), Reaction::Capture),
            None => match create_at(l, days, spans, press.cell) {
                Some(a) => (state.with_active(Some(a)), Reaction::Capture),
                None => (state, Reaction::Ignore),
            },
        },
    }
}

/// A gesture with the pointer at minute `minute`. A new span stays within its bounds.
pub open spec fn dragged(active: Active, minute: i32) -> Active {
    match active {
        Active::Create { day, anchor_min, current_min, min_bound, max_bound } => Active::Create {
            day,
            anchor_min,
            current_min: free_time::clamped(
                minute as int,
                min_bound as int,
                max_bound as int,
            ) as i32,
            min_bound,
            max_bound,
        },
        Active::Resize { index, day, fixed_min, moving_min } => Active::Resize {
            index,
            day,
            fixed_min,
            moving_min: minute,
        },
    }
}

/// What a move does: it goes on with the gesture, if there is one; else the span under the
/// pointer is hovered over, or, if there is none, the event.
pub open spec fn moved(state: GridState, hover: Option<Hover>) -> (GridState, Reaction) {
    match state.active {
        Some(a) => match hover {
            Some(h) => (state.with_active(Some(dragged(a, h.minute))), Reaction::Capture),
            None => (state, Reaction::Capture),
        },
        None => {
            let avail = match hover {
                Some(h) => h.avail,
                None => None,
            };
            let event = match hover {
                Some(h) => if h.avail is None {
                    h.event
                } else {
                    None
                },
                None => None,
            };
            if avail != state.hover || event != state.hover_event {
                (GridState { active: None, hover: avail, hover_event: event }, Reaction::Redraw)
            } else {
                (state, Reaction::Ignore)
            }
        },
    }
}

/// What leaving the window does.
pub open spec fn left(state: GridState) -> (GridState, Reaction) {
    if state.hover is Some || state.hover_event is Some {
        (state.unhovered(), Reaction::Redraw)
    } else {
        (state, Reaction::Ignore)
    }
}

/// What the end of a gesture does: the span is added or resized, unless the day is gone or a new
/// span has no room.
pub open spec fn released(days: Seq<Date>, state: GridState) -> (GridState, Reaction) {
    match state.active {
        Some(a) => {
            let state = state.with_active(None);
            if a.column() >= days.len() {
                (state, Reaction::Ignore)
            } else {
                let slot = Slot {
                    date: days[a.column() as int],
                    from: a.from() as i32,
                    to: a.to() as i32,
                };
                match a {
                    Active::Create { min_bound, .. } => if a.to() - a.from() < SNAP_MIN
                        || a.from() < min_bound {
                        (state, Reaction::Ignore)
                    } else {
                        (state, Reaction::Add(slot))
                    },
                    Active::Resize { index, .. } => (state, Reaction::Resize(index, slot)),
                }
            }
        },
        None => (state, Reaction::Ignore),
    }
}

/// What the grid makes of an event.
pub open spec fn transition(
    l: Layout,
    days: Seq<Date>,
    spans: Seq<Span>,
    state: GridState,
    event: GridEvent,
) -> (GridState, Reaction) {
    match event {
        GridEvent::Pressed(Some(press)) => pressed(l, days, spans, state, press),
        GridEvent::Pressed(None) => (state, Reaction::Ignore),
        GridEvent::Moved(hover) => moved(state, hover),
        GridEvent::Left => left(state),
        GridEvent::Released => released(days, state),
    }
}

impl GridEvent {
    /// Whether the event speaks of spans that are there and of minutes that are shown.
    pub open spec fn wf(self, l: Layout, spans: Seq<Span>) -> bool {
        match self {
            GridEvent::Pressed(Some(press)) => {
                &&& press.edge matches Some(e) ==> e.0 < spans.len()
                &&& press.cell matches Some(c) ==> l.start_min <= c.1 <= l.bottom()
            },
            GridEvent::Moved(hover) => hover matches Some(h) ==> l.start_min <= h.minute
                <= l.bottom(),
            _ => true,
        }
    }
}

/// The free time around a minute that is shown lies within the hours that are shown, on both
/// sides of the minute.
pub proof fn lemma_gap_bounds(l: Layout, days: Seq<Date>, spans: Seq<Span>, col: int, min: int)
    requires
        l.wf(),
        l.start_min <= min <= l.bottom(),
    ensures
        l.start_min <= grid::gap_floor(l, days, spans, col, min) <= min,
        min <= grid::gap_ceiling(l, days, spans, col, min) <= l.bottom(),
    decreases spans.len(),
{
    if spans.len() > 0 {
        lemma_gap_bounds(l, days, spans.drop_last(), col, min);
    }
}

impl<'a> CalendarGrid<'a> {
    /// What the grid makes of an event.
    pub fn update(&self, l: &Layout, state: &mut GridState, event: GridEvent) -> (r: Reaction)
        requires
            self.wf(),
            l.wf(),
            old(state).wf(),
            event.wf(*l, self.availability@),
        ensures
            (*final(state), r) == transition(
                *l,
                self.days@,
                self.availability@,
                *old(state),
                event,
            ),
            final(state).wf(),
    {
        match event {
            GridEvent::Pressed(Some(press)) => self.press(l, state, press),
            GridEvent::Pressed(None) => Reaction::Ignore,
            GridEvent::Moved(hover) => state.move_to(hover),
            GridEvent::Left => state.leave(),
            GridEvent::Released => state.release(&self.days),
        }
    }

    fn press(&self, l: &Layout, state: &mut GridState, press: Press) -> (r: Reaction)
        requires
            self.wf(),
            l.wf(),
            old(state).wf(),
            GridEvent::Pressed(Some(press)).wf(*l, self.availability@),
        ensures
            (*final(state), r) == pressed(
                *l,
                self.days@,
                self.availability@,
                *old(state),
                press,
            ),
            final(state).wf(),
    {
        state.hover = None;
        state.hover_event = None;
        match press.delete {
            Some(i) => {
                return Reaction::Remove(i);
            },
            None => {},
        }
        match press.edge {
            Some((i, edge)) => {
                let span = self.availability[i];
                match self.span_minutes(l, span.0, span.1) {
                    Some((col, lo, hi)) => {
                        let (fixed_min, moving_min) = match edge {
                            Edge::Top => (hi, lo),
                            Edge::Bottom => (lo, hi),
                        };
                        state.active = Some(
                            Active::Resize { index: i, day: col, fixed_min, moving_min },
                        );
                        return Reaction::Capture;
                    },
                    None => {},
                }
            },
            None => {},
        }
        match press.cell {
            Some((col, min)) => {
                proof {
                    lemma_gap_bounds(
                        *l,
                        self.days@,
                        self.availability@,
                        col as int,
                        min as int,
                    );
                }
                match self.free_gap(l, col, min) {
                    Some((min_bound, max_bound)) => {
                        state.active = Some(
                            Active::Create {
                                day: col,
                                anchor_min: min,
                                current_min: min,
                                min_bound,
                                max_bound,
                            },
                        );
                        Reaction::Capture
                    },
                    None => Reaction::Ignore,
                }
            },
            None => Reaction::Ignore,
        }
    }
}

impl GridState {
    fn move_to(&mut self, hover: Option<Hover>) -> (r: Reaction)
        requires
            old(self).wf(),
            hover matches Some(h) ==> countable(h.minute),
        ensures
            (*final(self), r) == moved(*old(self), hover),
            final(self).wf(),
    {
        match self.active {
            Some(active) => {
                match hover {
                    Some(h) => {
                        self.active = Some(
                            match active {
                                Active::Create {
                                    day,
                                    anchor_min,
                                    current_min: _,
                                    min_bound,
                                    max_bound,
                                } => Active::Create {
                                    day,
                                    anchor_min,
                                    current_min: free_time::clamp(h.minute, min_bound, max_bound),
                                    min_bound,
                                    max_bound,
                                },
                                Active::Resize { index, day, fixed_min, moving_min: _ } => Active::Resize {
                                    index,
                                    day,
                                    fixed_min,
                                    moving_min: h.minute,
                                },
                            },
                        );
                    },
                    None => {},
                }
                Reaction::Capture
            },
            None => {
                let (avail, event) = match hover {
                    Some(h) => match h.avail {
                        Some(i) => (Some(i), None),
                        None => (None, h.event),
                    },
                    None => (None, None),
                };
                if same_index(avail, self.hover) && same_index(event, self.hover_event) {
                    Reaction::Ignore
                } else {
                    self.hover = avail;
                    self.hover_event = event;
                    Reaction::Redraw
                }
            },
        }
    }

    fn leave(&mut self) -> (r: Reaction)
        ensures
            (*final(self), r) == left(*old(self)),
            old(self).wf() ==> final(self).wf(),
    {
        if self.hover.is_some() || self.hover_event.is_some() {
            self.hover = None;
            self.hover_event = None;
            Reaction::Redraw
        } else {
            Reaction::Ignore
        }
    }

    fn release(&mut self, days: &Vec<Date>) -> (r: Reaction)
        requires
            old(self).wf(),
        ensures
            (*final(self), r) == released(days@, *old(self)),
            final(self).wf(),
    {
        match self.active {
            Some(active) => {
                self.active = None;
                let (lo, hi) = active.bounds();
                match active {
                    Active::Create { day, min_bound, .. } => {
                        if day >= days.len() {
                            return Reaction::Ignore;
                        }
                        if hi - lo < SNAP_MIN || lo < min_bound {
                            return Reaction::Ignore;
                        }
                        Reaction::Add(Slot { date: days[day], from: lo, to: hi })
                    },
                    Active::Resize { index, day, .. } => {
                        if day >= days.len() {
                            return Reaction::Ignore;
                        }
                        Reaction::Resize(index, Slot { date: days[day], from: lo, to: hi })
                    },
                }
            },
            None => Reaction::Ignore,
        }
    }
}

/// Whether `i` is the last of the hits.
pub open spec fn is_topmost(hits: Seq<bool>, i: int) -> bool {
    &&& 0 <= i < hits.len()
    &&& hits[i]
    &&& forall|k: int| i < k < hits.len() ==> !#[trigger] hits[k]
}

/// Which of the blocks that were drawn one over the other is under the pointer, given whether
/// each is: the one that was drawn last.
pub fn topmost(hits: &Vec<bool>) -> (top: Option<usize>)
    ensures
        top matches Some(i) ==> is_topmost(hits@, i as int),
        top is None <==> forall|k: int| 0 <= k < hits@.len() ==> !#[trigger] hits@[k],
        top is None <==> !hits@.contains(true),
{
    let mut i: usize = hits.len();
    while i > 0
        invariant
            i <= hits@.len(),
            forall|k: int| i <= k < hits@.len() ==> !#[trigger] hits@[k],
        decreases i,
    {
        i -= 1;
        if hits[i] {
            assert(hits@[i as int] == true);
            return Some(i);
        }
    }
    None
}

/// Where the pointer is with respect to a span's block.
#[derive(Clone, Copy, Debug, PartialEq, Eq, Structural)]
pub struct EdgeProbe {
    /// Whether it is beside the block neither to the left nor to the right.
    pub in_column: bool,
    /// Whether it can grab the top edge.
    pub near_top: bool,
    /// Whether it can grab the bottom edge.
    pub near_bottom: bool,
}

impl EdgeProbe {
    /// The edge that the pointer can grab.
    pub open spec fn edge(self) -> Option<Edge> {
        if !self.in_column {
            None
        } else if self.near_top {
            Some(Edge::Top)
        } else if self.near_bottom {
            Some(Edge::Bottom)
        } else {
            None
        }
    }
}

/// The edge that the pointer can grab, given where it is with respect to each block: one of the
/// block that was drawn last, and its top edge rather than its bottom edge.
pub fn topmost_edge(probes: &Vec<EdgeProbe>) -> (grab: Option<(usize, Edge)>)
    ensures
        grab matches Some(g) ==> {
            &&& g.0 < probes@.len()
            &&& probes@[g.0 as int].edge() == Some(g.1)
            &&& forall|k: int| g.0 < k < probes@.len() ==> (#[trigger] probes@[k]).edge() is None
        },
        grab is None <==> forall|k: int|
            0 <= k < probes@.len() ==> (#[trigger] probes@[k]).edge() is None,
{
    let mut i: usize = probes.len();
    while i > 0
        invariant
            i <= probes@.len(),
            forall|k: int| i <= k < probes@.len() ==> (#[trigger] probes@[k]).edge() is None,
        decreases i,
    {
        i -= 1;
        let probe = probes[i];
        if probe.in_column {
            if probe.near_top {
                return Some((i, Edge::Top));
            }
            if probe.near_bottom {
                return Some((i, Edge::Bottom));
            }
        }
    }
    None
}

/// What the pointer looks like.
#[derive(Clone, Copy, Debug, PartialEq, Eq, Structural)]
pub enum Pointer {
    Crosshair,
    ResizingVertically,
    Pointer,
    Default,
}

/// What the pointer looks like while nothing is dragged: `over_edge` and `over_span` say that it
/// is over one, `in_grid` that it is over the columns.
pub open spec fn idle_pointer(over_edge: bool, over_span: bool, in_grid: bool) -> Pointer {
    if over_edge {
        Pointer::ResizingVertically
    } else if over_span {
        Pointer::Pointer
    } else if in_grid {
        Pointer::Crosshair
    } else {
        Pointer::Default
    }
}

impl GridState {
    /// What the pointer looks like: the gesture decides, and without one what it is over.
    pub fn mouse_interaction(&self, over_edge: bool, over_span: bool, in_grid: bool) -> (p: Pointer)
        ensures
            p == (match self.active {
                Some(Active::Create { .. }) => Pointer::Crosshair,
                Some(Active::Resize { .. }) => Pointer::ResizingVertically,
                None => idle_pointer(over_edge, over_span, in_grid),
            }),
    {
        match self.active {
            Some(Active::Create { .. }) => {
                return Pointer::Crosshair;
            },
            Some(Active::Resize { .. }) => {
                return Pointer::ResizingVertically;
            },
            None => {},
        }
        if over_edge {
            return Pointer::ResizingVertically;
        }
        if over_span {
            return Pointer::Pointer;
        }
        if in_grid {
            return Pointer::Crosshair;
        }
        Pointer::Default
    }
}

fn same_index(a: Option<usize>, b: Option<usize>) -> (same: bool)
    ensures
        same == (a == b),
{
    match (a, b) {
        (Some(i), Some(j)) => i == j,
        (None, None) => true,
        _ => false,
    }
}

} // verus!
