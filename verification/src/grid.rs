//! The week grid of the picker: where spans stand in it, and what the pointer does to them.
use vstd::prelude::*;

use crate::calendar::CalendarEventBlock;
use crate::date::Date;
use crate::free_time;
use crate::free_time::SNAP_MIN;
use crate::local_time::LocalTime;
use crate::scheduling;
use crate::scheduling::Span;

verus! {

/// The last hour whose minutes a 32-bit count can hold, with a grid step to spare.
pub const HOUR_LIMIT: u32 = 35791393;

/// The hours and the columns of the grid, in minutes after midnight and in days.
#[derive(Clone, Copy, Debug, PartialEq, Eq, Structural)]
pub struct Layout {
    pub cols: usize,
    /// The first minute of the day that is shown.
    pub start_min: i32,
    /// How many minutes are shown.
    pub total_min: i32,
}

impl Layout {
    /// Whether the minutes shown can be counted, with a grid step to spare.
    pub open spec fn wf(self) -> bool {
        &&& 0 <= self.start_min
        &&& 0 <= self.total_min
        &&& self.bottom() <= i32::MAX - SNAP_MIN
    }

    /// The end of the last hour that is shown.
    pub open spec fn bottom(self) -> int {
        self.start_min + self.total_min
    }

    /// The end of the last hour that is shown.
    pub fn bottom_min(&self) -> (m: i32)
        requires
            self.wf(),
        ensures
            m == self.bottom(),
    {
        self.start_min + self.total_min
    }

    /// The minute of the day at grid step `step`, held within the hours that are shown.
    pub fn snap(&self, step: i32) -> (m: i32)
        requires
            self.wf(),
            i32::MIN <= step * SNAP_MIN <= i32::MAX,
        ensures
            m == free_time::clamped(step * SNAP_MIN, self.start_min as int, self.bottom()),
    {
        free_time::clamp(step * SNAP_MIN, self.start_min, self.bottom_min())
    }

    /// The column and the minute under the pointer, given the column and the grid step it is at;
    /// `None` to the right of the last column.
    pub fn locate(&self, col: usize, step: i32) -> (cell: Option<(usize, i32)>)
        requires
            self.wf(),
            i32::MIN <= step * SNAP_MIN <= i32::MAX,
        ensures
            cell is Some <==> col < self.cols,
            cell matches Some(c) ==> c.0 == col && c.1 == free_time::clamped(
                step * SNAP_MIN,
                self.start_min as int,
                self.bottom(),
            ),
    {
        if col >= self.cols {
            return None;
        }
        Some((col, self.snap(step)))
    }
}

/// Whether column `c` is the first that shows day `n`.
pub open spec fn is_column(days: Seq<Date>, n: int, c: int) -> bool {
    &&& 0 <= c < days.len()
    &&& days[c].n() == n
    &&& forall|k: int| 0 <= k < c ==> (#[trigger] days[k]).n() != n
}

/// The column that shows day `n`, if one does.
pub open spec fn column_of(days: Seq<Date>, n: int) -> Option<int> {
    if exists|c: int| is_column(days, n, c) {
        Some(choose|c: int| is_column(days, n, c))
    } else {
        None
    }
}

/// Where a span stands in the grid: its column, and the minutes it starts and ends at, held
/// within the hours that are shown. A span that ends on a later day runs to the bottom.
pub open spec fn block(l: Layout, days: Seq<Date>, span: Span) -> Option<(int, int, int)> {
    match column_of(days, span.0.day()) {
        Some(c) => {
            let end = if span.1.day() > span.0.day() { l.bottom() } else { span.1.minutes() };
            Some(
                (
                    c,
                    free_time::clamped(span.0.minutes(), l.start_min as int, l.bottom()),
                    free_time::clamped(end, l.start_min as int, l.bottom()),
                ),
            )
        },
        None => None,
    }
}

/// Whether all of `span` lies before the hours that are shown, or behind them.
pub open spec fn is_hidden(l: Layout, span: Span) -> bool {
    let runs_over = span.1.day() > span.0.day();
    ||| span.0.minutes() < l.start_min && !runs_over && span.1.minutes() <= l.start_min
    ||| span.0.minutes() >= l.bottom() && (runs_over || span.1.minutes() > l.bottom())
}

/// Whether `span` stands in column `col`, strictly around minute `min`.
pub open spec fn surrounds(l: Layout, days: Seq<Date>, span: Span, col: int, min: int) -> bool {
    block(l, days, span) matches Some(b) && b.0 == col && b.1 < min < b.2
}

/// The end of the free time above minute `min` of column `col`: where the last span before it
/// ends, or the top. A span outside the hours that are shown bounds nothing.
pub open spec fn gap_floor(
    l: Layout,
    days: Seq<Date>,
    spans: Seq<Span>,
    col: int,
    min: int,
) -> int
    decreases spans.len(),
{
    if spans.len() == 0 {
        l.start_min as int
    } else {
        let floor = gap_floor(l, days, spans.drop_last(), col, min);
        match block(l, days, spans.last()) {
            Some(b) => if b.0 == col && !is_hidden(l, spans.last()) && floor < b.2 <= min {
                b.2
            } else {
                floor
            },
            None => floor,
        }
    }
}

/// The end of the free time below minute `min` of column `col`: where the first span behind it
/// starts, or the bottom. A span outside the hours that are shown bounds nothing.
pub open spec fn gap_ceiling(
    l: Layout,
    days: Seq<Date>,
    spans: Seq<Span>,
    col: int,
    min: int,
) -> int
    decreases spans.len(),
{
    if spans.len() == 0 {
        l.bottom()
    } else {
        let ceiling = gap_ceiling(l, days, spans.drop_last(), col, min);
        match block(l, days, spans.last()) {
            Some(b) => if b.0 == col && !is_hidden(l, spans.last()) && min <= b.1 < ceiling {
                b.1
            } else {
                ceiling
            },
            None => ceiling,
        }
    }
}

/// The free time around minute `min` of column `col`: `None` inside a span, and where there is
/// no room for one.
pub open spec fn gap(
    l: Layout,
    days: Seq<Date>,
    spans: Seq<Span>,
    col: int,
    min: int,
) -> Option<(int, int)> {
    let floor = gap_floor(l, days, spans, col, min);
    let ceiling = gap_ceiling(l, days, spans, col, min);
    if (exists|i: int|
        0 <= i < spans.len() && surrounds(l, days, #[trigger] spans[i], col, min)) || ceiling
        - floor < SNAP_MIN {
        None
    } else {
        Some((floor, ceiling))
    }
}

/// Whether all of `span` lies before the hours that are shown, or behind them.
fn hides(l: &Layout, span: Span) -> (b: bool)
    requires
        l.wf(),
        span.0.wf(),
        span.1.wf(),
    ensures
        b == is_hidden(*l, span),
{
    let (start, end) = (span.0.minute_of_day(), span.1.minute_of_day());
    let runs_over = span.1.date_naive().day_number > span.0.date_naive().day_number;
    start < l.start_min && !runs_over && end <= l.start_min || start >= l.bottom_min() && (runs_over
        || end > l.bottom_min())
}

/// The week grid: the days and hours it shows, the events and the spans in it.
pub struct CalendarGrid<'a> {
    pub days: Vec<Date>,
    pub day_start_hour: u32,
    pub day_end_hour: u32,
    pub events: &'a Vec<CalendarEventBlock>,
    pub availability: &'a Vec<Span>,
}

impl<'a> CalendarGrid<'a> {
    /// Whether the hours can be counted in minutes, and the times are well-formed.
    pub open spec fn wf(self) -> bool {
        &&& self.day_start_hour <= HOUR_LIMIT
        &&& self.day_end_hour <= HOUR_LIMIT
        &&& scheduling::spans_wf(self.availability@)
    }

    /// The hours and columns of the grid; `None` where there is nothing to show.
    pub fn layout(&self) -> (l: Option<Layout>)
        requires
            self.wf(),
        ensures
            l is Some <==> self.days@.len() > 0 && self.day_start_hour < self.day_end_hour,
            l matches Some(l) ==> {
                &&& l.wf()
                &&& l.cols == self.days@.len()
                &&& l.start_min == self.day_start_hour * 60
                &&& l.bottom() == self.day_end_hour * 60
            },
    {
        let cols = self.days.len();
        if cols == 0 || self.day_end_hour <= self.day_start_hour {
            return None;
        }
        let hours: u32 = self.day_end_hour - self.day_start_hour;
        Some(
            Layout {
                cols,
                start_min: self.day_start_hour as i32 * 60,
                total_min: hours as i32 * 60,
            },
        )
    }

    /// The first column that shows the date.
    fn column(&self, date: Date) -> (c: Option<usize>)
        ensures
            c matches Some(c) ==> column_of(self.days@, date.n()) == Some(c as int),
            c is None ==> column_of(self.days@, date.n()) is None,
    {
        let mut c: usize = 0;
        while c < self.days.len()
            invariant
                c <= self.days@.len(),
                forall|k: int| 0 <= k < c ==> (#[trigger] self.days@[k]).n() != date.n(),
            decreases self.days@.len() - c,
        {
            if self.days[c].day_number == date.day_number {
                proof {
                    assert(is_column(self.days@, date.n(), c as int));
                    let other = choose|c: int| is_column(self.days@, date.n(), c);
                    assert(is_column(self.days@, date.n(), other));
                    if other < c {
                        assert(self.days@[other].n() != date.n());
                    }
                }
                return Some(c);
            }
            c += 1;
        }
        None
    }

    /// The column of a span, and the minutes it starts and ends at in it.
    pub fn span_minutes(&self, l: &Layout, start: LocalTime, end: LocalTime) -> (b: Option<
        (usize, i32, i32),
    >)
        requires
            l.wf(),
            start.wf(),
            end.wf(),
        ensures
            b matches Some(b) ==> block(*l, self.days@, (start, end)) == Some(
                (b.0 as int, b.1 as int, b.2 as int),
            ) && b.0 < self.days@.len(),
            b is None ==> block(*l, self.days@, (start, end)) is None,
    {
        let day = start.date_naive();
        match self.column(day) {
            Some(col) => {
                let lo = free_time::clamp(start.minute_of_day(), l.start_min, l.bottom_min());
                let hi_raw: i32 = if end.date_naive().day_number > day.day_number {
                    l.bottom_min()
                } else {
                    end.minute_of_day()
                };
                let hi = free_time::clamp(hi_raw, l.start_min, l.bottom_min());
                proof {
                    let c = choose|c: int| is_column(self.days@, day.n(), c);
                    assert(is_column(self.days@, day.n(), c));
                }
                Some((col, lo, hi))
            },
            None => None,
        }
    }

    /// The free time, in minutes, around minute `min` of column `col`, between the spans that are
    /// there. `None` if `min` lies inside a span, or if there is no room for a new one: in either
    /// case none can be started there without overlapping.
    pub fn free_gap(&self, l: &Layout, col: usize, min: i32) -> (g: Option<(i32, i32)>)
        requires
            self.wf(),
            l.wf(),
        ensures
            g matches Some(g) ==> gap(*l, self.days@, self.availability@, col as int, min as int)
                == Some((g.0 as int, g.1 as int)),
            g is None ==> gap(*l, self.days@, self.availability@, col as int, min as int) is None,
    {
        let mut lo: i32 = l.start_min;
        let mut hi: i32 = l.bottom_min();
        let mut i: usize = 0;
        while i < self.availability.len()
            invariant
                i <= self.availability@.len(),
                self.wf(),
                l.wf(),
                lo == gap_floor(
                    *l,
                    self.days@,
                    self.availability@.take(i as int),
                    col as int,
                    min as int,
                ),
                hi == gap_ceiling(
                    *l,
                    self.days@,
                    self.availability@.take(i as int),
                    col as int,
                    min as int,
                ),
                l.start_min <= lo <= l.bottom(),
                l.start_min <= hi <= l.bottom(),
                forall|k: int|
                    0 <= k < i ==> !surrounds(
                        *l,
                        self.days@,
                        #[trigger] self.availability@[k],
                        col as int,
                        min as int,
                    ),
            decreases self.availability@.len() - i,
        {
            let span = self.availability[i];
            proof {
                assert(self.availability@.take(i + 1).drop_last() == self.availability@.take(
                    i as int,
                ));
                assert(self.availability@.take(i + 1).last() == span);
            }
            match self.span_minutes(l, span.0, span.1) {
                Some((c, s_min, e_min)) => {
                    if c == col && !hides(l, span) {
                        if min > s_min && min < e_min {
                            assert(surrounds(
                                *l,
                                self.days@,
                                self.availability@[i as int],
                                col as int,
                                min as int,
                            ));
                            return None;
                        }
                        if e_min <= min && e_min > lo {
                            lo = e_min;
                        }
                        if s_min >= min && s_min < hi {
                            hi = s_min;
                        }
                    }
                },
                None => {},
            }
            i += 1;
        }
        assert(self.availability@.take(i as int) == self.availability@);
        if hi - lo >= SNAP_MIN {
            Some((lo, hi))
        } else {
            None
        }
    }
}

} // verus!
