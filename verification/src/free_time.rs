//! The free time between the events of a day.
use vstd::prelude::*;

use crate::calendar;
use crate::calendar::CalendarEventBlock;
use crate::date::Date;
use crate::local_time;
use crate::local_time::LocalTime;

verus! {

/// The step of the picker's grid, in minutes: the pointer moves from step to step, and no free time
/// that is offered is shorter. Nor is a span that the pointer makes, but for one that is resized
/// while its end is held less than a step after midnight.
pub const SNAP_MIN: i32 = 15;

/// A free window on a day, in minutes after midnight.
#[derive(Clone, Copy, Debug, PartialEq, Eq, Structural)]
pub struct Slot {
    pub date: Date,
    pub from: i32,
    pub to: i32,
}

/// `x`, or the nearer of `lo` and `hi` where it is not between them.
pub open spec fn clamped(x: int, lo: int, hi: int) -> int {
    if x < lo {
        lo
    } else if x > hi {
        hi
    } else {
        x
    }
}

/// The first minute of the day of `t` that starts at `t` or after it.
pub open spec fn minute_ahead(t: LocalTime) -> int {
    if t.wall_secs % 60 == 0 && t.nanos == 0 {
        t.minutes()
    } else {
        t.minutes() + 1
    }
}

/// The minute of its last day at which `event` is over. One that has no length is over in the minute
/// that it starts in.
pub open spec fn over_at(event: CalendarEventBlock) -> int {
    let lasts = event.start.wall_secs < event.end.wall_secs || event.start.wall_secs
        == event.end.wall_secs && event.start.nanos < event.end.nanos;
    if lasts {
        minute_ahead(event.end)
    } else {
        event.end.minutes()
    }
}

/// Whether `event` takes up minute `m` of day `n`, or some of it: it has started by the end of the
/// minute, on that day or before, and is over after the minute starts, on that day or later.
pub open spec fn takes_up(event: CalendarEventBlock, n: int, m: int) -> bool {
    &&& event.start.day() < n || event.start.day() == n && event.start.minutes() <= m
    &&& event.end.day() > n || event.end.day() == n && m < over_at(event)
}

/// Whether some event takes up minute `m` of day `n`.
pub open spec fn is_busy(events: Seq<CalendarEventBlock>, n: int, m: int) -> bool {
    exists|i: int| 0 <= i < events.len() && takes_up(#[trigger] events[i], n, m)
}

/// Whether the minutes of day `n` from `a` to `b` are a free window between `from` and `to`: long
/// enough for a span, free, and with nothing free next to it that could be added.
pub open spec fn is_free_window(
    events: Seq<CalendarEventBlock>,
    n: int,
    from: int,
    to: int,
    a: int,
    b: int,
) -> bool {
    &&& from <= a
    &&& b <= to
    &&& b - a >= SNAP_MIN
    &&& forall|m: int| a <= m < b ==> !#[trigger] is_busy(events, n, m)
    &&& a == from || is_busy(events, n, a - 1)
    &&& b == to || is_busy(events, n, b)
}

/// `minute` rounded up to the picker's grid.
pub open spec fn snapped_up(minute: int) -> int {
    if minute % SNAP_MIN as int == 0 {
        minute
    } else {
        minute + SNAP_MIN - minute % SNAP_MIN as int
    }
}

/// The first minute of day `n` that can be offered: the day's first hour, or, today, what is left
/// of the day.
pub open spec fn first_minute(now: LocalTime, n: int, day_start: int) -> int {
    if now.day() != n {
        day_start
    } else {
        snapped_up(if minute_ahead(now) > day_start { minute_ahead(now) } else { day_start })
    }
}

/// Whether minute `m` of day `n` lies ahead on the wall clock of `now`, or starts just then.
pub open spec fn is_ahead(now: LocalTime, n: int, m: int) -> bool {
    ||| now.wall_secs < local_time::wall_at(n, m)
    ||| now.wall_secs == local_time::wall_at(n, m) && now.nanos == 0
}

/// Whether `slot` is a free window on one of `days`, within the day's hours and not in the past.
pub open spec fn is_free_slot(
    events: Seq<CalendarEventBlock>,
    days: Seq<Date>,
    now: LocalTime,
    day_start: int,
    day_end: int,
    slot: Slot,
) -> bool {
    &&& days.contains(slot.date)
    &&& is_free_window(
        events,
        slot.date.n(),
        first_minute(now, slot.date.n(), day_start),
        day_end,
        slot.from as int,
        slot.to as int,
    )
}

/// Whether the dates are well-formed and follow one another.
pub open spec fn days_ascend(days: Seq<Date>) -> bool {
    &&& forall|i: int| 0 <= i < days.len() ==> (#[trigger] days[i]).wf()
    &&& forall|i: int, j: int|
        0 <= i < j < days.len() ==> (#[trigger] days[i]).n() < (#[trigger] days[j]).n()
}

/// Whether each slot lies before the next, with time between them.
pub open spec fn slots_ascend(slots: Seq<Slot>) -> bool {
    forall|i: int, j: int|
        0 <= i < j < slots.len() ==> (#[trigger] slots[i]).date.n() < (
        #[trigger] slots[j]).date.n() || slots[i].date == slots[j].date && slots[i].to
            < slots[j].from
}

/// Whether some interval of `list` holds `m`.
spec fn in_some(list: Seq<(i32, i32)>, m: int) -> bool {
    exists|i: int| 0 <= i < list.len() && (#[trigger] list[i]).0 <= m < list[i].1
}

/// Whether each interval of `list` is a part of the minutes from `lo` to `hi`.
spec fn within(list: Seq<(i32, i32)>, lo: int, hi: int) -> bool {
    forall|i: int| 0 <= i < list.len() ==> lo <= (#[trigger] list[i]).0 < list[i].1 <= hi
}

/// Whether the intervals stand in the order of their starts.
spec fn starts_ascend(list: Seq<(i32, i32)>) -> bool {
    forall|i: int, j: int|
        0 <= i <= j < list.len() ==> (#[trigger] list[i]).0 <= (#[trigger] list[j]).0
}

/// Whether there is time between each interval and the next.
spec fn apart(list: Seq<(i32, i32)>) -> bool {
    forall|i: int, j: int| 0 <= i < j < list.len() ==> (#[trigger] list[i]).1 < (#[trigger] list[j]).0
}

/// `x`, or the nearer of `lo` and `hi` where it is not between them.
pub fn clamp(x: i32, lo: i32, hi: i32) -> (r: i32)
    requires
        lo <= hi,
    ensures
        r == clamped(x as int, lo as int, hi as int),
{
    if x < lo {
        lo
    } else if x > hi {
        hi
    } else {
        x
    }
}

/// The first minute of the day of `t` that starts at `t` or after it.
fn next_minute(t: &LocalTime) -> (minute: i32)
    ensures
        minute == minute_ahead(*t),
        0 <= minute <= 1440,
{
    if t.wall_secs.checked_rem_euclid(60).unwrap() == 0 && t.nanos == 0 {
        t.minute_of_day()
    } else {
        t.minute_of_day() + 1
    }
}

/// The part of the day's hours that an event takes up.
fn busy_part(event: &CalendarEventBlock, date: Date, day_start: i32, day_end: i32) -> (r: Option<
    (i32, i32),
>)
    requires
        event.wf(),
        date.wf(),
        day_start < day_end,
    ensures
        r matches Some(p) ==> day_start <= p.0 < p.1 <= day_end,
        forall|m: int|
            day_start <= m < day_end ==> (#[trigger] takes_up(*event, date.n(), m) <==> (r matches Some(
                p,
            ) && p.0 <= m < p.1)),
{
    let first = event.start.date_naive().day_number;
    let last = event.end.date_naive().day_number;
    if first > date.day_number || last < date.day_number {
        return None;
    }
    let start_min: i32 = if first < date.day_number {
        day_start
    } else {
        event.start.minute_of_day()
    };
    let lasts = event.start.wall_secs < event.end.wall_secs || event.start.wall_secs
        == event.end.wall_secs && event.start.nanos < event.end.nanos;
    let end_min: i32 = if last > date.day_number {
        day_end
    } else if lasts {
        next_minute(&event.end)
    } else {
        event.end.minute_of_day()
    };
    let s = clamp(start_min, day_start, day_end);
    let e = clamp(end_min, day_start, day_end);
    if e > s {
        Some((s, e))
    } else {
        None
    }
}

/// Puts `part` into `list` behind those that come before it.
fn insert_part(list: &mut Vec<(i32, i32)>, part: (i32, i32), Ghost(lo): Ghost<int>, Ghost(hi): Ghost<int>)
    requires
        starts_ascend(old(list)@),
        within(old(list)@, lo, hi),
        lo <= part.0 < part.1 <= hi,
    ensures
        starts_ascend(final(list)@),
        within(final(list)@, lo, hi),
        forall|m: int| #[trigger]
            in_some(final(list)@, m) <==> in_some(old(list)@, m) || part.0 <= m < part.1,
{
    let mut at: usize = list.len();
    while at > 0 && (part.0 < list[at - 1].0 || part.0 == list[at - 1].0 && part.1 < list[at - 1].1)
        invariant
            at <= list@.len(),
            forall|j: int| at <= j < list@.len() ==> part.0 <= (#[trigger] list@[j]).0,
        decreases at,
    {
        at -= 1;
    }
    let ghost before = list@;
    list.insert(at, part);
    proof {
        let k = at as int;
        assert forall|m: int| #[trigger]
            in_some(list@, m) <==> in_some(before, m) || part.0 <= m < part.1 by {
            if in_some(list@, m) {
                let i = choose|i: int|
                    0 <= i < list@.len() && (#[trigger] list@[i]).0 <= m < list@[i].1;
                if i < k {
                    assert(before[i].0 <= m < before[i].1);
                } else if i > k {
                    assert(before[i - 1].0 <= m < before[i - 1].1);
                }
            }
            if in_some(before, m) {
                let i = choose|i: int|
                    0 <= i < before.len() && (#[trigger] before[i]).0 <= m < before[i].1;
                if i < k {
                    assert(list@[i].0 <= m < list@[i].1);
                } else {
                    assert(list@[i + 1].0 <= m < list@[i + 1].1);
                }
            }
            if part.0 <= m < part.1 {
                assert(list@[k].0 <= m < list@[k].1);
            }
        }
    }
}

/// The parts of the day's hours that events take up, in order.
fn busy_parts(
    events: &Vec<CalendarEventBlock>,
    date: Date,
    day_start: i32,
    day_end: i32,
) -> (list: Vec<(i32, i32)>)
    requires
        calendar::events_wf(events@),
        date.wf(),
        day_start < day_end,
    ensures
        starts_ascend(list@),
        within(list@, day_start as int, day_end as int),
        forall|m: int|
            day_start <= m < day_end ==> (#[trigger] in_some(list@, m) <==> is_busy(
                events@,
                date.n(),
                m,
            )),
{
    let mut list: Vec<(i32, i32)> = Vec::new();
    let mut i: usize = 0;
    while i < events.len()
        invariant
            i <= events@.len(),
            calendar::events_wf(events@),
            date.wf(),
            day_start < day_end,
            starts_ascend(list@),
            within(list@, day_start as int, day_end as int),
            forall|m: int|
                day_start <= m < day_end ==> (#[trigger] in_some(list@, m) <==> is_busy(
                    events@.take(i as int),
                    date.n(),
                    m,
                )),
        decreases events@.len() - i,
    {
        let ghost before = list@;
        let part = busy_part(&events[i], date, day_start, day_end);
        match part {
            Some(p) => {
                insert_part(&mut list, p, Ghost(day_start as int), Ghost(day_end as int));
            },
            None => {},
        }
        proof {
            assert forall|m: int| day_start <= m < day_end implies (#[trigger] in_some(list@, m)
                <==> is_busy(events@.take(i + 1), date.n(), m)) by {
                assert(in_some(before, m) <==> is_busy(events@.take(i as int), date.n(), m));
                assert(takes_up(events@[i as int], date.n(), m) <==> (part matches Some(p) && p.0
                    <= m < p.1));
                lemma_busy_next(events@, i as int, date.n(), m);
            }
        }
        i += 1;
    }
    assert(events@.take(i as int) == events@);
    list
}

proof fn lemma_busy_next(events: Seq<CalendarEventBlock>, i: int, n: int, m: int)
    requires
        0 <= i < events.len(),
    ensures
        is_busy(events.take(i + 1), n, m) <==> is_busy(events.take(i), n, m) || takes_up(
            events[i],
            n,
            m,
        ),
{
    let now = events.take(i + 1);
    let before = events.take(i);
    if is_busy(now, n, m) {
        let k = choose|k: int| 0 <= k < now.len() && takes_up(#[trigger] now[k], n, m);
        if k < i {
            assert(takes_up(before[k], n, m));
        }
    }
    if is_busy(before, n, m) {
        let k = choose|k: int| 0 <= k < before.len() && takes_up(#[trigger] before[k], n, m);
        assert(takes_up(now[k], n, m));
    }
    if takes_up(events[i], n, m) {
        assert(takes_up(now[i], n, m));
    }
}

/// The same minutes, with intervals that overlap or touch made into one.
fn merge_parts(list: &Vec<(i32, i32)>, Ghost(lo): Ghost<int>, Ghost(hi): Ghost<int>) -> (merged: Vec<
    (i32, i32),
>)
    requires
        starts_ascend(list@),
        within(list@, lo, hi),
    ensures
        apart(merged@),
        within(merged@, lo, hi),
        forall|m: int| #[trigger] in_some(merged@, m) <==> in_some(list@, m),
{
    let mut merged: Vec<(i32, i32)> = Vec::new();
    let mut i: usize = 0;
    while i < list.len()
        invariant
            i <= list@.len(),
            starts_ascend(list@),
            within(list@, lo, hi),
            apart(merged@),
            within(merged@, lo, hi),
            i == 0 ==> merged@.len() == 0,
            i > 0 ==> merged@.len() > 0 && merged@.last().0 <= list@[i - 1].0,
            forall|m: int| #[trigger]
                in_some(merged@, m) <==> in_some(list@.take(i as int), m),
        decreases list@.len() - i,
    {
        let (s, e) = list[i];
        let ghost before = merged@;
        let n = merged.len();
        if n > 0 && s <= merged[n - 1].1 {
            let last = merged[n - 1];
            if e > last.1 {
                merged.set(n - 1, (last.0, e));
            }
        } else {
            merged.push((s, e));
        }
        proof {
            if n > 0 && s <= before.last().1 {
                assert(merged@ == before.update(
                    n - 1,
                    (before.last().0, if e > before.last().1 { e } else { before.last().1 }),
                ));
            }
            assert forall|m: int| #[trigger]
                in_some(merged@, m) <==> in_some(list@.take(i + 1), m) by {
                assert(in_some(before, m) <==> in_some(list@.take(i as int), m));
                lemma_in_some_next(list@, i as int, m);
                lemma_in_some_merged(before, (s, e), merged@, m);
            }
        }
        i += 1;
    }
    assert(list@.take(i as int) == list@);
    merged
}

proof fn lemma_in_some_next(list: Seq<(i32, i32)>, i: int, m: int)
    requires
        0 <= i < list.len(),
    ensures
        in_some(list.take(i + 1), m) <==> in_some(list.take(i), m) || list[i].0 <= m < list[i].1,
{
    let now = list.take(i + 1);
    let before = list.take(i);
    if in_some(now, m) {
        let k = choose|k: int| 0 <= k < now.len() && (#[trigger] now[k]).0 <= m < now[k].1;
        if k < i {
            assert(before[k].0 <= m < before[k].1);
        }
    }
    if in_some(before, m) {
        let k = choose|k: int| 0 <= k < before.len() && (#[trigger] before[k]).0 <= m < before[k].1;
        assert(now[k].0 <= m < now[k].1);
    }
    if list[i].0 <= m < list[i].1 {
        assert(now[i].0 <= m < now[i].1);
    }
}

proof fn lemma_in_some_merged(
    before: Seq<(i32, i32)>,
    part: (i32, i32),
    after: Seq<(i32, i32)>,
    m: int,
)
    requires
        before.len() > 0 && part.0 <= before.last().1 ==> after == before.update(
            before.len() - 1,
            (before.last().0, if part.1 > before.last().1 { part.1 } else { before.last().1 }),
        ) && before.last().0 <= part.0,
        !(before.len() > 0 && part.0 <= before.last().1) ==> after == before.push(part),
    ensures
        in_some(after, m) <==> in_some(before, m) || part.0 <= m < part.1,
{
    let last = before.len() - 1;
    if in_some(after, m) {
        let k = choose|k: int| 0 <= k < after.len() && (#[trigger] after[k]).0 <= m < after[k].1;
        if k < last || k == last && (m < before[k].1) {
            assert(before[k].0 <= m < before[k].1);
        }
    }
    if in_some(before, m) {
        let k = choose|k: int| 0 <= k < before.len() && (#[trigger] before[k]).0 <= m < before[k].1;
        assert(after[k].0 <= m < after[k].1);
    }
    if part.0 <= m < part.1 {
        assert(after[after.len() - 1].0 <= m < after[after.len() - 1].1);
    }
}

/// Whether `windows` are the free windows of day `n` between `from` and `to`, in order.
pub open spec fn are_free_windows(
    windows: Seq<(i32, i32)>,
    events: Seq<CalendarEventBlock>,
    n: int,
    from: int,
    to: int,
) -> bool {
    &&& forall|i: int, j: int|
        0 <= i < j < windows.len() ==> (#[trigger] windows[i]).1 < (#[trigger] windows[j]).0
    &&& forall|i: int|
        0 <= i < windows.len() ==> is_free_window(
            events,
            n,
            from,
            to,
            (#[trigger] windows[i]).0 as int,
            windows[i].1 as int,
        )
    &&& forall|a: int, b: int| #[trigger]
        is_free_window(events, n, from, to, a, b) ==> lists_window(windows, a, b)
}

/// Whether the window from `a` to `b` is one of `windows`.
pub open spec fn lists_window(windows: Seq<(i32, i32)>, a: int, b: int) -> bool {
    exists|i: int| 0 <= i < windows.len() && (#[trigger] windows[i]).0 == a && windows[i].1 == b
}

/// The free windows of a day, from minute `from` to the end of the day's hours.
pub fn day_windows(
    events: &Vec<CalendarEventBlock>,
    date: Date,
    day_start: i32,
    day_end: i32,
    from: i32,
) -> (windows: Vec<(i32, i32)>)
    requires
        calendar::events_wf(events@),
        date.wf(),
        0 <= day_start < day_end,
        day_start <= from,
    ensures
        are_free_windows(windows@, events@, date.n(), from as int, day_end as int),
{
    let parts = busy_parts(events, date, day_start, day_end);
    let merged = merge_parts(&parts, Ghost(day_start as int), Ghost(day_end as int));
    let ghost n = date.n();
    let mut windows: Vec<(i32, i32)> = Vec::new();
    let mut cursor: i32 = from;
    let mut k: usize = 0;
    while k < merged.len()
        invariant
            k <= merged@.len(),
            0 <= day_start < day_end,
            day_start <= from,
            apart(merged@),
            within(merged@, day_start as int, day_end as int),
            forall|m: int|
                day_start <= m < day_end ==> (#[trigger] in_some(merged@, m) <==> is_busy(
                    events@,
                    n,
                    m,
                )),
            cursor == reached(merged@, from as int, k as int),
            found(windows@, events@, n, from as int, day_end as int, cursor as int),
        decreases merged@.len() - k,
    {
        let (bs, be) = merged[k];
        proof {
            lemma_next_window(
                merged@,
                events@,
                n,
                day_start as int,
                from as int,
                day_end as int,
                k as int,
                windows@,
            );
        }
        if bs > cursor && bs - cursor >= SNAP_MIN {
            windows.push((cursor, bs));
        }
        if be > cursor {
            cursor = be;
        }
        k += 1;
    }
    proof {
        lemma_next_window(
            merged@,
            events@,
            n,
            day_start as int,
            from as int,
            day_end as int,
            k as int,
            windows@,
        );
    }
    if day_end > cursor && day_end - cursor >= SNAP_MIN {
        windows.push((cursor, day_end));
    }
    proof {
        let c = if day_end > cursor { day_end as int } else { cursor as int };
        assert forall|a: int, b: int| #[trigger]
            is_free_window(events@, n, from as int, day_end as int, a, b) implies lists_window(
            windows@,
            a,
            b,
        ) by {
            assert(a < c);
        }
    }
    windows
}

/// How far the walk over the first `k` intervals has come.
spec fn reached(merged: Seq<(i32, i32)>, from: int, k: int) -> int {
    if k > 0 && merged[k - 1].1 > from {
        merged[k - 1].1 as int
    } else {
        from
    }
}

/// Whether `windows` are the free windows that start before `cursor`, in order.
spec fn are_found(
    windows: Seq<(i32, i32)>,
    events: Seq<CalendarEventBlock>,
    n: int,
    from: int,
    to: int,
    cursor: int,
) -> bool {
    &&& forall|i: int, j: int|
        0 <= i < j < windows.len() ==> (#[trigger] windows[i]).1 < (#[trigger] windows[j]).0
    &&& forall|i: int|
        0 <= i < windows.len() ==> is_free_window(
            events,
            n,
            from,
            to,
            (#[trigger] windows[i]).0 as int,
            windows[i].1 as int,
        )
    &&& forall|a: int, b: int|
        a < cursor && #[trigger] is_free_window(events, n, from, to, a, b) ==> lists_window(
            windows,
            a,
            b,
        )
}

/// Whether `windows` are the free windows that start before `cursor`, in order, and end before it.
spec fn found(
    windows: Seq<(i32, i32)>,
    events: Seq<CalendarEventBlock>,
    n: int,
    from: int,
    to: int,
    cursor: int,
) -> bool {
    &&& are_found(windows, events, n, from, to, cursor)
    &&& forall|i: int| 0 <= i < windows.len() ==> (#[trigger] windows[i]).1 < cursor
}

/// One step of the walk: what lies between `cursor` and the next interval, or the end of the
/// day's hours, is the only free window that starts before the end of that interval.
proof fn lemma_next_window(
    merged: Seq<(i32, i32)>,
    events: Seq<CalendarEventBlock>,
    n: int,
    day_start: int,
    from: int,
    to: int,
    k: int,
    windows: Seq<(i32, i32)>,
)
    requires
        0 <= k <= merged.len(),
        day_start <= from,
        i32::MIN <= from <= i32::MAX,
        i32::MIN <= to <= i32::MAX,
        apart(merged),
        within(merged, day_start, to),
        forall|m: int|
            day_start <= m < to ==> (#[trigger] in_some(merged, m) <==> is_busy(events, n, m)),
        found(windows, events, n, from, to, reached(merged, from, k)),
    ensures
        ({
            let cursor = reached(merged, from, k);
            let bs = if k < merged.len() { merged[k].0 as int } else { to };
            let be = if k < merged.len() { merged[k].1 as int } else { to };
            let next = if be > cursor { be } else { cursor };
            let after = if bs > cursor && bs - cursor >= SNAP_MIN {
                windows.push((cursor as i32, bs as i32))
            } else {
                windows
            };
            &&& k < merged.len() ==> next == reached(merged, from, k + 1) && found(
                after,
                events,
                n,
                from,
                to,
                next,
            )
            &&& k == merged.len() ==> are_found(after, events, n, from, to, next)
        }),
{
    let cursor = reached(merged, from, k);
    let bs = if k < merged.len() { merged[k].0 as int } else { to };
    let be = if k < merged.len() { merged[k].1 as int } else { to };
    let next = if be > cursor { be } else { cursor };
    let after = if bs > cursor && bs - cursor >= SNAP_MIN {
        windows.push((cursor as i32, bs as i32))
    } else {
        windows
    };
    // Nothing is busy between the cursor and the next interval.
    assert forall|m: int| cursor <= m < bs implies !#[trigger] is_busy(events, n, m) by {
        if in_some(merged, m) {
            let i = choose|i: int|
                0 <= i < merged.len() && (#[trigger] merged[i]).0 <= m < merged[i].1;
            if i < k {
                if i < k - 1 {
                    assert(merged[i].1 < merged[k - 1].0);
                }
                assert(merged[i].1 <= merged[k - 1].1);
                assert(merged[k - 1].1 <= cursor);
            } else {
                if i > k {
                    assert(merged[k].1 < merged[i].0);
                }
                assert(merged[i].0 >= bs);
            }
        }
        assert(day_start <= m < to);
        assert(in_some(merged, m) <==> is_busy(events, n, m));
    }
    // The next interval is busy.
    assert forall|m: int| bs <= m < be implies #[trigger] is_busy(events, n, m) by {
        assert(merged[k].0 <= m < merged[k].1);
        assert(in_some(merged, m));
    }
    // The interval before the cursor is busy up to it.
    assert(cursor != from && cursor <= to ==> is_busy(events, n, cursor - 1)) by {
        if cursor != from {
            assert(merged[k - 1].0 <= cursor - 1 < merged[k - 1].1);
            assert(in_some(merged, cursor - 1));
        }
    }
    if bs > cursor && bs - cursor >= SNAP_MIN {
        assert(is_free_window(events, n, from, to, cursor, bs)) by {
            if k < merged.len() {
                assert(is_busy(events, n, bs));
            }
        }
        assert(after[windows.len() as int] == (cursor as i32, bs as i32));
        assert(lists_window(after, cursor, bs));
    }
    assert forall|a: int, b: int|
        a < next && #[trigger] is_free_window(events, n, from, to, a, b) implies lists_window(
        after,
        a,
        b,
    ) by {
        if a < cursor {
            assert(lists_window(windows, a, b));
            let i = choose|i: int|
                0 <= i < windows.len() && (#[trigger] windows[i]).0 == a && windows[i].1 == b;
            assert(after[i].0 == a && after[i].1 == b);
        } else {
            assert(!is_busy(events, n, a));
            assert(a < bs);
            if a > cursor {
                assert(is_busy(events, n, a - 1));
            }
            if b > bs {
                assert(!is_busy(events, n, bs));
            }
            if b < bs {
                assert(is_busy(events, n, b));
            }
        }
    }
}

/// The first minute of a day that can be offered.
pub fn first_minute_of(now: &LocalTime, date: Date, day_start: i32) -> (minute: i32)
    requires
        now.wf(),
        date.wf(),
        0 <= day_start <= i32::MAX - SNAP_MIN,
    ensures
        minute == first_minute(*now, date.n(), day_start as int),
        minute >= day_start,
{
    if now.date_naive() != date {
        return day_start;
    }
    let now_min = next_minute(now);
    let cursor: i32 = if now_min > day_start {
        now_min
    } else {
        day_start
    };
    let rem: i32 = cursor % SNAP_MIN;
    if rem != 0 {
        cursor + (SNAP_MIN - rem)
    } else {
        cursor
    }
}

/// Whether `slots` are the free windows on `days`, all of them and in order.
pub open spec fn lists_free_slots(
    slots: Seq<Slot>,
    events: Seq<CalendarEventBlock>,
    days: Seq<Date>,
    now: LocalTime,
    day_start: int,
    day_end: int,
) -> bool {
    &&& slots_ascend(slots)
    &&& forall|slot: Slot| #[trigger]
        slots.contains(slot) <==> is_free_slot(events, days, now, day_start, day_end, slot)
}

/// The free windows of the given days within the day's hours, without what is past already.
pub fn free_slots(
    events: &Vec<CalendarEventBlock>,
    days: &Vec<Date>,
    day_start: i32,
    day_end: i32,
    now: &LocalTime,
) -> (slots: Vec<Slot>)
    requires
        calendar::events_wf(events@),
        days_ascend(days@),
        now.wf(),
        0 <= day_start < day_end,
        day_start <= i32::MAX - SNAP_MIN,
    ensures
        lists_free_slots(
            slots@,
            events@,
            days@,
            *now,
            day_start as int,
            day_end as int,
        ),
{
    let mut slots: Vec<Slot> = Vec::new();
    let mut i: usize = 0;
    while i < days.len()
        invariant
            i <= days@.len(),
            calendar::events_wf(events@),
            days_ascend(days@),
            now.wf(),
            0 <= day_start < day_end,
            day_start <= i32::MAX - SNAP_MIN,
            slots_ascend(slots@),
            forall|j: int|
                0 <= j < slots@.len() ==> is_free_slot(
                    events@,
                    days@.take(i as int),
                    *now,
                    day_start as int,
                    day_end as int,
                    #[trigger] slots@[j],
                ),
            forall|slot: Slot| #[trigger]
                is_free_slot(
                    events@,
                    days@.take(i as int),
                    *now,
                    day_start as int,
                    day_end as int,
                    slot,
                ) ==> slots@.contains(slot),
        decreases days@.len() - i,
    {
        let date = days[i];
        let from = first_minute_of(now, date, day_start);
        let windows = day_windows(events, date, day_start, day_end, from);
        let ghost earlier = slots@;
        let ghost done = days@.take(i as int);
        let ghost now_done = days@.take(i + 1);
        let mut k: usize = 0;
        while k < windows.len()
            invariant
                k <= windows@.len(),
                slots@.len() == earlier.len() + k,
                forall|j: int| 0 <= j < earlier.len() ==> slots@[j] == #[trigger] earlier[j],
                forall|j: int|
                    0 <= j < k ==> #[trigger] slots@[earlier.len() + j] == (Slot {
                        date,
                        from: windows@[j].0,
                        to: windows@[j].1,
                    }),
            decreases windows@.len() - k,
        {
            let (a, b) = windows[k];
            slots.push(Slot { date, from: a, to: b });
            k += 1;
        }
        proof {
            assert forall|j: int| 0 <= j < slots@.len() implies is_free_slot(
                events@,
                now_done,
                *now,
                day_start as int,
                day_end as int,
                #[trigger] slots@[j],
            ) by {
                if j < earlier.len() {
                    assert(slots@[j] == earlier[j]);
                    let l = choose|l: int| 0 <= l < done.len() && done[l] == earlier[j].date;
                    assert(now_done[l] == earlier[j].date);
                } else {
                    let l = j - earlier.len();
                    assert(slots@[earlier.len() + l].date == date);
                    assert(now_done[i as int] == date);
                    assert(windows@[l].0 == slots@[j].from);
                }
            }
            assert forall|slot: Slot| #[trigger]
                is_free_slot(
                    events@,
                    now_done,
                    *now,
                    day_start as int,
                    day_end as int,
                    slot,
                ) implies slots@.contains(slot) by {
                let l = choose|l: int| 0 <= l < now_done.len() && now_done[l] == slot.date;
                if l < i {
                    assert(done[l] == slot.date);
                    assert(is_free_slot(
                        events@,
                        done,
                        *now,
                        day_start as int,
                        day_end as int,
                        slot,
                    ));
                    assert(earlier.contains(slot));
                    let j = choose|j: int| 0 <= j < earlier.len() && earlier[j] == slot;
                    assert(slots@[j] == slot);
                } else {
                    assert(lists_window(windows@, slot.from as int, slot.to as int));
                    let j = choose|j: int|
                        0 <= j < windows@.len() && (#[trigger] windows@[j]).0 == slot.from
                            && windows@[j].1 == slot.to;
                    assert(slots@[earlier.len() + j] == slot);
                }
            }
            assert(slots_ascend(slots@)) by {
                assert forall|p: int, q: int| 0 <= p < q < slots@.len() implies (
                #[trigger] slots@[p]).date.n() < (#[trigger] slots@[q]).date.n()
                    || slots@[p].date == slots@[q].date && slots@[p].to < slots@[q].from by {
                    let e = earlier.len() as int;
                    if q < e {
                        assert(slots@[p] == earlier[p] && slots@[q] == earlier[q]);
                    } else {
                        assert(slots@[e + (q - e)].date == date);
                        if p < e {
                            assert(slots@[p] == earlier[p]);
                            assert(is_free_slot(
                                events@,
                                done,
                                *now,
                                day_start as int,
                                day_end as int,
                                earlier[p],
                            ));
                            let l = choose|l: int|
                                0 <= l < done.len() && done[l] == earlier[p].date;
                            assert(days@[l].n() < days@[i as int].n());
                        } else {
                            assert(slots@[e + (p - e)].date == date);
                            assert(windows@[p - e].1 < windows@[q - e].0);
                        }
                    }
                }
            }
        }
        i += 1;
    }
    proof {
        assert(days@.take(i as int) == days@);
        assert forall|slot: Slot| #[trigger] slots@.contains(slot) implies is_free_slot(
            events@,
            days@,
            *now,
            day_start as int,
            day_end as int,
            slot,
        ) by {
            let j = choose|j: int| 0 <= j < slots@.len() && slots@[j] == slot;
            assert(is_free_slot(
                events@,
                days@,
                *now,
                day_start as int,
                day_end as int,
                slots@[j],
            ));
        }
    }
    slots
}

/// A free slot takes nothing from an event, lies within the day's hours, and is not in the past.
pub proof fn free_slots_are_free(
    events: Seq<CalendarEventBlock>,
    days: Seq<Date>,
    now: LocalTime,
    day_start: int,
    day_end: int,
    slot: Slot,
    m: int,
)
    requires
        0 <= day_start,
        is_free_slot(events, days, now, day_start, day_end, slot),
        slot.from <= m < slot.to,
    ensures
        !is_busy(events, slot.date.n(), m),
        day_start <= m < day_end,
        slot.date.n() >= now.day() ==> is_ahead(now, slot.date.n(), m),
{
    if slot.date.n() >= now.day() {
        lemma_ahead(now, slot.date.n(), m);
    }
}

/// From `minute_ahead` on, nothing of the day is past; nor is anything of a later day.
proof fn lemma_ahead(now: LocalTime, n: int, m: int)
    requires
        0 <= m,
        n > now.day() || n == now.day() && minute_ahead(now) <= m,
    ensures
        is_ahead(now, n, m),
{
    let secs = now.wall_secs as int;
    let day = secs / 86400;
    let rest = secs % 86400;
    assert(secs == day * 86400 + rest);
    assert(secs % 60 == rest % 60);
    assert(local_time::wall_at(n, m) == (n - local_time::EPOCH_DAY) * 86400 + m * 60);
}

/// All free time is offered: whatever stretch of a day is free, long enough for a span, within
/// the day's hours and not in the past lies in a free slot.
pub proof fn all_free_time_is_offered(
    events: Seq<CalendarEventBlock>,
    days: Seq<Date>,
    now: LocalTime,
    day_start: int,
    day_end: int,
    date: Date,
    a: int,
    b: int,
)
    requires
        days.contains(date),
        i32::MIN <= first_minute(now, date.n(), day_start) <= a,
        b <= day_end <= i32::MAX,
        b - a >= SNAP_MIN,
        forall|m: int| a <= m < b ==> !#[trigger] is_busy(events, date.n(), m),
    ensures
        exists|slot: Slot| #[trigger]
            is_free_slot(events, days, now, day_start, day_end, slot) && slot.date == date
                && slot.from <= a && b <= slot.to,
{
    let from = first_minute(now, date.n(), day_start);
    let a2 = lemma_grow_left(events, date.n(), from, a, b);
    let b2 = lemma_grow_right(events, date.n(), day_end, a2, b);
    let slot = Slot { date, from: a2 as i32, to: b2 as i32 };
    assert(is_free_slot(events, days, now, day_start, day_end, slot));
}

/// The free windows of a day hold all of its free time, and nothing else: no minute of one is taken
/// up, and whatever stretch of the day is free, long enough for a span and within the bounds lies in
/// one.
pub proof fn free_windows_are_the_free_time(
    windows: Seq<(i32, i32)>,
    events: Seq<CalendarEventBlock>,
    n: int,
    from: int,
    to: int,
    i: int,
    m: int,
    a: int,
    b: int,
)
    requires
        are_free_windows(windows, events, n, from, to),
    ensures
        0 <= i < windows.len() && windows[i].0 <= m < windows[i].1 ==> from <= m < to && !is_busy(
            events,
            n,
            m,
        ),
        0 <= i < windows.len() ==> windows[i].1 - windows[i].0 >= 15,
        from <= a && a + 15 <= b && b <= to && (forall|k: int|
            a <= k < b ==> !#[trigger] is_busy(events, n, k)) ==> exists|j: int|
            0 <= j < windows.len() && (#[trigger] windows[j]).0 <= a && b <= windows[j].1,
{
    if from <= a && a + 15 <= b && b <= to && (forall|k: int|
        a <= k < b ==> !#[trigger] is_busy(events, n, k)) {
        let a2 = lemma_grow_left(events, n, from, a, b);
        let b2 = lemma_grow_right(events, n, to, a2, b);
        assert(is_free_window(events, n, from, to, a2, b2));
        let j = choose|j: int|
            0 <= j < windows.len() && (#[trigger] windows[j]).0 == a2 && windows[j].1 == b2;
        assert(windows[j].0 <= a);
    }
}

/// A minute is busy where one of the events takes it up, and without events none is.
pub proof fn each_event_makes_its_minutes_busy(
    events: Seq<CalendarEventBlock>,
    event: CalendarEventBlock,
    n: int,
    m: int,
)
    ensures
        !is_busy(Seq::empty(), n, m),
        is_busy(events.push(event), n, m) <==> is_busy(events, n, m) || takes_up(event, n, m),
{
    let more = events.push(event);
    if is_busy(events, n, m) {
        let i = choose|i: int| 0 <= i < events.len() && takes_up(#[trigger] events[i], n, m);
        assert(takes_up(more[i], n, m));
    }
    if is_busy(more, n, m) {
        let i = choose|i: int| 0 <= i < more.len() && takes_up(#[trigger] more[i], n, m);
        if i < events.len() {
            assert(takes_up(events[i], n, m));
        }
    }
    if takes_up(event, n, m) {
        assert(takes_up(more[events.len() as int], n, m));
    }
}

/// A minute lies ahead exactly where the time at which the clock starts to show it is not before
/// `now`.
pub proof fn minutes_ahead_are_not_before_now(now: LocalTime, n: int, m: int, t: LocalTime)
    requires
        t.offset_secs == now.offset_secs,
        t.nanos == 0,
        t.wall_secs == local_time::wall_at(n, m),
    ensures
        is_ahead(now, n, m) <==> now.instant() <= t.instant(),
{
}

proof fn lemma_grow_left(
    events: Seq<CalendarEventBlock>,
    n: int,
    from: int,
    a: int,
    b: int,
) -> (a2: int)
    requires
        from <= a < b,
        forall|m: int| a <= m < b ==> !#[trigger] is_busy(events, n, m),
    ensures
        from <= a2 <= a,
        forall|m: int| a2 <= m < b ==> !#[trigger] is_busy(events, n, m),
        a2 == from || is_busy(events, n, a2 - 1),
    decreases a - from,
{
    if a == from || is_busy(events, n, a - 1) {
        a
    } else {
        lemma_grow_left(events, n, from, a - 1, b)
    }
}

proof fn lemma_grow_right(
    events: Seq<CalendarEventBlock>,
    n: int,
    to: int,
    a: int,
    b: int,
) -> (b2: int)
    requires
        a < b <= to,
        forall|m: int| a <= m < b ==> !#[trigger] is_busy(events, n, m),
    ensures
        b <= b2 <= to,
        forall|m: int| a <= m < b2 ==> !#[trigger] is_busy(events, n, m),
        b2 == to || is_busy(events, n, b2),
    decreases to - b,
{
    if b == to || is_busy(events, n, b) {
        b
    } else {
        lemma_grow_right(events, n, to, a, b + 1)
    }
}

} // verus!
