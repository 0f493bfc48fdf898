//! What holds of the calendar and of the clock.
use std::cmp::Ordering;
use vstd::prelude::*;
use vstd::std_specs::cmp::{PartialEqSpec, PartialOrdSpec};

use crate::date;
use crate::date::MAX_DAY;
use crate::local_time;
use crate::local_time::LocalTime;

verus! {

/// How many days month `m` of the year `y` has: thirty days hath September, April, June and
/// November, all the rest have thirty-one, but for February.
pub open spec fn month_length(y: int, m: int) -> int {
    if m == 9 || m == 4 || m == 6 || m == 11 {
        30
    } else if m != 2 {
        31
    } else if y % 400 == 0 || y % 4 == 0 && y % 100 != 0 {
        29
    } else {
        28
    }
}

/// The calendar goes on day by day: each day is followed by the next of its month, the last of a
/// month by the first of the next, and the last of a year by the first of the next. January 1, 1970
/// is where the clock's seconds are counted from.
pub proof fn days_follow_one_another(n: int, y: int, m: int, d: int)
    requires
        date::is_civil(n, y, m, d),
    ensures
        1 <= d <= month_length(y, m),
        d < month_length(y, m) ==> date::is_civil(n + 1, y, m, d + 1),
        d == month_length(y, m) && m < 12 ==> date::is_civil(n + 1, y, m + 1, 1),
        d == month_length(y, m) && m == 12 ==> date::is_civil(n + 1, y + 1, 1, 1),
        date::is_civil(local_time::EPOCH_DAY as int, 1970, 1, 1),
{
    let z = y - 1;
    assert((z + 1) / 4 == z / 4 + (if (z + 1) % 4 == 0 { 1int } else { 0int }));
    assert((z + 1) / 100 == z / 100 + (if (z + 1) % 100 == 0 { 1int } else { 0int }));
    assert((z + 1) / 400 == z / 400 + (if (z + 1) % 400 == 0 { 1int } else { 0int }));
    assert(y % 100 == 0 ==> y % 4 == 0);
    assert(y % 400 == 0 ==> y % 100 == 0);
}

/// The month and the day of the month of a day are those of its date.
pub proof fn months_and_days_are_those_of_the_date(n: int, y: int, m: int, d: int)
    requires
        date::is_civil(n, y, m, d),
    ensures
        date::month_of(n) == m,
        date::day_of_month(n) == d,
{
    assert(date::lies_in_month(n, m));
    assert(date::lies_on_day(n, d));
    date::lemma_month_of(n, m);
    date::lemma_day_of_month(n, d);
}

/// The weekdays follow one another from Sunday to Saturday and start anew; January 1, 1970 was a
/// Thursday.
pub proof fn weekdays_follow_one_another(n: int)
    ensures
        0 <= date::weekday_of(n) <= 6,
        date::weekday_of(n) < 6 ==> date::weekday_of(n + 1) == date::weekday_of(n) + 1,
        date::weekday_of(n) == 6 ==> date::weekday_of(n + 1) == 0,
        date::weekday_of(local_time::EPOCH_DAY as int) == 4,
{
}

/// The weekend is the days that are called Saturday and Sunday.
pub proof fn the_weekend_is_saturday_and_sunday(n: int)
    ensures
        date::is_weekend(n) <==> {
            let name = date::english_weekday(date::weekday_of(n));
            name == seq!['S', 'a', 't'] || name == seq!['S', 'u', 'n']
        },
        date::is_weekend(n) && date::weekday_of(n) != 0 ==> date::is_weekend(n + 1)
            && !date::is_weekend(n - 1),
{
    let name = date::english_weekday(date::weekday_of(n));
    let w = date::weekday_of(n);
    assert(w == 1 ==> name[0] == 'M');
    assert(w == 2 ==> name[0] == 'T');
    assert(w == 3 ==> name[0] == 'W');
    assert(w == 4 ==> name[0] == 'T');
    assert(w == 5 ==> name[0] == 'F');
    assert(seq!['S', 'a', 't'][0] == 'S' && seq!['S', 'u', 'n'][0] == 'S');
}

/// The English names of the weekdays and of the months have three letters, and no two are the same.
pub proof fn english_names_differ(a: int, b: int)
    requires
        a != b,
    ensures
        date::english_weekday(a).len() == 3,
        date::english_month(a).len() == 3,
        0 <= a < 7 && 0 <= b < 7 ==> date::english_weekday(a) != date::english_weekday(b),
        1 <= a <= 12 && 1 <= b <= 12 ==> date::english_month(a) != date::english_month(b),
{
    let (x, y) = (date::english_weekday(a), date::english_weekday(b));
    let (p, q) = (date::english_month(a), date::english_month(b));
    if 0 <= a < 7 && 0 <= b < 7 {
        assert(x[0] != y[0] || x[1] != y[1] || x[2] != y[2]);
    }
    if 1 <= a <= 12 && 1 <= b <= 12 {
        assert(p[0] != q[0] || p[1] != q[1] || p[2] != q[2]);
    }
}

/// The wall clock's seconds go on through the minutes of a day and from day to day, and are counted
/// from the first midnight of January 1, 1970.
pub proof fn wall_clock_seconds_go_on(n: int, m: int)
    ensures
        local_time::wall_at(n, m + 1) == local_time::wall_at(n, m) + 60,
        local_time::wall_at(n + 1, m) == local_time::wall_at(n, m + 24 * 60),
        local_time::wall_at(local_time::EPOCH_DAY as int, 0) == 0,
{
}

/// A time shows minute `m` of day `n` exactly where its wall clock is within that minute.
pub proof fn times_show_the_minute_they_are_in(t: LocalTime, n: int, m: int)
    requires
        0 <= m < 24 * 60,
    ensures
        t.day() == n && t.minutes() == m <==> local_time::wall_at(n, m) <= t.wall_secs
            < local_time::wall_at(n, m + 1),
{
    let secs = t.wall_secs as int;
    let day = secs / 86400;
    let rest = secs % 86400;
    assert(secs == day * 86400 + rest);
    assert(local_time::wall_at(n, m) == (n - local_time::EPOCH_DAY) * 86400 + m * 60);
    if local_time::wall_at(n, m) <= secs < local_time::wall_at(n, m + 1) {
        assert(day == n - local_time::EPOCH_DAY);
    }
}

/// The minutes that a time shows are between midnight and midnight.
pub proof fn minutes_lie_within_the_day(t: LocalTime)
    ensures
        0 <= t.minutes() < 24 * 60,
        local_time::wall_at(t.day(), 0) <= t.wall_secs < local_time::wall_at(t.day() + 1, 0),
{
    let secs = t.wall_secs as int;
    assert(secs == (secs / 86400) * 86400 + secs % 86400);
}

/// Of two times on the same clock the one comes first that the clock shows first.
pub proof fn times_on_one_clock_follow_it(a: LocalTime, b: LocalTime)
    requires
        a.offset_secs == b.offset_secs,
    ensures
        a.instant() < b.instant() <==> a.wall_secs < b.wall_secs || a.wall_secs == b.wall_secs
            && a.nanos < b.nanos,
        a.instant() == b.instant() <==> a.wall_secs == b.wall_secs && a.nanos == b.nanos,
{
}

/// Two times are the same where they are the same second in UTC and the same part of it, and the
/// earlier second in UTC comes first, then the earlier part of it.
pub proof fn times_compare_as_they_follow_one_another(a: LocalTime, b: LocalTime)
    ensures
        ({
            let (x, y) = (a.wall_secs - a.offset_secs, b.wall_secs - b.offset_secs);
            let earlier = x < y || x == y && a.nanos < b.nanos;
            let later = x > y || x == y && a.nanos > b.nanos;
            &&& a.eq_spec(&b) <==> !earlier && !later
            &&& a.partial_cmp_spec(&b) == Some(Ordering::Less) <==> earlier
            &&& a.partial_cmp_spec(&b) == Some(Ordering::Greater) <==> later
            &&& a.partial_cmp_spec(&b) == Some(Ordering::Equal) <==> !earlier && !later
        }),
{
}

/// Two clocks show the same point in time where they are as far apart as they are off one another.
pub proof fn clocks_differ_by_their_offsets(a: LocalTime, b: LocalTime)
    requires
        a.nanos == b.nanos,
    ensures
        a.instant() == b.instant() <==> a.wall_secs - b.wall_secs == a.offset_secs - b.offset_secs,
        a.instant() < b.instant() <==> a.wall_secs - b.wall_secs < a.offset_secs - b.offset_secs,
{
}

/// A minute of a day stands for the second at which the clock starts to show it; the end of the day
/// stands for the next midnight, where a date can name its day, else for the one before; what lies
/// beyond a day stands for its end.
pub proof fn minutes_stand_for_themselves(n: int, m: int)
    ensures
        0 <= m < 24 * 60 ==> local_time::target_wall(n, m) == local_time::wall_at(n, m),
        m >= 24 * 60 && n < MAX_DAY ==> local_time::target_wall(n, m) == local_time::wall_at(
            n + 1,
            0,
        ),
        m >= 24 * 60 && n >= MAX_DAY ==> local_time::target_wall(n, m) == local_time::wall_at(n, 0),
        m < 0 ==> local_time::target_wall(n, m) == local_time::wall_at(n, 0),
{
}

/// What the time zone has for a minute is taken; the current time stands in only where it has
/// nothing.
pub proof fn the_current_time_stands_in_for_skipped_minutes_only(
    found: Option<LocalTime>,
    now: LocalTime,
)
    ensures
        found matches Some(t) ==> local_time::found_or(found, now) == t,
        found is None ==> local_time::found_or(found, now) == now,
{
}

} // verus!
