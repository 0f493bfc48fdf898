//! Points in time, with the wall clock they are read on.
use chrono::{DateTime, FixedOffset, Local, NaiveDate, TimeZone};
use std::cmp::Ordering;
use vstd::prelude::*;

use crate::date::{Date, MAX_DAY, MIN_DAY};
use crate::text;

verus! {

/// Seconds in a day.
pub const DAY_SECS: i64 = 86400;

/// Number of the day on which the wall clock's seconds are counted from 0: January 1, 1970.
pub const EPOCH_DAY: i64 = 719163;

/// A point in time in the user's time zone: what the wall clock shows, and how far that clock is
/// ahead of UTC.
#[derive(Clone, Copy, Debug, Eq)]
pub struct LocalTime {
    /// Seconds on the wall clock since midnight of January 1, 1970.
    pub wall_secs: i64,
    /// Nanoseconds within the second; 1,000,000,000 and more in a leap second.
    pub nanos: u32,
    /// Seconds by which the wall clock is ahead of UTC.
    pub offset_secs: i32,
}

/// Minutes since midnight that a clock shows `secs` seconds after some midnight.
pub open spec fn minute_of_day(secs: int) -> int {
    (secs % DAY_SECS as int) / 60
}

/// Seconds on the wall clock at minute `minute` of day `n`.
pub open spec fn wall_at(n: int, minute: int) -> int {
    (n - EPOCH_DAY) * DAY_SECS + minute * 60
}

impl LocalTime {
    /// Whether the wall clock shows a day that a date can name, and the clock is less than a day
    /// off UTC.
    pub open spec fn wf(self) -> bool {
        &&& MIN_DAY <= self.day() <= MAX_DAY
        &&& -DAY_SECS < self.offset_secs < DAY_SECS
        &&& self.nanos < 2000000000
    }

    /// The number of the day that the wall clock shows.
    pub open spec fn day(self) -> int {
        self.wall_secs as int / DAY_SECS as int + EPOCH_DAY
    }

    /// Minutes since midnight on the wall clock.
    pub open spec fn minutes(self) -> int {
        minute_of_day(self.wall_secs as int)
    }

    /// The place on the time line: seconds in UTC, then nanoseconds, as one number.
    pub open spec fn instant(self) -> int {
        (self.wall_secs - self.offset_secs) * 0x1_0000_0000 + self.nanos
    }

    /// Seconds since the epoch in UTC.
    fn utc_secs(&self) -> (secs: i128)
        ensures
            secs == self.wall_secs - self.offset_secs,
    {
        self.wall_secs as i128 - self.offset_secs as i128
    }

    /// Whether the time is earlier than `other`.
    pub fn is_before(&self, other: &LocalTime) -> (b: bool)
        ensures
            b == (self.instant() < other.instant()),
    {
        let a = self.utc_secs();
        let b = other.utc_secs();
        a < b || (a == b && self.nanos < other.nanos)
    }

    /// The date that the wall clock shows.
    pub fn date_naive(&self) -> (date: Date)
        requires
            self.wf(),
        ensures
            date.n() == self.day(),
            date.wf(),
    {
        let days = self.wall_secs.checked_div_euclid(DAY_SECS).unwrap();
        Date { day_number: (days + EPOCH_DAY) as i32 }
    }

    /// The hour that the wall clock shows, from 0 to 23.
    pub fn hour(&self) -> (h: u32)
        ensures
            h == self.minutes() / 60,
            h < 24,
    {
        let secs = self.wall_secs.checked_rem_euclid(DAY_SECS).unwrap();
        assert((secs / 60) / 60 == secs / 3600);
        (secs / 3600) as u32
    }

    /// The minute that the wall clock shows, from 0 to 59.
    pub fn minute(&self) -> (m: u32)
        ensures
            m == self.minutes() % 60,
            m < 60,
    {
        let secs = self.wall_secs.checked_rem_euclid(DAY_SECS).unwrap();
        (secs / 60 % 60) as u32
    }

    /// Minutes since midnight on the wall clock.
    pub fn minute_of_day(&self) -> (m: i32)
        ensures
            m == self.minutes(),
            0 <= m < 1440,
    {
        self.hour() as i32 * 60 + self.minute() as i32
    }
}

/// Two times are equal where they are the same point in time, whatever the wall clock shows.
impl PartialEq for LocalTime {
    fn eq(&self, other: &LocalTime) -> (b: bool) {
        self.utc_secs() == other.utc_secs() && self.nanos == other.nanos
    }
}

impl vstd::std_specs::cmp::PartialEqSpecImpl for LocalTime {
    open spec fn obeys_eq_spec() -> bool {
        true
    }

    open spec fn eq_spec(&self, other: &LocalTime) -> bool {
        self.instant() == other.instant()
    }
}

/// Times are ordered as they follow one another.
impl PartialOrd for LocalTime {
    fn partial_cmp(&self, other: &LocalTime) -> (o: Option<Ordering>) {
        if self.is_before(other) {
            Some(Ordering::Less)
        } else if other.is_before(self) {
            Some(Ordering::Greater)
        } else {
            Some(Ordering::Equal)
        }
    }
}

impl vstd::std_specs::cmp::PartialOrdSpecImpl for LocalTime {
    open spec fn obeys_partial_cmp_spec() -> bool {
        true
    }

    open spec fn partial_cmp_spec(&self, other: &LocalTime) -> Option<Ordering> {
        if self.instant() < other.instant() {
            Some(Ordering::Less)
        } else if self.instant() > other.instant() {
            Some(Ordering::Greater)
        } else {
            Some(Ordering::Equal)
        }
    }
}

/// The day and the minute of it that minute `minute` of day `n` stands for: the minute is held
/// between the day's first midnight and the next, and the midnight that follows the last day
/// falls back to the one before it.
pub open spec fn target_clock(n: int, minute: int) -> (int, int) {
    if minute <= 0 {
        (n, 0)
    } else if minute < 1440 {
        (n, minute)
    } else if n < MAX_DAY {
        (n + 1, 0)
    } else {
        (n, 0)
    }
}

/// The seconds on the wall clock that minute `minute` of day `n` stands for.
pub open spec fn target_wall(n: int, minute: int) -> int {
    wall_at(target_clock(n, minute).0, target_clock(n, minute).1)
}

/// How far a clock that is `offset` seconds ahead of UTC is off, in words: the sign, hours and
/// minutes, and the seconds where there are some.
pub open spec fn offset_label(offset: int) -> Seq<char> {
    let size = if offset < 0 { -offset } else { offset };
    let sign = if offset < 0 { '-' } else { '+' };
    let hours_minutes = seq![sign] + text::two_digits(size / 3600) + seq![':'] + text::two_digits(
        size / 60 % 60,
    );
    if size % 60 == 0 {
        hours_minutes
    } else {
        hours_minutes + seq![':'] + text::two_digits(size % 60)
    }
}

/// `chrono::Local::now`, with `naive_local`, `timestamp_subsec_nanos` and `local_minus_utc` of the
/// time it gives: some time whose wall clock shows a day that a date can name. Which one it is
/// depends on the moment of the call and on the machine's time zone.
#[verifier::external_body]
fn chrono_now() -> (t: LocalTime)
    ensures
        t.wf(),
{
    let t = Local::now();
    LocalTime {
        wall_secs: t.naive_local().and_utc().timestamp(),
        nanos: t.timestamp_subsec_nanos(),
        offset_secs: t.offset().local_minus_utc(),
    }
}

/// `chrono::NaiveDateTime::and_local_timezone` with `chrono::Local`, and `earliest` of what it
/// gives: a point in time at which the wall clock of the machine's time zone shows that day, hour
/// and minute, or nothing where the clock skips them. Which points in time those are, what is
/// skipped, and which of two is taken where the clock shows a minute twice, depends on the machine
/// and is not said here.
#[verifier::external_body]
fn chrono_earliest_local(day_number: i32, hour: u32, minute: u32) -> (t: Option<LocalTime>)
    requires
        MIN_DAY <= day_number <= MAX_DAY,
        hour < 24,
        minute < 60,
    ensures
        t matches Some(t) ==> t.wf() && t.nanos == 0 && t.wall_secs == wall_at(
            day_number as int,
            hour * 60 + minute,
        ),
{
    let naive = NaiveDate::from_num_days_from_ce_opt(day_number)?.and_hms_opt(hour, minute, 0)?;
    naive.and_local_timezone(Local).earliest().map(|t| LocalTime {
        wall_secs: t.naive_local().and_utc().timestamp(),
        nanos: t.timestamp_subsec_nanos(),
        offset_secs: t.offset().local_minus_utc(),
    })
}

/// `chrono::DateTime::format` with `%Z` on a clock with a fixed offset: the offset in words.
#[verifier::external_body]
fn chrono_zone_name(offset_secs: i32) -> (name: String)
    requires
        -DAY_SECS < offset_secs < DAY_SECS,
    ensures
        name@ == offset_label(offset_secs as int),
{
    let zone = FixedOffset::east_opt(offset_secs).unwrap();
    zone.from_utc_datetime(&DateTime::UNIX_EPOCH.naive_utc()).format("%Z").to_string()
}

/// Whether `t` is a time that reading the machine's clock can give.
pub closed spec fn is_clock_reading(t: LocalTime) -> bool {
    call_ensures(chrono_now, (), t)
}

/// A reading of the clock shows a day that a date can name.
pub proof fn clock_readings_are_well_formed(t: LocalTime)
    requires
        is_clock_reading(t),
    ensures
        t.wf(),
{
}

/// A reading of the clock is one that the machine's clock gave.
proof fn clock_readings_come_from_the_clock(t: LocalTime)
    ensures
        is_clock_reading(t) <==> call_ensures(chrono_now, (), t),
{
}

/// What `read` gives.
fn read_once<F: Fn() -> LocalTime>(read: F) -> (t: LocalTime)
    requires
        call_requires(read, ()),
    ensures
        call_ensures(read, (), t),
{
    read()
}

/// The current time.
pub fn now() -> (t: LocalTime)
    ensures
        t.wf(),
        is_clock_reading(t),
{
    let t = read_once(chrono_now);
    proof {
        clock_readings_come_from_the_clock(t);
    }
    t
}

/// The name of the zone of `t` where the system has no better one: its offset from UTC.
pub fn zone_name(t: &LocalTime) -> (name: String)
    requires
        t.wf(),
    ensures
        name@ == offset_label(t.offset_secs as int),
{
    chrono_zone_name(t.offset_secs)
}

/// The date, the hour and the minute that the wall clock shows at minute `minute_of_day` of `date`,
/// with the end of the day taken as the next midnight.
pub fn clock_at(date: Date, minute_of_day: i32) -> (clock: (Date, u32, u32))
    requires
        date.wf(),
    ensures
        clock.0.wf(),
        clock.1 < 24,
        clock.2 < 60,
        (clock.0.n(), clock.1 * 60 + clock.2) == target_clock(date.n(), minute_of_day as int),
        wall_at(clock.0.n(), clock.1 * 60 + clock.2) == target_wall(
            date.n(),
            minute_of_day as int,
        ),
{
    let mins: i32 = if minute_of_day < 0 {
        0
    } else if minute_of_day > 1440 {
        1440
    } else {
        minute_of_day
    };
    if mins == 1440 {
        let next = match date.succ_opt() {
            Some(next) => next,
            None => date,
        };
        (next, 0, 0)
    } else {
        (date, (mins / 60) as u32, (mins % 60) as u32)
    }
}

/// Whether `found` can be what the machine's time zone answers for minute `minute` of `date`: a time
/// at which the wall clock shows it, or nothing where the clock skips it.
pub open spec fn answers(found: Option<LocalTime>, date: Date, minute: int) -> bool {
    found matches Some(t) ==> t.wf() && t.nanos == 0 && t.wall_secs == target_wall(
        date.n(),
        minute,
    )
}

/// Whether `found` is something that asking the machine's time zone for minute `minute` of day `n`
/// can give.
pub closed spec fn zone_gives(n: int, minute: int, found: Option<LocalTime>) -> bool {
    call_ensures(
        chrono_earliest_local,
        (n as i32, (minute / 60) as u32, (minute % 60) as u32),
        found,
    )
}

/// Whether `found` is something that asking the machine's time zone for the time that minute
/// `minute` of `date` stands for can give.
pub open spec fn is_zone_answer(found: Option<LocalTime>, date: Date, minute: int) -> bool {
    let target = target_clock(date.n(), minute);
    zone_gives(target.0, target.1, found)
}

/// What the time zone gives for a minute is a time at which the wall clock shows it, or nothing.
pub proof fn zone_answers_show_the_minute(found: Option<LocalTime>, date: Date, minute: int)
    requires
        date.wf(),
        is_zone_answer(found, date, minute),
    ensures
        answers(found, date, minute),
{
}

/// What the time zone gives for a minute of a day is what the machine has for its hour and its
/// minute.
proof fn zone_answers_come_from_the_zone(
    n: i32,
    hour: u32,
    minute: u32,
    found: Option<LocalTime>,
)
    requires
        hour < 24,
        minute < 60,
    ensures
        zone_gives(n as int, hour * 60 + minute, found) <==> call_ensures(
            chrono_earliest_local,
            (n, hour, minute),
            found,
        ),
{
    assert((hour * 60 + minute) / 60 == hour);
    assert((hour * 60 + minute) % 60 == minute);
}

/// What `zone` gives for an hour and a minute of a day.
fn ask_once<F: Fn(i32, u32, u32) -> Option<LocalTime>>(
    zone: F,
    day_number: i32,
    hour: u32,
    minute: u32,
) -> (found: Option<LocalTime>)
    requires
        call_requires(zone, (day_number, hour, minute)),
    ensures
        call_ensures(zone, (day_number, hour, minute), found),
{
    zone(day_number, hour, minute)
}

/// The time that was found, or `now` where none was.
pub open spec fn found_or(found: Option<LocalTime>, now: LocalTime) -> LocalTime {
    match found {
        Some(t) => t,
        None => now,
    }
}

/// The time at which the wall clock shows minute `minute_of_day` of `date`, with the end of the day
/// taken as the next midnight; `None` where the clock skips it.
pub fn resolve_local(date: Date, minute_of_day: i32) -> (t: Option<LocalTime>)
    requires
        date.wf(),
    ensures
        answers(t, date, minute_of_day as int),
        is_zone_answer(t, date, minute_of_day as int),
{
    let (day, hour, minute) = clock_at(date, minute_of_day);
    let found = ask_once(chrono_earliest_local, day.day_number, hour, minute);
    proof {
        zone_answers_come_from_the_zone(day.day_number, hour, minute, found);
    }
    found
}

/// The time that was found, or the current time where none was.
pub fn or_now(found: Option<LocalTime>, now: LocalTime) -> (t: LocalTime)
    ensures
        t == found_or(found, now),
{
    match found {
        Some(t) => t,
        None => now,
    }
}

/// Whether `t` can stand for minute `minute` of `date`: the wall clock shows it at `t`, or `t` is
/// the current time, `now`, which stands in where the clock skips the minute.
pub open spec fn stands_for(t: LocalTime, date: Date, minute: int, now: LocalTime) -> bool {
    exists|found: Option<LocalTime>| #[trigger]
        is_zone_answer(found, date, minute) && answers(found, date, minute) && t == found_or(
            found,
            now,
        )
}

/// The time at which the wall clock shows minute `minute_of_day` of `date`, with the end of the day
/// taken as the next midnight, or `now` where the clock skips it. Which of the two it is depends on
/// the machine's time zone.
pub fn local_dt(date: Date, minute_of_day: i32, now: LocalTime) -> (t: LocalTime)
    requires
        date.wf(),
        now.wf(),
    ensures
        t.wf(),
        stands_for(t, date, minute_of_day as int, now),
{
    let found = resolve_local(date, minute_of_day);
    assert(is_zone_answer(found, date, minute_of_day as int));
    or_now(found, now)
}

} // verus!
