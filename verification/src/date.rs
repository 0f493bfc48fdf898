//! Calendar dates, numbered by the day.
use chrono::{Datelike, Days, NaiveDate};
use vstd::prelude::*;

verus! {

/// Number of the first day that a date can name: January 1 of the year -262143.
pub const MIN_DAY: i32 = -95746129;

/// Number of the last day that a date can name: December 31 of the year 262142.
pub const MAX_DAY: i32 = 95745399;

/// A date of the proleptic Gregorian calendar, as the number of its day: January 1 of the year 1
/// is day 1, the day before it is day 0, and so on in both directions.
#[derive(Clone, Copy, Debug, PartialEq, Eq, Structural)]
pub struct Date {
    pub day_number: i32,
}

/// Whether the year `y` has a February 29.
pub open spec fn is_leap_year(y: int) -> bool {
    y % 4 == 0 && (y % 100 != 0 || y % 400 == 0)
}

/// How many days lie between the start of the year 1 and the start of the year `y`; negative
/// for the years before.
pub open spec fn days_before_year(y: int) -> int {
    365 * (y - 1) + (y - 1) / 4 - (y - 1) / 100 + (y - 1) / 400
}

/// How many days of the year `y` lie before its month `m`, for `m` from 1 to 12.
pub open spec fn days_before_month(y: int, m: int) -> int {
    let leap: int = if is_leap_year(y) { 1 } else { 0 };
    if m <= 1 {
        0
    } else if m == 2 {
        31
    } else if m == 3 {
        59 + leap
    } else if m == 4 {
        90 + leap
    } else if m == 5 {
        120 + leap
    } else if m == 6 {
        151 + leap
    } else if m == 7 {
        181 + leap
    } else if m == 8 {
        212 + leap
    } else if m == 9 {
        243 + leap
    } else if m == 10 {
        273 + leap
    } else if m == 11 {
        304 + leap
    } else if m == 12 {
        334 + leap
    } else {
        365 + leap
    }
}

/// Whether day `n` is day `d` of month `m` of the year `y`.
pub open spec fn is_civil(n: int, y: int, m: int, d: int) -> bool {
    &&& 1 <= m <= 12
    &&& 1 <= d <= days_before_month(y, m + 1) - days_before_month(y, m)
    &&& n == days_before_year(y) + days_before_month(y, m) + d
}

/// Whether day `n` lies in month `m` of some year.
pub open spec fn lies_in_month(n: int, m: int) -> bool {
    exists|y: int, d: int| is_civil(n, y, m, d)
}

/// Whether day `n` is day `d` of some month.
pub open spec fn lies_on_day(n: int, d: int) -> bool {
    exists|y: int, m: int| is_civil(n, y, m, d)
}

/// The month of day `n`, from 1 to 12.
pub open spec fn month_of(n: int) -> int {
    choose|m: int| lies_in_month(n, m)
}

/// The day of the month of day `n`, from 1 to 31.
pub open spec fn day_of_month(n: int) -> int {
    choose|d: int| lies_on_day(n, d)
}

/// The weekday of day `n`, counted from 0 for Sunday.
pub open spec fn weekday_of(n: int) -> int {
    n % 7
}

/// Whether day `n` is a Saturday or a Sunday.
pub open spec fn is_weekend(n: int) -> bool {
    weekday_of(n) == 6 || weekday_of(n) == 0
}

/// The three letters by which the calendar's English calls weekday `w`, counted from Sunday.
pub open spec fn english_weekday(w: int) -> Seq<char> {
    if w == 0 {
        seq!['S', 'u', 'n']
    } else if w == 1 {
        seq!['M', 'o', 'n']
    } else if w == 2 {
        seq!['T', 'u', 'e']
    } else if w == 3 {
        seq!['W', 'e', 'd']
    } else if w == 4 {
        seq!['T', 'h', 'u']
    } else if w == 5 {
        seq!['F', 'r', 'i']
    } else {
        seq!['S', 'a', 't']
    }
}

/// The three letters by which the calendar's English calls month `m`, from 1 to 12.
pub open spec fn english_month(m: int) -> Seq<char> {
    if m == 1 {
        seq!['J', 'a', 'n']
    } else if m == 2 {
        seq!['F', 'e', 'b']
    } else if m == 3 {
        seq!['M', 'a', 'r']
    } else if m == 4 {
        seq!['A', 'p', 'r']
    } else if m == 5 {
        seq!['M', 'a', 'y']
    } else if m == 6 {
        seq!['J', 'u', 'n']
    } else if m == 7 {
        seq!['J', 'u', 'l']
    } else if m == 8 {
        seq!['A', 'u', 'g']
    } else if m == 9 {
        seq!['S', 'e', 'p']
    } else if m == 10 {
        seq!['O', 'c', 't']
    } else if m == 11 {
        seq!['N', 'o', 'v']
    } else {
        seq!['D', 'e', 'c']
    }
}

impl Date {
    /// Whether the date lies in the range of days that a date can name.
    pub open spec fn wf(self) -> bool {
        MIN_DAY <= self.day_number <= MAX_DAY
    }

    /// The number of the date's day.
    pub open spec fn n(self) -> int {
        self.day_number as int
    }

    /// The weekday, counted from 0 for Sunday.
    pub fn weekday(&self) -> (w: u32)
        requires
            self.wf(),
        ensures
            w == weekday_of(self.n()),
            w < 7,
    {
        chrono_weekday(self.day_number)
    }

    /// Whether the date is a Saturday or a Sunday.
    pub fn is_weekend(&self) -> (b: bool)
        requires
            self.wf(),
        ensures
            b == is_weekend(self.n()),
    {
        let w = self.weekday();
        w == 6 || w == 0
    }

    /// The month, counted from 0 for January.
    pub fn month0(&self) -> (m: u32)
        requires
            self.wf(),
        ensures
            m + 1 == month_of(self.n()),
            m < 12,
    {
        let m = chrono_month0(self.day_number);
        proof {
            lemma_month_of(self.n(), m + 1);
        }
        m
    }

    /// The day of the month, counted from 1.
    pub fn day(&self) -> (d: u32)
        requires
            self.wf(),
        ensures
            d == day_of_month(self.n()),
            1 <= d <= 31,
    {
        let d = chrono_day(self.day_number);
        proof {
            lemma_day_of_month(self.n(), d as int);
        }
        d
    }

    /// The date `days` days later, if a date can name it.
    pub fn checked_add_days(self, days: u64) -> (later: Option<Date>)
        requires
            self.wf(),
        ensures
            later is Some <==> self.n() + days <= MAX_DAY,
            later matches Some(d) ==> d.n() == self.n() + days && d.wf(),
    {
        match chrono_checked_add_days(self.day_number, days) {
            Some(day_number) => Some(Date { day_number }),
            None => None,
        }
    }

    /// The next date, if a date can name it.
    pub fn succ_opt(self) -> (next: Option<Date>)
        requires
            self.wf(),
        ensures
            next is Some <==> self.n() < MAX_DAY,
            next matches Some(d) ==> d.n() == self.n() + 1 && d.wf(),
    {
        match chrono_succ(self.day_number) {
            Some(day_number) => Some(Date { day_number }),
            None => None,
        }
    }

    /// The English abbreviation of the weekday.
    pub fn english_weekday(&self) -> (name: String)
        requires
            self.wf(),
        ensures
            name@ == english_weekday(weekday_of(self.n())),
    {
        chrono_short_weekday(self.day_number)
    }

    /// The English abbreviation of the month.
    pub fn english_month(&self) -> (name: String)
        requires
            self.wf(),
        ensures
            name@ == english_month(month_of(self.n())),
    {
        chrono_short_month(self.day_number)
    }
}

/// `chrono::NaiveDate::weekday`, for the day that `from_num_days_from_ce_opt` makes of a number,
/// and `Weekday::num_days_from_sunday` of what it gives: the weekdays follow one another, and
/// January 1 of the year 1 was a Monday.
#[verifier::external_body]
fn chrono_weekday(day_number: i32) -> (w: u32)
    requires
        MIN_DAY <= day_number <= MAX_DAY,
    ensures
        w == weekday_of(day_number as int),
{
    NaiveDate::from_num_days_from_ce_opt(day_number).unwrap().weekday().num_days_from_sunday()
}

/// `chrono::NaiveDate::month0`: the month of the day in the Gregorian calendar, counted from 0.
#[verifier::external_body]
fn chrono_month0(day_number: i32) -> (m: u32)
    requires
        MIN_DAY <= day_number <= MAX_DAY,
    ensures
        lies_in_month(day_number as int, m + 1),
{
    NaiveDate::from_num_days_from_ce_opt(day_number).unwrap().month0()
}

/// `chrono::NaiveDate::day`: the day of the month in the Gregorian calendar, counted from 1.
#[verifier::external_body]
fn chrono_day(day_number: i32) -> (d: u32)
    requires
        MIN_DAY <= day_number <= MAX_DAY,
    ensures
        lies_on_day(day_number as int, d as int),
{
    NaiveDate::from_num_days_from_ce_opt(day_number).unwrap().day()
}

/// `chrono::NaiveDate::checked_add_days`: the day that many days later, or nothing where that
/// is past the last day.
#[verifier::external_body]
fn chrono_checked_add_days(day_number: i32, days: u64) -> (later: Option<i32>)
    requires
        MIN_DAY <= day_number <= MAX_DAY,
    ensures
        later is Some <==> day_number + days <= MAX_DAY,
        later matches Some(n) ==> n == day_number + days,
{
    let date = NaiveDate::from_num_days_from_ce_opt(day_number).unwrap();
    date.checked_add_days(Days::new(days)).map(|d| d.num_days_from_ce())
}

/// `chrono::NaiveDate::succ_opt`: the next day, or nothing after the last day.
#[verifier::external_body]
fn chrono_succ(day_number: i32) -> (next: Option<i32>)
    requires
        MIN_DAY <= day_number <= MAX_DAY,
    ensures
        next is Some <==> day_number < MAX_DAY,
        next matches Some(n) ==> n == day_number + 1,
{
    let date = NaiveDate::from_num_days_from_ce_opt(day_number).unwrap();
    date.succ_opt().map(|d| d.num_days_from_ce())
}

/// `chrono::NaiveDate::format` with `%a`, whatever the locale: the weekday's English abbreviation.
#[verifier::external_body]
fn chrono_short_weekday(day_number: i32) -> (name: String)
    requires
        MIN_DAY <= day_number <= MAX_DAY,
    ensures
        name@ == english_weekday(weekday_of(day_number as int)),
{
    NaiveDate::from_num_days_from_ce_opt(day_number).unwrap().format("%a").to_string()
}

/// `chrono::NaiveDate::format` with `%b`, whatever the locale: the month's English abbreviation.
#[verifier::external_body]
fn chrono_short_month(day_number: i32) -> (name: String)
    requires
        MIN_DAY <= day_number <= MAX_DAY,
    ensures
        name@ == english_month(month_of(day_number as int)),
{
    NaiveDate::from_num_days_from_ce_opt(day_number).unwrap().format("%b").to_string()
}

/// A year is 365 days long, or 366 where it is a leap year.
proof fn lemma_year_length(y: int)
    ensures
        days_before_year(y + 1) == days_before_year(y) + days_before_month(y, 13),
{
    let z = y - 1;
    assert((z + 1) / 4 == z / 4 + (if (z + 1) % 4 == 0 { 1int } else { 0int }));
    assert((z + 1) / 100 == z / 100 + (if (z + 1) % 100 == 0 { 1int } else { 0int }));
    assert((z + 1) / 400 == z / 400 + (if (z + 1) % 400 == 0 { 1int } else { 0int }));
    assert(y % 100 == 0 ==> y % 4 == 0);
    assert(y % 400 == 0 ==> y % 100 == 0);
}

/// The years follow one another.
proof fn lemma_years_ascend(y1: int, y2: int)
    requires
        y1 < y2,
    ensures
        days_before_year(y1) + days_before_month(y1, 13) <= days_before_year(y2),
    decreases y2 - y1,
{
    lemma_year_length(y2 - 1);
    if y1 < y2 - 1 {
        lemma_years_ascend(y1, y2 - 1);
    } else {
        assert(y1 == y2 - 1);
    }
}

/// No day has two dates: year, month and day of the month of a day are determined.
pub proof fn civil_date_is_unique(
    n: int,
    y1: int,
    m1: int,
    d1: int,
    y2: int,
    m2: int,
    d2: int,
)
    requires
        is_civil(n, y1, m1, d1),
        is_civil(n, y2, m2, d2),
    ensures
        y1 == y2,
        m1 == m2,
        d1 == d2,
{
    if y1 < y2 {
        lemma_years_ascend(y1, y2);
    }
    if y2 < y1 {
        lemma_years_ascend(y2, y1);
    }
}

pub proof fn lemma_month_of(n: int, m: int)
    requires
        lies_in_month(n, m),
    ensures
        month_of(n) == m,
        1 <= m <= 12,
{
    let (y, d) = choose|y: int, d: int| is_civil(n, y, m, d);
    let other = month_of(n);
    assert(lies_in_month(n, other));
    let (y2, d2) = choose|y: int, d: int| is_civil(n, y, other, d);
    civil_date_is_unique(n, y, m, d, y2, other, d2);
}

pub proof fn lemma_day_of_month(n: int, d: int)
    requires
        lies_on_day(n, d),
    ensures
        day_of_month(n) == d,
        1 <= d <= 31,
{
    let (y, m) = choose|y: int, m: int| is_civil(n, y, m, d);
    let other = day_of_month(n);
    assert(lies_on_day(n, other));
    let (y2, m2) = choose|y: int, m: int| is_civil(n, y, m, other);
    civil_date_is_unique(n, y, m, d, y2, m2, other);
}

} // verus!
