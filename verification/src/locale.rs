//! Times and dates in words, the way the user's locale has them.
use vstd::prelude::*;

use crate::date;
use crate::date::Date;
use crate::local_time::LocalTime;
use crate::text;

verus! {

/// What the C library knows of the user's `LC_TIME` locale. An entry that the locale leaves empty
/// is `None`.
#[derive(Debug)]
pub struct Locale {
    /// The format of a time of day.
    pub time_format: Option<String>,
    /// The abbreviated names of the weekdays, from Sunday on.
    pub weekdays: Vec<Option<String>>,
    /// The abbreviated names of the months, from January on.
    pub months: Vec<Option<String>>,
}

/// The format of a time of day that a twelve-hour clock has: with the twelve-hour hour, with the
/// whole twelve-hour time, or with the meridiem.
pub open spec fn is_12h_format(format: Seq<char>) -> bool {
    ||| text::has_pair(format, '%', 'I')
    ||| text::has_pair(format, '%', 'r')
    ||| text::has_pair(format, '%', 'p')
}

/// The hour that a twelve-hour clock shows at hour `hour`.
pub open spec fn hour_12(hour: int) -> int {
    let h = hour % 24;
    if h == 0 {
        12
    } else if h <= 12 {
        h
    } else {
        h - 12
    }
}

/// The meridiem of hour `hour`.
pub open spec fn meridiem(hour: int) -> Seq<char> {
    if hour % 24 < 12 {
        seq!['A', 'M']
    } else {
        seq!['P', 'M']
    }
}

/// The label of hour `hour` on an axis of hours.
pub open spec fn hour_label(clock_24h: bool, hour: int) -> Seq<char> {
    if clock_24h {
        text::two_digits(hour % 24)
    } else {
        text::decimal(hour_12(hour)) + seq![' '] + meridiem(hour)
    }
}

/// The time `minutes` minutes after midnight on a clock with twelve hours, without its meridiem.
pub open spec fn bare_time_12h(minutes: int) -> Seq<char> {
    text::decimal(hour_12(minutes / 60)) + seq![':'] + text::two_digits(minutes % 60)
}

/// The time `minutes` minutes after midnight.
pub open spec fn time_label(clock_24h: bool, minutes: int) -> Seq<char> {
    if clock_24h {
        text::two_digits(minutes / 60) + seq![':'] + text::two_digits(minutes % 60)
    } else {
        bare_time_12h(minutes) + seq![' '] + meridiem(minutes / 60)
    }
}

impl Locale {
    /// Whether there is an entry for each weekday and each month.
    pub open spec fn wf(self) -> bool {
        self.weekdays.len() == 7 && self.months.len() == 12
    }

    /// Whether the locale has a clock with 24 hours.
    pub open spec fn clock_24h(self) -> bool {
        match self.time_format {
            Some(format) => !is_12h_format(format@),
            None => true,
        }
    }

    /// What the locale calls the weekday of day `n`.
    pub open spec fn weekday_name(self, n: int) -> Seq<char> {
        match self.weekdays[date::weekday_of(n)] {
            Some(name) => name@,
            None => date::english_weekday(date::weekday_of(n)),
        }
    }

    /// What the locale calls the month of day `n`.
    pub open spec fn month_name(self, n: int) -> Seq<char> {
        match self.months[date::month_of(n) - 1] {
            Some(name) => name@,
            None => date::english_month(date::month_of(n)),
        }
    }

    /// Day `n` at the head of a column: the weekday and the day of the month.
    pub open spec fn header_label(self, n: int) -> Seq<char> {
        self.weekday_name(n) + seq![' '] + text::decimal(date::day_of_month(n))
    }

    /// Day `n` in short: the month and the day of the month.
    pub open spec fn short_label(self, n: int) -> Seq<char> {
        self.month_name(n) + seq![' '] + text::decimal(date::day_of_month(n))
    }

    /// Day `n` at length: the weekday, the month and the day of the month.
    pub open spec fn long_label(self, n: int) -> Seq<char> {
        self.weekday_name(n) + seq![',', ' '] + self.short_label(n)
    }
}

/// Whether the user's locale prefers a 24-hour clock.
#[must_use]
pub fn uses_24h_clock(locale: &Locale) -> (b: bool)
    ensures
        b == locale.clock_24h(),
{
    match &locale.time_format {
        Some(format) => {
            let chars = text::chars_of(format.as_str());
            !(text::contains_pair(&chars, '%', 'I') || text::contains_pair(&chars, '%', 'r')
                || text::contains_pair(&chars, '%', 'p'))
        },
        None => true,
    }
}

/// The localized abbreviation of the weekday, such as "Mon" or "lun.".
fn weekday_abbrev(locale: &Locale, date: Date) -> (name: String)
    requires
        locale.wf(),
        date.wf(),
    ensures
        name@ == locale.weekday_name(date.n()),
{
    match &locale.weekdays[date.weekday() as usize] {
        Some(name) => name.clone(),
        None => date.english_weekday(),
    }
}

/// The localized abbreviation of the month, such as "Jun" or "juin".
fn month_abbrev(locale: &Locale, date: Date) -> (name: String)
    requires
        locale.wf(),
        date.wf(),
    ensures
        name@ == locale.month_name(date.n()),
{
    match &locale.months[date.month0() as usize] {
        Some(name) => name.clone(),
        None => date.english_month(),
    }
}

/// The hour on a twelve-hour clock, and its meridiem.
pub fn to_12h(hour: u32) -> (r: (u32, &'static str))
    ensures
        r.0 == hour_12(hour as int),
        r.1@ == meridiem(hour as int),
        1 <= r.0 <= 12,
{
    proof {
        reveal_strlit("AM");
        reveal_strlit("PM");
        assert("AM"@ == seq!['A', 'M']);
        assert("PM"@ == seq!['P', 'M']);
    }
    let h: u32 = hour % 24;
    if h == 0 {
        (12, "AM")
    } else if h <= 11 {
        (h, "AM")
    } else if h == 12 {
        (12, "PM")
    } else {
        (h - 12, "PM")
    }
}

/// The label of an hour on the grid's axis, such as "9 AM" or "09".
#[must_use]
pub fn hour_axis_label(locale: &Locale, hour: u32) -> (label: String)
    ensures
        label@ == hour_label(locale.clock_24h(), hour as int),
{
    let mut label = String::new();
    if uses_24h_clock(locale) {
        text::push_two_digits(&mut label, hour % 24);
    } else {
        let (h, ap) = to_12h(hour);
        text::push_decimal(&mut label, h);
        proof {
            reveal_strlit(" ");
        }
        label.append(" ");
        label.append(ap);
    }
    assert(label@ == hour_label(locale.clock_24h(), hour as int));
    label
}

/// The time on a twelve-hour clock without its meridiem, such as "9:00".
pub fn bare_time(t: &LocalTime) -> (label: String)
    ensures
        label@ == bare_time_12h(t.minutes()),
{
    let mut label = String::new();
    proof {
        reveal_strlit(":");
    }
    text::push_decimal(&mut label, to_12h(t.hour()).0);
    label.append(":");
    text::push_two_digits(&mut label, t.minute());
    assert(label@ == bare_time_12h(t.minutes()));
    label
}

/// The time on the locale's clock, such as "9:00 AM" or "09:00".
#[must_use]
pub fn format_time(locale: &Locale, t: &LocalTime) -> (label: String)
    ensures
        label@ == time_label(locale.clock_24h(), t.minutes()),
{
    proof {
        reveal_strlit(":");
        reveal_strlit(" ");
    }
    let mut label = String::new();
    if uses_24h_clock(locale) {
        text::push_two_digits(&mut label, t.hour());
        label.append(":");
        text::push_two_digits(&mut label, t.minute());
    } else {
        label = bare_time(t);
        label.append(" ");
        label.append(to_12h(t.hour()).1);
    }
    assert(label@ == time_label(locale.clock_24h(), t.minutes()));
    label
}

/// The head of a day's column, such as "Mon 16".
#[must_use]
pub fn day_header(locale: &Locale, date: Date) -> (label: String)
    requires
        locale.wf(),
        date.wf(),
    ensures
        label@ == locale.header_label(date.n()),
{
    let mut label = weekday_abbrev(locale, date);
    proof {
        reveal_strlit(" ");
    }
    label.append(" ");
    text::push_decimal(&mut label, date.day());
    assert(label@ == locale.header_label(date.n()));
    label
}

/// A date in short, such as "Jun 16".
#[must_use]
pub fn short_date(locale: &Locale, date: Date) -> (label: String)
    requires
        locale.wf(),
        date.wf(),
    ensures
        label@ == locale.short_label(date.n()),
{
    let mut label = month_abbrev(locale, date);
    proof {
        reveal_strlit(" ");
    }
    label.append(" ");
    text::push_decimal(&mut label, date.day());
    assert(label@ == locale.short_label(date.n()));
    label
}

/// A date at length, such as "Mon, Jun 16".
#[must_use]
pub fn long_date(locale: &Locale, date: Date) -> (label: String)
    requires
        locale.wf(),
        date.wf(),
    ensures
        label@ == locale.long_label(date.n()),
{
    let mut label = weekday_abbrev(locale, date);
    proof {
        reveal_strlit(", ");
    }
    label.append(", ");
    label.append(short_date(locale, date).as_str());
    assert(label@ == locale.long_label(date.n()));
    label
}

} // verus!
