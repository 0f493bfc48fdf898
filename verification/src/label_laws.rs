//! What the words for times and dates say.
use vstd::prelude::*;

use crate::date;
use crate::date_laws;
use crate::local_time;
use crate::locale;
use crate::locale::Locale;
use crate::scheduling;
use crate::text;
use crate::window;

verus! {

/// The number that a digit stands for.
pub open spec fn digit_value(c: char) -> int {
    c as int - '0' as int
}

/// The number that a text of digits stands for.
pub open spec fn value(digits: Seq<char>) -> int
    decreases digits.len(),
{
    if digits.len() == 0 {
        0
    } else {
        value(digits.drop_last()) * 10 + digit_value(digits.last())
    }
}

/// Whether a text is made of digits only, and has one at least.
pub open spec fn is_number(digits: Seq<char>) -> bool {
    digits.len() > 0 && forall|i: int|
        0 <= i < digits.len() ==> 0 <= digit_value(#[trigger] digits[i]) <= 9
}

/// A number up to 99 in two digits reads as itself.
pub proof fn two_digits_read_as_the_number(n: int)
    requires
        0 <= n < 100,
    ensures
        text::two_digits(n).len() == 2,
        is_number(text::two_digits(n)),
        value(text::two_digits(n)) == n,
{
    reveal_with_fuel(value, 3);
    let d = text::two_digits(n);
    assert(d.drop_last() == seq![d[0]]);
    assert(seq![d[0]].drop_last() == Seq::<char>::empty());
}

/// A number up to 99 without a leading zero reads as itself, and has none.
pub proof fn decimals_read_as_the_number(n: int)
    requires
        0 <= n < 100,
    ensures
        is_number(text::decimal(n)),
        value(text::decimal(n)) == n,
        text::decimal(n).len() == 1 || text::decimal(n)[0] != '0',
        text::decimal(n).len() <= 2,
{
    reveal_with_fuel(value, 3);
    two_digits_read_as_the_number(n);
    if n < 10 {
        let d = text::decimal(n);
        assert(d.drop_last() == Seq::<char>::empty());
    }
}

/// Where the parts of a joined text start: the first at its start, each other one behind the part
/// before it and the separator.
pub open spec fn part_start(parts: Seq<Seq<char>>, separator: Seq<char>, k: int) -> int
    decreases k,
{
    if k <= 0 {
        0
    } else {
        part_start(parts, separator, k - 1) + parts[k - 1].len() + separator.len()
    }
}

/// A joined text is its parts, one after the other, with the separator between each two, and
/// nothing else.
pub proof fn joined_texts_hold_their_parts(parts: Seq<Seq<char>>, separator: Seq<char>, k: int)
    requires
        0 <= k < parts.len(),
    ensures
        ({
            let all = text::joined(parts, separator);
            let at = part_start(parts, separator, k);
            let last = parts.len() - 1;
            &&& 0 <= at
            &&& at + parts[k].len() <= all.len()
            &&& all.subrange(at, at + parts[k].len()) == parts[k]
            &&& k > 0 ==> at >= separator.len() && all.subrange(at - separator.len(), at)
                == separator
            &&& all.len() == part_start(parts, separator, last) + parts[last].len()
        }),
    decreases parts.len(),
{
    let all = text::joined(parts, separator);
    let n = parts.len() as int;
    if n == 1 {
        assert(all.subrange(0, all.len() as int) == parts[0]);
    } else {
        let front = parts.drop_last();
        let before = text::joined(front, separator);
        lemma_part_start(parts, front, separator, n - 2);
        joined_texts_hold_their_parts(front, separator, n - 2);
        assert(all == before + separator + parts.last());
        assert(front[n - 2] == parts[n - 2]);
        assert(part_start(parts, separator, n - 1) == before.len() + separator.len());
        if k < n - 1 {
            lemma_part_start(parts, front, separator, k);
            joined_texts_hold_their_parts(front, separator, k);
            let at = part_start(parts, separator, k);
            assert(front[k] == parts[k]);
            assert(all.subrange(at, at + parts[k].len()) == before.subrange(
                at,
                at + parts[k].len(),
            ));
            if k > 0 {
                assert(all.subrange(at - separator.len(), at) == before.subrange(
                    at - separator.len(),
                    at,
                ));
            }
        } else {
            let at = part_start(parts, separator, k);
            assert(all.subrange(at, at + parts[k].len()) == parts[k]);
            assert(all.subrange(at - separator.len(), at) == separator);
        }
    }
}

proof fn lemma_part_start(
    parts: Seq<Seq<char>>,
    front: Seq<Seq<char>>,
    separator: Seq<char>,
    k: int,
)
    requires
        parts.len() > 0,
        front == parts.drop_last(),
        0 <= k < front.len(),
    ensures
        part_start(parts, separator, k) == part_start(front, separator, k),
        part_start(parts, separator, k) >= 0,
    decreases k,
{
    if k > 0 {
        lemma_part_start(parts, front, separator, k - 1);
        assert(front[k - 1] == parts[k - 1]);
    }
}

/// Whether `label` says hour `hour` of the day on a twelve-hour clock: a number from 1 to 12, then
/// what stands in `middle`, then AM before noon and PM from noon on.
pub open spec fn says_hour_12(label: Seq<char>, middle: Seq<char>, hour: int) -> bool {
    exists|digits: Seq<char>, ap: Seq<char>| #[trigger]
        are_hour_parts(label, digits, middle, ap, hour)
}

/// Whether the parts of a label of an hour on a twelve-hour clock say hour `hour` of the day.
pub open spec fn are_hour_parts(
    label: Seq<char>,
    digits: Seq<char>,
    middle: Seq<char>,
    ap: Seq<char>,
    hour: int,
) -> bool {
    &&& label == digits + middle + ap
    &&& is_number(digits) && 1 <= value(digits) <= 12 && digits[0] != '0'
    &&& ap == seq!['A', 'M'] && value(digits) % 12 == hour || ap == seq!['P', 'M'] && value(digits)
        % 12 + 12 == hour
}

proof fn lemma_hour_12(hour: int)
    requires
        0 <= hour,
    ensures
        1 <= locale::hour_12(hour) <= 12,
        is_number(text::decimal(locale::hour_12(hour))),
        value(text::decimal(locale::hour_12(hour))) == locale::hour_12(hour),
        text::decimal(locale::hour_12(hour))[0] != '0',
        locale::meridiem(hour) == seq!['A', 'M'] && locale::hour_12(hour) % 12 == hour % 24
            || locale::meridiem(hour) == seq!['P', 'M'] && locale::hour_12(hour) % 12 + 12 == hour
            % 24,
{
    decimals_read_as_the_number(locale::hour_12(hour));
    let d = text::decimal(locale::hour_12(hour));
    if d.len() == 1 {
        reveal_with_fuel(value, 2);
        assert(d.drop_last() == Seq::<char>::empty());
    }
}

/// The label of an hour says which hour it is.
pub proof fn hour_labels_say_the_hour(clock_24h: bool, hour: int)
    requires
        0 <= hour,
    ensures
        ({
            let label = locale::hour_label(clock_24h, hour);
            if clock_24h {
                label.len() == 2 && is_number(label) && value(label) == hour % 24
            } else {
                says_hour_12(label, seq![' '], hour % 24)
            }
        }),
{
    let label = locale::hour_label(clock_24h, hour);
    if clock_24h {
        two_digits_read_as_the_number(hour % 24);
    } else {
        lemma_hour_12(hour);
        assert(are_hour_parts(
            label,
            text::decimal(locale::hour_12(hour)),
            seq![' '],
            locale::meridiem(hour),
            hour % 24,
        ));
    }
}

/// The label of a time says which time it is: on a 24-hour clock the hour and the minute in two
/// digits each, else the hour of a twelve-hour clock, the minute in two digits, and AM or PM.
pub proof fn time_labels_say_the_time(clock_24h: bool, minutes: int)
    requires
        0 <= minutes < 24 * 60,
    ensures
        ({
            let label = locale::time_label(clock_24h, minutes);
            if clock_24h {
                &&& label.len() == 5 && label[2] == ':'
                &&& is_number(label.take(2)) && is_number(label.skip(3))
                &&& value(label.take(2)) * 60 + value(label.skip(3)) == minutes
                &&& value(label.skip(3)) < 60
            } else {
                exists|mm: Seq<char>|
                    mm.len() == 2 && is_number(mm) && value(mm) == minutes % 60
                        && #[trigger] says_hour_12(
                        label,
                        seq![':'] + mm + seq![' '],
                        minutes / 60,
                    )
            }
        }),
{
    let label = locale::time_label(clock_24h, minutes);
    two_digits_read_as_the_number(minutes / 60);
    two_digits_read_as_the_number(minutes % 60);
    if clock_24h {
        assert(label.take(2) == text::two_digits(minutes / 60));
        assert(label.skip(3) == text::two_digits(minutes % 60));
    } else {
        lemma_hour_12(minutes / 60);
        let digits = text::decimal(locale::hour_12(minutes / 60));
        let mm = text::two_digits(minutes % 60);
        let middle = seq![':'] + mm + seq![' '];
        assert(label == digits + middle + locale::meridiem(minutes / 60));
        assert(are_hour_parts(label, digits, middle, locale::meridiem(minutes / 60), minutes / 60));
        assert(says_hour_12(label, middle, minutes / 60));
    }
}

/// A range says the two times, with a dash between them. On a twelve-hour clock, where both are
/// before noon or both are not, the first goes without its meridiem.
pub proof fn ranges_say_both_times(clock_24h: bool, a: int, b: int)
    requires
        0 <= a < 24 * 60,
        0 <= b < 24 * 60,
    ensures
        ({
            let first = locale::time_label(clock_24h, a);
            let second = locale::time_label(clock_24h, b);
            let shared = !clock_24h && (a < 12 * 60 <==> b < 12 * 60);
            let start = if shared { first.take(first.len() - 3) } else { first };
            scheduling::range_label(clock_24h, a, b) == start + seq![' ', '\u{2013}', ' '] + second
        }),
{
    scheduling::lemma_meridiem(a / 60, b / 60);
    let first = locale::time_label(clock_24h, a);
    if !clock_24h {
        assert(first.take(first.len() - 3) == locale::bare_time_12h(a));
    }
}

/// A clock has 24 hours unless the locale's time format holds the twelve-hour hour, the twelve-hour
/// time or the meridiem.
pub proof fn the_time_format_decides_on_the_clock(locale: Locale)
    ensures
        !locale.clock_24h() <==> (locale.time_format matches Some(format) && exists|i: int|
            0 <= i <= format@.len() - 2 && ({
                let code = #[trigger] format@.subrange(i, i + 2);
                code == seq!['%', 'I'] || code == seq!['%', 'r'] || code == seq!['%', 'p']
            })),
{
    match locale.time_format {
        Some(format) => {
            let s = format@;
            if !locale.clock_24h() {
                if text::has_pair(s, '%', 'I') {
                    lemma_pair(s, '%', 'I');
                } else if text::has_pair(s, '%', 'r') {
                    lemma_pair(s, '%', 'r');
                } else {
                    lemma_pair(s, '%', 'p');
                }
            }
            if exists|i: int|
                0 <= i <= s.len() - 2 && ({
                    let code = #[trigger] s.subrange(i, i + 2);
                    code == seq!['%', 'I'] || code == seq!['%', 'r'] || code == seq!['%', 'p']
                }) {
                let i = choose|i: int|
                    0 <= i <= s.len() - 2 && ({
                        let code = #[trigger] s.subrange(i, i + 2);
                        code == seq!['%', 'I'] || code == seq!['%', 'r'] || code == seq!['%', 'p']
                    });
                let code = s.subrange(i, i + 2);
                assert(code[0] == s[i] && code[1] == s[i + 1]);
                assert(s[i] == '%');
            }
        },
        None => {},
    }
}

proof fn lemma_pair(s: Seq<char>, first: char, second: char)
    requires
        text::has_pair(s, first, second),
    ensures
        exists|i: int| 0 <= i <= s.len() - 2 && #[trigger] s.subrange(i, i + 2) == seq![
            first,
            second,
        ],
{
    let i = choose|i: int|
        0 <= i < s.len() - 1 && #[trigger] s[i] == first && s[i + 1] == second;
    assert(s.subrange(i, i + 2) == seq![first, second]);
}

/// The name of a day's weekday is the locale's, at the place that the weekday has in the week, or
/// the English one; the name of its month is the locale's, at the place that the month has in the
/// year, or the English one.
pub proof fn names_are_those_of_the_locale(locale: Locale, n: int, y: int, m: int, d: int)
    requires
        locale.wf(),
        date::is_civil(n, y, m, d),
    ensures
        locale.weekdays@[date::weekday_of(n)] matches Some(name) ==> locale.weekday_name(n)
            == name@,
        locale.weekdays@[date::weekday_of(n)] is None ==> locale.weekday_name(n)
            == date::english_weekday(date::weekday_of(n)),
        locale.months@[m - 1] matches Some(name) ==> locale.month_name(n) == name@,
        locale.months@[m - 1] is None ==> locale.month_name(n) == date::english_month(m),
{
    date_laws::months_and_days_are_those_of_the_date(n, y, m, d);
}

/// Whether `label` is `before` and then the number `d`, without a leading zero.
pub open spec fn ends_in_number(label: Seq<char>, before: Seq<char>, d: int) -> bool {
    &&& label.len() > before.len()
    &&& label.take(before.len() as int) == before
    &&& is_number(label.skip(before.len() as int))
    &&& value(label.skip(before.len() as int)) == d
    &&& label.skip(before.len() as int)[0] != '0'
}

/// The labels of a day name it: the head of its column by the weekday, in short by the month, at
/// length by both, and each by the day of the month.
pub proof fn day_labels_name_the_day(locale: Locale, n: int, y: int, m: int, d: int)
    requires
        date::is_civil(n, y, m, d),
    ensures
        ends_in_number(locale.header_label(n), locale.weekday_name(n) + seq![' '], d),
        ends_in_number(locale.short_label(n), locale.month_name(n) + seq![' '], d),
        ends_in_number(
            locale.long_label(n),
            locale.weekday_name(n) + seq![',', ' '] + locale.month_name(n) + seq![' '],
            d,
        ),
{
    date_laws::months_and_days_are_those_of_the_date(n, y, m, d);
    date_laws::days_follow_one_another(n, y, m, d);
    decimals_read_as_the_number(d);
    let number = text::decimal(d);
    if number.len() == 1 {
        reveal_with_fuel(value, 2);
        assert(number.drop_last() == Seq::<char>::empty());
    }
    lemma_ends_in(locale.weekday_name(n) + seq![' '], number, d);
    lemma_ends_in(locale.month_name(n) + seq![' '], number, d);
    let before = locale.weekday_name(n) + seq![',', ' '] + locale.month_name(n) + seq![' '];
    lemma_ends_in(before, number, d);
    assert(locale.long_label(n) == before + number);
}

proof fn lemma_ends_in(before: Seq<char>, number: Seq<char>, d: int)
    requires
        is_number(number),
        value(number) == d,
        number[0] != '0',
    ensures
        ends_in_number(before + number, before, d),
{
    let label = before + number;
    assert(label.take(before.len() as int) == before);
    assert(label.skip(before.len() as int) == number);
}

/// The label of a week is its first and its last day, in short, with a dash between them.
pub proof fn week_labels_name_the_first_and_the_last_day(locale: Locale, days: Seq<date::Date>)
    requires
        days.len() > 0,
    ensures
        ({
            let label = window::week_label(locale, days);
            let first = locale.short_label(days[0].n());
            let last = locale.short_label(days[days.len() - 1].n());
            &&& label.len() == first.len() + 3 + last.len()
            &&& label.take(first.len() as int) == first
            &&& label.skip(first.len() as int + 3) == last
            &&& label[first.len() as int + 1] == '\u{2013}'
        }),
{
    let label = window::week_label(locale, days);
    let first = locale.short_label(days[0].n());
    let last = locale.short_label(days[days.len() - 1].n());
    assert(label.take(first.len() as int) == first);
    assert(label.skip(first.len() as int + 3) == last);
}

/// The number of seconds that a text such as "+05:30" or "-01:00:20" says.
pub open spec fn seconds_said(label: Seq<char>) -> int {
    let size = value(label.subrange(1, 3)) * 3600 + value(label.subrange(4, 6)) * 60 + (
    if label.len() == 9 {
        value(label.subrange(7, 9))
    } else {
        0
    });
    if label[0] == '-' {
        -size
    } else {
        size
    }
}

/// How far a clock is off UTC can be read from its label: the sign, the hours, the minutes and,
/// where there are some, the seconds.
pub proof fn offset_labels_say_the_offset(offset: int)
    requires
        -86400 < offset < 86400,
    ensures
        seconds_said(local_time::offset_label(offset)) == offset,
        local_time::offset_label(offset).len() == (if offset % 60 == 0 {
            6int
        } else {
            9
        }),
        local_time::offset_label(offset)[0] == (if offset < 0 {
            '-'
        } else {
            '+'
        }),
        local_time::offset_label(offset)[3] == ':',
{
    let size = if offset < 0 {
        -offset
    } else {
        offset
    };
    lemma_hours_minutes_seconds(size);
    lemma_negated(offset);
    lemma_offset_label(offset, size / 3600, size / 60 % 60, size % 60);
}

proof fn lemma_hours_minutes_seconds(size: int)
    requires
        0 <= size < 86400,
    ensures
        0 <= size / 3600 < 24,
        0 <= size / 60 % 60 < 60,
        size == (size / 3600) * 3600 + (size / 60 % 60) * 60 + size % 60,
{
    assert((size / 60) / 60 == size / 3600);
}

proof fn lemma_negated(x: int)
    ensures
        (-x) % 60 == 0 <==> x % 60 == 0,
{
    let q = x / 60;
    assert(x == q * 60 + x % 60);
    assert(x % 60 == 0 ==> -x == (-q) * 60);
}

#[verifier::spinoff_prover]
proof fn lemma_offset_label(offset: int, h: int, m: int, s: int)
    requires
        ({
            let size = if offset < 0 { -offset } else { offset };
            size / 3600 == h && size / 60 % 60 == m && size % 60 == s && size == h * 3600 + m * 60 + s
        }),
        0 <= h < 24,
        0 <= m < 60,
        0 <= s < 60,
    ensures
        seconds_said(local_time::offset_label(offset)) == offset,
        local_time::offset_label(offset).len() == (if s == 0 {
            6int
        } else {
            9
        }),
        local_time::offset_label(offset)[0] == (if offset < 0 {
            '-'
        } else {
            '+'
        }),
        local_time::offset_label(offset)[3] == ':',
{
    let label = local_time::offset_label(offset);
    two_digits_read_as_the_number(h);
    two_digits_read_as_the_number(m);
    two_digits_read_as_the_number(s);
    assert(label.subrange(1, 3) == text::two_digits(h));
    assert(label.subrange(4, 6) == text::two_digits(m));
    if s != 0 {
        assert(label.subrange(7, 9) == text::two_digits(s));
    }
}

} // verus!
