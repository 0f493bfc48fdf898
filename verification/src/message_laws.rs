//! What a message says.
use vstd::prelude::*;

use crate::locale;
use crate::locale::Locale;
use crate::scheduling;
use crate::scheduling::Span;
use crate::span_laws;
use crate::text;

verus! {

/// The lines of a text: what stands between its line breaks.
pub open spec fn lines(text: Seq<char>) -> Seq<Seq<char>>
    decreases text.len(),
{
    if text.len() == 0 {
        seq![Seq::empty()]
    } else {
        let before = lines(text.drop_last());
        if text.last() == '\n' {
            before.push(Seq::empty())
        } else {
            before.drop_last().push(before.last().push(text.last()))
        }
    }
}

/// Whether a text holds no line break.
pub open spec fn one_line(text: Seq<char>) -> bool {
    forall|i: int| 0 <= i < text.len() ==> #[trigger] text[i] != '\n'
}

/// The spans that start on day `n`.
pub open spec fn on_day(spans: Seq<Span>, n: int) -> Seq<Span> {
    spans.filter(|s: Span| s.0.day() == n)
}

/// The ranges of the spans.
pub open spec fn ranges(locale: Locale, spans: Seq<Span>) -> Seq<Seq<char>> {
    Seq::new(
        spans.len(),
        |i: int|
            scheduling::range_label(
                locale.clock_24h(),
                spans[i].0.minutes(),
                spans[i].1.minutes(),
            ),
    )
}

/// Whether `line` tells of day `n`: a bullet, the day, and the ranges of all spans that start on
/// it, in their order.
pub open spec fn tells_of(line: Seq<char>, locale: Locale, spans: Seq<Span>, n: int) -> bool {
    line == seq!['\u{2022}', ' '] + locale.long_label(n) + seq![':', ' '] + text::joined(
        ranges(locale, on_day(spans, n)),
        seq![',', ' '],
    )
}

/// Whether one of the spans starts on day `n`.
pub open spec fn some_start_on(spans: Seq<Span>, n: int) -> bool {
    exists|k: int| 0 <= k < spans.len() && (#[trigger] spans[k]).0.day() == n
}

/// Whether `list` tells, line by line, of the days on which spans start, each once and in order.
pub open spec fn tells_of_days(
    list: Seq<Seq<char>>,
    days: Seq<int>,
    locale: Locale,
    spans: Seq<Span>,
) -> bool {
    &&& list.len() == days.len()
    &&& forall|i: int, j: int| 0 <= i < j < days.len() ==> #[trigger] days[i] < #[trigger] days[j]
    &&& forall|i: int|
        0 <= i < days.len() ==> tells_of(#[trigger] list[i], locale, spans, days[i])
    &&& forall|n: int| #[trigger] days.contains(n) <==> some_start_on(spans, n)
}

proof fn lemma_lines_len(text: Seq<char>)
    ensures
        lines(text).len() > 0,
    decreases text.len(),
{
    if text.len() > 0 {
        lemma_lines_len(text.drop_last());
    }
}

proof fn lemma_lines_append(a: Seq<char>, b: Seq<char>)
    requires
        one_line(b),
    ensures
        lines(a + b) == lines(a).drop_last().push(lines(a).last() + b),
    decreases b.len(),
{
    lemma_lines_len(a);
    if b.len() == 0 {
        assert(a + b == a);
        assert(lines(a).last() + b == lines(a).last());
        assert(lines(a).drop_last().push(lines(a).last()) == lines(a));
    } else {
        let c = b.drop_last();
        assert forall|i: int| 0 <= i < c.len() implies #[trigger] c[i] != '\n' by {
            assert(c[i] == b[i]);
        }
        lemma_lines_append(a, c);
        assert((a + b).drop_last() == a + c);
        assert(b[b.len() - 1] != '\n');
        assert((lines(a).last() + c).push(b.last()) == lines(a).last() + b);
        let before = lines(a + c);
        assert(before.drop_last() == lines(a).drop_last());
    }
}

/// The lines of texts without line breaks that are joined by line breaks are those texts.
proof fn lemma_lines_joined(parts: Seq<Seq<char>>)
    requires
        parts.len() > 0,
        forall|i: int| 0 <= i < parts.len() ==> one_line(#[trigger] parts[i]),
    ensures
        lines(text::joined(parts, seq!['\n'])) == parts,
    decreases parts.len(),
{
    let last = parts.last();
    assert(one_line(parts[parts.len() - 1]));
    if parts.len() == 1 {
        lemma_lines_append(Seq::empty(), last);
        assert(Seq::<char>::empty() + last == last);
        let none = seq![Seq::<char>::empty()];
        assert(lines(Seq::<char>::empty()) == none);
        assert(none.drop_last().push(none.last() + last) == parts);
    } else {
        let front = parts.drop_last();
        assert forall|i: int| 0 <= i < front.len() implies one_line(#[trigger] front[i]) by {
            assert(one_line(parts[i]));
        }
        lemma_lines_joined(front);
        let before = text::joined(front, seq!['\n']);
        assert(before + seq!['\n'] == before.push('\n'));
        assert(before.push('\n').drop_last() == before);
        assert(lines(before.push('\n')) == front.push(Seq::empty()));
        lemma_lines_append(before.push('\n'), last);
        let open = front.push(Seq::<char>::empty());
        assert(open.drop_last() == front);
        assert(Seq::<char>::empty() + last == last);
        assert(front.push(last) == parts);
    }
}

proof fn lemma_one_line_append(a: Seq<char>, b: Seq<char>)
    requires
        one_line(a),
        one_line(b),
    ensures
        one_line(a + b),
{
    assert forall|i: int| 0 <= i < (a + b).len() implies #[trigger] (a + b)[i] != '\n' by {
        if i < a.len() {
            assert(a[i] != '\n');
        } else {
            assert(b[i - a.len()] != '\n');
        }
    }
}

proof fn lemma_one_line_time(clock_24h: bool, minutes: int)
    ensures
        one_line(locale::time_label(clock_24h, minutes)),
        one_line(locale::bare_time_12h(minutes)),
{
}

proof fn lemma_one_line_range(clock_24h: bool, a: int, b: int)
    ensures
        one_line(scheduling::range_label(clock_24h, a, b)),
{
    lemma_one_line_time(clock_24h, a);
    lemma_one_line_time(clock_24h, b);
    let dash = seq![' ', '\u{2013}', ' '];
    assert(one_line(dash));
    let start = if !clock_24h && locale::meridiem(a / 60) == locale::meridiem(b / 60) {
        locale::bare_time_12h(a)
    } else {
        locale::time_label(clock_24h, a)
    };
    lemma_one_line_append(start, dash);
    lemma_one_line_append(start + dash, locale::time_label(clock_24h, b));
}

proof fn lemma_one_line_days(locale: Locale, spans: Seq<Span>)
    requires
        forall|k: int|
            0 <= k < spans.len() ==> one_line(locale.long_label((#[trigger] spans[k]).0.day())),
    ensures
        forall|i: int|
            0 <= i < scheduling::day_lines(locale, spans).len() ==> one_line(
                #[trigger] scheduling::day_lines(locale, spans)[i],
            ),
    decreases spans.len(),
{
    if spans.len() > 0 {
        let rest = spans.drop_last();
        let last = spans.last();
        assert forall|k: int| 0 <= k < rest.len() implies one_line(
            locale.long_label((#[trigger] rest[k]).0.day()),
        ) by {
            assert(rest[k] == spans[k]);
        }
        lemma_one_line_days(locale, rest);
        let before = scheduling::day_lines(locale, rest);
        let after = scheduling::day_lines(locale, spans);
        let n = last.0.day();
        assert(spans[spans.len() - 1] == last);
        let range = scheduling::span_label(locale.clock_24h(), last);
        lemma_one_line_range(locale.clock_24h(), last.0.minutes(), last.1.minutes());
        let bullet = seq!['\u{2022}', ' '];
        let colon = seq![':', ' '];
        let comma = seq![',', ' '];
        assert(one_line(bullet) && one_line(colon) && one_line(comma));
        lemma_one_line_append(bullet, locale.long_label(n));
        lemma_one_line_append(bullet + locale.long_label(n), colon);
        lemma_one_line_append(bullet + locale.long_label(n) + colon, range);
        reveal_with_fuel(scheduling::day_lines, 2);
        if spans.len() > 1 {
            assert(one_line(before[before.len() - 1]));
            lemma_one_line_append(before.last(), comma);
            lemma_one_line_append(before.last() + comma, range);
        }
        assert forall|i: int| 0 <= i < after.len() implies one_line(#[trigger] after[i]) by {
            if i < before.len() {
                assert(one_line(before[i]));
            }
        }
    }
}

proof fn lemma_on_day_push(rest: Seq<Span>, last: Span, n: int)
    ensures
        on_day(rest.push(last), n) == if last.0.day() == n {
            on_day(rest, n).push(last)
        } else {
            on_day(rest, n)
        },
{
    reveal(Seq::filter);
    assert(rest.push(last).drop_last() == rest);
}

proof fn lemma_on_day_none(spans: Seq<Span>, n: int)
    ensures
        on_day(spans, n).len() == 0 <==> !some_start_on(spans, n),
    decreases spans.len(),
{
    reveal(Seq::filter);
    if spans.len() > 0 {
        let rest = spans.drop_last();
        lemma_on_day_none(rest, n);
        assert(rest.push(spans.last()) == spans);
        lemma_on_day_push(rest, spans.last(), n);
        if some_start_on(rest, n) {
            let k = choose|k: int| 0 <= k < rest.len() && (#[trigger] rest[k]).0.day() == n;
            assert(spans[k].0.day() == n);
        }
        if some_start_on(spans, n) && spans.last().0.day() != n {
            let k = choose|k: int| 0 <= k < spans.len() && (#[trigger] spans[k]).0.day() == n;
            assert(rest[k].0.day() == n);
        }
        assert(spans[spans.len() - 1] == spans.last());
    }
}

proof fn lemma_ranges_push(locale: Locale, spans: Seq<Span>, last: Span)
    ensures
        ranges(locale, spans.push(last)) == ranges(locale, spans).push(
            scheduling::range_label(locale.clock_24h(), last.0.minutes(), last.1.minutes()),
        ),
{
}

/// Spans whose days do not go back are told of day by day.
#[verifier::spinoff_prover]
#[verifier::rlimit(40)]
proof fn lemma_tells(locale: Locale, spans: Seq<Span>) -> (days: Seq<int>)
    requires
        forall|i: int, j: int|
            0 <= i <= j < spans.len() ==> (#[trigger] spans[i]).0.day() <= (
            #[trigger] spans[j]).0.day(),
    ensures
        tells_of_days(scheduling::day_lines(locale, spans), days, locale, spans),
        spans.len() > 0 ==> days.len() > 0 && days.last() == spans.last().0.day(),
    decreases spans.len(),
{
    if spans.len() == 0 {
        let days = Seq::<int>::empty();
        assert forall|n: int| #[trigger] days.contains(n) <==> some_start_on(spans, n) by {}
        days
    } else {
        let rest = spans.drop_last();
        let last = spans.last();
        let n = last.0.day();
        assert(rest.push(last) == spans);
        assert(spans[spans.len() - 1] == last);
        assert forall|i: int, j: int| 0 <= i <= j < rest.len() implies (
        #[trigger] rest[i]).0.day() <= (#[trigger] rest[j]).0.day() by {
            assert(spans[i].0.day() <= spans[j].0.day());
        }
        let before = lemma_tells(locale, rest);
        let old_lines = scheduling::day_lines(locale, rest);
        let new_lines = scheduling::day_lines(locale, spans);
        let range = scheduling::range_label(
            locale.clock_24h(),
            last.0.minutes(),
            last.1.minutes(),
        );
        assert forall|d: int| some_start_on(spans, d) <==> #[trigger] some_start_on(rest, d) || d
            == n by {
            if some_start_on(rest, d) {
                let k = choose|k: int| 0 <= k < rest.len() && (#[trigger] rest[k]).0.day() == d;
                assert(spans[k].0.day() == d);
            }
            if some_start_on(spans, d) && d != n {
                let k = choose|k: int| 0 <= k < spans.len() && (#[trigger] spans[k]).0.day() == d;
                assert(rest[k].0.day() == d);
            }
        }
        if rest.len() > 0 {
            assert(rest[rest.len() - 1] == spans[spans.len() - 2]);
            assert(rest.last().0.day() <= n);
        }
        lemma_on_day_push(rest, last, n);
        lemma_on_day_none(rest, n);
        lemma_ranges_push(locale, on_day(rest, n), last);
        let old_ranges = ranges(locale, on_day(rest, n));
        let new_ranges = ranges(locale, on_day(spans, n));
        assert(new_ranges == old_ranges.push(range));
        assert(new_ranges.drop_last() == old_ranges);
        if rest.len() > 0 && rest.last().0.day() == n {
            let k = before.len() - 1;
            assert(rest[rest.len() - 1].0.day() == n);
            assert(old_ranges.len() > 0);
            assert(tells_of(old_lines[k], locale, rest, before[k]));
            assert(new_lines == old_lines.drop_last().push(
                old_lines.last() + seq![',', ' '] + range,
            ));
            let head = seq!['\u{2022}', ' '] + locale.long_label(n) + seq![':', ' '];
            assert(head + text::joined(new_ranges, seq![',', ' ']) == head + text::joined(
                old_ranges,
                seq![',', ' '],
            ) + seq![',', ' '] + range);
            assert forall|i: int| 0 <= i < before.len() implies tells_of(
                #[trigger] new_lines[i],
                locale,
                spans,
                before[i],
            ) by {
                assert(tells_of(old_lines[i], locale, rest, before[i]));
                if i < k {
                    assert(before[i] < before[k]);
                    lemma_on_day_push(rest, last, before[i]);
                }
            }
            assert forall|d: int| #[trigger] before.contains(d) <==> some_start_on(spans, d) by {
                assert(before.contains(d) <==> some_start_on(rest, d));
                assert(some_start_on(rest, n));
            }
            before
        } else {
            let days = before.push(n);
            if some_start_on(rest, n) {
                let k = choose|k: int| 0 <= k < rest.len() && (#[trigger] rest[k]).0.day() == n;
                assert(rest[k].0.day() <= rest[rest.len() - 1].0.day());
            }
            assert(old_ranges.len() == 0);
            assert(new_ranges == seq![range]);
            assert(new_lines == old_lines.push(scheduling::day_line(locale, n, range)));
            assert forall|i: int| 0 <= i < days.len() implies tells_of(
                #[trigger] new_lines[i],
                locale,
                spans,
                days[i],
            ) by {
                if i < before.len() {
                    assert(tells_of(old_lines[i], locale, rest, before[i]));
                    assert(before.contains(before[i]));
                    assert(some_start_on(rest, before[i]));
                    lemma_on_day_push(rest, last, before[i]);
                }
            }
            assert forall|i: int, j: int| 0 <= i < j < days.len() implies #[trigger] days[i]
                < #[trigger] days[j] by {
                if j == before.len() {
                    let k = before.len() - 1;
                    assert(before[i] <= before[k]);
                    assert(before[k] == rest.last().0.day());
                }
            }
            assert forall|d: int| #[trigger] days.contains(d) <==> some_start_on(spans, d) by {
                assert(before.contains(d) <==> some_start_on(rest, d));
                if days.contains(d) {
                    let i = choose|i: int| 0 <= i < days.len() && days[i] == d;
                    if i < before.len() {
                        assert(before[i] == d);
                    }
                }
                if before.contains(d) {
                    let i = choose|i: int| 0 <= i < before.len() && before[i] == d;
                    assert(days[i] == d);
                }
                assert(days[before.len() as int] == n);
            }
            days
        }
    }
}

/// Whether `text` is `intro`, an empty line, and then `days.len()` lines, which tell of the days
/// `days`, each once and in order: all the days on which spans start.
pub open spec fn is_message(
    text: Seq<char>,
    intro: Seq<char>,
    days: Seq<int>,
    locale: Locale,
    spans: Seq<Span>,
) -> bool {
    let from = intro.len() as int;
    &&& text.len() >= from + 2
    &&& text.take(from) == intro
    &&& text[from] == '\n' && text[from + 1] == '\n'
    &&& tells_of_days(lines(text.skip(from + 2)), days, locale, spans)
}

/// The message says all that is marked: behind the intro and an empty line, it has one line for each
/// day on which a span starts, in the order of the days, and each line holds the day and the
/// ranges of all merged spans that start on it. It is so wherever the days follow the clock and the
/// names of the days hold no line break.
pub proof fn the_message_says_all_that_is_marked(
    locale: Locale,
    spans: Seq<Span>,
    intro: Seq<char>,
)
    requires
        spans.len() > 0,
        span_laws::days_follow_clock(spans),
        forall|k: int|
            0 <= k < spans.len() ==> one_line(locale.long_label((#[trigger] spans[k]).0.day())),
    ensures
        exists|days: Seq<int>|
            #[trigger] is_message(
                scheduling::message(locale, spans, intro),
                intro,
                days,
                locale,
                scheduling::merged(spans),
            ) && forall|n: int| days.contains(n) <==> #[trigger] some_start_on(spans, n),
{
    let text = scheduling::message(locale, spans, intro);
    let m = scheduling::merged(spans);
    let list = scheduling::day_lines(locale, m);
    span_laws::merging_sorts(spans);
    span_laws::merging_leaves_no_overlap(spans);
    span_laws::merging_loses_no_time(spans, 0);
    assert forall|i: int, j: int| 0 <= i <= j < m.len() implies (#[trigger] m[i]).0.day() <= (
    #[trigger] m[j]).0.day() by {
        assert(m[i].0.instant() <= m[j].0.instant());
    }
    assert forall|k: int| 0 <= k < m.len() implies one_line(
        locale.long_label((#[trigger] m[k]).0.day()),
    ) by {
        span_laws::merging_keeps_starts(spans, k);
        let i = choose|i: int| 0 <= i < spans.len() && (#[trigger] spans[i]).0 == m[k].0;
        assert(one_line(locale.long_label(spans[i].0.day())));
    }
    let days = lemma_tells(locale, m);
    lemma_one_line_days(locale, m);
    assert(list.len() > 0);
    lemma_lines_joined(list);
    let body = text::joined(list, seq!['\n']);
    assert(text.take(intro.len() as int) == intro);
    assert(text.skip(intro.len() as int + 2) == body);
    assert(is_message(text, intro, days, locale, m));
    assert forall|n: int| days.contains(n) <==> #[trigger] some_start_on(spans, n) by {
        assert(days.contains(n) <==> some_start_on(m, n));
        if some_start_on(m, n) {
            let k = choose|k: int| 0 <= k < m.len() && (#[trigger] m[k]).0.day() == n;
            span_laws::merging_keeps_starts(spans, k);
            let i = choose|i: int| 0 <= i < spans.len() && (#[trigger] spans[i]).0 == m[k].0;
            assert(spans[i].0.day() == n);
        }
        if some_start_on(spans, n) {
            let k = choose|k: int| 0 <= k < spans.len() && (#[trigger] spans[k]).0.day() == n;
            span_laws::merging_loses_no_time(spans, k);
            let i = choose|i: int|
                0 <= i < m.len() && span_laws::holds(#[trigger] m[i], spans[k]);
            assert(m[i].0.day() == n);
        }
    }
}

/// Where the spans of line `i` end, if the lines start at the spans `cuts`.
pub open spec fn cut_after(cuts: Seq<int>, i: int, n: int) -> int {
    if i + 1 < cuts.len() {
        cuts[i + 1]
    } else {
        n
    }
}

/// Whether `line` tells of the spans from `a` up to, but without, `b`: a bullet, the day that the
/// first starts on, and the ranges of all of them, in their order.
pub open spec fn tells_of_run(
    line: Seq<char>,
    locale: Locale,
    spans: Seq<Span>,
    a: int,
    b: int,
) -> bool {
    line == seq!['\u{2022}', ' '] + locale.long_label(spans[a].0.day()) + seq![':', ' ']
        + text::joined(ranges(locale, spans.subrange(a, b)), seq![',', ' '])
}

/// Whether `list` tells of all the spans, in their order: each line of a run of spans that start on
/// one day, and the next line of the run behind it, which starts on another day.
pub open spec fn tells_of_runs(
    list: Seq<Seq<char>>,
    cuts: Seq<int>,
    locale: Locale,
    spans: Seq<Span>,
) -> bool {
    let n = spans.len() as int;
    &&& list.len() == cuts.len()
    &&& spans.len() > 0 ==> cuts.len() > 0 && cuts[0] == 0
    &&& forall|i: int|
        0 <= i < cuts.len() ==> 0 <= #[trigger] cuts[i] < cut_after(cuts, i, n) <= n
    &&& forall|i: int|
        0 <= i < cuts.len() ==> tells_of_run(
            #[trigger] list[i],
            locale,
            spans,
            cuts[i],
            cut_after(cuts, i, n),
        )
    &&& forall|i: int, k: int|
        0 <= i < cuts.len() && cuts[i] <= k < cut_after(cuts, i, n) ==> (
        #[trigger] spans[k]).0.day() == spans[#[trigger] cuts[i]].0.day()
    &&& forall|i: int|
        0 < i < cuts.len() ==> spans[#[trigger] cuts[i]].0.day() != spans[cuts[i] - 1].0.day()
}

/// A span that starts on the day of the last one goes on with its run.
#[verifier::spinoff_prover]
proof fn lemma_run_goes_on(locale: Locale, rest: Seq<Span>, last: Span, before: Seq<int>)
    requires
        tells_of_runs(scheduling::day_lines(locale, rest), before, locale, rest),
        rest.len() > 0,
        rest.last().0.day() == last.0.day(),
    ensures
        tells_of_runs(
            scheduling::day_lines(locale, rest.push(last)),
            before,
            locale,
            rest.push(last),
        ),
{
    let spans = rest.push(last);
    let n = spans.len() as int;
    let day = last.0.day();
    assert(spans.drop_last() == rest);
    let old_lines = scheduling::day_lines(locale, rest);
    let new_lines = scheduling::day_lines(locale, spans);
    let range = scheduling::range_label(locale.clock_24h(), last.0.minutes(), last.1.minutes());
    lemma_lines_go_on(locale, rest, last, before);
    let j = before.len() - 1;
    assert(cut_after(before, j, n - 1) == n - 1);
    assert(rest[n - 2].0.day() == rest[before[j]].0.day());
    assert forall|i: int|
        0 <= i < before.len() implies 0 <= #[trigger] before[i] < cut_after(
        before,
        i,
        n,
    ) <= n by {
        assert(before[i] < cut_after(before, i, n - 1) <= n - 1);
    }
    assert forall|i: int, k: int|
        0 <= i < before.len() && before[i] <= k < cut_after(before, i, n) implies (
    #[trigger] spans[k]).0.day() == spans[#[trigger] before[i]].0.day() by {
        assert(before[i] < cut_after(before, i, n - 1) <= n - 1);
        if k < n - 1 {
            assert(k < cut_after(before, i, n - 1));
            assert(rest[k].0.day() == rest[before[i]].0.day());
        }
    }
    assert forall|i: int| 0 < i < before.len() implies spans[
        #[trigger] before[i]
    ].0.day() != spans[before[i] - 1].0.day() by {
        assert(before[i] < cut_after(before, i, n - 1) <= n - 1);
        assert(0 <= before[i - 1] < cut_after(before, i - 1, n - 1));
        assert(rest[before[i]].0.day() != rest[before[i] - 1].0.day());
    }
}

#[verifier::spinoff_prover]
proof fn lemma_lines_go_on(locale: Locale, rest: Seq<Span>, last: Span, before: Seq<int>)
    requires
        tells_of_runs(scheduling::day_lines(locale, rest), before, locale, rest),
        rest.len() > 0,
        rest.last().0.day() == last.0.day(),
    ensures
        ({
            let spans = rest.push(last);
            let list = scheduling::day_lines(locale, spans);
            &&& list.len() == before.len()
            &&& forall|i: int|
                0 <= i < before.len() ==> tells_of_run(
                    #[trigger] list[i],
                    locale,
                    spans,
                    before[i],
                    cut_after(before, i, spans.len() as int),
                )
        }),
{
    let spans = rest.push(last);
    let n = spans.len() as int;
    let day = last.0.day();
    assert(spans.drop_last() == rest);
    let old_lines = scheduling::day_lines(locale, rest);
    let new_lines = scheduling::day_lines(locale, spans);
    let range = scheduling::range_label(locale.clock_24h(), last.0.minutes(), last.1.minutes());
    let j = before.len() - 1;
    let a = before[j];
    assert(cut_after(before, j, n - 1) == n - 1);
    assert(cut_after(before, j, n) == n);
    assert(rest[n - 2].0.day() == rest[before[j]].0.day());
    assert(tells_of_run(old_lines[j], locale, rest, before[j], n - 1));
    let run = rest.subrange(a, n - 1);
    assert(spans.subrange(a, n) == run.push(last));
    lemma_ranges_push(locale, run, last);
    let old_ranges = ranges(locale, run);
    let new_ranges = ranges(locale, spans.subrange(a, n));
    assert(new_ranges == old_ranges.push(range));
    assert(new_ranges.drop_last() == old_ranges);
    assert(new_lines == old_lines.drop_last().push(
        old_lines.last() + seq![',', ' '] + range,
    ));
    let head = seq!['\u{2022}', ' '] + locale.long_label(spans[a].0.day()) + seq![':', ' '];
    assert(head + text::joined(new_ranges, seq![',', ' ']) == head + text::joined(
        old_ranges,
        seq![',', ' '],
    ) + seq![',', ' '] + range);
    assert forall|i: int| 0 <= i < before.len() implies tells_of_run(
        #[trigger] new_lines[i],
        locale,
        spans,
        before[i],
        cut_after(before, i, n),
    ) by {
        let b = cut_after(before, i, n - 1);
        assert(0 <= before[i] < b <= n - 1);
        assert(tells_of_run(old_lines[i], locale, rest, before[i], b));
        if i < j {
            assert(before[i + 1] < cut_after(before, i + 1, n - 1));
            assert(rest.subrange(before[i], b) == spans.subrange(before[i], b));
        }
    }
}

/// A span that starts on another day than the last one starts a run of its own.
#[verifier::spinoff_prover]
proof fn lemma_run_starts(locale: Locale, rest: Seq<Span>, last: Span, before: Seq<int>)
    requires
        tells_of_runs(scheduling::day_lines(locale, rest), before, locale, rest),
        rest.len() > 0 ==> rest.last().0.day() != last.0.day(),
    ensures
        tells_of_runs(
            scheduling::day_lines(locale, rest.push(last)),
            before.push(rest.len() as int),
            locale,
            rest.push(last),
        ),
{
    let spans = rest.push(last);
    let n = spans.len() as int;
    let day = last.0.day();
    assert(spans.drop_last() == rest);
    let old_lines = scheduling::day_lines(locale, rest);
    let new_lines = scheduling::day_lines(locale, spans);
    let range = scheduling::range_label(locale.clock_24h(), last.0.minutes(), last.1.minutes());
    let cuts = before.push(n - 1);
    assert(new_lines == old_lines.push(scheduling::day_line(locale, day, range)));
    assert(spans.subrange(n - 1, n) == seq![last]);
    assert(ranges(locale, seq![last]) == seq![range]);
    assert forall|i: int| 0 <= i < before.len() implies #[trigger] cut_after(cuts, i, n)
        == cut_after(before, i, n - 1) && 0 <= before[i] < cut_after(before, i, n - 1) <= n
        - 1 by {
        assert(0 <= before[i]);
    }
    assert forall|i: int| 0 <= i < cuts.len() implies tells_of_run(
        #[trigger] new_lines[i],
        locale,
        spans,
        cuts[i],
        cut_after(cuts, i, n),
    ) by {
        if i < before.len() {
            let b = cut_after(before, i, n - 1);
            assert(cut_after(cuts, i, n) == b);
            assert(tells_of_run(old_lines[i], locale, rest, before[i], b));
            assert(rest.subrange(before[i], b) == spans.subrange(before[i], b));
        }
    }
    assert forall|i: int| 0 <= i < cuts.len() implies 0 <= #[trigger] cuts[i] < cut_after(
        cuts,
        i,
        n,
    ) <= n by {
        if i < before.len() {
            assert(cut_after(cuts, i, n) == cut_after(before, i, n - 1));
        }
    }
    assert forall|i: int, k: int|
        0 <= i < cuts.len() && cuts[i] <= k < cut_after(cuts, i, n) implies (
    #[trigger] spans[k]).0.day() == spans[#[trigger] cuts[i]].0.day() by {
        if i < before.len() {
            assert(cut_after(cuts, i, n) == cut_after(before, i, n - 1));
            assert(rest[k].0.day() == rest[before[i]].0.day());
        }
    }
    assert forall|i: int| 0 < i < cuts.len() implies spans[#[trigger] cuts[i]].0.day()
        != spans[cuts[i] - 1].0.day() by {
        if i < before.len() {
            assert(cut_after(cuts, i, n) == cut_after(before, i, n - 1));
            assert(cut_after(cuts, i - 1, n) == cut_after(before, i - 1, n - 1));
            assert(rest[before[i]].0.day() != rest[before[i] - 1].0.day());
        } else {
            assert(rest[n - 2] == rest.last());
        }
    }
}

proof fn lemma_tells_of_runs(locale: Locale, spans: Seq<Span>) -> (cuts: Seq<int>)
    ensures
        tells_of_runs(scheduling::day_lines(locale, spans), cuts, locale, spans),
    decreases spans.len(),
{
    if spans.len() == 0 {
        Seq::empty()
    } else {
        let rest = spans.drop_last();
        let last = spans.last();
        assert(rest.push(last) == spans);
        let before = lemma_tells_of_runs(locale, rest);
        if rest.len() > 0 && rest.last().0.day() == last.0.day() {
            lemma_run_goes_on(locale, rest, last, before);
            before
        } else {
            lemma_run_starts(locale, rest, last, before);
            before.push(rest.len() as int)
        }
    }
}

/// The message leaves nothing out: it is the intro, an empty line, and lines that tell of all merged
/// spans, in their order, day by day, whatever the names of the days are and however the clock goes.
pub proof fn the_message_leaves_nothing_out(locale: Locale, spans: Seq<Span>, intro: Seq<char>)
    requires
        spans.len() > 0,
    ensures
        exists|list: Seq<Seq<char>>, cuts: Seq<int>| #[trigger]
            tells_of_runs(list, cuts, locale, scheduling::merged(spans)) && scheduling::message(
                locale,
                spans,
                intro,
            ) == intro + seq!['\n', '\n'] + text::joined(list, seq!['\n']),
{
    let m = scheduling::merged(spans);
    let cuts = lemma_tells_of_runs(locale, m);
    assert(tells_of_runs(scheduling::day_lines(locale, m), cuts, locale, m));
}

/// Where nothing is marked, there is no message.
pub proof fn there_is_no_message_where_nothing_is_marked(locale: Locale, intro: Seq<char>)
    ensures
        scheduling::message(locale, Seq::empty(), intro).len() == 0,
{
}

} // verus!
