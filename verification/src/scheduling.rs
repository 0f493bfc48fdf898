//! Spans of free time, merged and put into words.
use vstd::prelude::*;

use crate::date::Date;
use crate::local_time::LocalTime;
use crate::locale;
use crate::locale::Locale;
use crate::text;

verus! {

/// A span of time that the user marked as free, from its start to its end.
pub type Span = (LocalTime, LocalTime);

/// `sorted` with `span` put in behind the spans that start no later.
pub open spec fn insert_span(sorted: Seq<Span>, span: Span) -> Seq<Span>
    decreases sorted.len(),
{
    if sorted.len() == 0 || sorted.last().0.instant() <= span.0.instant() {
        sorted.push(span)
    } else {
        insert_span(sorted.drop_last(), span).push(sorted.last())
    }
}

/// The spans in the order of their starts; those that start together stay in their order.
pub open spec fn sort_spans(spans: Seq<Span>) -> Seq<Span>
    decreases spans.len(),
{
    if spans.len() == 0 {
        Seq::empty()
    } else {
        insert_span(sort_spans(spans.drop_last()), spans.last())
    }
}

/// Whether `next`, which starts no earlier than `last`, overlaps or touches it on the same day.
pub open spec fn joins(last: Span, next: Span) -> bool {
    last.0.day() == next.0.day() && last.1.instant() >= next.0.instant()
}

/// The later of two times.
pub open spec fn later(a: LocalTime, b: LocalTime) -> LocalTime {
    if b.instant() > a.instant() {
        b
    } else {
        a
    }
}

/// `merged` with `span` added: the last span grows where `span` joins it, else `span` is a new one.
pub open spec fn absorb(merged: Seq<Span>, span: Span) -> Seq<Span> {
    if merged.len() > 0 && joins(merged.last(), span) {
        merged.drop_last().push((merged.last().0, later(merged.last().1, span.1)))
    } else {
        merged.push(span)
    }
}

/// The spans of `sorted`, added one after the other.
pub open spec fn coalesce(sorted: Seq<Span>) -> Seq<Span>
    decreases sorted.len(),
{
    if sorted.len() == 0 {
        Seq::empty()
    } else {
        absorb(coalesce(sorted.drop_last()), sorted.last())
    }
}

/// What merging makes of `spans`.
pub open spec fn merged(spans: Seq<Span>) -> Seq<Span> {
    coalesce(sort_spans(spans))
}

/// Whether each span starts on a day that a date can name.
pub open spec fn starts_wf(spans: Seq<Span>) -> bool {
    forall|i: int| 0 <= i < spans.len() ==> (#[trigger] spans[i]).0.wf()
}

/// Whether both ends of each span are on days that a date can name.
pub open spec fn spans_wf(spans: Seq<Span>) -> bool {
    forall|i: int| 0 <= i < spans.len() ==> (#[trigger] spans[i]).0.wf() && spans[i].1.wf()
}

/// The range between the times `a` and `b`, in minutes after midnight. A twelve-hour clock gives
/// a meridiem that both share only once.
pub open spec fn range_label(clock_24h: bool, a: int, b: int) -> Seq<char> {
    let start = if !clock_24h && locale::meridiem(a / 60) == locale::meridiem(b / 60) {
        locale::bare_time_12h(a)
    } else {
        locale::time_label(clock_24h, a)
    };
    start + seq![' ', '\u{2013}', ' '] + locale::time_label(clock_24h, b)
}

/// The range between the times that a span starts and ends at.
pub open spec fn span_label(clock_24h: bool, span: Span) -> Seq<char> {
    range_label(clock_24h, span.0.minutes(), span.1.minutes())
}

/// The line of day `n` with the ranges `ranges`.
pub open spec fn day_line(locale: Locale, n: int, ranges: Seq<char>) -> Seq<char> {
    seq!['\u{2022}', ' '] + locale.long_label(n) + seq![':', ' '] + ranges
}

/// The lines of a message about `spans`: one for each run of spans that start on the same day,
/// with the day and their ranges.
pub open spec fn day_lines(locale: Locale, spans: Seq<Span>) -> Seq<Seq<char>>
    decreases spans.len(),
{
    if spans.len() == 0 {
        Seq::empty()
    } else {
        let lines = day_lines(locale, spans.drop_last());
        let range = span_label(locale.clock_24h(), spans.last());
        let n = spans.last().0.day();
        if spans.len() > 1 && spans[spans.len() - 2].0.day() == n {
            lines.drop_last().push(lines.last() + seq![',', ' '] + range)
        } else {
            lines.push(day_line(locale, n, range))
        }
    }
}

/// The message about `spans`: the opening line, an empty line, and the lines of the days; nothing
/// at all where there are no spans.
pub open spec fn message(locale: Locale, spans: Seq<Span>, intro: Seq<char>) -> Seq<char> {
    if spans.len() == 0 {
        Seq::empty()
    } else {
        intro + seq!['\n', '\n'] + text::joined(day_lines(locale, merged(spans)), seq!['\n'])
    }
}

/// The spans in the order of their starts.
fn sorted_by_start(spans: &[Span]) -> (sorted: Vec<Span>)
    ensures
        sorted@ == sort_spans(spans@),
{
    let mut sorted: Vec<Span> = Vec::new();
    let mut i: usize = 0;
    while i < spans.len()
        invariant
            i <= spans@.len(),
            sorted@ == sort_spans(spans@.take(i as int)),
        decreases spans@.len() - i,
    {
        let span = spans[i];
        let mut at: usize = sorted.len();
        while at > 0 && span.0.is_before(&sorted[at - 1].0)
            invariant
                at <= sorted@.len(),
                forall|j: int|
                    at <= j < sorted@.len() ==> (#[trigger] sorted@[j]).0.instant()
                        > span.0.instant(),
            decreases at,
        {
            at -= 1;
        }
        proof {
            lemma_insert_at(sorted@, span, at as int);
            assert(spans@.take(i + 1).drop_last() == spans@.take(i as int));
        }
        sorted.insert(at, span);
        i += 1;
    }
    assert(spans@.take(i as int) == spans@);
    sorted
}

/// Putting a span in front of all that start later is `insert_span`.
proof fn lemma_insert_at(sorted: Seq<Span>, span: Span, at: int)
    requires
        0 <= at <= sorted.len(),
        forall|j: int|
            at <= j < sorted.len() ==> (#[trigger] sorted[j]).0.instant() > span.0.instant(),
        at > 0 ==> sorted[at - 1].0.instant() <= span.0.instant(),
    ensures
        insert_span(sorted, span) == sorted.insert(at, span),
    decreases sorted.len(),
{
    if at < sorted.len() {
        lemma_insert_at(sorted.drop_last(), span, at);
        assert(sorted.drop_last().insert(at, span).push(sorted.last()) == sorted.insert(at, span));
    } else {
        assert(sorted.push(span) == sorted.insert(at, span));
    }
}

/// Sorts spans and merges those that overlap or touch within the same day.
#[must_use]
pub fn merge_spans(spans: &[Span]) -> (r: Vec<Span>)
    requires
        starts_wf(spans@),
    ensures
        r@ == merged(spans@),
        starts_wf(r@),
{
    let sorted = sorted_by_start(spans);
    proof {
        lemma_sorted_contains(spans@);
        assert forall|i: int| 0 <= i < sorted@.len() implies (#[trigger] sorted@[i]).0.wf() by {
            assert(sorted@.contains(sorted@[i]));
            assert(spans@.contains(sorted@[i]));
        }
    }
    let mut merged: Vec<Span> = Vec::new();
    let mut i: usize = 0;
    while i < sorted.len()
        invariant
            i <= sorted@.len(),
            starts_wf(sorted@),
            starts_wf(merged@),
            merged@ == coalesce(sorted@.take(i as int)),
        decreases sorted@.len() - i,
    {
        let (start, end) = sorted[i];
        proof {
            assert(sorted@.take(i + 1).drop_last() == sorted@.take(i as int));
        }
        let n = merged.len();
        if n > 0 && merged[n - 1].0.date_naive() == start.date_naive() && !merged[n
            - 1].1.is_before(&start) {
            let last = merged[n - 1];
            if last.1.is_before(&end) {
                merged.set(n - 1, (last.0, end));
            }
            assert(merged@ == coalesce(sorted@.take(i + 1)));
        } else {
            merged.push((start, end));
        }
        i += 1;
    }
    assert(sorted@.take(i as int) == sorted@);
    merged
}

/// Merging keeps both ends of the spans on days that a date can name.
pub proof fn lemma_merged_wf(spans: Seq<Span>)
    requires
        spans_wf(spans),
    ensures
        spans_wf(merged(spans)),
{
    let sorted = sort_spans(spans);
    lemma_sorted_contains(spans);
    assert forall|i: int| 0 <= i < sorted.len() implies (#[trigger] sorted[i]).0.wf()
        && sorted[i].1.wf() by {
        assert(sorted.contains(sorted[i]));
        let k = choose|k: int| 0 <= k < spans.len() && spans[k] == sorted[i];
        assert(spans[k].0.wf());
    }
    lemma_coalesce_wf(sorted);
}

proof fn lemma_coalesce_wf(sorted: Seq<Span>)
    requires
        spans_wf(sorted),
    ensures
        spans_wf(coalesce(sorted)),
    decreases sorted.len(),
{
    if sorted.len() > 0 {
        let rest = sorted.drop_last();
        assert forall|i: int| 0 <= i < rest.len() implies (#[trigger] rest[i]).0.wf()
            && rest[i].1.wf() by {
            assert(rest[i] == sorted[i]);
        }
        lemma_coalesce_wf(rest);
        let before = coalesce(rest);
        let after = coalesce(sorted);
        assert(sorted[sorted.len() - 1].0.wf());
        assert forall|i: int| 0 <= i < after.len() implies (#[trigger] after[i]).0.wf()
            && after[i].1.wf() by {
            if i < before.len() {
                assert(before[i].0.wf());
            }
        }
    }
}

/// The range of a span, such as "9:00 – 9:30 AM", "11:30 AM – 1:00 PM" or "09:00 – 09:30".
fn fmt_range(locale: &Locale, start: &LocalTime, end: &LocalTime) -> (range: String)
    ensures
        range@ == range_label(locale.clock_24h(), start.minutes(), end.minutes()),
{
    let same_meridiem = (start.hour() < 12) == (end.hour() < 12);
    let mut range = if !locale::uses_24h_clock(locale) && same_meridiem {
        locale::bare_time(start)
    } else {
        locale::format_time(locale, start)
    };
    proof {
        lemma_meridiem(start.minutes() / 60, end.minutes() / 60);
        reveal_strlit(" \u{2013} ");
    }
    range.append(" \u{2013} ");
    range.append(locale::format_time(locale, end).as_str());
    assert(range@ == range_label(locale.clock_24h(), start.minutes(), end.minutes()));
    range
}

/// Two hours of the day have the same meridiem where both are in the same half of the day.
pub proof fn lemma_meridiem(a: int, b: int)
    requires
        0 <= a < 24,
        0 <= b < 24,
    ensures
        locale::meridiem(a) == locale::meridiem(b) <==> (a < 12) == (b < 12),
{
    assert(seq!['A', 'M'][0] != seq!['P', 'M'][0]);
}

/// The line of a day.
fn format_day(locale: &Locale, day: Date, parts: &Vec<String>) -> (line: String)
    requires
        locale.wf(),
        day.wf(),
    ensures
        line@ == day_line(*locale, day.n(), text::joined(text::texts(parts@), seq![',', ' '])),
{
    proof {
        reveal_strlit("\u{2022} ");
        reveal_strlit(": ");
        reveal_strlit(", ");
        assert(", "@ == seq![',', ' ']);
    }
    let mut line = String::new();
    line.append("\u{2022} ");
    line.append(locale::long_date(locale, day).as_str());
    line.append(": ");
    line.append(text::join(parts, ", ").as_str());
    assert(line@ == day_line(*locale, day.n(), text::joined(text::texts(parts@), seq![',', ' '])));
    line
}

/// Composes the message about the selected spans.
///
/// `intro` is the opening line, in the user's language. The spans are merged, put into one line
/// per day, and formatted the way the locale has it. The message is empty when nothing is
/// selected.
#[must_use]
pub fn compose_availability(locale: &Locale, spans: &[Span], intro: &str) -> (msg: String)
    requires
        locale.wf(),
        starts_wf(spans@),
    ensures
        msg@ == message(*locale, spans@, intro@),
{
    let merged = merge_spans(spans);
    proof {
        lemma_merged_is_empty(spans@);
    }
    if merged.len() == 0 {
        return String::new();
    }
    let mut lines: Vec<String> = Vec::new();
    let mut current_day: Option<Date> = None;
    let mut parts: Vec<String> = Vec::new();
    let mut i: usize = 0;
    while i < merged.len()
        invariant
            i <= merged@.len(),
            starts_wf(merged@),
            locale.wf(),
            i == 0 ==> current_day is None && lines@.len() == 0,
            i > 0 ==> pending(
                *locale,
                merged@.take(i as int),
                current_day,
                text::texts(lines@),
                text::texts(parts@),
            ),
        decreases merged@.len() - i,
    {
        let (start, end) = merged[i];
        let day = start.date_naive();
        let ghost before = merged@.take(i as int);
        let ghost lines_before = text::texts(lines@);
        let ghost parts_before = text::texts(parts@);
        let range = fmt_range(locale, &start, &end);
        match current_day {
            Some(d) => {
                if d != day {
                    lines.push(format_day(locale, d, &parts));
                    parts = Vec::new();
                }
            },
            None => {
                parts = Vec::new();
            },
        }
        current_day = Some(day);
        parts.push(range);
        proof {
            let after = merged@.take(i + 1);
            assert(after.drop_last() == before);
            assert(after.last() == merged@[i as int]);
            if i > 0 {
                assert(after[after.len() - 2] == before.last());
                if before.last().0.day() == day.n() {
                    assert(text::texts(parts@) == parts_before.push(range@));
                    assert(parts_before.push(range@).drop_last() == parts_before);
                    let line = day_line(
                        *locale,
                        day.n(),
                        text::joined(parts_before, seq![',', ' ']),
                    );
                    assert(line + seq![',', ' '] + range@ == day_line(
                        *locale,
                        day.n(),
                        text::joined(text::texts(parts@), seq![',', ' ']),
                    ));
                    assert(lines_before.push(line).drop_last() == lines_before);
                    assert(text::texts(lines@) == lines_before);
                } else {
                    assert(text::texts(parts@) == seq![range@]);
                    assert(text::texts(lines@) == lines_before.push(
                        day_line(
                            *locale,
                            before.last().0.day(),
                            text::joined(parts_before, seq![',', ' ']),
                        ),
                    ));
                }
            } else {
                assert(text::texts(parts@) == seq![range@]);
                assert(text::texts(lines@) == Seq::<Seq<char>>::empty());
                assert(day_lines(*locale, before) == Seq::<Seq<char>>::empty());
            }
        }
        i += 1;
    }
    assert(merged@.take(i as int) == merged@);
    let ghost lines_before = text::texts(lines@);
    match current_day {
        Some(d) => {
            lines.push(format_day(locale, d, &parts));
        },
        None => {},
    }
    proof {
        reveal_strlit("\n\n");
        reveal_strlit("\n");
        assert("\n"@ == seq!['\n']);
        assert("\n\n"@ == seq!['\n', '\n']);
        assert(text::texts(lines@) == day_lines(*locale, merged@));
    }
    let mut msg = String::new();
    msg.append(intro);
    msg.append("\n\n");
    msg.append(text::join(&lines, "\n").as_str());
    assert(msg@ == message(*locale, spans@, intro@));
    msg
}

/// Whether `lines` are the lines of `spans` but for the last, whose day and ranges are given.
spec fn pending(
    locale: Locale,
    spans: Seq<Span>,
    day: Option<Date>,
    lines: Seq<Seq<char>>,
    ranges: Seq<Seq<char>>,
) -> bool {
    match day {
        Some(d) => {
            &&& d.wf()
            &&& d.n() == spans.last().0.day()
            &&& ranges.len() > 0
            &&& day_lines(locale, spans) == lines.push(
                day_line(locale, d.n(), text::joined(ranges, seq![',', ' '])),
            )
        },
        None => false,
    }
}

/// Merging leaves nothing only where there was nothing.
proof fn lemma_merged_is_empty(spans: Seq<Span>)
    ensures
        merged(spans).len() == 0 <==> spans.len() == 0,
{
    lemma_sorted_contains(spans);
}

/// Sorting neither adds nor drops a span.
pub proof fn lemma_sorted_contains(spans: Seq<Span>)
    ensures
        forall|s: Span| #[trigger] sort_spans(spans).contains(s) <==> spans.contains(s),
        sort_spans(spans).len() == spans.len(),
    decreases spans.len(),
{
    if spans.len() > 0 {
        let rest = spans.drop_last();
        lemma_sorted_contains(rest);
        lemma_insert_contains(sort_spans(rest), spans.last());
        assert forall|s: Span| sort_spans(spans).contains(s) <==> spans.contains(s) by {
            assert(spans == rest.push(spans.last()));
            if spans.contains(s) && s != spans.last() {
                let k = choose|k: int| 0 <= k < spans.len() && spans[k] == s;
                assert(rest[k] == s);
            }
            if rest.contains(s) {
                let k = choose|k: int| 0 <= k < rest.len() && rest[k] == s;
                assert(spans[k] == s);
            }
            assert(spans[spans.len() - 1] == spans.last());
        }
    }
}

proof fn lemma_insert_contains(sorted: Seq<Span>, span: Span)
    ensures
        forall|s: Span| #[trigger]
            insert_span(sorted, span).contains(s) <==> sorted.contains(s) || s == span,
        insert_span(sorted, span).len() == sorted.len() + 1,
    decreases sorted.len(),
{
    if sorted.len() == 0 || sorted.last().0.instant() <= span.0.instant() {
        lemma_push_contains(sorted, span);
        assert(insert_span(sorted, span) == sorted.push(span));
    } else {
        let rest = sorted.drop_last();
        lemma_insert_contains(rest, span);
        lemma_push_contains(insert_span(rest, span), sorted.last());
        lemma_push_contains(rest, sorted.last());
        assert(rest.push(sorted.last()) == sorted);
        assert forall|s: Span|
            insert_span(sorted, span).contains(s) <==> sorted.contains(s) || s == span by {
            assert(insert_span(rest, span).push(sorted.last()).contains(s) <==> insert_span(
                rest,
                span,
            ).contains(s) || s == sorted.last());
            assert(rest.push(sorted.last()).contains(s) <==> rest.contains(s) || s
                == sorted.last());
        }
    }
}

proof fn lemma_push_contains(spans: Seq<Span>, span: Span)
    ensures
        forall|s: Span| #[trigger] spans.push(span).contains(s) <==> spans.contains(s) || s == span,
{
    assert forall|s: Span| spans.push(span).contains(s) <==> spans.contains(s) || s == span by {
        if spans.contains(s) {
            let k = choose|k: int| 0 <= k < spans.len() && spans[k] == s;
            assert(spans.push(span)[k] == s);
        }
        assert(spans.push(span)[spans.len() as int] == span);
    }
}

} // verus!
