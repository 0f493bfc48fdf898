//! What holds of merged spans.
use vstd::prelude::*;

use crate::local_time::LocalTime;
use crate::locale::Locale;
use crate::scheduling;
use crate::scheduling::Span;

verus! {

/// Whether the spans stand in the order of their starts.
pub open spec fn chronological(spans: Seq<Span>) -> bool {
    forall|i: int, j: int|
        0 <= i <= j < spans.len() ==> (#[trigger] spans[i]).0.instant() <= (
        #[trigger] spans[j]).0.instant()
}

/// Whether no span joins the one before it.
pub open spec fn separate(spans: Seq<Span>) -> bool {
    forall|i: int|
        0 < i < spans.len() ==> !scheduling::joins(#[trigger] spans[i - 1], spans[i])
}

/// Whether no two spans that start on the same day overlap or touch.
pub open spec fn no_overlap(spans: Seq<Span>) -> bool {
    forall|i: int, j: int|
        0 <= i < j < spans.len() && (#[trigger] spans[i]).0.day() == (
        #[trigger] spans[j]).0.day() ==> spans[i].1.instant() < spans[j].0.instant()
}

/// Whether a span that starts no earlier than another starts on no earlier day. It is so wherever
/// the wall clock does not jump back over a midnight.
pub open spec fn days_follow_clock(spans: Seq<Span>) -> bool {
    forall|i: int, j: int|
        0 <= i < spans.len() && 0 <= j < spans.len() && (#[trigger] spans[i]).0.instant() <= (
        #[trigger] spans[j]).0.instant() ==> spans[i].0.day() <= spans[j].0.day()
}

/// Whether `outer` starts on the day of `inner` and holds all of it.
pub open spec fn holds(outer: Span, inner: Span) -> bool {
    &&& outer.0.day() == inner.0.day()
    &&& outer.0.instant() <= inner.0.instant()
    &&& inner.1.instant() <= outer.1.instant()
}

/// Whether the point in time `t` lies in `span`.
pub open spec fn covers(span: Span, t: int) -> bool {
    span.0.instant() <= t < span.1.instant()
}

proof fn lemma_insert_chronological(sorted: Seq<Span>, span: Span)
    requires
        chronological(sorted),
    ensures
        chronological(scheduling::insert_span(sorted, span)),
        scheduling::insert_span(sorted, span).len() == sorted.len() + 1,
        scheduling::insert_span(sorted, span).last().0.instant() >= span.0.instant(),
        sorted.len() > 0 ==> scheduling::insert_span(sorted, span).last().0.instant()
            >= sorted.last().0.instant(),
        scheduling::insert_span(sorted, span).last().0.instant() == span.0.instant()
            || sorted.len() > 0 && scheduling::insert_span(sorted, span).last().0.instant()
            == sorted.last().0.instant(),
    decreases sorted.len(),
{
    if sorted.len() > 0 && sorted.last().0.instant() > span.0.instant() {
        lemma_insert_chronological(sorted.drop_last(), span);
    }
}

proof fn lemma_sort_chronological(spans: Seq<Span>)
    ensures
        chronological(scheduling::sort_spans(spans)),
        scheduling::sort_spans(spans).len() == spans.len(),
    decreases spans.len(),
{
    if spans.len() > 0 {
        lemma_sort_chronological(spans.drop_last());
        lemma_insert_chronological(scheduling::sort_spans(spans.drop_last()), spans.last());
    }
}

/// The spans of `spans` that start at `t`, in their order.
pub open spec fn starting_at(spans: Seq<Span>, t: int) -> Seq<Span> {
    spans.filter(|s: Span| s.0.instant() == t)
}

proof fn lemma_starting_at_push(spans: Seq<Span>, span: Span, t: int)
    ensures
        starting_at(spans.push(span), t) == if span.0.instant() == t {
            starting_at(spans, t).push(span)
        } else {
            starting_at(spans, t)
        },
{
    reveal(Seq::filter);
    assert(spans.push(span).drop_last() == spans);
}

proof fn lemma_insert_stable(sorted: Seq<Span>, span: Span, t: int)
    ensures
        starting_at(scheduling::insert_span(sorted, span), t) == starting_at(sorted.push(span), t),
    decreases sorted.len(),
{
    if sorted.len() > 0 && sorted.last().0.instant() > span.0.instant() {
        let rest = sorted.drop_last();
        let last = sorted.last();
        lemma_insert_stable(rest, span, t);
        lemma_starting_at_push(scheduling::insert_span(rest, span), last, t);
        lemma_starting_at_push(rest, span, t);
        lemma_starting_at_push(rest, last, t);
        lemma_starting_at_push(sorted, span, t);
        assert(rest.push(last) == sorted);
    }
}

/// Sorting puts the spans in the order of their starts, and neither adds nor drops one: those
/// that start at `t` are the same as before, in the same order.
pub proof fn sorting_is_stable(spans: Seq<Span>, t: int)
    ensures
        chronological(scheduling::sort_spans(spans)),
        scheduling::sort_spans(spans).len() == spans.len(),
        starting_at(scheduling::sort_spans(spans), t) == starting_at(spans, t),
    decreases spans.len(),
{
    lemma_sort_chronological(spans);
    if spans.len() > 0 {
        let rest = spans.drop_last();
        sorting_is_stable(rest, t);
        lemma_insert_stable(scheduling::sort_spans(rest), spans.last(), t);
        lemma_starting_at_push(scheduling::sort_spans(rest), spans.last(), t);
        lemma_starting_at_push(rest, spans.last(), t);
        assert(rest.push(spans.last()) == spans);
    }
}

proof fn lemma_coalesce(sorted: Seq<Span>)
    requires
        chronological(sorted),
    ensures
        chronological(scheduling::coalesce(sorted)),
        separate(scheduling::coalesce(sorted)),
        scheduling::coalesce(sorted).len() <= sorted.len(),
        sorted.len() > 0 ==> scheduling::coalesce(sorted).len() > 0,
        sorted.len() > 0 ==> scheduling::coalesce(sorted).last().0.instant()
            <= sorted.last().0.instant(),
        forall|i: int|
            0 <= i < scheduling::coalesce(sorted).len() ==> starts_like_one(
                #[trigger] scheduling::coalesce(sorted)[i],
                sorted,
            ),
    decreases sorted.len(),
{
    if sorted.len() > 0 {
        let rest = sorted.drop_last();
        lemma_coalesce(rest);
        let before = scheduling::coalesce(rest);
        let after = scheduling::coalesce(sorted);
        assert forall|i: int| 0 <= i < after.len() implies starts_like_one(
            #[trigger] after[i],
            sorted,
        ) by {
            if i < before.len() {
                assert(starts_like_one(before[i], rest));
                let k = choose|k: int| 0 <= k < rest.len() && (#[trigger] rest[k]).0 == before[i].0;
                assert(sorted[k].0 == after[i].0);
            } else {
                assert(sorted[sorted.len() - 1].0 == after[i].0);
            }
        }
    }
}

/// Whether `span` starts when one of `spans` does.
pub open spec fn starts_like_one(span: Span, spans: Seq<Span>) -> bool {
    exists|k: int| 0 <= k < spans.len() && (#[trigger] spans[k]).0 == span.0
}

proof fn lemma_merged(spans: Seq<Span>)
    ensures
        chronological(scheduling::merged(spans)),
        separate(scheduling::merged(spans)),
{
    lemma_sort_chronological(spans);
    lemma_coalesce(scheduling::sort_spans(spans));
}

/// Merged spans stand in the order of their starts.
pub proof fn merging_sorts(spans: Seq<Span>)
    ensures
        chronological(scheduling::merged(spans)),
{
    lemma_merged(spans);
}

/// After merging, no span overlaps or touches the one before it on the same day.
pub proof fn merging_separates(spans: Seq<Span>)
    ensures
        separate(scheduling::merged(spans)),
{
    lemma_merged(spans);
}

/// Spans that are in order and separate are left as they are.
pub proof fn merging_keeps_merged_spans(spans: Seq<Span>)
    requires
        chronological(spans),
        separate(spans),
    ensures
        scheduling::merged(spans) == spans,
{
    lemma_sorted_is_kept(spans);
    lemma_separate_is_kept(spans);
}

proof fn lemma_sorted_is_kept(spans: Seq<Span>)
    requires
        chronological(spans),
    ensures
        scheduling::sort_spans(spans) == spans,
    decreases spans.len(),
{
    if spans.len() > 0 {
        let rest = spans.drop_last();
        lemma_sorted_is_kept(rest);
        assert(rest.len() > 0 ==> rest.last() == spans[spans.len() - 2]);
        assert(rest.push(spans.last()) == spans);
    }
}

proof fn lemma_separate_is_kept(spans: Seq<Span>)
    requires
        separate(spans),
    ensures
        scheduling::coalesce(spans) == spans,
    decreases spans.len(),
{
    if spans.len() > 0 {
        let rest = spans.drop_last();
        assert forall|i: int| 0 < i < rest.len() implies !scheduling::joins(
            #[trigger] rest[i - 1],
            rest[i],
        ) by {
            assert(!scheduling::joins(spans[i - 1], spans[i]));
        }
        lemma_separate_is_kept(rest);
        if rest.len() > 0 {
            assert(!scheduling::joins(spans[spans.len() - 1 - 1], spans[spans.len() - 1]));
            assert(rest.last() == spans[spans.len() - 2]);
        }
        assert(rest.push(spans.last()) == spans);
    }
}

/// Merging twice is merging once.
pub proof fn merging_is_idempotent(spans: Seq<Span>)
    ensures
        scheduling::merged(scheduling::merged(spans)) == scheduling::merged(spans),
{
    lemma_merged(spans);
    merging_keeps_merged_spans(scheduling::merged(spans));
}

proof fn lemma_coalesce_holds(sorted: Seq<Span>, k: int)
    requires
        chronological(sorted),
        0 <= k < sorted.len(),
    ensures
        exists|i: int|
            0 <= i < scheduling::coalesce(sorted).len() && holds(
                #[trigger] scheduling::coalesce(sorted)[i],
                sorted[k],
            ),
    decreases sorted.len(),
{
    let rest = sorted.drop_last();
    let before = scheduling::coalesce(rest);
    let after = scheduling::coalesce(sorted);
    lemma_coalesce(rest);
    lemma_coalesce(sorted);
    if k < sorted.len() - 1 {
        lemma_coalesce_holds(rest, k);
        let i = choose|i: int| 0 <= i < before.len() && holds(#[trigger] before[i], rest[k]);
        assert(holds(after[i], sorted[k]));
    } else {
        if rest.len() > 0 {
            assert(sorted[rest.len() - 1].0.instant() <= sorted.last().0.instant());
        }
        assert(holds(after[after.len() - 1], sorted[k]));
    }
}

/// Merging loses no time: each span lies whole in a merged span that starts on its day.
pub proof fn merging_loses_no_time(spans: Seq<Span>, k: int)
    requires
        0 <= k < spans.len(),
    ensures
        exists|i: int|
            0 <= i < scheduling::merged(spans).len() && holds(
                #[trigger] scheduling::merged(spans)[i],
                spans[k],
            ),
{
    let sorted = scheduling::sort_spans(spans);
    lemma_sort_chronological(spans);
    scheduling::lemma_sorted_contains(spans);
    assert(spans.contains(spans[k]));
    assert(sorted.contains(spans[k]));
    let j = choose|j: int| 0 <= j < sorted.len() && sorted[j] == spans[k];
    lemma_coalesce_holds(sorted, j);
    let i = choose|i: int|
        0 <= i < scheduling::coalesce(sorted).len() && holds(
            #[trigger] scheduling::coalesce(sorted)[i],
            sorted[j],
        );
    assert(holds(scheduling::merged(spans)[i], spans[k]));
}

proof fn lemma_coalesce_covers(sorted: Seq<Span>, i: int, t: int)
    requires
        chronological(sorted),
        0 <= i < scheduling::coalesce(sorted).len(),
        covers(scheduling::coalesce(sorted)[i], t),
    ensures
        exists|k: int|
            0 <= k < sorted.len() && covers(#[trigger] sorted[k], t) && sorted[k].0.day()
                == scheduling::coalesce(sorted)[i].0.day(),
    decreases sorted.len(),
{
    let rest = sorted.drop_last();
    let before = scheduling::coalesce(rest);
    let after = scheduling::coalesce(sorted);
    lemma_coalesce(rest);
    if i < before.len() && covers(before[i], t) {
        lemma_coalesce_covers(rest, i, t);
        let k = choose|k: int|
            0 <= k < rest.len() && covers(#[trigger] rest[k], t) && rest[k].0.day()
                == before[i].0.day();
        assert(covers(sorted[k], t));
    } else {
        assert(covers(sorted[sorted.len() - 1], t));
    }
}

/// Merging adds no time: each point in a merged span lies in a span that starts on its day.
pub proof fn merging_adds_no_time(spans: Seq<Span>, i: int, t: int)
    requires
        0 <= i < scheduling::merged(spans).len(),
        covers(scheduling::merged(spans)[i], t),
    ensures
        exists|k: int|
            0 <= k < spans.len() && covers(#[trigger] spans[k], t) && spans[k].0.day()
                == scheduling::merged(spans)[i].0.day(),
{
    let sorted = scheduling::sort_spans(spans);
    lemma_sort_chronological(spans);
    lemma_coalesce_covers(sorted, i, t);
    let j = choose|j: int|
        0 <= j < sorted.len() && covers(#[trigger] sorted[j], t) && sorted[j].0.day()
            == scheduling::merged(spans)[i].0.day();
    scheduling::lemma_sorted_contains(spans);
    assert(sorted.contains(sorted[j]));
    let k = choose|k: int| 0 <= k < spans.len() && spans[k] == sorted[j];
    assert(covers(spans[k], t));
}

/// Merged spans start when one of the spans does.
pub proof fn merging_keeps_starts(spans: Seq<Span>, i: int)
    requires
        0 <= i < scheduling::merged(spans).len(),
    ensures
        starts_like_one(scheduling::merged(spans)[i], spans),
{
    let sorted = scheduling::sort_spans(spans);
    lemma_sort_chronological(spans);
    lemma_coalesce(sorted);
    let m = scheduling::merged(spans)[i];
    assert(starts_like_one(m, sorted));
    let j = choose|j: int| 0 <= j < sorted.len() && (#[trigger] sorted[j]).0 == m.0;
    scheduling::lemma_sorted_contains(spans);
    assert(sorted.contains(sorted[j]));
    let k = choose|k: int| 0 <= k < spans.len() && spans[k] == sorted[j];
    assert(spans[k].0 == m.0);
}

/// Whether `span` ends when one of `spans` does.
pub open spec fn ends_like_one(span: Span, spans: Seq<Span>) -> bool {
    exists|k: int| 0 <= k < spans.len() && (#[trigger] spans[k]).1 == span.1
}

proof fn lemma_ends_kept(sorted: Seq<Span>)
    ensures
        forall|i: int|
            0 <= i < scheduling::coalesce(sorted).len() ==> ends_like_one(
                #[trigger] scheduling::coalesce(sorted)[i],
                sorted,
            ),
    decreases sorted.len(),
{
    if sorted.len() > 0 {
        let rest = sorted.drop_last();
        lemma_ends_kept(rest);
        let before = scheduling::coalesce(rest);
        let after = scheduling::coalesce(sorted);
        assert forall|i: int| 0 <= i < after.len() implies ends_like_one(
            #[trigger] after[i],
            sorted,
        ) by {
            assert(sorted[sorted.len() - 1].1 == sorted.last().1);
            if i < before.len() {
                assert(ends_like_one(before[i], rest));
                let k = choose|k: int| 0 <= k < rest.len() && (#[trigger] rest[k]).1 == before[i].1;
                assert(sorted[k].1 == before[i].1);
            }
        }
    }
}

/// Merged spans end when one of the spans does.
pub proof fn merging_keeps_ends(spans: Seq<Span>, i: int)
    requires
        0 <= i < scheduling::merged(spans).len(),
    ensures
        ends_like_one(scheduling::merged(spans)[i], spans),
{
    let sorted = scheduling::sort_spans(spans);
    lemma_ends_kept(sorted);
    let m = scheduling::merged(spans)[i];
    assert(ends_like_one(m, sorted));
    let j = choose|j: int| 0 <= j < sorted.len() && (#[trigger] sorted[j]).1 == m.1;
    scheduling::lemma_sorted_contains(spans);
    assert(sorted.contains(sorted[j]));
    let k = choose|k: int| 0 <= k < spans.len() && spans[k] == sorted[j];
    assert(spans[k].1 == m.1);
}

/// Merged spans never overlap: no two that start on the same day overlap or touch, wherever the
/// days of the spans follow the clock.
pub proof fn merging_leaves_no_overlap(spans: Seq<Span>)
    requires
        days_follow_clock(spans),
    ensures
        no_overlap(scheduling::merged(spans)),
        days_follow_clock(scheduling::merged(spans)),
{
    let m = scheduling::merged(spans);
    lemma_merged(spans);
    assert forall|i: int, j: int|
        0 <= i < m.len() && 0 <= j < m.len() && (#[trigger] m[i]).0.instant() <= (
        #[trigger] m[j]).0.instant() implies m[i].0.day() <= m[j].0.day() by {
        merging_keeps_starts(spans, i);
        merging_keeps_starts(spans, j);
        let k = choose|k: int| 0 <= k < spans.len() && (#[trigger] spans[k]).0 == m[i].0;
        let l = choose|l: int| 0 <= l < spans.len() && (#[trigger] spans[l]).0 == m[j].0;
        assert(spans[k].0.day() <= spans[l].0.day());
    }
    lemma_separate_no_overlap(m);
}

/// Spans in order, each separate from the one before it, do not overlap where their days follow
/// the clock.
proof fn lemma_separate_no_overlap(m: Seq<Span>)
    requires
        chronological(m),
        separate(m),
        days_follow_clock(m),
    ensures
        no_overlap(m),
{
    assert forall|i: int, j: int|
        0 <= i < j < m.len() && (#[trigger] m[i]).0.day() == (
        #[trigger] m[j]).0.day() implies m[i].1.instant() < m[j].0.instant() by {
        assert(m[i].0.instant() <= m[i + 1].0.instant() <= m[j].0.instant());
        assert(m[i].0.day() <= m[i + 1].0.day() <= m[j].0.day());
        assert(!scheduling::joins(m[i + 1 - 1], m[i + 1]));
    }
}

/// Spans whose wall clocks are all the same way off UTC have days that follow the clock.
pub proof fn one_offset_keeps_days_in_order(spans: Seq<Span>, offset: int)
    requires
        forall|i: int| 0 <= i < spans.len() ==> (#[trigger] spans[i]).0.offset_secs == offset,
    ensures
        days_follow_clock(spans),
{
    assert forall|i: int, j: int|
        0 <= i < spans.len() && 0 <= j < spans.len() && (#[trigger] spans[i]).0.instant() <= (
        #[trigger] spans[j]).0.instant() implies spans[i].0.day() <= spans[j].0.day() by {
        lemma_same_offset(spans[i].0, spans[j].0);
    }
}

proof fn lemma_same_offset(a: LocalTime, b: LocalTime)
    requires
        a.offset_secs == b.offset_secs,
        a.instant() <= b.instant(),
    ensures
        a.day() <= b.day(),
{
    assert(a.wall_secs <= b.wall_secs);
}

/// Whether no span ends before it starts.
pub open spec fn proper(spans: Seq<Span>) -> bool {
    forall|i: int|
        0 <= i < spans.len() ==> (#[trigger] spans[i]).0.instant() <= spans[i].1.instant()
}

/// Whether some span of `spans` holds `span`.
pub open spec fn held_by(span: Span, spans: Seq<Span>) -> bool {
    exists|j: int| 0 <= j < spans.len() && holds(#[trigger] spans[j], span)
}

/// Whether the two lists have the same spans, day by day and point in time by point in time.
pub open spec fn same_times(a: Seq<Span>, b: Seq<Span>) -> bool {
    &&& a.len() == b.len()
    &&& forall|i: int|
        0 <= i < a.len() ==> holds(#[trigger] a[i], b[i]) && holds(b[i], a[i])
}

proof fn lemma_coalesce_held(sorted: Seq<Span>, big: Seq<Span>)
    requires
        chronological(sorted),
        proper(sorted),
        no_overlap(big),
        forall|k: int| 0 <= k < sorted.len() ==> #[trigger] held_by(sorted[k], big),
    ensures
        proper(scheduling::coalesce(sorted)),
        forall|i: int|
            0 <= i < scheduling::coalesce(sorted).len() ==> #[trigger] held_by(
                scheduling::coalesce(sorted)[i],
                big,
            ),
    decreases sorted.len(),
{
    if sorted.len() > 0 {
        let rest = sorted.drop_last();
        let before = scheduling::coalesce(rest);
        let after = scheduling::coalesce(sorted);
        assert forall|k: int| 0 <= k < rest.len() implies #[trigger] held_by(rest[k], big) by {
            assert(held_by(sorted[k], big));
        }
        lemma_coalesce_held(rest, big);
        lemma_coalesce(rest);
        let span = sorted[sorted.len() - 1];
        assert(held_by(span, big));
        assert forall|i: int| 0 <= i < after.len() implies #[trigger] held_by(after[i], big) by {
            if i < before.len() {
                assert(held_by(before[i], big));
            }
            if before.len() > 0 && scheduling::joins(before.last(), span) && i == before.len() - 1 {
                let j = choose|j: int| 0 <= j < big.len() && holds(#[trigger] big[j], before[i]);
                let l = choose|l: int| 0 <= l < big.len() && holds(#[trigger] big[l], span);
                assert(sorted[rest.len() - 1].0.instant() <= span.0.instant());
                assert(before[i].0.instant() <= span.0.instant());
                assert(j == l);
                assert(holds(big[j], after[i]));
            }
        }
    }
}

/// Whether each span starts later than the one before it.
spec fn ascending(m: Seq<Span>) -> bool {
    forall|i: int, j: int|
        0 <= i < j < m.len() ==> (#[trigger] m[i]).0.instant() < (#[trigger] m[j]).0.instant()
}

/// Whether the two spans have the same day and the same times.
spec fn twins(a: Span, b: Span) -> bool {
    holds(a, b) && holds(b, a)
}

/// Whether each span of `a` has its like in `b`.
spec fn all_matched(a: Seq<Span>, b: Seq<Span>) -> bool {
    forall|i: int| 0 <= i < a.len() ==> #[trigger] has_twin(a[i], b)
}

spec fn has_twin(span: Span, b: Seq<Span>) -> bool {
    exists|j: int| 0 <= j < b.len() && twins(span, #[trigger] b[j])
}

proof fn lemma_ascending(m: Seq<Span>)
    requires
        chronological(m),
        no_overlap(m),
        days_follow_clock(m),
        proper(m),
    ensures
        ascending(m),
{
    assert forall|i: int, j: int| 0 <= i < j < m.len() implies (#[trigger] m[i]).0.instant() < (
    #[trigger] m[j]).0.instant() by {
        assert(m[i].0.instant() <= m[j].0.instant());
        if m[i].0.instant() == m[j].0.instant() {
            assert(m[i].0.day() <= m[j].0.day());
            assert(m[j].0.day() <= m[i].0.day());
        }
    }
}

/// Where the spans of two lists hold one another, each has its like in the other list.
proof fn lemma_matched(a: Seq<Span>, b: Seq<Span>)
    requires
        no_overlap(a),
        proper(a),
        forall|i: int| 0 <= i < a.len() ==> #[trigger] held_by(a[i], b),
        forall|j: int| 0 <= j < b.len() ==> #[trigger] held_by(b[j], a),
    ensures
        all_matched(a, b),
{
    assert forall|i: int| 0 <= i < a.len() implies #[trigger] has_twin(a[i], b) by {
        assert(held_by(a[i], b));
        let j = choose|j: int| 0 <= j < b.len() && holds(#[trigger] b[j], a[i]);
        assert(held_by(b[j], a));
        let k = choose|k: int| 0 <= k < a.len() && holds(#[trigger] a[k], b[j]);
        assert(k == i) by {
            assert(a[i].0.instant() <= a[i].1.instant());
            if k < i {
                assert(a[k].1.instant() < a[i].0.instant());
            } else if i < k {
                assert(a[i].1.instant() < a[k].0.instant());
            }
        }
        assert(twins(a[i], b[j]));
    }
}

proof fn lemma_same_prefix(a: Seq<Span>, b: Seq<Span>, n: int)
    requires
        ascending(a),
        ascending(b),
        all_matched(a, b),
        all_matched(b, a),
        0 <= n <= a.len(),
    ensures
        n <= b.len(),
        forall|i: int| 0 <= i < n ==> twins(#[trigger] a[i], b[i]),
    decreases n,
{
    if n > 0 {
        let i = n - 1;
        lemma_same_prefix(a, b, i);
        assert(has_twin(a[i], b));
        let j = choose|j: int| 0 <= j < b.len() && twins(a[i], #[trigger] b[j]);
        if j < i {
            assert(twins(a[j], b[j]));
            assert(a[j].0.instant() < a[i].0.instant());
        }
        if j > i {
            assert(has_twin(b[i], a));
            let k = choose|k: int| 0 <= k < a.len() && twins(b[i], #[trigger] a[k]);
            assert(b[i].0.instant() < b[j].0.instant());
            if k < i {
                assert(twins(a[k], b[k]));
                assert(b[k].0.instant() < b[i].0.instant());
            } else if i < k {
                assert(a[i].0.instant() < a[k].0.instant());
            }
        }
    }
}

/// It makes no difference in what order, or how often, spans are given: lists with the same spans
/// in them merge into the same times.
pub proof fn merging_depends_on_which_spans(a: Seq<Span>, b: Seq<Span>)
    requires
        proper(a),
        days_follow_clock(a),
        forall|s: Span| a.contains(s) <==> b.contains(s),
    ensures
        same_times(scheduling::merged(a), scheduling::merged(b)),
{
    assert forall|i: int| 0 <= i < b.len() implies (#[trigger] b[i]).0.instant()
        <= b[i].1.instant() by {
        assert(b.contains(b[i]));
        let k = choose|k: int| 0 <= k < a.len() && a[k] == b[i];
        assert(a[k].0.instant() <= a[k].1.instant());
    }
    assert forall|i: int, j: int|
        0 <= i < b.len() && 0 <= j < b.len() && (#[trigger] b[i]).0.instant() <= (
        #[trigger] b[j]).0.instant() implies b[i].0.day() <= b[j].0.day() by {
        assert(b.contains(b[i]) && b.contains(b[j]));
        let k = choose|k: int| 0 <= k < a.len() && a[k] == b[i];
        let l = choose|l: int| 0 <= l < a.len() && a[l] == b[j];
        assert(a[k].0.day() <= a[l].0.day());
    }
    assert forall|k: int| 0 <= k < a.len() implies #[trigger] held_by(
        a[k],
        scheduling::merged(b),
    ) by {
        assert(a.contains(a[k]));
        let l = choose|l: int| 0 <= l < b.len() && b[l] == a[k];
        merging_loses_no_time(b, l);
    }
    assert forall|k: int| 0 <= k < b.len() implies #[trigger] held_by(
        b[k],
        scheduling::merged(a),
    ) by {
        assert(b.contains(b[k]));
        let l = choose|l: int| 0 <= l < a.len() && a[l] == b[k];
        merging_loses_no_time(a, l);
    }
    lemma_same_merge(a, b);
}

/// Lists whose spans lie in one another's merged spans merge into the same times.
proof fn lemma_same_merge(a: Seq<Span>, b: Seq<Span>)
    requires
        proper(a),
        proper(b),
        days_follow_clock(a),
        days_follow_clock(b),
        forall|k: int| 0 <= k < a.len() ==> #[trigger] held_by(a[k], scheduling::merged(b)),
        forall|k: int| 0 <= k < b.len() ==> #[trigger] held_by(b[k], scheduling::merged(a)),
    ensures
        same_times(scheduling::merged(a), scheduling::merged(b)),
{
    let ma = scheduling::merged(a);
    let mb = scheduling::merged(b);
    merging_leaves_no_overlap(a);
    merging_leaves_no_overlap(b);
    lemma_merged(a);
    lemma_merged(b);
    lemma_merged_held(a, mb);
    lemma_merged_held(b, ma);
    lemma_ascending(ma);
    lemma_ascending(mb);
    lemma_matched(ma, mb);
    lemma_matched(mb, ma);
    lemma_same_prefix(ma, mb, ma.len() as int);
    lemma_same_prefix(mb, ma, mb.len() as int);
    assert forall|i: int| 0 <= i < ma.len() implies holds(#[trigger] ma[i], mb[i]) && holds(
        mb[i],
        ma[i],
    ) by {
        assert(twins(ma[i], mb[i]));
    }
}

/// What holds each span of a list holds each of its merged spans, if it has no overlap itself.
proof fn lemma_merged_held(spans: Seq<Span>, big: Seq<Span>)
    requires
        proper(spans),
        no_overlap(big),
        forall|k: int| 0 <= k < spans.len() ==> #[trigger] held_by(spans[k], big),
    ensures
        proper(scheduling::merged(spans)),
        forall|i: int|
            0 <= i < scheduling::merged(spans).len() ==> #[trigger] held_by(
                scheduling::merged(spans)[i],
                big,
            ),
{
    let sorted = scheduling::sort_spans(spans);
    lemma_sort_chronological(spans);
    scheduling::lemma_sorted_contains(spans);
    assert forall|i: int| 0 <= i < sorted.len() implies (#[trigger] sorted[i]).0.instant()
        <= sorted[i].1.instant() && held_by(sorted[i], big) by {
        assert(sorted.contains(sorted[i]));
        let k = choose|k: int| 0 <= k < spans.len() && spans[k] == sorted[i];
        assert(spans[k].0.instant() <= spans[k].1.instant());
        assert(held_by(spans[k], big));
    }
    lemma_coalesce_held(sorted, big);
}

/// Adding spans to spans that were merged before comes to the same as merging all of them at once.
pub proof fn merging_in_steps(first: Seq<Span>, more: Seq<Span>)
    requires
        proper(first + more),
        days_follow_clock(first + more),
    ensures
        same_times(
            scheduling::merged(scheduling::merged(first) + more),
            scheduling::merged(first + more),
        ),
{
    let all = first + more;
    let m = scheduling::merged(first);
    let stepped = m + more;
    let result = scheduling::merged(all);
    assert forall|k: int| 0 <= k < first.len() implies #[trigger] first[k] == all[k] by {}
    merging_leaves_no_overlap(all);
    assert forall|k: int| 0 <= k < first.len() implies #[trigger] held_by(first[k], result) by {
        assert(all[k] == first[k]);
        merging_loses_no_time(all, k);
    }
    assert(proper(first)) by {
        assert forall|k: int| 0 <= k < first.len() implies (#[trigger] first[k]).0.instant()
            <= first[k].1.instant() by {
            assert(all[k].0.instant() <= all[k].1.instant());
        }
    }
    lemma_merged_held(first, result);
    assert forall|k: int| 0 <= k < stepped.len() implies held_by(
        #[trigger] stepped[k],
        result,
    ) && stepped[k].0.instant() <= stepped[k].1.instant() && starts_like_one(stepped[k], all) by {
        if k < m.len() {
            assert(stepped[k] == m[k]);
            assert(held_by(m[k], result));
            merging_keeps_starts(first, k);
            let l = choose|l: int| 0 <= l < first.len() && (#[trigger] first[l]).0 == m[k].0;
            assert(all[l].0 == stepped[k].0);
        } else {
            let l = k - m.len() + first.len();
            assert(stepped[k] == all[l]);
            merging_loses_no_time(all, l);
        }
    }
    assert(days_follow_clock(stepped)) by {
        assert forall|i: int, j: int|
            0 <= i < stepped.len() && 0 <= j < stepped.len() && (
            #[trigger] stepped[i]).0.instant() <= (
            #[trigger] stepped[j]).0.instant() implies stepped[i].0.day()
            <= stepped[j].0.day() by {
            assert(starts_like_one(stepped[i], all) && starts_like_one(stepped[j], all));
            let k = choose|k: int| 0 <= k < all.len() && (#[trigger] all[k]).0 == stepped[i].0;
            let l = choose|l: int| 0 <= l < all.len() && (#[trigger] all[l]).0 == stepped[j].0;
            assert(all[k].0.day() <= all[l].0.day());
        }
    }
    assert forall|k: int| 0 <= k < all.len() implies #[trigger] held_by(
        all[k],
        scheduling::merged(stepped),
    ) by {
        if k < first.len() {
            assert(all[k] == first[k]);
            merging_loses_no_time(first, k);
            let i = choose|i: int| 0 <= i < m.len() && holds(#[trigger] m[i], first[k]);
            assert(stepped[i] == m[i]);
            merging_loses_no_time(stepped, i);
            let j = choose|j: int|
                0 <= j < scheduling::merged(stepped).len() && holds(
                    #[trigger] scheduling::merged(stepped)[j],
                    stepped[i],
                );
            assert(holds(scheduling::merged(stepped)[j], all[k]));
        } else {
            let l = k - first.len() + m.len();
            assert(stepped[l] == all[k]);
            merging_loses_no_time(stepped, l);
        }
    }
    lemma_same_merge(stepped, all);
}

/// The days on which the spans start.
pub open spec fn start_days(spans: Seq<Span>) -> Set<int> {
    spans.map_values(|s: Span| s.0.day()).to_set()
}

#[verifier::spinoff_prover]
proof fn lemma_start_days_push(spans: Seq<Span>, span: Span)
    ensures
        start_days(spans.push(span)) == start_days(spans).insert(span.0.day()),
{
    let f = |s: Span| s.0.day();
    let days = spans.map_values(f);
    assert(spans.push(span).map_values(f) == days.push(span.0.day()));
    assert forall|n: int| days.push(span.0.day()).contains(n) <==> days.contains(n) || n
        == span.0.day() by {
        if days.contains(n) {
            let k = choose|k: int| 0 <= k < days.len() && days[k] == n;
            assert(days.push(span.0.day())[k] == n);
        }
        assert(days.push(span.0.day())[days.len() as int] == span.0.day());
    }
    let grown = start_days(spans.push(span));
    let wanted = start_days(spans).insert(span.0.day());
    assert(grown == days.push(span.0.day()).to_set());
    assert(start_days(spans) == days.to_set());
    assert forall|n: int| grown.contains(n) <==> wanted.contains(n) by {
        assert(grown.contains(n) <==> days.push(span.0.day()).contains(n));
        assert(start_days(spans).contains(n) <==> days.contains(n));
    }
    assert(grown =~= wanted);
}

proof fn lemma_one_line_per_day(locale: Locale, m: Seq<Span>)
    requires
        forall|i: int, j: int|
            0 <= i <= j < m.len() ==> (#[trigger] m[i]).0.day() <= (#[trigger] m[j]).0.day(),
    ensures
        scheduling::day_lines(locale, m).len() == start_days(m).len(),
    decreases m.len(),
{
    if m.len() == 0 {
        assert(start_days(m) =~= Set::<int>::empty());
    } else {
        let rest = m.drop_last();
        lemma_one_line_per_day(locale, rest);
        lemma_start_days_push(rest, m.last());
        assert(rest.push(m.last()) == m);
        let days = rest.map_values(|s: Span| s.0.day());
        if rest.len() > 0 && rest.last().0.day() == m.last().0.day() {
            assert(days[rest.len() - 1] == m.last().0.day());
            assert(start_days(rest).contains(m.last().0.day()));
            assert(start_days(rest).insert(m.last().0.day()) =~= start_days(rest));
            lemma_lines_not_empty(locale, rest);
        } else {
            assert(!start_days(rest).contains(m.last().0.day())) by {
                if days.contains(m.last().0.day()) {
                    let k = choose|k: int|
                        0 <= k < days.len() && days[k] == m.last().0.day();
                    assert(m[k].0.day() <= m[rest.len() - 1].0.day() <= m[rest.len() as int].0.day());
                }
            }
        }
    }
}

proof fn lemma_lines_not_empty(locale: Locale, m: Seq<Span>)
    requires
        m.len() > 0,
    ensures
        scheduling::day_lines(locale, m).len() > 0,
{
    reveal_with_fuel(scheduling::day_lines, 2);
}

/// The message has one line per day: as many lines as there are days on which the spans start,
/// wherever the days of the spans follow the clock.
pub proof fn one_line_per_day(locale: Locale, spans: Seq<Span>)
    requires
        days_follow_clock(spans),
    ensures
        scheduling::day_lines(locale, scheduling::merged(spans)).len() == start_days(spans).len(),
{
    let m = scheduling::merged(spans);
    lemma_merged(spans);
    merging_leaves_no_overlap(spans);
    assert forall|i: int, j: int| 0 <= i <= j < m.len() implies (#[trigger] m[i]).0.day() <= (
    #[trigger] m[j]).0.day() by {
        assert(m[i].0.instant() <= m[j].0.instant());
    }
    lemma_one_line_per_day(locale, m);
    let f = |s: Span| s.0.day();
    assert forall|n: int| start_days(spans).contains(n) <==> start_days(m).contains(n) by {
        if spans.map_values(f).contains(n) {
            let k = choose|k: int| 0 <= k < spans.len() && spans.map_values(f)[k] == n;
            merging_loses_no_time(spans, k);
            let i = choose|i: int| 0 <= i < m.len() && holds(#[trigger] m[i], spans[k]);
            assert(m.map_values(f)[i] == n);
        }
        if m.map_values(f).contains(n) {
            let i = choose|i: int| 0 <= i < m.len() && m.map_values(f)[i] == n;
            merging_keeps_starts(spans, i);
            let k = choose|k: int| 0 <= k < spans.len() && (#[trigger] spans[k]).0 == m[i].0;
            assert(spans.map_values(f)[k] == n);
        }
    }
    assert(start_days(spans) =~= start_days(m));
}

/// Whether, span by span, adding the spans of `sorted` one after the other gives no more than the
/// first spans of `m`.
spec fn builds(sorted: Seq<Span>, m: Seq<Span>) -> bool
    decreases sorted.len(),
{
    sorted.len() == 0 || builds(sorted.drop_last(), m) && {
        let c = scheduling::coalesce(sorted);
        c.len() <= m.len() && c == m.take(c.len() as int)
    }
}

/// Spans in order that do not overlap build themselves.
proof fn lemma_builds_itself(m: Seq<Span>, k: int)
    requires
        0 <= k <= m.len(),
        chronological(m),
        separate(m),
    ensures
        builds(m.take(k), m),
        scheduling::coalesce(m.take(k)) == m.take(k),
    decreases k,
{
    let part = m.take(k);
    if k > 0 {
        lemma_builds_itself(m, k - 1);
        assert(part.drop_last() == m.take(k - 1));
        if k > 1 {
            assert(!scheduling::joins(m[k - 1 - 1], m[k - 1]));
            assert(m.take(k - 1).last() == m[k - 2]);
        }
        assert(m.take(k - 1).push(m[k - 1]) == part);
    }
}

/// Whether `span` lies in `spans[j]`, and the spans behind that one start after it does.
spec fn lies_at(span: Span, spans: Seq<Span>, j: int) -> bool {
    &&& 0 <= j < spans.len()
    &&& holds(spans[j], span)
    &&& span.0.instant() <= spans[j].1.instant()
    &&& forall|i: int| j < i < spans.len() ==> span.0.instant() < (#[trigger] spans[i]).0.instant()
}

/// Whether `span` lies in one of `spans`, and the spans behind that one start after it does.
spec fn lies_in(span: Span, spans: Seq<Span>) -> bool {
    exists|j: int| #[trigger] lies_at(span, spans, j)
}

/// A span that lies in what is built already changes nothing when it is put into its place.
proof fn lemma_insert_held(sorted: Seq<Span>, m: Seq<Span>, span: Span)
    requires
        chronological(sorted),
        builds(sorted, m),
        lies_in(span, scheduling::coalesce(sorted)),
    ensures
        builds(scheduling::insert_span(sorted, span), m),
        scheduling::coalesce(scheduling::insert_span(sorted, span)) == scheduling::coalesce(sorted),
    decreases sorted.len(),
{
    let c = scheduling::coalesce(sorted);
    let j = choose|j: int| #[trigger] lies_at(span, c, j);
    let rest = sorted.drop_last();
    let last = sorted.last();
    lemma_coalesce(sorted);
    if last.0.instant() <= span.0.instant() {
        assert(j < c.len() - 1 ==> span.0.instant() < c[c.len() - 1].0.instant());
        assert(holds(c.last(), span));
        assert(sorted.push(span).drop_last() == sorted);
        assert(c.drop_last().push(c.last()) == c);
        assert(scheduling::absorb(c, span) == c);
    } else {
        let d = scheduling::coalesce(rest);
        assert(builds(rest, m));
        assert(rest.len() == 0 ==> d.len() == 0);
        assert(c == scheduling::absorb(d, last));
        if d.len() > 0 && scheduling::joins(d.last(), last) {
            assert(c == d);
        } else {
            assert(c == d.push(last));
            assert(j < d.len());
            assert forall|i: int| j < i < d.len() implies span.0.instant() < (
            #[trigger] d[i]).0.instant() by {
                assert(c[i] == d[i]);
            }
        }
        assert(lies_at(span, d, j));
        lemma_insert_held(rest, m, span);
        let inner = scheduling::insert_span(rest, span);
        assert(inner.push(last).drop_last() == inner);
    }
}

proof fn lemma_add_held(m: Seq<Span>, more: Seq<Span>)
    requires
        chronological(m),
        separate(m),
        forall|k: int| 0 <= k < more.len() ==> #[trigger] lies_in(more[k], m),
    ensures
        builds(scheduling::sort_spans(m + more), m),
        scheduling::merged(m + more) == m,
    decreases more.len(),
{
    let all = m + more;
    if more.len() == 0 {
        assert(all == m);
        assert(m.take(m.len() as int) == m);
        lemma_builds_itself(m, m.len() as int);
        lemma_sorted_is_kept(m);
    } else {
        let rest = more.drop_last();
        assert(all.drop_last() == m + rest);
        assert forall|k: int| 0 <= k < rest.len() implies #[trigger] lies_in(rest[k], m) by {
            assert(lies_in(more[k], m));
        }
        lemma_add_held(m, rest);
        lemma_sort_chronological(m + rest);
        assert(lies_in(more[more.len() - 1], m));
        lemma_insert_held(scheduling::sort_spans(m + rest), m, more.last());
    }
}

/// Whether `sorted[k]` was added to `spans[i]`, or has become it, and each span behind that one
/// starts with one that comes behind `sorted[k]`.
spec fn landed_at(sorted: Seq<Span>, k: int, spans: Seq<Span>, i: int) -> bool {
    &&& 0 <= i < spans.len()
    &&& holds(spans[i], sorted[k])
    &&& sorted[k].0.instant() <= spans[i].1.instant() || spans[i] == sorted[k]
    &&& forall|l: int| i < l < spans.len() ==> starts_behind(#[trigger] spans[l], sorted, k)
}

/// Whether `span` starts with a span that comes behind `sorted[k]`.
spec fn starts_behind(span: Span, sorted: Seq<Span>, k: int) -> bool {
    exists|q: int| k < q < sorted.len() && (#[trigger] sorted[q]).0 == span.0
}

proof fn lemma_coalesce_lands(sorted: Seq<Span>, k: int) -> (i: int)
    requires
        chronological(sorted),
        0 <= k < sorted.len(),
    ensures
        landed_at(sorted, k, scheduling::coalesce(sorted), i),
    decreases sorted.len(),
{
    let rest = sorted.drop_last();
    let before = scheduling::coalesce(rest);
    let after = scheduling::coalesce(sorted);
    lemma_coalesce(rest);
    lemma_coalesce(sorted);
    assert(sorted[k].0.instant() <= sorted[sorted.len() - 1].0.instant());
    if k < sorted.len() - 1 {
        let i = lemma_coalesce_lands(rest, k);
        assert(rest[k] == sorted[k]);
        assert forall|l: int| i < l < after.len() implies starts_behind(
            #[trigger] after[l],
            sorted,
            k,
        ) by {
            if l < before.len() {
                assert(before[l].0 == after[l].0);
                assert(starts_behind(before[l], rest, k));
                let q = choose|q: int|
                    k < q < rest.len() && (#[trigger] rest[q]).0 == before[l].0;
                assert(sorted[q] == rest[q]);
            } else {
                assert(sorted[sorted.len() - 1].0 == after[l].0);
            }
        }
        i
    } else {
        if rest.len() > 0 {
            assert(sorted[rest.len() - 1].0.instant() <= sorted.last().0.instant());
        }
        after.len() - 1
    }
}

/// Where a span is put: behind all that start no later, before all that start later.
proof fn lemma_insert_place(sorted: Seq<Span>, span: Span) -> (at: int)
    requires
        chronological(sorted),
    ensures
        0 <= at <= sorted.len(),
        scheduling::insert_span(sorted, span) == sorted.take(at).push(span) + sorted.skip(at),
        forall|i: int|
            at <= i < sorted.len() ==> (#[trigger] sorted[i]).0.instant() > span.0.instant(),
    decreases sorted.len(),
{
    if sorted.len() == 0 || sorted.last().0.instant() <= span.0.instant() {
        let at = sorted.len() as int;
        assert(sorted.push(span) == sorted.take(at).push(span) + sorted.skip(at));
        at
    } else {
        let rest = sorted.drop_last();
        let at = lemma_insert_place(rest, span);
        assert forall|i: int| at <= i < sorted.len() implies (#[trigger] sorted[i]).0.instant()
            > span.0.instant() by {
            if i < rest.len() {
                assert(rest[i].0.instant() > span.0.instant());
            }
        }
        assert((rest.take(at).push(span) + rest.skip(at)).push(sorted.last()) == sorted.take(
            at,
        ).push(span) + sorted.skip(at));
        at
    }
}

/// Whether `sorted[p]` is `more[k]`, and all that start with it and come behind it are of `more`.
spec fn stands_behind_the_first(sorted: Seq<Span>, more: Seq<Span>, k: int, p: int) -> bool {
    &&& 0 <= p < sorted.len()
    &&& sorted[p] == more[k]
    &&& forall|q: int|
        p < q < sorted.len() && (#[trigger] sorted[q]).0.instant() == sorted[p].0.instant()
            ==> more.contains(sorted[q])
}

/// Of spans that start together, those of `first` come before those of `more`.
proof fn lemma_sort_place(first: Seq<Span>, more: Seq<Span>, k: int) -> (p: int)
    requires
        0 <= k < more.len(),
    ensures
        stands_behind_the_first(scheduling::sort_spans(first + more), more, k, p),
    decreases more.len(),
{
    let rest = more.drop_last();
    let last = more.last();
    let before = scheduling::sort_spans(first + rest);
    let sorted = scheduling::sort_spans(first + more);
    assert((first + more).drop_last() == first + rest);
    lemma_sort_chronological(first + rest);
    let at = lemma_insert_place(before, last);
    assert(sorted[at] == last);
    assert forall|q: int| at < q < sorted.len() implies #[trigger] sorted[q] == before[q - 1] by {}
    assert forall|q: int| 0 <= q < at implies #[trigger] sorted[q] == before[q] by {}
    assert(more[more.len() - 1] == last);
    if k == more.len() - 1 {
        at
    } else {
        let p = lemma_sort_place(first, rest, k);
        let place = if p < at {
            p
        } else {
            p + 1
        };
        assert(rest[k] == more[k]);
        assert forall|q: int|
            place < q < sorted.len() && (#[trigger] sorted[q]).0.instant()
                == sorted[place].0.instant() implies more.contains(sorted[q]) by {
            if q != at {
                let from = if q < at {
                    q
                } else {
                    q - 1
                };
                assert(before[from] == sorted[q]);
                assert(rest.contains(before[from]));
                let j = choose|j: int| 0 <= j < rest.len() && rest[j] == before[from];
                assert(more[j] == sorted[q]);
            }
        }
        place
    }
}

/// Whether spans that start together start on the same day.
pub open spec fn starts_agree(spans: Seq<Span>) -> bool {
    forall|i: int, j: int|
        0 <= i < spans.len() && 0 <= j < spans.len() && (#[trigger] spans[i]).0.instant() == (
        #[trigger] spans[j]).0.instant() ==> spans[i].0.day() == spans[j].0.day()
}

/// Merging spans again with some that were merged into them changes nothing, wherever those that
/// start together start on the same day, and no merged span ends before it starts.
pub proof fn merging_the_same_again_changes_nothing(first: Seq<Span>, more: Seq<Span>)
    requires
        starts_agree(more),
        proper(scheduling::merged(first + more)),
    ensures
        scheduling::merged(scheduling::merged(first + more) + more) == scheduling::merged(
            first + more,
        ),
{
    let all = first + more;
    let m = scheduling::merged(all);
    let sorted = scheduling::sort_spans(all);
    lemma_merged(all);
    lemma_sort_chronological(all);
    assert forall|k: int| 0 <= k < more.len() implies #[trigger] lies_in(more[k], m) by {
        let p = lemma_sort_place(first, more, k);
        let j = lemma_coalesce_lands(sorted, p);
        assert(m[j].0.instant() <= m[j].1.instant());
        if j + 1 < m.len() {
            assert(!scheduling::joins(m[j + 1 - 1], m[j + 1]));
            assert(starts_behind(m[j + 1], sorted, p));
            let q = choose|q: int| p < q < sorted.len() && (#[trigger] sorted[q]).0 == m[j + 1].0;
            assert(sorted[p].0.instant() <= sorted[q].0.instant());
            if sorted[q].0.instant() == sorted[p].0.instant() {
                assert(more.contains(sorted[q]));
                let l = choose|l: int| 0 <= l < more.len() && more[l] == sorted[q];
                assert(more[l].0.day() == more[k].0.day());
            }
            assert(more[k].0.instant() < m[j + 1].0.instant());
        }
        assert forall|i: int| j < i < m.len() implies more[k].0.instant() < (
        #[trigger] m[i]).0.instant() by {
            assert(m[j + 1].0.instant() <= m[i].0.instant());
        }
        assert(lies_at(more[k], m, j));
    }
    lemma_add_held(m, more);
}

/// Whether `t` is an end of one of the spans.
pub open spec fn is_end(t: LocalTime, spans: Seq<Span>) -> bool {
    exists|i: int| 0 <= i < spans.len() && ((#[trigger] spans[i]).0 == t || spans[i].1 == t)
}

/// Whether ends of the spans that are the same point in time are read on the same wall clock.
pub open spec fn one_clock(spans: Seq<Span>) -> bool {
    forall|t: LocalTime, u: LocalTime|
        #[trigger] is_end(t, spans) && #[trigger] is_end(u, spans) && t.instant() == u.instant()
            ==> t == u
}

proof fn lemma_one_clock_part(spans: Seq<Span>, part: Seq<Span>)
    requires
        one_clock(spans),
        forall|i: int| 0 <= i < part.len() ==> spans.contains(#[trigger] part[i]),
    ensures
        one_clock(part),
{
    assert forall|t: LocalTime| #[trigger] is_end(t, part) implies is_end(t, spans) by {
        let i = choose|i: int| 0 <= i < part.len() && ((#[trigger] part[i]).0 == t || part[i].1 == t);
        assert(spans.contains(part[i]));
        let k = choose|k: int| 0 <= k < spans.len() && spans[k] == part[i];
        assert(spans[k] == part[i]);
    }
}

proof fn lemma_coalesce_ends(sorted: Seq<Span>, i: int)
    requires
        0 <= i < scheduling::coalesce(sorted).len(),
    ensures
        is_end(scheduling::coalesce(sorted)[i].1, sorted),
    decreases sorted.len(),
{
    let rest = sorted.drop_last();
    let before = scheduling::coalesce(rest);
    let t = scheduling::coalesce(sorted)[i].1;
    assert(sorted[sorted.len() - 1] == sorted.last());
    if t != sorted.last().1 {
        lemma_coalesce_ends(rest, i);
        let k = choose|k: int| 0 <= k < rest.len() && ((#[trigger] rest[k]).0 == t || rest[k].1 == t);
        assert(sorted[k] == rest[k]);
    }
}

/// Two spans that start together can be added in either order.
proof fn lemma_absorb_commutes(rest: Seq<Span>, x: Span, y: Span)
    requires
        one_clock(rest.push(x).push(y)),
        x.0 == y.0,
        x.0.instant() <= x.1.instant(),
        y.0.instant() <= y.1.instant(),
    ensures
        scheduling::absorb(scheduling::absorb(scheduling::coalesce(rest), x), y)
            == scheduling::absorb(scheduling::absorb(scheduling::coalesce(rest), y), x),
{
    let c = scheduling::coalesce(rest);
    let all = rest.push(x).push(y);
    let n = rest.len() as int;
    assert(all[n] == x && all[n + 1] == y);
    assert(is_end(x.1, all) && is_end(y.1, all));
    let xy = scheduling::absorb(scheduling::absorb(c, x), y);
    let yx = scheduling::absorb(scheduling::absorb(c, y), x);
    if c.len() > 0 && scheduling::joins(c.last(), x) {
        lemma_coalesce_ends(rest, c.len() - 1);
        let t = c.last().1;
        let k = choose|k: int| 0 <= k < rest.len() && ((#[trigger] rest[k]).0 == t || rest[k].1 == t);
        assert(all[k] == rest[k]);
        assert(is_end(t, all));
        assert(xy == c.drop_last().push(
            (c.last().0, scheduling::later(scheduling::later(t, x.1), y.1)),
        ));
        assert(yx == c.drop_last().push(
            (c.last().0, scheduling::later(scheduling::later(t, y.1), x.1)),
        ));
    } else {
        assert(xy == c.push((x.0, scheduling::later(x.1, y.1))));
        assert(yx == c.push((x.0, scheduling::later(y.1, x.1))));
    }
}

/// A span can be added last if all behind it start when it does.
proof fn lemma_move_to_end(sorted: Seq<Span>, k: int)
    requires
        0 <= k < sorted.len(),
        one_clock(sorted),
        proper(sorted),
        forall|j: int| k <= j < sorted.len() ==> (#[trigger] sorted[j]).0 == sorted[k].0,
    ensures
        scheduling::coalesce(sorted) == scheduling::coalesce(sorted.remove(k).push(sorted[k])),
    decreases sorted.len(),
{
    let x = sorted[k];
    if k == sorted.len() - 1 {
        assert(sorted.remove(k).push(x) == sorted);
    } else {
        let front = sorted.drop_last();
        let y = sorted.last();
        assert forall|i: int| 0 <= i < front.len() implies sorted.contains(
            #[trigger] front[i],
        ) by {
            assert(sorted[i] == front[i]);
        }
        lemma_one_clock_part(sorted, front);
        assert forall|i: int| 0 <= i < front.len() implies (#[trigger] front[i]).0.instant()
            <= front[i].1.instant() by {
            assert(sorted[i].0.instant() <= sorted[i].1.instant());
        }
        assert forall|j: int| k <= j < front.len() implies (#[trigger] front[j]).0
            == front[k].0 by {
            assert(sorted[j].0 == sorted[k].0);
        }
        lemma_move_to_end(front, k);
        let rest = front.remove(k);
        let all = rest.push(x).push(y);
        assert forall|i: int| 0 <= i < all.len() implies sorted.contains(#[trigger] all[i]) by {
            let from = if i < k {
                i
            } else if i < rest.len() {
                i + 1
            } else if i == rest.len() {
                k
            } else {
                sorted.len() - 1
            };
            assert(sorted[from] == all[i]);
        }
        lemma_one_clock_part(sorted, all);
        assert(sorted[sorted.len() - 1].0 == x.0);
        assert(sorted[sorted.len() - 1].0.instant() <= sorted[sorted.len() - 1].1.instant());
        assert(x.0.instant() <= x.1.instant());
        lemma_absorb_commutes(rest, x, y);
        assert(rest.push(x).drop_last() == rest);
        assert(rest.push(y).drop_last() == rest);
        assert(rest.push(y).push(x).drop_last() == rest.push(y));
        assert(sorted.remove(k) == rest.push(y));
        let c = scheduling::coalesce(rest);
        assert(scheduling::coalesce(rest.push(x)) == scheduling::absorb(c, x));
        assert(scheduling::coalesce(rest.push(y)) == scheduling::absorb(c, y));
        assert(scheduling::coalesce(rest.push(y).push(x)) == scheduling::absorb(
            scheduling::coalesce(rest.push(y)),
            x,
        ));
        assert(front[k] == x);
    }
}

/// The order of spans that start together makes no difference.
proof fn lemma_coalesce_rearranged(a: Seq<Span>, b: Seq<Span>)
    requires
        chronological(a),
        chronological(b),
        proper(a),
        one_clock(a),
        a.to_multiset() == b.to_multiset(),
    ensures
        scheduling::coalesce(a) == scheduling::coalesce(b),
    decreases a.len(),
{
    broadcast use vstd::seq_lib::group_to_multiset_ensures;

    assert(a.len() == b.len()) by {
        assert(a.len() == a.to_multiset().len());
        assert(b.len() == b.to_multiset().len());
    }
    if a.len() > 0 {
        let x = a.last();
        let rest = a.drop_last();
        assert(rest.push(x) == a);
        assert(a[a.len() - 1] == x);
        assert(a.to_multiset().count(x) > 0);
        assert(b.to_multiset().count(x) > 0);
        assert(b.contains(x));
        let k = choose|k: int| 0 <= k < b.len() && b[k] == x;
        assert forall|i: int| 0 <= i < b.len() implies a.contains(#[trigger] b[i]) by {
            assert(b.to_multiset().count(b[i]) > 0);
            assert(a.to_multiset().count(b[i]) > 0);
        }
        lemma_one_clock_part(a, b);
        assert forall|i: int| 0 <= i < b.len() implies (#[trigger] b[i]).0.instant()
            <= b[i].1.instant() by {
            let l = choose|l: int| 0 <= l < a.len() && a[l] == b[i];
            assert(a[l].0.instant() <= a[l].1.instant());
        }
        assert forall|j: int| k <= j < b.len() implies (#[trigger] b[j]).0 == b[k].0 by {
            let l = choose|l: int| 0 <= l < a.len() && a[l] == b[j];
            assert(a[l].0.instant() <= a[a.len() - 1].0.instant());
            assert(b[k].0.instant() <= b[j].0.instant());
            assert(is_end(b[j].0, b) && is_end(b[k].0, b));
        }
        lemma_move_to_end(b, k);
        let other = b.remove(k);
        assert(rest.to_multiset() == other.to_multiset()) by {
            assert(a.to_multiset() == rest.to_multiset().insert(x));
            assert(other.to_multiset() == b.to_multiset().remove(x));
            assert(rest.to_multiset().insert(x).remove(x) =~= rest.to_multiset());
        }
        assert forall|i: int| 0 <= i < rest.len() implies a.contains(#[trigger] rest[i]) by {
            assert(a[i] == rest[i]);
        }
        lemma_one_clock_part(a, rest);
        assert forall|i: int, j: int| 0 <= i <= j < rest.len() implies (
        #[trigger] rest[i]).0.instant() <= (#[trigger] rest[j]).0.instant() by {
            assert(a[i].0.instant() <= a[j].0.instant());
        }
        assert forall|i: int| 0 <= i < rest.len() implies (#[trigger] rest[i]).0.instant()
            <= rest[i].1.instant() by {
            assert(a[i].0.instant() <= a[i].1.instant());
        }
        assert forall|i: int, j: int| 0 <= i <= j < other.len() implies (
        #[trigger] other[i]).0.instant() <= (#[trigger] other[j]).0.instant() by {
            let p = if i < k { i } else { i + 1 };
            let q = if j < k { j } else { j + 1 };
            assert(b[p].0.instant() <= b[q].0.instant());
        }
        lemma_coalesce_rearranged(rest, other);
        assert(other.push(x).drop_last() == other);
    }
}

proof fn lemma_insert_multiset(sorted: Seq<Span>, span: Span)
    ensures
        scheduling::insert_span(sorted, span).to_multiset() == sorted.to_multiset().insert(span),
    decreases sorted.len(),
{
    broadcast use vstd::seq_lib::group_to_multiset_ensures;

    if sorted.len() > 0 && sorted.last().0.instant() > span.0.instant() {
        let rest = sorted.drop_last();
        let last = sorted.last();
        lemma_insert_multiset(rest, span);
        assert(rest.push(last) == sorted);
        assert(rest.to_multiset().insert(span).insert(last) =~= rest.to_multiset().insert(
            last,
        ).insert(span));
    }
}

proof fn lemma_sort_multiset(spans: Seq<Span>)
    ensures
        scheduling::sort_spans(spans).to_multiset() == spans.to_multiset(),
    decreases spans.len(),
{
    broadcast use vstd::seq_lib::group_to_multiset_ensures;

    if spans.len() == 0 {
        assert(spans == Seq::<Span>::empty());
    } else {
        let rest = spans.drop_last();
        lemma_sort_multiset(rest);
        lemma_insert_multiset(scheduling::sort_spans(rest), spans.last());
        assert(rest.push(spans.last()) == spans);
    }
}

/// The order in which spans are given makes no difference to what they merge into, nor to the
/// message about them, wherever ends that are the same point in time are read on the same clock.
pub proof fn messages_do_not_depend_on_the_order(
    locale: Locale,
    spans: Seq<Span>,
    rearranged: Seq<Span>,
    intro: Seq<char>,
)
    requires
        proper(spans),
        one_clock(spans),
        rearranged.to_multiset() == spans.to_multiset(),
    ensures
        scheduling::merged(rearranged) == scheduling::merged(spans),
        scheduling::message(locale, rearranged, intro) == scheduling::message(locale, spans, intro),
{
    broadcast use vstd::seq_lib::group_to_multiset_ensures;

    let a = scheduling::sort_spans(spans);
    let b = scheduling::sort_spans(rearranged);
    lemma_sort_chronological(spans);
    lemma_sort_chronological(rearranged);
    lemma_sort_multiset(spans);
    lemma_sort_multiset(rearranged);
    scheduling::lemma_sorted_contains(spans);
    assert forall|i: int| 0 <= i < a.len() implies spans.contains(#[trigger] a[i]) by {
        assert(a.contains(a[i]));
    }
    lemma_one_clock_part(spans, a);
    assert forall|i: int| 0 <= i < a.len() implies (#[trigger] a[i]).0.instant()
        <= a[i].1.instant() by {
        let k = choose|k: int| 0 <= k < spans.len() && spans[k] == a[i];
        assert(spans[k].0.instant() <= spans[k].1.instant());
    }
    lemma_coalesce_rearranged(a, b);
    assert(spans.len() == rearranged.len()) by {
        assert(spans.len() == spans.to_multiset().len());
        assert(rearranged.len() == rearranged.to_multiset().len());
    }
}

/// The message about spans is the message about what they merge into.
pub proof fn messages_are_about_merged_spans(locale: Locale, spans: Seq<Span>, intro: Seq<char>)
    ensures
        scheduling::message(locale, scheduling::merged(spans), intro) == scheduling::message(
            locale,
            spans,
            intro,
        ),
{
    merging_is_idempotent(spans);
    lemma_sort_chronological(spans);
    lemma_coalesce(scheduling::sort_spans(spans));
}

} // verus!
