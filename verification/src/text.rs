//! Small pieces of text: digits, joined lists, and looking into a string.
use vstd::prelude::*;

verus! {

/// The character of the digit `d`, from 0 to 9.
pub open spec fn digit(d: int) -> char {
    if d == 0 {
        '0'
    } else if d == 1 {
        '1'
    } else if d == 2 {
        '2'
    } else if d == 3 {
        '3'
    } else if d == 4 {
        '4'
    } else if d == 5 {
        '5'
    } else if d == 6 {
        '6'
    } else if d == 7 {
        '7'
    } else if d == 8 {
        '8'
    } else {
        '9'
    }
}

/// `n`, from 0 to 99, in two digits.
pub open spec fn two_digits(n: int) -> Seq<char> {
    seq![digit(n / 10), digit(n % 10)]
}

/// `n`, from 0 to 99, without a leading zero.
pub open spec fn decimal(n: int) -> Seq<char> {
    if n < 10 {
        seq![digit(n)]
    } else {
        two_digits(n)
    }
}

/// The texts of `parts`, one after the other, with `separator` between each two.
pub open spec fn joined(parts: Seq<Seq<char>>, separator: Seq<char>) -> Seq<char>
    decreases parts.len(),
{
    if parts.len() == 0 {
        Seq::empty()
    } else if parts.len() == 1 {
        parts[0]
    } else {
        joined(parts.drop_last(), separator) + separator + parts.last()
    }
}

/// The texts of strings.
pub open spec fn texts(strings: Seq<String>) -> Seq<Seq<char>> {
    Seq::new(strings.len(), |i: int| strings[i]@)
}

/// The text of one more string comes last.
pub proof fn lemma_texts_push(strings: Seq<String>, last: String)
    ensures
        texts(strings.push(last)) == texts(strings).push(last@),
{
    assert(texts(strings.push(last)) =~= texts(strings).push(last@));
}

/// Whether `first` stands somewhere in `s` with `second` right behind it.
pub open spec fn has_pair(s: Seq<char>, first: char, second: char) -> bool {
    exists|i: int| 0 <= i < s.len() - 1 && #[trigger] s[i] == first && s[i + 1] == second
}

fn digit_str(d: u32) -> (s: &'static str)
    requires
        d < 10,
    ensures
        s@ == seq![digit(d as int)],
{
    proof {
        reveal_strlit("0");
        reveal_strlit("1");
        reveal_strlit("2");
        reveal_strlit("3");
        reveal_strlit("4");
        reveal_strlit("5");
        reveal_strlit("6");
        reveal_strlit("7");
        reveal_strlit("8");
        reveal_strlit("9");
    }
    match d {
        0 => "0",
        1 => "1",
        2 => "2",
        3 => "3",
        4 => "4",
        5 => "5",
        6 => "6",
        7 => "7",
        8 => "8",
        _ => "9",
    }
}

/// Appends `n` to `text` in two digits.
pub fn push_two_digits(text: &mut String, n: u32)
    requires
        n < 100,
    ensures
        final(text)@ == old(text)@ + two_digits(n as int),
{
    text.append(digit_str(n / 10));
    text.append(digit_str(n % 10));
    assert(text@ == old(text)@ + two_digits(n as int));
}

/// Appends `n` to `text` without a leading zero.
pub fn push_decimal(text: &mut String, n: u32)
    requires
        n < 100,
    ensures
        final(text)@ == old(text)@ + decimal(n as int),
{
    if n < 10 {
        text.append(digit_str(n));
    } else {
        push_two_digits(text, n);
    }
}

/// The characters of `text`.
pub fn chars_of(text: &str) -> (chars: Vec<char>)
    ensures
        chars@ == text@,
{
    let mut chars: Vec<char> = Vec::new();
    for c in iter: text.chars()
        invariant
            chars@ == text@.take(iter.index()),
            iter.seq() == text@,
    {
        chars.push(c);
    }
    chars
}

/// Whether `first` stands somewhere in `chars` with `second` right behind it.
pub fn contains_pair(chars: &Vec<char>, first: char, second: char) -> (found: bool)
    ensures
        found == has_pair(chars@, first, second),
{
    let mut i: usize = 0;
    while i < chars.len()
        invariant
            i <= chars.len(),
            forall|j: int|
                0 <= j < i && j < chars@.len() - 1 ==> !(#[trigger] chars@[j] == first && chars@[j + 1]
                    == second),
        decreases chars.len() - i,
    {
        if i + 1 < chars.len() && chars[i] == first && chars[i + 1] == second {
            return true;
        }
        i += 1;
    }
    false
}

/// The parts, one after the other, with `separator` between each two.
pub fn join(parts: &Vec<String>, separator: &str) -> (text: String)
    ensures
        text@ == joined(texts(parts@), separator@),
{
    let mut text = String::new();
    let ghost all = texts(parts@);
    let mut i: usize = 0;
    while i < parts.len()
        invariant
            i <= parts.len(),
            all == texts(parts@),
            text@ == joined(all.take(i as int), separator@),
        decreases parts.len() - i,
    {
        proof {
            assert(all.take(i + 1).drop_last() == all.take(i as int));
            assert(all.take(i + 1).last() == parts@[i as int]@);
        }
        if i > 0 {
            text.append(separator);
        }
        text.append(parts[i].as_str());
        i += 1;
    }
    assert(all.take(parts@.len() as int) == all);
    text
}

/// How many characters a box with `cols` columns and `lines` lines is taken to hold: one at least,
/// and no more than can be counted.
pub open spec fn budget(cols: int, lines: int) -> int {
    if cols * lines < 1 {
        1
    } else if cols * lines > usize::MAX {
        usize::MAX as int
    } else {
        cols * lines
    }
}

/// `text`, or, where it has more than `room` characters, as many of them as leave room for an
/// ellipsis, one at least, and the ellipsis.
pub open spec fn fitted(text: Seq<char>, room: int) -> Seq<char> {
    if text.len() <= room {
        text
    } else {
        text.take(if room > 1 { room - 1 } else { 1 }) + seq!['\u{2026}']
    }
}

/// `text`, shortened with an ellipsis where it does not fit into `cols` columns and `lines` lines.
pub fn fit_text(text: &str, cols: usize, lines: usize) -> (s: String)
    ensures
        s@ == fitted(text@, budget(cols as int, lines as int)),
{
    let product: usize = match cols.checked_mul(lines) {
        Some(product) => product,
        None => usize::MAX,
    };
    let room: usize = if product > 1 {
        product
    } else {
        1
    };
    assert(room == budget(cols as int, lines as int));
    let mut s = String::new();
    if text.unicode_len() <= room {
        s.append(text);
        assert(s@ == text@);
        return s;
    }
    let kept: usize = if room > 1 {
        room - 1
    } else {
        1
    };
    s.append(text.substring_char(0, kept));
    proof {
        reveal_strlit("\u{2026}");
    }
    s.append("\u{2026}");
    assert(s@ == fitted(text@, budget(cols as int, lines as int)));
    s
}

/// A text that was made to fit has no more characters than there is room for, as long as there is
/// room for one beside the ellipsis, and it says what the text says up to the ellipsis.
pub proof fn fitted_text_fits(text: Seq<char>, room: int)
    requires
        room >= 2,
    ensures
        fitted(text, room).len() <= room,
        text.len() <= room ==> fitted(text, room) == text,
        text.len() > room ==> fitted(text, room).last() == '\u{2026}' && fitted(
            text,
            room,
        ).drop_last() == text.take(room - 1),
{
    if text.len() > room {
        assert(fitted(text, room).drop_last() =~= text.take(room - 1));
    }
}

/// A box holds as many characters as it has columns in all its lines, and is taken to hold one
/// where it has none.
pub proof fn boxes_hold_columns_times_lines(cols: int, lines: int)
    requires
        cols >= 0,
        lines >= 0,
    ensures
        1 <= cols * lines <= usize::MAX ==> budget(cols, lines) == cols * lines,
        cols == 0 || lines == 0 ==> budget(cols, lines) == 1,
        1 <= budget(cols, lines) <= usize::MAX,
{
    assert(cols == 0 || lines == 0 ==> cols * lines == 0) by (nonlinear_arith);
}

/// Where there is room for one character only, a longer text keeps its first one before the
/// ellipsis.
pub proof fn fitted_text_keeps_a_character(text: Seq<char>, room: int)
    requires
        room >= 0,
        text.len() > room,
        text.len() >= 1,
    ensures
        fitted(text, room).len() >= 2,
        fitted(text, room)[0] == text[0],
        room <= 1 ==> fitted(text, room).len() == 2 && fitted(text, room)[1] == '\u{2026}',
{
}

/// The texts of strings are those of the strings, one for each.
pub proof fn texts_are_those_of_the_strings(strings: Seq<String>, i: int)
    ensures
        texts(strings).len() == strings.len(),
        0 <= i < strings.len() ==> texts(strings)[i] == strings[i]@,
{
}

/// How many lines of `cols` characters `n` characters take; one at least.
pub open spec fn lines_of(n: int, cols: int) -> int {
    let lines = if n % cols == 0 { n / cols } else { n / cols + 1 };
    if lines > 1 {
        lines
    } else {
        1
    }
}

/// How many lines of `cols` characters `text` takes; one at least.
pub fn wrapped_lines(text: &str, cols: usize) -> (lines: usize)
    requires
        cols > 0,
    ensures
        lines == lines_of(text@.len() as int, cols as int),
{
    let n = text.unicode_len();
    proof {
        lemma_quotient(n as int, cols as int);
    }
    let full: usize = n / cols;
    let lines: usize = if n % cols == 0 {
        full
    } else {
        full + 1
    };
    if lines > 1 {
        lines
    } else {
        1
    }
}

proof fn lemma_quotient(n: int, d: int)
    requires
        n >= 0,
        d > 0,
    ensures
        0 <= n / d <= n,
        n % d != 0 ==> n / d < n,
{
    assert(n == d * (n / d) + n % d && 0 <= n % d < d && 0 <= n / d) by (nonlinear_arith)
        requires
            n >= 0,
            d > 0,
    ;
    let q = n / d;
    assert(d * q >= q) by (nonlinear_arith)
        requires
            d > 0,
            q >= 0,
    ;
}

/// The lines that a text takes hold all of it, and one line less would not.
pub proof fn lines_hold_the_text(n: int, cols: int)
    requires
        n >= 0,
        cols > 0,
    ensures
        lines_of(n, cols) * cols >= n,
        lines_of(n, cols) == 1 || (lines_of(n, cols) - 1) * cols < n,
{
    let q = n / cols;
    let r = n % cols;
    assert(n == cols * q + r && 0 <= r < cols && 0 <= q) by (nonlinear_arith)
        requires
            n >= 0,
            cols > 0,
            q == n / cols,
            r == n % cols,
    ;
    assert(cols * q == q * cols && (q + 1) * cols == q * cols + cols && (q - 1) * cols == q * cols
        - cols && 1 * cols == cols && 0 * cols == 0) by (nonlinear_arith);
}

/// `text`, or `None` where it is empty.
pub fn non_empty(text: String) -> (entry: Option<String>)
    ensures
        entry == (if text@.len() > 0 {
            Some(text)
        } else {
            None
        }),
{
    if text.as_str().unicode_len() > 0 {
        Some(text)
    } else {
        None
    }
}

} // verus!
