//! What the operations on texts promise: what is cut off, where a text is cut apart,
//! and what stands in it.

use crate::text::decimal::{digits_value, int_text, nat_text, nat_text_reads_back};
use crate::text::slice::{
    contains_text, is_space, lines, lowered, occurs_at, split_on, starts_with, strip_line_end,
    strip_one_cr, trim, trim_end, trim_end_char, trim_start,
};
use vstd::prelude::*;

verus! {

/// Trimming a text takes off white space at both ends and nothing else: what is left is
/// a part of the text, begins and ends with no white space, and all before and after it
/// is white space.
pub proof fn trim_takes_off_outer_space(s: Seq<char>) -> (at: (int, int))
    ensures
        0 <= at.0 <= at.1 <= s.len(),
        trim(s) == s.subrange(at.0, at.1),
        forall|i: int| 0 <= i < at.0 ==> is_space(#[trigger] s[i]),
        forall|i: int| at.1 <= i < s.len() ==> is_space(#[trigger] s[i]),
        trim(s).len() > 0 ==> !is_space(trim(s)[0]) && !is_space(trim(s)[trim(s).len() - 1]),
{
    let end = lemma_trim_end(s);
    let front = s.take(end);
    let start = lemma_trim_start(front);
    assert(trim(s) =~= s.subrange(start, end));
    assert forall|i: int| 0 <= i < start implies is_space(#[trigger] s[i]) by {
        assert(front[i] == s[i]);
    }
    if start < end {
        assert(trim(s)[trim(s).len() - 1] == front[end - 1]);
    }
    (start, end)
}

proof fn lemma_trim_end(s: Seq<char>) -> (end: int)
    ensures
        0 <= end <= s.len(),
        trim_end(s) == s.take(end),
        forall|i: int| end <= i < s.len() ==> is_space(#[trigger] s[i]),
        end > 0 ==> !is_space(s[end - 1]),
    decreases s.len(),
{
    if s.len() > 0 && is_space(s.last()) {
        let front = s.drop_last();
        let end = lemma_trim_end(front);
        assert(s.take(end) =~= front.take(end));
        assert forall|i: int| end <= i < s.len() implies is_space(#[trigger] s[i]) by {
            if i < front.len() {
                assert(front[i] == s[i]);
            }
        }
        end
    } else {
        assert(s.take(s.len() as int) =~= s);
        s.len() as int
    }
}

proof fn lemma_trim_start(s: Seq<char>) -> (start: int)
    ensures
        0 <= start <= s.len(),
        trim_start(s) == s.skip(start),
        forall|i: int| 0 <= i < start ==> is_space(#[trigger] s[i]),
        start < s.len() ==> !is_space(s[start]),
    decreases s.len(),
{
    if s.len() > 0 && is_space(s.first()) {
        let rest = s.drop_first();
        let start = lemma_trim_start(rest);
        assert(s.skip(start + 1) =~= rest.skip(start));
        assert forall|i: int| 0 <= i < start + 1 implies is_space(#[trigger] s[i]) by {
            if i > 0 {
                assert(rest[i - 1] == s[i]);
            }
        }
        start + 1
    } else {
        assert(s.skip(0) =~= s);
        0
    }
}

proof fn lemma_trim_end_char(s: Seq<char>, c: char) -> (end: int)
    ensures
        0 <= end <= s.len(),
        trim_end_char(s, c) == s.take(end),
        forall|i: int| end <= i < s.len() ==> #[trigger] s[i] == c,
        end > 0 ==> s[end - 1] != c,
    decreases s.len(),
{
    if s.len() > 0 && s.last() == c {
        let front = s.drop_last();
        let end = lemma_trim_end_char(front, c);
        assert(s.take(end) =~= front.take(end));
        assert forall|i: int| end <= i < s.len() implies #[trigger] s[i] == c by {
            if i < front.len() {
                assert(front[i] == s[i]);
            }
        }
        end
    } else {
        assert(s.take(s.len() as int) =~= s);
        s.len() as int
    }
}

/// Taking the line end off a line takes off carriage returns and line feeds and
/// nothing else. A line without any at its end stays as it is.
pub proof fn only_the_line_end_is_taken_off(s: Seq<char>) -> (end: int)
    ensures
        0 <= end <= s.len(),
        strip_line_end(s) == s.take(end),
        forall|i: int| end <= i < s.len() ==> #[trigger] s[i] == '\n' || s[i] == '\r',
        end > 0 ==> s[end - 1] != '\r',
        s.len() > 0 && s[s.len() - 1] == '\n' ==> end < s.len(),
{
    let a = lemma_trim_end_char(s, '\n');
    let front = s.take(a);
    let b = lemma_trim_end_char(front, '\r');
    assert(s.take(b) =~= front.take(b));
    assert forall|i: int| b <= i < s.len() implies #[trigger] s[i] == '\n' || s[i] == '\r' by {
        if i < a {
            assert(front[i] == s[i]);
        }
    }
    b
}

/// No piece of a text that is cut at a character holds that character, and there is
/// one piece more than there are cuts.
pub proof fn pieces_hold_no_separator(s: Seq<char>, sep: char)
    ensures
        split_on(s, sep).len() == s.filter(|c: char| c == sep).len() + 1,
        forall|i: int, j: int|
            #![trigger split_on(s, sep)[i][j]]
            0 <= i < split_on(s, sep).len() && 0 <= j < split_on(s, sep)[i].len() ==> split_on(
                s,
                sep,
            )[i][j] != sep,
    decreases s.len(),
{
    reveal(Seq::filter);
    if s.len() > 0 {
        let rest = s.drop_last();
        pieces_hold_no_separator(rest, sep);
        let front = split_on(rest, sep);
        let all = split_on(s, sep);
        assert forall|i: int, j: int|
            #![trigger all[i][j]]
            0 <= i < all.len() && 0 <= j < all[i].len() implies all[i][j] != sep by {
            if s.last() == sep {
                if i < front.len() {
                    assert(all[i] == front[i]);
                    assert(front[i][j] != sep);
                }
            } else if i < front.len() - 1 {
                assert(all[i] == front[i]);
                assert(front[i][j] != sep);
            } else {
                let last = front[front.len() - 1];
                assert(all[i] == last.push(s.last()));
                if j < last.len() {
                    assert(front[front.len() - 1][j] != sep);
                }
            }
        }
    }
}

/// No line of a text holds a line feed.
pub proof fn lines_hold_no_line_feed(s: Seq<char>, i: int, j: int)
    requires
        0 <= i < lines(s).len(),
        0 <= j < lines(s)[i].len(),
    ensures
        lines(s)[i][j] != '\n',
{
    pieces_hold_no_separator(s, '\n');
    let pieces = split_on(s, '\n');
    if i < pieces.len() - 1 {
        assert(lines(s)[i] == strip_one_cr(pieces[i]));
        assert(pieces[i][j] != '\n');
    } else {
        assert(lines(s)[i] == pieces[pieces.len() - 1]);
        assert(pieces[pieces.len() - 1][j] != '\n');
    }
}

/// A text starts with another exactly if it is that text and something after it.
pub proof fn start_of_a_text(s: Seq<char>, prefix: Seq<char>)
    ensures
        starts_with(s, prefix) <==> exists|rest: Seq<char>| s == #[trigger] (prefix + rest),
{
    if starts_with(s, prefix) {
        assert(s =~= prefix + s.skip(prefix.len() as int));
    }
    assert forall|rest: Seq<char>| s == #[trigger] (prefix + rest) implies starts_with(
        s,
        prefix,
    ) by {
        assert(s.take(prefix.len() as int) =~= prefix);
    }
}

/// A text contains another exactly if it is something, that text and something more.
pub proof fn part_of_a_text(s: Seq<char>, part: Seq<char>)
    ensures
        contains_text(s, part) <==> exists|a: Seq<char>, b: Seq<char>|
            s == #[trigger] (a + part + b),
{
    if contains_text(s, part) {
        let i = choose|i: int| #[trigger] occurs_at(s, part, i);
        assert(s =~= s.take(i) + part + s.skip(i + part.len()));
    }
    assert forall|a: Seq<char>, b: Seq<char>| s == #[trigger] (a + part + b) implies contains_text(
        s,
        part,
    ) by {
        let i = a.len() as int;
        assert(s.subrange(i, i + part.len()) =~= part);
        assert(occurs_at(s, part, i));
    }
}

/// A text made small has no ASCII capital letter, is as long, and has every other
/// character where it was. Made small again it stays as it is.
pub proof fn lowered_text_has_no_capitals(s: Seq<char>)
    ensures
        lowered(s).len() == s.len(),
        forall|i: int| 0 <= i < s.len() ==> !('A' <= #[trigger] lowered(s)[i] <= 'Z'),
        forall|i: int|
            0 <= i < s.len() && !('A' <= s[i] <= 'Z') ==> #[trigger] lowered(s)[i] == s[i],
        forall|i: int|
            0 <= i < s.len() && 'A' <= s[i] <= 'Z' ==> (#[trigger] lowered(s)[i]) as int - 'a' as int
                == s[i] as int - 'A' as int,
        lowered(lowered(s)) == lowered(s),
{
    assert forall|i: int| 0 <= i < s.len() implies !('A' <= #[trigger] lowered(s)[i] <= 'Z') by {
    }
    assert(lowered(lowered(s)) =~= lowered(s));
}

/// A number is written without leading zeros, and with a minus sign exactly if it is
/// negative.
pub proof fn numbers_have_no_leading_zeros(n: int)
    ensures
        int_text(n).len() > 0,
        n < 0 <==> int_text(n)[0] == '-',
        n > 0 ==> int_text(n)[0] != '0',
        n < 0 ==> int_text(n)[1] != '0',
        n == 0 ==> int_text(n) == seq!['0'],
{
    let m: nat = if n < 0 {
        (-n) as nat
    } else {
        n as nat
    };
    lemma_first_digit(m);
    nat_text_reads_back(m);
    assert(nat_text(m)[0] != '-');
    if n < 0 {
        assert(int_text(n)[1] == nat_text(m)[0]);
    }
}

proof fn lemma_first_digit(n: nat)
    ensures
        nat_text(n).len() > 0,
        n > 0 ==> nat_text(n)[0] != '0',
        n == 0 ==> nat_text(n) == seq!['0'],
    decreases n,
{
    if n >= 10 {
        lemma_first_digit(n / 10);
    }
}

/// Each digit that is added counts for itself, and ten times what was before it.
pub proof fn digits_count_by_place(s: Seq<char>, d: char)
    requires
        '0' <= d <= '9',
    ensures
        digits_value(s.push(d)) == 10 * digits_value(s) + (d as int - '0' as int),
        digits_value(Seq::empty()) == 0,
{
    assert(s.push(d).drop_last() =~= s);
}

}
