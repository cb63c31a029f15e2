//! Splitting, trimming and searching string slices.

use vstd::prelude::*;

verus! {

/// `String::push` appends the given character to the end of the string.
pub assume_specification[ String::push ](s: &mut String, c: char)
    ensures
        final(s)@ == old(s)@.push(c),
;

/// The characters of a string slice, in order.
pub fn chars_of(s: &str) -> (chars: Vec<char>)
    ensures
        chars@ == s@,
{
    let mut chars: Vec<char> = Vec::new();
    for c in it: s.chars()
        invariant
            it.seq() == s@,
            chars@ == s@.take(it.index()),
    {
        proof {
            assert(s@.take(it.index() + 1) =~= s@.take(it.index()).push(s@[it.index()]));
        }
        chars.push(c);
    }
    assert(s@.take(s@.len() as int) =~= s@);
    chars
}

/// Whether two string slices hold the same characters.
pub fn str_eq(a: &str, b: &str) -> (r: bool)
    ensures
        r == (a@ == b@),
{
    a.to_owned() == b.to_owned()
}

/// The pieces of `s` between occurrences of `sep`; always at least one piece.
pub open spec fn split_on(s: Seq<char>, sep: char) -> Seq<Seq<char>>
    decreases s.len(),
{
    if s.len() == 0 {
        seq![Seq::<char>::empty()]
    } else {
        let front = split_on(s.drop_last(), sep);
        if s.last() == sep {
            front.push(Seq::<char>::empty())
        } else {
            front.update(front.len() - 1, front.last().push(s.last()))
        }
    }
}

/// The views of a vector of string slices.
pub open spec fn views(parts: Seq<&str>) -> Seq<Seq<char>> {
    parts.map_values(|p: &str| p@)
}

/// The views of a vector of owned strings.
pub open spec fn string_views(parts: Seq<String>) -> Seq<Seq<char>> {
    parts.map_values(|p: String| p@)
}

proof fn lemma_split_on_len(s: Seq<char>, sep: char)
    ensures
        split_on(s, sep).len() >= 1,
    decreases s.len(),
{
    if s.len() > 0 {
        lemma_split_on_len(s.drop_last(), sep);
    }
}

proof fn lemma_split_of_extended(s: Seq<char>, t: Seq<char>, sep: char)
    requires
        !t.contains(sep),
    ensures
        split_on(s + t, sep) == split_on(s, sep).update(
            split_on(s, sep).len() - 1,
            split_on(s, sep).last() + t,
        ),
    decreases t.len(),
{
    lemma_split_on_len(s, sep);
    let front = split_on(s, sep);
    if t.len() == 0 {
        assert(s + t =~= s);
        assert(front.last() + t =~= front.last());
        assert(front =~= front.update(front.len() - 1, front.last()));
    } else {
        let rest = t.drop_last();
        assert forall|c: char| rest.contains(c) implies t.contains(c) by {
            let k = choose|k: int| 0 <= k < rest.len() && rest[k] == c;
            assert(t[k] == c);
        }
        lemma_split_of_extended(s, rest, sep);
        assert((s + t).drop_last() =~= s + rest);
        assert(t.contains(t.last()));
        assert((front.last() + rest).push(t.last()) =~= front.last() + t);
        let mid = front.update(front.len() - 1, front.last() + rest);
        assert(mid.update(mid.len() - 1, mid.last().push(t.last())) =~= front.update(
            front.len() - 1,
            front.last() + t,
        ));
    }
}

/// Joined pieces are split into the same pieces, as long as none of them holds
/// the separator.
pub proof fn split_undoes_join(parts: Seq<Seq<char>>, sep: char)
    requires
        parts.len() > 0,
        forall|i: int| 0 <= i < parts.len() ==> !(#[trigger] parts[i]).contains(sep),
    ensures
        split_on(join(parts, seq![sep]), sep) == parts,
    decreases parts.len(),
{
    let last = parts.last();
    if parts.len() == 1 {
        let none = Seq::<char>::empty();
        lemma_split_of_extended(none, last, sep);
        assert(none + last =~= last);
        assert(split_on(last, sep) =~= parts);
    } else {
        let front = parts.drop_last();
        assert forall|i: int| 0 <= i < front.len() implies !(#[trigger] front[i]).contains(sep) by {
            assert(front[i] == parts[i]);
        }
        split_undoes_join(front, sep);
        let opened = join(front, seq![sep]) + seq![sep];
        assert(opened.drop_last() =~= join(front, seq![sep]));
        assert(split_on(opened, sep) == front.push(Seq::<char>::empty()));
        lemma_split_of_extended(opened, last, sep);
        assert(Seq::<char>::empty() + last =~= last);
        assert(front.push(Seq::<char>::empty()).update(front.len() as int, last) =~= parts);
    }
}

/// Splits a string slice on every occurrence of a separator character.
pub fn split_char<'a>(s: &'a str, sep: char) -> (parts: Vec<&'a str>)
    ensures
        views(parts@) == split_on(s@, sep),
        parts@.len() >= 1,
{
    let chars = chars_of(s);
    let mut parts: Vec<&'a str> = Vec::new();
    let mut start: usize = 0;
    let mut i: usize = 0;
    proof {
        assert(s@.take(0) =~= Seq::<char>::empty());
        assert(views(parts@).push(s@.subrange(0, 0)) =~= seq![Seq::<char>::empty()]);
    }
    while i < chars.len()
        invariant
            chars@ == s@,
            start <= i <= chars.len(),
            views(parts@).push(s@.subrange(start as int, i as int)) == split_on(s@.take(i as int), sep),
        decreases chars.len() - i,
    {
        let ghost before = parts@;
        proof {
            let t = s@.take(i + 1);
            assert(t.drop_last() =~= s@.take(i as int));
            assert(t.last() == s@[i as int]);
        }
        if chars[i] == sep {
            parts.push(s.substring_char(start, i));
            proof {
                assert(views(parts@) =~= views(before).push(s@.subrange(start as int, i as int)));
            }
            start = i + 1;
            proof {
                assert(s@.subrange(start as int, i + 1) =~= Seq::<char>::empty());
            }
        } else {
            proof {
                let front = views(before).push(s@.subrange(start as int, i as int));
                assert(s@.subrange(start as int, i + 1) =~= s@.subrange(start as int, i as int).push(
                    s@[i as int],
                ));
                assert(views(parts@).push(s@.subrange(start as int, i + 1)) =~= front.update(
                    front.len() - 1,
                    front.last().push(s@[i as int]),
                ));
            }
        }
        i += 1;
    }
    let ghost before = parts@;
    parts.push(s.substring_char(start, i));
    proof {
        assert(s@.take(i as int) =~= s@);
        assert(views(parts@) =~= views(before).push(s@.subrange(start as int, i as int)));
    }
    parts
}


/// Whether a character is Unicode white space.
pub open spec fn is_space(c: char) -> bool {
    let u = c as u32;
    ||| 0x09 <= u <= 0x0d
    ||| u == 0x20
    ||| u == 0x85
    ||| u == 0xa0
    ||| u == 0x1680
    ||| 0x2000 <= u <= 0x200a
    ||| u == 0x2028
    ||| u == 0x2029
    ||| u == 0x202f
    ||| u == 0x205f
    ||| u == 0x3000
}

/// Decides whether a character is Unicode white space.
pub fn char_is_space(c: char) -> (r: bool)
    ensures
        r == is_space(c),
{
    let u = c as u32;
    (0x09 <= u && u <= 0x0d) || u == 0x20 || u == 0x85 || u == 0xa0 || u == 0x1680 || (0x2000 <= u
        && u <= 0x200a) || u == 0x2028 || u == 0x2029 || u == 0x202f || u == 0x205f || u == 0x3000
}

/// `s` without its leading white space.
pub open spec fn trim_start(s: Seq<char>) -> Seq<char>
    decreases s.len(),
{
    if s.len() > 0 && is_space(s.first()) {
        trim_start(s.drop_first())
    } else {
        s
    }
}

/// `s` without its trailing white space.
pub open spec fn trim_end(s: Seq<char>) -> Seq<char>
    decreases s.len(),
{
    if s.len() > 0 && is_space(s.last()) {
        trim_end(s.drop_last())
    } else {
        s
    }
}

/// `s` without leading and trailing white space.
pub open spec fn trim(s: Seq<char>) -> Seq<char> {
    trim_start(trim_end(s))
}

/// `s` without the occurrences of `c` at its end.
pub open spec fn trim_end_char(s: Seq<char>, c: char) -> Seq<char>
    decreases s.len(),
{
    if s.len() > 0 && s.last() == c {
        trim_end_char(s.drop_last(), c)
    } else {
        s
    }
}

/// The string slice without its leading white space.
pub fn str_trim_start<'a>(s: &'a str) -> (r: &'a str)
    ensures
        r@ == trim_start(s@),
{
    let chars = chars_of(s);
    let mut i: usize = 0;
    assert(s@.skip(0) =~= s@);
    while i < chars.len() && char_is_space(chars[i])
        invariant
            chars@ == s@,
            i <= chars.len(),
            trim_start(s@) == trim_start(s@.skip(i as int)),
        decreases chars.len() - i,
    {
        assert(s@.skip(i as int).drop_first() =~= s@.skip(i + 1));
        i += 1;
    }
    assert(s@.skip(i as int) =~= s@.subrange(i as int, s@.len() as int));
    s.substring_char(i, chars.len())
}

/// The string slice without its trailing white space.
pub fn str_trim_end<'a>(s: &'a str) -> (r: &'a str)
    ensures
        r@ == trim_end(s@),
{
    let chars = chars_of(s);
    let mut n: usize = chars.len();
    assert(s@.take(s@.len() as int) =~= s@);
    while n > 0 && char_is_space(chars[n - 1])
        invariant
            chars@ == s@,
            n <= chars.len(),
            trim_end(s@) == trim_end(s@.take(n as int)),
        decreases n,
    {
        assert(s@.take(n as int).drop_last() =~= s@.take(n - 1));
        n -= 1;
    }
    assert(s@.take(n as int) =~= s@.subrange(0, n as int));
    s.substring_char(0, n)
}

/// The string slice without leading and trailing white space.
pub fn str_trim<'a>(s: &'a str) -> (r: &'a str)
    ensures
        r@ == trim(s@),
{
    str_trim_start(str_trim_end(s))
}

/// The string slice without the occurrences of `c` at its end.
pub fn str_trim_end_char<'a>(s: &'a str, c: char) -> (r: &'a str)
    ensures
        r@ == trim_end_char(s@, c),
{
    let chars = chars_of(s);
    let mut n: usize = chars.len();
    assert(s@.take(s@.len() as int) =~= s@);
    while n > 0 && chars[n - 1] == c
        invariant
            chars@ == s@,
            n <= chars.len(),
            trim_end_char(s@, c) == trim_end_char(s@.take(n as int), c),
        decreases n,
    {
        assert(s@.take(n as int).drop_last() =~= s@.take(n - 1));
        n -= 1;
    }
    assert(s@.take(n as int) =~= s@.subrange(0, n as int));
    s.substring_char(0, n)
}

/// The line without its end: line feeds, then carriage returns, are removed.
pub open spec fn strip_line_end(line: Seq<char>) -> Seq<char> {
    trim_end_char(trim_end_char(line, '\n'), '\r')
}

/// Removes the line end from a line.
pub fn str_strip_line_end<'a>(line: &'a str) -> (r: &'a str)
    ensures
        r@ == strip_line_end(line@),
{
    str_trim_end_char(str_trim_end_char(line, '\n'), '\r')
}

/// Whether `s` begins with `prefix`.
pub open spec fn starts_with(s: Seq<char>, prefix: Seq<char>) -> bool {
    prefix.len() <= s.len() && s.take(prefix.len() as int) == prefix
}

/// What follows `prefix` in `s`, when `s` begins with it.
pub fn str_strip_prefix<'a>(s: &'a str, prefix: &str) -> (r: Option<&'a str>)
    ensures
        match r {
            Some(rest) => starts_with(s@, prefix@) && rest@ == s@.skip(prefix@.len() as int),
            None => !starts_with(s@, prefix@),
        },
{
    let n = s.unicode_len();
    let p = prefix.unicode_len();
    if p > n {
        return None;
    }
    let head = s.substring_char(0, p);
    assert(head@ =~= s@.take(p as int));
    if str_eq(head, prefix) {
        assert(s@.skip(p as int) =~= s@.subrange(p as int, n as int));
        Some(s.substring_char(p, n))
    } else {
        None
    }
}

/// Decides whether a string slice begins with a prefix.
pub fn str_starts_with(s: &str, prefix: &str) -> (r: bool)
    ensures
        r == starts_with(s@, prefix@),
{
    str_strip_prefix(s, prefix).is_some()
}

/// Whether the first character of `s` is `c`.
pub open spec fn starts_with_char(s: Seq<char>, c: char) -> bool {
    s.len() > 0 && s[0] == c
}

/// Decides whether the first character of a string slice is `c`.
pub fn str_starts_with_char(s: &str, c: char) -> (r: bool)
    ensures
        r == starts_with_char(s@, c),
{
    !s.is_empty() && s.get_char(0) == c
}

/// Calls `str::strip_prefix` with a character: what follows the character, if it
/// is the first one.
#[verifier::external_body]
pub(crate) fn strip_char<'a>(s: &'a str, c: char) -> (r: Option<&'a str>)
    ensures
        match r {
            Some(rest) => starts_with_char(s@, c) && rest@ == s@.skip(1),
            None => !starts_with_char(s@, c),
        },
{
    s.strip_prefix(c)
}

/// Whether `needle` occurs in `s` at position `i`.
pub open spec fn occurs_at(s: Seq<char>, needle: Seq<char>, i: int) -> bool {
    0 <= i && i + needle.len() <= s.len() && s.subrange(i, i + needle.len()) == needle
}

/// Whether `needle` occurs anywhere in `s`.
pub open spec fn contains_text(s: Seq<char>, needle: Seq<char>) -> bool {
    exists|i: int| occurs_at(s, needle, i)
}

/// Decides whether `needle` occurs anywhere in a string slice.
pub fn str_contains(s: &str, needle: &str) -> (r: bool)
    ensures
        r == contains_text(s@, needle@),
{
    let hay = chars_of(s);
    let pin = chars_of(needle);
    if pin.len() > hay.len() {
        return false;
    }
    let last: usize = hay.len() - pin.len();
    let mut i: usize = 0;
    while i <= last
        invariant
            hay@ == s@,
            pin@ == needle@,
            pin.len() <= hay.len(),
            last == hay.len() - pin.len(),
            i <= last + 1,
            last < usize::MAX || hay.len() == usize::MAX,
            forall|k: int| 0 <= k < i ==> !occurs_at(s@, needle@, k),
        decreases last + 1 - i,
    {
        let mut j: usize = 0;
        while j < pin.len() && hay[i + j] == pin[j]
            invariant
                hay@ == s@,
                pin@ == needle@,
                pin.len() <= hay.len(),
                last == hay.len() - pin.len(),
                i <= last,
                j <= pin.len(),
                forall|k: int| 0 <= k < j ==> hay@[i + k] == pin@[k],
            decreases pin.len() - j,
        {
            j += 1;
        }
        if j == pin.len() {
            assert(s@.subrange(i as int, i + needle@.len()) =~= needle@);
            assert(occurs_at(s@, needle@, i as int));
            return true;
        }
        proof {
            if occurs_at(s@, needle@, i as int) {
                assert(s@.subrange(i as int, i + needle@.len())[j as int] == needle@[j as int]);
                assert(false);
            }
        }
        if i == last {
            return false;
        }
        i += 1;
    }
    false
}

/// Whether `c` occurs in `s`.
pub fn str_contains_char(s: &str, c: char) -> (r: bool)
    ensures
        r == s@.contains(c),
{
    let chars = chars_of(s);
    let mut i: usize = 0;
    while i < chars.len()
        invariant
            chars@ == s@,
            i <= chars.len(),
            forall|k: int| 0 <= k < i ==> s@[k] != c,
        decreases chars.len() - i,
    {
        if chars[i] == c {
            return true;
        }
        i += 1;
    }
    false
}

/// The pieces joined with a separator between neighbours.
pub open spec fn join(parts: Seq<Seq<char>>, sep: Seq<char>) -> Seq<char>
    decreases parts.len(),
{
    if parts.len() == 0 {
        Seq::<char>::empty()
    } else if parts.len() == 1 {
        parts[0]
    } else {
        join(parts.drop_last(), sep) + sep + parts.last()
    }
}

/// A text is its pieces joined again.
pub proof fn join_undoes_split(s: Seq<char>, sep: char)
    ensures
        join(split_on(s, sep), seq![sep]) == s,
    decreases s.len(),
{
    if s.len() > 0 {
        let start = s.drop_last();
        let front = split_on(start, sep);
        let parts = split_on(s, sep);
        join_undoes_split(start, sep);
        lemma_split_on_len(start, sep);
        if s.last() == sep {
            assert(parts.drop_last() =~= front);
            assert(join(parts, seq![sep]) =~= start + seq![sep]);
        } else {
            assert(parts.drop_last() =~= front.drop_last());
            assert(parts.last() == front.last().push(s.last()));
            assert(join(parts, seq![sep]) =~= join(front, seq![sep]).push(s.last()));
        }
        assert(start.push(s.last()) =~= s);
    } else {
        assert(join(split_on(s, sep), seq![sep]) =~= s);
    }
}

/// Joins owned strings with a separator between neighbours.
pub fn join_strings(parts: &Vec<String>, sep: &str) -> (r: String)
    ensures
        r@ == join(string_views(parts@), sep@),
{
    let mut r = String::new();
    let mut i: usize = 0;
    let ghost all = string_views(parts@);
    assert(all.take(0) =~= Seq::<Seq<char>>::empty());
    while i < parts.len()
        invariant
            i <= parts.len(),
            all == string_views(parts@),
            r@ == join(all.take(i as int), sep@),
        decreases parts.len() - i,
    {
        proof {
            assert(all.take(i + 1).drop_last() =~= all.take(i as int));
            assert(all.take(i + 1).last() == parts@[i as int]@);
            if i == 0 {
                assert(r@ + parts@[0]@ =~= parts@[0]@);
            }
        }
        if i > 0 {
            r.append(sep);
        }
        r.append(parts[i].as_str());
        i += 1;
    }
    assert(all.take(all.len() as int) =~= all);
    r
}

/// `c`, with the letters `A` to `Z` replaced by `a` to `z`.
pub open spec fn ascii_lower(c: char) -> char {
    if 'A' <= c && c <= 'Z' {
        ((c as u8) + 32) as u8 as char
    } else {
        c
    }
}

/// A text with its ASCII capital letters made small.
pub open spec fn lowered(s: Seq<char>) -> Seq<char> {
    s.map_values(|c: char| ascii_lower(c))
}

/// A string slice with its ASCII capital letters made small.
pub fn str_ascii_lower(s: &str) -> (r: String)
    ensures
        r@ == lowered(s@),
{
    let chars = chars_of(s);
    let mut r = String::new();
    let mut i: usize = 0;
    let ghost all = lowered(s@);
    while i < chars.len()
        invariant
            chars@ == s@,
            i <= chars.len(),
            all == lowered(s@),
            r@ == all.take(i as int),
        decreases chars.len() - i,
    {
        let c = chars[i];
        let low = if 'A' <= c && c <= 'Z' {
            ((c as u8) + 32) as char
        } else {
            c
        };
        assert(all.take(i + 1) =~= all.take(i as int).push(all[i as int]));
        r.push(low);
        i += 1;
    }
    assert(all.take(all.len() as int) =~= all);
    r
}

/// Drops the carriage return that closes a line ended by a line feed.
pub open spec fn strip_one_cr(s: Seq<char>) -> Seq<char> {
    if s.len() > 0 && s.last() == '\r' {
        s.drop_last()
    } else {
        s
    }
}

/// The lines of a text: each ends at a line feed or at the end of the text,
/// a carriage return before the line feed belongs to the line end, and no
/// line follows a final line feed.
pub open spec fn lines(s: Seq<char>) -> Seq<Seq<char>> {
    let pieces = split_on(s, '\n');
    let ended = pieces.drop_last().map_values(|p: Seq<char>| strip_one_cr(p));
    if pieces.last().len() == 0 {
        ended
    } else {
        ended.push(pieces.last())
    }
}

/// A line that is added to a text of whole lines is its last line.
pub proof fn added_line_is_last(s: Seq<char>, line: Seq<char>)
    requires
        s.len() == 0 || s.last() == '\n',
        !line.contains('\n'),
        line.len() == 0 || line.last() != '\r',
    ensures
        lines(s + line.push('\n')) == lines(s).push(line),
{
    let front = split_on(s, '\n');
    lemma_split_on_len(s, '\n');
    if s.len() > 0 {
        lemma_split_on_len(s.drop_last(), '\n');
    }
    assert(front.last() =~= Seq::<char>::empty());
    lemma_split_of_extended(s, line, '\n');
    let whole = s + line.push('\n');
    assert(whole.drop_last() =~= s + line);
    let pieces = split_on(whole, '\n');
    assert(front.last() + line =~= line);
    assert(pieces =~= front.update(front.len() - 1, line).push(Seq::<char>::empty()));
    assert(pieces.drop_last() =~= front.drop_last().push(line));
    assert(lines(whole) =~= lines(s).push(line));
}

proof fn lemma_split_of_joined(s: Seq<char>, t: Seq<char>, sep: char)
    requires
        split_on(s, sep).last().len() == 0,
    ensures
        split_on(s + t, sep) == split_on(s, sep).drop_last() + split_on(t, sep),
    decreases t.len(),
{
    lemma_split_on_len(s, sep);
    let front = split_on(s, sep).drop_last();
    if t.len() == 0 {
        assert(s + t =~= s);
        assert(split_on(s, sep).last() =~= Seq::<char>::empty());
        assert(split_on(s, sep) =~= front + split_on(t, sep));
    } else {
        let rest = t.drop_last();
        lemma_split_of_joined(s, rest, sep);
        lemma_split_on_len(rest, sep);
        assert((s + t).drop_last() =~= s + rest);
        assert((s + t).last() == t.last());
        assert(split_on(s + t, sep) =~= front + split_on(t, sep));
    }
}

/// The lines of a text that follows whole lines come after theirs.
pub proof fn lines_of_joined(s: Seq<char>, t: Seq<char>)
    requires
        s.len() == 0 || s.last() == '\n',
    ensures
        lines(s + t) == lines(s) + lines(t),
{
    let front = split_on(s, '\n');
    lemma_split_on_len(s, '\n');
    lemma_split_on_len(t, '\n');
    assert(front.last() =~= Seq::<char>::empty());
    lemma_split_of_joined(s, t, '\n');
    let back = split_on(t, '\n');
    assert((front.drop_last() + back).drop_last() =~= front.drop_last() + back.drop_last());
    assert(lines(s + t) =~= lines(s) + lines(t));
}

/// The lines of a string slice.
pub fn str_lines<'a>(s: &'a str) -> (r: Vec<String>)
    ensures
        string_views(r@) == lines(s@),
{
    let pieces = split_char(s, '\n');
    let n = pieces.len();
    let mut r: Vec<String> = Vec::new();
    let mut i: usize = 0;
    let ghost all = split_on(s@, '\n');
    let ghost ended = all.drop_last().map_values(|p: Seq<char>| strip_one_cr(p));
    assert(string_views(r@) =~= ended.take(0));
    while i < n - 1
        invariant
            n == pieces.len(),
            n >= 1,
            i <= n - 1,
            views(pieces@) == all,
            ended == all.drop_last().map_values(|p: Seq<char>| strip_one_cr(p)),
            string_views(r@) == ended.take(i as int),
        decreases n - i,
    {
        let piece = pieces[i];
        assert(piece@ == all[i as int]);
        let len = piece.unicode_len();
        let line = if len > 0 && piece.get_char(len - 1) == '\r' {
            piece.substring_char(0, len - 1)
        } else {
            piece
        };
        assert(line@ =~= ended[i as int]);
        let ghost before = string_views(r@);
        r.push(line.to_owned());
        assert(string_views(r@) =~= before.push(line@));
        assert(ended.take(i + 1) =~= ended.take(i as int).push(ended[i as int]));
        i += 1;
    }
    assert(ended.take(ended.len() as int) =~= ended);
    let tail = pieces[n - 1];
    assert(tail@ == all.last());
    if !tail.is_empty() {
        let ghost before = string_views(r@);
        r.push(tail.to_owned());
        assert(string_views(r@) =~= before.push(tail@));
    }
    r
}

/// What an optional text holds.
pub open spec fn opt_view(o: Option<String>) -> Option<Seq<char>> {
    match o {
        Some(s) => Some(s@),
        None => None,
    }
}

/// Copies an optional text.
pub fn copy_opt(o: &Option<String>) -> (r: Option<String>)
    ensures
        r == *o,
{
    match o {
        Some(s) => Some(s.clone()),
        None => None,
    }
}

/// Copies a list of texts.
pub fn copy_strings(parts: &Vec<String>) -> (r: Vec<String>)
    ensures
        r@ == parts@,
{
    let mut out: Vec<String> = Vec::new();
    let mut i: usize = 0;
    while i < parts.len()
        invariant
            i <= parts.len(),
            out@ == parts@.take(i as int),
        decreases parts.len() - i,
    {
        out.push(parts[i].clone());
        assert(parts@.take(i + 1) =~= parts@.take(i as int).push(parts@[i as int]));
        i += 1;
    }
    assert(parts@.take(i as int) =~= parts@);
    out
}

/// Whether a list of texts holds a text.
pub fn holds(texts: &Vec<String>, text: &str) -> (r: bool)
    ensures
        r == string_views(texts@).contains(text@),
{
    let mut i: usize = 0;
    while i < texts.len()
        invariant
            i <= texts.len(),
            forall|k: int| 0 <= k < i ==> string_views(texts@)[k] != text@,
        decreases texts.len() - i,
    {
        if str_eq(texts[i].as_str(), text) {
            assert(string_views(texts@)[i as int] == text@);
            return true;
        }
        i += 1;
    }
    false
}

/// Whether a list of string slices holds a text.
pub fn holds_str(texts: &Vec<&str>, text: &str) -> (r: bool)
    ensures
        r == views(texts@).contains(text@),
{
    let mut i: usize = 0;
    while i < texts.len()
        invariant
            i <= texts.len(),
            forall|k: int| 0 <= k < i ==> views(texts@)[k] != text@,
        decreases texts.len() - i,
    {
        if str_eq(texts[i], text) {
            assert(views(texts@)[i as int] == text@);
            return true;
        }
        i += 1;
    }
    false
}

}
