//! Decimal notation of integers.

use super::slice::chars_of;
use vstd::prelude::*;

verus! {

/// The character of a decimal digit.
pub open spec fn digit_char(d: int) -> char {
    (48 + d) as u8 as char
}

/// The decimal notation of a natural number, without leading zeros.
pub open spec fn nat_text(n: nat) -> Seq<char>
    decreases n,
{
    if n < 10 {
        seq![digit_char(n as int)]
    } else {
        nat_text(n / 10).push(digit_char((n % 10) as int))
    }
}

/// The decimal notation of an integer.
pub open spec fn int_text(n: int) -> Seq<char> {
    if n < 0 {
        seq!['-'] + nat_text((-n) as nat)
    } else {
        nat_text(n as nat)
    }
}

/// Writes a natural number in decimal notation.
pub fn u64_text(n: u64) -> (r: String)
    ensures
        r@ == nat_text(n as nat),
    decreases n,
{
    let d = (n % 10) as u8;
    let c = (48 + d) as char;
    let mut r = if n < 10 {
        String::new()
    } else {
        u64_text(n / 10)
    };
    r.push(c);
    proof {
        if n < 10 {
            assert(r@ =~= seq![digit_char(n as int)]);
        }
    }
    r
}

/// Writes an integer in decimal notation.
pub fn i64_text(n: i64) -> (r: String)
    ensures
        r@ == int_text(n as int),
{
    if n < 0 {
        let magnitude: u64 = (-(n as i128)) as u64;
        let digits = u64_text(magnitude);
        let mut r = String::new();
        r.push('-');
        r.append(digits.as_str());
        assert(r@ =~= seq!['-'] + nat_text((-n) as nat));
        r
    } else {
        u64_text(n as u64)
    }
}

/// Whether a character is a decimal digit.
pub open spec fn is_digit(c: char) -> bool {
    '0' <= c && c <= '9'
}

/// Whether `s` is a non-empty run of decimal digits.
pub open spec fn all_digits(s: Seq<char>) -> bool {
    s.len() > 0 && forall|i: int| 0 <= i < s.len() ==> is_digit(#[trigger] s[i])
}

/// The number that a run of decimal digits denotes.
pub open spec fn digits_value(s: Seq<char>) -> nat
    decreases s.len(),
{
    if s.len() == 0 {
        0
    } else {
        (digits_value(s.drop_last()) * 10 + (s.last() as int - 48)) as nat
    }
}

/// The integer that a text denotes: digits after an optional sign.
pub open spec fn int_value(s: Seq<char>) -> Option<int> {
    if s.len() > 0 && s[0] == '-' && all_digits(s.drop_first()) {
        Some(-(digits_value(s.drop_first()) as int))
    } else if s.len() > 0 && s[0] == '+' && all_digits(s.drop_first()) {
        Some(digits_value(s.drop_first()) as int)
    } else if all_digits(s) {
        Some(digits_value(s) as int)
    } else {
        None
    }
}

/// The 64-bit signed integer that a text denotes.
pub open spec fn i64_value(s: Seq<char>) -> Option<i64> {
    match int_value(s) {
        Some(n) => if i64::MIN <= n <= i64::MAX {
            Some(n as i64)
        } else {
            None
        },
        None => None,
    }
}

/// The 32-bit unsigned integer that a text denotes; no minus sign is allowed.
pub open spec fn u32_value(s: Seq<char>) -> Option<u32> {
    match int_value(s) {
        Some(n) => if s[0] != '-' && n <= u32::MAX {
            Some(n as u32)
        } else {
            None
        },
        None => None,
    }
}

/// Digits that follow only increase the value.
proof fn lemma_digits_grow(s: Seq<char>, i: int)
    requires
        0 <= i <= s.len(),
        forall|k: int| 0 <= k < s.len() ==> is_digit(#[trigger] s[k]),
    ensures
        digits_value(s.take(i)) <= digits_value(s),
    decreases s.len() - i,
{
    if i == s.len() {
        assert(s.take(i) =~= s);
    } else {
        lemma_digits_grow(s, i + 1);
        assert(s.take(i + 1).drop_last() =~= s.take(i));
        assert(is_digit(s[i]));
    }
}

/// Reads the digits from position `from` on; `None` if there are none, if
/// another character occurs, or if the value exceeds `limit`.
fn read_digits(chars: &Vec<char>, from: usize, limit: u64) -> (r: Option<u64>)
    requires
        from <= chars.len(),
        limit <= 0x8000_0000_0000_0000,
    ensures
        match r {
            Some(n) => all_digits(chars@.skip(from as int)) && n == digits_value(
                chars@.skip(from as int),
            ) && n <= limit,
            None => !all_digits(chars@.skip(from as int)) || digits_value(chars@.skip(from as int))
                > limit,
        },
{
    let ghost s = chars@.skip(from as int);
    if from == chars.len() {
        return None;
    }
    let mut n: u64 = 0;
    let mut i: usize = from;
    assert(s.take(0) =~= Seq::<char>::empty());
    while i < chars.len()
        invariant
            s == chars@.skip(from as int),
            from <= i <= chars.len(),
            limit <= 0x8000_0000_0000_0000,
            n <= limit,
            n == digits_value(s.take(i - from)),
            forall|k: int| 0 <= k < i - from ==> is_digit(#[trigger] s[k]),
        decreases chars.len() - i,
    {
        let c = chars[i];
        assert(s[i - from] == c);
        if !('0' <= c && c <= '9') {
            return None;
        }
        let d = (c as u32 - 48) as u64;
        let next: u128 = (n as u128) * 10 + (d as u128);
        assert(s.take(i - from + 1).drop_last() =~= s.take(i - from));
        if next > limit as u128 {
            proof {
                if all_digits(s) {
                    lemma_digits_grow(s, i - from + 1);
                }
            }
            return None;
        }
        n = next as u64;
        i += 1;
    }
    assert(s.take(s.len() as int) =~= s);
    Some(n)
}

/// Reads a 64-bit signed integer in decimal notation.
pub fn parse_i64(s: &str) -> (r: Option<i64>)
    ensures
        r == i64_value(s@),
{
    let chars = chars_of(s);
    assert(s@.skip(0) =~= s@);
    if chars.len() == 0 {
        return None;
    }
    assert(s@.skip(1) =~= s@.drop_first());
    assert(!is_digit('-') && !is_digit('+'));
    if chars[0] == '-' {
        assert(!all_digits(s@));
        match read_digits(&chars, 1, 0x8000_0000_0000_0000) {
            Some(n) => Some((-(n as i128)) as i64),
            None => None,
        }
    } else if chars[0] == '+' {
        assert(!all_digits(s@));
        match read_digits(&chars, 1, 0x7fff_ffff_ffff_ffff) {
            Some(n) => Some(n as i64),
            None => None,
        }
    } else {
        match read_digits(&chars, 0, 0x7fff_ffff_ffff_ffff) {
            Some(n) => Some(n as i64),
            None => None,
        }
    }
}

/// Reads a 32-bit unsigned integer in decimal notation.
pub fn parse_u32(s: &str) -> (r: Option<u32>)
    ensures
        r == u32_value(s@),
{
    let chars = chars_of(s);
    assert(s@.skip(0) =~= s@);
    if chars.len() == 0 {
        return None;
    }
    assert(s@.skip(1) =~= s@.drop_first());
    assert(!is_digit('-') && !is_digit('+'));
    if chars[0] == '-' {
        assert(!all_digits(s@));
        return None;
    }
    let found = if chars[0] == '+' {
        assert(!all_digits(s@));
        read_digits(&chars, 1, 0xffff_ffff)
    } else {
        read_digits(&chars, 0, 0xffff_ffff)
    };
    match found {
        Some(n) => Some(n as u32),
        None => None,
    }
}

/// Every natural number is read back from its decimal notation.
pub proof fn nat_text_reads_back(n: nat)
    ensures
        all_digits(nat_text(n)),
        digits_value(nat_text(n)) == n,
    decreases n,
{
    let d = (n % 10) as int;
    assert(digit_char(d) as int == 48 + d);
    if n >= 10 {
        nat_text_reads_back(n / 10);
        let front = nat_text(n / 10);
        assert(nat_text(n).drop_last() =~= front);
        assert forall|i: int| 0 <= i < nat_text(n).len() implies is_digit(
            #[trigger] nat_text(n)[i],
        ) by {
            if i < front.len() {
                assert(is_digit(front[i]));
            }
        }
    } else {
        assert(nat_text(n).drop_last() =~= Seq::<char>::empty());
        assert(digits_value(nat_text(n).drop_last()) == 0);
    }
    assert(nat_text(n).last() == digit_char(d));
    assert(digits_value(nat_text(n)) == digits_value(nat_text(n).drop_last()) * 10 + d);
}

/// Every integer is read back from its decimal notation.
pub proof fn int_text_reads_back(n: int)
    ensures
        int_value(int_text(n)) == Some(n),
{
    if n < 0 {
        nat_text_reads_back((-n) as nat);
        assert(int_text(n).drop_first() =~= nat_text((-n) as nat));
    } else {
        nat_text_reads_back(n as nat);
        assert(is_digit(nat_text(n as nat)[0]));
        assert(!is_digit('-') && !is_digit('+'));
    }
}

}
