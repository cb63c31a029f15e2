//! Hashes as text.

use crate::event::canonical::hex_char;
use crate::text::slice::{chars_of, starts_with, str_strip_prefix};
use vstd::prelude::*;

verus! {

/// What stands before the digits of a hash.
pub const BLAKE3_PREFIX: &'static str = "blake3:";

/// The BLAKE3 hash of bytes.
pub uninterp spec fn blake3_digest(bytes: Seq<u8>) -> Seq<u8>;

/// Calls `blake3::hash` and takes the hash as bytes. It depends on the given
/// bytes alone.
#[verifier::external_body]
pub(crate) fn digest(bytes: &[u8]) -> (r: [u8; 32])
    ensures
        r@ == blake3_digest(bytes@),
{
    *blake3::hash(bytes).as_bytes()
}

/// Bytes as two hexadecimal digits each.
pub open spec fn hex_text(bytes: Seq<u8>) -> Seq<char>
    decreases bytes.len(),
{
    if bytes.len() == 0 {
        Seq::empty()
    } else {
        hex_text(bytes.drop_last()).push(hex_char(bytes.last() as int / 16)).push(
            hex_char(bytes.last() as int % 16),
        )
    }
}

/// The value of a hexadecimal digit.
pub open spec fn hex_value(c: char) -> Option<int> {
    if '0' <= c && c <= '9' {
        Some(c as int - '0' as int)
    } else if 'a' <= c && c <= 'f' {
        Some(c as int - 'a' as int + 10)
    } else if 'A' <= c && c <= 'F' {
        Some(c as int - 'A' as int + 10)
    } else {
        None
    }
}

/// Whether a text consists of hexadecimal digits.
pub open spec fn all_hex(s: Seq<char>) -> bool {
    forall|i: int| 0 <= i < s.len() ==> hex_value(#[trigger] s[i]) is Some
}

/// The bytes that pairs of hexadecimal digits stand for.
pub open spec fn hex_bytes(s: Seq<char>) -> Seq<u8> {
    Seq::new(
        s.len() / 2,
        |i: int| (hex_value(s[2 * i])->0 * 16 + hex_value(s[2 * i + 1])->0) as u8,
    )
}

/// The URL-safe base64 digit for a value below sixty-four.
pub open spec fn base64_char(d: int) -> char {
    if d < 26 {
        ('A' as int + d) as char
    } else if d < 52 {
        ('a' as int + (d - 26)) as char
    } else if d < 62 {
        ('0' as int + (d - 52)) as char
    } else if d == 62 {
        '-'
    } else {
        '_'
    }
}

/// The value of a base64 digit.
pub open spec fn base64_value(c: char) -> Option<int> {
    if 'A' <= c && c <= 'Z' {
        Some(c as int - 'A' as int)
    } else if 'a' <= c && c <= 'z' {
        Some(c as int - 'a' as int + 26)
    } else if '0' <= c && c <= '9' {
        Some(c as int - '0' as int + 52)
    } else if c == '-' {
        Some(62)
    } else if c == '_' {
        Some(63)
    } else {
        None
    }
}

/// Bytes in base64 without padding: three bytes as four digits.
pub open spec fn base64_text(bytes: Seq<u8>) -> Seq<char>
    decreases bytes.len(),
{
    let a = bytes[0] as int;
    let b = bytes[1] as int;
    let c = bytes[2] as int;
    if bytes.len() == 0 {
        Seq::empty()
    } else if bytes.len() == 1 {
        seq![base64_char(a / 4), base64_char(a % 4 * 16)]
    } else if bytes.len() == 2 {
        seq![base64_char(a / 4), base64_char(a % 4 * 16 + b / 16), base64_char(b % 16 * 4)]
    } else {
        seq![
            base64_char(a / 4),
            base64_char(a % 4 * 16 + b / 16),
            base64_char(b % 16 * 4 + c / 64),
            base64_char(c % 64),
        ] + base64_text(bytes.skip(3))
    }
}

/// The bytes that a base64 text stands for.
pub open spec fn base64_bytes(s: Seq<char>) -> Option<Seq<u8>>
    decreases s.len(),
{
    let a = base64_value(s[0]);
    let b = base64_value(s[1]);
    let c = base64_value(s[2]);
    let d = base64_value(s[3]);
    if s.len() == 0 {
        Some(Seq::empty())
    } else if s.len() == 1 || a is None || b is None {
        None
    } else if s.len() == 2 {
        Some(seq![(a->0 * 4 + b->0 / 16) as u8])
    } else if c is None {
        None
    } else if s.len() == 3 {
        Some(seq![(a->0 * 4 + b->0 / 16) as u8, (b->0 % 16 * 16 + c->0 / 4) as u8])
    } else if d is None {
        None
    } else {
        match base64_bytes(s.skip(4)) {
            Some(rest) => Some(
                seq![
                    (a->0 * 4 + b->0 / 16) as u8,
                    (b->0 % 16 * 16 + c->0 / 4) as u8,
                    (c->0 % 4 * 64 + d->0) as u8,
                ] + rest,
            ),
            None => None,
        }
    }
}

/// A base64 text is refused exactly where one character is left over after
/// groups of four, or where a character is no digit. Else it stands for three
/// bytes for four characters, rounded down.
pub proof fn base64_is_refused_or_full(s: Seq<char>)
    ensures
        base64_bytes(s) is None <==> s.len() % 4 == 1 || exists|i: int|
            0 <= i < s.len() && base64_value(#[trigger] s[i]) is None,
        base64_bytes(s) matches Some(bytes) ==> bytes.len() == s.len() * 3 / 4,
    decreases s.len(),
{
    if s.len() >= 4 {
        let rest = s.skip(4);
        base64_is_refused_or_full(rest);
        assert(forall|i: int| 0 <= i < rest.len() ==> #[trigger] rest[i] == s[i + 4]);
        assert(forall|i: int| 4 <= i < s.len() ==> #[trigger] s[i] == rest[i - 4]);
    }
    if s.len() > 0 && base64_bytes(s) is None && s.len() % 4 != 1 {
        let i: int = if base64_value(s[0]) is None {
            0
        } else if base64_value(s[1]) is None {
            1
        } else if base64_value(s[2]) is None {
            2
        } else if base64_value(s[3]) is None {
            3
        } else {
            let k = choose|k: int|
                0 <= k < s.skip(4).len() && base64_value(#[trigger] s.skip(4)[k]) is None;
            k + 4
        };
        assert(base64_value(s[i]) is None);
    }
}

/// The hash that a text stands for: thirty-two bytes in hexadecimal or base64
/// after the prefix.
pub open spec fn hash_bytes(raw: Seq<char>) -> Option<Seq<u8>> {
    if !starts_with(raw, BLAKE3_PREFIX@) {
        None
    } else {
        let payload = raw.skip(BLAKE3_PREFIX@.len() as int);
        if payload.len() == 64 && all_hex(payload) {
            Some(hex_bytes(payload))
        } else {
            match base64_bytes(payload) {
                Some(bytes) => if bytes.len() == 32 {
                    Some(bytes)
                } else {
                    None
                },
                None => None,
            }
        }
    }
}

fn hex_digit(d: u8) -> (r: char)
    requires
        d < 16,
    ensures
        r == hex_char(d as int),
{
    if d < 10 {
        (48 + d) as char
    } else {
        (97 + (d - 10)) as char
    }
}

/// Writes bytes as two hexadecimal digits each.
pub fn encode_hex(bytes: &[u8]) -> (r: String)
    ensures
        r@ == hex_text(bytes@),
{
    let mut out = String::new();
    let mut i: usize = 0;
    assert(out@ =~= hex_text(bytes@.take(0)));
    while i < bytes.len()
        invariant
            i <= bytes.len(),
            out@ == hex_text(bytes@.take(i as int)),
        decreases bytes.len() - i,
    {
        let b = bytes[i];
        out.push(hex_digit(b / 16));
        out.push(hex_digit(b % 16));
        assert(bytes@.take(i + 1).drop_last() =~= bytes@.take(i as int));
        i += 1;
    }
    assert(bytes@.take(i as int) =~= bytes@);
    out
}

fn base64_digit(d: u8) -> (r: char)
    requires
        d < 64,
    ensures
        r == base64_char(d as int),
{
    if d < 26 {
        (65 + d) as char
    } else if d < 52 {
        (97 + (d - 26)) as char
    } else if d < 62 {
        (48 + (d - 52)) as char
    } else if d == 62 {
        '-'
    } else {
        '_'
    }
}

fn decode_base64_url_digit(c: char) -> (r: Option<u8>)
    ensures
        match r {
            Some(d) => base64_value(c) == Some(d as int) && d < 64,
            None => base64_value(c) is None,
        },
{
    if 'A' <= c && c <= 'Z' {
        Some(c as u8 - 65)
    } else if 'a' <= c && c <= 'z' {
        Some(c as u8 - 97 + 26)
    } else if '0' <= c && c <= '9' {
        Some(c as u8 - 48 + 52)
    } else if c == '-' {
        Some(62)
    } else if c == '_' {
        Some(63)
    } else {
        None
    }
}

fn decode_hex_nibble(c: char) -> (r: Option<u8>)
    ensures
        match r {
            Some(d) => hex_value(c) == Some(d as int) && d < 16,
            None => hex_value(c) is None,
        },
{
    if '0' <= c && c <= '9' {
        Some(c as u8 - 48)
    } else if 'a' <= c && c <= 'f' {
        Some(c as u8 - 97 + 10)
    } else if 'A' <= c && c <= 'F' {
        Some(c as u8 - 65 + 10)
    } else {
        None
    }
}

fn encode_base64_url_no_pad(bytes: &[u8]) -> (r: String)
    ensures
        r@ == base64_text(bytes@),
{
    let mut out = String::new();
    let mut idx: usize = 0;
    assert(bytes@.skip(0) =~= bytes@);
    assert(out@ + base64_text(bytes@.skip(0)) =~= base64_text(bytes@));
    while bytes.len() - idx >= 3
        invariant
            idx <= bytes.len(),
            out@ + base64_text(bytes@.skip(idx as int)) == base64_text(bytes@),
        decreases bytes.len() - idx,
    {
        let b0 = bytes[idx];
        let b1 = bytes[idx + 1];
        let b2 = bytes[idx + 2];
        let ghost before = out@;
        let ghost rest = bytes@.skip(idx as int);
        out.push(base64_digit(b0 / 4));
        out.push(base64_digit(b0 % 4 * 16 + b1 / 16));
        out.push(base64_digit(b1 % 16 * 4 + b2 / 64));
        out.push(base64_digit(b2 % 64));
        proof {
            assert(rest.skip(3) =~= bytes@.skip(idx + 3));
            assert(rest[0] == b0 && rest[1] == b1 && rest[2] == b2);
            assert(out@ + base64_text(bytes@.skip(idx + 3)) =~= before + base64_text(rest));
        }
        idx += 3;
    }
    let remainder = bytes.len() - idx;
    let ghost rest = bytes@.skip(idx as int);
    let ghost before = out@;
    if remainder == 1 {
        let b0 = bytes[idx];
        assert(rest[0] == b0);
        out.push(base64_digit(b0 / 4));
        out.push(base64_digit(b0 % 4 * 16));
    } else if remainder == 2 {
        let b0 = bytes[idx];
        let b1 = bytes[idx + 1];
        assert(rest[0] == b0 && rest[1] == b1);
        out.push(base64_digit(b0 / 4));
        out.push(base64_digit(b0 % 4 * 16 + b1 / 16));
        out.push(base64_digit(b1 % 16 * 4));
    }
    assert(out@ =~= before + base64_text(rest));
    out
}

/// Joins decoded bytes with what the rest of a text stands for.
spec fn followed_by(done: Seq<u8>, rest: Option<Seq<u8>>) -> Option<Seq<u8>> {
    match rest {
        Some(bytes) => Some(done + bytes),
        None => None,
    }
}

fn decode_base64_url_no_pad(raw: &str) -> (r: Option<Vec<u8>>)
    ensures
        match r {
            Some(bytes) => base64_bytes(raw@) == Some(bytes@),
            None => base64_bytes(raw@) is None,
        },
{
    let input = chars_of(raw);
    let mut out: Vec<u8> = Vec::new();
    let mut cursor: usize = 0;
    proof {
        assert(raw@.skip(0) =~= raw@);
        if base64_bytes(raw@) is Some {
            assert(out@ + base64_bytes(raw@)->0 =~= base64_bytes(raw@)->0);
        }
    }
    while input.len() - cursor >= 4
        invariant
            input@ == raw@,
            cursor <= input.len(),
            base64_bytes(raw@) == followed_by(out@, base64_bytes(raw@.skip(cursor as int))),
        decreases input.len() - cursor,
    {
        let ghost rest = raw@.skip(cursor as int);
        proof {
            assert(rest[0] == raw@[cursor as int] && rest[1] == raw@[cursor + 1]);
            assert(rest[2] == raw@[cursor + 2] && rest[3] == raw@[cursor + 3]);
            assert(rest.skip(4) =~= raw@.skip(cursor + 4));
        }
        let digits = (
            decode_base64_url_digit(input[cursor]),
            decode_base64_url_digit(input[cursor + 1]),
            decode_base64_url_digit(input[cursor + 2]),
            decode_base64_url_digit(input[cursor + 3]),
        );
        let (a, b, c, d): (u8, u8, u8, u8) = match digits {
            (Some(a), Some(b), Some(c), Some(d)) => (a, b, c, d),
            _ => return None,
        };
        let ghost before = out@;
        out.push(a * 4 + b / 16);
        out.push(b % 16 * 16 + c / 4);
        out.push(c % 4 * 64 + d);
        proof {
            let tail = base64_bytes(rest.skip(4));
            if tail is Some {
                assert(out@ + tail->0 =~= before + base64_bytes(rest)->0);
            }
        }
        cursor += 4;
    }
    let remainder = input.len() - cursor;
    let ghost rest = raw@.skip(cursor as int);
    let ghost before = out@;
    if remainder == 0 {
        assert(rest =~= Seq::empty());
        assert(out@ =~= before + Seq::<u8>::empty());
        Some(out)
    } else if remainder == 1 {
        None
    } else {
        assert(rest[0] == raw@[cursor as int] && rest[1] == raw@[cursor + 1]);
        let digits = (
            decode_base64_url_digit(input[cursor]),
            decode_base64_url_digit(input[cursor + 1]),
        );
        let (a, b): (u8, u8) = match digits {
            (Some(a), Some(b)) => (a, b),
            _ => return None,
        };
        out.push(a * 4 + b / 16);
        if remainder == 3 {
            assert(rest[2] == raw@[cursor + 2]);
            match decode_base64_url_digit(input[cursor + 2]) {
                Some(c) => {
                    out.push(b % 16 * 16 + c / 4);
                },
                None => return None,
            }
        }
        assert(out@ =~= before + base64_bytes(rest)->0);
        Some(out)
    }
}

/// Decodes pairs of hexadecimal digits.
fn decode_hex(raw: &str) -> (r: Option<Vec<u8>>)
    ensures
        match r {
            Some(bytes) => raw@.len() % 2 == 0 && all_hex(raw@) && bytes@ == hex_bytes(raw@),
            None => raw@.len() % 2 != 0 || !all_hex(raw@),
        },
{
    let input = chars_of(raw);
    if input.len() % 2 != 0 {
        return None;
    }
    let mut out: Vec<u8> = Vec::new();
    let mut i: usize = 0;
    while i < input.len()
        invariant
            input@ == raw@,
            input.len() % 2 == 0,
            i % 2 == 0,
            i <= input.len(),
            out.len() == i / 2,
            forall|k: int| 0 <= k < i ==> hex_value(#[trigger] raw@[k]) is Some,
            forall|k: int| 0 <= k < out.len() ==> #[trigger] out@[k] == hex_bytes(raw@)[k],
        decreases input.len() - i,
    {
        let digits = (decode_hex_nibble(input[i]), decode_hex_nibble(input[i + 1]));
        let (hi, lo): (u8, u8) = match digits {
            (Some(hi), Some(lo)) => (hi, lo),
            _ => {
                assert(hex_value(raw@[i as int]) is None || hex_value(raw@[i + 1]) is None);
                return None;
            },
        };
        out.push(hi * 16 + lo);
        assert(2 * (i / 2) == i);
        i += 2;
    }
    assert(out@ =~= hex_bytes(raw@));
    Some(out)
}

/// Encodes a digest as `blake3:<base64url-no-pad>`.
#[must_use]
pub fn encode_blake3_hash(hash: &[u8; 32]) -> (r: String)
    ensures
        r@ == BLAKE3_PREFIX@ + base64_text(hash@),
{
    let mut out = BLAKE3_PREFIX.to_owned();
    out.append(encode_base64_url_no_pad(hash.as_slice()).as_str());
    out
}

/// Takes thirty-two bytes as an array.
fn to_array(bytes: &Vec<u8>) -> (r: Option<[u8; 32]>)
    ensures
        match r {
            Some(a) => bytes.len() == 32 && a@ == bytes@,
            None => bytes.len() != 32,
        },
{
    if bytes.len() != 32 {
        return None;
    }
    let mut a = [0u8; 32];
    let mut i: usize = 0;
    while i < 32
        invariant
            i <= 32,
            bytes.len() == 32,
            forall|k: int| 0 <= k < i ==> #[trigger] a@[k] == bytes@[k],
        decreases 32 - i,
    {
        a[i] = bytes[i];
        i += 1;
    }
    assert(a@ =~= bytes@);
    Some(a)
}

/// Decodes `blake3:<...>` text into 32 raw bytes.
///
/// Accepts 64 hexadecimal digits, or the base64 form of 32 bytes.
#[must_use]
pub fn decode_blake3_hash(raw: &str) -> (r: Option<[u8; 32]>)
    ensures
        match r {
            Some(bytes) => hash_bytes(raw@) == Some(bytes@),
            None => hash_bytes(raw@) is None,
        },
{
    let payload = match str_strip_prefix(raw, BLAKE3_PREFIX) {
        Some(payload) => payload,
        None => return None,
    };
    if payload.unicode_len() == 64 {
        if let Some(bytes) = decode_hex(payload) {
            return to_array(&bytes);
        }
    }
    match decode_base64_url_no_pad(payload) {
        Some(bytes) => to_array(&bytes),
        None => None,
    }
}

/// Whether a text stands for a hash.
#[must_use]
pub fn is_valid_blake3_hash(raw: &str) -> (r: bool)
    ensures
        r == hash_bytes(raw@) is Some,
{
    decode_blake3_hash(raw).is_some()
}

proof fn lemma_base64_digit(d: int)
    requires
        0 <= d < 64,
    ensures
        base64_value(base64_char(d)) == Some(d),
{
}

/// Bytes are read back from their base64 form.
pub proof fn base64_reads_back(bytes: Seq<u8>)
    ensures
        base64_bytes(base64_text(bytes)) == Some(bytes),
    decreases bytes.len(),
{
    let s = base64_text(bytes);
    let a = bytes[0] as int;
    let b = bytes[1] as int;
    let c = bytes[2] as int;
    lemma_base64_digit(a / 4);
    if bytes.len() == 0 {
        assert(bytes =~= Seq::empty());
    } else if bytes.len() == 1 {
        lemma_base64_digit(a % 4 * 16);
        assert(base64_bytes(s)->0 =~= bytes);
    } else if bytes.len() == 2 {
        lemma_base64_digit(a % 4 * 16 + b / 16);
        lemma_base64_digit(b % 16 * 4);
        assert(base64_bytes(s)->0 =~= bytes);
    } else {
        lemma_base64_digit(a % 4 * 16 + b / 16);
        lemma_base64_digit(b % 16 * 4 + c / 64);
        lemma_base64_digit(c % 64);
        base64_reads_back(bytes.skip(3));
        assert(s.skip(4) =~= base64_text(bytes.skip(3)));
        assert(bytes =~= seq![bytes[0], bytes[1], bytes[2]] + bytes.skip(3));
        assert(base64_bytes(s)->0 =~= bytes);
    }
}

proof fn lemma_base64_len(bytes: Seq<u8>)
    ensures
        base64_text(bytes).len() * 3 <= bytes.len() * 4 + 5,
    decreases bytes.len(),
{
    if bytes.len() >= 3 {
        lemma_base64_len(bytes.skip(3));
    }
}

/// Bytes are read back from their hexadecimal form.
pub proof fn hex_reads_back(bytes: Seq<u8>)
    ensures
        hex_text(bytes).len() == 2 * bytes.len(),
        all_hex(hex_text(bytes)),
        hex_bytes(hex_text(bytes)) == bytes,
    decreases bytes.len(),
{
    let s = hex_text(bytes);
    if bytes.len() > 0 {
        let n = bytes.len() - 1;
        let rest = bytes.drop_last();
        let t = hex_text(rest);
        hex_reads_back(rest);
        assert forall|i: int| 0 <= i < s.len() implies hex_value(#[trigger] s[i]) is Some by {
            if i < 2 * n {
                assert(s[i] == t[i]);
            }
        }
        assert forall|i: int| 0 <= i < bytes.len() implies #[trigger] hex_bytes(s)[i]
            == bytes[i] by {
            if i < n {
                assert(s[2 * i] == t[2 * i] && s[2 * i + 1] == t[2 * i + 1]);
                assert(hex_bytes(t)[i] == rest[i]);
            } else {
                assert(s[2 * n] == hex_char(bytes[n] as int / 16));
                assert(s[2 * n + 1] == hex_char(bytes[n] as int % 16));
            }
        }
    }
    assert(hex_bytes(s) =~= bytes);
}

/// A hash is read back from its text, in base64 as well as in hexadecimal.
pub proof fn hash_reads_back(hash: Seq<u8>)
    requires
        hash.len() == 32,
    ensures
        hash_bytes(BLAKE3_PREFIX@ + base64_text(hash)) == Some(hash),
        hash_bytes(BLAKE3_PREFIX@ + hex_text(hash)) == Some(hash),
{
    base64_reads_back(hash);
    lemma_base64_len(hash);
    hex_reads_back(hash);
    let n = BLAKE3_PREFIX@.len() as int;
    let a = BLAKE3_PREFIX@ + base64_text(hash);
    let b = BLAKE3_PREFIX@ + hex_text(hash);
    assert(a.skip(n) =~= base64_text(hash));
    assert(b.skip(n) =~= hex_text(hash));
    assert(a.take(n) =~= BLAKE3_PREFIX@);
    assert(b.take(n) =~= BLAKE3_PREFIX@);
}

}
