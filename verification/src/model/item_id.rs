//! Work item identifiers.

use crate::text::slice::{chars_of, starts_with, str_starts_with};
use vstd::prelude::*;

verus! {

/// The identifier of a work item, such as `bn-a7x`.
#[derive(Debug, PartialEq, Eq)]
pub struct ItemId {
    text: String,
}

impl View for ItemId {
    type V = Seq<char>;

    closed spec fn view(&self) -> Seq<char> {
        self.text@
    }
}

/// Whether a character may follow the prefix of an identifier.
pub open spec fn id_char(c: char) -> bool {
    ('a' <= c && c <= 'z') || ('0' <= c && c <= '9') || c == '.'
}

/// Whether a text is an identifier: `bn-` and at least one small letter,
/// digit or dot.
pub open spec fn valid_id(s: Seq<char>) -> bool {
    &&& starts_with(s, "bn-"@)
    &&& s.len() > 3
    &&& forall|i: int| 3 <= i < s.len() ==> id_char(#[trigger] s[i])
}

impl ItemId {
    /// Wraps a text without checking it.
    pub fn new_unchecked(raw: &str) -> (r: ItemId)
        ensures
            r@ == raw@,
    {
        ItemId { text: raw.to_owned() }
    }

    /// Reads an identifier; `None` if the text is not one.
    pub fn parse(raw: &str) -> (r: Option<ItemId>)
        ensures
            match r {
                Some(id) => valid_id(raw@) && id@ == raw@,
                None => !valid_id(raw@),
            },
    {
        if !str_starts_with(raw, "bn-") {
            return None;
        }
        let chars = chars_of(raw);
        if chars.len() <= 3 {
            return None;
        }
        let mut i: usize = 3;
        while i < chars.len()
            invariant
                chars@ == raw@,
                3 <= i <= chars.len(),
                forall|k: int| 3 <= k < i ==> id_char(#[trigger] raw@[k]),
            decreases chars.len() - i,
        {
            let c = chars[i];
            if !(('a' <= c && c <= 'z') || ('0' <= c && c <= '9') || c == '.') {
                assert(!id_char(raw@[i as int]));
                return None;
            }
            i += 1;
        }
        Some(ItemId { text: raw.to_owned() })
    }

    /// The identifier as text.
    pub fn as_str(&self) -> (r: &str)
        ensures
            r@ == self@,
    {
        self.text.as_str()
    }
}

impl Clone for ItemId {
    fn clone(&self) -> (r: Self)
        ensures
            r@ == self@,
    {
        ItemId { text: self.text.clone() }
    }
}

}
