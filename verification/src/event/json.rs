//! JSON values.
//!
//! An event payload is a JSON object. [`JsonValue`] holds one as plain values,
//! and [`JsonTree`] is what it means: an object is a map from keys to values,
//! whatever the order in which they were written.

use crate::text::order::{
    lex_lt, lex_lt_asymmetric, lex_lt_irreflexive, lex_lt_total, lex_lt_transitive, str_rank, Rank,
};
use crate::text::slice::string_views;
use vstd::prelude::*;

verus! {

/// A JSON value. A number is kept as its text.
#[derive(Debug, PartialEq, Eq)]
pub enum JsonValue {
    Null,
    Bool(bool),
    Number(String),
    Text(String),
    Array(Vec<JsonValue>),
    Object(JsonMap),
}

/// A JSON object: entries in the order of their keys, each key once.
#[derive(Debug, PartialEq, Eq)]
pub struct JsonMap {
    entries: Vec<(String, JsonValue)>,
}

/// What a JSON value means.
pub ghost enum JsonTree {
    Null,
    Bool(bool),
    Number(Seq<char>),
    Text(Seq<char>),
    Array(Seq<JsonTree>),
    Object(Map<Seq<char>, JsonTree>),
}

/// Whether keys are in strictly ascending order.
pub open spec fn ascending(keys: Seq<Seq<char>>) -> bool {
    forall|i: int, j: int| 0 <= i < j < keys.len() ==> lex_lt(#[trigger] keys[i], #[trigger] keys[j])
}

/// The keys of entries.
pub open spec fn entry_keys(entries: Seq<(String, JsonValue)>) -> Seq<Seq<char>> {
    entries.map_values(|e: (String, JsonValue)| e.0@)
}

impl JsonValue {
    /// The meaning of a value.
    pub open spec fn tree(self) -> JsonTree
        decreases self,
    {
        match self {
            JsonValue::Null => JsonTree::Null,
            JsonValue::Bool(b) => JsonTree::Bool(b),
            JsonValue::Number(n) => JsonTree::Number(n@),
            JsonValue::Text(s) => JsonTree::Text(s@),
            JsonValue::Array(items) => JsonTree::Array(trees(items@)),
            JsonValue::Object(map) => JsonTree::Object(map.meaning()),
        }
    }
}

impl JsonMap {
    /// The keys with the meaning of their values.
    pub closed spec fn meaning(self) -> Map<Seq<char>, JsonTree>
        decreases self,
    {
        entry_trees(self.entries@)
    }
}

/// The meanings of a list of values.
pub open spec fn trees(items: Seq<JsonValue>) -> Seq<JsonTree>
    decreases items,
{
    if items.len() == 0 {
        Seq::empty()
    } else {
        trees(items.drop_last()).push(items.last().tree())
    }
}

/// The keys of entries with the meaning of their values.
pub open spec fn entry_trees(entries: Seq<(String, JsonValue)>) -> Map<Seq<char>, JsonTree>
    decreases entries,
{
    if entries.len() == 0 {
        Map::empty()
    } else {
        entry_trees(entries.drop_last()).insert(entries.last().0@, entries.last().1.tree())
    }
}

/// The meanings of a list, one by one.
pub proof fn trees_by_index(items: Seq<JsonValue>)
    ensures
        trees(items).len() == items.len(),
        forall|i: int| 0 <= i < items.len() ==> #[trigger] trees(items)[i] == items[i].tree(),
    decreases items.len(),
{
    if items.len() > 0 {
        trees_by_index(items.drop_last());
        assert forall|i: int| 0 <= i < items.len() implies #[trigger] trees(items)[i]
            == items[i].tree() by {
            if i < items.len() - 1 {
                assert(trees(items)[i] == trees(items.drop_last())[i]);
            }
        }
    }
}

/// What entries in the order of their keys mean, one by one.
pub proof fn entries_by_index(entries: Seq<(String, JsonValue)>)
    requires
        ascending(entry_keys(entries)),
    ensures
        entry_trees(entries).dom() == entry_keys(entries).to_set(),
        entry_trees(entries).dom().finite(),
        forall|i: int|
            0 <= i < entries.len() ==> #[trigger] entry_trees(entries)[entries[i].0@]
                == entries[i].1.tree(),
    decreases entries.len(),
{
    let keys = entry_keys(entries);
    if entries.len() == 0 {
        assert(keys.to_set() =~= Set::empty());
        assert(entry_trees(entries).dom() =~= Set::empty());
    } else {
        let rest = entries.drop_last();
        let n = entries.len() - 1;
        assert(entry_keys(rest) =~= keys.drop_last());
        assert(ascending(entry_keys(rest)));
        entries_by_index(rest);
        assert forall|k: Seq<char>| #[trigger] keys.to_set().contains(k) == entry_keys(
            rest,
        ).to_set().insert(keys[n]).contains(k) by {
            if keys.contains(k) {
                let i = choose|i: int| 0 <= i < keys.len() && keys[i] == k;
                if i < n {
                    assert(entry_keys(rest)[i] == k);
                }
            }
            if entry_keys(rest).contains(k) {
                let i = choose|i: int| 0 <= i < entry_keys(rest).len() && entry_keys(rest)[i] == k;
                assert(keys[i] == k);
            }
            assert(keys[n] == keys[n]);
        }
        assert(entry_trees(entries).dom() =~= keys.to_set());
        assert forall|i: int| 0 <= i < entries.len() implies #[trigger] entry_trees(
            entries,
        )[entries[i].0@] == entries[i].1.tree() by {
            if i < n {
                assert(rest[i] == entries[i]);
                lex_lt_irreflexive(keys[n]);
                assert(lex_lt(keys[i], keys[n]));
            }
        }
    }
}

/// Two ascending lists of the same keys are one list.
pub proof fn ascending_is_unique(a: Seq<Seq<char>>, b: Seq<Seq<char>>)
    requires
        ascending(a),
        ascending(b),
        a.to_set() == b.to_set(),
    ensures
        a == b,
    decreases a.len(),
{
    if a.len() == 0 {
        if b.len() > 0 {
            assert(b.to_set().contains(b[0]));
            assert(a.contains(b[0]));
        }
        assert(a =~= b);
    } else {
        assert(a.to_set().contains(a.last()));
        assert(b.contains(a.last()));
        assert(b.to_set().contains(b.last()));
        assert(a.contains(b.last()));
        let i = choose|i: int| 0 <= i < b.len() && b[i] == a.last();
        let j = choose|j: int| 0 <= j < a.len() && a[j] == b.last();
        if a.last() != b.last() {
            assert(lex_lt(b[i], b[b.len() - 1]));
            assert(lex_lt(a[j], a[a.len() - 1]));
            lex_lt_asymmetric(a.last(), b.last());
        }
        let x = a.drop_last();
        let y = b.drop_last();
        assert forall|k: Seq<char>| #[trigger] x.to_set().contains(k) == y.to_set().contains(k) by {
            lemma_drop_last_contains(a, k);
            lemma_drop_last_contains(b, k);
            assert(a.to_set().contains(k) == b.to_set().contains(k));
            assert(a.to_set().contains(k) == a.contains(k));
            assert(b.to_set().contains(k) == b.contains(k));
            assert(x.to_set().contains(k) == x.contains(k));
            assert(y.to_set().contains(k) == y.contains(k));
        }
        assert(x.to_set() =~= y.to_set());
        ascending_is_unique(x, y);
        assert(a =~= x.push(a.last()));
        assert(b =~= y.push(b.last()));
    }
}

proof fn lemma_drop_last_contains(a: Seq<Seq<char>>, k: Seq<char>)
    requires
        ascending(a),
        a.len() > 0,
    ensures
        a.drop_last().contains(k) == (a.contains(k) && k != a.last()),
{
    if a.drop_last().contains(k) {
        let i = choose|i: int| 0 <= i < a.len() - 1 && a.drop_last()[i] == k;
        assert(a[i] == k);
        assert(lex_lt(a[i], a[a.len() - 1]));
        lex_lt_irreflexive(k);
    }
    if a.contains(k) && k != a.last() {
        let i = choose|i: int| 0 <= i < a.len() && a[i] == k;
        assert(a.drop_last()[i] == k);
    }
}

impl JsonMap {
    #[verifier::type_invariant]
    spec fn in_order(self) -> bool {
        ascending(entry_keys(self.entries@))
    }

    /// The keys in ascending order.
    pub closed spec fn keys(self) -> Seq<Seq<char>> {
        entry_keys(self.entries@)
    }

    /// Creates an empty object.
    pub fn new() -> (r: Self)
        ensures
            r.meaning() == Map::<Seq<char>, JsonTree>::empty(),
    {
        let r = JsonMap { entries: Vec::new() };
        assert(r.meaning() =~= Map::<Seq<char>, JsonTree>::empty());
        r
    }

    /// Makes an object of entries that are in the order of their keys.
    pub fn from_entries(entries: Vec<(String, JsonValue)>) -> (r: Self)
        requires
            ascending(entry_keys(entries@)),
        ensures
            r.meaning() == entry_trees(entries@),
    {
        JsonMap { entries }
    }

    /// The number of keys.
    pub fn len(&self) -> (r: usize)
        ensures
            r == self.meaning().dom().len(),
            r == self.keys().len(),
            ascending(self.keys()),
            self.keys().to_set() == self.meaning().dom(),
            self.meaning().dom().finite(),
    {
        proof {
            use_type_invariant(&*self);
            entries_by_index(self.entries@);
            let keys = self.keys();
            assert(keys.no_duplicates()) by {
                assert forall|i: int, j: int|
                    0 <= i < keys.len() && 0 <= j < keys.len() && i != j implies keys[i]
                    != keys[j] by {
                    lex_lt_irreflexive(keys[i]);
                    if i < j {
                        assert(lex_lt(keys[i], keys[j]));
                    } else {
                        assert(lex_lt(keys[j], keys[i]));
                    }
                }
            }
            keys.unique_seq_to_set();
        }
        self.entries.len()
    }

    /// Whether there is no key.
    pub fn is_empty(&self) -> (r: bool)
        ensures
            r == (self.meaning() == Map::<Seq<char>, JsonTree>::empty()),
    {
        let n = self.len();
        proof {
            if n == 0 {
                assert(self.meaning() =~= Map::empty());
            }
        }
        n == 0
    }

    /// The key at a position in the order of the keys.
    pub fn key_at(&self, index: usize) -> (r: &String)
        requires
            index < self.keys().len(),
        ensures
            r@ == self.keys()[index as int],
    {
        &self.entries[index].0
    }

    /// The value at a position in the order of the keys.
    pub fn value_at(&self, index: usize) -> (r: &JsonValue)
        requires
            index < self.keys().len(),
        ensures
            self.meaning().contains_key(self.keys()[index as int]),
            r.tree() == self.meaning()[self.keys()[index as int]],
            decreases_to!(*self => *r),
    {
        proof {
            use_type_invariant(&*self);
            entries_by_index(self.entries@);
            assert(self.keys().contains(self.keys()[index as int]));
            assert(self.meaning().dom().contains(self.keys()[index as int]));
            assert(self.entries@[index as int].0@ == self.keys()[index as int]);
            assert(decreases_to!(*self => self.entries));
            assert(decreases_to!(self.entries => self.entries@));
            assert(decreases_to!(self.entries@ => self.entries@[index as int]));
            assert(decreases_to!(self.entries@[index as int] => self.entries@[index as int].1));
        }
        &self.entries[index].1
    }

    /// Where a key stands, or where it would stand.
    fn position(&self, key: &str) -> (r: (bool, usize))
        ensures
            r.1 <= self.entries@.len(),
            r.0 ==> r.1 < self.entries@.len() && self.keys()[r.1 as int] == key@,
            !r.0 ==> (forall|k: int| 0 <= k < r.1 ==> lex_lt(#[trigger] self.keys()[k], key@)) && (
            forall|k: int|
                r.1 <= k < self.entries@.len() ==> lex_lt(key@, #[trigger] self.keys()[k])),
            r.0 == self.meaning().contains_key(key@),
    {
        proof {
            use_type_invariant(&*self);
            entries_by_index(self.entries@);
        }
        let mut i: usize = 0;
        while i < self.entries.len()
            invariant
                i <= self.entries@.len(),
                ascending(self.keys()),
                self.meaning().dom() == self.keys().to_set(),
                forall|k: int| 0 <= k < i ==> lex_lt(#[trigger] self.keys()[k], key@),
            decreases self.entries.len() - i,
        {
            let ghost here = self.keys()[i as int];
            match str_rank(self.entries[i].0.as_str(), key) {
                Rank::Equal => {
                    assert(self.keys().contains(here));
                    return (true, i);
                },
                Rank::Greater => {
                    proof {
                        lex_lt_total(here, key@);
                        lex_lt_asymmetric(key@, here);
                        assert forall|k: int| i <= k < self.entries@.len() implies lex_lt(
                            key@,
                            #[trigger] self.keys()[k],
                        ) by {
                            if i < k {
                                lex_lt_transitive(key@, here, self.keys()[k]);
                            }
                        }
                        assert(!self.keys().contains(key@)) by {
                            if self.keys().contains(key@) {
                                let k = choose|k: int|
                                    0 <= k < self.keys().len() && self.keys()[k] == key@;
                                lex_lt_irreflexive(key@);
                            }
                        }
                    }
                    return (false, i);
                },
                Rank::Less => {
                    i += 1;
                },
            }
        }
        proof {
            if self.keys().contains(key@) {
                let k = choose|k: int| 0 <= k < self.keys().len() && self.keys()[k] == key@;
                lex_lt_irreflexive(key@);
            }
        }
        (false, i)
    }

    /// The value of a key.
    pub fn get(&self, key: &str) -> (r: Option<&JsonValue>)
        ensures
            match r {
                Some(v) => self.meaning().contains_key(key@) && v.tree() == self.meaning()[key@],
                None => !self.meaning().contains_key(key@),
            },
    {
        let (found, i) = self.position(key);
        if found {
            proof {
                use_type_invariant(&*self);
                entries_by_index(self.entries@);
                assert(self.entries@[i as int].0@ == self.keys()[i as int]);
            }
            Some(&self.entries[i].1)
        } else {
            None
        }
    }

    /// Whether a key has a value.
    pub fn contains_key(&self, key: &str) -> (r: bool)
        ensures
            r == self.meaning().contains_key(key@),
    {
        self.position(key).0
    }

    /// Gives a key a value, in place of the one that it had.
    pub fn insert(&mut self, key: String, value: JsonValue)
        ensures
            final(self).meaning() == old(self).meaning().insert(key@, value.tree()),
    {
        proof {
            use_type_invariant(&*self);
        }
        let (found, i) = self.position(key.as_str());
        let ghost before = self.entries@;
        let ghost was = self.keys();
        assert(!found ==> forall|k: int| 0 <= k < i ==> lex_lt(#[trigger] was[k], key@));
        assert(!found ==> forall|k: int| i <= k < was.len() ==> lex_lt(key@, #[trigger] was[k]));
        let mut entries: Vec<(String, JsonValue)> = Vec::new();
        assert(ascending(entry_keys(entries@)));
        std::mem::swap(&mut entries, &mut self.entries);
        let ghost e = (key, value);
        if found {
            entries.set(i, (key, value));
            assert(entry_keys(entries@) =~= entry_keys(before));
        } else {
            entries.insert(i, (key, value));
            proof {
                let keys = entry_keys(entries@);
                assert(keys =~= was.insert(i as int, e.0@));
                assert forall|a: int, b: int| 0 <= a < b < keys.len() implies lex_lt(
                    #[trigger] keys[a],
                    #[trigger] keys[b],
                ) by {
                    let a0 = if a < i { a } else { a - 1 };
                    let b0 = if b < i { b } else { b - 1 };
                    if a != i && b != i {
                        assert(keys[a] == was[a0] && keys[b] == was[b0]);
                    } else if a == i {
                        assert(keys[b] == was[b0]);
                    } else {
                        assert(keys[a] == was[a0]);
                    }
                }
            }
        }
        proof {
            entries_by_index(before);
            entries_by_index(entries@);
            let keys = entry_keys(entries@);
            let goal = entry_trees(before).insert(e.0@, e.1.tree());
            let got = entry_trees(entries@);
            assert forall|k: Seq<char>| #[trigger] got.dom().contains(k) == goal.dom().contains(
                k,
            ) by {
                if keys.contains(k) {
                    let a = choose|a: int| 0 <= a < keys.len() && keys[a] == k;
                    if a != i {
                        let a0 = if found || a < i { a } else { a - 1 };
                        assert(was[a0] == k);
                    }
                }
                if was.contains(k) {
                    let a = choose|a: int| 0 <= a < was.len() && was[a] == k;
                    let a1 = if found || a < i { a } else { a + 1 };
                    assert(keys[a1] == k);
                }
                assert(keys[i as int] == e.0@);
            }
            assert(got.dom() =~= goal.dom());
            assert forall|k: Seq<char>| #[trigger] got.dom().contains(k) implies got[k]
                == goal[k] by {
                let a = choose|a: int| 0 <= a < keys.len() && keys[a] == k;
                assert(entries@[a].0@ == k);
                if a == i {
                    assert(entries@[a] == e);
                } else {
                    let a0 = if found || a < i { a } else { a - 1 };
                    assert(entries@[a] == before[a0]);
                    assert(before[a0].0@ == k);
                    lex_lt_irreflexive(k);
                    assert(keys[i as int] == e.0@);
                    if a < i {
                        assert(lex_lt(keys[a], keys[i as int]));
                    } else {
                        assert(lex_lt(keys[i as int], keys[a]));
                    }
                }
            }
            assert(got =~= goal);
        }
        self.entries = entries;
    }

    /// Takes over every entry of another object.
    pub fn extend(&mut self, other: &JsonMap)
        ensures
            final(self).meaning() == old(self).meaning().union_prefer_right(other.meaning()),
        decreases other,
    {
        let n = other.len();
        let mut i: usize = 0;
        let ghost keys = other.keys();
        let ghost first = self.meaning();
        let ghost all = other.meaning();
        assert(self.meaning() =~= first.union_prefer_right(all.restrict(keys.take(0).to_set())));
        while i < n
            invariant
                i <= n,
                n == keys.len(),
                keys == other.keys(),
                all == other.meaning(),
                ascending(keys),
                keys.to_set() == all.dom(),
                self.meaning() == first.union_prefer_right(
                    all.restrict(keys.take(i as int).to_set()),
                ),
            decreases n - i,
        {
            let value = other.value_at(i);
            self.insert(other.key_at(i).clone(), value.copied());
            proof {
                let part = keys.take(i as int);
                let next = keys.take(i + 1);
                assert(next =~= part.push(keys[i as int]));
                assert forall|k: Seq<char>| #[trigger] next.contains(k) == (part.contains(k) || k
                    == keys[i as int]) by {
                    if part.contains(k) {
                        let a = choose|a: int| 0 <= a < part.len() && part[a] == k;
                        assert(next[a] == k);
                    }
                    if k == keys[i as int] {
                        assert(next[i as int] == k);
                    }
                }
                assert(self.meaning() =~= first.union_prefer_right(all.restrict(next.to_set())));
            }
            i += 1;
        }
        proof {
            assert(keys.take(i as int) =~= keys);
            assert(all.restrict(keys.to_set()) =~= all);
        }
    }
}

impl Default for JsonMap {
    fn default() -> (r: Self)
        ensures
            r.meaning() == Map::<Seq<char>, JsonTree>::empty(),
    {
        JsonMap::new()
    }
}

impl JsonValue {
    /// A copy of the value.
    fn copied(&self) -> (r: JsonValue)
        ensures
            r.tree() == self.tree(),
        decreases self,
    {
        match self {
            JsonValue::Null => JsonValue::Null,
            JsonValue::Bool(b) => JsonValue::Bool(*b),
            JsonValue::Number(n) => JsonValue::Number(n.clone()),
            JsonValue::Text(s) => JsonValue::Text(s.clone()),
            JsonValue::Array(items) => {
                let mut copies: Vec<JsonValue> = Vec::new();
                let mut i: usize = 0;
                assert(trees(copies@) =~= trees(items@.take(0)));
                while i < items.len()
                    invariant
                        i <= items.len(),
                        *self == JsonValue::Array(*items),
                        trees(copies@) == trees(items@.take(i as int)),
                    decreases items.len() - i,
                {
                    assert(decreases_to!(*self => self->Array_0));
                    assert(self->Array_0 == *items);
                    assert(decreases_to!(*items => items@));
                    assert(decreases_to!(items@ => items@[i as int]));
                    let ghost before = copies@;
                    copies.push(items[i].copied());
                    proof {
                        assert(copies@.drop_last() =~= before);
                        assert(items@.take(i + 1).drop_last() =~= items@.take(i as int));
                        assert(items@.take(i + 1).last() == items@[i as int]);
                    }
                    i += 1;
                }
                assert(items@.take(i as int) =~= items@);
                JsonValue::Array(copies)
            },
            JsonValue::Object(map) => {
                let mut copy = JsonMap::new();
                assert(decreases_to!(self => map));
                copy.extend(map);
                assert(copy.meaning() =~= map.meaning());
                JsonValue::Object(copy)
            },
        }
    }

    /// The object, if the value is one.
    pub fn as_object(&self) -> (r: Option<&JsonMap>)
        ensures
            match r {
                Some(map) => self.tree() == JsonTree::Object(map.meaning()),
                None => !(self.tree() is Object),
            },
    {
        match self {
            JsonValue::Object(map) => Some(map),
            _ => None,
        }
    }

    /// The list, if the value is one.
    pub fn as_array(&self) -> (r: Option<&Vec<JsonValue>>)
        ensures
            match r {
                Some(items) => self.tree() == JsonTree::Array(trees(items@)),
                None => !(self.tree() is Array),
            },
    {
        match self {
            JsonValue::Array(items) => Some(items),
            _ => None,
        }
    }

    /// The text, if the value is one.
    pub fn as_str(&self) -> (r: Option<&str>)
        ensures
            match r {
                Some(s) => self.tree() == JsonTree::Text(s@),
                None => !(self.tree() is Text),
            },
    {
        match self {
            JsonValue::Text(s) => Some(s.as_str()),
            _ => None,
        }
    }

    /// Whether the value is `null`.
    pub fn is_null(&self) -> (r: bool)
        ensures
            r == (self.tree() == JsonTree::Null),
    {
        match self {
            JsonValue::Null => true,
            _ => false,
        }
    }
}

impl Clone for JsonValue {
    fn clone(&self) -> (r: Self)
        ensures
            r.tree() == self.tree(),
    {
        self.copied()
    }
}

impl Clone for JsonMap {
    fn clone(&self) -> (r: Self)
        ensures
            r.meaning() == self.meaning(),
    {
        let mut r = JsonMap::new();
        r.extend(self);
        assert(r.meaning() =~= self.meaning());
        r
    }
}

/// Puts a text in its place in an ascending list that does not hold it.
pub fn place(list: &mut Vec<String>, item: String)
    requires
        ascending(string_views(old(list)@)),
        !string_views(old(list)@).contains(item@),
    ensures
        ascending(string_views(final(list)@)),
        forall|x: Seq<char>| #[trigger]
            string_views(final(list)@).contains(x) <==> x == item@ || string_views(
                old(list)@,
            ).contains(x),
{
    let ghost was = string_views(list@);
    let ghost key = item@;
    let mut i: usize = 0;
    while i < list.len()
        invariant_except_break
            i <= list.len(),
            list@ == old(list)@,
            was == string_views(list@),
            ascending(was),
            !was.contains(key),
            key == item@,
            forall|k: int| 0 <= k < i ==> lex_lt(#[trigger] was[k], key),
        ensures
            i <= list.len(),
            list@ == old(list)@,
            forall|k: int| 0 <= k < i ==> lex_lt(#[trigger] was[k], key),
            forall|k: int| i <= k < was.len() ==> lex_lt(key, #[trigger] was[k]),
        decreases list.len() - i,
    {
        let here = list[i].as_str();
        let rank = str_rank(here, item.as_str());
        proof {
            assert(here@ == was[i as int]);
            assert(was.contains(was[i as int]));
            lex_lt_total(here@, key);
        }
        if let Rank::Less = rank {
            i += 1;
        } else {
            proof {
                lex_lt_asymmetric(here@, key);
                assert forall|k: int| i <= k < was.len() implies lex_lt(key, #[trigger] was[k]) by {
                    if k > i {
                        lex_lt_transitive(key, was[i as int], was[k]);
                    }
                }
            }
            break;
        }
    }
    list.insert(i, item);
    proof {
        let now = string_views(list@);
        assert(now =~= was.insert(i as int, key));
        assert forall|a: int, b: int| 0 <= a < b < now.len() implies lex_lt(
            #[trigger] now[a],
            #[trigger] now[b],
        ) by {
            let a0 = if a < i { a } else { a - 1 };
            let b0 = if b < i { b } else { b - 1 };
            if a != i && b != i {
                assert(now[a] == was[a0] && now[b] == was[b0]);
            } else if a == i {
                assert(now[b] == was[b0]);
            } else {
                assert(now[a] == was[a0]);
            }
        }
        assert forall|x: Seq<char>| #[trigger] now.contains(x) <==> x == key || was.contains(x) by {
            if was.contains(x) {
                let k = choose|k: int| 0 <= k < was.len() && was[k] == x;
                let k1 = if k < i { k } else { k + 1 };
                assert(now[k1] == x);
            }
            if now.contains(x) && x != key {
                let k = choose|k: int| 0 <= k < now.len() && now[k] == x;
                let k0 = if k < i { k } else { k - 1 };
                assert(was[k0] == x);
            }
            assert(now[i as int] == key);
        }
    }
}

}
