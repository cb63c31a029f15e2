//! A set of texts.

use crate::text::slice::string_views;
use vstd::hash_set::StringHashSet;
use vstd::prelude::*;

verus! {

/// A set of texts that remembers the order in which they were inserted.
pub struct StringSet {
    items: Vec<String>,
    index: StringHashSet,
}

impl View for StringSet {
    type V = Set<Seq<char>>;

    closed spec fn view(&self) -> Set<Seq<char>> {
        self.order().to_set()
    }
}

/// What a set holds of a sequence after a push.
pub proof fn to_set_of_push<A>(s: Seq<A>, x: A)
    ensures
        s.push(x).to_set() == s.to_set().insert(x),
{
    assert forall|a: A| #[trigger] s.push(x).to_set().contains(a) == s.to_set().insert(x).contains(
        a,
    ) by {
        if s.contains(a) {
            let k = choose|k: int| 0 <= k < s.len() && s[k] == a;
            assert(s.push(x)[k] == a);
        }
        if a == x {
            assert(s.push(x)[s.len() as int] == a);
        }
    }
    assert(s.push(x).to_set() =~= s.to_set().insert(x));
}

impl StringSet {
    /// The texts in the order in which they were inserted.
    pub closed spec fn order(self) -> Seq<Seq<char>> {
        string_views(self.items@)
    }

    #[verifier::type_invariant]
    spec fn indexed(self) -> bool {
        self.order().no_duplicates() && self.index@ == self.order().to_set()
    }

    /// Creates an empty set.
    pub fn new() -> (r: Self)
        ensures
            r@ == Set::<Seq<char>>::empty(),
            r.order() == Seq::<Seq<char>>::empty(),
    {
        let items: Vec<String> = Vec::new();
        proof {
            assert(string_views(items@) =~= Seq::<Seq<char>>::empty());
            assert(string_views(items@).to_set() =~= Set::<Seq<char>>::empty());
        }
        StringSet { items, index: StringHashSet::new() }
    }

    /// Adds a text. Returns whether it was not there before.
    pub fn insert(&mut self, item: String) -> (r: bool)
        ensures
            r == !old(self)@.contains(item@),
            final(self)@ == old(self)@.insert(item@),
            final(self).order() == if r {
                old(self).order().push(item@)
            } else {
                old(self).order()
            },
    {
        proof {
            use_type_invariant(&*self);
        }
        if self.index.contains(item.as_str()) {
            assert(self@ =~= self@.insert(item@));
            return false;
        }
        let mut before = StringSet::new();
        std::mem::swap(self, &mut before);
        proof {
            use_type_invariant(&before);
        }
        let StringSet { items, index } = before;
        let mut items = items;
        let mut index = index;
        let ghost was = items@;
        index.insert(item.clone());
        items.push(item);
        proof {
            let v = string_views(was);
            assert(string_views(items@) =~= v.push(item@));
            assert(!v.contains(item@));
            assert(v.push(item@).no_duplicates());
            to_set_of_push(v, item@);
        }
        *self = StringSet { items, index };
        true
    }

    /// Whether the set holds a text.
    pub fn contains(&self, item: &str) -> (r: bool)
        ensures
            r == self@.contains(item@),
    {
        proof {
            use_type_invariant(&*self);
        }
        self.index.contains(item)
    }

    /// The number of texts.
    pub fn len(&self) -> (r: usize)
        ensures
            r == self@.len(),
            r == self.order().len(),
            self.order().no_duplicates(),
            self@ == self.order().to_set(),
            self@.finite(),
    {
        proof {
            use_type_invariant(&*self);
            self.order().unique_seq_to_set();
        }
        self.items.len()
    }

    /// Whether the set holds no text.
    pub fn is_empty(&self) -> (r: bool)
        ensures
            r == (self@ == Set::<Seq<char>>::empty()),
    {
        let n = self.len();
        proof {
            if n == 0 {
                assert(self@ =~= Set::<Seq<char>>::empty());
            }
        }
        n == 0
    }

    /// The text at a position in the order of insertion.
    pub fn get(&self, index: usize) -> (r: &String)
        requires
            index < self.order().len(),
        ensures
            r@ == self.order()[index as int],
            self@.contains(r@),
    {
        assert(self.order().contains(self.order()[index as int]));
        &self.items[index]
    }
}

}
