//! A set of values without duplicates, kept in the order of insertion.

use vstd::prelude::*;

verus! {

/// A value that can be an element of a replicated set.
///
/// Two values are one element exactly when their views are equal.
pub trait Element: View + Sized {
    /// Whether two values are the same element.
    fn same(&self, other: &Self) -> (r: bool)
        ensures
            r == (self@ == other@),
    ;

    /// Another value that is the same element.
    fn duplicate(&self) -> (r: Self)
        ensures
            r@ == self@,
    ;
}

impl Element for String {
    fn same(&self, other: &Self) -> (r: bool) {
        *self == *other
    }

    fn duplicate(&self) -> (r: Self) {
        self.clone()
    }
}

impl Element for u64 {
    fn same(&self, other: &Self) -> (r: bool) {
        *self == *other
    }

    fn duplicate(&self) -> (r: Self) {
        *self
    }
}

impl Element for u32 {
    fn same(&self, other: &Self) -> (r: bool) {
        *self == *other
    }

    fn duplicate(&self) -> (r: Self) {
        *self
    }
}

impl<A: Element, B: Element> Element for (A, B) {
    fn same(&self, other: &Self) -> (r: bool) {
        self.0.same(&other.0) && self.1.same(&other.1)
    }

    fn duplicate(&self) -> (r: Self) {
        (self.0.duplicate(), self.1.duplicate())
    }
}

/// The views of a sequence of elements.
pub open spec fn element_views<T: Element>(items: Seq<T>) -> Seq<T::V> {
    items.map_values(|x: T| x@)
}

/// A finite set of elements.
#[derive(Debug)]
pub struct Elements<T: Element> {
    items: Vec<T>,
}

impl<T: Element> View for Elements<T> {
    type V = Set<T::V>;

    closed spec fn view(&self) -> Set<T::V> {
        self.order().to_set()
    }
}

impl<T: Element> Elements<T> {
    /// The elements in the order in which they were inserted.
    pub closed spec fn order(self) -> Seq<T::V> {
        element_views(self.items@)
    }

    #[verifier::type_invariant]
    spec fn unique(self) -> bool {
        self.order().no_duplicates()
    }

    /// Creates an empty set.
    pub fn new() -> (r: Self)
        ensures
            r@ == Set::<T::V>::empty(),
            r.order() == Seq::<T::V>::empty(),
    {
        let r = Elements { items: Vec::new() };
        assert(r.order() =~= Seq::<T::V>::empty());
        assert(r@ =~= Set::<T::V>::empty());
        r
    }

    /// Whether the set holds an element.
    pub fn contains(&self, element: &T) -> (r: bool)
        ensures
            r == self@.contains(element@),
    {
        let mut i: usize = 0;
        while i < self.items.len()
            invariant
                i <= self.items.len(),
                forall|k: int| 0 <= k < i ==> self.order()[k] != element@,
            decreases self.items.len() - i,
        {
            if self.items[i].same(element) {
                assert(self.order()[i as int] == element@);
                assert(self.order().contains(element@));
                return true;
            }
            i += 1;
        }
        assert(!self.order().contains(element@));
        false
    }

    /// Adds an element. Returns whether it was not there before.
    pub fn insert(&mut self, element: T) -> (r: bool)
        ensures
            r == !old(self)@.contains(element@),
            final(self)@ == old(self)@.insert(element@),
            final(self).order() == if r {
                old(self).order().push(element@)
            } else {
                old(self).order()
            },
    {
        proof {
            use_type_invariant(&*self);
        }
        if self.contains(&element) {
            assert(self@ =~= self@.insert(element@));
            return false;
        }
        let mut items: Vec<T> = Vec::new();
        assert(element_views(items@).no_duplicates());
        std::mem::swap(&mut items, &mut self.items);
        let ghost before = items@;
        items.push(element);
        proof {
            assert(element_views(items@) =~= element_views(before).push(element@));
            let v = element_views(before);
            assert(!v.contains(element@));
            assert(v.push(element@).no_duplicates());
            assert forall|x: T::V| #[trigger] v.push(element@).to_set().contains(x)
                == v.to_set().insert(element@).contains(x) by {
                if v.contains(x) {
                    let k = choose|k: int| 0 <= k < v.len() && v[k] == x;
                    assert(v.push(element@)[k] == x);
                }
                if x == element@ {
                    assert(v.push(element@)[v.len() as int] == x);
                }
            }
            assert(v.push(element@).to_set() =~= v.to_set().insert(element@));
        }
        self.items = items;
        true
    }

    /// The number of elements.
    pub fn len(&self) -> (r: usize)
        ensures
            r == self@.len(),
            self@.finite(),
            r == self.order().len(),
            self.order().no_duplicates(),
    {
        proof {
            use_type_invariant(&*self);
            self.order().unique_seq_to_set();
        }
        self.items.len()
    }

    /// Whether there are no elements.
    pub fn is_empty(&self) -> (r: bool)
        ensures
            r == (self@.len() == 0),
    {
        self.len() == 0
    }

    /// The element at a position.
    pub fn get(&self, index: usize) -> (r: &T)
        requires
            index < self.order().len(),
        ensures
            r@ == self.order()[index as int],
            self@.contains(r@),
    {
        assert(self.order().contains(self.order()[index as int]));
        &self.items[index]
    }

    /// The set is what its elements are.
    pub proof fn view_is_order(&self)
        ensures
            self@ == self.order().to_set(),
    {
    }

    /// Whether every element of this set is in another.
    fn within(&self, other: &Self) -> (r: bool)
        ensures
            r == self@.subset_of(other@),
    {
        let mut i: usize = 0;
        while i < self.items.len()
            invariant
                i <= self.items.len(),
                forall|k: int| 0 <= k < i ==> other@.contains(#[trigger] self.order()[k]),
            decreases self.items.len() - i,
        {
            if !other.contains(&self.items[i]) {
                assert(self.order().contains(self.order()[i as int]));
                return false;
            }
            i += 1;
        }
        true
    }

    /// Whether two sets hold the same elements.
    pub fn same_elements(&self, other: &Self) -> (r: bool)
        ensures
            r == (self@ == other@),
    {
        let r = self.within(other) && other.within(self);
        assert(r ==> self@ =~= other@);
        r
    }

    /// Adds every element of another set.
    pub fn extend(&mut self, other: &Self)
        ensures
            final(self)@ == old(self)@.union(other@),
    {
        let mut i: usize = 0;
        assert(other.order().take(0).to_set() =~= Set::<T::V>::empty());
        assert(self@ =~= old(self)@.union(other.order().take(0).to_set()));
        while i < other.items.len()
            invariant
                i <= other.items.len(),
                self@ == old(self)@.union(other.order().take(i as int).to_set()),
            decreases other.items.len() - i,
        {
            let ghost part = other.order().take(i as int);
            let ghost next = other.order().take(i + 1);
            proof {
                assert(next =~= part.push(other.order()[i as int]));
                assert forall|x: T::V| #[trigger] next.to_set().contains(x) == part.to_set().insert(
                    other.order()[i as int],
                ).contains(x) by {
                    if part.contains(x) {
                        let k = choose|k: int| 0 <= k < part.len() && part[k] == x;
                        assert(next[k] == x);
                    }
                    if x == other.order()[i as int] {
                        assert(next[i as int] == x);
                    }
                }
                assert(next.to_set() =~= part.to_set().insert(other.order()[i as int]));
                assert(old(self)@.union(part.to_set()).insert(other.order()[i as int])
                    =~= old(self)@.union(next.to_set()));
            }
            self.insert(other.items[i].duplicate());
            i += 1;
        }
        assert(other.order().take(i as int) =~= other.order());
    }
}

impl<T: Element> Clone for Elements<T> {
    fn clone(&self) -> (r: Self)
        ensures
            r@ == self@,
    {
        let mut r = Elements::new();
        r.extend(self);
        assert(r@ =~= self@);
        r
    }
}

impl<T: Element> PartialEq for Elements<T> {
    fn eq(&self, other: &Self) -> (r: bool) {
        self.same_elements(other)
    }
}

impl<T: Element> vstd::std_specs::cmp::PartialEqSpecImpl for Elements<T> {
    open spec fn obeys_eq_spec() -> bool {
        true
    }

    open spec fn eq_spec(&self, other: &Self) -> bool {
        self@ == other@
    }
}

impl<T: Element> Eq for Elements<T> {

}

}
