//! Grow-only set.
//!
//! Elements are only ever added, and a merge is the union of the two sets.

use crate::crdt::elements::{Element, Elements};
use vstd::prelude::*;

verus! {

/// Grow-only set of elements, typically event hashes.
#[derive(Debug, PartialEq, Eq)]
pub struct GSet<T: Element> {
    pub elements: Elements<T>,
}

impl<T: Element> View for GSet<T> {
    type V = Set<T::V>;

    open spec fn view(&self) -> Set<T::V> {
        self.elements@
    }
}

impl<T: Element> GSet<T> {
    /// Creates an empty set.
    pub fn new() -> (r: Self)
        ensures
            r@ == Set::<T::V>::empty(),
    {
        GSet { elements: Elements::new() }
    }

    /// Inserts an element into the set.
    pub fn insert(&mut self, element: T)
        ensures
            final(self)@ == old(self)@.insert(element@),
    {
        self.elements.insert(element);
    }

    /// Merges another set into this one.
    pub fn merge(&mut self, other: &Self)
        ensures
            final(self)@ == old(self)@.union(other@),
    {
        self.elements.extend(&other.elements);
    }

    /// Whether the set contains an element.
    pub fn contains(&self, element: &T) -> (r: bool)
        ensures
            r == self@.contains(element@),
    {
        self.elements.contains(element)
    }

    /// The number of elements in the set.
    pub fn len(&self) -> (r: usize)
        ensures
            r == self@.len(),
            self@.finite(),
    {
        self.elements.len()
    }

    /// Whether the set has no element.
    pub fn is_empty(&self) -> (r: bool)
        ensures
            r == (self@ == Set::<T::V>::empty()),
    {
        let n = self.elements.len();
        if n == 0 {
            assert(self@ =~= Set::<T::V>::empty());
        }
        n == 0
    }
}

impl<T: Element> Clone for GSet<T> {
    fn clone(&self) -> (r: Self)
        ensures
            r@ == self@,
    {
        GSet { elements: self.elements.clone() }
    }
}

impl<T: Element> Default for GSet<T> {
    fn default() -> (r: Self)
        ensures
            r@ == Set::<T::V>::empty(),
    {
        GSet::new()
    }
}

/// Merging grow-only sets is commutative, associative and idempotent, and
/// loses no element.
pub proof fn gset_merge_is_a_semilattice<V>(a: Set<V>, b: Set<V>, c: Set<V>)
    ensures
        a.union(b) == b.union(a),
        a.union(b).union(c) == a.union(b.union(c)),
        a.union(a) == a,
        a.subset_of(a.union(b)),
{
    assert(a.union(b) =~= b.union(a));
    assert(a.union(b).union(c) =~= a.union(b.union(c)));
    assert(a.union(a) =~= a);
}

}
