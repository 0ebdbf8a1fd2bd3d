//! Sets of identifiers.
use vstd::hash_set::StringHashSet;
use vstd::prelude::*;

verus! {

/// A set of strings.
pub struct IdSet {
    ids: StringHashSet,
}

impl View for IdSet {
    type V = Set<Seq<char>>;

    closed spec fn view(&self) -> Set<Seq<char>> {
        self.ids@
    }
}

impl IdSet {
    pub fn new() -> (r: IdSet)
        ensures
            r@ == Set::<Seq<char>>::empty(),
    {
        IdSet { ids: StringHashSet::new() }
    }

    /// Adds `id`; the answer tells whether it was missing.
    pub fn insert(&mut self, id: &str) -> (fresh: bool)
        ensures
            final(self)@ == old(self)@.insert(id@),
            fresh == !old(self)@.contains(id@),
    {
        self.ids.insert(id.to_owned())
    }

    pub fn contains(&self, id: &str) -> (r: bool)
        ensures
            r == self@.contains(id@),
    {
        self.ids.contains(id)
    }

    pub fn len(&self) -> (r: usize)
        ensures
            r == self@.len(),
    {
        self.ids.len()
    }

    pub fn is_empty(&self) -> (r: bool)
        ensures
            r == (self@ == Set::<Seq<char>>::empty()),
    {
        self.ids.is_empty()
    }
}

} // verus!
