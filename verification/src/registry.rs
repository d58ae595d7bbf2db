//! A set of label values that accepts only a bounded number of distinct values.
use vstd::hash_set::StringHashSet;
use vstd::prelude::*;

verus! {

broadcast use vstd::set_lib::group_set_lib_default;

/// Set that accepts only a bounded number of distinct values.
pub struct BoundedRegistry {
    /// Accepted values.
    entries: StringHashSet,
    /// Maximum number of distinct values kept.
    max_entries: usize,
}

impl BoundedRegistry {
    #[verifier::type_invariant]
    spec fn bounded(&self) -> bool {
        &&& self.entries@.finite()
        &&& self.entries@.len() <= self.max_entries
    }

    /// The values accepted so far.
    pub closed spec fn values(&self) -> Set<Seq<char>> {
        self.entries@
    }

    /// The maximum number of distinct values.
    pub closed spec fn capacity(&self) -> nat {
        self.max_entries as nat
    }

    /// Creates an empty registry with the given maximum cardinality.
    pub fn new(max_entries: usize) -> (r: Self)
        ensures
            r.values() == Set::<Seq<char>>::empty(),
            r.capacity() == max_entries,
    {
        BoundedRegistry { entries: StringHashSet::with_capacity(max_entries), max_entries }
    }

    /// Adds a value, returning `false` when the registry is already full.
    ///
    /// A value already present is accepted again; a new value is accepted and
    /// kept while fewer than `capacity` values are held.
    pub fn add(&mut self, value: &str) -> (accepted: bool)
        ensures
            final(self).capacity() == old(self).capacity(),
            final(self).values().len() <= final(self).capacity(),
            final(self).values().finite(),
            old(self).values().contains(value@) ==> accepted && final(self).values() == old(
                self,
            ).values(),
            !old(self).values().contains(value@) && old(self).values().len() >= old(
                self,
            ).capacity() ==> !accepted && final(self).values() == old(self).values(),
            !old(self).values().contains(value@) && old(self).values().len() < old(
                self,
            ).capacity() ==> accepted && final(self).values() == old(self).values().insert(
                value@,
            ),
    {
        proof {
            use_type_invariant(&*self);
        }
        if self.entries.contains(value) {
            return true;
        }
        if self.entries.len() >= self.max_entries {
            return false;
        }
        let mut set = StringHashSet::new();
        std::mem::swap(&mut set, &mut self.entries);
        set.insert(crate::text::owned(value));
        self.entries = set;
        proof {
            use_type_invariant(&*self);
        }
        true
    }

    /// Returns the number of distinct values accepted so far.
    pub fn count(&self) -> (n: usize)
        ensures
            n == self.values().len(),
            n <= self.capacity(),
    {
        proof {
            use_type_invariant(self);
        }
        self.entries.len()
    }

    /// Returns whether a value has already been accepted by the registry.
    pub fn contains(&self, value: &str) -> (r: bool)
        ensures
            r == self.values().contains(value@),
    {
        self.entries.contains(value)
    }
}

} // verus!
