//! The materialised values of dependencies, by name.
use crate::table;
use crate::table::{find, put};
use std::sync::Arc;
use vstd::prelude::*;

verus! {

/// What a test or a constructor sees of the dependencies around it.
pub trait DependencyView<V> {
    /// The values by name.
    spec fn values(&self) -> Map<Seq<char>, Arc<V>>;

    /// The values can be asked for.
    spec fn valid(&self) -> bool;

    /// The value of the dependency of this name.
    fn get(&self, name: &str) -> (r: Option<Arc<V>>)
        requires
            self.valid(),
        ensures
            r == (if self.values().contains_key(name@) {
                Some(self.values()[name@])
            } else {
                None
            }),
    ;
}

/// Values by name; a name has at most one value.
#[verifier::reject_recursive_types(V)]
pub struct DependencyMap<V> {
    entries: Vec<(String, Arc<V>)>,
}

impl<V> View for DependencyMap<V> {
    type V = Map<Seq<char>, Arc<V>>;

    closed spec fn view(&self) -> Map<Seq<char>, Arc<V>> {
        table::entries_map(self.entries@)
    }
}

impl<V> DependencyMap<V> {
    /// No name occurs twice.
    pub closed spec fn wf(&self) -> bool {
        table::distinct_names(self.entries@)
    }

    pub fn new() -> (r: Self)
        ensures
            r.wf(),
            r@ == Map::<Seq<char>, Arc<V>>::empty(),
    {
        DependencyMap { entries: Vec::new() }
    }

    /// The number of names.
    pub fn len(&self) -> (r: usize)
        requires
            self.wf(),
        ensures
            self@.dom().finite(),
            r == self@.dom().len(),
    {
        proof {
            table::lemma_entries_map(self.entries@);
        }
        self.entries.len()
    }

    pub fn contains_key(&self, name: &str) -> (r: bool)
        requires
            self.wf(),
        ensures
            r == self@.contains_key(name@),
    {
        find(&self.entries, name).is_some()
    }

    /// Gives the name this value.
    pub fn insert(&mut self, name: String, value: Arc<V>)
        requires
            old(self).wf(),
        ensures
            final(self).wf(),
            final(self)@ == old(self)@.insert(name@, value),
    {
        put(&mut self.entries, name, value);
    }

    /// Adds the values of `other`; where both have a name, the value of `other` stands.
    pub fn extend(&mut self, other: &DependencyMap<V>)
        requires
            old(self).wf(),
            other.wf(),
        ensures
            final(self).wf(),
            final(self)@ == old(self)@.union_prefer_right(other@),
    {
        let ghost before = self@;
        let mut i: usize = 0;
        assert(before.union_prefer_right(table::entries_map(other.entries@.take(0))) =~= before);
        while i < other.entries.len()
            invariant
                i <= other.entries.len(),
                self.wf(),
                self@ == before.union_prefer_right(table::entries_map(other.entries@.take(i as int))),
            decreases other.entries.len() - i,
        {
            let ghost so_far = table::entries_map(other.entries@.take(i as int));
            let ghost e = other.entries@[i as int];
            assert(other.entries@.take(i + 1).drop_last() =~= other.entries@.take(i as int));
            self.insert(other.entries[i].0.clone(), other.entries[i].1.clone());
            assert(before.union_prefer_right(so_far).insert(e.0@, e.1)
                =~= before.union_prefer_right(so_far.insert(e.0@, e.1)));
            i = i + 1;
        }
        assert(other.entries@.take(i as int) =~= other.entries@);
    }

    /// Forgets all values.
    pub fn clear(&mut self)
        ensures
            final(self).wf(),
            final(self)@ == Map::<Seq<char>, Arc<V>>::empty(),
    {
        self.entries.clear();
    }

    /// A map with the same values.
    pub fn duplicate(&self) -> (r: Self)
        requires
            self.wf(),
        ensures
            r.wf(),
            r@ == self@,
    {
        let mut r = DependencyMap::new();
        r.extend(self);
        assert(r@ =~= self@);
        r
    }
}

impl<V> DependencyView<V> for DependencyMap<V> {
    open spec fn values(&self) -> Map<Seq<char>, Arc<V>> {
        self@
    }

    open spec fn valid(&self) -> bool {
        self.wf()
    }

    fn get(&self, name: &str) -> (r: Option<Arc<V>>) {
        match find(&self.entries, name) {
            Some(i) => Some(self.entries[i].1.clone()),
            None => None,
        }
    }
}

} // verus!
