//! The registry of requests that wait for the commit of the log index at
//! which they were proposed.
use vstd::prelude::*;
use std::collections::BTreeMap;

verus! {

broadcast use {vstd::std_specs::btree::group_btree_axioms, vstd::laws_cmp::group_laws_cmp};

/// A one-shot slot per log index. A second registration at an index
/// replaces the first, whose request then only times out.
pub struct Waiters<T> {
    slots: BTreeMap<u64, T>,
}

impl<T> View for Waiters<T> {
    type V = Map<u64, T>;

    closed spec fn view(&self) -> Map<u64, T> {
        self.slots@
    }
}

impl<T> Waiters<T> {
    pub fn new() -> (r: Self)
        ensures
            r@ == Map::<u64, T>::empty(),
    {
        Waiters { slots: BTreeMap::new() }
    }

    /// Registers `slot` at `index`, and hands back the slot it replaces.
    pub fn register(&mut self, index: u64, slot: T) -> (r: Option<T>)
        ensures
            final(self)@ == old(self)@.insert(index, slot),
            r is Some <==> old(self)@.contains_key(index),
            r matches Some(s) ==> s == old(self)@[index],
    {
        self.slots.insert(index, slot)
    }

    /// Removes the slot at `index` and hands it over, to be fulfilled.
    pub fn take(&mut self, index: u64) -> (r: Option<T>)
        ensures
            final(self)@ == old(self)@.remove(index),
            r is Some <==> old(self)@.contains_key(index),
            r matches Some(s) ==> s == old(self)@[index],
    {
        self.slots.remove(&index)
    }

    /// Drops every slot; their requests observe that the registry closed.
    pub fn clear(&mut self)
        ensures
            final(self)@ == Map::<u64, T>::empty(),
    {
        self.slots.clear();
    }
}

} // verus!
