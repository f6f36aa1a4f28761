//! A growable store of values of one type, addressed by slot.

use vstd::prelude::*;
use vstd::std_specs::cmp::{PartialEqSpec, PartialEqSpecImpl};
use std::marker::PhantomData;
use crate::counter::{successor, usize_counter, Counter};

verus! {

/// What a handle holds: the identity of the store that issued it, and the
/// index of its slot.
pub struct HandleView {
    pub id: usize,
    pub idx: usize,
}

/// A handle to a value of type `T` in a [`Store`].
///
/// A handle names a slot, not a place in memory, so it stays good however
/// often the store moves its values to grow.
#[derive(Debug, Hash)]
pub struct Handle<T> {
    store_id: usize,
    idx: usize,
    _marker: PhantomData<T>,
}

impl<T> View for Handle<T> {
    type V = HandleView;

    closed spec fn view(&self) -> HandleView {
        HandleView { id: self.store_id, idx: self.idx }
    }
}

impl<T> Handle<T> {
    /// Get the id of the store this refers to.
    pub fn store_id(&self) -> (id: usize)
        ensures
            id == self@.id,
    {
        self.store_id
    }

    /// Get the index of the slot this refers to.
    pub fn index(&self) -> (idx: usize)
        ensures
            idx == self@.idx,
    {
        self.idx
    }

    /// Handles with different identities are never equal, even where they
    /// name the same slot.
    pub proof fn lemma_identity_separates(self, other: Self)
        requires
            self@.id != other@.id,
        ensures
            self != other,
            !PartialEqSpec::eq_spec(&self, &other),
    {
    }

    /// Two handles are equal exactly when identity and slot agree.
    pub proof fn lemma_equal_by_parts(self, other: Self)
        ensures
            PartialEqSpec::eq_spec(&self, &other) <==> self@ == other@,
            self == other <==> self@ == other@,
    {
    }
}

impl<T> Clone for Handle<T> {
    fn clone(&self) -> (h: Self)
        ensures
            h == *self,
    {
        Handle { store_id: self.store_id, idx: self.idx, _marker: PhantomData }
    }
}

impl<T> Copy for Handle<T> {

}

impl<T> PartialEq for Handle<T> {
    fn eq(&self, other: &Self) -> (equal: bool) {
        self.store_id == other.store_id && self.idx == other.idx
    }
}

impl<T> Eq for Handle<T> {

}

impl<T> PartialEqSpecImpl for Handle<T> {
    open spec fn obeys_eq_spec() -> bool {
        true
    }

    open spec fn eq_spec(&self, other: &Self) -> bool {
        self@ == other@
    }
}

/// The state of a store: its identity and its values, in slot order.
pub struct StoreView<T> {
    pub id: usize,
    pub values: Seq<T>,
}

impl<T> StoreView<T> {
    /// What a handle resolves to: the value in its slot, if the handle
    /// carries this store's identity and the slot exists.
    pub open spec fn get(self, h: HandleView) -> Option<T> {
        if h.id == self.id && h.idx < self.values.len() {
            Some(self.values[h.idx as int])
        } else {
            None
        }
    }

    /// The store with `val` in a new last slot.
    pub open spec fn allocated(self, val: T) -> StoreView<T> {
        StoreView { id: self.id, values: self.values.push(val) }
    }

    /// Growth leaves every handle that resolved before resolving to the
    /// same value.
    pub proof fn lemma_growth_keeps(self, val: T, h: HandleView)
        requires
            self.get(h) is Some,
        ensures
            self.allocated(val).get(h) == self.get(h),
    {
    }
}

/// A growable, append-only store of values of one type.
pub struct Store<T> {
    store_id: usize,
    values: Vec<T>,
}

impl<T> View for Store<T> {
    type V = StoreView<T>;

    closed spec fn view(&self) -> StoreView<T> {
        StoreView { id: self.store_id, values: self.values@ }
    }
}

impl<T> Store<T> {
    /// An empty store with a fresh identity.
    pub fn new(ids: &mut Counter) -> (store: Self)
        ensures
            store@ == (StoreView::<T> { id: old(ids)@, values: Seq::empty() }),
            final(ids)@ == successor(old(ids)@),
    {
        Self { store_id: usize_counter(ids), values: Vec::new() }
    }

    /// An empty store with a fresh identity and room for `capacity` values
    /// before it has to move them.
    pub fn with_capacity(capacity: usize, ids: &mut Counter) -> (store: Self)
        ensures
            store@ == (StoreView::<T> { id: old(ids)@, values: Seq::empty() }),
            final(ids)@ == successor(old(ids)@),
    {
        Self { store_id: usize_counter(ids), values: Vec::with_capacity(capacity) }
    }

    /// The identity of this store.
    pub fn store_id(&self) -> (id: usize)
        ensures
            id == self@.id,
    {
        self.store_id
    }

    /// The number of values in this store.
    pub fn len(&self) -> (len: usize)
        ensures
            len == self@.values.len(),
    {
        self.values.len()
    }

    /// Append `val` and return a handle to its slot. Every handle issued
    /// before resolves as it did.
    pub fn allocate(&mut self, val: T) -> (h: Handle<T>)
        ensures
            final(self)@ == old(self)@.allocated(val),
            h@ == (HandleView { id: old(self)@.id, idx: old(self)@.values.len() as usize }),
            h@.idx == old(self)@.values.len(),
            final(self)@.get(h@) == Some(val),
            forall|k: HandleView|
                old(self)@.get(k) is Some ==> #[trigger] final(self)@.get(k) == old(self)@.get(k),
    {
        self.values.push(val);
        Handle { store_id: self.store_id, idx: self.values.len() - 1, _marker: PhantomData }
    }

    /// Get the value in the slot of `r`.
    ///
    /// Returns `None` when the handle does not belong to this store, and
    /// when the store has no such slot.
    pub fn get(&self, r: Handle<T>) -> (res: Option<&T>)
        ensures
            match res {
                Some(val) => self@.get(r@) == Some(*val),
                None => self@.get(r@) is None,
            },
            r@.id != self@.id ==> res is None,
    {
        if r.store_id != self.store_id || r.idx >= self.values.len() {
            return None;
        }
        Some(&self.values[r.idx])
    }

    /// Get the slot of `r` for writing.
    ///
    /// Returns `None` when the handle does not belong to this store, and
    /// when the store has no such slot. What the caller writes to the slot
    /// is the only change to the store.
    pub fn get_mut(&mut self, r: Handle<T>) -> (res: Option<&mut T>)
        ensures
            match res {
                Some(slot) => old(self)@.get(r@) == Some(*slot) && final(self)@ == (StoreView {
                    id: old(self)@.id,
                    values: old(self)@.values.update(r@.idx as int, *final(slot)),
                }),
                None => old(self)@.get(r@) is None && final(self)@ == old(self)@,
            },
            r@.id != old(self)@.id ==> res is None,
    {
        if r.store_id != self.store_id || r.idx >= self.values.len() {
            return None;
        }
        Some(&mut self.values[r.idx])
    }
}

} // verus!
