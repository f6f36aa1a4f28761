//! References into an arena.

use vstd::prelude::*;
use vstd::std_specs::cmp::{PartialEqSpec, PartialEqSpecImpl};
use std::marker::PhantomData;

verus! {

/// What a reference holds: the identity of the arena that issued it, and the
/// place of the value in that arena's address space.
pub struct RefView {
    pub id: usize,
    pub ptr: usize,
    pub len: usize,
}

/// A reference to a value of type `T` in an [`Arena`](crate::Arena).
///
/// A reference is a plain value: copying it copies neither the value it
/// refers to nor any right to it. The only way from a reference to its value
/// leads through the arena with the same identity.
#[derive(Debug, Hash)]
pub struct Ref<T: ?Sized> {
    id: usize,
    ptr: usize,
    len: usize,
    _marker: PhantomData<T>,
}

impl<T: ?Sized> View for Ref<T> {
    type V = RefView;

    closed spec fn view(&self) -> RefView {
        RefView { id: self.id, ptr: self.ptr, len: self.len }
    }
}

impl<T: ?Sized> Ref<T> {
    /// A reference with identity `id` to the `len` bytes at address `ptr`.
    pub fn new(id: usize, ptr: usize, len: usize) -> (r: Self)
        ensures
            r@ == (RefView { id, ptr, len }),
    {
        Ref { id, ptr, len, _marker: PhantomData }
    }

    /// Get the id of the arena this refers to.
    pub fn arena_id(&self) -> (id: usize)
        ensures
            id == self@.id,
    {
        self.id
    }

    /// Get the address this points to.
    pub fn as_ptr(&self) -> (ptr: usize)
        ensures
            ptr == self@.ptr,
    {
        self.ptr
    }

    /// Get the number of bytes this points to.
    pub fn len(&self) -> (len: usize)
        ensures
            len == self@.len,
    {
        self.len
    }

    /// References with different identities are never equal, even where
    /// they point to the same address.
    pub proof fn lemma_identity_separates(self, other: Self)
        requires
            self@.id != other@.id,
        ensures
            self != other,
            !PartialEqSpec::eq_spec(&self, &other),
    {
    }

    /// Two references are equal exactly when identity, address and length
    /// agree.
    pub proof fn lemma_equal_by_parts(self, other: Self)
        ensures
            PartialEqSpec::eq_spec(&self, &other) <==> self@ == other@,
            self == other <==> self@ == other@,
    {
    }
}

impl<T: ?Sized> Clone for Ref<T> {
    fn clone(&self) -> (r: Self)
        ensures
            r == *self,
    {
        Ref { id: self.id, ptr: self.ptr, len: self.len, _marker: PhantomData }
    }
}

impl<T: ?Sized> Copy for Ref<T> {

}

impl<T: ?Sized> PartialEq for Ref<T> {
    fn eq(&self, other: &Self) -> (equal: bool) {
        self.id == other.id && self.ptr == other.ptr && self.len == other.len
    }
}

impl<T: ?Sized> Eq for Ref<T> {

}

impl<T: ?Sized> PartialEqSpecImpl for Ref<T> {
    open spec fn obeys_eq_spec() -> bool {
        true
    }

    open spec fn eq_spec(&self, other: &Self) -> bool {
        self@ == other@
    }
}

} // verus!
