//! The source of container identities.

use vstd::prelude::*;

verus! {

/// Hands out identities in increasing order. Every container draws one when
/// it is created, so two containers that draw from the same counter differ
/// in identity until the counter has gone once round the whole of `usize`.
pub struct Counter {
    next: usize,
}

impl View for Counter {
    type V = usize;

    /// The identity that the next draw returns.
    closed spec fn view(&self) -> usize {
        self.next
    }
}

impl Counter {
    /// A counter whose first identity is 0.
    pub fn new() -> (counter: Self)
        ensures
            counter@ == 0,
    {
        Counter { next: 0 }
    }
}

/// The identity that follows `id`; after the largest one the sequence starts
/// over at 0.
pub open spec fn successor(id: usize) -> usize {
    if id == usize::MAX {
        0
    } else {
        (id + 1) as usize
    }
}

/// No identity is its own successor: two draws in a row never give the same
/// identity.
pub proof fn lemma_successor_differs(id: usize)
    ensures
        successor(id) != id,
{
}

/// Return the counter's current value and move the counter to the next one:
/// a value higher than the previous one, until `usize` is used up.
pub fn usize_counter(counter: &mut Counter) -> (id: usize)
    ensures
        id == old(counter)@,
        final(counter)@ == successor(id),
        id < usize::MAX ==> final(counter)@ > id,
{
    let id: usize = counter.next;
    counter.next = if id == usize::MAX {
        0
    } else {
        id + 1
    };
    id
}

} // verus!
