//! What holds of every arena, proved over its states.

use vstd::prelude::*;
use crate::arena::view::ArenaView;
use crate::layout::{lemma_padding_aligns, lemma_padding_at_start, lemma_padding_from_base, PAGE};
use crate::pod::Pod;
use crate::reference::RefView;

verus! {

impl ArenaView {
    /// Turning to the next block keeps the invariant while the address space
    /// lasts, and keeps every block that was there.
    pub proof fn lemma_next_block(self)
        requires
            self.wf(),
            self.can_turn(),
        ensures
            self.next_block().wf(),
            self.next_block().blocks.len() >= self.blocks.len(),
            forall|i: int|
                0 <= i < self.blocks.len() ==> #[trigger] self.next_block().blocks[i]
                    == self.blocks[i],
    {
        if self.cur_block + 1 < self.blocks.len() {
            self.lemma_same_blocks(self.next_block());
        } else {
            self.lemma_grown_sound();
            self.grown().lemma_same_blocks(self.next_block());
        }
    }

    /// An allocation keeps the invariant. The value lies in its slot, at
    /// an address that its alignment divides, and reads back as written.
    pub proof fn lemma_allocated(self, bytes: Seq<u8>, align: int)
        requires
            self.wf(),
            align > 0,
            self.can_alloc(bytes.len() as int, align),
        ensures
            self.allocated(bytes, align).wf(),
            self.allocated(bytes, align).id == self.id,
            self.allocated(bytes, align).capacity == self.capacity,
            ({
                let after = self.allocated(bytes, align);
                let len = bytes.len() as int;
                let (block, offset) = self.slot(len, align);
                let ptr = self.landing(len, align);
                &&& after.holds(block, ptr, len)
                &&& ptr == after.blocks[block].base + offset
                &&& after.read(ptr, len) == Some(bytes)
                &&& PAGE as int % align == 0 ==> ptr % align == 0
            }),
    {
        let len = bytes.len() as int;
        let after = self.allocated(bytes, align);
        let ptr = self.landing(len, align);
        if len >= self.capacity {
            self.lemma_housed_sound(bytes);
            after.lemma_read(self.cur_block, ptr, len);
            if PAGE as int % align == 0 {
                lemma_padding_from_base(self.reserved, 0, align);
            }
        } else {
            let t = self.turned(len, align);
            let s = self.spaced(len, align);
            let at = self.start(len, align);
            let c = t.cur_block;
            if !self.fits(len, align) {
                self.lemma_next_block();
            }
            lemma_padding_aligns(t.offset, align);
            lemma_padding_at_start(align);
            t.lemma_same_blocks(s);
            s.lemma_written_sound(c, at, bytes);
            assert(t.block_ok(c));
            after.lemma_read(c, ptr, len);
            if PAGE as int % align == 0 {
                lemma_padding_from_base(t.blocks[c].base, at, align);
            }
        }
    }

    /// A reference that carries another identity than the arena's resolves
    /// to nothing there, wherever it points: what one arena issued, no
    /// other arena honours.
    pub proof fn lemma_foreign_reference<T: Pod>(self, issuer: ArenaView, r: RefView)
        requires
            r.id == issuer.id,
            issuer.id != self.id,
        ensures
            self.get::<T>(r) is None,
            self.get_str(r) is None,
    {
    }

    /// A value that is shorter than a block and does not fit into what is
    /// left of the current one starts the next block: the index of the
    /// current block grows by exactly one, and the value lies at offset 0.
    pub proof fn lemma_rollover(self, bytes: Seq<u8>, align: int)
        requires
            self.wf(),
            align > 0,
            self.rolls_over(bytes.len() as int, align),
        ensures
            self.slot(bytes.len() as int, align) == (self.cur_block + 1, 0int),
            self.allocated(bytes, align).starts_block(
                self,
                self.landing(bytes.len() as int, align),
                bytes.len() as int,
            ),
    {
    }

    /// Nothing but an empty value fits into a block that is full.
    pub proof fn lemma_full_block(self, size: int, align: int)
        requires
            self.wf(),
            align > 0,
            self.offset == self.capacity,
            size > 0,
        ensures
            !self.fits(size, align),
    {
    }

    /// A value as long as a block or longer gets a block of its own and
    /// leaves the writable position alone: the current block is the block
    /// it was, the offset is what it was, and the value after it starts at
    /// the offset at which it would have started anyway.
    pub proof fn lemma_oversized_keeps_place(
        self,
        big: Seq<u8>,
        big_align: int,
        size: int,
        align: int,
    )
        requires
            self.wf(),
            big.len() >= self.capacity,
        ensures
            ({
                let after = self.allocated(big, big_align);
                &&& after.same_place(self)
                &&& after.fits(size, align) == self.fits(size, align)
                &&& after.start(size, align) == self.start(size, align)
                &&& size < self.capacity ==> after.slot(size, align) == (
                    self.slot(size, align).0 + 1,
                    self.slot(size, align).1,
                )
                &&& size < self.capacity && self.fits(size, align) ==> after.landing(size, align)
                    == self.landing(size, align)
            }),
    {
    }

    /// The arena after allocating each of `values`, bytes and alignment, in
    /// turn.
    pub open spec fn allocated_all(self, values: Seq<(Seq<u8>, int)>) -> ArenaView
        decreases values.len(),
    {
        if values.len() == 0 {
            self
        } else {
            self.allocated(values[0].0, values[0].1).allocated_all(values.drop_first())
        }
    }

    /// The slots, block index and offset, in which `values` come to lie when
    /// they are allocated in turn.
    pub open spec fn slots(self, values: Seq<(Seq<u8>, int)>) -> Seq<(int, int)>
        decreases values.len(),
    {
        if values.len() == 0 {
            Seq::empty()
        } else {
            let (bytes, align) = values[0];
            seq![self.slot(bytes.len() as int, align)] + self.allocated(bytes, align).slots(
                values.drop_first(),
            )
        }
    }

    /// Where values come to lie depends on the writable position and the
    /// block length alone, not on the blocks or on what they hold.
    pub proof fn lemma_slots_by_position(self, other: ArenaView, values: Seq<(Seq<u8>, int)>)
        requires
            self.capacity == other.capacity,
            self.cur_block == other.cur_block,
            self.offset == other.offset,
        ensures
            self.slots(values) == other.slots(values),
        decreases values.len(),
    {
        if values.len() > 0 {
            let (bytes, align) = values[0];
            self.allocated(bytes, align).lemma_slots_by_position(
                other.allocated(bytes, align),
                values.drop_first(),
            );
        }
    }

    /// Allocations change neither the identity nor the block length.
    pub proof fn lemma_allocated_all_same_arena(self, values: Seq<(Seq<u8>, int)>)
        ensures
            self.allocated_all(values).id == self.id,
            self.allocated_all(values).capacity == self.capacity,
        decreases values.len(),
    {
        if values.len() > 0 {
            let (bytes, align) = values[0];
            self.allocated(bytes, align).lemma_allocated_all_same_arena(values.drop_first());
        }
    }

    /// After a clear the arena is used again as it was used before: on an
    /// arena whose writable position is at the start, as it is in a new
    /// one, allocate `values`, clear, and allocate the same values again;
    /// they come to lie in the same block indices at the same offsets.
    pub proof fn lemma_clear_replays(self, values: Seq<(Seq<u8>, int)>)
        requires
            self.cur_block == 0,
            self.offset == 0,
        ensures
            self.allocated_all(values).cleared().slots(values) == self.slots(values),
    {
        self.lemma_allocated_all_same_arena(values);
        self.allocated_all(values).cleared().lemma_slots_by_position(self, values);
    }

    /// A clear leaves the memory as it is: every range reads as before.
    pub proof fn lemma_clear_keeps_memory(self, ptr: int, len: int)
        requires
            self.wf(),
            len >= 0,
        ensures
            self.cleared().wf(),
            self.cleared().read(ptr, len) == self.read(ptr, len),
    {
        let c = self.cleared();
        self.lemma_same_blocks(c);
        if self.resolves(ptr, len) {
            let i = choose|i: int| self.holds(i, ptr, len);
            c.lemma_read(i, ptr, len);
        } else if c.resolves(ptr, len) {
            let i = choose|i: int| c.holds(i, ptr, len);
            assert(self.holds(i, ptr, len));
        }
    }

    /// Addresses are stable. A range that some block held before an
    /// allocation, a block holds after it; and where the new value does not
    /// overlap the range, it reads the same after.
    pub proof fn lemma_allocated_keeps_memory(self, bytes: Seq<u8>, align: int, ptr: int, len: int)
        requires
            self.wf(),
            align > 0,
            self.can_alloc(bytes.len() as int, align),
            len >= 0,
            self.resolves(ptr, len),
        ensures
            self.allocated(bytes, align).resolves(ptr, len),
            ({
                let at = self.landing(bytes.len() as int, align);
                ptr + len <= at || at + bytes.len() <= ptr ==> self.allocated(bytes, align).read(
                    ptr,
                    len,
                ) == self.read(ptr, len)
            }),
    {
        let size = bytes.len() as int;
        let after = self.allocated(bytes, align);
        self.lemma_allocated(bytes, align);
        let i = choose|i: int| self.holds(i, ptr, len);
        if size >= self.capacity {
            let moved = if i < self.cur_block {
                i
            } else {
                i + 1
            };
            after.lemma_read(moved, ptr, len);
        } else {
            after.lemma_read(i, ptr, len);
        }
    }

    /// Writing through a reference keeps the invariant and leaves the rest
    /// of the memory as it is: a range that the written bytes do not overlap
    /// reads the same after.
    pub proof fn lemma_poked_keeps_memory(self, at: int, bytes: Seq<u8>, ptr: int, len: int)
        requires
            self.wf(),
            len >= 0,
            ptr + len <= at || at + bytes.len() <= ptr,
        ensures
            self.poked(at, bytes).wf(),
            self.poked(at, bytes).read(ptr, len) == self.read(ptr, len),
    {
        let size = bytes.len() as int;
        let after = self.poked(at, bytes);
        if self.resolves(at, size) {
            let w = choose|i: int| self.holds(i, at, size);
            self.lemma_written_sound(w, at - self.blocks[w].base, bytes);
            if self.resolves(ptr, len) {
                let i = choose|i: int| self.holds(i, ptr, len);
                after.lemma_read(i, ptr, len);
            } else if after.resolves(ptr, len) {
                let i = choose|i: int| after.holds(i, ptr, len);
                assert(self.holds(i, ptr, len));
            }
        }
    }
}

} // verus!
