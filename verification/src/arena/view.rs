//! The state of an arena as the contracts see it: blocks of bytes in an
//! address space, a writable position, and the steps that an allocation is
//! made of.

use vstd::prelude::*;
use vstd::utf8::{decode_utf8, valid_utf8};
use crate::layout::{padding, span, PAGE};
use crate::pod::Pod;
use crate::reference::RefView;

verus! {

/// `len` bytes of value 0: what a block holds before anything is written.
pub open spec fn zeros(len: int) -> Seq<u8> {
    Seq::new(len as nat, |k: int| 0u8)
}

/// `mem` with `bytes` written over it from position `at` on.
pub open spec fn patch(mem: Seq<u8>, at: int, bytes: Seq<u8>) -> Seq<u8> {
    Seq::new(
        mem.len(),
        |k: int|
            if at <= k < at + bytes.len() {
                bytes[k - at]
            } else {
                mem[k]
            },
    )
}

/// A block of memory: its bytes, and the address of the first of them.
pub struct BlockView {
    pub base: int,
    pub bytes: Seq<u8>,
}

impl BlockView {
    /// The `len` bytes from address `ptr` on lie within this block.
    pub open spec fn holds(self, ptr: int, len: int) -> bool {
        self.base <= ptr && ptr + len <= self.base + self.bytes.len()
    }

    /// The `len` bytes at address `ptr`.
    pub open spec fn read(self, ptr: int, len: int) -> Seq<u8> {
        self.bytes.subrange(ptr - self.base, ptr - self.base + len)
    }

    /// This block with `bytes` written at offset `at`.
    pub open spec fn write(self, at: int, bytes: Seq<u8>) -> BlockView {
        BlockView { base: self.base, bytes: patch(self.bytes, at, bytes) }
    }
}

/// The state of an arena.
pub struct ArenaView {
    /// The arena's identity.
    pub id: usize,
    /// The length of an ordinary block.
    pub capacity: int,
    /// The blocks, in the order in which the arena fills them.
    pub blocks: Seq<BlockView>,
    /// The index of the block that receives the next value.
    pub cur_block: int,
    /// The first free position in that block.
    pub offset: int,
    /// The end of the address space that the blocks take up.
    pub reserved: int,
}

impl ArenaView {
    /// Block `i` starts at a page boundary above address 0, is at least as
    /// long as an ordinary block, and lies below `reserved`.
    pub open spec fn block_ok(self, i: int) -> bool {
        let b = self.blocks[i];
        &&& b.base >= PAGE
        &&& b.base % PAGE as int == 0
        &&& b.bytes.len() >= self.capacity
        &&& b.base + span(b.bytes.len() as int) <= self.reserved
    }

    /// The spans of blocks `i` and `j` share no address.
    pub open spec fn apart(self, i: int, j: int) -> bool {
        let a = self.blocks[i];
        let b = self.blocks[j];
        a.base + span(a.bytes.len() as int) <= b.base || b.base + span(b.bytes.len() as int)
            <= a.base
    }

    /// The blocks are well placed: each for itself, and no two overlap.
    pub open spec fn sound(self) -> bool {
        &&& 0 <= self.capacity
        &&& PAGE <= self.reserved <= usize::MAX
        &&& self.reserved % PAGE as int == 0
        &&& forall|i: int| 0 <= i < self.blocks.len() ==> #[trigger] self.block_ok(i)
        &&& forall|i: int, j: int|
            0 <= i < self.blocks.len() && 0 <= j < self.blocks.len() && i != j
                ==> #[trigger] self.apart(i, j)
    }

    /// The invariant of an arena: sound blocks, a current block among them,
    /// and an offset within an ordinary block's length.
    pub open spec fn wf(self) -> bool {
        &&& self.sound()
        &&& 0 <= self.cur_block < self.blocks.len()
        &&& 0 <= self.offset <= self.capacity
    }

    /// Block `i` exists and holds the `len` bytes at `ptr`.
    pub open spec fn holds(self, i: int, ptr: int, len: int) -> bool {
        0 <= i < self.blocks.len() && self.blocks[i].holds(ptr, len)
    }

    /// Some block holds the `len` bytes at `ptr`.
    pub open spec fn resolves(self, ptr: int, len: int) -> bool {
        exists|i: int| self.holds(i, ptr, len)
    }

    /// The `len` bytes at address `ptr`, where a block holds them.
    pub open spec fn read(self, ptr: int, len: int) -> Option<Seq<u8>> {
        if self.resolves(ptr, len) {
            let i = choose|i: int| self.holds(i, ptr, len);
            Some(self.blocks[i].read(ptr, len))
        } else {
            None
        }
    }

    /// What a reference to a `T` resolves to: the value that its bytes stand
    /// for, if the reference carries this arena's identity and a block holds
    /// its bytes.
    pub open spec fn get<T: Pod>(self, r: RefView) -> Option<T> {
        if r.id == self.id && r.len == T::layout_spec().size {
            match self.read(r.ptr as int, r.len as int) {
                Some(bytes) => Some(T::from_bytes_spec(bytes)),
                None => None,
            }
        } else {
            None
        }
    }

    /// What a reference to a text resolves to: the characters that its bytes
    /// encode, if the reference carries this arena's identity, a block holds
    /// its bytes and they are UTF-8.
    pub open spec fn get_str(self, r: RefView) -> Option<Seq<char>> {
        if r.id == self.id {
            match self.read(r.ptr as int, r.len as int) {
                Some(bytes) => if valid_utf8(bytes) {
                    Some(decode_utf8(bytes))
                } else {
                    None
                },
                None => None,
            }
        } else {
            None
        }
    }

    /// The arena with `bytes` written into block `i` at offset `at`.
    pub open spec fn written(self, i: int, at: int, bytes: Seq<u8>) -> ArenaView {
        ArenaView { blocks: self.blocks.update(i, self.blocks[i].write(at, bytes)), ..self }
    }

    /// The arena with `bytes` written at address `ptr`, where a block holds
    /// that range; unchanged where none does.
    pub open spec fn poked(self, ptr: int, bytes: Seq<u8>) -> ArenaView {
        if self.resolves(ptr, bytes.len() as int) {
            let i = choose|i: int| self.holds(i, ptr, bytes.len() as int);
            self.written(i, ptr - self.blocks[i].base, bytes)
        } else {
            self
        }
    }

    /// An arena before anything was allocated: `count` ordinary blocks of
    /// zeroes, one after the other from one page above address 0, and the
    /// writable position at the start of the first.
    pub open spec fn fresh(id: usize, capacity: int, count: int) -> ArenaView {
        ArenaView {
            id,
            capacity,
            blocks: Seq::new(
                count as nat,
                |i: int| BlockView { base: PAGE + i * span(capacity), bytes: zeros(capacity) },
            ),
            cur_block: 0,
            offset: 0,
            reserved: PAGE + count * span(capacity),
        }
    }

    /// One more ordinary block at the end of the list, zeroed, at the end of
    /// the address space.
    pub open spec fn grown(self) -> ArenaView {
        ArenaView {
            blocks: self.blocks.push(
                BlockView { base: self.reserved, bytes: zeros(self.capacity) },
            ),
            reserved: self.reserved + span(self.capacity),
            ..self
        }
    }

    /// The writable position back at the start of the first block; blocks
    /// and their contents stay.
    pub open spec fn cleared(self) -> ArenaView {
        ArenaView { cur_block: 0, offset: 0, ..self }
    }

    /// A value of this layout still goes into the current block.
    pub open spec fn fits(self, size: int, align: int) -> bool {
        self.offset + padding(self.offset, align) + size <= self.capacity
    }

    /// A value of this layout is shorter than a block, yet too long for
    /// what is left of the current one.
    pub open spec fn rolls_over(self, size: int, align: int) -> bool {
        size < self.capacity && !self.fits(size, align)
    }

    /// Seen from `before`, the current block is the next one, and a value of
    /// `size` bytes lies at its start, at address `ptr`, with the writable
    /// position right behind it.
    pub open spec fn starts_block(self, before: ArenaView, ptr: int, size: int) -> bool {
        &&& self.cur_block == before.cur_block + 1
        &&& self.offset == size
        &&& ptr == self.blocks[self.cur_block].base
    }

    /// Seen from `before`, the writable position is where it was: at the
    /// same offset in the same block, which has moved on by one index.
    pub open spec fn same_place(self, before: ArenaView) -> bool {
        &&& self.cur_block == before.cur_block + 1
        &&& self.offset == before.offset
        &&& self.blocks[self.cur_block] == before.blocks[before.cur_block]
    }

    /// A block follows the current one, or the address space has room for
    /// one more.
    pub open spec fn can_turn(self) -> bool {
        self.cur_block + 1 < self.blocks.len() || self.reserved + span(self.capacity)
            <= usize::MAX
    }

    /// The writable position at the start of the block after the current
    /// one; where the list ends there, a block is added first.
    pub open spec fn next_block(self) -> ArenaView {
        let roomy = if self.cur_block + 1 < self.blocks.len() {
            self
        } else {
            self.grown()
        };
        ArenaView { cur_block: self.cur_block + 1, offset: 0, ..roomy }
    }

    /// The arena turned to the block that takes a value of this layout: the
    /// current block where the value fits, else the next one.
    pub open spec fn turned(self, size: int, align: int) -> ArenaView {
        if self.fits(size, align) {
            self
        } else {
            self.next_block()
        }
    }

    /// The offset in that block at which the value starts: the first
    /// multiple of `align` that is free.
    pub open spec fn start(self, size: int, align: int) -> int {
        let t = self.turned(size, align);
        t.offset + padding(t.offset, align)
    }

    /// The arena with room set aside for a value of this layout, shorter
    /// than a block: the writable position lies behind the value.
    pub open spec fn spaced(self, size: int, align: int) -> ArenaView {
        ArenaView { offset: self.start(size, align) + size, ..self.turned(size, align) }
    }

    /// The arena with `bytes`, shorter than a block, written into that room.
    pub open spec fn stored(self, bytes: Seq<u8>, align: int) -> ArenaView {
        let s = self.spaced(bytes.len() as int, align);
        s.written(s.cur_block, self.start(bytes.len() as int, align), bytes)
    }

    /// The arena with `bytes` in a block of their own, put into the list
    /// just before the current block: the writable position is the same
    /// place in the same block as before, one index further on.
    pub open spec fn housed(self, bytes: Seq<u8>) -> ArenaView {
        ArenaView {
            blocks: self.blocks.insert(
                self.cur_block,
                BlockView { base: self.reserved, bytes },
            ),
            cur_block: self.cur_block + 1,
            reserved: self.reserved + span(bytes.len() as int),
            ..self
        }
    }

    /// The arena after allocating a value made of `bytes`: in a block of its
    /// own where it is as long as a block or longer, else bump-allocated.
    pub open spec fn allocated(self, bytes: Seq<u8>, align: int) -> ArenaView {
        if bytes.len() >= self.capacity {
            self.housed(bytes)
        } else {
            self.stored(bytes, align)
        }
    }

    /// Where a value of this layout comes to lie: the index, after the
    /// allocation, of its block, and its offset in that block.
    pub open spec fn slot(self, size: int, align: int) -> (int, int) {
        if size >= self.capacity {
            (self.cur_block, 0)
        } else {
            (self.turned(size, align).cur_block, self.start(size, align))
        }
    }

    /// The address of that place.
    pub open spec fn landing(self, size: int, align: int) -> int {
        if size >= self.capacity {
            self.reserved
        } else {
            let t = self.turned(size, align);
            t.blocks[t.cur_block].base + self.start(size, align)
        }
    }

    /// The address space that allocating a value of this layout takes up: a
    /// block's span where a block has to be added, else nothing.
    pub open spec fn demand(self, size: int, align: int) -> int {
        if size >= self.capacity {
            span(size)
        } else if self.fits(size, align) || self.cur_block + 1 < self.blocks.len() {
            0
        } else {
            span(self.capacity)
        }
    }

    /// The address space suffices for allocating a value of this layout.
    pub open spec fn can_alloc(self, size: int, align: int) -> bool {
        self.reserved + self.demand(size, align) <= usize::MAX
    }

    /// No two blocks hold the same range.
    pub proof fn lemma_holds_once(self, i: int, j: int, ptr: int, len: int)
        requires
            self.sound(),
            self.holds(i, ptr, len),
            self.holds(j, ptr, len),
            len >= 0,
        ensures
            i == j,
    {
        if j != i {
            assert(self.apart(i, j));
        }
    }

    /// `read` finds a range in the block that holds it.
    pub proof fn lemma_read(self, i: int, ptr: int, len: int)
        requires
            self.sound(),
            self.holds(i, ptr, len),
            len >= 0,
        ensures
            self.read(ptr, len) == Some(self.blocks[i].read(ptr, len)),
    {
        let j = choose|j: int| self.holds(j, ptr, len);
        self.lemma_holds_once(i, j, ptr, len);
    }

    /// Soundness speaks of the blocks alone, not of the writable position.
    pub proof fn lemma_same_blocks(self, other: ArenaView)
        requires
            self.sound(),
            other.blocks == self.blocks,
            other.capacity == self.capacity,
            other.reserved == self.reserved,
        ensures
            other.sound(),
    {
        assert forall|i: int| 0 <= i < other.blocks.len() implies #[trigger] other.block_ok(i) by {
            assert(self.block_ok(i));
        }
        assert forall|i: int, j: int|
            0 <= i < other.blocks.len() && 0 <= j < other.blocks.len() && i != j
        implies #[trigger] other.apart(i, j) by {
            assert(self.apart(i, j));
        }
    }

    /// Writing into a block keeps the blocks sound.
    pub proof fn lemma_written_sound(self, i: int, at: int, bytes: Seq<u8>)
        requires
            self.sound(),
            0 <= i < self.blocks.len(),
        ensures
            self.written(i, at, bytes).sound(),
    {
        let w = self.written(i, at, bytes);
        assert forall|k: int| 0 <= k < w.blocks.len() implies #[trigger] w.block_ok(k) by {
            assert(self.block_ok(k));
        }
        assert forall|k: int, j: int|
            0 <= k < w.blocks.len() && 0 <= j < w.blocks.len() && k != j
        implies #[trigger] w.apart(k, j) by {
            assert(self.apart(k, j));
        }
    }

    /// A block of its own for `bytes` keeps the blocks sound while the
    /// address space lasts.
    pub proof fn lemma_housed_sound(self, bytes: Seq<u8>)
        requires
            self.wf(),
            bytes.len() >= self.capacity,
            self.reserved + span(bytes.len() as int) <= usize::MAX,
        ensures
            self.housed(bytes).wf(),
    {
        let h = self.housed(bytes);
        let c = self.cur_block;
        vstd::arithmetic::div_mod::lemma_add_mod_noop(
            self.reserved,
            span(bytes.len() as int),
            PAGE as int,
        );
        assert forall|i: int| 0 <= i < h.blocks.len() implies #[trigger] h.block_ok(i) by {
            if i < c {
                assert(self.block_ok(i));
            } else if i > c {
                assert(self.block_ok(i - 1));
            }
        }
        assert forall|i: int, j: int|
            0 <= i < h.blocks.len() && 0 <= j < h.blocks.len() && i != j
        implies #[trigger] h.apart(i, j) by {
            let oi = if i < c {
                i
            } else {
                i - 1
            };
            let oj = if j < c {
                j
            } else {
                j - 1
            };
            if i != c && j != c {
                assert(self.apart(oi, oj));
            } else if i != c {
                assert(self.block_ok(oi));
            } else {
                assert(self.block_ok(oj));
            }
        }
    }

    /// A fresh arena with one block more is a fresh arena, grown.
    pub proof fn lemma_fresh_grown(id: usize, capacity: int, count: int)
        requires
            count >= 0,
        ensures
            Self::fresh(id, capacity, count).grown() == Self::fresh(id, capacity, count + 1),
    {
        let g = Self::fresh(id, capacity, count).grown();
        let f = Self::fresh(id, capacity, count + 1);
        let pages = span(capacity);
        assert(PAGE + count * pages + pages == PAGE + (count + 1) * pages) by (nonlinear_arith);
        assert(g.blocks =~= f.blocks);
    }

    /// Growing keeps the blocks sound while the address space lasts.
    pub proof fn lemma_grown_sound(self)
        requires
            self.sound(),
            self.reserved + span(self.capacity) <= usize::MAX,
        ensures
            self.grown().sound(),
    {
        let g = self.grown();
        vstd::arithmetic::div_mod::lemma_add_mod_noop(
            self.reserved,
            span(self.capacity),
            PAGE as int,
        );
        assert forall|i: int| 0 <= i < g.blocks.len() implies #[trigger] g.block_ok(i) by {
            if i < self.blocks.len() {
                assert(self.block_ok(i));
            }
        }
        assert forall|i: int, j: int|
            0 <= i < g.blocks.len() && 0 <= j < g.blocks.len() && i != j
        implies #[trigger] g.apart(i, j) by {
            if i < self.blocks.len() && j < self.blocks.len() {
                assert(self.apart(i, j));
            } else if i < self.blocks.len() {
                assert(self.block_ok(i));
            } else {
                assert(self.block_ok(j));
            }
        }
    }
}

} // verus!
