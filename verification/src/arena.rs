//! A typeless arena allocator that owns its values.
//!
//! To use it, create a new [`Arena`] and allocate values using
//! [`Arena::allocate`]. The returned [`Ref`]s can be resolved using
//! [`Arena::get`] and [`Arena::get_mut`].
//!
//! The arena keeps every value as bytes in blocks of `BLOCK_SIZE` bytes. Each
//! block lies at a base address in an address space that belongs to the
//! arena alone; a reference holds the address of its value. The arena never
//! runs a value's cleanup code and never gives back the space of a single
//! value.

use vstd::prelude::*;
use vstd::slice::{slice_subrange, slice_to_vec};
use vstd::utf8::{encode_utf8, encode_utf8_decode_utf8, encode_utf8_valid_utf8};
use crate::arena::view::{patch, zeros, ArenaView, BlockView};
use crate::counter::{successor, usize_counter, Counter};
use crate::layout::{
    align_offset, blocks_for, blocks_needed, checked_span, lemma_padding_aligns,
    lemma_padding_at_start, lemma_padding_from_base, room_for, span, Layout, PAGE,
};
use crate::pod::Pod;
use crate::reference::Ref;
use crate::text::str_from_utf8;

pub mod laws;
pub mod view;

verus! {

/// A block of the arena's memory.
struct Block {
    base: usize,
    bytes: Vec<u8>,
}

impl View for Block {
    type V = BlockView;

    closed spec fn view(&self) -> BlockView {
        BlockView { base: self.base as int, bytes: self.bytes@ }
    }
}

/// A typeless arena allocator that owns its values.
///
/// Does not run the cleanup code of its values.
pub struct Arena<const BLOCK_SIZE: usize> {
    arena_id: usize,
    blocks: Vec<Block>,
    cur_block: usize,
    offset: usize,
    reserved: usize,
}

impl<const BLOCK_SIZE: usize> View for Arena<BLOCK_SIZE> {
    type V = ArenaView;

    closed spec fn view(&self) -> ArenaView {
        ArenaView {
            id: self.arena_id,
            capacity: BLOCK_SIZE as int,
            blocks: Seq::new(self.blocks@.len(), |i: int| self.blocks@[i]@),
            cur_block: self.cur_block as int,
            offset: self.offset as int,
            reserved: self.reserved as int,
        }
    }
}

/// A vector of `len` zero bytes.
fn zeroed(len: usize) -> (bytes: Vec<u8>)
    ensures
        bytes@ == zeros(len as int),
{
    let bytes: Vec<u8> = vec![0u8; len];
    bytes
}

/// Copy `src` over `dst` from position `at` on.
fn write_at(dst: &mut Vec<u8>, at: usize, src: &[u8])
    requires
        at + src@.len() <= old(dst)@.len(),
    ensures
        final(dst)@ == patch(old(dst)@, at as int, src@),
{
    let len: usize = dst.len();
    let mut k: usize = 0;
    while k < src.len()
        invariant
            k <= src@.len(),
            at + src@.len() <= len,
            dst@.len() == len,
            len == old(dst)@.len(),
            dst@ == patch(old(dst)@, at as int, src@.subrange(0, k as int)),
        decreases src@.len() - k,
    {
        dst[at + k] = src[k];
        k += 1;
    }
}

/// The address space of a block of `len` bytes.
fn span_of(len: usize) -> (pages: usize)
    requires
        span(len as int) <= usize::MAX,
    ensures
        pages == span(len as int),
{
    (len / PAGE + 1) * PAGE
}

impl<const BLOCK_SIZE: usize> Arena<BLOCK_SIZE> {
    /// The invariant of an arena, over its view.
    pub open spec fn wf(&self) -> bool {
        self@.wf() && self@.capacity == BLOCK_SIZE
    }

    /// An arena with a fresh identity and one block, ready at offset 0.
    pub fn new(ids: &mut Counter) -> (arena: Self)
        requires
            room_for(BLOCK_SIZE as int, 1),
        ensures
            arena.wf(),
            arena@ == ArenaView::fresh(old(ids)@, BLOCK_SIZE as int, 1),
            final(ids)@ == successor(old(ids)@),
    {
        let mut arena = Self::_new(ids);
        proof {
            ArenaView::lemma_fresh_grown(arena@.id, BLOCK_SIZE as int, 0);
        }
        arena.alloc_block();
        arena
    }

    /// Create an arena and allocate enough blocks to hold `n` bytes, beside
    /// the one that every new arena has.
    pub fn with_capacity(n: usize, ids: &mut Counter) -> (arena: Self)
        requires
            BLOCK_SIZE > 0,
            room_for(BLOCK_SIZE as int, blocks_for(n as int, BLOCK_SIZE as int) + 1),
        ensures
            arena.wf(),
            arena@ == ArenaView::fresh(
                old(ids)@,
                BLOCK_SIZE as int,
                blocks_for(n as int, BLOCK_SIZE as int) + 1,
            ),
            final(ids)@ == successor(old(ids)@),
    {
        proof {
            assert(blocks_for(n as int, BLOCK_SIZE as int) + 1 <= usize::MAX) by (nonlinear_arith)
                requires
                    PAGE + (blocks_for(n as int, BLOCK_SIZE as int) + 1) * span(BLOCK_SIZE as int)
                        <= usize::MAX,
                    span(BLOCK_SIZE as int) >= 1,
                    blocks_for(n as int, BLOCK_SIZE as int) >= 0,
            ;
        }
        let blocks: usize = blocks_needed(n, BLOCK_SIZE);
        Self::with_blocks(blocks, ids)
    }

    /// Create an arena and allocate `n` blocks, beside the one that every
    /// new arena has.
    pub fn with_blocks(n: usize, ids: &mut Counter) -> (arena: Self)
        requires
            room_for(BLOCK_SIZE as int, n + 1),
        ensures
            arena.wf(),
            arena@ == ArenaView::fresh(old(ids)@, BLOCK_SIZE as int, n + 1),
            final(ids)@ == successor(old(ids)@),
    {
        proof {
            assert(PAGE + span(BLOCK_SIZE as int) <= usize::MAX) by (nonlinear_arith)
                requires
                    PAGE + (n + 1) * span(BLOCK_SIZE as int) <= usize::MAX,
                    span(BLOCK_SIZE as int) >= 0,
            ;
        }
        let mut arena = Self::new(ids);
        let mut k: usize = 0;
        while k < n
            invariant
                k <= n,
                arena.wf(),
                arena@ == ArenaView::fresh(old(ids)@, BLOCK_SIZE as int, k + 1),
                PAGE + (n + 1) * span(BLOCK_SIZE as int) <= usize::MAX,
                span(BLOCK_SIZE as int) >= 0,
            decreases n - k,
        {
            proof {
                ArenaView::lemma_fresh_grown(arena@.id, BLOCK_SIZE as int, k + 1);
                assert(PAGE + (k + 1) * span(BLOCK_SIZE as int) + span(BLOCK_SIZE as int)
                    <= usize::MAX) by (nonlinear_arith)
                    requires
                        PAGE + (n + 1) * span(BLOCK_SIZE as int) <= usize::MAX,
                        span(BLOCK_SIZE as int) >= 0,
                        k < n,
                ;
            }
            arena.alloc_block();
            k += 1;
        }
        arena
    }

    /// An arena with a fresh identity and no block yet.
    fn _new(ids: &mut Counter) -> (arena: Self)
        ensures
            arena@ == ArenaView::fresh(old(ids)@, BLOCK_SIZE as int, 0),
            arena@.sound(),
            final(ids)@ == successor(old(ids)@),
    {
        let arena = Self {
            arena_id: usize_counter(ids),
            blocks: Vec::new(),
            cur_block: 0,
            offset: 0,
            reserved: PAGE,
        };
        assert(arena@.blocks =~= ArenaView::fresh(arena@.id, BLOCK_SIZE as int, 0).blocks);
        arena
    }

    /// Allocate a block and push it to the block list.
    fn alloc_block(&mut self)
        requires
            old(self)@.sound(),
            old(self)@.reserved + span(BLOCK_SIZE as int) <= usize::MAX,
        ensures
            final(self)@ == old(self)@.grown(),
            final(self)@.sound(),
    {
        proof {
            old(self)@.lemma_grown_sound();
        }
        let block = Block { base: self.reserved, bytes: zeroed(BLOCK_SIZE) };
        self.reserved = self.reserved + span_of(BLOCK_SIZE);
        self.blocks.push(block);
        assert(self@.blocks =~= old(self)@.grown().blocks);
    }

    /// Move to the next block, allocate a new block if needed.
    fn next_block(&mut self)
        requires
            old(self).wf(),
            old(self)@.can_turn(),
        ensures
            final(self).wf(),
            final(self)@ == old(self)@.next_block(),
    {
        let len: usize = self.blocks.len();
        self.cur_block += 1;
        proof {
            old(self)@.lemma_same_blocks(self@);
        }
        if self.cur_block >= len {
            self.alloc_block();
        }
        let ghost roomy = self@;
        self.offset = 0;
        proof {
            roomy.lemma_same_blocks(self@);
        }
    }

    /// Ensure there is enough space within the current block for the given
    /// layout. If not, move to the next one. Returns the address of the
    /// space and moves the writable position behind it.
    fn make_space_for_layout(&mut self, layout: Layout) -> (ptr: usize)
        requires
            old(self).wf(),
            layout.wf(),
            layout.size < BLOCK_SIZE,
            old(self)@.can_alloc(layout.size as int, layout.align as int),
        ensures
            final(self).wf(),
            final(self)@ == old(self)@.spaced(layout.size as int, layout.align as int),
            ptr == old(self)@.landing(layout.size as int, layout.align as int),
            ptr % layout.align == 0,
            final(self)@.holds(final(self)@.cur_block, ptr as int, layout.size as int),
    {
        let (cur_block, pad) = {
            // ensure space within the current block or turn to the next one
            let cur_block: usize = self.blocks[self.cur_block].base;
            proof {
                assert(self@.block_ok(self@.cur_block));
                lemma_padding_from_base(
                    cur_block as int,
                    self.offset as int,
                    layout.align as int,
                );
            }
            // the alignment offset that would need to be applied in the current block
            let pad: usize = align_offset(cur_block + self.offset, layout.align);
            if pad > BLOCK_SIZE - self.offset || layout.size > BLOCK_SIZE - self.offset - pad {
                // not enough space within the current block
                self.next_block();
                let cur_block: usize = self.blocks[self.cur_block].base;
                proof {
                    assert(self@.block_ok(self@.cur_block));
                    lemma_padding_from_base(cur_block as int, 0, layout.align as int);
                }
                // the alignment offset that would need to be applied in the new block
                let pad: usize = align_offset(cur_block + self.offset, layout.align);
                (cur_block, pad)
            } else {
                (cur_block, pad)
            }
        };
        let ghost turned = self@;
        let ptr: usize = cur_block + self.offset + pad;
        proof {
            lemma_padding_from_base(
                cur_block as int,
                self.offset as int + pad as int,
                layout.align as int,
            );
            lemma_padding_aligns(self.offset as int, layout.align as int);
        }
        // move the writable position for the next call to this function
        self.offset += pad + layout.size;
        proof {
            turned.lemma_same_blocks(self@);
        }
        ptr
    }

    /// Allocate space and copy `val` into the arena. Returns the address of
    /// the copy.
    fn alloc_memcpy(&mut self, val: &[u8], align: usize) -> (ptr: usize)
        requires
            old(self).wf(),
            align > 0,
            PAGE as int % align as int == 0,
            old(self)@.can_alloc(val@.len() as int, align as int),
        ensures
            final(self).wf(),
            final(self)@ == old(self)@.allocated(val@, align as int),
            ptr == old(self)@.landing(val@.len() as int, align as int),
            ptr % align == 0,
            final(self)@.read(ptr as int, val@.len() as int) == Some(val@),
            old(self)@.rolls_over(val@.len() as int, align as int)
                ==> final(self)@.starts_block(old(self)@, ptr as int, val@.len() as int),
            val@.len() >= BLOCK_SIZE ==> final(self)@.same_place(old(self)@),
    {
        let size: usize = val.len();
        if size >= BLOCK_SIZE {
            // a block of its own for val if it needs more space than blocks can provide
            proof {
                old(self)@.lemma_housed_sound(val@);
                lemma_padding_from_base(self.reserved as int, 0, align as int);
            }
            let ptr: usize = self.reserved;
            let block = Block { base: ptr, bytes: slice_to_vec(val) };
            self.reserved = self.reserved + span_of(size);
            // insert the new block so that the current one comes right after it
            self.blocks.insert(self.cur_block, block);
            assert(self.cur_block < self.blocks.len());
            self.cur_block += 1;
            proof {
                assert(self@.blocks =~= old(self)@.housed(val@).blocks);
                self@.lemma_read(old(self)@.cur_block, ptr as int, size as int);
            }
            return ptr;
        }
        let ptr: usize = self.make_space_for_layout(Layout { size, align });
        let ghost spaced = self@;
        let cur: usize = self.cur_block;
        let at: usize = ptr - self.blocks[cur].base;
        write_at(&mut self.blocks[cur].bytes, at, val);
        proof {
            lemma_padding_at_start(align as int);
            spaced.lemma_written_sound(cur as int, at as int, val@);
            assert(self@.blocks =~= spaced.written(cur as int, at as int, val@).blocks);
            self@.lemma_read(cur as int, ptr as int, size as int);
        }
        ptr
    }

    /// Allocate a text within the arena and return a [`Ref`] to it. The
    /// text takes as many bytes as its UTF-8 encoding has, at any address.
    pub fn alloc_str(&mut self, val: &str) -> (r: Ref<str>)
        requires
            old(self).wf(),
            old(self)@.can_alloc(encode_utf8(val@).len() as int, 1),
        ensures
            final(self).wf(),
            final(self)@ == old(self)@.allocated(encode_utf8(val@), 1),
            r@.id == old(self)@.id,
            r@.ptr == old(self)@.landing(encode_utf8(val@).len() as int, 1),
            r@.len == encode_utf8(val@).len(),
            final(self)@.read(r@.ptr as int, r@.len as int) == Some(encode_utf8(val@)),
            final(self)@.get_str(r@) == Some(val@),
            old(self)@.rolls_over(r@.len as int, 1)
                ==> final(self)@.starts_block(old(self)@, r@.ptr as int, r@.len as int),
            r@.len >= BLOCK_SIZE ==> final(self)@.same_place(old(self)@),
            ({
                let len = encode_utf8(val@).len();
                let from = if old(self)@.offset + len <= BLOCK_SIZE {
                    old(self)@.offset
                } else {
                    0
                };
                len < BLOCK_SIZE ==> final(self)@.offset == from + len
            }),
    {
        let bytes = val.as_bytes();
        let ptr: usize = self.alloc_memcpy(bytes, 1);
        proof {
            encode_utf8_valid_utf8(val@);
            encode_utf8_decode_utf8(val@);
        }
        Ref::new(self.arena_id, ptr, bytes.len())
    }

    /// Allocate a new value within the arena and return a [`Ref`] to it.
    ///
    /// When the current block is full and there is no free block left, a
    /// new one will be allocated. The arena owns the value from then on.
    pub fn allocate<T: Pod>(&mut self, val: T) -> (r: Ref<T>)
        requires
            old(self).wf(),
            old(self)@.can_alloc(T::layout_spec().size as int, T::layout_spec().align as int),
        ensures
            final(self).wf(),
            final(self)@ == old(self)@.allocated(val.bytes_spec(), T::layout_spec().align as int),
            r@.id == old(self)@.id,
            r@.ptr == old(self)@.landing(
                T::layout_spec().size as int,
                T::layout_spec().align as int,
            ),
            r@.len == T::layout_spec().size,
            r@.len == val.bytes_spec().len(),
            r@.ptr % T::layout_spec().align == 0,
            final(self)@.read(r@.ptr as int, r@.len as int) == Some(val.bytes_spec()),
            final(self)@.get::<T>(r@) == Some(val),
            old(self)@.rolls_over(r@.len as int, T::layout_spec().align as int)
                ==> final(self)@.starts_block(old(self)@, r@.ptr as int, r@.len as int),
            r@.len >= BLOCK_SIZE ==> final(self)@.same_place(old(self)@),
    {
        proof {
            T::lemma_layout();
            T::lemma_round_trip(val);
        }
        let layout = T::layout();
        let bytes = val.to_bytes();
        let ptr: usize = self.alloc_memcpy(bytes.as_slice(), layout.align);
        Ref::new(self.arena_id, ptr, layout.size)
    }

    /// The index of the block that holds the `len` bytes at address `ptr`.
    fn find_block(&self, ptr: usize, len: usize) -> (found: Option<usize>)
        requires
            self.wf(),
        ensures
            match found {
                Some(i) => self@.holds(i as int, ptr as int, len as int) && i < self.blocks@.len(),
                None => !self@.resolves(ptr as int, len as int),
            },
    {
        let mut i: usize = 0;
        while i < self.blocks.len()
            invariant
                i <= self.blocks@.len(),
                forall|j: int| 0 <= j < i ==> !self@.holds(j, ptr as int, len as int),
            decreases self.blocks@.len() - i,
        {
            let block = &self.blocks[i];
            if block.base <= ptr && ptr - block.base <= block.bytes.len() && len
                <= block.bytes.len() - (ptr - block.base) {
                return Some(i);
            }
            i += 1;
        }
        None
    }

    /// The `len` bytes at address `ptr`, which block `i` holds.
    fn bytes_at(&self, i: usize, ptr: usize, len: usize) -> (bytes: &[u8])
        requires
            self@.holds(i as int, ptr as int, len as int),
        ensures
            bytes@ == self@.blocks[i as int].read(ptr as int, len as int),
    {
        let block = &self.blocks[i];
        let bytes = block.bytes.as_slice();
        let at: usize = ptr - block.base;
        assert(at + len <= bytes.len());
        slice_subrange(bytes, at, at + len)
    }

    /// Get a value within the arena.
    ///
    /// Returns `None` when the reference does not belong to this arena, and
    /// when it points to no block of it. The value is built from the bytes
    /// that lie at the reference's address now.
    pub fn get<T: Pod>(&self, r: Ref<T>) -> (res: Option<T>)
        requires
            self.wf(),
        ensures
            res == self@.get::<T>(r@),
            r@.id != self@.id ==> res is None,
    {
        if r.arena_id() != self.arena_id {
            return None;
        }
        if r.len() != T::layout().size {
            return None;
        }
        match self.find_block(r.as_ptr(), r.len()) {
            None => None,
            Some(i) => {
                proof {
                    self@.lemma_read(i as int, r@.ptr as int, r@.len as int);
                }
                Some(T::from_bytes(self.bytes_at(i, r.as_ptr(), r.len())))
            },
        }
    }

    /// Get a text within the arena.
    ///
    /// Returns `None` when the reference does not belong to this arena, when
    /// it points to no block of it, and when the bytes that lie at its
    /// address now are no text.
    pub fn get_str(&self, r: Ref<str>) -> (res: Option<&str>)
        requires
            self.wf(),
        ensures
            match res {
                Some(text) => self@.get_str(r@) == Some(text@),
                None => self@.get_str(r@) is None,
            },
            r@.id != self@.id ==> res is None,
    {
        if r.arena_id() != self.arena_id {
            return None;
        }
        match self.find_block(r.as_ptr(), r.len()) {
            None => None,
            Some(i) => {
                proof {
                    self@.lemma_read(i as int, r@.ptr as int, r@.len as int);
                }
                let text = str_from_utf8(self.bytes_at(i, r.as_ptr(), r.len()));
                proof {
                    if let Some(t) = text {
                        encode_utf8_decode_utf8(t@);
                    }
                }
                text
            },
        }
    }

    /// Put `val` in the place of the value that `r` refers to, and return
    /// the value that was there.
    ///
    /// Returns `None`, and changes nothing, when the reference does not
    /// belong to this arena or points to no block of it.
    pub fn get_mut<T: Pod>(&mut self, r: Ref<T>, val: T) -> (res: Option<T>)
        requires
            old(self).wf(),
        ensures
            final(self).wf(),
            res == old(self)@.get::<T>(r@),
            r@.id != old(self)@.id ==> res is None,
            res is Some ==> final(self)@ == old(self)@.poked(r@.ptr as int, val.bytes_spec())
                && final(self)@.get::<T>(r@) == Some(val),
            res is None ==> final(self)@ == old(self)@,
    {
        if r.arena_id() != self.arena_id {
            return None;
        }
        if r.len() != T::layout().size {
            return None;
        }
        match self.find_block(r.as_ptr(), r.len()) {
            None => None,
            Some(i) => {
                proof {
                    T::lemma_round_trip(val);
                    let j = choose|j: int| self@.holds(j, r@.ptr as int, r@.len as int);
                    self@.lemma_holds_once(i as int, j, r@.ptr as int, r@.len as int);
                    self@.lemma_written_sound(
                        i as int,
                        r@.ptr - self@.blocks[i as int].base,
                        val.bytes_spec(),
                    );
                }
                let previous = T::from_bytes(self.bytes_at(i, r.as_ptr(), r.len()));
                let at: usize = r.as_ptr() - self.blocks[i].base;
                let new_bytes = val.to_bytes();
                write_at(&mut self.blocks[i].bytes, at, new_bytes.as_slice());
                proof {
                    assert(self@.blocks =~= old(self)@.written(
                        i as int,
                        at as int,
                        val.bytes_spec(),
                    ).blocks);
                    self@.lemma_read(i as int, r@.ptr as int, r@.len as int);
                    assert(self@.blocks[i as int].read(r@.ptr as int, r@.len as int)
                        =~= val.bytes_spec());
                }
                Some(previous)
            },
        }
    }

    /// Clear the arena, leaving the blocks allocated: the next value goes to
    /// the start of the first block. What was written stays in memory until
    /// a later value is written over it, and references issued before still
    /// resolve, to whatever their bytes hold by then.
    pub fn clear(&mut self)
        requires
            old(self).wf(),
        ensures
            final(self).wf(),
            final(self)@ == old(self)@.cleared(),
    {
        self.cur_block = 0;
        self.offset = 0;
        proof {
            old(self)@.lemma_same_blocks(self@);
        }
    }

    /// Whether the address space of an arena has room for `count` blocks.
    pub fn room_for(count: usize) -> (ok: bool)
        ensures
            ok == room_for(BLOCK_SIZE as int, count as int),
    {
        match checked_span(BLOCK_SIZE) {
            None => {
                assert(count > 0 ==> count * span(BLOCK_SIZE as int) > usize::MAX)
                    by (nonlinear_arith)
                    requires
                        span(BLOCK_SIZE as int) > usize::MAX,
                ;
                assert(0 * span(BLOCK_SIZE as int) == 0);
                count == 0
            },
            Some(pages) => match count.checked_mul(pages) {
                None => false,
                Some(all) => all <= usize::MAX - PAGE,
            },
        }
    }

    /// Whether the address space suffices for allocating a value of `size`
    /// bytes at a multiple of `align`.
    pub fn can_alloc(&self, size: usize, align: usize) -> (ok: bool)
        requires
            self.wf(),
            align > 0,
        ensures
            ok == self@.can_alloc(size as int, align as int),
    {
        let demand: Option<usize> = if size >= BLOCK_SIZE {
            checked_span(size)
        } else {
            let pad: usize = align_offset(self.offset, align);
            let fits: bool = pad <= BLOCK_SIZE - self.offset && size <= BLOCK_SIZE - self.offset
                - pad;
            if fits || self.cur_block < self.blocks.len() - 1 {
                Some(0)
            } else {
                checked_span(BLOCK_SIZE)
            }
        };
        match demand {
            Some(pages) => pages <= usize::MAX - self.reserved,
            None => false,
        }
    }

    /// The identity of this arena.
    pub fn arena_id(&self) -> (id: usize)
        ensures
            id == self@.id,
    {
        self.arena_id
    }

    /// The index of the block that receives the next value.
    pub fn cur_block(&self) -> (index: usize)
        ensures
            index == self@.cur_block,
    {
        self.cur_block
    }

    /// The number of blocks that the arena holds.
    pub fn block_count(&self) -> (count: usize)
        ensures
            count == self@.blocks.len(),
    {
        self.blocks.len()
    }

    /// The first free position in the current block.
    pub fn offset(&self) -> (offset: usize)
        ensures
            offset == self@.offset,
    {
        self.offset
    }
}

} // verus!
