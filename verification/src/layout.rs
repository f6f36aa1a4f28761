//! Sizes, alignments and the address arithmetic of bump allocation.

use vstd::prelude::*;

verus! {

/// Every block of an arena starts at a multiple of `PAGE` in the arena's
/// address space, and `PAGE` is the largest alignment a value can ask for.
pub const PAGE: usize = 4096;

/// How many bytes a value takes and to what multiple its address is rounded.
#[derive(Clone, Copy, Debug)]
pub struct Layout {
    pub size: usize,
    pub align: usize,
}

impl Layout {
    /// The alignment divides `PAGE`: it is a power of two, at most `PAGE`.
    pub open spec fn wf(&self) -> bool {
        self.align > 0 && PAGE as int % self.align as int == 0
    }
}

/// The number of bytes to skip from `addr` to reach the next multiple of
/// `align`.
pub open spec fn padding(addr: int, align: int) -> int
    recommends
        align > 0,
{
    if addr % align == 0 {
        0
    } else {
        align - addr % align
    }
}

/// The address space that a block of `len` bytes takes: whole pages, and at
/// least one byte more than `len`, so that no two blocks touch.
pub open spec fn span(len: int) -> int {
    (len / PAGE as int + 1) * PAGE as int
}

/// The number of blocks of `capacity` bytes that together hold `n` bytes.
pub open spec fn blocks_for(n: int, capacity: int) -> int
    recommends
        capacity > 0,
{
    n / capacity + if n % capacity == 0 {
        0int
    } else {
        1int
    }
}

/// The address space, which starts one page above address 0, has room for
/// `count` blocks of `capacity` bytes.
pub open spec fn room_for(capacity: int, count: int) -> bool {
    PAGE + count * span(capacity) <= usize::MAX
}

/// Skipping the padding reaches a multiple of `align`, and the padding is
/// less than `align`.
pub proof fn lemma_padding_aligns(addr: int, align: int)
    requires
        addr >= 0,
        align > 0,
    ensures
        0 <= padding(addr, align) < align,
        (addr + padding(addr, align)) % align == 0,
{
    let r = addr % align;
    if r != 0 {
        vstd::arithmetic::div_mod::lemma_fundamental_div_mod(addr, align);
        let q = addr / align;
        assert(addr + (align - r) == align * (q + 1)) by (nonlinear_arith)
            requires
                addr == align * q + r,
        ;
        vstd::arithmetic::div_mod::lemma_mod_multiples_basic(q + 1, align);
    }
}

/// At the start of a block nothing is skipped.
pub proof fn lemma_padding_at_start(align: int)
    requires
        align > 0,
    ensures
        padding(0, align) == 0,
{
}

/// Measured from a block's base, which is a multiple of `PAGE`, the padding
/// depends on the offset in the block alone.
pub proof fn lemma_padding_from_base(base: int, offset: int, align: int)
    requires
        base >= 0,
        offset >= 0,
        base % PAGE as int == 0,
        align > 0,
        PAGE as int % align == 0,
    ensures
        padding(base + offset, align) == padding(offset, align),
        base % align == 0,
{
    vstd::arithmetic::div_mod::lemma_fundamental_div_mod(PAGE as int, align);
    let k = base / PAGE as int;
    let m = PAGE as int / align;
    assert(base == (k * m) * align) by (nonlinear_arith)
        requires
            base == PAGE as int * k,
            PAGE as int == align * m,
    ;
    vstd::arithmetic::div_mod::lemma_mod_multiples_vanish(k * m, offset, align);
    vstd::arithmetic::div_mod::lemma_mod_multiples_basic(k * m, align);
}

/// The number of blocks of `capacity` bytes that together hold `n` bytes.
pub fn blocks_needed(n: usize, capacity: usize) -> (count: usize)
    requires
        capacity > 0,
    ensures
        count == blocks_for(n as int, capacity as int),
{
    if n % capacity == 0 {
        n / capacity
    } else {
        proof {
            if capacity == 1 {
            } else {
                vstd::arithmetic::div_mod::lemma_small_mod(0, capacity as nat);
                vstd::arithmetic::div_mod::lemma_div_decreases(n as int, capacity as int);
            }
        }
        n / capacity + 1
    }
}

/// The address space of a block of `len` bytes, where `usize` holds it.
pub fn checked_span(len: usize) -> (pages: Option<usize>)
    ensures
        match pages {
            Some(pages) => pages == span(len as int),
            None => span(len as int) > usize::MAX,
        },
{
    (len / PAGE + 1).checked_mul(PAGE)
}

/// The padding that brings `addr` up to a multiple of `align`.
pub fn align_offset(addr: usize, align: usize) -> (pad: usize)
    requires
        align > 0,
    ensures
        pad == padding(addr as int, align as int),
{
    let rem: usize = addr % align;
    if rem == 0 {
        0
    } else {
        align - rem
    }
}

} // verus!
