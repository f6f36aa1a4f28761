//! Values that an arena can keep: those with a fixed encoding as bytes.

use vstd::prelude::*;
use vstd::bytes::{
    lemma_auto_spec_u16_to_from_le_bytes, lemma_auto_spec_u32_to_from_le_bytes,
    lemma_auto_spec_u64_to_from_le_bytes, spec_u16_from_le_bytes, spec_u16_to_le_bytes,
    spec_u32_from_le_bytes, spec_u32_to_le_bytes, spec_u64_from_le_bytes, spec_u64_to_le_bytes,
    u16_from_le_bytes, u16_to_le_bytes, u32_from_le_bytes, u32_to_le_bytes, u64_from_le_bytes,
    u64_to_le_bytes,
};
use crate::layout::Layout;

verus! {

/// Plain data: a value that is fully described by a fixed number of bytes.
///
/// An arena keeps such a value as its bytes and builds the value again from
/// them on access, so decoding has to undo encoding.
pub trait Pod: Sized {
    /// The size and alignment of every value of the type.
    spec fn layout_spec() -> Layout;

    /// The bytes that stand for the value.
    spec fn bytes_spec(&self) -> Seq<u8>;

    /// The value that `bytes` stand for.
    spec fn from_bytes_spec(bytes: Seq<u8>) -> Self;

    /// The type's alignment is one that an arena serves.
    proof fn lemma_layout()
        ensures
            Self::layout_spec().wf(),
    ;

    /// A value takes exactly `size` bytes, and decoding them gives it back.
    proof fn lemma_round_trip(v: Self)
        ensures
            v.bytes_spec().len() == Self::layout_spec().size,
            Self::from_bytes_spec(v.bytes_spec()) == v,
    ;

    /// The size and alignment of every value of the type.
    fn layout() -> (l: Layout)
        ensures
            l == Self::layout_spec(),
    ;

    /// Encode the value.
    fn to_bytes(&self) -> (bytes: Vec<u8>)
        ensures
            bytes@ == self.bytes_spec(),
    ;

    /// Decode a value from as many bytes as the type's size says.
    fn from_bytes(bytes: &[u8]) -> (v: Self)
        requires
            bytes@.len() == Self::layout_spec().size,
        ensures
            v == Self::from_bytes_spec(bytes@),
    ;
}

impl Pod for u8 {
    open spec fn layout_spec() -> Layout {
        Layout { size: 1, align: 1 }
    }

    open spec fn bytes_spec(&self) -> Seq<u8> {
        seq![*self]
    }

    open spec fn from_bytes_spec(bytes: Seq<u8>) -> u8 {
        bytes[0]
    }

    proof fn lemma_layout() {
    }

    proof fn lemma_round_trip(v: u8) {
    }

    fn layout() -> (l: Layout) {
        Layout { size: 1, align: 1 }
    }

    fn to_bytes(&self) -> (bytes: Vec<u8>) {
        let mut bytes: Vec<u8> = Vec::new();
        bytes.push(*self);
        bytes
    }

    fn from_bytes(bytes: &[u8]) -> (v: u8) {
        bytes[0]
    }
}

impl Pod for u16 {
    open spec fn layout_spec() -> Layout {
        Layout { size: 2, align: 2 }
    }

    open spec fn bytes_spec(&self) -> Seq<u8> {
        spec_u16_to_le_bytes(*self)
    }

    open spec fn from_bytes_spec(bytes: Seq<u8>) -> u16 {
        spec_u16_from_le_bytes(bytes)
    }

    proof fn lemma_layout() {
    }

    proof fn lemma_round_trip(v: u16) {
        lemma_auto_spec_u16_to_from_le_bytes();
        assert(spec_u16_to_le_bytes(v).len() == 2);
    }

    fn layout() -> (l: Layout) {
        Layout { size: 2, align: 2 }
    }

    fn to_bytes(&self) -> (bytes: Vec<u8>) {
        u16_to_le_bytes(*self)
    }

    fn from_bytes(bytes: &[u8]) -> (v: u16) {
        u16_from_le_bytes(bytes)
    }
}

impl Pod for u32 {
    open spec fn layout_spec() -> Layout {
        Layout { size: 4, align: 4 }
    }

    open spec fn bytes_spec(&self) -> Seq<u8> {
        spec_u32_to_le_bytes(*self)
    }

    open spec fn from_bytes_spec(bytes: Seq<u8>) -> u32 {
        spec_u32_from_le_bytes(bytes)
    }

    proof fn lemma_layout() {
    }

    proof fn lemma_round_trip(v: u32) {
        lemma_auto_spec_u32_to_from_le_bytes();
        assert(spec_u32_to_le_bytes(v).len() == 4);
    }

    fn layout() -> (l: Layout) {
        Layout { size: 4, align: 4 }
    }

    fn to_bytes(&self) -> (bytes: Vec<u8>) {
        u32_to_le_bytes(*self)
    }

    fn from_bytes(bytes: &[u8]) -> (v: u32) {
        u32_from_le_bytes(bytes)
    }
}

impl Pod for u64 {
    open spec fn layout_spec() -> Layout {
        Layout { size: 8, align: 8 }
    }

    open spec fn bytes_spec(&self) -> Seq<u8> {
        spec_u64_to_le_bytes(*self)
    }

    open spec fn from_bytes_spec(bytes: Seq<u8>) -> u64 {
        spec_u64_from_le_bytes(bytes)
    }

    proof fn lemma_layout() {
    }

    proof fn lemma_round_trip(v: u64) {
        lemma_auto_spec_u64_to_from_le_bytes();
    }

    fn layout() -> (l: Layout) {
        Layout { size: 8, align: 8 }
    }

    fn to_bytes(&self) -> (bytes: Vec<u8>) {
        u64_to_le_bytes(*self)
    }

    fn from_bytes(bytes: &[u8]) -> (v: u64) {
        u64_from_le_bytes(bytes)
    }
}

impl Pod for i32 {
    open spec fn layout_spec() -> Layout {
        Layout { size: 4, align: 4 }
    }

    /// The bytes of the two's complement form.
    open spec fn bytes_spec(&self) -> Seq<u8> {
        spec_u32_to_le_bytes(*self as u32)
    }

    open spec fn from_bytes_spec(bytes: Seq<u8>) -> i32 {
        spec_u32_from_le_bytes(bytes) as i32
    }

    proof fn lemma_layout() {
    }

    proof fn lemma_round_trip(v: i32) {
        lemma_auto_spec_u32_to_from_le_bytes();
        assert(spec_u32_to_le_bytes(v as u32).len() == 4);
        assert((v as u32) as i32 == v) by (bit_vector);
    }

    fn layout() -> (l: Layout) {
        Layout { size: 4, align: 4 }
    }

    fn to_bytes(&self) -> (bytes: Vec<u8>) {
        u32_to_le_bytes(*self as u32)
    }

    fn from_bytes(bytes: &[u8]) -> (v: i32) {
        u32_from_le_bytes(bytes) as i32
    }
}

impl Pod for i64 {
    open spec fn layout_spec() -> Layout {
        Layout { size: 8, align: 8 }
    }

    /// The bytes of the two's complement form.
    open spec fn bytes_spec(&self) -> Seq<u8> {
        spec_u64_to_le_bytes(*self as u64)
    }

    open spec fn from_bytes_spec(bytes: Seq<u8>) -> i64 {
        spec_u64_from_le_bytes(bytes) as i64
    }

    proof fn lemma_layout() {
    }

    proof fn lemma_round_trip(v: i64) {
        lemma_auto_spec_u64_to_from_le_bytes();
        assert((v as u64) as i64 == v) by (bit_vector);
    }

    fn layout() -> (l: Layout) {
        Layout { size: 8, align: 8 }
    }

    fn to_bytes(&self) -> (bytes: Vec<u8>) {
        u64_to_le_bytes(*self as u64)
    }

    fn from_bytes(bytes: &[u8]) -> (v: i64) {
        u64_from_le_bytes(bytes) as i64
    }
}

} // verus!
