//! Checked-handle memory containers.
//!
//! An [`Arena`] bump-allocates type-erased values into fixed-size blocks of
//! bytes and hands out [`Ref`]s; a [`Store`] grows a typed sequence and hands
//! out [`Handle`]s. A container resolves only the references that carry its
//! own identity.

pub mod arena;
pub mod counter;
pub mod layout;
pub mod pod;
pub mod reference;
pub mod store;
mod text;

pub use arena::view::{ArenaView, BlockView};
pub use arena::Arena;
pub use counter::{usize_counter, Counter};
pub use layout::{align_offset, blocks_needed, checked_span, Layout, PAGE};
pub use pod::Pod;
pub use reference::{Ref, RefView};
pub use store::{Handle, HandleView, Store, StoreView};
