//! A free-list heap allocator over one fixed-size byte arena.
//!
//! The [`heap::Heap`] owns a contiguous byte buffer and hands out payload
//! regions by offset: `allocate` searches an address-ordered free list
//! threaded through in-arena cell headers, `deallocate` returns a region and
//! coalesces adjacent free cells, `allocate_zeroed` also clears the payload,
//! and `reallocate` grows a region in place when the next cell can supply the
//! missing capacity. There is no operating-system support behind it: all
//! bookkeeping lives inside the arena itself, apart from nothing but the
//! buffer's own length.
//!
//! Two design decisions are worth stating up front. Alignment padding is
//! computed as the distance from the payload's would-be first byte to the
//! next multiple of the alignment — the returned offset is therefore always
//! aligned, and the verifier holds `allocate` to it. And error handling is
//! uniformly checked: caller mistakes the allocator can detect (a
//! non-power-of-two alignment, a size beyond the arena's capacity, a pointer
//! that no backward scan can resolve) are reported as error results, never
//! panics, and the same goes for bookkeeping bytes found inconsistent
//! mid-operation, which fail fast without attempting repair.

use vstd::prelude::*;

pub mod codec;
pub mod heap;
pub mod laws;
pub mod layout;

verus! {

/// How an operation of the allocator can fail.
#[derive(Clone, Copy, Debug, PartialEq, Eq, Structural)]
pub enum AllocError {
    /// No free cell, after overhead and alignment padding, satisfies the
    /// request. A normal result, cured only by deallocating something.
    OutOfMemory,
    /// The caller broke the allocator's contract in a way it can detect:
    /// a non-power-of-two alignment, a size beyond the arena's capacity,
    /// or a pointer that does not resolve to a live allocation.
    InvalidCall,
    /// The arena's bookkeeping bytes are inconsistent: a cell's size or a
    /// free-list link points outside the arena or into another cell's
    /// header. The operation fails fast and attempts no repair.
    Corrupted,
}

} // verus!

pub use heap::Heap;
