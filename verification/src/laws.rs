//! Laws that hold across the allocator's operations.

use crate::layout::{
    cell_size_of, first_fit, flag_of, free_cell_at, head_of, in_chain, need_for, next_of, prev_of,
    scan_back,
};
use vstd::prelude::*;

verus! {

/// Law: a pointer just returned by an allocation scans back to its own
/// cell's flag. [`crate::Heap::allocate`] guarantees the flag byte is one
/// and every padding byte between flag and payload is zero
/// ([`crate::layout::claimed`]); the backward scan therefore crosses
/// exactly the padding and stops at the flag, which pins the cell that
/// [`crate::Heap::deallocate`] of that pointer resolves.
pub proof fn lemma_scan_finds_own_flag(a: Seq<u8>, c: int, p: int)
    requires
        8 <= c < p,
        p <= a.len(),
        a[c] == 1,
        forall|i: int| c < i < p ==> a[i] == 0,
    ensures
        scan_back(a, p - 1) == c,
    decreases p,
{
    if p - 1 > c {
        assert(a[p - 1] == 0);
        lemma_scan_finds_own_flag(a, c, p - 1);
    }
}

/// Law: on a freshly set-up arena the free list is the one whole cell, so
/// the first-fit search starts and ends there. Together with
/// [`crate::Heap::allocate`]'s contract this owes the first allocation
/// success — at the cell's own padding — for every request the cell can
/// serve.
pub proof fn lemma_fresh_arena_first_fit(a: Seq<u8>, size: int, align: int)
    requires
        17 <= a.len(),
        head_of(a) == 8,
        flag_of(a, 8) == 0,
        prev_of(a, 8) == 0,
        next_of(a, 8) == 0,
        cell_size_of(a, 8) == a.len() - 9,
        need_for(8, size, align) <= a.len() - 9,
    ensures
        first_fit(a, 8, size, align) == 8,
{
    assert(free_cell_at(a, 8));
}

/// Law: exhaustion is genuine. When the first-fit search comes back empty —
/// exactly the case in which [`crate::Heap::allocate`]'s contract forces
/// `OutOfMemory` on a well-formed list — no free cell reachable from `c`
/// could have served the request: every one is smaller than the request
/// plus its padding. A failed allocation therefore never has a fitting cell
/// to silently pass over, and only freeing memory can change the outcome.
pub proof fn lemma_out_of_memory_means_no_fit(a: Seq<u8>, c: int, size: int, align: int)
    requires
        first_fit(a, c, size, align) == -1,
    ensures
        forall|d: int|
            in_chain(a, c, d) && free_cell_at(a, d) ==> cell_size_of(a, d) < need_for(
                d,
                size,
                align,
            ),
    decreases a.len() - c,
{
    if free_cell_at(a, c) && next_of(a, c) != 0 {
        lemma_out_of_memory_means_no_fit(a, c + next_of(a, c), size, align);
        assert forall|d: int|
            in_chain(a, c, d) && free_cell_at(a, d) implies cell_size_of(a, d) < need_for(
            d,
            size,
            align,
        ) by {
            if d != c {
                assert(in_chain(a, c + next_of(a, c), d));
            }
        }
    }
}

/// Law: payload bytes round-trip. Writing a byte and reading the same
/// offset returns exactly the byte written, and no other offset changes;
/// with [`crate::Heap::write_byte`]'s and [`crate::Heap::read_byte`]'s
/// contracts this makes writing then reading `s` bytes at a returned
/// pointer lossless.
pub proof fn lemma_payload_roundtrip(a: Seq<u8>, at: int, v: u8)
    requires
        0 <= at < a.len(),
    ensures
        a.update(at, v)[at] == v,
        forall|j: int| 0 <= j < a.len() && j != at ==> a.update(at, v)[j] == a[j],
{
}

} // verus!
