//! The arena's byte layout, as specification-level functions over its bytes.
//!
//! The arena starts with one big-endian word: the offset of the first free
//! cell, or zero when the free list is empty. A cell is addressed by the
//! offset `c` of its allocation-flag byte. Around that flag sit:
//!
//! - the size word at `c - 4 .. c`: how many payload bytes the cell provides;
//! - the flag byte at `c`: one when allocated, zero when free;
//! - the payload at `c + 1 ..= c + size`.
//!
//! While a cell is free, the first eight payload bytes hold two words: the
//! backward and forward free-list links, each a byte distance to the
//! neighbouring free cell's flag, zero at either end of the list. The links
//! are dead as soon as the cell is allocated and the payload takes the space.
//! Every offset stored in the arena is a relative distance, never an absolute
//! position, so the arena could in principle be relocated as a block without
//! invalidating the structure.

use vstd::arithmetic::div_mod::{
    lemma_fundamental_div_mod, lemma_mod_bound, lemma_mod_multiples_basic, lemma_small_mod,
};
use vstd::prelude::*;

verus! {

/// Bytes of the arena-level header: one word holding the first free cell's
/// offset, zero when the free list is empty.
pub const HEAD_BYTES: usize = 4;

/// Bytes a cell's own header occupies: its size word plus its flag byte.
pub const CELL_OVERHEAD: usize = 5;

/// Bytes at the front of a free cell's payload that hold its two list links.
pub const LINK_BYTES: usize = 8;

/// Fixed overhead in front of the first cell's payload: the arena header
/// and the first cell's header.
pub const ARENA_OVERHEAD: usize = HEAD_BYTES + CELL_OVERHEAD;

/// A dead gap smaller than this cannot hold a cell of its own, so two free
/// cells this close are treated as adjacent and merged.
pub const MERGE_THRESHOLD: usize = CELL_OVERHEAD + LINK_BYTES;

/// The least leftover worth carving into a cell of its own: a header, the
/// list links, and one byte of usable payload.
pub const MIN_SPLIT: usize = CELL_OVERHEAD + LINK_BYTES + 1;

/// The smallest arena: the fixed overhead plus room for one free cell's links.
pub const MIN_ARENA: usize = ARENA_OVERHEAD + LINK_BYTES;

/// The largest arena. Keeping offsets under a gigabyte keeps every offset
/// sum of the implementation inside a 32-bit size word, whatever width
/// `usize` has on the target.
pub const MAX_ARENA: usize = 0x3FFF_FFFF;

/// The value of the big-endian word stored in `a` at `at .. at + 4`.
pub open spec fn word_at(a: Seq<u8>, at: int) -> int {
    (a[at] as int) * 0x100_0000 + (a[at + 1] as int) * 0x1_0000 + (a[at + 2] as int) * 0x100 + (a[at
        + 3] as int)
}

/// The offset of the first free cell's flag, zero when the list is empty.
pub open spec fn head_of(a: Seq<u8>) -> int {
    word_at(a, 0)
}

/// The payload size recorded in the header of the cell whose flag is at `c`.
pub open spec fn cell_size_of(a: Seq<u8>, c: int) -> int {
    word_at(a, c - 4)
}

/// The allocation flag of the cell at `c`: one allocated, zero free.
pub open spec fn flag_of(a: Seq<u8>, c: int) -> int {
    a[c] as int
}

/// The backward link of the free cell at `c`: the byte distance down to the
/// previous free cell's flag, zero when `c` is the first free cell.
pub open spec fn prev_of(a: Seq<u8>, c: int) -> int {
    word_at(a, c + 1)
}

/// The forward link of the free cell at `c`: the byte distance up to the
/// next free cell's flag, zero when `c` is the last free cell.
pub open spec fn next_of(a: Seq<u8>, c: int) -> int {
    word_at(a, c + 5)
}

/// Whether `c` can be a cell's flag offset at all: its size word must sit
/// past the arena header and its link words inside the arena.
pub open spec fn cell_pos(a: Seq<u8>, c: int) -> bool {
    8 <= c && c + 9 <= a.len()
}

/// Whether `n` is a power of two.
pub open spec fn is_pow2(n: int) -> bool
    decreases n,
{
    if n <= 0 {
        false
    } else if n == 1 {
        true
    } else {
        n % 2 == 0 && is_pow2(n / 2)
    }
}

/// The padding placed between the flag byte at `c` and the payload so the
/// payload's first byte lands on a multiple of `align`.
pub open spec fn pad_for(c: int, align: int) -> int
    recommends
        1 <= align,
        0 <= c,
{
    (align - ((c + 1) % align)) % align
}

/// The payload bytes a cell must provide to serve `size` bytes at `align`:
/// the request plus its padding, but never less than the link bytes a free
/// remainder of the cell would need again.
pub open spec fn need_for(c: int, size: int, align: int) -> int {
    if size + pad_for(c, align) < 8 {
        8
    } else {
        size + pad_for(c, align)
    }
}

/// What the allocator checks of a free cell before trusting it: position and
/// size inside the arena, flag clear, and both links either absent or far
/// enough away that no header write can collide with this cell's own words.
pub open spec fn free_cell_at(a: Seq<u8>, c: int) -> bool {
    &&& cell_pos(a, c)
    &&& flag_of(a, c) == 0
    &&& 8 <= cell_size_of(a, c)
    &&& c + cell_size_of(a, c) < a.len()
    &&& (prev_of(a, c) == 0 || (MERGE_THRESHOLD <= prev_of(a, c) && prev_of(a, c) + 8 <= c))
    &&& (next_of(a, c) == 0 || (cell_size_of(a, c) + CELL_OVERHEAD <= next_of(a, c) && c + next_of(
        a,
        c,
    ) + 9 <= a.len()))
}

/// The first cell at or after `c` on the free list that can serve `size`
/// bytes at `align`, walking forward links; `-1` when the walk ends without
/// a fit, or runs into a cell that fails the checks of [`free_cell_at`].
pub open spec fn first_fit(a: Seq<u8>, c: int, size: int, align: int) -> int
    decreases a.len() - c,
{
    if !free_cell_at(a, c) {
        -1
    } else if cell_size_of(a, c) >= need_for(c, size, align) {
        c
    } else if next_of(a, c) == 0 {
        -1
    } else {
        first_fit(a, c + next_of(a, c), size, align)
    }
}

/// The flag offset recovered by scanning backward from `i` for a byte equal
/// to one, `-1` when the scan reaches the arena header without finding one.
pub open spec fn scan_back(a: Seq<u8>, i: int) -> int
    decreases i,
{
    if i < 8 {
        -1
    } else if a[i] == 1 {
        i
    } else {
        scan_back(a, i - 1)
    }
}

/// Well-formedness of the free list from the cell at `c` on: every cell
/// passes the checks of [`free_cell_at`], forward links jump past the whole
/// cell they leave, and each backward link mirrors the forward link that
/// reaches the cell.
pub open spec fn wf_from(a: Seq<u8>, c: int) -> bool
    decreases a.len() - c,
{
    if !free_cell_at(a, c) {
        false
    } else if next_of(a, c) == 0 {
        true
    } else {
        prev_of(a, c + next_of(a, c)) == next_of(a, c) && wf_from(a, c + next_of(a, c))
    }
}

/// Whether the cell at `d` is reachable from the cell at `c` by following
/// forward links through well-positioned cells.
pub open spec fn in_chain(a: Seq<u8>, c: int, d: int) -> bool
    decreases a.len() - c,
{
    if d == c {
        true
    } else if !free_cell_at(a, c) {
        false
    } else if next_of(a, c) == 0 {
        false
    } else {
        in_chain(a, c + next_of(a, c), d)
    }
}

/// The insertion point a cell freed at `p` takes, walking forward from the
/// free cell at `c` (already known to lie below `p`): the last free cell
/// before `p`. `-2` when the walk runs into a cell that fails the checks of
/// [`free_cell_at`].
pub open spec fn pred_cell_from(a: Seq<u8>, c: int, p: int) -> int
    decreases a.len() - c,
{
    if next_of(a, c) == 0 {
        c
    } else if c + next_of(a, c) >= p {
        c
    } else if !free_cell_at(a, c + next_of(a, c)) {
        -2
    } else {
        pred_cell_from(a, c + next_of(a, c), p)
    }
}

/// The last free cell before `p`, from the head of the free list: `-1` when
/// the list is empty or begins at or above `p`, `-2` when the walk runs
/// into a cell that fails the checks of [`free_cell_at`].
pub open spec fn pred_cell(a: Seq<u8>, p: int) -> int {
    if head_of(a) == 0 {
        -1
    } else if !free_cell_at(a, head_of(a)) {
        -2
    } else if head_of(a) >= p {
        -1
    } else {
        pred_cell_from(a, head_of(a), p)
    }
}

/// Well-formedness of the whole free list: empty, or anchored at a cell
/// whose backward link is zero and whose chain is well formed.
pub open spec fn list_wf(a: Seq<u8>) -> bool {
    head_of(a) == 0 || {
        &&& cell_pos(a, head_of(a))
        &&& prev_of(a, head_of(a)) == 0
        &&& wf_from(a, head_of(a))
    }
}

/// Whether the cell right after the live cell at `cp` can supply the
/// capacity `new_size` asks beyond that cell's current size: it must be a
/// free cell, large enough, and its backward link must point far enough
/// below that unlinking it cannot write into `cp`'s header or payload.
pub open spec fn grow_ok(a: Seq<u8>, cp: int, new_size: int) -> bool {
    let sz = cell_size_of(a, cp);
    let mn = cp + sz + 5;
    &&& mn + 9 <= a.len()
    &&& free_cell_at(a, mn)
    &&& (prev_of(a, mn) == 0 || mn + MERGE_THRESHOLD <= cp + prev_of(a, mn))
    &&& cell_size_of(a, mn) >= (if new_size - sz < 8 {
        8
    } else {
        new_size - sz
    })
}

/// Whether the cell at `c` has no free-list neighbour within the merge
/// threshold: any predecessor ends, and any successor begins, at least a
/// whole smallest cell away. This is what coalescing establishes for the
/// cell it leaves behind.
pub open spec fn no_adjacent_neighbor(a: Seq<u8>, c: int) -> bool {
    &&& (prev_of(a, c) != 0 ==> c >= c - prev_of(a, c) + cell_size_of(a, c - prev_of(a, c))
        + CELL_OVERHEAD + MERGE_THRESHOLD)
    &&& (next_of(a, c) != 0 ==> next_of(a, c) >= cell_size_of(a, c) + CELL_OVERHEAD
        + MERGE_THRESHOLD)
}

/// The byte offsets an allocation from the free cell at `c` may write: the
/// arena head word, anything within the cell's old span (its header, the
/// padding, the split-off remainder's header and links), and one link word
/// of each of the cell's two old list neighbours. Everything else — every
/// other cell's header and payload — is untouched.
pub open spec fn alloc_writes(a: Seq<u8>, c: int, i: int) -> bool {
    ||| 0 <= i < 4
    ||| c - 4 <= i < c + 1 + cell_size_of(a, c)
    ||| (prev_of(a, c) != 0 && c - prev_of(a, c) + 5 <= i < c - prev_of(a, c) + 9)
    ||| (next_of(a, c) != 0 && c + next_of(a, c) + 1 <= i < c + next_of(a, c) + 5)
}

/// What a successful allocation leaves behind at its cell: the flag set, the
/// padding zeroed (so a backward scan from the payload finds the flag and
/// nothing else), the payload aligned, in bounds, and large enough, and the
/// cell carved out of a cell that was free before.
pub open spec fn claimed(a0: Seq<u8>, a1: Seq<u8>, c: int, p: int, size: int, align: int) -> bool {
    &&& 8 <= c < p
    &&& p == c + 1 + pad_for(c, align)
    &&& p % align == 0
    &&& p + size <= a1.len()
    &&& flag_of(a0, c) == 0
    &&& flag_of(a1, c) == 1
    &&& 8 <= cell_size_of(a1, c) <= cell_size_of(a0, c)
    &&& p + size <= c + 1 + cell_size_of(a1, c)
    &&& c + 1 + cell_size_of(a1, c) <= a1.len()
    &&& forall|i: int| c < i < p ==> a1[i] == 0
}

/// The padding of [`pad_for`] is less than the alignment, and lands the
/// payload's first byte on a multiple of the alignment.
pub proof fn lemma_pad_aligns(c: int, align: int)
    requires
        1 <= align,
        0 <= c,
    ensures
        0 <= pad_for(c, align) < align,
        (c + 1 + pad_for(c, align)) % align == 0,
{
    let x = c + 1;
    let m = x % align;
    lemma_mod_bound(x, align);
    if m == 0 {
        lemma_mod_multiples_basic(1, align);
        assert(pad_for(c, align) == align % align == 0);
        assert((x + 0) % align == 0);
    } else {
        lemma_small_mod((align - m) as nat, align as nat);
        assert(pad_for(c, align) == align - m);
        lemma_fundamental_div_mod(x, align);
        let q = x / align;
        assert(x + (align - m) == align * (q + 1)) by {
            assert(x == align * q + m);
            assert(align * (q + 1) == align * q + align) by (nonlinear_arith);
        }
        lemma_mod_multiples_basic(q + 1, align);
        assert((align * (q + 1)) % align == 0) by {
            assert(align * (q + 1) == (q + 1) * align) by (nonlinear_arith);
        }
    }
}

/// A successful first-fit search lands on a cell that passed every check of
/// [`free_cell_at`] and is large enough for the request.
pub proof fn lemma_first_fit_is_free(a: Seq<u8>, c: int, size: int, align: int)
    requires
        first_fit(a, c, size, align) != -1,
    ensures
        free_cell_at(a, first_fit(a, c, size, align)),
        cell_size_of(a, first_fit(a, c, size, align)) >= need_for(
            first_fit(a, c, size, align),
            size,
            align,
        ),
    decreases a.len() - c,
{
    if free_cell_at(a, c) && cell_size_of(a, c) < need_for(c, size, align) && next_of(a, c) != 0 {
        lemma_first_fit_is_free(a, c + next_of(a, c), size, align);
    }
}

/// An alignment wider than the arena can never be served: the padding alone
/// already exceeds any cell's size, so the search finds no fit.
pub proof fn lemma_first_fit_none_when_align_large(a: Seq<u8>, c: int, size: int, align: int)
    requires
        align > a.len(),
        0 <= size,
    ensures
        first_fit(a, c, size, align) == -1,
    decreases a.len() - c,
{
    if free_cell_at(a, c) {
        let x = c + 1;
        lemma_small_mod(x as nat, align as nat);
        assert(x % align == x);
        lemma_small_mod((align - x) as nat, align as nat);
        assert(pad_for(c, align) == align - x);
        assert(cell_size_of(a, c) < need_for(c, size, align));
        if next_of(a, c) != 0 {
            lemma_first_fit_none_when_align_large(a, c + next_of(a, c), size, align);
        }
    }
}

} // verus!
