//! The allocator: one `Heap` owning its arena, with the four public
//! operations and the free-list machinery behind them.

use crate::codec::{read_word, write_word};
use crate::layout::{
    alloc_writes, cell_pos, cell_size_of, claimed, first_fit, flag_of, free_cell_at, grow_ok,
    head_of, is_pow2, lemma_first_fit_is_free,
    lemma_first_fit_none_when_align_large, lemma_pad_aligns, list_wf, need_for, next_of,
    no_adjacent_neighbor, pad_for, pred_cell, pred_cell_from, prev_of, scan_back, wf_from,
    ARENA_OVERHEAD, CELL_OVERHEAD, LINK_BYTES, MAX_ARENA, MERGE_THRESHOLD, MIN_ARENA, MIN_SPLIT,
};
use crate::AllocError;
use vstd::prelude::*;

verus! {

/// A free-list allocator owning one fixed byte arena.
///
/// The arena's first word anchors an address-ordered, doubly-linked list of
/// free cells threaded through the cells' own headers. A returned "pointer"
/// is a byte offset into the arena, aimed at the first payload byte; the
/// caller reads and writes its payload through [`Heap::read_byte`] and
/// [`Heap::write_byte`]. One logical owner drives the heap; nothing here
/// synchronizes concurrent callers.
pub struct Heap {
    pub(crate) arena: Vec<u8>,
}

impl View for Heap {
    type V = Seq<u8>;

    /// The heap's model: its arena bytes.
    closed spec fn view(&self) -> Seq<u8> {
        self.arena@
    }
}

impl Heap {
    /// Structural well-formedness: the arena is large enough for its fixed
    /// overhead and one free cell's links, and small enough that every
    /// offset fits a header word.
    pub open spec fn wf(&self) -> bool {
        MIN_ARENA <= self@.len() <= MAX_ARENA
    }

    /// Builds a heap over a fresh zeroed arena of `len` bytes, set up as one
    /// free cell spanning everything past the fixed overhead.
    pub fn new(len: usize) -> (r: Result<Heap, AllocError>)
        ensures
            match r {
                Ok(h) => {
                    &&& h.wf()
                    &&& h@.len() == len
                    &&& MIN_ARENA <= len <= MAX_ARENA
                    &&& head_of(h@) == 8
                    &&& cell_size_of(h@, 8) == len - ARENA_OVERHEAD
                    &&& flag_of(h@, 8) == 0
                    &&& prev_of(h@, 8) == 0
                    &&& next_of(h@, 8) == 0
                    &&& list_wf(h@)
                    &&& forall|i: int| 17 <= i < len ==> h@[i] == 0
                },
                Err(e) => e == AllocError::InvalidCall && !(MIN_ARENA <= len <= MAX_ARENA),
            },
    {
        if len < MIN_ARENA || len > MAX_ARENA {
            return Err(AllocError::InvalidCall);
        }
        let mut arena: Vec<u8> = Vec::new();
        let mut i: usize = 0;
        while i < len
            invariant
                i == arena@.len() <= len,
                forall|j: int| 0 <= j < i ==> arena@[j] == 0,
            decreases len - i,
        {
            arena.push(0);
            i = i + 1;
        }
        let mut h = Heap { arena };
        h.setup();
        Ok(h)
    }

    /// Resets the arena to one free cell spanning everything past the fixed
    /// overhead, and points the head at it. Called once before any other
    /// operation; calling it again later orphans every live allocation.
    pub fn setup(&mut self)
        requires
            old(self).wf(),
        ensures
            final (self).wf(),
            final (self)@.len() == old(self)@.len(),
            head_of(final (self)@) == 8,
            cell_size_of(final (self)@, 8) == final (self)@.len() - ARENA_OVERHEAD,
            flag_of(final (self)@, 8) == 0,
            prev_of(final (self)@, 8) == 0,
            next_of(final (self)@, 8) == 0,
            list_wf(final (self)@),
            forall|i: int| 17 <= i < final (self)@.len() ==> final (self)@[i] == old(self)@[i],
    {
        let len = self.arena.len();
        write_word(&mut self.arena, 0, 8);
        self.format_cell(8, len - ARENA_OVERHEAD, false, 0, 0);
        proof {
            assert(free_cell_at(self@, 8));
            assert(wf_from(self@, 8));
        }
    }

    /// Writes a whole cell header at `c`: size word, flag byte, and both
    /// link words.
    fn format_cell(&mut self, c: usize, size: usize, allocated: bool, prev: usize, next: usize)
        requires
            old(self).wf(),
            8 <= c,
            c + 9 <= old(self)@.len(),
            size < 0x1_0000_0000,
            prev < 0x1_0000_0000,
            next < 0x1_0000_0000,
        ensures
            final (self).wf(),
            final (self)@.len() == old(self)@.len(),
            cell_size_of(final (self)@, c as int) == size,
            flag_of(final (self)@, c as int) == (if allocated {
                1int
            } else {
                0int
            }),
            prev_of(final (self)@, c as int) == prev,
            next_of(final (self)@, c as int) == next,
            forall|i: int|
                0 <= i < old(self)@.len() && !(c - 4 <= i < c + 9) ==> final (self)@[i] == old(
                    self,
                )@[i],
    {
        write_word(&mut self.arena, c - 4, size);
        self.arena.set(
            c,
            if allocated {
                1
            } else {
                0
            },
        );
        write_word(&mut self.arena, c + 1, prev);
        write_word(&mut self.arena, c + 5, next);
    }

    /// Points the free cells at `low` and `high` at each other: `low`'s
    /// forward link and `high`'s backward link both become their distance.
    fn link_pair(&mut self, low: usize, high: usize)
        requires
            old(self).wf(),
            8 <= low,
            low + MERGE_THRESHOLD <= high,
            high + 9 <= old(self)@.len(),
        ensures
            final (self).wf(),
            final (self)@.len() == old(self)@.len(),
            next_of(final (self)@, low as int) == high - low,
            prev_of(final (self)@, high as int) == high - low,
            forall|i: int|
                0 <= i < old(self)@.len() && !(low + 5 <= i < low + 9) && !(high + 1 <= i < high
                    + 5) ==> final (self)@[i] == old(self)@[i],
    {
        write_word(&mut self.arena, low + 5, high - low);
        write_word(&mut self.arena, high + 1, high - low);
    }

    /// The arena's length in bytes.
    pub fn arena_len(&self) -> (r: usize)
        ensures
            r == self@.len(),
    {
        self.arena.len()
    }

    /// The offset of the first free cell's flag, zero when none is free.
    pub fn head(&self) -> (r: usize)
        requires
            self.wf(),
        ensures
            r == head_of(self@),
    {
        read_word(&self.arena, 0)
    }

    /// The payload size recorded for the cell whose flag sits at `c`.
    pub fn cell_size(&self, c: usize) -> (r: usize)
        requires
            self.wf(),
            cell_pos(self@, c as int),
        ensures
            r == cell_size_of(self@, c as int),
    {
        read_word(&self.arena, c - 4)
    }

    /// The allocation flag of the cell whose flag sits at `c`.
    pub fn cell_flag(&self, c: usize) -> (r: u8)
        requires
            self.wf(),
            cell_pos(self@, c as int),
        ensures
            r as int == flag_of(self@, c as int),
    {
        self.arena[c]
    }

    /// The backward free-list link of the cell whose flag sits at `c`.
    pub fn cell_prev(&self, c: usize) -> (r: usize)
        requires
            self.wf(),
            cell_pos(self@, c as int),
        ensures
            r == prev_of(self@, c as int),
    {
        read_word(&self.arena, c + 1)
    }

    /// The forward free-list link of the cell whose flag sits at `c`.
    pub fn cell_next(&self, c: usize) -> (r: usize)
        requires
            self.wf(),
            cell_pos(self@, c as int),
        ensures
            r == next_of(self@, c as int),
    {
        read_word(&self.arena, c + 5)
    }

    /// Reads the arena byte at `at`.
    pub fn read_byte(&self, at: usize) -> (r: u8)
        requires
            at < self@.len(),
        ensures
            r == self@[at as int],
    {
        self.arena[at]
    }

    /// Writes the arena byte at `at`. The caller must stay inside payloads
    /// it owns: a write into a header or a padding byte corrupts the
    /// allocator's bookkeeping, which later operations detect or survive
    /// without panicking, but cannot undo.
    pub fn write_byte(&mut self, at: usize, v: u8)
        requires
            ARENA_OVERHEAD <= at < old(self)@.len(),
        ensures
            final (self)@ == old(self)@.update(at as int, v),
            final (self)@.len() == old(self)@.len(),
    {
        self.arena.set(at, v);
    }

    /// Runs every check the allocator makes before trusting a free cell.
    fn check_free_cell(&self, c: usize) -> (r: bool)
        requires
            self.wf(),
            8 <= c,
            c + 9 <= self@.len(),
        ensures
            r == free_cell_at(self@, c as int),
    {
        let len = self.arena.len();
        let flag = self.arena[c];
        let sz = read_word(&self.arena, c - 4);
        let pr = read_word(&self.arena, c + 1);
        let nx = read_word(&self.arena, c + 5);
        flag == 0 && 8 <= sz && sz < len - c && (pr == 0 || (MERGE_THRESHOLD <= pr && pr <= c - 8))
            && (nx == 0 || (sz + 5 <= nx && nx <= len - c - 9))
    }

    /// The padding that brings the payload after the flag at `c` to a
    /// multiple of `align`.
    fn compute_pad(c: usize, align: usize) -> (r: usize)
        requires
            1 <= align <= MAX_ARENA,
            c <= MAX_ARENA,
        ensures
            r == pad_for(c as int, align as int),
            r < align,
    {
        proof {
            lemma_pad_aligns(c as int, align as int);
        }
        (align - ((c + 1) % align)) % align
    }

    /// Scans backward from the payload pointer `p` for the flag byte: the
    /// nearest byte equal to one below `p`. Padding bytes are always zeroed
    /// at allocation, so from an honest pointer the scan can stop nowhere
    /// short of the flag.
    fn find_claim_point(&self, p: usize) -> (r: Option<usize>)
        requires
            self.wf(),
            9 <= p,
            p <= self@.len(),
        ensures
            match r {
                Some(c) => scan_back(self@, p - 1) == c && 8 <= c < p && self@[c as int] == 1,
                None => scan_back(self@, p - 1) == -1,
            },
    {
        let mut i: usize = p - 1;
        while self.arena[i] != 1
            invariant
                self.wf(),
                8 <= i < p,
                p <= self@.len(),
                scan_back(self@, p - 1) == scan_back(self@, i as int),
            decreases i,
        {
            if i == 8 {
                assert(scan_back(self@, 7) == -1);
                return None;
            }
            assert(scan_back(self@, i as int) == scan_back(self@, i - 1));
            i = i - 1;
        }
        Some(i)
    }

    /// Walks the free list for the last free cell before `p`, the insertion
    /// point a freed cell at `p` would take.
    fn locate_predecessor(&self, p: usize) -> (r: Result<Option<usize>, AllocError>)
        requires
            self.wf(),
            8 <= p,
            p <= self@.len(),
        ensures
            match r {
                Ok(Some(c)) => {
                    &&& free_cell_at(self@, c as int)
                    &&& 8 <= c < p
                    &&& head_of(self@) != 0
                    &&& (next_of(self@, c as int) == 0 || c + next_of(self@, c as int) >= p)
                    &&& pred_cell(self@, p as int) == c
                },
                Ok(None) => (head_of(self@) == 0 || (head_of(self@) >= p && free_cell_at(
                    self@,
                    head_of(self@),
                ))) && pred_cell(self@, p as int) == -1,
                Err(e) => e == AllocError::Corrupted && pred_cell(self@, p as int) == -2,
            },
            list_wf(self@) ==> r is Ok,
    {
        let len = self.arena.len();
        let h = self.head();
        if h == 0 {
            return Ok(None);
        }
        if h < 8 || h > len - 9 {
            return Err(AllocError::Corrupted);
        }
        if !self.check_free_cell(h) {
            return Err(AllocError::Corrupted);
        }
        if h >= p {
            return Ok(None);
        }
        let mut c: usize = h;
        loop
            invariant
                self.wf(),
                len == self@.len(),
                free_cell_at(self@, c as int),
                8 <= c < p <= len,
                head_of(self@) == h,
                h != 0,
                pred_cell(self@, p as int) == pred_cell_from(self@, c as int, p as int),
                list_wf(self@) ==> wf_from(self@, c as int),
            decreases len - c,
        {
            let nx = self.cell_next(c);
            if nx == 0 {
                return Ok(Some(c));
            }
            let c2 = c + nx;
            if c2 >= p {
                return Ok(Some(c));
            }
            proof {
                if list_wf(self@) {
                    assert(wf_from(self@, c as int));
                    assert(wf_from(self@, c2 as int));
                }
            }
            if !self.check_free_cell(c2) {
                return Err(AllocError::Corrupted);
            }
            proof {
                assert(pred_cell_from(self@, c as int, p as int) == pred_cell_from(
                    self@,
                    c2 as int,
                    p as int,
                ));
            }
            c = c2;
        }
    }

    /// Unlinks the free cell at `c` from the list and marks it allocated.
    /// Its own header words go stale; they are never read while allocated.
    fn claim(&mut self, c: usize)
        requires
            old(self).wf(),
            free_cell_at(old(self)@, c as int),
        ensures
            final (self).wf(),
            final (self)@.len() == old(self)@.len(),
            flag_of(final (self)@, c as int) == 1,
            cell_size_of(final (self)@, c as int) == cell_size_of(old(self)@, c as int),
            ({
                let a0 = old(self)@;
                let a1 = final (self)@;
                let pr = prev_of(a0, c as int);
                let nx = next_of(a0, c as int);
                if pr != 0 && nx != 0 {
                    &&& next_of(a1, c - pr) == pr + nx
                    &&& prev_of(a1, c + nx) == pr + nx
                    &&& head_of(a1) == head_of(a0)
                } else if pr != 0 {
                    &&& next_of(a1, c - pr) == 0
                    &&& head_of(a1) == head_of(a0)
                } else if nx != 0 {
                    &&& head_of(a1) == c + nx
                    &&& prev_of(a1, c + nx) == 0
                } else {
                    head_of(a1) == 0
                }
            }),
            forall|i: int|
                0 <= i < old(self)@.len() && !claim_writes(old(self)@, c as int, i) ==> final (
                self)@[i] == old(self)@[i],
    {
        let pr = read_word(&self.arena, c + 1);
        let nx = read_word(&self.arena, c + 5);
        self.arena.set(c, 1);
        if pr != 0 {
            if nx != 0 {
                self.link_pair(c - pr, c + nx);
            } else {
                write_word(&mut self.arena, c - pr + 5, 0);
            }
        } else if nx != 0 {
            write_word(&mut self.arena, 0, c + nx);
            write_word(&mut self.arena, c + nx + 1, 0);
        } else {
            write_word(&mut self.arena, 0, 0);
        }
    }

    /// Splits the free cell at `c` so it provides exactly `carve` payload
    /// bytes, formatting the leftover as a new free cell spliced in right
    /// after `c`; a leftover too small to stand alone stays with `c`.
    fn shrink(&mut self, c: usize, carve: usize)
        requires
            old(self).wf(),
            free_cell_at(old(self)@, c as int),
            8 <= carve <= cell_size_of(old(self)@, c as int),
        ensures
            final (self).wf(),
            final (self)@.len() == old(self)@.len(),
            free_cell_at(final (self)@, c as int),
            carve <= cell_size_of(final (self)@, c as int),
            cell_size_of(final (self)@, c as int) == (if cell_size_of(old(self)@, c as int) >= carve
                + MIN_SPLIT {
                carve as int
            } else {
                cell_size_of(old(self)@, c as int)
            }),
            prev_of(final (self)@, c as int) == prev_of(old(self)@, c as int),
            flag_of(final (self)@, c as int) == 0,
            cell_size_of(old(self)@, c as int) < carve + MIN_SPLIT ==> final (self)@ == old(self)@,
            cell_size_of(old(self)@, c as int) >= carve + MIN_SPLIT ==> ({
                let a0 = old(self)@;
                let a1 = final (self)@;
                let nc = c + carve + 5;
                let nx = next_of(a0, c as int);
                &&& next_of(a1, c as int) == carve + 5
                &&& flag_of(a1, nc) == 0
                &&& cell_size_of(a1, nc) == cell_size_of(a0, c as int) - carve - 5
                &&& prev_of(a1, nc) == carve + 5
                &&& next_of(a1, nc) == (if nx == 0 {
                    0int
                } else {
                    nx - carve - 5
                })
                &&& (nx != 0 ==> prev_of(a1, c + nx) == nx - carve - 5)
            }),
            forall|i: int|
                0 <= i < old(self)@.len() && !shrink_writes(old(self)@, c as int, carve as int, i)
                    ==> final (self)@[i] == old(self)@[i],
    {
        let cz = read_word(&self.arena, c - 4);
        if cz < carve + MIN_SPLIT {
            return ;
        }
        let nx = read_word(&self.arena, c + 5);
        let nc = c + carve + 5;
        write_word(&mut self.arena, c - 4, carve);
        let inherited = if nx != 0 {
            nx - carve - 5
        } else {
            0
        };
        self.format_cell(nc, cz - carve - 5, false, carve + 5, inherited);
        write_word(&mut self.arena, c + 5, carve + 5);
        if nx != 0 {
            write_word(&mut self.arena, c + nx + 1, nx - carve - 5);
        }
    }
}

impl Heap {
    /// Absorbs the free cell at `high` into the free cell at `low`,
    /// extending `low` to span both (any dead gap included) and inheriting
    /// `high`'s forward link.
    fn merge(&mut self, low: usize, high: usize)
        requires
            old(self).wf(),
            8 <= low,
            low + MERGE_THRESHOLD <= high,
            high + 9 <= old(self)@.len(),
            low + cell_size_of(old(self)@, low as int) + 5 <= high,
            high + cell_size_of(old(self)@, high as int) < old(self)@.len(),
            next_of(old(self)@, high as int) != 0 ==> high + next_of(old(self)@, high as int) + 9
                <= old(self)@.len(),
        ensures
            final (self).wf(),
            final (self)@.len() == old(self)@.len(),
            cell_size_of(final (self)@, low as int) == high + cell_size_of(old(self)@, high as int)
                - low,
            flag_of(final (self)@, low as int) == flag_of(old(self)@, low as int),
            prev_of(final (self)@, low as int) == prev_of(old(self)@, low as int),
            next_of(final (self)@, low as int) == (if next_of(old(self)@, high as int) == 0 {
                0int
            } else {
                high + next_of(old(self)@, high as int) - low
            }),
            next_of(old(self)@, high as int) != 0 ==> prev_of(
                final (self)@,
                high + next_of(old(self)@, high as int),
            ) == high + next_of(old(self)@, high as int) - low,
            forall|i: int|
                0 <= i < old(self)@.len() && !merge_writes(old(self)@, low as int, high as int, i)
                    ==> final (self)@[i] == old(self)@[i],
    {
        let sh = read_word(&self.arena, high - 4);
        let nxh = read_word(&self.arena, high + 5);
        write_word(&mut self.arena, low - 4, high - low + sh);
        if nxh != 0 {
            write_word(&mut self.arena, low + 5, high - low + nxh);
            write_word(&mut self.arena, high + nxh + 1, high - low + nxh);
        } else {
            write_word(&mut self.arena, low + 5, 0);
        }
    }

    /// Merges the freed cell at `start` with its list neighbours while one
    /// sits within the merge threshold: first backward into an adjacent
    /// predecessor, then forward over an adjacent successor, repeating from
    /// the merged cell until neither neighbour is adjacent. Iterative, so a
    /// long cascade costs no call stack. Returns the surviving cell, which
    /// covers the freed one and has no adjacent neighbour left.
    #[verifier::rlimit(100)]
    fn coalesce(&mut self, start: usize) -> (r: Result<usize, AllocError>)
        requires
            old(self).wf(),
            8 <= start,
            8 <= cell_size_of(old(self)@, start as int),
            start + cell_size_of(old(self)@, start as int) < old(self)@.len(),
            old(self)@[start as int] == 0,
        ensures
            final (self).wf(),
            final (self)@.len() == old(self)@.len(),
            final (self)@[start as int] == 0,
            head_of(final (self)@) == head_of(old(self)@),
            r is Err ==> r == Err::<usize, AllocError>(AllocError::Corrupted),
            clean_stop(old(self)@, start as int) ==> r == Ok::<usize, AllocError>(start) && final (
                self)@ == old(self)@,
            r matches Ok(c) ==> ({
                &&& 8 <= c <= start
                &&& start + cell_size_of(old(self)@, start as int) <= c + cell_size_of(
                    final (self)@,
                    c as int,
                )
                &&& c + cell_size_of(final (self)@, c as int) < final (self)@.len()
                &&& no_adjacent_neighbor(final (self)@, c as int)
                &&& forall|i: int|
                    0 <= i < final (self)@.len() && !(c - 4 <= i <= c + cell_size_of(
                        final (self)@,
                        c as int,
                    )) && !(next_of(final (self)@, c as int) != 0 && c + next_of(
                        final (self)@,
                        c as int,
                    ) + 1 <= i < c + next_of(final (self)@, c as int) + 5) ==> final (self)@[i]
                        == old(self)@[i]
            }),
    {
        let len = self.arena.len();
        let mut c: usize = start;
        loop
            invariant
                self.wf(),
                len == self@.len(),
                len == old(self)@.len(),
                8 <= c <= start,
                c == start || c + MERGE_THRESHOLD <= start,
                8 <= cell_size_of(self@, c as int),
                c + cell_size_of(self@, c as int) < len,
                start + cell_size_of(old(self)@, start as int) <= c + cell_size_of(self@, c as int),
                self@[start as int] == 0,
                head_of(self@) == head_of(old(self)@),
                clean_stop(old(self)@, start as int) ==> c == start && self@ == old(self)@,
                forall|i: int|
                    0 <= i < len && !(c - 4 <= i <= c + cell_size_of(self@, c as int)) && !(next_of(
                        self@,
                        c as int,
                    ) != 0 && c + next_of(self@, c as int) + 1 <= i < c + next_of(self@, c as int)
                        + 5) ==> self@[i] == old(self)@[i],
            decreases c, len - c - cell_size_of(self@, c as int),
        {
            let sz = read_word(&self.arena, c - 4);
            let pr = read_word(&self.arena, c + 1);
            let nx = read_word(&self.arena, c + 5);
            if nx != 0 && (nx < sz + 5 || nx > len - c - 9) {
                return Err(AllocError::Corrupted);
            }
            if pr != 0 {
                if pr < MERGE_THRESHOLD || pr > c - 8 {
                    return Err(AllocError::Corrupted);
                }
                let lo = c - pr;
                let slo = read_word(&self.arena, lo - 4);
                if slo >= len - lo {
                    return Err(AllocError::Corrupted);
                }
                if lo + slo + 5 > c {
                    return Err(AllocError::Corrupted);
                }
                if c < lo + slo + CELL_OVERHEAD + MERGE_THRESHOLD {
                    self.merge(lo, c);
                    c = lo;
                    continue ;
                }
            }
            if nx != 0 {
                let hi = c + nx;
                if hi < c + sz + CELL_OVERHEAD + MERGE_THRESHOLD {
                    let shi = read_word(&self.arena, hi - 4);
                    if shi < 8 || shi >= len - hi {
                        return Err(AllocError::Corrupted);
                    }
                    let nxh = read_word(&self.arena, hi + 5);
                    if nxh != 0 && nxh > len - hi - 9 {
                        return Err(AllocError::Corrupted);
                    }
                    self.merge(c, hi);
                    continue ;
                }
            }
            return Ok(c);
        }
    }
}

/// The neighbourhood in which coalescing has nothing to do and returns at
/// once: any list neighbours of the cell at `c` sit in bounds, overlap
/// nothing, and lie at least a merge threshold away.
spec fn clean_stop(a: Seq<u8>, c: int) -> bool {
    let sz = cell_size_of(a, c);
    let pr = prev_of(a, c);
    let nx = next_of(a, c);
    &&& (nx == 0 || (sz + 18 <= nx && c + nx + 9 <= a.len()))
    &&& (pr == 0 || {
        let lo = c - pr;
        let slo = cell_size_of(a, lo);
        &&& 13 <= pr
        &&& pr + 8 <= c
        &&& lo + slo < a.len()
        &&& lo + slo + 18 <= c
    })
}

impl Heap {
    /// Serves `size` payload bytes whose first byte lands on a multiple of
    /// `align` (a power of two), searching the free list first-fit from the
    /// head. The chosen cell is split when the leftover can stand alone,
    /// claimed whole otherwise; the padding bytes between flag and payload
    /// are zeroed so a backward scan can find the flag again. Returns the
    /// payload's offset, or the error naming what failed; any failure
    /// leaves the arena untouched.
    #[verifier::rlimit(100)]
    pub fn allocate(&mut self, size: usize, align: usize) -> (r: Result<usize, AllocError>)
        requires
            old(self).wf(),
        ensures
            final (self).wf(),
            final (self)@.len() == old(self)@.len(),
            r is Err ==> final (self)@ == old(self)@,
            r == Err::<usize, AllocError>(AllocError::InvalidCall) <==> (!is_pow2(align as int)
                || size + ARENA_OVERHEAD > old(self)@.len()),
            (is_pow2(align as int) && size + ARENA_OVERHEAD <= old(self)@.len()) ==> ({
                let ff = first_fit(old(self)@, head_of(old(self)@), size as int, align as int);
                &&& ((r == Err::<usize, AllocError>(AllocError::OutOfMemory) || r == Err::<
                    usize,
                    AllocError,
                >(AllocError::Corrupted)) <==> ff == -1)
                &&& (r matches Ok(p) ==> ff != -1 && p == ff + 1 + pad_for(ff, align as int)
                    && claimed(old(self)@, final (self)@, ff, p as int, size as int, align as int)
                    && alloc_splice(
                    old(self)@,
                    final (self)@,
                    ff,
                    need_for(ff, size as int, align as int),
                ))
                &&& (r is Ok ==> forall|i: int|
                    0 <= i < old(self)@.len() && !alloc_writes(old(self)@, ff, i) ==> final (
                    self)@[i] == old(self)@[i])
                &&& (list_wf(old(self)@) ==> r != Err::<usize, AllocError>(AllocError::Corrupted))
            }),
    {
        let len = self.arena.len();
        if !check_pow2(align) {
            return Err(AllocError::InvalidCall);
        }
        if size > len - ARENA_OVERHEAD {
            return Err(AllocError::InvalidCall);
        }
        if align > len {
            proof {
                lemma_first_fit_none_when_align_large(
                    self@,
                    head_of(self@),
                    size as int,
                    align as int,
                );
            }
            return Err(AllocError::OutOfMemory);
        }
        let h = self.head();
        if h == 0 {
            return Err(AllocError::OutOfMemory);
        }
        let ghost a0 = self@;
        let ghost ff = first_fit(a0, h as int, size as int, align as int);
        let mut c: usize = h;
        loop
            invariant
                self.wf(),
                self@ == a0,
                a0 == old(self)@,
                len == self@.len(),
                1 <= c,
                is_pow2(align as int),
                1 <= align <= len,
                size + ARENA_OVERHEAD <= len,
                ff == first_fit(a0, c as int, size as int, align as int),
                ff == first_fit(a0, head_of(a0), size as int, align as int),
                list_wf(a0) ==> wf_from(a0, c as int),
            decreases len - c,
        {
            if c < 8 || c > len - 9 {
                return Err(AllocError::Corrupted);
            }
            if !self.check_free_cell(c) {
                return Err(AllocError::Corrupted);
            }
            let sz = self.cell_size(c);
            let pad = Self::compute_pad(c, align);
            let need0 = size + pad;
            let need = if need0 < LINK_BYTES {
                LINK_BYTES
            } else {
                need0
            };
            assert(need == need_for(c as int, size as int, align as int));
            if sz >= need {
                assert(ff == c);
                self.shrink(c, need);
                let ghost s1 = self@;
                self.claim(c);
                let mut i: usize = 1;
                let ghost mid = self@;
                while i <= pad
                    invariant
                        self.wf(),
                        self@.len() == mid.len() == len,
                        1 <= i <= pad + 1,
                        8 <= c,
                        c + pad + 1 <= len,
                        forall|j: int| c < j < c + i ==> self@[j] == 0,
                        forall|j: int| 0 <= j < len && !(c < j < c + i) ==> self@[j] == mid[j],
                    decreases pad + 1 - i,
                {
                    self.arena.set(c + i, 0);
                    i = i + 1;
                }
                proof {
                    lemma_pad_aligns(c as int, align as int);
                    assert forall|j: int|
                        0 <= j < len && !alloc_writes(a0, c as int, j) implies self@[j] == a0[j] by {
                        if cell_size_of(a0, c as int) >= need + MIN_SPLIT {
                            assert(!shrink_writes(a0, c as int, need as int, j));
                        }
                        assert(s1[j] == a0[j]);
                        assert(!claim_writes(s1, c as int, j));
                        assert(mid[j] == s1[j]);
                        assert(self@[j] == mid[j]);
                    }
                    assert(alloc_splice(a0, self@, c as int, need as int));
                }
                return Ok(c + pad + 1);
            }
            let nx = self.cell_next(c);
            if nx == 0 {
                return Err(AllocError::OutOfMemory);
            }
            proof {
                if list_wf(a0) {
                    assert(wf_from(a0, c as int));
                    assert(wf_from(a0, c + nx));
                }
            }
            c = c + nx;
        }
    }

    /// Like [`Heap::allocate`], and additionally clears every payload byte,
    /// so all `size` bytes at the returned offset read zero.
    #[verifier::rlimit(100)]
    pub fn allocate_zeroed(&mut self, size: usize, align: usize) -> (r: Result<usize, AllocError>)
        requires
            old(self).wf(),
        ensures
            final (self).wf(),
            final (self)@.len() == old(self)@.len(),
            r is Err ==> final (self)@ == old(self)@,
            r == Err::<usize, AllocError>(AllocError::InvalidCall) <==> (!is_pow2(align as int)
                || size + ARENA_OVERHEAD > old(self)@.len()),
            (is_pow2(align as int) && size + ARENA_OVERHEAD <= old(self)@.len()) ==> ({
                let ff = first_fit(old(self)@, head_of(old(self)@), size as int, align as int);
                &&& ((r == Err::<usize, AllocError>(AllocError::OutOfMemory) || r == Err::<
                    usize,
                    AllocError,
                >(AllocError::Corrupted)) <==> ff == -1)
                &&& (r matches Ok(p) ==> ff != -1 && p == ff + 1 + pad_for(ff, align as int)
                    && claimed(old(self)@, final (self)@, ff, p as int, size as int, align as int)
                    && alloc_splice(
                    old(self)@,
                    final (self)@,
                    ff,
                    need_for(ff, size as int, align as int),
                ))
                &&& (r is Ok ==> forall|i: int|
                    0 <= i < old(self)@.len() && !alloc_writes(old(self)@, ff, i) ==> final (
                    self)@[i] == old(self)@[i])
                &&& (list_wf(old(self)@) ==> r != Err::<usize, AllocError>(AllocError::Corrupted))
            }),
            r matches Ok(p) ==> forall|i: int| p <= i < p + size ==> final (self)@[i] == 0,
    {
        let len = self.arena.len();
        match self.allocate(size, align) {
            Ok(p) => {
                let ghost mid = self@;
                let mut i: usize = 0;
                while i < size
                    invariant
                        self.wf(),
                        self@.len() == mid.len() == len,
                        i <= size,
                        p + size <= len,
                        forall|j: int| p <= j < p + i ==> self@[j] == 0,
                        forall|j: int| 0 <= j < len && !(p <= j < p + i) ==> self@[j] == mid[j],
                    decreases size - i,
                {
                    self.arena.set(p + i, 0);
                    i = i + 1;
                }
                proof {
                    let a0 = old(self)@;
                    let ffi = first_fit(a0, head_of(a0), size as int, align as int);
                    assert(claimed(a0, mid, ffi, p as int, size as int, align as int));
                    assert forall|j: int| ffi < j < p implies self@[j] == 0 by {
                        assert(self@[j] == mid[j]);
                    }
                    assert(claimed(a0, self@, ffi, p as int, size as int, align as int));
                    assert forall|j: int|
                        0 <= j < len && !alloc_writes(a0, ffi, j) implies self@[j] == a0[j] by {
                        assert(mid[j] == a0[j]);
                        assert(!(p <= j < p + size));
                        assert(self@[j] == mid[j]);
                    }
                    let nd = need_for(ffi, size as int, align as int);
                    assert(alloc_splice(a0, mid, ffi, nd));
                    assert(free_cell_at(a0, ffi)) by {
                        assert(first_fit(a0, head_of(a0), size as int, align as int) != -1);
                        lemma_first_fit_is_free(a0, head_of(a0), size as int, align as int);
                    }
                    lemma_alloc_splice_frame(a0, mid, self@, ffi, nd, p as int, p + size);
                }
                Ok(p)
            },
            Err(e) => Err(e),
        }
    }

    /// Returns the allocation whose payload starts at `p` to the free pool:
    /// recovers the cell's flag by backward scan, clears it, splices the
    /// cell into the free list at its address-ordered place, and coalesces
    /// with any adjacent free neighbour. Rejections ([`dealloc_invalid`])
    /// leave the arena untouched; on the states of [`dealloc_settles`]
    /// success is owed and the splice is pinned word for word
    /// ([`dealloc_splice`]); on any success the writes stay within the
    /// surviving coalesced cell, the link words of the cell's two list
    /// neighbours, and the arena head. A pointer that was never returned by
    /// this allocator, or was freed already, is otherwise the caller's
    /// contract broken, and what the scan resolves it to decides what
    /// happens — detected inconsistencies fail fast.
    #[verifier::rlimit(100)]
    pub fn deallocate(&mut self, p: usize) -> (r: Result<(), AllocError>)
        requires
            old(self).wf(),
        ensures
            final (self).wf(),
            final (self)@.len() == old(self)@.len(),
            r == Err::<(), AllocError>(AllocError::InvalidCall) <==> dealloc_invalid(
                old(self)@,
                p as int,
            ),
            r == Err::<(), AllocError>(AllocError::InvalidCall) ==> final (self)@ == old(self)@,
            dealloc_settles(old(self)@, p as int) ==> r is Ok && dealloc_splice(
                old(self)@,
                final (self)@,
                p as int,
            ),
            r is Ok ==> ({
                let cp = scan_back(old(self)@, p - 1);
                let pc = pred_cell(old(self)@, cp);
                &&& 8 <= cp < p
                &&& flag_of(old(self)@, cp) == 1
                &&& flag_of(final (self)@, cp) == 0
                &&& head_of(final (self)@) != 0
                &&& pc != -2
                &&& exists|c: int|
                    #![trigger cell_size_of(final (self)@, c)]
                    {
                        &&& 8 <= c <= cp
                        &&& cp + cell_size_of(old(self)@, cp) <= c + cell_size_of(
                            final (self)@,
                            c,
                        )
                        &&& c + cell_size_of(final (self)@, c) < final (self)@.len()
                        &&& no_adjacent_neighbor(final (self)@, c)
                        &&& forall|i: int|
                            0 <= i < final (self)@.len() && !(0 <= i < 4) && !(c - 4 <= i <= c
                                + cell_size_of(final (self)@, c)) && !(next_of(final (self)@, c)
                                != 0 && c + next_of(final (self)@, c) + 1 <= i < c + next_of(
                                final (self)@,
                                c,
                            ) + 5) && !(pc >= 0 && pc + 5 <= i < pc + 9) && !(pc >= 0 && next_of(
                                old(self)@,
                                pc,
                            ) != 0 && pc + next_of(old(self)@, pc) + 1 <= i < pc + next_of(
                                old(self)@,
                                pc,
                            ) + 5) && !(pc == -1 && head_of(old(self)@) != 0 && head_of(old(self)@)
                                + 1 <= i < head_of(old(self)@) + 5) ==> final (self)@[i] == old(
                                self,
                            )@[i]
                    }
            }),
    {
        let len = self.arena.len();
        if p < 9 || p > len {
            return Err(AllocError::InvalidCall);
        }
        let cp = match self.find_claim_point(p) {
            Some(c) => c,
            None => { return Err(AllocError::InvalidCall) },
        };
        let sz = read_word(&self.arena, cp - 4);
        if sz < 8 || sz >= len - cp {
            return Err(AllocError::Corrupted);
        }
        let pred = match self.locate_predecessor(cp) {
            Ok(x) => x,
            Err(e) => { return Err(e) },
        };
        match pred {
            Some(pc) => {
                let nx = self.cell_next(pc);
                if cp - pc < MERGE_THRESHOLD {
                    return Err(AllocError::InvalidCall);
                }
                if nx == 0 {
                    self.arena.set(cp, 0);
                    self.link_pair(pc, cp);
                    write_word(&mut self.arena, cp + 5, 0);
                } else {
                    let sc = pc + nx;
                    if sc == cp || sc - cp < MERGE_THRESHOLD {
                        return Err(AllocError::InvalidCall);
                    }
                    self.arena.set(cp, 0);
                    self.link_pair(pc, cp);
                    self.link_pair(cp, sc);
                }
            },
            None => {
                let h = self.head();
                if h == 0 {
                    self.arena.set(cp, 0);
                    write_word(&mut self.arena, 0, cp);
                    write_word(&mut self.arena, cp + 1, 0);
                    write_word(&mut self.arena, cp + 5, 0);
                } else {
                    if h == cp || h - cp < MERGE_THRESHOLD {
                        return Err(AllocError::InvalidCall);
                    }
                    self.arena.set(cp, 0);
                    write_word(&mut self.arena, 0, cp);
                    write_word(&mut self.arena, cp + 1, 0);
                    self.link_pair(cp, h);
                }
            },
        }
        let ghost spliced = self@;
        proof {
            assert(cell_size_of(spliced, cp as int) == cell_size_of(old(self)@, cp as int));
            if dealloc_settles(old(self)@, p as int) {
                assert(clean_stop(spliced, cp as int));
            }
        }
        match self.coalesce(cp) {
            Ok(c) => {
                proof {
                    let a0 = old(self)@;
                    let a1 = self@;
                    let pcs = pred_cell(a0, cp as int);
                    assert(8 <= c <= cp && cp + cell_size_of(a0, cp as int) <= c + cell_size_of(
                        a1,
                        c as int,
                    ) && no_adjacent_neighbor(a1, c as int));
                    assert forall|i: int|
                        0 <= i < a1.len() && !(0 <= i < 4) && !(c - 4 <= i <= c + cell_size_of(
                            a1,
                            c as int,
                        )) && !(next_of(a1, c as int) != 0 && c + next_of(a1, c as int) + 1 <= i < c
                            + next_of(a1, c as int) + 5) && !(pcs >= 0 && pcs + 5 <= i < pcs + 9)
                            && !(pcs >= 0 && next_of(a0, pcs) != 0 && pcs + next_of(a0, pcs) + 1
                            <= i < pcs + next_of(a0, pcs) + 5) && !(pcs == -1 && head_of(a0) != 0
                            && head_of(a0) + 1 <= i < head_of(a0) + 5) implies a1[i] == a0[i] by {
                        assert(spliced[i] == a0[i]);
                        assert(a1[i] == spliced[i]);
                    }
                }
                Ok(())
            },
            Err(e) => Err(e),
        }
    }

    /// Resizes the allocation whose payload starts at `p` to `new_size`
    /// bytes. A cell that already provides `new_size` is returned as it is,
    /// payload untouched — there is no shrink-on-reallocate. Otherwise, when
    /// the cell right after it is free and large enough, the missing
    /// capacity is claimed from it and the cell grows in place, still at
    /// `p`. Otherwise a fresh cell is allocated at `align`, the first
    /// `min(old_size, new_size)` payload bytes are copied, and the old cell
    /// is freed — the allocation coming first, so a failure there leaves the
    /// original block untouched.
    #[verifier::rlimit(100)]
    pub fn reallocate(&mut self, p: usize, old_size: usize, align: usize, new_size: usize) -> (r:
        Result<usize, AllocError>)
        requires
            old(self).wf(),
        ensures
            final (self).wf(),
            final (self)@.len() == old(self)@.len(),
            r == Err::<usize, AllocError>(AllocError::InvalidCall) <==> realloc_invalid(
                old(self)@,
                p as int,
                old_size as int,
                align as int,
                new_size as int,
            ),
            (r == Err::<usize, AllocError>(AllocError::InvalidCall) || r == Err::<
                usize,
                AllocError,
            >(AllocError::OutOfMemory)) ==> final (self)@ == old(self)@,
            ({
                let a0 = old(self)@;
                let a1 = final (self)@;
                let cp = scan_back(a0, p - 1);
                let sz = cell_size_of(a0, cp);
                let sane = (8 <= sz && cp + sz < a0.len());
                let valid = !realloc_invalid(
                    a0,
                    p as int,
                    old_size as int,
                    align as int,
                    new_size as int,
                );
                &&& ((valid && sane && new_size <= sz) ==> (r == Ok::<usize, AllocError>(p) && a1
                    == a0))
                &&& ((valid && sane && new_size > sz && grow_ok(a0, cp, new_size as int)) ==> {
                    &&& r == Ok::<usize, AllocError>(p)
                    &&& flag_of(a1, cp) == 1
                    &&& new_size <= cell_size_of(a1, cp)
                    &&& cp + 1 + cell_size_of(a1, cp) <= a1.len()
                    &&& (forall|i: int| cp < i <= cp + sz ==> a1[i] == a0[i])
                })
                &&& ({
                    let fb = valid && sane && new_size > sz && !grow_ok(a0, cp, new_size as int);
                    let ff2 = first_fit(a0, head_of(a0), new_size as int, align as int);
                    &&& (r == Err::<usize, AllocError>(AllocError::OutOfMemory) ==> fb && ff2 == -1)
                    &&& (fb ==> (r matches Ok(q) ==> ff2 != -1 && q == ff2 + 1 + pad_for(
                        ff2,
                        align as int,
                    )))
                    &&& ((fb && list_wf(a0) && ff2 != -1) ==> (r is Ok || r == Err::<
                        usize,
                        AllocError,
                    >(AllocError::Corrupted)))
                })
            }),
            r matches Ok(q) ==> (q == p || q as int % align as int == 0),
    {
        let len = self.arena.len();
        if !check_pow2(align) {
            return Err(AllocError::InvalidCall);
        }
        if new_size > len - ARENA_OVERHEAD {
            return Err(AllocError::InvalidCall);
        }
        if p < 9 || p > len {
            return Err(AllocError::InvalidCall);
        }
        let cp = match self.find_claim_point(p) {
            Some(c) => c,
            None => { return Err(AllocError::InvalidCall) },
        };
        let sz = read_word(&self.arena, cp - 4);
        if sz < 8 || sz >= len - cp {
            return Err(AllocError::Corrupted);
        }
        let keep = if old_size < new_size {
            old_size
        } else {
            new_size
        };
        if p + keep > cp + 1 + sz {
            return Err(AllocError::InvalidCall);
        }
        if new_size <= sz {
            return Ok(p);
        }
        let mn = cp + sz + 5;
        if mn + 9 <= len && self.check_free_cell(mn) {
            let szm = read_word(&self.arena, mn - 4);
            let prm = read_word(&self.arena, mn + 1);
            let d0 = new_size - sz;
            let delta = if d0 < LINK_BYTES {
                LINK_BYTES
            } else {
                d0
            };
            if (prm == 0 || mn + MERGE_THRESHOLD <= cp + prm) && szm >= delta {
                self.shrink(mn, delta);
                self.claim(mn);
                let got = read_word(&self.arena, mn - 4);
                write_word(&mut self.arena, cp - 4, sz + 5 + got);
                return Ok(p);
            }
        }
        match self.allocate(new_size, align) {
            Ok(n) => {
                let ghost mid = self@;
                let mut i: usize = 0;
                while i < keep
                    invariant
                        self.wf(),
                        len == self@.len(),
                        i <= keep,
                        p + keep <= len,
                        n + keep <= len,
                    decreases keep - i,
                {
                    let b = self.arena[p + i];
                    self.arena.set(n + i, b);
                    i = i + 1;
                }
                match self.deallocate(p) {
                    Ok(_) => Ok(n),
                    Err(_) => Err(AllocError::Corrupted),
                }
            },
            Err(e) => Err(e),
        }
    }
}

/// What allocation does to the free list at the chosen cell `c`, which must
/// provide `need` payload bytes. When the leftover can stand alone, the
/// cell's size becomes exactly `need` and the remainder becomes a free cell
/// right behind it, taking the chosen cell's place in the list — links and
/// head repaired on both sides. Otherwise the whole cell leaves the list,
/// its two neighbours (or the head) joined directly.
pub open spec fn alloc_splice(a0: Seq<u8>, a1: Seq<u8>, c: int, need: int) -> bool {
    let pr = prev_of(a0, c);
    let nx = next_of(a0, c);
    let split = cell_size_of(a0, c) >= need + MIN_SPLIT;
    let nc = c + need + 5;
    &&& cell_size_of(a1, c) == (if split {
        need
    } else {
        cell_size_of(a0, c)
    })
    &&& (split ==> {
        &&& flag_of(a1, nc) == 0
        &&& cell_size_of(a1, nc) == cell_size_of(a0, c) - need - 5
        &&& prev_of(a1, nc) == (if pr == 0 {
            0int
        } else {
            pr + need + 5
        })
        &&& next_of(a1, nc) == (if nx == 0 {
            0int
        } else {
            nx - need - 5
        })
        &&& (pr != 0 ==> next_of(a1, c - pr) == pr + need + 5 && head_of(a1) == head_of(a0))
        &&& (pr == 0 ==> head_of(a1) == nc)
        &&& (nx != 0 ==> prev_of(a1, c + nx) == nx - need - 5)
    })
    &&& (!split ==> {
        &&& (pr != 0 && nx != 0 ==> next_of(a1, c - pr) == pr + nx && prev_of(a1, c + nx) == pr
            + nx && head_of(a1) == head_of(a0))
        &&& (pr != 0 && nx == 0 ==> next_of(a1, c - pr) == 0 && head_of(a1) == head_of(a0))
        &&& (pr == 0 && nx != 0 ==> head_of(a1) == c + nx && prev_of(a1, c + nx) == 0)
        &&& (pr == 0 && nx == 0 ==> head_of(a1) == 0)
    })
}

/// The splice facts of [`alloc_splice`] survive writes confined to the
/// claimed cell's payload: every word they speak of lies outside it.
#[verifier::rlimit(100)]
proof fn lemma_alloc_splice_frame(
    a0: Seq<u8>,
    a1: Seq<u8>,
    a2: Seq<u8>,
    c: int,
    need: int,
    lo: int,
    hi: int,
)
    requires
        alloc_splice(a0, a1, c, need),
        8 <= need,
        free_cell_at(a0, c),
        a1.len() == a0.len(),
        a2.len() == a1.len(),
        forall|i: int| 0 <= i < a1.len() && !(lo <= i < hi) ==> a2[i] == a1[i],
        c < lo,
        hi <= c + 1 + need,
        hi <= c + 1 + cell_size_of(a1, c),
        c + 1 + cell_size_of(a1, c) <= a1.len(),
    ensures
        alloc_splice(a0, a2, c, need),
{
    assert(cell_size_of(a2, c) == cell_size_of(a1, c));
    let nc = c + need + 5;
    if cell_size_of(a0, c) >= need + MIN_SPLIT {
        assert(nc + 9 <= a1.len()) by {
            assert(c + cell_size_of(a0, c) < a1.len());
            assert(need + MIN_SPLIT <= cell_size_of(a0, c));
        }
        assert(flag_of(a2, nc) == flag_of(a1, nc));
        assert(cell_size_of(a2, nc) == cell_size_of(a1, nc));
        assert(prev_of(a2, nc) == prev_of(a1, nc));
        assert(next_of(a2, nc) == next_of(a1, nc));
    }
    assert(head_of(a2) == head_of(a1));
    if prev_of(a0, c) != 0 {
        assert(next_of(a2, c - prev_of(a0, c)) == next_of(a1, c - prev_of(a0, c)));
    }
    if next_of(a0, c) != 0 {
        assert(prev_of(a2, c + next_of(a0, c)) == prev_of(a1, c + next_of(a0, c)));
    }
}

/// The inputs on which [`Heap::deallocate`] reports the caller's contract
/// broken: a pointer outside the arena or that no scan resolves, or — with
/// the resolved cell's size sane and the predecessor search succeeding — a
/// cell sitting closer to a list neighbour than a whole smallest cell, the
/// mark of a double free or a pointer into another cell's span.
pub open spec fn dealloc_invalid(a: Seq<u8>, p: int) -> bool {
    ||| p < 9
    ||| p > a.len()
    ||| scan_back(a, p - 1) == -1
    ||| ({
        let cp = scan_back(a, p - 1);
        let sz = cell_size_of(a, cp);
        let pc = pred_cell(a, cp);
        &&& 8 <= sz
        &&& cp + sz < a.len()
        &&& pc != -2
        &&& (if pc >= 0 {
            cp - pc < 13 || (next_of(a, pc) != 0 && pc + next_of(a, pc) - cp < 13)
        } else {
            head_of(a) != 0 && head_of(a) - cp < 13
        })
    })
}

/// The states on which [`Heap::deallocate`] owes success: the pointer
/// resolves to a sane cell, the predecessor search succeeds, and the cell
/// sits strictly between its list neighbours with at least a merge
/// threshold of slack on both sides, so the splice and the (then idle)
/// coalescing pass every check. On states needing an actual merge, success
/// additionally depends on the neighbours' own bookkeeping, which this
/// predicate does not reach.
pub open spec fn dealloc_settles(a: Seq<u8>, p: int) -> bool {
    let cp = scan_back(a, p - 1);
    let sz = cell_size_of(a, cp);
    let pc = pred_cell(a, cp);
    &&& 9 <= p <= a.len()
    &&& cp != -1
    &&& 8 <= sz
    &&& cp + sz < a.len()
    &&& pc != -2
    &&& (pc >= 0 ==> {
        &&& pc + cell_size_of(a, pc) + 18 <= cp
        &&& (next_of(a, pc) != 0 ==> cp + sz + 18 <= pc + next_of(a, pc))
    })
    &&& ((pc == -1 && head_of(a) != 0) ==> cp + sz + 18 <= head_of(a))
}

/// What deallocation does to the free list when no merge is called for: the
/// resolved cell keeps its size, its flag clears, and it takes its
/// address-ordered place between its neighbours (or becomes the head), both
/// links set and mirrored.
pub open spec fn dealloc_splice(a0: Seq<u8>, a1: Seq<u8>, p: int) -> bool {
    let cp = scan_back(a0, p - 1);
    let pc = pred_cell(a0, cp);
    let nxpc = next_of(a0, pc);
    let h = head_of(a0);
    &&& flag_of(a1, cp) == 0
    &&& cell_size_of(a1, cp) == cell_size_of(a0, cp)
    &&& (pc >= 0 ==> {
        &&& next_of(a1, pc) == cp - pc
        &&& prev_of(a1, cp) == cp - pc
        &&& next_of(a1, cp) == (if nxpc == 0 {
            0int
        } else {
            pc + nxpc - cp
        })
        &&& (nxpc != 0 ==> prev_of(a1, pc + nxpc) == pc + nxpc - cp)
        &&& head_of(a1) == head_of(a0)
    })
    &&& (pc == -1 ==> {
        &&& head_of(a1) == cp
        &&& prev_of(a1, cp) == 0
        &&& next_of(a1, cp) == (if h == 0 {
            0int
        } else {
            h - cp
        })
        &&& (h != 0 ==> prev_of(a1, h) == h - cp)
    })
}

/// The inputs on which [`Heap::reallocate`] reports the caller's contract
/// broken: a bad alignment or size, a pointer outside the arena or that no
/// scan resolves, or a claimed current size reaching past the resolved cell.
pub open spec fn realloc_invalid(
    a: Seq<u8>,
    p: int,
    old_size: int,
    align: int,
    new_size: int,
) -> bool {
    ||| !is_pow2(align)
    ||| new_size + 9 > a.len()
    ||| p < 9
    ||| p > a.len()
    ||| scan_back(a, p - 1) == -1
    ||| ({
        let cp = scan_back(a, p - 1);
        let sz = cell_size_of(a, cp);
        let keep = if old_size < new_size {
            old_size
        } else {
            new_size
        };
        8 <= sz && cp + sz < a.len() && p + keep > cp + 1 + sz
    })
}

/// Whether `a` is a power of two, by halving while even.
fn check_pow2(a: usize) -> (r: bool)
    ensures
        r == is_pow2(a as int),
{
    if a == 0 {
        return false;
    }
    let mut x: usize = a;
    while x > 1 && x % 2 == 0
        invariant
            1 <= x,
            is_pow2(a as int) == is_pow2(x as int),
        decreases x,
    {
        assert(is_pow2(x as int) == is_pow2(x as int / 2));
        x = x / 2;
    }
    x == 1
}

/// The byte offsets [`Heap::merge`] may write: the size word and forward
/// link of `low`, and the backward link word of `high`'s old successor.
spec fn merge_writes(a: Seq<u8>, low: int, high: int, i: int) -> bool {
    let nxh = next_of(a, high);
    ||| (low - 4 <= i < low)
    ||| (low + 5 <= i < low + 9)
    ||| (nxh != 0 && high + nxh + 1 <= i < high + nxh + 5)
}

/// The byte offsets [`Heap::claim`] may write: the flag, the forward link
/// word of the predecessor, the backward link word of the successor, and
/// the arena head word when the cell was first in the list.
spec fn claim_writes(a: Seq<u8>, c: int, i: int) -> bool {
    let pr = prev_of(a, c);
    let nx = next_of(a, c);
    ||| i == c
    ||| (pr != 0 && c - pr + 5 <= i < c - pr + 9)
    ||| (nx != 0 && c + nx + 1 <= i < c + nx + 5)
    ||| (pr == 0 && 0 <= i < 4)
}

/// The byte offsets [`Heap::shrink`] may write when it splits: the size
/// word and forward link of `c`, the whole header and links of the new
/// cell, and the backward link word of the old successor.
spec fn shrink_writes(a: Seq<u8>, c: int, carve: int, i: int) -> bool {
    let nx = next_of(a, c);
    let nc = c + carve + 5;
    ||| (c - 4 <= i < c)
    ||| (c + 5 <= i < c + 9)
    ||| (nc - 4 <= i < nc + 9)
    ||| (nx != 0 && c + nx + 1 <= i < c + nx + 5)
}

} // verus!
