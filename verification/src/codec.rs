//! Reading and writing the arena's big-endian header words.
//!
//! Stateless: each function touches exactly the four bytes of one word and
//! its contract says so byte for byte. Callers supply a valid position; the
//! allocator checks its own bookkeeping before it gets here.

use crate::layout::word_at;
use vstd::arithmetic::div_mod::{lemma_div_denominator, lemma_fundamental_div_mod, lemma_mod_bound};
use vstd::prelude::*;

verus! {

/// A word splits into its four big-endian bytes and reassembles exactly.
proof fn lemma_word_bytes(v: int)
    requires
        0 <= v < 0x1_0000_0000,
    ensures
        (v / 0x100_0000) * 0x100_0000 + ((v / 0x1_0000) % 0x100) * 0x1_0000 + ((v / 0x100) % 0x100)
            * 0x100 + (v % 0x100) == v,
        0 <= v / 0x100_0000 < 0x100,
{
    lemma_fundamental_div_mod(v, 0x100);
    lemma_fundamental_div_mod(v / 0x100, 0x100);
    lemma_fundamental_div_mod(v / 0x1_0000, 0x100);
    lemma_div_denominator(v, 0x100, 0x100);
    lemma_div_denominator(v, 0x1_0000, 0x100);
    assert(v / 0x100 / 0x100 == v / 0x1_0000);
    assert(v / 0x1_0000 / 0x100 == v / 0x100_0000);
    assert(v == 0x100 * (v / 0x100) + v % 0x100);
    assert(v / 0x100 == 0x100 * (v / 0x1_0000) + (v / 0x100) % 0x100);
    assert(v / 0x1_0000 == 0x100 * (v / 0x100_0000) + (v / 0x1_0000) % 0x100);
    lemma_mod_bound(v, 0x100);
    lemma_mod_bound(v / 0x100, 0x100);
    lemma_mod_bound(v / 0x1_0000, 0x100);
    assert(0x100 * (0x100 * (0x100 * (v / 0x100_0000) + (v / 0x1_0000) % 0x100) + (v / 0x100)
        % 0x100) == (v / 0x100_0000) * 0x100_0000 + ((v / 0x1_0000) % 0x100) * 0x1_0000 + ((v
        / 0x100) % 0x100) * 0x100) by (nonlinear_arith);
    assert(v / 0x100_0000 >= 0) by {
        vstd::arithmetic::div_mod::lemma_div_pos_is_pos(v, 0x100_0000);
    }
    assert(v / 0x100_0000 < 0x100) by {
        vstd::arithmetic::div_mod::lemma_multiply_divide_lt(v, 0x100_0000, 0x100);
        assert(0x100_0000 * 0x100 == 0x1_0000_0000) by (nonlinear_arith);
    }
}

/// Reads the big-endian word at `at .. at + 4`.
pub fn read_word(a: &Vec<u8>, at: usize) -> (r: usize)
    requires
        at + 4 <= a@.len(),
    ensures
        r == word_at(a@, at as int),
{
    let n: usize = a.len();
    assert(at + 4 <= n);
    let b0 = a[at] as usize;
    let b1 = a[at + 1] as usize;
    let b2 = a[at + 2] as usize;
    let b3 = a[at + 3] as usize;
    b0 * 0x100_0000 + b1 * 0x1_0000 + b2 * 0x100 + b3
}

/// Writes `v` as the big-endian word at `at .. at + 4`, touching those four
/// bytes and no others.
pub fn write_word(a: &mut Vec<u8>, at: usize, v: usize)
    requires
        at + 4 <= old(a)@.len(),
        v < 0x1_0000_0000,
    ensures
        final (a)@.len() == old(a)@.len(),
        word_at(final (a)@, at as int) == v,
        forall|i: int|
            0 <= i < final (a)@.len() && !(at <= i < at + 4) ==> final (a)@[i] == old(a)@[i],
{
    proof {
        lemma_word_bytes(v as int);
        lemma_mod_bound(v as int / 0x1_0000, 0x100);
        lemma_mod_bound(v as int / 0x100, 0x100);
        lemma_mod_bound(v as int, 0x100);
    }
    let n: usize = a.len();
    assert(at + 4 <= n);
    let b0 = v / 0x100_0000;
    let b1 = (v / 0x1_0000) % 0x100;
    let b2 = (v / 0x100) % 0x100;
    let b3 = v % 0x100;
    a.set(at, b0 as u8);
    a.set(at + 1, b1 as u8);
    a.set(at + 2, b2 as u8);
    a.set(at + 3, b3 as u8);
}

} // verus!
