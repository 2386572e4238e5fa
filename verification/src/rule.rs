//! The rule evaluator: one step of an elementary cellular automaton.
//!
//! A rule is a byte `r`; the next value of a cell is bit `l*4 + c*2 + rt` of
//! `r`, where `l`, `c`, `rt` are the current values of the cell's left
//! neighbor, the cell itself, and its right neighbor. Cells are kept one per
//! 32-bit word; only the low bit of a word carries the cell value.
use vstd::prelude::*;

verus! {

/// The neighborhood index selected by the three cell words (low bits).
pub open spec fn spec_neighborhood(l: u32, c: u32, rt: u32) -> u8 {
    ((l & 1) * 4 + (c & 1) * 2 + (rt & 1)) as u8
}

/// The next value of a cell: bit `l*4 + c*2 + rt` of the rule byte,
/// as a cell word (0 or 1).
pub open spec fn spec_next(r: u8, l: u32, c: u32, rt: u32) -> u32 {
    ((r >> spec_neighborhood(l, c, rt)) & 1) as u32
}

/// A cell word is 0 or 1 exactly when it denotes a single cell.
pub open spec fn is_bit(w: u32) -> bool {
    w == 0 || w == 1
}

/// Evaluate the rule on one three-cell neighborhood.
pub fn next(r: u8, l: u32, c: u32, rt: u32) -> (out: u32)
    ensures
        out == spec_next(r, l, c, rt),
        is_bit(out),
{
    proof {
        assert((l & 1) < 2 && (c & 1) < 2 && (rt & 1) < 2) by (bit_vector);
    }
    let idx: u8 = ((l & 1) * 4 + (c & 1) * 2 + (rt & 1)) as u8;
    proof {
        assert(((r >> idx) & 1) < 2) by (bit_vector);
    }
    ((r >> idx) & 1) as u32
}

/// The result of `next` is always defined and is the stated bit of the rule
/// byte, for every rule and every combination of neighbor bits.
pub proof fn lemma_rule_correct(r: u8, l: u32, c: u32, rt: u32)
    requires
        is_bit(l),
        is_bit(c),
        is_bit(rt),
    ensures
        spec_next(r, l, c, rt) == ((r >> ((l * 4 + c * 2 + rt) as u8)) & 1),
        is_bit(spec_next(r, l, c, rt)),
{
    assert(l & 1 == l && c & 1 == c && rt & 1 == rt) by (bit_vector)
        requires l < 2 && c < 2 && rt < 2;
    assert(((r >> ((l * 4 + c * 2 + rt) as u8)) & 1) < 2) by (bit_vector);
}

} // verus!
