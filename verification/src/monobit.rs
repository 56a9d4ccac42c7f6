//! The frequency statistic: how many bits of a sequence are set.

use vstd::prelude::*;
use crate::bits::{bits_of, block_bits, lemma_bits_of_push};

verus! {

/// Least accepted number of ones among 20,000 bits.
pub const LOWER_BOUND_MONO_BIT_TEST: usize = 9654;

/// Greatest accepted number of ones among 20,000 bits.
pub const UPPER_BOUND_MONO_BIT_TEST: usize = 10346;

/// Number of `true` elements of `s`.
pub open spec fn ones_in(s: Seq<bool>) -> nat
    decreases s.len(),
{
    if s.len() == 0 {
        0
    } else {
        ones_in(s.drop_last()) + if s.last() { 1nat } else { 0nat }
    }
}

/// Whether the number of ones of `s` lies within the bounds of the monobit
/// test, both included.
pub open spec fn monobit_accepts(s: Seq<bool>) -> bool {
    LOWER_BOUND_MONO_BIT_TEST <= ones_in(s) <= UPPER_BOUND_MONO_BIT_TEST
}

/// A sequence holds no more ones than elements.
pub proof fn lemma_ones_in_bounded(s: Seq<bool>)
    ensures
        ones_in(s) <= s.len(),
    decreases s.len(),
{
    if s.len() > 0 {
        lemma_ones_in_bounded(s.drop_last());
    }
}

/// The ones of a concatenation are the ones of its two parts.
pub proof fn lemma_ones_in_concat(a: Seq<bool>, b: Seq<bool>)
    ensures
        ones_in(a + b) == ones_in(a) + ones_in(b),
    decreases b.len(),
{
    if b.len() > 0 {
        assert((a + b).drop_last() =~= a + b.drop_last());
        lemma_ones_in_concat(a, b.drop_last());
    }
}

/// `u32::count_ones` of the standard library, which Verus does not verify:
/// the result is taken to be the number of one bits in the binary
/// representation of the block, as the method's documentation says.
pub assume_specification[ u32::count_ones ](block: u32) -> (ones: u32)
    ensures
        ones == ones_in(block_bits(block)),
;

/// Counts the set bits of all the blocks.
pub fn count_set_bits(blocks: &Vec<u32>) -> (total: usize)
    requires
        32 * blocks.len() <= usize::MAX,
    ensures
        total == ones_in(bits_of(blocks@, 32 * blocks@.len())),
{
    let mut total: usize = 0;
    let mut k: usize = 0;
    while k < blocks.len()
        invariant
            k <= blocks.len(),
            32 * blocks.len() <= usize::MAX,
            total == ones_in(bits_of(blocks@, 32 * (k as nat))),
            total <= 32 * k,
        decreases blocks.len() - k,
    {
        let ones: u32 = blocks[k].count_ones();
        proof {
            lemma_bits_of_push(blocks@, k as nat);
            lemma_ones_in_concat(bits_of(blocks@, 32 * (k as nat)), block_bits(blocks@[k as int]));
            lemma_ones_in_bounded(block_bits(blocks@[k as int]));
        }
        total = total + ones as usize;
        k = k + 1;
    }
    total
}

} // verus!
