//! The bit generator: 20,000 bits drawn once from a fixed seed.

use vstd::prelude::*;
use crate::bits::{bits_of, read_bit};
use crate::monobit::{
    count_set_bits, monobit_accepts, LOWER_BOUND_MONO_BIT_TEST, UPPER_BOUND_MONO_BIT_TEST,
};
use crate::poker::{
    chi_square_within_bounds, group_histogram, group_tallies,
    lemma_group_count_bounded, lemma_square_sum_bounded, poker_accepts, sum_of_squares,
    tallies_of, M,
};
use crate::run_lengths::{run_counts_within_bounds, run_length_histogram, run_lengths_accept};
use crate::runs::{longest_run_accepts, longest_run_within, MAX_POSSIBLE_SEQUENCE_LEN};
use crate::lcg::{
    block_after, emitted_byte, lcg_next, lemma_block_is_packed,
    lemma_emitted_byte_is_bits_16_to_23, lemma_emitted_byte_range,
    lemma_fold_keeps_byte, lemma_packed_bytes_range, lemma_state_after_add, packed_bytes, state_after, INCREMENT, MODULUS,
    MULTIPLIER, SEED,
};

verus! {

/// Number of bits that a generator holds.
pub const BITS_COUNT: usize = 20_000;

/// Number of 32-bit blocks that hold them.
pub const BLOCK_COUNT: usize = 625;

/// The block at place `k` of the generated sequence: the one built from the
/// four states that follow the first `4 * k` steps from the seed.
pub open spec fn generated_block(k: nat) -> u32 {
    block_after(state_after(SEED as int, 4 * k)) as u32
}

/// The blocks that every generator holds.
pub open spec fn generated_blocks() -> Seq<u32> {
    Seq::new(BLOCK_COUNT as nat, |k: int| generated_block(k as nat))
}

/// The bits that every generator holds.
pub open spec fn generated_bits() -> Seq<bool> {
    bits_of(generated_blocks(), BITS_COUNT as nat)
}

/// A fixed sequence of `BITS_COUNT` pseudo-random bits.
pub struct RandomBits {
    bits: Vec<u32>,
}

impl View for RandomBits {
    type V = Seq<bool>;

    /// The logical bits, in the order of their indices.
    open spec fn view(&self) -> Seq<bool> {
        bits_of(self.blocks(), BITS_COUNT as nat)
    }
}

impl RandomBits {
    /// The blocks in which the bits are packed.
    pub closed spec fn blocks(&self) -> Seq<u32> {
        self.bits@
    }

    #[verifier::type_invariant]
    spec fn well_formed(&self) -> bool {
        self.bits@.len() == BLOCK_COUNT
    }

    /// Generates the sequence from the fixed seed.
    pub fn new() -> (generated: RandomBits)
        ensures
            generated.blocks() == generated_blocks(),
            generated@ == generated_bits(),
            generated@.len() == BITS_COUNT,
    {
        let mut bits: Vec<u32> = Vec::with_capacity(BLOCK_COUNT);
        let mut seed: u64 = SEED;
        let mut k: usize = 0;
        while k < BLOCK_COUNT
            invariant
                k <= BLOCK_COUNT,
                bits@.len() == k,
                seed == state_after(SEED as int, 4 * (k as nat)),
                seed < MODULUS,
                forall|j: int| 0 <= j < k ==> bits@[j] == generated_block(j as nat),
            decreases BLOCK_COUNT - k,
        {
            proof {
                lemma_state_after_add(SEED as int, 4 * (k as nat), 4);
                lemma_block_is_packed(seed as int);
            }
            let block = Self::get_next_random_block(&mut seed);
            bits.push(block);
            k = k + 1;
        }
        RandomBits { bits }
    }

    /// Advances the state `x` by four steps and returns the block made of
    /// the four bytes emitted on the way, the first in the most significant
    /// place. Each byte is bits 16 to 23 of the state after its step.
    pub fn get_next_random_block(x: &mut u64) -> (block: u32)
        requires
            MULTIPLIER * *old(x) + INCREMENT <= u64::MAX,
        ensures
            *final(x) == state_after(*old(x) as int, 4),
            block == block_after(*old(x) as int),
    {
        let ghost seed: int = *x as int;
        let mut block: u32 = 0;
        let mut round: u32 = 0;
        while round < 4
            invariant
                round <= 4,
                *x == state_after(seed, round as nat),
                MULTIPLIER * *x + INCREMENT <= u64::MAX,
                block == packed_bytes(seed, round as nat),
                round < 4 ==> block < 0x100_0000,
            decreases 4 - round,
        {
            let ghost before: u64 = *x;
            let ghost packed: u32 = block;
            *x = MULTIPLIER * (*x) + INCREMENT;
            let ghost scaled: u64 = *x;
            *x &= u32::MAX as u64;
            block <<= 8;
            let candidate: u64 = (*x >> 16) & 0xFF;
            proof {
                let state: u64 = *x;
                assert(state == scaled % 0x1_0000_0000) by (bit_vector)
                    requires
                        state == scaled & 0xFFFF_FFFF,
                ;
                lemma_emitted_byte_is_bits_16_to_23(state);
                lemma_emitted_byte_range(state as int);
            }
            let b: u32 = candidate as u32;
            let byte: u32 = (b >> 8) ^ (b & 0xFF);
            block |= byte;
            proof {
                lemma_fold_keeps_byte(b);
                assert(block == packed * 0x100 + byte) by (bit_vector)
                    requires
                        block == (packed << 8) | byte,
                        packed < 0x100_0000,
                        byte < 0x100,
                ;
                lemma_packed_bytes_range(seed, (round + 1) as nat);
            }
            round = round + 1;
        }
        proof {
            lemma_block_is_packed(seed);
        }
        block
    }

    /// Reads the bit at logical index `idx`.
    #[inline]
    pub fn get_bit(&self, idx: usize) -> (bit: bool)
        requires
            idx < BITS_COUNT,
        ensures
            bit == self@[idx as int],
    {
        proof {
            use_type_invariant(self);
        }
        read_bit(&self.bits, idx)
    }

    /// The monobit test: whether the number of ones lies within its bounds.
    pub fn mono_bit_test(&self) -> (ok: bool)
        ensures
            ok == monobit_accepts(self@),
    {
        proof {
            use_type_invariant(self);
        }
        let one_count = count_set_bits(&self.bits);
        LOWER_BOUND_MONO_BIT_TEST <= one_count && one_count <= UPPER_BOUND_MONO_BIT_TEST
    }

    /// The longest-run test: whether no run of ones or of zeros is longer
    /// than the limit.
    pub fn max_sequence_len_test(&self) -> (ok: bool)
        ensures
            ok == longest_run_accepts(self@),
    {
        proof {
            use_type_invariant(self);
        }
        longest_run_within(&self.bits, BITS_COUNT, MAX_POSSIBLE_SEQUENCE_LEN)
    }

    /// The poker test: whether the chi-square statistic of the tallies of
    /// the four-bit groups lies within its bounds.
    pub fn pokker_test(&self) -> (ok: bool)
        ensures
            ok == poker_accepts(self@),
    {
        proof {
            use_type_invariant(self);
        }
        assert(BITS_COUNT % M == 0);
        let k: usize = BITS_COUNT / M;
        let sequence_count = group_tallies(&self.bits, BITS_COUNT);
        proof {
            let tallies = tallies_of(sequence_count@);
            assert(tallies == group_histogram(self@));
            assert forall|value: int| 0 <= value < tallies.len() implies tallies[value]
                <= k as nat by {
                lemma_group_count_bounded(self@, k as int, value);
            }
            lemma_square_sum_bounded(tallies, k as nat);
        }
        let sum = sum_of_squares(&sequence_count);
        chi_square_within_bounds(sum, k as u64)
    }

    /// The test of the distribution of run lengths: whether the number of
    /// closed runs of ones of each bucket lies within its bounds.
    pub fn sequence_len_test(&self) -> (ok: bool)
        ensures
            ok == run_lengths_accept(self@),
    {
        proof {
            use_type_invariant(self);
        }
        let sequence_len_count = run_length_histogram(&self.bits, BITS_COUNT);
        run_counts_within_bounds(&sequence_len_count)
    }
}

/// Generation is deterministic: two generators made by `RandomBits::new`
/// hold the same blocks and the same bits.
pub proof fn lemma_generation_is_deterministic(a: RandomBits, b: RandomBits)
    requires
        a.blocks() == generated_blocks(),
        b.blocks() == generated_blocks(),
    ensures
        a.blocks() == b.blocks(),
        a@ == b@,
{
}

/// A generator made by `RandomBits::new` holds exactly `BITS_COUNT` bits,
/// in `BLOCK_COUNT` full blocks.
pub proof fn lemma_generated_length(a: RandomBits)
    requires
        a.blocks() == generated_blocks(),
    ensures
        a@.len() == BITS_COUNT,
        a.blocks().len() == BLOCK_COUNT,
        32 * a.blocks().len() == BITS_COUNT,
{
}

} // verus!
