//! The poker statistic: the bits are cut into groups of four, the values of
//! the groups are tallied, and the tallies are held against a uniform
//! distribution by a chi-square statistic.
//!
//! For `k` groups with tallies `n_0 .. n_15` the statistic is
//! `(16 / k) * (n_0^2 + .. + n_15^2) - k`. It is compared with its bounds in
//! exact arithmetic: `k` times the statistic is the integer
//! `16 * (n_0^2 + .. + n_15^2) - k^2`.

use vstd::prelude::*;
use crate::bits::{bits_of, read_bit};

verus! {

/// Number of bits in a group.
pub const M: usize = 4;

/// Number of values that a group can take.
pub const GROUP_VALUES: usize = 16;

/// Lower bound of the statistic, in hundredths: 1.03.
pub const LOWER_BOUND_XI3_HUNDREDTHS: u64 = 103;

/// Upper bound of the statistic, in tenths: 57.4.
pub const UPPER_BOUND_XI3_TENTHS: u64 = 574;

/// A bit as a number.
pub open spec fn bit_value(bit: bool) -> int {
    if bit {
        1
    } else {
        0
    }
}

/// The value of the `len` bits from index `start`, the first bit in the
/// most significant place.
pub open spec fn bits_value(s: Seq<bool>, start: int, len: nat) -> int
    decreases len,
{
    if len == 0 {
        0
    } else {
        2 * bits_value(s, start, (len - 1) as nat) + bit_value(s[start + len - 1])
    }
}

/// The value of group `g`: its four bits, the first in the most significant
/// place.
pub open spec fn group_value(s: Seq<bool>, g: int) -> int {
    8 * bit_value(s[4 * g]) + 4 * bit_value(s[4 * g + 1]) + 2 * bit_value(s[4 * g + 2])
        + bit_value(s[4 * g + 3])
}

/// Number of groups with value `value` among the first `groups` groups.
pub open spec fn group_count(s: Seq<bool>, groups: int, value: int) -> nat
    decreases groups,
{
    if groups <= 0 {
        0
    } else {
        group_count(s, groups - 1, value) + if group_value(s, groups - 1) == value {
            1nat
        } else {
            0nat
        }
    }
}

/// The tallies of the sixteen values over all the full groups of `s`.
pub open spec fn group_histogram(s: Seq<bool>) -> Seq<nat> {
    Seq::new(GROUP_VALUES as nat, |value: int| group_count(s, s.len() as int / 4, value))
}

/// The sum of the squares of `counts`.
pub open spec fn square_sum(counts: Seq<nat>) -> nat
    decreases counts.len(),
{
    if counts.len() == 0 {
        0
    } else {
        square_sum(counts.drop_last()) + counts.last() * counts.last()
    }
}

/// Whether the statistic of `groups` groups, whose tallies have the sum of
/// squares `square_total`, lies within its bounds: with
/// `x = (16 / groups) * square_total - groups`, whether `1.03 <= x <= 57.4`.
pub open spec fn chi_square_accepts(square_total: int, groups: int) -> bool {
    &&& groups > 0
    &&& LOWER_BOUND_XI3_HUNDREDTHS * groups <= 100 * (16 * square_total - groups * groups)
    &&& 10 * (16 * square_total - groups * groups) <= UPPER_BOUND_XI3_TENTHS * groups
}

/// Whether the bits of `s` pass the poker test.
pub open spec fn poker_accepts(s: Seq<bool>) -> bool {
    chi_square_accepts(square_sum(group_histogram(s)) as int, s.len() as int / 4)
}

/// The tallies of a vector as natural numbers.
pub open spec fn tallies_of(counts: Seq<u64>) -> Seq<nat> {
    counts.map_values(|c: u64| c as nat)
}

/// The four bits of a group, read one after the other, give its value.
pub proof fn lemma_group_value_is_bits_value(s: Seq<bool>, g: int)
    ensures
        group_value(s, g) == bits_value(s, 4 * g, 4),
        0 <= group_value(s, g) < GROUP_VALUES,
{
    reveal_with_fuel(bits_value, 5);
}

/// A value is found in no more groups than there are.
pub proof fn lemma_group_count_bounded(s: Seq<bool>, groups: int, value: int)
    ensures
        group_count(s, groups, value) <= if groups <= 0 { 0 } else { groups },
    decreases groups,
{
    if groups > 0 {
        lemma_group_count_bounded(s, groups - 1, value);
    }
}

/// The sum of the squares of the first counts is no more than that of all.
pub proof fn lemma_square_sum_prefix(counts: Seq<nat>, len: int)
    requires
        0 <= len <= counts.len(),
    ensures
        square_sum(counts.take(len)) <= square_sum(counts),
    decreases counts.len(),
{
    if len == counts.len() {
        assert(counts.take(len) =~= counts);
    } else {
        assert(counts.drop_last().take(len) =~= counts.take(len));
        lemma_square_sum_prefix(counts.drop_last(), len);
    }
}

/// Where no count is above `bound`, the sum of the squares is no more than
/// that of as many counts of `bound`.
pub proof fn lemma_square_sum_bounded(counts: Seq<nat>, bound: nat)
    requires
        forall|i: int| 0 <= i < counts.len() ==> counts[i] <= bound,
    ensures
        square_sum(counts) <= counts.len() * (bound * bound),
    decreases counts.len(),
{
    if counts.len() > 0 {
        lemma_square_sum_bounded(counts.drop_last(), bound);
        let last = counts.last();
        assert(last * last <= bound * bound) by (nonlinear_arith)
            requires
                last <= bound,
        ;
        assert(counts.len() * (bound * bound) == (counts.len() - 1) * (bound * bound) + bound
            * bound) by (nonlinear_arith);
    }
}

/// Tallies the values of the groups of four bits among the first `n` bits
/// of `blocks`.
pub fn group_tallies(blocks: &Vec<u32>, n: usize) -> (counts: Vec<u64>)
    requires
        n <= 32 * blocks.len(),
        n % M == 0,
    ensures
        tallies_of(counts@) == group_histogram(bits_of(blocks@, n as nat)),
{
    let ghost s = bits_of(blocks@, n as nat);
    let mut sequence_count: Vec<u64> = vec![0u64; 16];
    let mut cur_pokker_block: usize = 0;
    let mut cur_pokker_block_len: usize = 0;
    let mut i: usize = 0;
    while i < n
        invariant
            i <= n,
            n <= 32 * blocks.len(),
            n % 4 == 0,
            s == bits_of(blocks@, n as nat),
            cur_pokker_block_len == i % 4,
            cur_pokker_block == bits_value(
                s,
                i - cur_pokker_block_len,
                cur_pokker_block_len as nat,
            ),
            sequence_count@.len() == GROUP_VALUES,
            forall|value: int|
                0 <= value < GROUP_VALUES ==> sequence_count@[value] == group_count(
                    s,
                    i as int / 4,
                    value,
                ),
        decreases n - i,
    {
        let bit = read_bit(blocks, i);
        assert(bit == s[i as int]);
        let ghost group: int = i as int / 4;
        let ghost partial: usize = cur_pokker_block;
        proof {
            reveal_with_fuel(bits_value, 5);
        }
        let bit_number: usize = if bit { 1 } else { 0 };
        cur_pokker_block = (cur_pokker_block << 1) | bit_number;
        proof {
            assert(cur_pokker_block == 2 * partial + bit_number) by (bit_vector)
                requires
                    cur_pokker_block == (partial << 1) | bit_number,
                    partial < 8,
                    bit_number <= 1,
            ;
        }
        cur_pokker_block_len = cur_pokker_block_len + 1;
        if cur_pokker_block_len == M {
            proof {
                lemma_group_value_is_bits_value(s, group);
                lemma_group_count_bounded(s, group, cur_pokker_block as int);
            }
            let tally: u64 = sequence_count[cur_pokker_block];
            sequence_count.set(cur_pokker_block, tally + 1);
            cur_pokker_block = 0;
            cur_pokker_block_len = 0;
        }
        i = i + 1;
    }
    sequence_count
}

/// Adds up the squares of the tallies.
pub fn sum_of_squares(counts: &Vec<u64>) -> (sum: u64)
    requires
        square_sum(tallies_of(counts@)) <= u64::MAX,
    ensures
        sum == square_sum(tallies_of(counts@)),
{
    let ghost all = tallies_of(counts@);
    let mut sum: u64 = 0;
    let mut i: usize = 0;
    while i < counts.len()
        invariant
            i <= counts@.len(),
            all == tallies_of(counts@),
            square_sum(all) <= u64::MAX,
            sum == square_sum(all.take(i as int)),
        decreases counts@.len() - i,
    {
        let n_i: u64 = counts[i];
        proof {
            lemma_square_sum_prefix(all, i + 1);
            assert(all.take(i + 1).drop_last() =~= all.take(i as int));
        }
        sum = sum + n_i * n_i;
        i = i + 1;
    }
    assert(all.take(counts@.len() as int) =~= all);
    sum
}

/// Whether the statistic of `groups` groups, whose tallies have the sum of
/// squares `square_total`, lies within its bounds.
pub fn chi_square_within_bounds(square_total: u64, groups: u64) -> (ok: bool)
    ensures
        ok == chi_square_accepts(square_total as int, groups as int),
{
    if groups == 0 {
        return false;
    }
    let scaled_total: u128 = 16 * (square_total as u128);
    assert(groups * groups <= 0xFFFF_FFFF_FFFF_FFFF * 0xFFFF_FFFF_FFFF_FFFF) by (nonlinear_arith)
        requires
            groups <= 0xFFFF_FFFF_FFFF_FFFF,
    ;
    let expected: u128 = (groups as u128) * (groups as u128);
    if scaled_total < expected {
        return false;
    }
    let excess: u128 = scaled_total - expected;
    assert(LOWER_BOUND_XI3_HUNDREDTHS * groups <= 103 * 0xFFFF_FFFF_FFFF_FFFF
        && UPPER_BOUND_XI3_TENTHS * groups <= 574 * 0xFFFF_FFFF_FFFF_FFFF) by (nonlinear_arith)
        requires
            LOWER_BOUND_XI3_HUNDREDTHS == 103,
            UPPER_BOUND_XI3_TENTHS == 574,
            groups <= 0xFFFF_FFFF_FFFF_FFFF,
    ;
    let lower: u128 = (LOWER_BOUND_XI3_HUNDREDTHS as u128) * (groups as u128);
    let upper: u128 = (UPPER_BOUND_XI3_TENTHS as u128) * (groups as u128);
    lower <= 100 * excess && 10 * excess <= upper
}

} // verus!
