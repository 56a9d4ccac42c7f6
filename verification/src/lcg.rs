//! The linear congruential recurrence behind the generator, and the way its
//! states are turned into bytes and blocks.

use vstd::prelude::*;

verus! {

/// State from which the generator starts.
pub const SEED: u64 = 871246;

/// Multiplier of the recurrence.
pub const MULTIPLIER: u64 = 134775813;

/// Increment of the recurrence.
pub const INCREMENT: u64 = 1;

/// Modulus of the recurrence, `2^32`.
pub const MODULUS: u64 = 0x1_0000_0000;

/// One step of the recurrence: `(MULTIPLIER * state + INCREMENT) mod 2^32`.
pub open spec fn lcg_next(state: int) -> int {
    (MULTIPLIER * state + INCREMENT) % (MODULUS as int)
}

/// The state reached from `seed` after `steps` steps.
pub open spec fn state_after(seed: int, steps: nat) -> int
    decreases steps,
{
    if steps == 0 {
        seed
    } else {
        lcg_next(state_after(seed, (steps - 1) as nat))
    }
}

/// The byte that a state emits: its bits 16 to 23.
pub open spec fn emitted_byte(state: int) -> int {
    (state / 0x1_0000) % 0x100
}

/// The block built from the four states that follow `seed`: one byte from
/// each, the first in the most significant place.
pub open spec fn block_after(seed: int) -> int {
    emitted_byte(state_after(seed, 1)) * 0x100_0000 + emitted_byte(state_after(seed, 2))
        * 0x1_0000 + emitted_byte(state_after(seed, 3)) * 0x100 + emitted_byte(
        state_after(seed, 4),
    )
}

/// The value of the first `count` bytes emitted after `seed`, read as one
/// number with the first byte in the most significant place.
pub open spec fn packed_bytes(seed: int, count: nat) -> int
    decreases count,
{
    if count == 0 {
        0
    } else {
        packed_bytes(seed, (count - 1) as nat) * 0x100 + emitted_byte(state_after(seed, count))
    }
}

/// An emitted byte is a byte.
pub proof fn lemma_emitted_byte_range(state: int)
    ensures
        0 <= emitted_byte(state) < 0x100,
{
}

/// Steps compose: `b` steps after `a` steps are `a + b` steps.
pub proof fn lemma_state_after_add(seed: int, a: nat, b: nat)
    ensures
        state_after(state_after(seed, a), b) == state_after(seed, a + b),
    decreases b,
{
    if b > 0 {
        lemma_state_after_add(seed, a, (b - 1) as nat);
    }
}

/// The first `count` bytes, packed, fit in `count` bytes.
pub proof fn lemma_packed_bytes_range(seed: int, count: nat)
    requires
        count <= 4,
    ensures
        0 <= packed_bytes(seed, count),
        count <= 3 ==> packed_bytes(seed, count) < 0x100_0000,
        packed_bytes(seed, count) <= u32::MAX,
{
    reveal_with_fuel(packed_bytes, 5);
    lemma_emitted_byte_range(state_after(seed, 1));
    lemma_emitted_byte_range(state_after(seed, 2));
    lemma_emitted_byte_range(state_after(seed, 3));
    lemma_emitted_byte_range(state_after(seed, 4));
}

/// A block is the packing of its four bytes.
pub proof fn lemma_block_is_packed(seed: int)
    ensures
        block_after(seed) == packed_bytes(seed, 4),
        0 <= block_after(seed) <= u32::MAX,
{
    reveal_with_fuel(packed_bytes, 5);
    lemma_emitted_byte_range(state_after(seed, 1));
    lemma_emitted_byte_range(state_after(seed, 2));
    lemma_emitted_byte_range(state_after(seed, 3));
    lemma_emitted_byte_range(state_after(seed, 4));
}

/// The byte that a state emits is made of its bits 16 to 23, unchanged.
pub proof fn lemma_emitted_byte_is_bits_16_to_23(state: u64)
    ensures
        emitted_byte(state as int) == (state >> 16) & 0xFF,
{
    assert((state / 0x1_0000) % 0x100 == (state >> 16) & 0xFF) by (bit_vector);
}

/// Folding the bits above the eighth into the low byte leaves a byte as it
/// is.
pub proof fn lemma_fold_keeps_byte(b: u32)
    requires
        b < 0x100,
    ensures
        (b >> 8) ^ (b & 0xFF) == b,
{
    assert(b < 0x100 ==> (b >> 8) ^ (b & 0xFF) == b) by (bit_vector);
}

} // verus!
