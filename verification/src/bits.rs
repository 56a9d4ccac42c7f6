//! Bits packed into 32-bit blocks, least significant bit first.

use vstd::prelude::*;

verus! {

/// The bit of `block` at position `pos`, counted from the least significant
/// bit.
pub open spec fn block_bit(block: u32, pos: u32) -> bool {
    (block >> pos) & 1 == 1
}

/// The 32 bits of one block as a sequence, least significant bit first.
pub open spec fn block_bits(block: u32) -> Seq<bool> {
    Seq::new(32, |k: int| block_bit(block, k as u32))
}

/// The bit at logical index `i`: it lives in block `i / 32`, at position
/// `i % 32`.
pub open spec fn bit_at(blocks: Seq<u32>, i: int) -> bool {
    block_bit(blocks[i / 32], (i % 32) as u32)
}

/// The first `n` logical bits of a sequence of blocks.
pub open spec fn bits_of(blocks: Seq<u32>, n: nat) -> Seq<bool> {
    Seq::new(n, |i: int| bit_at(blocks, i))
}

/// All the bits of `blocks` are the bits of its blocks, one block after the
/// other.
pub proof fn lemma_bits_of_push(blocks: Seq<u32>, k: nat)
    requires
        k < blocks.len(),
    ensures
        bits_of(blocks, 32 * (k + 1)) == bits_of(blocks, 32 * k) + block_bits(blocks[k as int]),
{
    assert(bits_of(blocks, 32 * (k + 1)) =~= bits_of(blocks, 32 * k) + block_bits(
        blocks[k as int],
    ));
}

/// Reads the bit at logical index `idx`.
pub fn read_bit(blocks: &Vec<u32>, idx: usize) -> (bit: bool)
    requires
        idx < 32 * blocks.len(),
    ensures
        bit == bit_at(blocks@, idx as int),
{
    let block_index: usize = idx >> 5;
    let pos: usize = idx & 0b11111;
    proof {
        assert(idx >> 5 == idx / 32) by (bit_vector);
        assert(idx & 0b11111 == idx % 32) by (bit_vector);
    }
    let block: u32 = blocks[block_index];
    proof {
        let p: u32 = pos as u32;
        assert((block >> pos) == (block >> p)) by (bit_vector)
            requires
                pos < 32,
                p == pos as u32,
        ;
    }
    ((block >> pos) & 1) == 1
}

} // verus!
