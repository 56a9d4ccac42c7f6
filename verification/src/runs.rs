//! Runs: stretches of equal bits, of ones or of zeros, and the longest of
//! them.

use vstd::prelude::*;
use crate::bits::{bits_of, read_bit};

verus! {

/// Greatest accepted length of a run.
pub const MAX_POSSIBLE_SEQUENCE_LEN: usize = 36;

/// `from..to` lies within `s` and holds equal bits only.
pub open spec fn is_run(s: Seq<bool>, from: int, to: int) -> bool {
    &&& 0 <= from <= to <= s.len()
    &&& forall|k: int| from <= k < to ==> s[k] == s[from]
}

/// No run of `s` is longer than `limit`.
pub open spec fn runs_within(s: Seq<bool>, limit: int) -> bool {
    forall|from: int, to: int| is_run(s, from, to) ==> to - from <= limit
}

/// Whether `s` passes the longest-run test: no run of ones or of zeros is
/// longer than `MAX_POSSIBLE_SEQUENCE_LEN`.
pub open spec fn longest_run_accepts(s: Seq<bool>) -> bool {
    runs_within(s, MAX_POSSIBLE_SEQUENCE_LEN as int)
}

/// `len` is the length of a longest run of `s`.
pub open spec fn is_longest_run(s: Seq<bool>, len: int) -> bool {
    &&& runs_within(s, len)
    &&& exists|from: int, to: int| is_run(s, from, to) && to - from == len
}

/// The `len` bits before index `i` are all `bit`, and the bit before them,
/// if there is one, is not.
pub open spec fn stretch_before(s: Seq<bool>, i: int, bit: bool, len: int) -> bool {
    &&& 0 <= len <= i
    &&& forall|k: int| i - len <= k < i ==> s[k] == bit
    &&& i - len == 0 || s[i - len - 1] != bit
}

/// A sequence has one length of a longest run only.
pub proof fn lemma_longest_run_is_unique(s: Seq<bool>, a: int, b: int)
    requires
        is_longest_run(s, a),
        is_longest_run(s, b),
    ensures
        a == b,
{
}

/// No run is longer than `limit` exactly where the longest run is not.
pub proof fn lemma_runs_within_longest(s: Seq<bool>, longest: int, limit: int)
    requires
        is_longest_run(s, longest),
    ensures
        runs_within(s, limit) <==> longest <= limit,
{
}

/// The larger of two lengths.
fn larger(a: usize, b: usize) -> (m: usize)
    ensures
        m == if a >= b { a } else { b },
{
    if a >= b {
        a
    } else {
        b
    }
}

/// Length of the longest run, of ones or of zeros, among the first `n` bits
/// of `blocks`.
pub fn longest_run(blocks: &Vec<u32>, n: usize) -> (longest: usize)
    requires
        n <= 32 * blocks.len(),
    ensures
        is_longest_run(bits_of(blocks@, n as nat), longest as int),
{
    let ghost s = bits_of(blocks@, n as nat);
    let mut one_sequence_len: usize = 0;
    let mut zero_sequence_len: usize = 0;
    let mut max_sequence_len: usize = 0;
    let ghost mut best_from: int = 0;
    let ghost mut best_to: int = 0;
    let mut i: usize = 0;
    while i < n
        invariant
            i <= n,
            n <= 32 * blocks.len(),
            s == bits_of(blocks@, n as nat),
            stretch_before(s, i as int, true, one_sequence_len as int),
            stretch_before(s, i as int, false, zero_sequence_len as int),
            is_run(s, best_from, best_to),
            best_to - best_from == max_sequence_len,
            forall|from: int, to: int|
                is_run(s, from, to) && to <= i ==> to - from <= max_sequence_len || to - from
                    <= one_sequence_len || to - from <= zero_sequence_len,
        decreases n - i,
    {
        let bit = read_bit(blocks, i);
        let ghost one_before = one_sequence_len as int;
        let ghost zero_before = zero_sequence_len as int;
        let ghost max_before = max_sequence_len as int;
        if bit {
            one_sequence_len = one_sequence_len + 1;
            proof {
                if zero_sequence_len > max_sequence_len {
                    best_from = i - zero_sequence_len;
                    best_to = i as int;
                }
            }
            max_sequence_len = larger(max_sequence_len, zero_sequence_len);
            zero_sequence_len = 0;
        } else {
            zero_sequence_len = zero_sequence_len + 1;
            proof {
                if one_sequence_len > max_sequence_len {
                    best_from = i - one_sequence_len;
                    best_to = i as int;
                }
            }
            max_sequence_len = larger(max_sequence_len, one_sequence_len);
            one_sequence_len = 0;
        }
        proof {
            assert forall|from: int, to: int| is_run(s, from, to) && to <= i + 1 implies to - from
                <= max_sequence_len || to - from <= one_sequence_len || to - from
                <= zero_sequence_len by {
                if to == i + 1 && from < to {
                    assert(s[i as int] == s[from]);
                    let grown = if bit { one_before } else { zero_before };
                    if from < i - grown {
                        assert(s[i - grown - 1] == s[from]);
                    }
                } else if to <= i {
                    assert(to - from <= max_before || to - from <= one_before || to - from
                        <= zero_before);
                }
            }
        }
        i = i + 1;
    }
    proof {
        if one_sequence_len > max_sequence_len && one_sequence_len >= zero_sequence_len {
            best_from = n - one_sequence_len;
            best_to = n as int;
        } else if zero_sequence_len > max_sequence_len {
            best_from = n - zero_sequence_len;
            best_to = n as int;
        }
    }
    max_sequence_len = larger(max_sequence_len, larger(one_sequence_len, zero_sequence_len));
    assert(is_run(s, best_from, best_to) && best_to - best_from == max_sequence_len);
    max_sequence_len
}

/// Whether no run among the first `n` bits of `blocks` is longer than
/// `limit`.
pub fn longest_run_within(blocks: &Vec<u32>, n: usize, limit: usize) -> (ok: bool)
    requires
        n <= 32 * blocks.len(),
    ensures
        ok == runs_within(bits_of(blocks@, n as nat), limit as int),
{
    let longest = longest_run(blocks, n);
    proof {
        lemma_runs_within_longest(bits_of(blocks@, n as nat), longest as int, limit as int);
    }
    longest <= limit
}

} // verus!
