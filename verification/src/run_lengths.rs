//! The distribution of the lengths of the runs of ones.
//!
//! A run of ones is counted where a zero closes it. Runs of one to five
//! bits have a bucket each, and all longer runs share the last bucket. A
//! run that reaches the end of the sequence is closed by nothing, and is
//! not counted.

use vstd::prelude::*;
use crate::bits::{bits_of, read_bit};

verus! {

/// Number of buckets of the distribution.
pub const SEQUENCE_LEN_COUNT_SIZE: usize = 6;

/// Least accepted count of each bucket.
pub const LOWER_SEQUENCE_LEN_COUNT: [usize; 6] = [2267, 1079, 502, 223, 90, 90];

/// Greatest accepted count of each bucket.
pub const UPPER_SEQUENCE_LEN_COUNT: [usize; 6] = [2733, 1421, 748, 402, 223, 223];

/// Length of the stretch of ones that ends just before index `i`.
pub open spec fn ones_before(s: Seq<bool>, i: int) -> nat
    decreases i,
{
    if i <= 0 || !s[i - 1] {
        0
    } else {
        1 + ones_before(s, i - 1)
    }
}

/// The bucket, counted from zero, of a run of `len` ones: runs of
/// `SEQUENCE_LEN_COUNT_SIZE` bits or more share the last one.
pub open spec fn bucket_of(len: nat) -> int {
    if len >= SEQUENCE_LEN_COUNT_SIZE {
        SEQUENCE_LEN_COUNT_SIZE - 1
    } else {
        len - 1
    }
}

/// The bit at index `i` is a zero that closes a run of ones of bucket
/// `bucket`.
pub open spec fn closes_run(s: Seq<bool>, i: int, bucket: int) -> bool {
    &&& 0 <= i < s.len()
    &&& !s[i]
    &&& ones_before(s, i) > 0
    &&& bucket_of(ones_before(s, i)) == bucket
}

/// Number of runs of bucket `bucket` that are closed within the first
/// `upto` bits of `s`.
pub open spec fn closed_runs(s: Seq<bool>, upto: int, bucket: int) -> nat
    decreases upto,
{
    if upto <= 0 {
        0
    } else {
        closed_runs(s, upto - 1, bucket) + if closes_run(s, upto - 1, bucket) {
            1nat
        } else {
            0nat
        }
    }
}

/// The distribution of `s`: for each bucket, the number of closed runs.
pub open spec fn run_histogram(s: Seq<bool>) -> Seq<nat> {
    Seq::new(SEQUENCE_LEN_COUNT_SIZE as nat, |bucket: int| closed_runs(s, s.len() as int, bucket))
}

/// `counts` has one count for each bucket, and each lies within the bounds
/// of its bucket, both included.
pub open spec fn run_counts_accepted(counts: Seq<nat>) -> bool {
    &&& counts.len() == SEQUENCE_LEN_COUNT_SIZE
    &&& forall|bucket: int|
        0 <= bucket < SEQUENCE_LEN_COUNT_SIZE ==> LOWER_SEQUENCE_LEN_COUNT[bucket]
            <= #[trigger] counts[bucket] <= UPPER_SEQUENCE_LEN_COUNT[bucket]
}

/// Whether `s` passes the test of the distribution of run lengths.
pub open spec fn run_lengths_accept(s: Seq<bool>) -> bool {
    run_counts_accepted(run_histogram(s))
}

/// The counts of a vector as natural numbers.
pub open spec fn counts_of(counts: Seq<usize>) -> Seq<nat> {
    counts.map_values(|c: usize| c as nat)
}

/// No more runs are closed within `upto` bits than there are bits.
pub proof fn lemma_closed_runs_bounded(s: Seq<bool>, upto: int, bucket: int)
    ensures
        closed_runs(s, upto, bucket) <= if upto <= 0 { 0 } else { upto },
    decreases upto,
{
    if upto > 0 {
        lemma_closed_runs_bounded(s, upto - 1, bucket);
    }
}

/// The stretch of ones before an index depends on no bit from that index
/// on.
pub proof fn lemma_ones_before_prefix(s: Seq<bool>, t: Seq<bool>, i: int)
    requires
        i <= s.len(),
    ensures
        ones_before(s + t, i) == ones_before(s, i),
    decreases i,
{
    if i > 0 {
        lemma_ones_before_prefix(s, t, i - 1);
    }
}

/// The runs closed within the first bits depend on no later bit.
pub proof fn lemma_closed_runs_prefix(s: Seq<bool>, t: Seq<bool>, upto: int, bucket: int)
    requires
        upto <= s.len(),
    ensures
        closed_runs(s + t, upto, bucket) == closed_runs(s, upto, bucket),
    decreases upto,
{
    if upto > 0 {
        lemma_closed_runs_prefix(s, t, upto - 1, bucket);
        lemma_ones_before_prefix(s, t, upto - 1);
    }
}

/// Among ones that follow `s`, no run is closed.
proof fn lemma_no_run_closed_among_ones(s: Seq<bool>, t: Seq<bool>, upto: int, bucket: int)
    requires
        forall|k: int| 0 <= k < t.len() ==> t[k],
        s.len() <= upto <= s.len() + t.len(),
    ensures
        closed_runs(s + t, upto, bucket) == closed_runs(s + t, s.len() as int, bucket),
    decreases upto - s.len(),
{
    if upto > s.len() {
        lemma_no_run_closed_among_ones(s, t, upto - 1, bucket);
    }
}

/// After a zero, or at the start, a stretch of `len` ones has length `len`.
proof fn lemma_ones_before_after_ones(s: Seq<bool>, len: nat, j: nat)
    requires
        s.len() == 0 || !s.last(),
        j <= len,
    ensures
        ones_before(s + Seq::new(len, |k: int| true), (s.len() + j) as int) == j,
    decreases j,
{
    if j > 0 {
        lemma_ones_before_after_ones(s, len, (j - 1) as nat);
    }
}

/// A run of ones that reaches the end of the sequence is not counted:
/// ones added at the end of `s` leave its distribution as it is.
pub proof fn lemma_trailing_ones_not_counted(s: Seq<bool>, t: Seq<bool>)
    requires
        forall|k: int| 0 <= k < t.len() ==> t[k],
    ensures
        run_histogram(s + t) == run_histogram(s),
{
    assert forall|bucket: int| 0 <= bucket < SEQUENCE_LEN_COUNT_SIZE implies closed_runs(
        s + t,
        (s + t).len() as int,
        bucket,
    ) == closed_runs(s, s.len() as int, bucket) by {
        lemma_no_run_closed_among_ones(s, t, (s + t).len() as int, bucket);
        lemma_closed_runs_prefix(s, t, s.len() as int, bucket);
    }
}

/// A run of `len` ones that follows a zero, or the start of the sequence,
/// and that a zero closes, is counted once, in the bucket of its length:
/// a run of `SEQUENCE_LEN_COUNT_SIZE` bits or more in the last bucket.
pub proof fn lemma_closed_run_counted_once(s: Seq<bool>, len: nat)
    requires
        s.len() == 0 || !s.last(),
        len >= 1,
    ensures
        0 <= bucket_of(len) < SEQUENCE_LEN_COUNT_SIZE,
        len >= SEQUENCE_LEN_COUNT_SIZE ==> bucket_of(len) == SEQUENCE_LEN_COUNT_SIZE - 1,
        run_histogram(s + Seq::new(len, |k: int| true) + seq![false]) == run_histogram(s).update(
            bucket_of(len),
            run_histogram(s)[bucket_of(len)] + 1,
        ),
{
    let run = Seq::new(len, |k: int| true);
    let open = s + run;
    let closed = open + seq![false];
    let end = open.len() as int;
    lemma_ones_before_after_ones(s, len, len);
    lemma_ones_before_prefix(open, seq![false], end);
    lemma_trailing_ones_not_counted(s, run);
    assert forall|bucket: int| 0 <= bucket < SEQUENCE_LEN_COUNT_SIZE implies closed_runs(
        closed,
        closed.len() as int,
        bucket,
    ) == closed_runs(s, s.len() as int, bucket) + if bucket == bucket_of(len) {
        1nat
    } else {
        0nat
    } by {
        lemma_closed_runs_prefix(open, seq![false], end, bucket);
        assert(run_histogram(open)[bucket] == run_histogram(s)[bucket]);
    }
    assert(run_histogram(closed) =~= run_histogram(s).update(
        bucket_of(len),
        run_histogram(s)[bucket_of(len)] + 1,
    ));
}

/// Tallies the closed runs of ones among the first `n` bits of `blocks`.
pub fn run_length_histogram(blocks: &Vec<u32>, n: usize) -> (counts: Vec<usize>)
    requires
        n <= 32 * blocks.len(),
    ensures
        counts_of(counts@) == run_histogram(bits_of(blocks@, n as nat)),
{
    let ghost s = bits_of(blocks@, n as nat);
    let mut one_sequence_len: usize = 0;
    let mut sequence_len_count: Vec<usize> = vec![0usize; 6];
    let mut i: usize = 0;
    while i < n
        invariant
            i <= n,
            n <= 32 * blocks.len(),
            s == bits_of(blocks@, n as nat),
            one_sequence_len == ones_before(s, i as int),
            one_sequence_len <= i,
            sequence_len_count@.len() == SEQUENCE_LEN_COUNT_SIZE,
            forall|bucket: int|
                0 <= bucket < SEQUENCE_LEN_COUNT_SIZE ==> sequence_len_count@[bucket]
                    == closed_runs(s, i as int, bucket),
        decreases n - i,
    {
        let bit = read_bit(blocks, i);
        proof {
            assert forall|bucket: int| 0 <= bucket < SEQUENCE_LEN_COUNT_SIZE implies closed_runs(
                s,
                i as int,
                bucket,
            ) <= i by {
                lemma_closed_runs_bounded(s, i as int, bucket);
            }
        }
        if bit {
            one_sequence_len = one_sequence_len + 1;
        } else {
            if one_sequence_len != 0 {
                if one_sequence_len >= sequence_len_count.len() {
                    let tally: usize = sequence_len_count[SEQUENCE_LEN_COUNT_SIZE - 1];
                    sequence_len_count.set(SEQUENCE_LEN_COUNT_SIZE - 1, tally + 1);
                } else {
                    let tally: usize = sequence_len_count[one_sequence_len - 1];
                    sequence_len_count.set(one_sequence_len - 1, tally + 1);
                }
                one_sequence_len = 0;
            }
        }
        i = i + 1;
    }
    sequence_len_count
}

/// Whether `counts` has one count for each bucket, each within the bounds
/// of its bucket.
pub fn run_counts_within_bounds(counts: &Vec<usize>) -> (ok: bool)
    ensures
        ok == run_counts_accepted(counts_of(counts@)),
{
    if counts.len() != SEQUENCE_LEN_COUNT_SIZE {
        return false;
    }
    let mut i: usize = 0;
    while i < counts.len()
        invariant
            i <= counts@.len(),
            counts@.len() == SEQUENCE_LEN_COUNT_SIZE,
            forall|bucket: int|
                0 <= bucket < i ==> LOWER_SEQUENCE_LEN_COUNT[bucket] <= #[trigger] counts_of(
                    counts@,
                )[bucket] <= UPPER_SEQUENCE_LEN_COUNT[bucket],
        decreases counts@.len() - i,
    {
        assert(counts_of(counts@)[i as int] == counts@[i as int]);
        if !(LOWER_SEQUENCE_LEN_COUNT[i] <= counts[i] && counts[i] <= UPPER_SEQUENCE_LEN_COUNT[i]) {
            return false;
        }
        i = i + 1;
    }
    true
}

} // verus!
