use random_bits::bits::read_bit;
use random_bits::generator::{RandomBits, BITS_COUNT, BLOCK_COUNT};
use random_bits::lcg::SEED;
use random_bits::monobit::{
    count_set_bits, LOWER_BOUND_MONO_BIT_TEST, UPPER_BOUND_MONO_BIT_TEST,
};
use random_bits::poker::{chi_square_within_bounds, group_tallies, sum_of_squares};
use random_bits::run_lengths::{
    run_counts_within_bounds, run_length_histogram, LOWER_SEQUENCE_LEN_COUNT,
    UPPER_SEQUENCE_LEN_COUNT,
};
use random_bits::runs::{longest_run, longest_run_within, MAX_POSSIBLE_SEQUENCE_LEN};

/// Packs bits into blocks, least significant bit first.
fn pack(bits: &[u8]) -> Vec<u32> {
    let mut blocks = vec![0u32; (bits.len() + 31) / 32];
    for (idx, bit) in bits.iter().enumerate() {
        if *bit == 1 {
            blocks[idx / 32] |= 1u32 << (idx % 32);
        }
    }
    blocks
}

fn generated_blocks() -> Vec<u32> {
    let mut state = SEED;
    let mut blocks = Vec::new();
    for _ in 0..BLOCK_COUNT {
        blocks.push(RandomBits::get_next_random_block(&mut state));
    }
    blocks
}

/// A run of `len` ones between two zeros, as bits.
fn closed_run(len: usize) -> Vec<u8> {
    let mut bits = vec![0u8];
    bits.extend(vec![1u8; len]);
    bits.push(0);
    bits
}

const SYNTHETIC: [u8; 20] = [1, 0, 1, 1, 0, 1, 1, 1, 0, 0, 1, 1, 1, 1, 1, 1, 1, 0, 1, 1];

#[test]
fn read_bit_follows_the_addressing() {
    let blocks = vec![0x0000_0001u32, 0x8000_0000, 0x0001_0000];
    assert!(read_bit(&blocks, 0));
    assert!(!read_bit(&blocks, 1));
    assert!(!read_bit(&blocks, 31));
    assert!(!read_bit(&blocks, 32));
    assert!(read_bit(&blocks, 63));
    assert!(read_bit(&blocks, 64 + 16));
    assert!(!read_bit(&blocks, 95));
    let packed = pack(&SYNTHETIC);
    assert_eq!(packed, vec![0x000d_fcedu32]);
    for (idx, bit) in SYNTHETIC.iter().enumerate() {
        assert_eq!(read_bit(&packed, idx), *bit == 1);
    }
}

#[test]
fn count_set_bits_of_known_blocks() {
    assert_eq!(count_set_bits(&Vec::new()), 0);
    assert_eq!(count_set_bits(&vec![0u32]), 0);
    assert_eq!(count_set_bits(&vec![0xFFFF_FFFFu32]), 32);
    assert_eq!(count_set_bits(&vec![0x8000_0001u32, 0x0000_0100, 7]), 6);
    assert_eq!(count_set_bits(&vec![0xFFFF_FFFFu32; 625]), 20_000);
    assert_eq!(count_set_bits(&pack(&SYNTHETIC)), 15);
}

#[test]
fn count_set_bits_of_generated_sequence() {
    let ones = count_set_bits(&generated_blocks());
    assert_eq!(ones, 9925);
    assert!(LOWER_BOUND_MONO_BIT_TEST <= ones && ones <= UPPER_BOUND_MONO_BIT_TEST);
    assert_eq!(LOWER_BOUND_MONO_BIT_TEST, 9654);
    assert_eq!(UPPER_BOUND_MONO_BIT_TEST, 10346);
}

#[test]
fn count_set_bits_agrees_with_reading_each_bit() {
    let blocks = generated_blocks();
    let mut ones = 0usize;
    for idx in 0..BITS_COUNT {
        if read_bit(&blocks, idx) {
            ones += 1;
        }
    }
    assert_eq!(count_set_bits(&blocks), ones);
}

#[test]
fn longest_run_of_synthetic_sequences() {
    assert_eq!(longest_run(&Vec::new(), 0), 0);
    assert_eq!(longest_run(&vec![0u32], 0), 0);
    assert_eq!(longest_run(&vec![0u32], 1), 1);
    assert_eq!(longest_run(&vec![1u32], 1), 1);
    assert_eq!(longest_run(&pack(&SYNTHETIC), 20), 7);
    assert_eq!(longest_run(&vec![0u32, 0], 64), 64);
    assert_eq!(longest_run(&vec![0xFFFF_FFFFu32, 0xFFFF_FFFF], 64), 64);
    assert_eq!(longest_run(&vec![0xAAAA_AAAAu32], 32), 1);
    // A run of ones that crosses from one block into the next.
    assert_eq!(longest_run(&vec![0xfff0_0000u32, 0x0007_ffff], 64), 31);
    // Only the first `n` bits count.
    assert_eq!(longest_run(&vec![0xfff0_0000u32, 0x0007_ffff], 20), 20);
    assert_eq!(longest_run(&vec![0xfff0_0000u32, 0x0007_ffff], 25), 20);
}

#[test]
fn longest_run_counts_the_run_at_the_end() {
    // The last run is the longest one, of ones and of zeros.
    assert_eq!(longest_run(&pack(&[0, 1, 0, 1, 1, 1, 1]), 7), 4);
    assert_eq!(longest_run(&pack(&[1, 0, 1, 0, 0, 0, 0, 0]), 8), 5);
}

#[test]
fn longest_run_limit_is_inclusive() {
    assert_eq!(MAX_POSSIBLE_SEQUENCE_LEN, 36);
    let ok = pack(&closed_run(36));
    let too_long = pack(&closed_run(37));
    assert_eq!(longest_run(&ok, 38), 36);
    assert_eq!(longest_run(&too_long, 39), 37);
    assert!(longest_run_within(&ok, 38, MAX_POSSIBLE_SEQUENCE_LEN));
    assert!(!longest_run_within(&too_long, 39, MAX_POSSIBLE_SEQUENCE_LEN));
    // Runs of zeros count as runs of ones do.
    let zeros = vec![0x0000_0001u32, 0x0000_0020];
    assert_eq!(longest_run(&zeros, 38), 36);
    assert!(longest_run_within(&zeros, 38, 36));
    assert!(!longest_run_within(&zeros, 38, 35));
}

#[test]
fn longest_run_of_generated_sequence() {
    let blocks = generated_blocks();
    assert_eq!(longest_run(&blocks, BITS_COUNT), 15);
    assert!(longest_run_within(&blocks, BITS_COUNT, 15));
    assert!(!longest_run_within(&blocks, BITS_COUNT, 14));
}

#[test]
fn trailing_run_is_not_counted() {
    // Twenty bits that end in a run of two ones which no zero closes: the
    // closed runs have lengths 1, 2, 3 and 7.
    let blocks = pack(&SYNTHETIC);
    assert_eq!(run_length_histogram(&blocks, 20), vec![1, 1, 1, 0, 0, 1]);
    // With the closing zero, the run of two is counted.
    assert_eq!(run_length_histogram(&blocks, 21), vec![1, 2, 1, 0, 0, 1]);
    // Cut inside the long run, that run is not counted either.
    assert_eq!(run_length_histogram(&blocks, 17), vec![1, 1, 1, 0, 0, 0]);
}

#[test]
fn sequence_of_ones_only_has_no_closed_run() {
    assert_eq!(run_length_histogram(&vec![0xFFFF_FFFFu32; 2], 64), vec![0; 6]);
    assert_eq!(run_length_histogram(&vec![0u32; 2], 64), vec![0; 6]);
    assert_eq!(run_length_histogram(&Vec::new(), 0), vec![0; 6]);
}

#[test]
fn long_runs_share_the_last_bucket() {
    // Runs of 5, 6, 7 and 40 ones, each closed by a zero.
    let mut bits = Vec::new();
    for len in [5usize, 6, 7, 40] {
        bits.extend(vec![1u8; len]);
        bits.push(0);
    }
    assert_eq!(bits.len(), 62);
    let histogram = run_length_histogram(&pack(&bits), 62);
    assert_eq!(histogram.len(), 6);
    assert_eq!(histogram, vec![0, 0, 0, 0, 1, 3]);
}

#[test]
fn each_run_length_has_its_bucket() {
    for len in 1usize..=12 {
        let histogram = run_length_histogram(&pack(&closed_run(len)), len + 2);
        let mut expected = vec![0usize; 6];
        expected[if len >= 6 { 5 } else { len - 1 }] = 1;
        assert_eq!(histogram, expected, "run of {}", len);
    }
}

#[test]
fn run_lengths_of_generated_sequence() {
    let histogram = run_length_histogram(&generated_blocks(), BITS_COUNT);
    assert_eq!(histogram, vec![2630, 1222, 636, 283, 152, 147]);
    assert!(run_counts_within_bounds(&histogram));
}

#[test]
fn run_count_bounds_are_inclusive() {
    assert_eq!(LOWER_SEQUENCE_LEN_COUNT, [2267, 1079, 502, 223, 90, 90]);
    assert_eq!(UPPER_SEQUENCE_LEN_COUNT, [2733, 1421, 748, 402, 223, 223]);
    assert!(run_counts_within_bounds(&LOWER_SEQUENCE_LEN_COUNT.to_vec()));
    assert!(run_counts_within_bounds(&UPPER_SEQUENCE_LEN_COUNT.to_vec()));
    for bucket in 0..6 {
        let mut low = LOWER_SEQUENCE_LEN_COUNT.to_vec();
        low[bucket] -= 1;
        assert!(!run_counts_within_bounds(&low), "bucket {}", bucket);
        let mut high = UPPER_SEQUENCE_LEN_COUNT.to_vec();
        high[bucket] += 1;
        assert!(!run_counts_within_bounds(&high), "bucket {}", bucket);
    }
    assert!(!run_counts_within_bounds(&vec![0; 6]));
}

#[test]
fn run_counts_need_one_count_for_each_bucket() {
    let within: Vec<usize> = vec![2500, 1250, 625, 312, 156, 156];
    assert!(run_counts_within_bounds(&within));
    assert!(!run_counts_within_bounds(&within[..5].to_vec()));
    let mut longer = within.clone();
    longer.push(100);
    assert!(!run_counts_within_bounds(&longer));
    assert!(!run_counts_within_bounds(&Vec::new()));
}

#[test]
fn groups_are_read_most_significant_bit_first() {
    // 1000 0001 1111 0110 1000 1111 0000 1111, then three bits more.
    let bits = [
        1, 0, 0, 0, 0, 0, 0, 1, 1, 1, 1, 1, 0, 1, 1, 0, 1, 0, 0, 0, 1, 1, 1, 1, 0, 0, 0, 0, 1, 1,
        1, 1, 1, 0, 1,
    ];
    let blocks = pack(&bits);
    assert_eq!(blocks, vec![0xf0f1_6f81u32, 0x5]);
    let mut expected = vec![0u64; 16];
    expected[8] = 1;
    assert_eq!(group_tallies(&blocks, 4), expected);
    expected[1] = 1;
    assert_eq!(group_tallies(&blocks, 8), expected);
    assert_eq!(
        group_tallies(&blocks, 32),
        vec![1, 1, 0, 0, 0, 0, 1, 0, 2, 0, 0, 0, 0, 0, 0, 3]
    );
    assert_eq!(group_tallies(&blocks, 0), vec![0u64; 16]);
}

#[test]
fn group_tallies_of_generated_sequence() {
    let tallies = group_tallies(&generated_blocks(), BITS_COUNT);
    assert_eq!(
        tallies,
        vec![310, 328, 278, 279, 321, 332, 305, 297, 334, 327, 359, 306, 310, 308, 317, 289]
    );
    assert_eq!(tallies.iter().sum::<u64>(), 5000);
    let sum = sum_of_squares(&tallies);
    assert_eq!(sum, 1569284);
    assert!(chi_square_within_bounds(sum, 5000));
}

#[test]
fn sum_of_squares_of_known_tallies() {
    assert_eq!(sum_of_squares(&Vec::new()), 0);
    assert_eq!(sum_of_squares(&vec![0u64; 16]), 0);
    assert_eq!(sum_of_squares(&vec![3u64, 4]), 25);
    assert_eq!(sum_of_squares(&vec![5000u64]), 25_000_000);
    assert_eq!(sum_of_squares(&vec![0xFFFF_FFFFu64]), 0xFFFF_FFFE_0000_0001);
}

#[test]
fn chi_square_of_a_known_histogram() {
    // Eight tallies of 312 and eight of 313: 5000 groups.
    let mut tallies = vec![312u64; 8];
    tallies.extend(vec![313u64; 8]);
    let sum = sum_of_squares(&tallies);
    assert_eq!(sum, 8 * 97344 + 8 * 97969);
    // (16 / 5000) * 1562504 - 5000 = 0.0128
    let statistic = (16.0 / 5000.0) * (sum as f64) - 5000.0;
    assert!((statistic - 0.0128).abs() < 1e-9);
    assert!(!chi_square_within_bounds(sum, 5000));

    // (16 / 5000) * 1583500 - 5000 = 67.2
    let tallies: Vec<u64> =
        vec![400, 250, 300, 350, 310, 290, 330, 270, 320, 280, 305, 295, 315, 285, 340, 360];
    assert_eq!(tallies.iter().sum::<u64>(), 5000);
    let sum = sum_of_squares(&tallies);
    assert_eq!(sum, 1_583_500);
    let statistic = (16.0 / 5000.0) * (sum as f64) - 5000.0;
    assert!((statistic - 67.2).abs() < 1e-9);
    assert!(!chi_square_within_bounds(sum, 5000));

    // (16 / 5000) * 1569284 - 5000 = 21.7088
    let statistic: f64 = (16.0 / 5000.0) * 1569284.0 - 5000.0;
    assert!((statistic - 21.7088).abs() < 1e-9);
    assert!(chi_square_within_bounds(1569284, 5000));
}

#[test]
fn chi_square_bounds_for_5000_groups() {
    // 1.03 <= 16 * sum / 5000 - 5000 <= 57.4 for 1562822 <= sum <= 1580437.
    assert!(!chi_square_within_bounds(1_562_821, 5000));
    assert!(chi_square_within_bounds(1_562_822, 5000));
    assert!(chi_square_within_bounds(1_580_437, 5000));
    assert!(!chi_square_within_bounds(1_580_438, 5000));
    assert!(!chi_square_within_bounds(0, 5000));
    assert!(!chi_square_within_bounds(1_562_500, 5000));
    assert!(!chi_square_within_bounds(25_000_000, 5000));
    assert!(!chi_square_within_bounds(u64::MAX, 5000));
}

#[test]
fn chi_square_agrees_with_floating_point_for_5000_groups() {
    let k = 5000.0f64;
    for sum in (1_562_000u64..1_564_000).chain(1_580_000..1_581_000) {
        let mut xi3 = 16.0 / k;
        xi3 *= sum as f64;
        xi3 -= k;
        let expected = 1.03 <= xi3 && xi3 <= 57.4;
        assert_eq!(chi_square_within_bounds(sum, 5000), expected, "sum {}", sum);
    }
}

#[test]
fn chi_square_bounds_are_inclusive() {
    // 16 * 160103 / 1600 - 1600 is 1.03, and 16 * 288 / 45 - 45 is 57.4.
    assert!(chi_square_within_bounds(160_103, 1600));
    assert!(!chi_square_within_bounds(160_102, 1600));
    assert!(chi_square_within_bounds(288, 45));
    assert!(!chi_square_within_bounds(289, 45));
}

#[test]
fn chi_square_of_other_group_counts() {
    // No groups, no verdict in favour.
    assert!(!chi_square_within_bounds(0, 0));
    assert!(!chi_square_within_bounds(100, 0));
    // Sixteen groups, one of each value: the statistic is 0.
    assert!(!chi_square_within_bounds(16, 16));
    // Sixteen groups, two of each of eight values: the statistic is 16.
    assert!(chi_square_within_bounds(32, 16));
    // Sixteen groups of one value: the statistic is 240.
    assert!(!chi_square_within_bounds(256, 16));
    // The largest arguments.
    assert!(!chi_square_within_bounds(u64::MAX, u64::MAX));
    assert!(!chi_square_within_bounds(0, u64::MAX));
    assert!(!chi_square_within_bounds(u64::MAX, 1));
}

#[test]
fn helpers_agree_with_the_generator() {
    let rnd_bits = RandomBits::new();
    let blocks = generated_blocks();
    for idx in 0..BITS_COUNT {
        assert_eq!(rnd_bits.get_bit(idx), read_bit(&blocks, idx));
    }
    let ones = count_set_bits(&blocks);
    assert_eq!(rnd_bits.mono_bit_test(), 9654 <= ones && ones <= 10346);
    assert_eq!(
        rnd_bits.max_sequence_len_test(),
        longest_run_within(&blocks, BITS_COUNT, MAX_POSSIBLE_SEQUENCE_LEN)
    );
    assert_eq!(
        rnd_bits.pokker_test(),
        chi_square_within_bounds(sum_of_squares(&group_tallies(&blocks, BITS_COUNT)), 5000)
    );
    assert_eq!(
        rnd_bits.sequence_len_test(),
        run_counts_within_bounds(&run_length_histogram(&blocks, BITS_COUNT))
    );
}
