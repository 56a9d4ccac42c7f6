use random_bits::RandomBits;

#[test]
fn tests() {
    let rnd_bits = RandomBits::new();

    assert!(rnd_bits.mono_bit_test());
    assert!(rnd_bits.max_sequence_len_test());
    assert!(rnd_bits.pokker_test());
    assert!(rnd_bits.sequence_len_test());
}

#[test]
fn monobit_passes_on_generated_sequence() {
    assert!(RandomBits::new().mono_bit_test());
}

#[test]
fn verdicts_do_not_depend_on_order_or_repetition() {
    let rnd_bits = RandomBits::new();
    assert!(rnd_bits.sequence_len_test());
    assert!(rnd_bits.pokker_test());
    assert!(rnd_bits.max_sequence_len_test());
    assert!(rnd_bits.mono_bit_test());
    assert!(rnd_bits.mono_bit_test());
    assert!(rnd_bits.pokker_test());
}
