use fractalaw_taxa::hdr::{hdr_mantissa, splitmix};

#[test]
fn mantissa_is_deterministic() {
    assert_eq!(hdr_mantissa(42, 1, 1, 0, 0), hdr_mantissa(42, 1, 1, 0, 0));
}

#[test]
fn mantissa_is_odd_and_below_two_pow_53() {
    for i in 1..=10_000u64 {
        let m = hdr_mantissa(i, 1, 1, 0, 0);
        assert!(m % 2 == 1 && m < (1u64 << 53), "trial {i}: m = {m}");
    }
}

#[test]
fn different_seeds_give_different_mantissas() {
    assert_ne!(hdr_mantissa(1, 1, 1, 0, 0), hdr_mantissa(1, 1, 2, 0, 0));
    assert_ne!(hdr_mantissa(1, 1, 1, 0, 0), hdr_mantissa(1, 2, 1, 0, 0));
}

#[test]
fn splitmix_known_value() {
    // SplitMix64 of 0 is the first output of the generator seeded with 0.
    assert_eq!(splitmix(0), 0xE220_A839_7B1D_CDAF);
}
