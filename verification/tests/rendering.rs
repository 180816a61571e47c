use simsweep::decimal::{decimal_string_i128, decimal_string_u64, decimal_string_usize};
use simsweep::seed::SeedChain;

#[test]
fn zero_renders_as_a_single_digit() {
    assert_eq!(decimal_string_u64(0), "0");
    assert_eq!(decimal_string_usize(0), "0");
    assert_eq!(decimal_string_i128(0), "0");
}

#[test]
fn digits_appear_most_significant_first() {
    assert_eq!(decimal_string_u64(12345), "12345");
    assert_eq!(decimal_string_usize(907), "907");
}

#[test]
fn the_largest_word_renders_exactly() {
    assert_eq!(decimal_string_u64(u64::MAX), "18446744073709551615");
}

#[test]
fn negative_values_carry_a_minus_sign() {
    assert_eq!(decimal_string_i128(-42), "-42");
    assert_eq!(decimal_string_i128(-1), "-1");
}

#[test]
fn the_extreme_signed_values_render_exactly() {
    assert_eq!(decimal_string_i128(i128::MAX), "170141183460469231731687303715884105727");
    assert_eq!(decimal_string_i128(i128::MIN), "-170141183460469231731687303715884105728");
}

#[test]
fn seed_chains_with_one_base_agree() {
    let mut a = SeedChain::new(3);
    let mut b = SeedChain::new(3);
    for _ in 0..4 {
        assert_eq!(a.next(), b.next());
    }
}

#[test]
fn a_chain_starts_at_its_base_seed() {
    let mut chain = SeedChain::new(17);
    assert_eq!(chain.next(), 17);
}
