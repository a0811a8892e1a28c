use etherbalance::conversion::{u256_to_f64_parts, U256};

fn to_f64(v: U256) -> f64 {
    let (mantissa, exponent) = u256_to_f64_parts(v);
    (mantissa as f64) * 2.0f64.powi(exponent as i32)
}

#[test]
fn zero_converts_to_zero() {
    let (m, e) = u256_to_f64_parts(U256::from_u64(0));
    assert_eq!((m, e), (0, 0));
    assert_eq!(to_f64(U256::from_u64(0)), 0.0);
}

#[test]
fn small_values_convert_exactly() {
    // Anything below 2^54 passes through unshifted.
    let below = (1u64 << 53) - 1;
    let (m, e) = u256_to_f64_parts(U256::from_u64(below));
    assert_eq!((m, e), (below, 0));
    assert_eq!(to_f64(U256::from_u64(42)), 42.0);

    // One whole unit at 18 decimals has 60 bits, but its 18 trailing zero
    // bits make the shifted form exact.
    let wei = 1_000_000_000_000_000_000u64;
    let (m, e) = u256_to_f64_parts(U256::from_u64(wei));
    assert_eq!(e, 6);
    assert_eq!(m, wei >> 6);
    assert_eq!((m << e) as u64, wei);
    assert_eq!(to_f64(U256::from_u64(wei)), 1.0e18);
}

#[test]
fn wide_values_keep_54_bits() {
    // 2^60 + 1 has 61 significant bits: the shift drops the low bit.
    let v = U256::from_u64((1u64 << 60) + 1);
    let (m, e) = u256_to_f64_parts(v);
    assert_eq!(e, 7);
    assert_eq!(m, 1u64 << 53);
    // The absolute error is below 2^(bitlength - 54) = 2^7.
    let reconstructed = (m as u128) << e;
    let exact = (1u128 << 60) + 1;
    assert!(exact - reconstructed < 1 << 7);
    assert_eq!(to_f64(v), (1u64 << 60) as f64);
}

#[test]
fn very_wide_values_convert_within_bound() {
    // 2^128: mantissa 2^53, exponent 75.
    let v = U256::new(1, 0);
    let (m, e) = u256_to_f64_parts(v);
    assert_eq!(m, 1u64 << 53);
    assert_eq!(e, 75);
    assert_eq!(to_f64(v), 2.0f64.powi(128));

    // A value with low-order noise still lands within 2^exponent.
    let noisy = U256::new(1, 0xFFFF);
    let (m2, e2) = u256_to_f64_parts(noisy);
    assert_eq!(e2, 75);
    // The reconstructed value differs from the exact one by less than 2^75.
    assert_eq!(m2, 1u64 << 53);
    assert_eq!(to_f64(noisy), 2.0f64.powi(128));
}
