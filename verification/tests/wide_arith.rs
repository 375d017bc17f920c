use ref_farming::wide::{full_mul, U256};

#[test]
fn full_mul_small_numbers() {
    assert_eq!(full_mul(6, 7), U256 { hi: 0, lo: 42 });
    assert_eq!(full_mul(0, u128::MAX), U256 { hi: 0, lo: 0 });
    assert_eq!(full_mul(1, u128::MAX), U256 { hi: 0, lo: u128::MAX });
}

#[test]
fn full_mul_passes_128_bits() {
    // (2^128 - 1)^2 = 2^256 - 2^129 + 1
    assert_eq!(full_mul(u128::MAX, u128::MAX), U256 { hi: u128::MAX - 1, lo: 1 });
    // 2^64 * 2^64 = 2^128
    assert_eq!(full_mul(1 << 64, 1 << 64), U256 { hi: 1, lo: 0 });
    // 2^127 * 6 = 3 * 2^128
    assert_eq!(full_mul(1 << 127, 6), U256 { hi: 3, lo: 0 });
}

#[test]
fn checked_add_carries_and_overflows() {
    let a = U256 { hi: 0, lo: u128::MAX };
    let b = U256 { hi: 0, lo: 1 };
    assert_eq!(a.checked_add(&b), Some(U256 { hi: 1, lo: 0 }));
    let top = U256 { hi: u128::MAX, lo: u128::MAX };
    assert_eq!(top.checked_add(&b), None);
    assert_eq!(top.checked_add(&U256::zero()), Some(top));
}

#[test]
fn checked_sub_borrows_and_underflows() {
    let a = U256 { hi: 1, lo: 0 };
    let b = U256 { hi: 0, lo: 1 };
    assert_eq!(a.checked_sub(&b), Some(U256 { hi: 0, lo: u128::MAX }));
    assert_eq!(b.checked_sub(&a), None);
    assert_eq!(a.checked_sub(&a), Some(U256::zero()));
}

#[test]
fn checked_mul_u128_overflows_past_256_bits() {
    let a = U256 { hi: 1, lo: 5 };
    assert_eq!(a.checked_mul_u128(3), Some(U256 { hi: 3, lo: 15 }));
    let big = U256 { hi: 1 << 127, lo: 0 };
    assert_eq!(big.checked_mul_u128(2), None);
    assert_eq!(big.checked_mul_u128(1), Some(big));
    assert_eq!(big.checked_mul_u128(0), Some(U256::zero()));
}

#[test]
fn div_rem_by_small_and_large_divisors() {
    let n = U256 { hi: 3, lo: 7 };
    // 3 * 2^128 + 7 = 2 * (2^128 + 2^127 + 3) + 1
    assert_eq!(n.div_rem(2), (U256 { hi: 1, lo: (1 << 127) + 3 }, 1));
    assert_eq!(n.div_rem(1), (n, 0));
    // (2^128 - 1)^2 / (2^128 - 1) = 2^128 - 1
    let square = full_mul(u128::MAX, u128::MAX);
    assert_eq!(square.div_rem(u128::MAX), (U256 { hi: 0, lo: u128::MAX }, 0));
    assert_eq!(U256::zero().div_rem(5), (U256::zero(), 0));
}

#[test]
fn scaled_reward_over_stake() {
    let denom: u128 = 1_000_000_000_000_000_000_000_000;
    // 5000 * 10^24 / 10 = 500 * 10^24
    assert_eq!(full_mul(5000, denom).div_u128(10), U256::from_u128(500 * denom));
    // 10^24 * 10^24 / 3 rounds down
    let third = full_mul(denom, denom).div_rem(3);
    assert_eq!(third.1, 1);
    assert_eq!(third.0.checked_mul_u128(3).unwrap().checked_add(&U256::from_u128(1)), Some(full_mul(denom, denom)));
}

#[test]
fn order_and_narrowing() {
    let a = U256 { hi: 0, lo: 9 };
    let b = U256 { hi: 1, lo: 0 };
    assert!(a.le(&b));
    assert!(!b.le(&a));
    assert!(a.le(&a));
    assert_eq!(a.to_u128(), Some(9));
    assert_eq!(b.to_u128(), None);
    assert!(U256::zero().is_zero());
    assert!(!b.is_zero());
}
