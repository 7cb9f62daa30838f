use backrun::u256::U256;

fn big(l3: u64, l2: u64, l1: u64, l0: u64) -> U256 {
    U256 { l0, l1, l2, l3 }
}

#[test]
fn small_numbers_keep_their_value() {
    assert_eq!(U256::zero(), big(0, 0, 0, 0));
    assert_eq!(U256::from_u64(7), big(0, 0, 0, 7));
    assert_eq!(U256::from_u128(u128::MAX), big(0, 0, u64::MAX, u64::MAX));
    assert_eq!(U256::from_u128(1u128 << 64), big(0, 0, 1, 0));
    assert_eq!(U256::from_u128(u128::MAX).to_u128(), u128::MAX);
    assert!(U256::zero().is_zero());
    assert!(!big(1, 0, 0, 0).is_zero());
}

#[test]
fn numbers_are_compared_from_the_highest_limb() {
    assert!(U256::from_u64(1).less_than(&U256::from_u64(2)));
    assert!(!U256::from_u64(2).less_than(&U256::from_u64(2)));
    assert!(big(0, 0, 0, u64::MAX).less_than(&big(0, 0, 1, 0)));
    assert!(big(0, u64::MAX, 0, 0).less_than(&big(1, 0, 0, 0)));
    assert!(!big(1, 0, 0, 0).less_than(&big(0, 1, 1, 1)));
}

#[test]
fn quotients_are_rounded_down() {
    assert_eq!(U256::from_u64(17).quotient(U256::from_u64(5)), U256::from_u64(3));
    assert_eq!(big(0, 0, 1, 0).quotient(U256::from_u64(2)), U256::from_u64(1 << 63));
}

#[test]
fn numbers_are_read_from_decimal_digits() {
    assert_eq!(U256::from_text("0"), Some(U256::zero()));
    assert_eq!(U256::from_text("18446744073709551616"), Some(big(0, 0, 1, 0)));
    assert_eq!(U256::from_text("0012"), Some(U256::from_u64(12)));
    assert_eq!(
        U256::from_text(
            "115792089237316195423570985008687907853269984665640564039457584007913129639935"
        ),
        Some(big(u64::MAX, u64::MAX, u64::MAX, u64::MAX))
    );
    assert_eq!(
        U256::from_text(
            "115792089237316195423570985008687907853269984665640564039457584007913129639936"
        ),
        None
    );
}

#[test]
fn leading_zeros_do_not_count() {
    let zeros = "0".repeat(200);
    assert_eq!(U256::from_text(&zeros), Some(U256::zero()));
    assert_eq!(U256::from_text(&format!("{zeros}17")), Some(U256::from_u64(17)));
    for n in [0u128, 9, 10, 99, 12_345_678_901_234_567_890, u128::MAX] {
        assert_eq!(U256::from_text(&n.to_string()), Some(U256::from_u128(n)));
    }
}

#[test]
fn other_numbers_are_read_by_their_base() {
    assert_eq!(U256::from_text("0x10"), Some(U256::from_u64(16)));
    assert_eq!(U256::from_text("0XfF"), Some(U256::from_u64(255)));
    assert_eq!(U256::from_text("0o17"), Some(U256::from_u64(15)));
    assert_eq!(U256::from_text("0b1_01"), Some(U256::from_u64(5)));
    assert_eq!(U256::from_text("1_000"), Some(U256::from_u64(1000)));
    for nothing in ["", "_", "0x", "0b_"] {
        assert_eq!(U256::from_text(nothing), Some(U256::zero()));
    }
    let most = format!("0x{}", "f".repeat(64));
    assert_eq!(U256::from_text(&most), Some(big(u64::MAX, u64::MAX, u64::MAX, u64::MAX)));
    assert_eq!(U256::from_text(&format!("0x1{}", "0".repeat(64))), None);
    assert_eq!(U256::from_text(&format!("0x0{}", "0".repeat(64))), Some(U256::zero()));
    assert_eq!(U256::from_text(&format!("0o2{}", "0".repeat(85))), None);
    assert_eq!(U256::from_text(&format!("0o1{}", "0".repeat(85))), Some(big(1 << 63, 0, 0, 0)));
    for wrong in ["-5", "+5", " 5", "0b2", "0o8", "0xg", "1a", "0_x1", "5é", "é"] {
        assert_eq!(U256::from_text(wrong), None);
    }
    assert_eq!(U256::from_text("twelve"), None);
}
