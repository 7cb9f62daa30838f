use backrun::amm::{
    apply_swap_effect, get_amount_in, get_amount_out, implied_price_1e18, isqrt_u256,
};
use backrun::u256::U256;

fn n(x: u128) -> U256 {
    U256::from_u128(x)
}

fn max() -> U256 {
    U256 { l0: u64::MAX, l1: u64::MAX, l2: u64::MAX, l3: u64::MAX }
}

#[test]
fn payout_follows_the_constant_product() {
    assert_eq!(get_amount_out(n(1000), n(10_000), n(10_000), n(9970)), Some(n(906)));
    assert_eq!(
        get_amount_out(
            n(1_000_000_000_000_000_000),
            n(100_000_000_000_000_000_000),
            n(200_000_000_000),
            n(9970)
        ),
        Some(n(1_974_316_068))
    );
    assert_eq!(get_amount_out(n(0), n(0), n(0), n(9970)), Some(n(0)));
    assert_eq!(get_amount_out(n(1), n(0), n(5), n(9970)), None);
    assert_eq!(get_amount_out(n(1), n(5), n(0), n(9970)), None);
    assert_eq!(get_amount_out(max(), n(1), n(1), n(9970)), None);
}

#[test]
fn price_is_rounded_up_by_one() {
    assert_eq!(get_amount_in(n(906), n(10_000), n(10_000), n(9970)), Some(n(1000)));
    assert_eq!(get_amount_in(n(907), n(10_000), n(10_000), n(9970)), Some(n(1001)));
    assert_eq!(get_amount_in(n(0), n(0), n(0), n(0)), Some(n(0)));
    assert_eq!(get_amount_in(n(10_000), n(10_000), n(10_000), n(9970)), None);
    assert_eq!(get_amount_in(n(1), n(10), n(10), n(0)), None);
    assert_eq!(get_amount_in(n(1), max(), n(10), n(9970)), None);
}

#[test]
fn price_buys_what_was_asked_for() {
    for wanted in [1u128, 2, 10, 100, 906, 5000, 9999] {
        let price = get_amount_in(n(wanted), n(10_000), n(10_000), n(9970)).unwrap();
        let bought = get_amount_out(price, n(10_000), n(10_000), n(9970)).unwrap();
        assert!(!bought.less_than(&n(wanted)));
    }
}

#[test]
fn swap_moves_both_reserves() {
    let (a, b) = apply_swap_effect(n(10_000), n(10_000), n(1000), n(9970)).unwrap();
    assert_eq!((a, b), (n(11_000), n(9_094)));
    assert!(a.to_u128() * b.to_u128() >= 100_000_000);
    assert_eq!(apply_swap_effect(n(3), n(4), n(0), n(9970)), Some((n(3), n(4))));
    assert_eq!(apply_swap_effect(n(0), n(4), n(1), n(9970)), None);
}

#[test]
fn paying_more_yields_no_less() {
    let mut last = n(0);
    for paid in 0..200u128 {
        let out = get_amount_out(n(paid), n(1000), n(900), n(9970)).unwrap();
        assert!(!out.less_than(&last));
        assert!(out.less_than(&n(900)));
        last = out;
    }
}

#[test]
fn roots_are_rounded_down() {
    for (square, root) in [(0u128, 0u128), (1, 1), (2, 1), (3, 1), (4, 2), (99, 9), (100, 10)] {
        assert_eq!(isqrt_u256(n(square)), n(root));
    }
    assert_eq!(isqrt_u256(n(u128::MAX)), n(u64::MAX as u128));
    let below_max = U256 { l0: u64::MAX - 1, l1: u64::MAX, l2: u64::MAX, l3: u64::MAX };
    assert_eq!(isqrt_u256(below_max), n(u128::MAX));
    assert_eq!(isqrt_u256(max()), n(u128::MAX));
}

#[test]
fn implied_prices_are_scaled() {
    assert_eq!(implied_price_1e18(n(2), n(3)), Some(n(1_500_000_000_000_000_000)));
    assert_eq!(implied_price_1e18(n(3), n(1)), Some(n(333_333_333_333_333_333)));
    assert_eq!(implied_price_1e18(n(0), n(3)), None);
    assert_eq!(implied_price_1e18(n(1), max()), None);
}
