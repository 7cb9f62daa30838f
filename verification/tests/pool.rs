use backrun::address::Address;
use backrun::pool::{
    apply_victim_effect, compute_optimal_backrun_amount, estimate_arb_profit, flash_repay_amount,
    orient_reserves, sale_amount, MarketState, PoolState, VictimSwap,
};
use backrun::table::Table;
use backrun::u256::U256;

fn n(x: u128) -> U256 {
    U256::from_u128(x)
}

fn addr(b: u8) -> Address {
    Address { bytes: [b; 20] }
}

fn pool(reserve0: u128, reserve1: u128, token0: u8, token1: u8) -> PoolState {
    PoolState {
        reserve0: n(reserve0),
        reserve1: n(reserve1),
        fee_bps: 30,
        token0: addr(token0),
        token1: addr(token1),
    }
}

fn swap(paid: u128) -> VictimSwap {
    VictimSwap { amount_in: n(paid), path: vec![addr(1), addr(2)] }
}

#[test]
fn fee_is_taken_from_ten_thousand() {
    assert_eq!(pool(1, 1, 1, 2).gamma_num(), n(9970));
    let mut dear = pool(1, 1, 1, 2);
    dear.fee_bps = 10_001;
    assert_eq!(dear.gamma_num(), n(0));
}

#[test]
fn victim_effect_keeps_the_order_of_the_pool() {
    let there = apply_victim_effect(&pool(10_000, 10_000, 1, 2), addr(1), addr(2), n(1000));
    assert_eq!(there, Some((n(11_000), n(9_094))));
    let back = apply_victim_effect(&pool(10_000, 10_000, 2, 1), addr(1), addr(2), n(1000));
    assert_eq!(back, Some((n(9_094), n(11_000))));
    assert_eq!(apply_victim_effect(&pool(1, 1, 1, 3), addr(1), addr(2), n(5)), None);
}

#[test]
fn reserves_are_put_in_the_order_of_the_tokens() {
    let p = pool(0, 0, 1, 2);
    assert_eq!(orient_reserves(&p, addr(1), addr(2), n(7), n(8)), Some((n(7), n(8))));
    assert_eq!(orient_reserves(&p, addr(2), addr(1), n(7), n(8)), Some((n(8), n(7))));
    assert_eq!(orient_reserves(&p, addr(2), addr(3), n(7), n(8)), None);
}

#[test]
fn flash_loan_is_paid_back_in_the_other_token() {
    let p = pool(0, 0, 1, 2);
    assert_eq!(
        flash_repay_amount(&p, addr(2), addr(1), n(10_000), n(10_000), n(906)),
        Some(n(1000))
    );
    assert_eq!(
        flash_repay_amount(&p, addr(2), addr(1), n(10_000), n(10_000), n(10_000)),
        None
    );
    assert_eq!(flash_repay_amount(&p, addr(3), addr(1), n(1), n(1), n(1)), None);
}

#[test]
fn sale_goes_through_the_moved_pool() {
    let p = pool(1_000_000, 1_000_000, 1, 2);
    assert_eq!(sale_amount(&p, addr(1), addr(2), n(200_000), n(81_648)), Some(n(106_740)));
    assert_eq!(sale_amount(&p, addr(1), addr(3), n(200_000), n(81_648)), None);
}

#[test]
fn profit_is_the_sale_less_the_repayment() {
    let lender = pool(1_000_000, 1_000_000, 1, 2);
    let moved = pool(1_000_000, 1_000_000, 1, 2);
    let profit = estimate_arb_profit(&lender, &moved, &swap(200_000), n(81_648));
    assert_eq!(profit, Some(n(17_565)));
    assert_eq!(estimate_arb_profit(&lender, &moved, &swap(0), n(81_648)), None);
    let short = VictimSwap { amount_in: n(1), path: vec![addr(1)] };
    assert_eq!(estimate_arb_profit(&lender, &moved, &short, n(1)), None);
}

fn market() -> MarketState {
    let mut state: MarketState = Table::new();
    state.insert(addr(10), pool(1_000_000, 1_000_000, 1, 2));
    state.insert(addr(11), pool(1_000_000, 1_000_000, 1, 2));
    state
}

#[test]
fn search_finds_the_loan() {
    let state = market();
    let loan = compute_optimal_backrun_amount(&state, addr(10), addr(11), &swap(200_000));
    assert_eq!(loan, Some(n(81_648)));
    assert_eq!(compute_optimal_backrun_amount(&state, addr(10), addr(11), &swap(0)), None);
    assert_eq!(compute_optimal_backrun_amount(&state, addr(12), addr(11), &swap(1)), None);
    assert_eq!(compute_optimal_backrun_amount(&state, addr(10), addr(12), &swap(1)), None);
    let short = VictimSwap { amount_in: n(1), path: vec![addr(1)] };
    assert_eq!(compute_optimal_backrun_amount(&state, addr(10), addr(11), &short), None);
}

#[test]
fn found_loan_gains_almost_as_much_as_any_other() {
    let lender = pool(1_000_000, 1_000_000, 1, 2);
    let state = market();
    let victim = swap(200_000);
    let found = compute_optimal_backrun_amount(&state, addr(10), addr(11), &victim).unwrap();
    let profit = estimate_arb_profit(&lender, &lender, &victim, found).unwrap().to_u128();
    assert!(profit > 0);
    assert!(found.less_than(&n(1_000_000)));
    for loan in (1..1_000_000u128).step_by(997) {
        if let Some(other) = estimate_arb_profit(&lender, &lender, &victim, n(loan)) {
            assert!(other.to_u128() <= profit + 28);
        }
    }
}

#[test]
fn best_of_the_last_loans_is_taken() {
    let mut state: MarketState = Table::new();
    state.insert(addr(10), pool(1, 3, 1, 2));
    state.insert(addr(11), pool(1_000_000, 1000, 1, 2));
    let loan = compute_optimal_backrun_amount(&state, addr(10), addr(11), &swap(0));
    assert_eq!(loan, Some(n(2)));
    let profit = |l: u128| {
        estimate_arb_profit(&pool(1, 3, 1, 2), &pool(1_000_000, 1000, 1, 2), &swap(0), n(l))
    };
    assert_eq!(profit(1), Some(n(995)));
    assert_eq!(profit(2), Some(n(1987)));
}

#[test]
fn lowest_of_equally_good_loans_is_taken() {
    let (lender, moved) = (pool(10, 38, 1, 2), pool(56, 53, 1, 2));
    let mut state: MarketState = Table::new();
    state.insert(addr(10), lender);
    state.insert(addr(11), moved);
    let loan = compute_optimal_backrun_amount(&state, addr(10), addr(11), &swap(50));
    assert_eq!(loan, Some(n(20)));
    let profit = |l: u128| estimate_arb_profit(&lender, &moved, &swap(50), n(l));
    assert_eq!(profit(19), Some(n(30)));
    assert_eq!(profit(20), Some(n(31)));
    assert_eq!(profit(21), Some(n(31)));
}

#[test]
fn rounding_can_hide_a_slightly_better_loan() {
    let (lender, moved) = (pool(6, 26, 1, 2), pool(4, 3, 1, 2));
    let mut state: MarketState = Table::new();
    state.insert(addr(10), lender);
    state.insert(addr(11), moved);
    let loan = compute_optimal_backrun_amount(&state, addr(10), addr(11), &swap(15));
    assert_eq!(loan, Some(n(3)));
    let profit = |l: u128| estimate_arb_profit(&lender, &moved, &swap(15), n(l));
    assert_eq!(profit(3), Some(n(13)));
    assert_eq!(profit(6), Some(n(14)));
}

#[test]
fn pool_with_two_units_lends_one() {
    let moved = pool(1_000_000, 1000, 1, 2);
    let mut state: MarketState = Table::new();
    state.insert(addr(9), pool(1, 1, 1, 2));
    state.insert(addr(10), pool(1, 2, 1, 2));
    state.insert(addr(11), moved);
    let loan = compute_optimal_backrun_amount(&state, addr(10), addr(11), &swap(0));
    assert_eq!(loan, Some(n(1)));
    assert_eq!(estimate_arb_profit(&pool(1, 2, 1, 2), &moved, &swap(0), n(1)), Some(n(994)));
    assert_eq!(compute_optimal_backrun_amount(&state, addr(9), addr(11), &swap(0)), None);
}

#[test]
fn no_loan_of_small_pools_is_much_better() {
    for held in [1, 7, 40] {
        for lent in [2, 3, 19, 90] {
            for paid in [0, 13, 200] {
                let (lender, moved) = (pool(held, lent, 1, 2), pool(55, 21, 1, 2));
                let mut state: MarketState = Table::new();
                state.insert(addr(10), lender);
                state.insert(addr(11), moved);
                let profit = |l: U256| {
                    let found = estimate_arb_profit(&lender, &moved, &swap(paid), l);
                    found.map_or(0, |p| p.l0)
                };
                let best = (1..lent).map(|l| profit(n(l))).max().unwrap();
                let loan =
                    compute_optimal_backrun_amount(&state, addr(10), addr(11), &swap(paid));
                let found = loan.map_or(0, |l| profit(l));
                assert!(best <= found + 28);
                assert_eq!(loan.is_some(), found > 0);
            }
        }
    }
}
