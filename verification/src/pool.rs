//! Pools, the swap that is about to move one of them, and the profit of a
//! flash loan taken from one pool and sold into the other after that swap.
use vstd::prelude::*;

use crate::address::Address;
use crate::amm::{
    amount_in, amount_out, apply_swap_effect, get_amount_in, get_amount_out, payout,
    payout_is_the_largest_allowed, price, swap_effect, trade_moves_what_is_traded,
};
use crate::curve::{
    between_trades, lemma_before_rounding, lemma_between_trades, lemma_nothing_traded,
    lemma_trade_brings, lemma_trade_costs, Curve,
};
use crate::search::{
    any_range_is_narrowed, first_best, first_best_is_greatest, follows, narrowed,
    narrowed_range_is_inside, narrowing_keeps_the_peak, peaks_at, search_keeps_most_of_the_gain,
};
use crate::table::{Key, Table};
use crate::u256::{amount, lemma_below_modulus, modulus, U256};

verus! {

/// What is known of a pool: its reserves, its fee in ten-thousandths and its
/// two tokens.
#[derive(Clone, Copy, Debug)]
pub struct PoolState {
    pub reserve0: U256,
    pub reserve1: U256,
    pub fee_bps: u32,
    pub token0: Address,
    pub token1: Address,
}

/// The values of what is known of a pool.
pub ghost struct PoolFacts {
    pub reserve0: nat,
    pub reserve1: nat,
    pub fee_bps: u32,
    pub token0: Seq<u8>,
    pub token1: Seq<u8>,
}

impl View for PoolState {
    type V = PoolFacts;

    open spec fn view(&self) -> PoolFacts {
        PoolFacts {
            reserve0: self.reserve0@,
            reserve1: self.reserve1@,
            fee_bps: self.fee_bps,
            token0: self.token0@,
            token1: self.token1@,
        }
    }
}

/// The pools whose reserves are known, by the address of the pool.
pub type MarketState = Table<Address, PoolState>;

/// A pending swap: what it pays in, and the tokens that it goes through.
pub struct VictimSwap {
    pub amount_in: U256,
    pub path: Vec<Address>,
}

/// The values of an optional pair of amounts.
pub open spec fn amounts(x: Option<(U256, U256)>) -> Option<(nat, nat)> {
    match x {
        Some((a, b)) => Some((a@, b@)),
        None => None,
    }
}

impl PoolState {
    /// The ten-thousandths of a payment that count after the fee.
    pub open spec fn gamma(&self) -> nat {
        if self.fee_bps <= 10_000 {
            (10_000 - self.fee_bps) as nat
        } else {
            0
        }
    }

    /// `r0` and `r1`, the amount that belongs to token `a` first; nothing where
    /// the pool does not trade `a` against `b`.
    pub open spec fn oriented(&self, a: Seq<u8>, b: Seq<u8>, r0: nat, r1: nat) -> Option<
        (nat, nat),
    > {
        if self.token0@ == a && self.token1@ == b {
            Some((r0, r1))
        } else if self.token1@ == a && self.token0@ == b {
            Some((r1, r0))
        } else {
            None
        }
    }

    /// The reserves, in the order of the pool, after a swap that pays `paid` of
    /// `token_in` for `token_out`.
    pub open spec fn after_swap(
        &self,
        token_in: Seq<u8>,
        token_out: Seq<u8>,
        paid: nat,
    ) -> Option<(nat, nat)> {
        if self.token0@ == token_in && self.token1@ == token_out {
            swap_effect(self.reserve0@, self.reserve1@, paid, self.gamma())
        } else if self.token1@ == token_in && self.token0@ == token_out {
            match swap_effect(self.reserve1@, self.reserve0@, paid, self.gamma()) {
                Some((r1, r0)) => Some((r0, r1)),
                None => None,
            }
        } else {
            None
        }
    }

    /// What has to be paid in `repay` for `borrowed` of the token `borrow`,
    /// where the pool holds `r0` and `r1`.
    pub open spec fn repayment(
        &self,
        borrow: Seq<u8>,
        repay: Seq<u8>,
        r0: nat,
        r1: nat,
        borrowed: nat,
    ) -> Option<nat> {
        match self.oriented(borrow, repay, r0, r1) {
            Some((reserve_borrow, reserve_repay)) => amount_in(
                borrowed,
                reserve_repay,
                reserve_borrow,
                self.gamma(),
            ),
            None => None,
        }
    }

    /// What `sold` of `token_out` brings in `token_in`, after a swap that paid
    /// `paid` of `token_in` for `token_out`.
    pub open spec fn sale(
        &self,
        token_in: Seq<u8>,
        token_out: Seq<u8>,
        paid: nat,
        sold: nat,
    ) -> Option<nat> {
        match self.after_swap(token_in, token_out, paid) {
            Some((r0, r1)) => match self.oriented(token_out, token_in, r0, r1) {
                Some((reserve_in, reserve_out)) => amount_out(
                    sold,
                    reserve_in,
                    reserve_out,
                    self.gamma(),
                ),
                None => None,
            },
            None => None,
        }
    }

    /// The ten-thousandths of a payment that count after the fee.
    pub fn gamma_num(&self) -> (r: U256)
        ensures
            r@ == self.gamma(),
    {
        U256::from_u64(10_000u64.saturating_sub(self.fee_bps as u64))
    }
}

/// What is left of `gained` after `spent`; nothing where it does not cover it.
pub open spec fn remainder(gained: Option<nat>, spent: Option<nat>) -> Option<nat> {
    match (gained, spent) {
        (Some(g), Some(s)) => if s <= g {
            Some((g - s) as nat)
        } else {
            None
        },
        _ => None,
    }
}

/// The reserves of a pool after the pending swap, in the order of the pool.
pub fn apply_victim_effect(
    pool: &PoolState,
    token_in: Address,
    token_out: Address,
    amount_in: U256,
) -> (r: Option<(U256, U256)>)
    ensures
        amounts(r) == pool.after_swap(token_in@, token_out@, amount_in@),
{
    let gamma = pool.gamma_num();
    if pool.token0.same(&token_in) && pool.token1.same(&token_out) {
        let (r0, r1) = apply_swap_effect(pool.reserve0, pool.reserve1, amount_in, gamma)?;
        Some((r0, r1))
    } else if pool.token1.same(&token_in) && pool.token0.same(&token_out) {
        let (r1, r0) = apply_swap_effect(pool.reserve1, pool.reserve0, amount_in, gamma)?;
        Some((r0, r1))
    } else {
        None
    }
}

/// Puts the amount that belongs to the token to repay first, and the one that
/// belongs to the borrowed token second.
pub fn orient_reserves(
    pool: &PoolState,
    repay_token: Address,
    borrow_token: Address,
    r0: U256,
    r1: U256,
) -> (r: Option<(U256, U256)>)
    ensures
        amounts(r) == pool.oriented(repay_token@, borrow_token@, r0@, r1@),
{
    if pool.token0.same(&repay_token) && pool.token1.same(&borrow_token) {
        Some((r0, r1))
    } else if pool.token1.same(&repay_token) && pool.token0.same(&borrow_token) {
        Some((r1, r0))
    } else {
        None
    }
}

/// What a flash loan from a pool has to pay back in the other token.
pub fn flash_repay_amount(
    pool: &PoolState,
    borrow_token: Address,
    repay_token: Address,
    r0: U256,
    r1: U256,
    borrow_amount: U256,
) -> (r: Option<U256>)
    ensures
        amount(r) == pool.repayment(borrow_token@, repay_token@, r0@, r1@, borrow_amount@),
{
    let (reserve_borrow, reserve_repay) = orient_reserves(pool, borrow_token, repay_token, r0, r1)?;
    get_amount_in(borrow_amount, reserve_repay, reserve_borrow, pool.gamma_num())
}

/// The profit of borrowing from `pool1`, selling into `pool2` after the pending
/// swap went through it, and paying back `pool1`; nothing where the sale does
/// not cover the repayment, or where either cannot be computed.
pub open spec fn arb_profit(
    pool1: PoolState,
    pool2: PoolState,
    token_in: Seq<u8>,
    token_out: Seq<u8>,
    paid: nat,
    borrowed: nat,
) -> Option<nat> {
    remainder(
        pool2.sale(token_in, token_out, paid, borrowed),
        pool1.repayment(
            token_out,
            token_in,
            pool1.reserve0@,
            pool1.reserve1@,
            borrowed,
        ),
    )
}

/// What the sale of the borrowed amount brings after the pending swap.
pub fn sale_amount(
    pool: &PoolState,
    token_in: Address,
    token_out: Address,
    paid: U256,
    sold: U256,
) -> (r: Option<U256>)
    ensures
        amount(r) == pool.sale(token_in@, token_out@, paid@, sold@),
{
    let (r0, r1) = apply_victim_effect(pool, token_in, token_out, paid)?;
    let (reserve_in, reserve_out) = orient_reserves(pool, token_out, token_in, r0, r1)?;
    get_amount_out(sold, reserve_in, reserve_out, pool.gamma_num())
}

/// The profit of backrunning the pending swap with a given loan.
pub fn estimate_arb_profit(
    pool1: &PoolState,
    pool2: &PoolState,
    victim: &VictimSwap,
    borrow_amount: U256,
) -> (r: Option<U256>)
    ensures
        amount(r) == (if victim.path@.len() >= 2 {
            arb_profit(
                *pool1,
                *pool2,
                victim.path@[0]@,
                victim.path@[1]@,
                victim.amount_in@,
                borrow_amount@,
            )
        } else {
            None
        }),
{
    if victim.path.len() < 2 {
        return None;
    }
    let token_in = victim.path[0];
    let token_out = victim.path[1];
    let repay_needed = flash_repay_amount(
        pool1,
        token_out,
        token_in,
        pool1.reserve0,
        pool1.reserve1,
        borrow_amount,
    )?;
    let out_repay = sale_amount(pool2, token_in, token_out, victim.amount_in, borrow_amount)?;
    out_repay.checked_sub(repay_needed)
}

/// The reserves that decide on a loan: what the lending pool holds of the
/// borrowed token, and what the other pool holds, after the pending swap, of the
/// borrowed token and of the token to repay.
pub ghost struct LoanTerms {
    pub lendable: nat,
    pub sale_in: nat,
    pub sale_out: nat,
}

/// The terms of a loan of `token_out` from `pool1`, sold into `pool2` for
/// `token_in` after a swap that paid `paid` of it.
pub open spec fn loan_terms(
    pool1: PoolState,
    pool2: PoolState,
    token_in: Seq<u8>,
    token_out: Seq<u8>,
    paid: nat,
) -> Option<LoanTerms> {
    match (
        pool1.oriented(token_in, token_out, pool1.reserve0@, pool1.reserve1@),
        pool2.after_swap(token_in, token_out, paid),
    ) {
        (Some((_, lendable)), Some((r0, r1))) => match pool2.oriented(
            token_in,
            token_out,
            r0,
            r1,
        ) {
            Some((sale_out, sale_in)) => Some(LoanTerms { lendable, sale_in, sale_out }),
            None => None,
        },
        _ => None,
    }
}

/// The profit of a loan above zero and below what the pool holds.
pub open spec fn loan_margin(
    pool1: PoolState,
    pool2: PoolState,
    token_in: Seq<u8>,
    token_out: Seq<u8>,
    terms: LoanTerms,
    loan: nat,
) -> Option<nat> {
    if 0 < loan < terms.lendable {
        remainder(
            amount_out(loan, terms.sale_in, terms.sale_out, pool2.gamma()),
            pool1.repayment(token_out, token_in, pool1.reserve0@, pool1.reserve1@, loan),
        )
    } else {
        None
    }
}

/// The profit of a loan, zero where there is none.
pub open spec fn loan_gain(
    pool1: PoolState,
    pool2: PoolState,
    token_in: Seq<u8>,
    token_out: Seq<u8>,
    terms: LoanTerms,
) -> spec_fn(nat) -> nat {
    |loan: nat|
        match loan_margin(pool1, pool2, token_in, token_out, terms, loan) {
            Some(profit) => profit,
            None => 0,
        }
}

/// How often the range of loans is narrowed at most: enough to leave no more than
/// three loans of any range of 256-bit numbers.
pub const SEARCH_STEPS: u32 = 440;

/// The most profitable loan of those that the narrowing leaves, the lowest one
/// where there are several.
pub open spec fn searched_loan(
    pool1: PoolState,
    pool2: PoolState,
    token_in: Seq<u8>,
    token_out: Seq<u8>,
    terms: LoanTerms,
) -> nat {
    let gain = loan_gain(pool1, pool2, token_in, token_out, terms);
    let left = narrowed(gain, 1, (terms.lendable - 1) as nat, SEARCH_STEPS as nat);
    first_best(gain, left.0, left.1)
}

/// The loan that the search finds, where it is profitable.
pub open spec fn best_loan(
    pool1: PoolState,
    pool2: PoolState,
    token_in: Seq<u8>,
    token_out: Seq<u8>,
    paid: nat,
) -> Option<nat> {
    match loan_terms(pool1, pool2, token_in, token_out, paid) {
        Some(terms) => {
            let loan = searched_loan(pool1, pool2, token_in, token_out, terms);
            match loan_margin(pool1, pool2, token_in, token_out, terms, loan) {
                Some(profit) => if profit > 0 {
                    Some(loan)
                } else {
                    None
                },
                None => None,
            }
        },
        None => None,
    }
}

/// A search for the best loan.
struct LoanSearch {
    pool1: PoolState,
    pool2: PoolState,
    token_in: Address,
    token_out: Address,
    lendable: U256,
    sale_in: U256,
    sale_out: U256,
}

impl LoanSearch {
    spec fn terms(&self) -> LoanTerms {
        LoanTerms { lendable: self.lendable@, sale_in: self.sale_in@, sale_out: self.sale_out@ }
    }

    spec fn margin(&self, loan: nat) -> Option<nat> {
        loan_margin(self.pool1, self.pool2, self.token_in@, self.token_out@, self.terms(), loan)
    }

    spec fn gain(&self) -> spec_fn(nat) -> nat {
        loan_gain(self.pool1, self.pool2, self.token_in@, self.token_out@, self.terms())
    }

    /// The profit of a loan.
    fn profit_at(&self, loan: U256) -> (r: Option<U256>)
        ensures
            amount(r) == self.margin(loan@),
    {
        if loan.is_zero() || !loan.less_than(&self.lendable) {
            return None;
        }
        let sold_out = get_amount_out(loan, self.sale_in, self.sale_out, self.pool2.gamma_num())?;
        let repay = flash_repay_amount(
            &self.pool1,
            self.token_out,
            self.token_in,
            self.pool1.reserve0,
            self.pool1.reserve1,
            loan,
        )?;
        sold_out.checked_sub(repay)
    }

    fn gain_at(&self, loan: U256) -> (r: U256)
        ensures
            r@ == (self.gain())(loan@),
    {
        match self.profit_at(loan) {
            Some(profit) => profit,
            None => U256::zero(),
        }
    }

    /// Drops the third of a range beyond the lower one of the profits at one third
    /// and at two thirds of it.
    fn narrow(&self, lo: U256, hi: U256, third: U256) -> (r: (U256, U256))
        requires
            lo@ <= hi@,
            third@ == (hi@ - lo@) / 3,
        ensures
            (r.0@, r.1@) == (if (self.gain())((lo@ + third@) as nat) < (self.gain())(
                (hi@ - third@) as nat,
            ) {
                ((lo@ + third@) as nat, hi@)
            } else {
                (lo@, (hi@ - third@) as nat)
            }),
    {
        proof {
            lemma_below_modulus(hi);
        }
        let m1 = lo.wrapping_add(third);
        let m2 = hi.saturating_sub(third);
        let p1 = self.gain_at(m1);
        let p2 = self.gain_at(m2);
        if p1.less_than(&p2) {
            (m1, hi)
        } else {
            (lo, m2)
        }
    }

    /// The most profitable one of at most three loans, the lowest one where there
    /// are several.
    fn best_of(&self, lo: U256, hi: U256) -> (r: U256)
        requires
            lo@ <= hi@ <= lo@ + 2,
        ensures
            r@ == first_best(self.gain(), lo@, hi@),
    {
        let one = U256::from_u64(1);
        let mut best = lo;
        let mut most = self.gain_at(lo);
        let mut at = lo;
        while at.less_than(&hi)
            invariant
                one@ == 1,
                lo@ <= at@ <= hi@,
                best@ == first_best(self.gain(), lo@, at@),
                most@ == (self.gain())(best@),
            decreases hi@ - at@,
        {
            proof {
                lemma_below_modulus(hi);
            }
            at = at.wrapping_add(one);
            let gain = self.gain_at(at);
            if most.less_than(&gain) {
                best = at;
                most = gain;
            }
        }
        best
    }

    /// Searches for the best loan by thirds.
    fn run(&self) -> (r: Option<U256>)
        ensures
            amount(r) == (match self.margin(
                searched_loan(
                    self.pool1,
                    self.pool2,
                    self.token_in@,
                    self.token_out@,
                    self.terms(),
                ),
            ) {
                Some(profit) => if profit > 0 {
                    Some(
                        searched_loan(
                            self.pool1,
                            self.pool2,
                            self.token_in@,
                            self.token_out@,
                            self.terms(),
                        ),
                    )
                } else {
                    None
                },
                None => None,
            }),
    {
        broadcast use lemma_below_modulus;

        let one = U256::from_u64(1);
        let three = U256::from_u64(3);
        let mut lo = one;
        let mut hi = self.lendable.saturating_sub(one);
        if hi.less_than(&lo) {
            return None;
        }
        let ghost goal = narrowed(
            self.gain(),
            1,
            (self.lendable@ - 1) as nat,
            SEARCH_STEPS as nat,
        );
        let mut step: u32 = 0;
        while step < SEARCH_STEPS && lo.less_than(&hi)
            invariant
                three@ == 3,
                step <= SEARCH_STEPS,
                1 <= lo@ <= hi@,
                goal == narrowed(self.gain(), lo@, hi@, (SEARCH_STEPS - step) as nat),
            ensures
                1 <= lo@ <= hi@,
                goal == (lo@, hi@),
            decreases SEARCH_STEPS - step,
        {
            let third = hi.saturating_sub(lo).quotient(three);
            if third.is_zero() {
                break;
            }
            let (below, above) = self.narrow(lo, hi, third);
            lo = below;
            hi = above;
            step = step + 1;
        }
        proof {
            any_range_is_narrowed(self.gain(), 1, (self.lendable@ - 1) as nat);
        }
        let optimal = self.best_of(lo, hi);
        match self.profit_at(optimal) {
            Some(profit) => if profit.is_zero() {
                None
            } else {
                Some(optimal)
            },
            None => None,
        }
    }
}

/// The best loan from one pool of the market for a sale into another one, after
/// the pending swap went through that one.
pub open spec fn best_market_loan(
    market: Map<Seq<u8>, PoolState>,
    pair1: Seq<u8>,
    pair2: Seq<u8>,
    path: Seq<Address>,
    paid: nat,
) -> Option<nat> {
    if market.dom().contains(pair1) && market.dom().contains(pair2) && path.len() >= 2 {
        best_loan(market[pair1], market[pair2], path[0]@, path[1]@, paid)
    } else {
        None
    }
}

/// The loan with which to backrun the pending swap: borrowed from `pair1`, sold
/// into `pair2`, found by a search by thirds over the profit.
pub fn compute_optimal_backrun_amount(
    state: &MarketState,
    pair1: Address,
    pair2: Address,
    victim: &VictimSwap,
) -> (r: Option<U256>)
    ensures
        amount(r) == best_market_loan(
            state@,
            pair1@,
            pair2@,
            victim.path@,
            victim.amount_in@,
        ),
{
    let p1 = *state.get(&pair1)?;
    let p2 = *state.get(&pair2)?;
    if victim.path.len() < 2 {
        return None;
    }
    let token_in = victim.path[0];
    let token_out = victim.path[1];
    let (_, lendable) = orient_reserves(&p1, token_in, token_out, p1.reserve0, p1.reserve1)?;
    let (r0, r1) = apply_victim_effect(&p2, token_in, token_out, victim.amount_in)?;
    let (sale_out, sale_in) = orient_reserves(&p2, token_in, token_out, r0, r1)?;
    let search = LoanSearch {
        pool1: p1,
        pool2: p2,
        token_in,
        token_out,
        lendable,
        sale_in,
        sale_out,
    };
    search.run()
}

/// A loan that the search finds makes a profit by the estimate too. Left out is
/// a swap of a token for itself, on which the two read the reserves in opposite
/// order.
pub proof fn found_loan_is_profitable(
    pool1: PoolState,
    pool2: PoolState,
    token_in: Seq<u8>,
    token_out: Seq<u8>,
    paid: nat,
)
    requires
        token_in != token_out,
    ensures
        best_loan(pool1, pool2, token_in, token_out, paid) matches Some(loan) ==> arb_profit(
            pool1,
            pool2,
            token_in,
            token_out,
            paid,
            loan,
        ) is Some && arb_profit(pool1, pool2, token_in, token_out, paid, loan)->0 > 0,
{
}

/// A loan that the search finds leaves something in the pool that lends it.
pub proof fn found_loan_can_be_lent(
    pool1: PoolState,
    pool2: PoolState,
    token_in: Seq<u8>,
    token_out: Seq<u8>,
    paid: nat,
)
    ensures
        best_loan(pool1, pool2, token_in, token_out, paid) matches Some(loan) ==> (
        pool1.oriented(token_in, token_out, pool1.reserve0@, pool1.reserve1@) matches Some(held)
            && 0 < loan < held.1),
{
}

/// Where the profit rises with the loan up to a peak and does not rise after it,
/// the search ends at the peak.
pub proof fn search_ends_at_the_peak(
    pool1: PoolState,
    pool2: PoolState,
    token_in: Seq<u8>,
    token_out: Seq<u8>,
    terms: LoanTerms,
    peak: nat,
)
    requires
        terms.lendable >= 2,
        peaks_at(
            loan_gain(pool1, pool2, token_in, token_out, terms),
            peak,
            1,
            (terms.lendable - 1) as nat,
        ),
    ensures
        searched_loan(pool1, pool2, token_in, token_out, terms) == peak,
{
    let gain = loan_gain(pool1, pool2, token_in, token_out, terms);
    let hi = (terms.lendable - 1) as nat;
    narrowing_keeps_the_peak(gain, peak, 1, hi, SEARCH_STEPS as nat);
    narrowed_range_is_inside(gain, 1, hi, SEARCH_STEPS as nat);
    let left = narrowed(gain, 1, hi, SEARCH_STEPS as nat);
    first_best_is_greatest(gain, left.0, left.1);
    let found = first_best(gain, left.0, left.1);
    assert(gain(peak) <= gain(found));
    if found < peak {
        assert(gain(found) < gain(peak));
    } else if peak < found {
        assert(gain(peak) < gain(found));
    }
}

/// The curve that the profit of a loan follows: the profit without rounding.
pub open spec fn loan_curve(terms: LoanTerms, held: nat, gamma1: nat, gamma2: nat) -> Curve {
    between_trades(
        terms.sale_out as real,
        (terms.sale_in * 10_000) as real / gamma2 as real,
        (held * 10_000) as real / gamma1 as real,
        terms.lendable as real,
    )
}

/// What the sale brings less what is paid back lies below the curve, by less than
/// two.
proof fn lemma_loan_follows(
    terms: LoanTerms,
    held: nat,
    gamma1: nat,
    gamma2: nat,
    loan: nat,
)
    requires
        terms.sale_in > 0,
        gamma1 > 0,
        gamma2 > 0,
        loan < terms.lendable,
    ensures
        ({
            let curve = loan_curve(terms, held, gamma1, gamma2);
            let balance = payout(loan, terms.sale_in, terms.sale_out, gamma2) - price(
                loan,
                held,
                terms.lendable,
                gamma1,
            ) - 1;
            curve.covers(loan) && curve.at(loan) - 2real < (balance as real) < curve.at(loan)
        }),
{
    let d = terms.sale_in * 10_000 + loan * gamma2;
    let e = (terms.lendable - loan) * gamma1;
    let (brought, asked) = (loan * gamma2 * terms.sale_out, held * loan * 10_000);
    assert(d > 0 && e > 0 && brought >= 0 && asked >= 0) by (nonlinear_arith)
        requires
            d == terms.sale_in * 10_000 + loan * gamma2,
            e == (terms.lendable - loan) * gamma1,
            brought == loan * gamma2 * terms.sale_out,
            asked == held * loan * 10_000,
            terms.sale_in > 0,
            gamma1 > 0,
            loan < terms.lendable,
    ;
    let gained = lemma_before_rounding(brought as int, d as int);
    let spent = lemma_before_rounding(asked as int, e);
    let b = lemma_trade_brings(
        gained,
        loan as int,
        (loan * gamma2) as int,
        brought as int,
        (terms.sale_in * 10_000) as int,
        terms.sale_out as int,
        gamma2 as int,
    );
    let c = lemma_trade_costs(
        spent,
        loan as int,
        held as int,
        terms.lendable as int,
        gamma1 as int,
    );
    lemma_between_trades(
        terms.sale_out as real,
        b,
        c,
        terms.lendable as real,
        loan,
        gained,
        spent,
    );
}

/// The search finds almost the best loan: no other loan's profit is more than 28 of
/// the smallest units of the token above that of the loan that it ends at, however
/// large the pools are. The reserves are those that a pool can hold, below two to the
/// power of 112. Left out is a swap of a token for itself.
pub proof fn search_finds_almost_the_best_loan(
    pool1: PoolState,
    pool2: PoolState,
    token_in: Seq<u8>,
    token_out: Seq<u8>,
    paid: nat,
    terms: LoanTerms,
    other: nat,
)
    requires
        token_in != token_out,
        loan_terms(pool1, pool2, token_in, token_out, paid) == Some(terms),
        pool1.reserve0@ < 0x1_0000_0000_0000_0000_0000_0000_0000,
        pool1.reserve1@ < 0x1_0000_0000_0000_0000_0000_0000_0000,
        terms.sale_in < 0x1_0000_0000_0000_0000_0000_0000_0000,
        terms.sale_out < 0x1_0000_0000_0000_0000_0000_0000_0000,
        0 < other < terms.lendable,
    ensures
        ({
            let found = searched_loan(pool1, pool2, token_in, token_out, terms);
            let gain = loan_gain(pool1, pool2, token_in, token_out, terms);
            gain(other) <= gain(found) + 28
        }),
{
    let gain = loan_gain(pool1, pool2, token_in, token_out, terms);
    let end = (terms.lendable - 1) as nat;
    let (held, _) = pool1.oriented(token_in, token_out, pool1.reserve0@, pool1.reserve1@)->0;
    let (gamma1, gamma2) = (pool1.gamma(), pool2.gamma());
    let left = narrowed(gain, 1, end, SEARCH_STEPS as nat);
    narrowed_range_is_inside(gain, 1, end, SEARCH_STEPS as nat);
    first_best_is_greatest(gain, left.0, left.1);
    if terms.sale_in == 0 || terms.sale_out == 0 || gamma1 == 0 || gamma2 == 0 {
        assert(gain(other) == 0) by {
            lemma_no_trade_no_gain(pool1, pool2, token_in, token_out, terms, other);
        }
    } else {
        let curve = loan_curve(terms, held, gamma1, gamma2);
        lemma_nothing_traded(
            terms.sale_out,
            terms.sale_in * 10_000,
            gamma2,
            held * 10_000,
            gamma1,
            terms.lendable,
        );
        assert(curve.covers(end)) by {
            lemma_loan_follows(terms, held, gamma1, gamma2, end);
        }
        assert forall|l: nat| 1 <= l <= end implies curve.at(l) - 2real < (#[trigger] gain(
            l,
        ) as real) && (gain(l) > 0 ==> (gain(l) as real) < curve.at(l)) by {
            lemma_loan_follows(terms, held, gamma1, gamma2, l);
            lemma_loan_fits(l, held, terms.lendable, gamma1, terms.sale_in, terms.sale_out, gamma2);
            assert(pool1.oriented(token_out, token_in, pool1.reserve0@, pool1.reserve1@) == Some(
                (terms.lendable, held),
            ));
            assert(amount_out(l, terms.sale_in, terms.sale_out, gamma2) == Some(
                payout(l, terms.sale_in, terms.sale_out, gamma2),
            ));
            let e = (terms.lendable - l) * gamma1;
            assert(e > 0) by (nonlinear_arith)
                requires
                    e == (terms.lendable - l) * gamma1,
                    l < terms.lendable,
                    gamma1 > 0,
            ;
            assert(amount_in(l, held, terms.lendable, gamma1) == Some(
                (price(l, held, terms.lendable, gamma1) + 1) as nat,
            ));
        }
        assert(follows(gain, curve, end));
        let kept = search_keeps_most_of_the_gain(gain, curve, 1, end, SEARCH_STEPS as nat, other);
        assert(gain(kept) <= gain(first_best(gain, left.0, left.1)));
    }
}

/// No loan makes a profit of more than 28 of the smallest units above that of the
/// loan that is returned; where none is returned, no loan makes more than that. The
/// reserves are those that a pool can hold, below two to the power of 112. Left out
/// is a swap of a token for itself.
pub proof fn no_loan_is_much_better(
    pool1: PoolState,
    pool2: PoolState,
    token_in: Seq<u8>,
    token_out: Seq<u8>,
    paid: nat,
    terms: LoanTerms,
    other: nat,
)
    requires
        token_in != token_out,
        loan_terms(pool1, pool2, token_in, token_out, paid) == Some(terms),
        pool1.reserve0@ < 0x1_0000_0000_0000_0000_0000_0000_0000,
        pool1.reserve1@ < 0x1_0000_0000_0000_0000_0000_0000_0000,
        terms.sale_in < 0x1_0000_0000_0000_0000_0000_0000_0000,
        terms.sale_out < 0x1_0000_0000_0000_0000_0000_0000_0000,
    ensures
        arb_profit(pool1, pool2, token_in, token_out, paid, other) matches Some(profit) ==> match
        best_loan(pool1, pool2, token_in, token_out, paid) {
            Some(loan) => profit <= arb_profit(
                pool1,
                pool2,
                token_in,
                token_out,
                paid,
                loan,
            )->0 + 28,
            None => profit <= 28,
        },
{
    if 0 < other < terms.lendable {
        search_finds_almost_the_best_loan(
            pool1,
            pool2,
            token_in,
            token_out,
            paid,
            terms,
            other,
        );
        let found = searched_loan(pool1, pool2, token_in, token_out, terms);
        let gain = loan_gain(pool1, pool2, token_in, token_out, terms);
        assert(gain(other) <= gain(found) + 28);
    }
}

proof fn lemma_no_trade_no_gain(
    pool1: PoolState,
    pool2: PoolState,
    token_in: Seq<u8>,
    token_out: Seq<u8>,
    terms: LoanTerms,
    loan: nat,
)
    requires
        terms.sale_in == 0 || terms.sale_out == 0 || pool1.gamma() == 0 || pool2.gamma() == 0,
    ensures
        loan_gain(pool1, pool2, token_in, token_out, terms)(loan) == 0,
{
    let gamma2 = pool2.gamma();
    let with_fee = loan * gamma2;
    let d = terms.sale_in * 10_000 + with_fee;
    if gamma2 == 0 && terms.sale_in > 0 {
        assert(with_fee == 0 && with_fee * terms.sale_out == 0) by (nonlinear_arith)
            requires
                gamma2 == 0,
                with_fee == loan * gamma2,
        ;
        assert(0nat / d == 0) by (nonlinear_arith)
            requires
                d > 0,
        ;
    }
}

/// No term of a loan takes more than 256 bits.
proof fn lemma_loan_fits(
    loan: nat,
    held: nat,
    lendable: nat,
    gamma1: nat,
    sale_in: nat,
    sale_out: nat,
    gamma2: nat,
)
    requires
        loan < lendable,
        held < 0x1_0000_0000_0000_0000_0000_0000_0000,
        lendable < 0x1_0000_0000_0000_0000_0000_0000_0000,
        sale_in < 0x1_0000_0000_0000_0000_0000_0000_0000,
        sale_out < 0x1_0000_0000_0000_0000_0000_0000_0000,
        gamma1 <= 10_000,
        gamma2 <= 10_000,
    ensures
        loan * gamma2 * sale_out < modulus(),
        sale_in * 10_000 + loan * gamma2 < modulus(),
        held * loan * 10_000 < modulus(),
        (lendable - loan) * gamma1 < modulus(),
{
    let limit = 0x1_0000_0000_0000_0000_0000_0000_0000int;
    let with_fee = loan * gamma2;
    let product = held * loan;
    assert(with_fee <= limit * 10_000) by (nonlinear_arith)
        requires
            with_fee == loan * gamma2,
            loan <= limit,
            gamma2 <= 10_000,
    ;
    assert(with_fee * sale_out <= (limit * 10_000) * limit) by (nonlinear_arith)
        requires
            with_fee <= limit * 10_000,
            sale_out <= limit,
            limit > 0,
    ;
    assert(product <= limit * limit) by (nonlinear_arith)
        requires
            product == held * loan,
            held <= limit,
            loan <= limit,
    ;
    assert((lendable - loan) * gamma1 <= limit * 10_000) by (nonlinear_arith)
        requires
            0 <= lendable - loan <= limit,
            gamma1 <= 10_000,
    ;
}

/// The fee and what counts of a payment make up the whole, for any fee up to the
/// whole; beyond that nothing counts.
pub proof fn fee_and_rest_make_the_whole(pool: PoolState)
    ensures
        pool.fee_bps <= 10_000 ==> pool.gamma() + pool.fee_bps == 10_000,
        pool.fee_bps > 10_000 ==> pool.gamma() == 0,
{
}

/// The same pool with its two sides exchanged.
pub open spec fn mirrored(pool: PoolState) -> PoolState {
    PoolState {
        reserve0: pool.reserve1,
        reserve1: pool.reserve0,
        fee_bps: pool.fee_bps,
        token0: pool.token1,
        token1: pool.token0,
    }
}

/// Amounts are put in order by the token that they belong to: the one of the first
/// named token comes first, on whichever side of the pool it is. There are none
/// exactly where the pool trades other tokens.
pub proof fn amounts_follow_their_tokens(pool: PoolState, a: Seq<u8>, b: Seq<u8>, x: nat, y: nat)
    ensures
        pool.token0@ == a && pool.token1@ == b ==> pool.oriented(a, b, x, y) == Some((x, y)),
        pool.token0@ == b && pool.token1@ == a && a != b ==> pool.oriented(a, b, x, y) == Some(
            (y, x),
        ),
        pool.oriented(a, b, x, y) is None <==> !(pool.token0@ == a && pool.token1@ == b)
            && !(pool.token0@ == b && pool.token1@ == a),
        a != b ==> pool.oriented(a, b, x, y) == mirrored(pool).oriented(a, b, y, x),
{
}

/// A swap pays into the reserve of the token that it pays with and takes from the
/// reserve of the other one, on whichever side of the pool each is: the first grows by
/// the payment, the second shrinks by the payout for it. A pool of other tokens has no
/// reserves after the swap.
pub proof fn swap_moves_the_reserves_of_its_tokens(
    pool: PoolState,
    token_in: Seq<u8>,
    token_out: Seq<u8>,
    paid: nat,
)
    requires
        token_in != token_out,
        pool.reserve0@ + paid < modulus(),
        pool.reserve1@ + paid < modulus(),
    ensures
        ({
            let (r0, r1) = (pool.reserve0@, pool.reserve1@);
            let after = pool.after_swap(token_in, token_out, paid);
            &&& pool.token0@ == token_in && pool.token1@ == token_out ==> {
                let out = amount_out(paid, r0, r1, pool.gamma());
                &&& after is Some <==> out is Some
                &&& after matches Some((new0, new1)) ==> new0 == r0 + paid && new1 + out->0 == r1
            }
            &&& pool.token1@ == token_in && pool.token0@ == token_out ==> {
                let out = amount_out(paid, r1, r0, pool.gamma());
                &&& after is Some <==> out is Some
                &&& after matches Some((new0, new1)) ==> new1 == r1 + paid && new0 + out->0 == r0
            }
            &&& after is Some ==> (pool.token0@ == token_in || pool.token1@ == token_in) && (
            pool.token0@ == token_out || pool.token1@ == token_out)
        }),
{
    trade_moves_what_is_traded(pool.reserve0@, pool.reserve1@, paid, pool.gamma());
    trade_moves_what_is_traded(pool.reserve1@, pool.reserve0@, paid, pool.gamma());
}

/// A swap gains the pool what is paid and costs it what is bought: the reserve of the
/// paid token rises by the payment, and that of the bought one does not rise.
pub proof fn swap_never_drains_the_paid_side(
    pool: PoolState,
    token_in: Seq<u8>,
    token_out: Seq<u8>,
    paid: nat,
)
    requires
        token_in != token_out,
        pool.reserve0@ + paid < modulus(),
        pool.reserve1@ + paid < modulus(),
    ensures
        pool.after_swap(token_in, token_out, paid) matches Some((new0, new1)) ==> {
            &&& pool.token0@ == token_in ==> new0 - pool.reserve0@ == paid && new1
                <= pool.reserve1@
            &&& pool.token1@ == token_in ==> new1 - pool.reserve1@ == paid && new0
                <= pool.reserve0@
        },
{
    swap_moves_the_reserves_of_its_tokens(pool, token_in, token_out, paid);
}

/// Which side of a pool a token is on makes no difference: a pool and its mirror image
/// have mirrored reserves after a swap, and ask and pay the same for a loan and for a
/// sale.
pub proof fn sides_make_no_difference(
    pool: PoolState,
    token_in: Seq<u8>,
    token_out: Seq<u8>,
    paid: nat,
    traded: nat,
)
    requires
        token_in != token_out,
    ensures
        pool.after_swap(token_in, token_out, paid) is Some <==> mirrored(pool).after_swap(
            token_in,
            token_out,
            paid,
        ) is Some,
        pool.after_swap(token_in, token_out, paid) matches Some((a, b)) ==> mirrored(
            pool,
        ).after_swap(token_in, token_out, paid) == Some((b, a)),
        pool.sale(token_in, token_out, paid, traded) == mirrored(pool).sale(
            token_in,
            token_out,
            paid,
            traded,
        ),
        pool.repayment(token_out, token_in, pool.reserve0@, pool.reserve1@, traded) == mirrored(
            pool,
        ).repayment(token_out, token_in, pool.reserve1@, pool.reserve0@, traded),
{
}

/// A loan is paid back at the price of a trade that takes the borrowed token from its
/// own reserve and pays into the reserve of the other one, on whichever side each is.
pub proof fn loan_is_repaid_in_the_other_token(
    pool: PoolState,
    borrow: Seq<u8>,
    repay: Seq<u8>,
    r0: nat,
    r1: nat,
    borrowed: nat,
)
    requires
        borrow != repay,
    ensures
        pool.token0@ == borrow && pool.token1@ == repay ==> pool.repayment(
            borrow,
            repay,
            r0,
            r1,
            borrowed,
        ) == amount_in(borrowed, r1, r0, pool.gamma()),
        pool.token1@ == borrow && pool.token0@ == repay ==> pool.repayment(
            borrow,
            repay,
            r0,
            r1,
            borrowed,
        ) == amount_in(borrowed, r0, r1, pool.gamma()),
        pool.repayment(borrow, repay, r0, r1, borrowed) is Some ==> (pool.token0@ == borrow
            || pool.token1@ == borrow) && (pool.token0@ == repay || pool.token1@ == repay),
{
}

/// The borrowed token is sold back into the pool that the pending swap moved: into
/// the reserve that the swap took from, out of the one that it paid into, on whichever
/// side each is.
pub proof fn sale_goes_against_the_swap(
    pool: PoolState,
    token_in: Seq<u8>,
    token_out: Seq<u8>,
    paid: nat,
    sold: nat,
)
    requires
        token_in != token_out,
        pool.reserve0@ + paid < modulus(),
        pool.reserve1@ + paid < modulus(),
    ensures
        ({
            let (r0, r1) = (pool.reserve0@, pool.reserve1@);
            let brought = pool.sale(token_in, token_out, paid, sold);
            let g = pool.gamma();
            &&& pool.token0@ == token_in && pool.token1@ == token_out ==> match amount_out(
                paid,
                r0,
                r1,
                g,
            ) {
                Some(out) => brought == amount_out(sold, (r1 - out) as nat, r0 + paid, g),
                None => brought is None,
            }
            &&& pool.token1@ == token_in && pool.token0@ == token_out ==> match amount_out(
                paid,
                r1,
                r0,
                g,
            ) {
                Some(out) => brought == amount_out(sold, (r0 - out) as nat, r1 + paid, g),
                None => brought is None,
            }
            &&& brought is Some ==> (pool.token0@ == token_in || pool.token1@ == token_in) && (
            pool.token0@ == token_out || pool.token1@ == token_out)
        }),
{
    swap_moves_the_reserves_of_its_tokens(pool, token_in, token_out, paid);
    payout_is_the_largest_allowed(paid, pool.reserve0@, pool.reserve1@, pool.gamma());
    payout_is_the_largest_allowed(paid, pool.reserve1@, pool.reserve0@, pool.gamma());
}

/// The profit is what the sale brings above the repayment: the two make up the sale.
/// There is one exactly where both are known and the sale covers the repayment.
pub proof fn profit_is_what_the_sale_leaves(
    pool1: PoolState,
    pool2: PoolState,
    token_in: Seq<u8>,
    token_out: Seq<u8>,
    paid: nat,
    borrowed: nat,
)
    ensures
        ({
            let sold = pool2.sale(token_in, token_out, paid, borrowed);
            let owed = pool1.repayment(
                token_out,
                token_in,
                pool1.reserve0@,
                pool1.reserve1@,
                borrowed,
            );
            let profit = arb_profit(pool1, pool2, token_in, token_out, paid, borrowed);
            &&& profit is Some <==> sold is Some && owed is Some && owed->0 <= sold->0
            &&& profit is Some ==> profit->0 + owed->0 == sold->0
        }),
{
}

/// The loan that is found and its profit do not depend on which side of either pool a
/// token is on.
pub proof fn loan_ignores_the_sides(
    pool1: PoolState,
    pool2: PoolState,
    token_in: Seq<u8>,
    token_out: Seq<u8>,
    paid: nat,
    borrowed: nat,
)
    requires
        token_in != token_out,
    ensures
        best_loan(pool1, pool2, token_in, token_out, paid) == best_loan(
            mirrored(pool1),
            pool2,
            token_in,
            token_out,
            paid,
        ),
        best_loan(pool1, pool2, token_in, token_out, paid) == best_loan(
            pool1,
            mirrored(pool2),
            token_in,
            token_out,
            paid,
        ),
        arb_profit(pool1, pool2, token_in, token_out, paid, borrowed) == arb_profit(
            mirrored(pool1),
            pool2,
            token_in,
            token_out,
            paid,
            borrowed,
        ),
        arb_profit(pool1, pool2, token_in, token_out, paid, borrowed) == arb_profit(
            pool1,
            mirrored(pool2),
            token_in,
            token_out,
            paid,
            borrowed,
        ),
{
    let (m1, m2) = (mirrored(pool1), mirrored(pool2));
    sides_make_no_difference(pool1, token_in, token_out, paid, borrowed);
    sides_make_no_difference(pool2, token_in, token_out, paid, borrowed);
    let terms = loan_terms(pool1, pool2, token_in, token_out, paid);
    assert(loan_terms(m1, pool2, token_in, token_out, paid) == terms);
    assert(loan_terms(pool1, m2, token_in, token_out, paid) == terms);
    if let Some(t) = terms {
        let gain = loan_gain(pool1, pool2, token_in, token_out, t);
        assert forall|l: nat| loan_margin(m1, pool2, token_in, token_out, t, l) == #[trigger]
            loan_margin(pool1, pool2, token_in, token_out, t, l) by {
            sides_make_no_difference(pool1, token_in, token_out, paid, l);
        }
        assert(gain =~= loan_gain(m1, pool2, token_in, token_out, t));
        assert(gain =~= loan_gain(pool1, m2, token_in, token_out, t));
    }
}

/// No loan makes a profit of more than 28 of the smallest units above that of the loan
/// that is returned, and where none is returned, no loan makes more than that: for any
/// two pools with reserves that a pool can hold, before the swap and after it, below
/// two to the power of 112. Left out is a swap of a token for itself.
pub proof fn found_loan_is_almost_the_best(
    pool1: PoolState,
    pool2: PoolState,
    token_in: Seq<u8>,
    token_out: Seq<u8>,
    paid: nat,
    other: nat,
)
    requires
        token_in != token_out,
        pool1.reserve0@ < 0x1_0000_0000_0000_0000_0000_0000_0000,
        pool1.reserve1@ < 0x1_0000_0000_0000_0000_0000_0000_0000,
        pool2.reserve0@ + paid < 0x1_0000_0000_0000_0000_0000_0000_0000,
        pool2.reserve1@ + paid < 0x1_0000_0000_0000_0000_0000_0000_0000,
    ensures
        arb_profit(pool1, pool2, token_in, token_out, paid, other) matches Some(profit) ==> match
        best_loan(pool1, pool2, token_in, token_out, paid) {
            Some(loan) => arb_profit(pool1, pool2, token_in, token_out, paid, loan) is Some
                && profit <= arb_profit(pool1, pool2, token_in, token_out, paid, loan)->0 + 28,
            None => profit <= 28,
        },
{
    swap_moves_the_reserves_of_its_tokens(pool2, token_in, token_out, paid);
    found_loan_is_profitable(pool1, pool2, token_in, token_out, paid);
    if arb_profit(pool1, pool2, token_in, token_out, paid, other) is Some {
        let terms = loan_terms(pool1, pool2, token_in, token_out, paid);
        assert(terms is Some);
        no_loan_is_much_better(pool1, pool2, token_in, token_out, paid, terms->0, other);
    }
}

/// Where the lending pool has at most four units, all loans are compared: none is more
/// profitable than the one that is returned, none below it is as profitable, and
/// where none is returned, none makes a profit. Left out is a swap of a token for
/// itself.
pub proof fn few_loans_are_all_compared(
    pool1: PoolState,
    pool2: PoolState,
    token_in: Seq<u8>,
    token_out: Seq<u8>,
    paid: nat,
    other: nat,
)
    requires
        token_in != token_out,
        pool1.reserve0@ <= 4,
        pool1.reserve1@ <= 4,
        other > 0,
    ensures
        arb_profit(pool1, pool2, token_in, token_out, paid, other) matches Some(profit) ==> match
        best_loan(pool1, pool2, token_in, token_out, paid) {
            Some(loan) => {
                let most = arb_profit(pool1, pool2, token_in, token_out, paid, loan);
                most is Some && profit <= most->0 && (other < loan ==> profit < most->0)
            },
            None => profit == 0,
        },
{
    found_loan_is_profitable(pool1, pool2, token_in, token_out, paid);
    if arb_profit(pool1, pool2, token_in, token_out, paid, other) is Some {
        let terms = loan_terms(pool1, pool2, token_in, token_out, paid)->0;
        let gain = loan_gain(pool1, pool2, token_in, token_out, terms);
        let end = (terms.lendable - 1) as nat;
        assert(0 < other < terms.lendable);
        assert(narrowed(gain, 1, end, SEARCH_STEPS as nat) == (1nat, end));
        first_best_is_greatest(gain, 1, end);
        assert(gain(other) <= gain(first_best(gain, 1, end)));
    }
}

/// Where the profit rises with the loan up to a peak, does not rise after it, and is
/// above zero there, the loan that is returned is the peak.
pub proof fn profitable_peak_is_returned(
    pool1: PoolState,
    pool2: PoolState,
    token_in: Seq<u8>,
    token_out: Seq<u8>,
    paid: nat,
    terms: LoanTerms,
    peak: nat,
)
    requires
        token_in != token_out,
        loan_terms(pool1, pool2, token_in, token_out, paid) == Some(terms),
        terms.lendable >= 2,
        peaks_at(
            loan_gain(pool1, pool2, token_in, token_out, terms),
            peak,
            1,
            (terms.lendable - 1) as nat,
        ),
        arb_profit(pool1, pool2, token_in, token_out, paid, peak) matches Some(profit) && profit
            > 0,
    ensures
        best_loan(pool1, pool2, token_in, token_out, paid) == Some(peak),
{
    search_ends_at_the_peak(pool1, pool2, token_in, token_out, terms, peak);
}

/// What is known before a loan is looked for: what the lending pool holds of the
/// token that the swap buys, and what the other pool holds of both after the swap, on
/// whichever side each token is.
pub proof fn terms_are_the_reserves_of_the_tokens(
    pool1: PoolState,
    pool2: PoolState,
    token_in: Seq<u8>,
    token_out: Seq<u8>,
    paid: nat,
)
    requires
        token_in != token_out,
    ensures
        ({
            let terms = loan_terms(pool1, pool2, token_in, token_out, paid);
            let after = pool2.after_swap(token_in, token_out, paid);
            &&& terms is Some <==> after is Some && (pool1.token0@ == token_in && pool1.token1@
                == token_out || pool1.token1@ == token_in && pool1.token0@ == token_out)
            &&& terms matches Some(t) ==> {
                &&& pool1.token0@ == token_out ==> t.lendable == pool1.reserve0@
                &&& pool1.token1@ == token_out ==> t.lendable == pool1.reserve1@
                &&& pool2.token0@ == token_in ==> (t.sale_out, t.sale_in) == after->0
                &&& pool2.token1@ == token_in ==> (t.sale_in, t.sale_out) == after->0
            }
        }),
{
}

/// The loan of the market is that of its two pools, for the first two tokens of the
/// path, whatever tokens follow; there is none where a pool is not known or the path
/// has fewer tokens.
pub proof fn market_loan_is_that_of_its_pools(
    market: Map<Seq<u8>, PoolState>,
    pair1: Seq<u8>,
    pair2: Seq<u8>,
    path: Seq<Address>,
    more: Seq<Address>,
    paid: nat,
)
    requires
        path.len() == 2,
    ensures
        market.dom().contains(pair1) && market.dom().contains(pair2) ==> best_market_loan(
            market,
            pair1,
            pair2,
            path + more,
            paid,
        ) == best_loan(market[pair1], market[pair2], path.first()@, path.last()@, paid),
        best_market_loan(market, pair1, pair2, path + more, paid) is Some ==> market.dom().contains(
            pair1,
        ) && market.dom().contains(pair2),
        best_market_loan(market, pair1, pair2, path.take(1), paid) is None,
        best_market_loan(market, pair1, pair2, Seq::empty(), paid) is None,
{
    assert((path + more)[0] == path[0] && (path + more)[1] == path[1]);
}

/// What `apply_victim_effect` computes are the reserves of the pool, in its own order,
/// after the swap paid into the side of the token that it pays with and took the
/// payout from the side of the other one.
pub proof fn computed_effect_is_on_the_right_sides(
    pool: PoolState,
    token_in: Address,
    token_out: Address,
    paid: U256,
    r: Option<(U256, U256)>,
)
    requires
        token_in@ != token_out@,
        pool.reserve0@ + paid@ < modulus(),
        pool.reserve1@ + paid@ < modulus(),
        call_ensures(apply_victim_effect, (&pool, token_in, token_out, paid), r),
    ensures
        ({
            let (r0, r1) = (pool.reserve0@, pool.reserve1@);
            &&& pool.token0@ == token_in@ && pool.token1@ == token_out@ ==> {
                let out = amount_out(paid@, r0, r1, pool.gamma());
                &&& r is Some <==> out is Some
                &&& r matches Some((a, b)) ==> a@ == r0 + paid@ && b@ + out->0 == r1
            }
            &&& pool.token1@ == token_in@ && pool.token0@ == token_out@ ==> {
                let out = amount_out(paid@, r1, r0, pool.gamma());
                &&& r is Some <==> out is Some
                &&& r matches Some((a, b)) ==> b@ == r1 + paid@ && a@ + out->0 == r0
            }
            &&& r is Some ==> (pool.token0@ == token_in@ || pool.token1@ == token_in@) && (
            pool.token0@ == token_out@ || pool.token1@ == token_out@)
        }),
{
    swap_moves_the_reserves_of_its_tokens(pool, token_in@, token_out@, paid@);
}

/// What `orient_reserves`, `flash_repay_amount` and `sale_amount` compute does not
/// depend on which side of the pool a token is on.
pub proof fn computed_amounts_ignore_the_sides(
    pool: PoolState,
    token_in: Address,
    token_out: Address,
    x: U256,
    y: U256,
    paid: U256,
    traded: U256,
    order: Option<(U256, U256)>,
    mirrored_order: Option<(U256, U256)>,
    owed: Option<U256>,
    mirrored_owed: Option<U256>,
    brought: Option<U256>,
    mirrored_brought: Option<U256>,
)
    requires
        token_in@ != token_out@,
        call_ensures(orient_reserves, (&pool, token_in, token_out, x, y), order),
        call_ensures(
            orient_reserves,
            (&mirrored(pool), token_in, token_out, y, x),
            mirrored_order,
        ),
        call_ensures(flash_repay_amount, (&pool, token_out, token_in, x, y, traded), owed),
        call_ensures(
            flash_repay_amount,
            (&mirrored(pool), token_out, token_in, y, x, traded),
            mirrored_owed,
        ),
        call_ensures(sale_amount, (&pool, token_in, token_out, paid, traded), brought),
        call_ensures(
            sale_amount,
            (&mirrored(pool), token_in, token_out, paid, traded),
            mirrored_brought,
        ),
    ensures
        amounts(order) == amounts(mirrored_order),
        amount(owed) == amount(mirrored_owed),
        amount(brought) == amount(mirrored_brought),
        order is Some && pool.token0@ == token_in@ ==> amounts(order) == Some((x@, y@)),
        order is Some && pool.token1@ == token_in@ ==> amounts(order) == Some((y@, x@)),
        order is Some && pool.token0@ == token_in@ ==> amount(owed) == amount_in(
            traded@,
            x@,
            y@,
            pool.gamma(),
        ),
{
    sides_make_no_difference(pool, token_in@, token_out@, paid@, traded@);
    amounts_follow_their_tokens(pool, token_in@, token_out@, x@, y@);
    loan_is_repaid_in_the_other_token(pool, token_out@, token_in@, x@, y@, traded@);
}

/// The estimate goes by the first two tokens of the path, however many follow; there
/// is none for a shorter path. What it finds and the repayment make up the sale.
pub proof fn estimate_goes_by_the_first_two_tokens(
    pool1: PoolState,
    pool2: PoolState,
    victim: VictimSwap,
    borrowed: U256,
    r: Option<U256>,
)
    requires
        call_ensures(estimate_arb_profit, (&pool1, &pool2, &victim, borrowed), r),
    ensures
        victim.path@.len() < 2 ==> r is None,
        victim.path@.len() > 1 ==> {
            let (a, b) = (victim.path@[0]@, victim.path@[1]@);
            let sold = pool2.sale(a, b, victim.amount_in@, borrowed@);
            let owed = pool1.repayment(
                b,
                a,
                pool1.reserve0@,
                pool1.reserve1@,
                borrowed@,
            );
            &&& r is Some <==> sold is Some && owed is Some && owed->0 <= sold->0
            &&& r matches Some(profit) ==> profit@ + owed->0 == sold->0
        },
{
    if victim.path@.len() > 1 {
        profit_is_what_the_sale_leaves(
            pool1,
            pool2,
            victim.path@[0]@,
            victim.path@[1]@,
            victim.amount_in@,
            borrowed@,
        );
    }
}

/// No loan is estimated to make a profit of more than 28 of the smallest units above
/// that of the loan that `compute_optimal_backrun_amount` returns, which makes a
/// profit; where it returns none for two known pools, no loan is estimated to make
/// more than that. The reserves are those that a pool can hold. Left out is a swap of
/// a token for itself.
pub proof fn no_estimate_is_much_better(
    state: MarketState,
    pair1: Address,
    pair2: Address,
    victim: VictimSwap,
    other: U256,
    r: Option<U256>,
    estimate: Option<U256>,
    best: Option<U256>,
)
    requires
        state@.dom().contains(pair1@),
        state@.dom().contains(pair2@),
        victim.path@.len() >= 2,
        victim.path@[0]@ != victim.path@[1]@,
        state@[pair1@].reserve0@ < 0x1_0000_0000_0000_0000_0000_0000_0000,
        state@[pair1@].reserve1@ < 0x1_0000_0000_0000_0000_0000_0000_0000,
        state@[pair2@].reserve0@ + victim.amount_in@
            < 0x1_0000_0000_0000_0000_0000_0000_0000,
        state@[pair2@].reserve1@ + victim.amount_in@
            < 0x1_0000_0000_0000_0000_0000_0000_0000,
        call_ensures(compute_optimal_backrun_amount, (&state, pair1, pair2, &victim), r),
        call_ensures(
            estimate_arb_profit,
            (&state@[pair1@], &state@[pair2@], &victim, other),
            estimate,
        ),
        r matches Some(loan) ==> call_ensures(
            estimate_arb_profit,
            (&state@[pair1@], &state@[pair2@], &victim, loan),
            best,
        ),
    ensures
        r is Some ==> best is Some && best->0@ > 0,
        estimate matches Some(profit) ==> match r {
            Some(_) => profit@ <= best->0@ + 28,
            None => profit@ <= 28,
        },
{
    let (p1, p2) = (state@[pair1@], state@[pair2@]);
    let (a, b) = (victim.path@[0]@, victim.path@[1]@);
    found_loan_is_almost_the_best(p1, p2, a, b, victim.amount_in@, other@);
    found_loan_is_profitable(p1, p2, a, b, victim.amount_in@);
}

} // verus!
