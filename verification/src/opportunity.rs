//! From a pending transaction to a priced bundle: which transactions are worth
//! following, and on what terms.
use vstd::prelude::*;

use crate::address::{addresses, in_order, Address};
use crate::calldata::{
    arb_terms, build_calldata, call_follows_the_estimate, decode_victim_swap, swap_in,
    swap_values, Venue,
};
use crate::pool::{
    arb_profit, best_market_loan, compute_optimal_backrun_amount, estimate_arb_profit,
    found_loan_is_profitable, MarketState, PoolState, VictimSwap,
};
use crate::registry::{
    located, named, registered, AddressSet, DexFactoryMap, PairDexMap, PairRegistry, RouterDexMap,
};
use crate::resolve::{
    cost_in_token, exchange_of, gas_cost_in_token, resolve_pair_pair, resolved,
    resolved_pools_are_registered, ResolveError,
};
use crate::u256::{lemma_below_modulus, modulus, saturated, U256};

verus! {

/// The gas that an arbitrage is taken to use before it is simulated.
pub const FAST_FILTER_GAS_ESTIMATE: u64 = 350_000;

/// For how many seconds an arbitrage call stays valid.
pub const DEADLINE_SECONDS: u64 = 15;

/// What is known of the chain: the base fee of gas and the current block.
#[derive(Clone, Copy, Debug)]
pub struct GasState {
    pub base_fee: U256,
    pub current_block: u64,
}

/// What is known of the chain after the base fees of the last blocks and the
/// current block were asked for: nothing where either is missing.
pub fn latest_gas(base_fees: &Vec<u128>, block: Option<u64>) -> (r: Option<GasState>)
    ensures
        match block {
            Some(current) => if base_fees@.len() > 0 {
                r matches Some(gas) && gas.base_fee@ == base_fees@.last() && gas.current_block
                    == current
            } else {
                r is None
            },
            None => r is None,
        },
{
    let current_block = block?;
    if base_fees.len() == 0 {
        return None;
    }
    Some(
        GasState { base_fee: U256::from_u128(base_fees[base_fees.len() - 1]), current_block },
    )
}

/// Whether a transaction to an address is looked at: one to a known router or
/// pool.
pub fn is_watched(to: &Address, routers: &RouterDexMap, pairs: &AddressSet) -> (r: bool)
    ensures
        r == (routers@.dom().contains(to@) || pairs@.dom().contains(to@)),
{
    routers.contains_key(to) || pairs.contains_key(to)
}

/// The swap of a transaction that is worth following: one that pays something in
/// and names at least two tokens.
pub open spec fn followed(swap: Option<(nat, Seq<Seq<u8>>)>) -> Option<(nat, Seq<Seq<u8>>)> {
    match swap {
        Some((paid, path)) => if paid > 0 && path.len() >= 2 {
            swap
        } else {
            None
        },
        None => None,
    }
}

/// Keeps a swap that is worth following.
pub fn worth_following(swap: Option<VictimSwap>) -> (r: Option<VictimSwap>)
    ensures
        swap_values(r) == followed(swap_values(swap)),
{
    let swap = swap?;
    if swap.amount_in.is_zero() || swap.path.len() < 2 {
        None
    } else {
        Some(swap)
    }
}

/// Reads the swap of a transaction, where it is worth following.
pub fn swap_to_follow(input: &[u8], tx_value: U256) -> (r: Option<VictimSwap>)
    ensures
        swap_values(r) == followed(swap_in(input@, tx_value@)),
{
    worth_following(decode_victim_swap(input, tx_value))
}

/// Why a pending swap is not followed any further.
#[derive(Clone, Copy, Debug, PartialEq, Eq, Structural)]
pub enum DropReason {
    /// No two pools were found.
    Unresolved(ResolveError),
    /// The exchange of the lending pool has no factory.
    NoLenderFactory,
    /// The exchange of the other pool has no factory.
    NoSaleFactory,
    /// No loan is profitable.
    NoLoan,
    /// The call could not be written, or its profit not estimated.
    NoCall,
    /// The cost of gas is not known in the token.
    NoGasPrice,
    /// The profit does not exceed the cost of gas.
    Unprofitable,
    /// The simulation used no gas.
    NoGasUsed,
}

/// Two pools to trade between: a loan from the first one, sold into the second
/// one, which is the one that the pending swap goes through.
pub struct Opportunity {
    pub pair1: Address,
    pub pair2: Address,
    pub factory1: Address,
    pub factory2: Address,
    pub optimal_borrow: U256,
    pub snap1: PoolState,
    pub snap2: PoolState,
    pub dex1: String,
    pub dex2: String,
}

/// The values of an opportunity.
pub ghost struct OpportunityTerms {
    pub pair1: Seq<u8>,
    pub pair2: Seq<u8>,
    pub factory1: Seq<u8>,
    pub factory2: Seq<u8>,
    pub optimal_borrow: nat,
    pub snap1: PoolState,
    pub snap2: PoolState,
    pub dex1: Seq<char>,
    pub dex2: Seq<char>,
}

impl View for Opportunity {
    type V = OpportunityTerms;

    open spec fn view(&self) -> OpportunityTerms {
        OpportunityTerms {
            pair1: self.pair1@,
            pair2: self.pair2@,
            factory1: self.factory1@,
            factory2: self.factory2@,
            optimal_borrow: self.optimal_borrow@,
            snap1: self.snap1,
            snap2: self.snap2,
            dex1: self.dex1@,
            dex2: self.dex2@,
        }
    }
}

/// The values of an opportunity or of the reason why there is none.
pub open spec fn opportunity_terms(
    x: Result<Opportunity, DropReason>,
) -> Result<OpportunityTerms, DropReason> {
    match x {
        Ok(o) => Ok(o@),
        Err(reason) => Err(reason),
    }
}

/// The opportunity that a pending swap leaves: a loan from the pool whose price
/// lies farthest, sold into the pool of the swap.
pub open spec fn found_opportunity(
    registry: Map<(Seq<u8>, Seq<u8>), Seq<(Seq<u8>, Seq<char>)>>,
    pools: Map<Seq<u8>, Seq<char>>,
    routers: Map<Seq<u8>, Seq<char>>,
    factories: Map<Seq<char>, Seq<u8>>,
    market: Map<Seq<u8>, PoolState>,
    to: Seq<u8>,
    path: Seq<Address>,
    paid: nat,
) -> Result<OpportunityTerms, DropReason> {
    match resolved(registry, pools, routers, market, to, path) {
        Err(reason) => Err(DropReason::Unresolved(reason)),
        Ok(choice) => if !factories.dom().contains(choice.dex2) {
            Err(DropReason::NoLenderFactory)
        } else if !factories.dom().contains(choice.dex1) {
            Err(DropReason::NoSaleFactory)
        } else {
            match best_market_loan(market, choice.pair2, choice.pair1, path, paid) {
                None => Err(DropReason::NoLoan),
                Some(loan) => Ok(
                    OpportunityTerms {
                        pair1: choice.pair2,
                        pair2: choice.pair1,
                        factory1: factories[choice.dex2],
                        factory2: factories[choice.dex1],
                        optimal_borrow: loan,
                        snap1: market[choice.pair2],
                        snap2: market[choice.pair1],
                        dex1: choice.dex2,
                        dex2: choice.dex1,
                    },
                ),
            }
        },
    }
}

/// Finds the opportunity that a pending swap leaves.
pub fn find_opportunity(
    registry: &PairRegistry,
    pair_dex: &PairDexMap,
    router_dex: &RouterDexMap,
    dex_factories: &DexFactoryMap,
    state: &MarketState,
    to_address: Address,
    victim: &VictimSwap,
) -> (r: Result<Opportunity, DropReason>)
    ensures
        opportunity_terms(r) == found_opportunity(
            registered(registry@),
            named(pair_dex@),
            named(router_dex@),
            located(dex_factories@),
            state@,
            to_address@,
            victim.path@,
            victim.amount_in@,
        ),
{
    let (pair2, dex2, pair1, dex1) = match resolve_pair_pair(
        registry,
        pair_dex,
        router_dex,
        state,
        to_address,
        victim,
    ) {
        Ok(choice) => choice,
        Err(reason) => {
            return Err(DropReason::Unresolved(reason));
        },
    };
    let factory1 = match dex_factories.get(&dex1) {
        Some(factory) => *factory,
        None => {
            return Err(DropReason::NoLenderFactory);
        },
    };
    let factory2 = match dex_factories.get(&dex2) {
        Some(factory) => *factory,
        None => {
            return Err(DropReason::NoSaleFactory);
        },
    };
    let optimal_borrow = match compute_optimal_backrun_amount(state, pair1, pair2, victim) {
        Some(loan) => loan,
        None => {
            return Err(DropReason::NoLoan);
        },
    };
    match (state.get(&pair1), state.get(&pair2)) {
        (Some(snap1), Some(snap2)) => Ok(
            Opportunity {
                pair1,
                pair2,
                factory1,
                factory2,
                optimal_borrow,
                snap1: *snap1,
                snap2: *snap2,
                dex1,
                dex2,
            },
        ),
        _ => Err(DropReason::NoLoan),
    }
}

/// Until when an arbitrage call that is written at a given time stays valid.
pub fn deadline_after(now: u64) -> (r: U256)
    ensures
        r@ == now + DEADLINE_SECONDS,
{
    broadcast use lemma_below_modulus;

    U256::from_u64(now).saturating_add(U256::from_u64(DEADLINE_SECONDS))
}

/// The call of an opportunity, where its estimated profit exceeds what gas is
/// taken to cost.
pub open spec fn written_call(
    opportunity: OpportunityTerms,
    venue: Venue,
    path: Seq<Address>,
    paid: nat,
    registry: Map<(Seq<u8>, Seq<u8>), Seq<(Seq<u8>, Seq<char>)>>,
    market: Map<Seq<u8>, PoolState>,
    base_fee: nat,
) -> Result<Seq<u8>, DropReason> {
    let loan = opportunity.optimal_borrow;
    let (pool1, pool2) = (opportunity.snap1, opportunity.snap2);
    let gas = saturated((FAST_FILTER_GAS_ESTIMATE * base_fee) as nat);
    if path.len() < 2 {
        Err(DropReason::NoCall)
    } else {
        match (
            arb_terms(venue, path[0]@, path[1]@, paid, loan, pool1, pool2),
            arb_profit(pool1, pool2, path[0]@, path[1]@, paid, loan),
        ) {
            (Some(terms), Some(profit)) => match cost_in_token(registry, market, path[0]@, gas) {
                None => Err(DropReason::NoGasPrice),
                Some(floor) => if profit <= floor {
                    Err(DropReason::Unprofitable)
                } else {
                    Ok(terms.encoded())
                },
            },
            _ => Err(DropReason::NoCall),
        }
    }
}

/// The bytes of a call or the reason why there is none.
pub open spec fn call_bytes(x: Result<Vec<u8>, DropReason>) -> Result<Seq<u8>, DropReason> {
    match x {
        Ok(bytes) => Ok(bytes@),
        Err(reason) => Err(reason),
    }
}

/// Writes the call of an opportunity, where its estimated profit exceeds what gas
/// is taken to cost.
pub fn write_call(
    opportunity: &Opportunity,
    deadline: U256,
    victim: &VictimSwap,
    registry: &PairRegistry,
    state: &MarketState,
    base_fee: U256,
) -> (r: Result<Vec<u8>, DropReason>)
    ensures
        call_bytes(r) == written_call(
            opportunity@,
            (Venue {
                pair1: opportunity.pair1,
                pair2: opportunity.pair2,
                factory1: opportunity.factory1,
                factory2: opportunity.factory2,
                deadline,
            }),
            victim.path@,
            victim.amount_in@,
            registered(registry@),
            state@,
            base_fee@,
        ),
{
    let call = match build_calldata(
        opportunity.pair1,
        opportunity.pair2,
        opportunity.factory1,
        opportunity.factory2,
        deadline,
        victim,
        opportunity.optimal_borrow,
        &opportunity.snap1,
        &opportunity.snap2,
    ) {
        Some(call) => call,
        None => {
            return Err(DropReason::NoCall);
        },
    };
    let profit = match estimate_arb_profit(
        &opportunity.snap1,
        &opportunity.snap2,
        victim,
        opportunity.optimal_borrow,
    ) {
        Some(profit) => profit,
        None => {
            return Err(DropReason::NoCall);
        },
    };
    let gas = U256::from_u64(FAST_FILTER_GAS_ESTIMATE).saturating_mul(base_fee);
    match gas_cost_in_token(registry, state, victim.path[0], gas) {
        None => Err(DropReason::NoGasPrice),
        Some(floor) => {
            if floor.less_than(&profit) {
                Ok(call)
            } else {
                Err(DropReason::Unprofitable)
            }
        },
    }
}

/// A call is written only where the estimated profit is above zero and above what
/// gas is taken to cost.
pub proof fn written_call_pays_for_gas(
    opportunity: OpportunityTerms,
    venue: Venue,
    path: Seq<Address>,
    paid: nat,
    registry: Map<(Seq<u8>, Seq<u8>), Seq<(Seq<u8>, Seq<char>)>>,
    market: Map<Seq<u8>, PoolState>,
    base_fee: nat,
)
    ensures
        written_call(opportunity, venue, path, paid, registry, market, base_fee) is Ok ==> {
            let profit = arb_profit(
                opportunity.snap1,
                opportunity.snap2,
                path[0]@,
                path[1]@,
                paid,
                opportunity.optimal_borrow,
            );
            let floor = cost_in_token(
                registry,
                market,
                path[0]@,
                saturated((FAST_FILTER_GAS_ESTIMATE * base_fee) as nat),
            );
            &&& profit is Some
            &&& floor is Some
            &&& profit->0 > floor->0
        },
{
}

/// The loan of an opportunity comes from one registered pool of the two tokens
/// and is sold into another one on another exchange, the one that the transaction
/// calls, and it makes a profit at the reserves that were read. Left out is a
/// swap of a token for itself.
pub proof fn opportunity_is_between_two_pools(
    registry: Map<(Seq<u8>, Seq<u8>), Seq<(Seq<u8>, Seq<char>)>>,
    pools: Map<Seq<u8>, Seq<char>>,
    routers: Map<Seq<u8>, Seq<char>>,
    factories: Map<Seq<char>, Seq<u8>>,
    market: Map<Seq<u8>, PoolState>,
    to: Seq<u8>,
    path: Seq<Address>,
    paid: nat,
)
    requires
        path.len() >= 2,
        path[0]@ != path[1]@,
    ensures
        found_opportunity(
            registry,
            pools,
            routers,
            factories,
            market,
            to,
            path,
            paid,
        ) matches Ok(o) ==> {
            let list = registry[in_order(path[0]@, path[1]@)];
            let profit = arb_profit(
                o.snap1,
                o.snap2,
                path[0]@,
                path[1]@,
                paid,
                o.optimal_borrow,
            );
            &&& o.pair1 != o.pair2
            &&& o.dex1 != o.dex2
            &&& list.contains((o.pair1, o.dex1))
            &&& list.contains((o.pair2, o.dex2))
            &&& exchange_of(pools, routers, to) == Some(o.dex2)
            &&& profit is Some
            &&& profit->0 > 0
        },
{
    resolved_pools_are_registered(registry, pools, routers, market, to, path);
    match resolved(registry, pools, routers, market, to, path) {
        Ok(choice) => {
            found_loan_is_profitable(
                market[choice.pair2],
                market[choice.pair1],
                path[0]@,
                path[1]@,
                paid,
            );
        },
        Err(_) => {},
    }
}

/// Every swap that pays something in and names two tokens or more is followed, as it
/// is, through however many tokens it goes; one that pays nothing or names fewer
/// tokens is not.
pub proof fn paying_swaps_are_followed(paid: nat, path: Seq<Seq<u8>>)
    ensures
        followed(Some((paid, path))) == Some((paid, path)) <==> paid != 0 && path.len() > 1,
        followed(Some((paid, path))) is None <==> paid == 0 || path.len() == 0 || path.len() == 1,
        followed(None) is None,
{
}

/// A call is written exactly where its arguments can be had, the profit and the cost
/// of gas in the token are known, and the profit exceeds that cost, taken for 350,000
/// units of gas at the base fee. It then holds those arguments. Where it is not
/// written, the reason is the first of these that fails.
pub proof fn call_is_written_where_gas_is_paid_for(
    opportunity: OpportunityTerms,
    venue: Venue,
    path: Seq<Address>,
    paid: nat,
    registry: Map<(Seq<u8>, Seq<u8>), Seq<(Seq<u8>, Seq<char>)>>,
    market: Map<Seq<u8>, PoolState>,
    base_fee: nat,
)
    ensures
        path.len() < 2 ==> written_call(
            opportunity,
            venue,
            path,
            paid,
            registry,
            market,
            base_fee,
        ) == Err::<Seq<u8>, DropReason>(DropReason::NoCall),
        path.len() >= 2 ==> ({
            let (pool1, pool2) = (opportunity.snap1, opportunity.snap2);
            let loan = opportunity.optimal_borrow;
            let terms = arb_terms(venue, path[0]@, path[1]@, paid, loan, pool1, pool2);
            let profit = arb_profit(pool1, pool2, path[0]@, path[1]@, paid, loan);
            let gas = if 350_000 * base_fee < modulus() {
                350_000 * base_fee
            } else {
                (modulus() - 1) as nat
            };
            let floor = cost_in_token(registry, market, path[0]@, gas);
            let call = written_call(opportunity, venue, path, paid, registry, market, base_fee);
            &&& terms is Some && profit is Some && floor is Some && profit->0 > floor->0 <==> call
                is Ok
            &&& call is Ok ==> call == Ok::<Seq<u8>, DropReason>(terms->0.encoded())
            &&& call == Err::<Seq<u8>, DropReason>(DropReason::NoCall) <==> terms is None || profit
                is None
            &&& call == Err::<Seq<u8>, DropReason>(DropReason::NoGasPrice) <==> terms is Some
                && profit is Some && floor is None
            &&& call == Err::<Seq<u8>, DropReason>(DropReason::Unprofitable) <==> terms is Some
                && profit is Some && floor is Some && profit->0 <= floor->0
        }),
{
}

/// An opportunity is found exactly where the two pools are, both of their exchanges
/// have a factory, and a loan pays. The lending pool is the one that lies farthest in
/// price; the loan is sold into the pool of the swap. Each pool comes with its own
/// exchange, its own factory and its own reserves.
pub proof fn opportunity_lends_far_and_sells_near(
    registry: Map<(Seq<u8>, Seq<u8>), Seq<(Seq<u8>, Seq<char>)>>,
    pools: Map<Seq<u8>, Seq<char>>,
    routers: Map<Seq<u8>, Seq<char>>,
    factories: Map<Seq<char>, Seq<u8>>,
    market: Map<Seq<u8>, PoolState>,
    to: Seq<u8>,
    path: Seq<Address>,
    paid: nat,
)
    ensures
        ({
            let pair = resolved(registry, pools, routers, market, to, path);
            let found = found_opportunity(
                registry,
                pools,
                routers,
                factories,
                market,
                to,
                path,
                paid,
            );
            &&& pair matches Err(reason) ==> found == Err::<OpportunityTerms, DropReason>(
                DropReason::Unresolved(reason),
            )
            &&& pair matches Ok(near) ==> {
                let lender = factories.dom().contains(near.dex2);
                let seller = factories.dom().contains(near.dex1);
                let loan = best_market_loan(market, near.pair2, near.pair1, path, paid);
                &&& found is Ok <==> lender && seller && loan is Some
                &&& found == Err::<OpportunityTerms, DropReason>(DropReason::NoLenderFactory)
                    <==> !lender
                &&& found == Err::<OpportunityTerms, DropReason>(DropReason::NoSaleFactory)
                    <==> lender && !seller
                &&& found == Err::<OpportunityTerms, DropReason>(DropReason::NoLoan) <==> lender
                    && seller && loan is None
                &&& found matches Ok(o) ==> {
                    &&& o.pair2 == near.pair1 && o.dex2 == near.dex1
                    &&& o.pair1 == near.pair2 && o.dex1 == near.dex2
                    &&& factories[o.dex1] == o.factory1 && factories[o.dex2] == o.factory2
                    &&& market[o.pair1] == o.snap1 && market[o.pair2] == o.snap2
                    &&& Some(o.optimal_borrow) == best_market_loan(
                        market,
                        o.pair1,
                        o.pair2,
                        path,
                        paid,
                    )
                }
            }
        }),
{
}

/// What is known of the chain is the base fee of the last block in the list and the
/// current block; nothing is known where either is missing.
pub proof fn last_base_fee_counts(
    base_fees: Vec<u128>,
    block: Option<u64>,
    r: Option<GasState>,
)
    requires
        call_ensures(latest_gas, (&base_fees, block), r),
    ensures
        r is Some <==> block is Some && base_fees@.len() != 0,
        r matches Some(gas) ==> gas.base_fee@ == base_fees@[base_fees@.len() - 1]
            && block == Some(gas.current_block),
{
}

/// Transactions to routers and to pools are looked at, and no others.
pub proof fn routers_and_pools_are_watched(
    to: Address,
    routers: RouterDexMap,
    pairs: AddressSet,
    r: bool,
)
    requires
        call_ensures(is_watched, (&to, &routers, &pairs), r),
    ensures
        routers@.dom().contains(to@) ==> r,
        pairs@.dom().contains(to@) ==> r,
        !routers@.dom().contains(to@) && !pairs@.dom().contains(to@) ==> !r,
{
}

/// A call stays valid for fifteen seconds after it is written.
pub proof fn calls_are_valid_for_fifteen_seconds(now: u64, r: U256)
    requires
        call_ensures(deadline_after, (now,), r),
    ensures
        r@ - now == 15,
{
}

/// The swap of a transaction is followed as it was decoded, and only where it pays
/// something in and names two tokens or more.
pub proof fn decoded_swap_is_followed_unchanged(
    swap: Option<VictimSwap>,
    r: Option<VictimSwap>,
)
    requires
        call_ensures(worth_following, (swap,), r),
    ensures
        swap matches Some(s) && s.amount_in@ != 0 && s.path@.len() > 1 ==> (r matches Some(kept)
            && kept.amount_in@ == swap->0.amount_in@ && addresses(kept.path@) == addresses(
            swap->0.path@,
        )),
        r is Some ==> (swap matches Some(s) && s.amount_in@ != 0 && s.path@.len() > 1),
{
}

/// `write_call` writes the call exactly where `estimate_arb_profit` finds a profit for
/// the loan of the opportunity, `gas_cost_in_token` tells what 350,000 units of gas
/// cost in the token that the swap pays with, and the profit is the larger one. The
/// call is the one that `build_calldata` writes.
pub proof fn written_call_is_worth_its_gas(
    opportunity: Opportunity,
    deadline: U256,
    victim: VictimSwap,
    registry: PairRegistry,
    state: MarketState,
    base_fee: U256,
    gas: U256,
    profit: Option<U256>,
    floor: Option<U256>,
    call: Option<Vec<u8>>,
    r: Result<Vec<u8>, DropReason>,
)
    requires
        victim.path@.len() >= 2,
        gas@ == 350_000 * base_fee@,
        call_ensures(
            estimate_arb_profit,
            (&opportunity.snap1, &opportunity.snap2, &victim, opportunity.optimal_borrow),
            profit,
        ),
        call_ensures(gas_cost_in_token, (&registry, &state, victim.path@[0], gas), floor),
        call_ensures(
            build_calldata,
            (
                opportunity.pair1,
                opportunity.pair2,
                opportunity.factory1,
                opportunity.factory2,
                deadline,
                &victim,
                opportunity.optimal_borrow,
                &opportunity.snap1,
                &opportunity.snap2,
            ),
            call,
        ),
        call_ensures(
            write_call,
            (&opportunity, deadline, &victim, &registry, &state, base_fee),
            r,
        ),
    ensures
        r is Ok <==> profit is Some && floor is Some && profit->0@ > floor->0@,
        r matches Ok(bytes) ==> call is Some && bytes@ == call->0@,
        r == Err::<Vec<u8>, DropReason>(DropReason::Unprofitable) <==> profit is Some && floor
            is Some && profit->0@ <= floor->0@,
        r == Err::<Vec<u8>, DropReason>(DropReason::NoGasPrice) <==> profit is Some && floor
            is None,
        r == Err::<Vec<u8>, DropReason>(DropReason::NoCall) <==> profit is None,
{
    lemma_below_modulus(gas);
    let venue = Venue {
        pair1: opportunity.pair1,
        pair2: opportunity.pair2,
        factory1: opportunity.factory1,
        factory2: opportunity.factory2,
        deadline,
    };
    let path = victim.path@;
    call_is_written_where_gas_is_paid_for(
        opportunity@,
        venue,
        path,
        victim.amount_in@,
        registered(registry@),
        state@,
        base_fee@,
    );
    call_follows_the_estimate(
        venue,
        path[0]@,
        path[1]@,
        victim.amount_in@,
        opportunity.optimal_borrow@,
        opportunity.snap1,
        opportunity.snap2,
    );
}

/// The opportunity that `find_opportunity` finds lends from the second pool of
/// `resolve_pair_pair` and sells into the first one, the loan that
/// `compute_optimal_backrun_amount` returns for the two. It is found exactly where
/// the pools are, their exchanges have factories, and there is such a loan.
pub proof fn found_opportunity_joins_pools_and_loan(
    registry: PairRegistry,
    pair_dex: PairDexMap,
    router_dex: RouterDexMap,
    factories: DexFactoryMap,
    state: MarketState,
    to: Address,
    victim: VictimSwap,
    near: Address,
    near_dex: String,
    far: Address,
    far_dex: String,
    loan: Option<U256>,
    r: Result<Opportunity, DropReason>,
)
    requires
        call_ensures(
            resolve_pair_pair,
            (&registry, &pair_dex, &router_dex, &state, to, &victim),
            Ok((near, near_dex, far, far_dex)),
        ),
        call_ensures(compute_optimal_backrun_amount, (&state, far, near, &victim), loan),
        call_ensures(
            find_opportunity,
            (&registry, &pair_dex, &router_dex, &factories, &state, to, &victim),
            r,
        ),
    ensures
        r is Ok <==> factories@.dom().contains(far_dex@) && factories@.dom().contains(near_dex@)
            && loan is Some,
        r matches Ok(o) ==> {
            &&& o.pair1@ == far@ && o.pair2@ == near@
            &&& o.dex1@ == far_dex@ && o.dex2@ == near_dex@
            &&& o.factory1@ == factories@[far_dex@]@ && o.factory2@ == factories@[near_dex@]@
            &&& o.snap1 == state@[far@] && o.snap2 == state@[near@]
            &&& o.optimal_borrow@ == loan->0@
        },
{
    opportunity_lends_far_and_sells_near(
        registered(registry@),
        named(pair_dex@),
        named(router_dex@),
        located(factories@),
        state@,
        to@,
        victim.path@,
        victim.amount_in@,
    );
}

/// `swap_to_follow` keeps what `decode_victim_swap` reads of a transaction, unchanged,
/// where it pays something in and names two tokens or more, and nothing else.
pub proof fn read_swap_is_followed_unchanged(
    input: &[u8],
    value: U256,
    read: Option<VictimSwap>,
    r: Option<VictimSwap>,
)
    requires
        call_ensures(decode_victim_swap, (input, value), read),
        call_ensures(swap_to_follow, (input, value), r),
    ensures
        r is Some <==> read is Some && read->0.amount_in@ > 0 && read->0.path@.len() >= 2,
        r matches Some(kept) ==> kept.amount_in@ == read->0.amount_in@ && addresses(kept.path@)
            == addresses(read->0.path@),
{
    if let Some(swap) = read {
        paying_swaps_are_followed(swap.amount_in@, addresses(swap.path@));
    }
}

} // verus!
