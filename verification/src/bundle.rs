//! What a bundle pays, when it may run, and how builders are sent it.
use vstd::prelude::*;

use crate::address::Address;
use crate::opportunity::DropReason;
use crate::pool::{MarketState, PoolState};
use crate::registry::{registered, PairRegistry};
use crate::resolve::{cost_in_token, gas_cost_in_token};
use crate::simulation::SimulationResult;
use crate::text::{
    contains, hex_bytes, hexadecimal, hexadecimal_spells_the_number, occurring_is_standing_inside,
    occurs, prefixed_hexadecimal,
};
use crate::u256::{fitting, lemma_below_modulus, modulus, number_in, saturated, U256};

verus! {

broadcast use vstd::string::group_string_axioms;

/// What goes to the builder: a share of the net profit in ten-thousandths,
/// rounded down; nothing where the product takes more than 256 bits.
pub open spec fn bribe(net_profit: nat, bribe_bps: nat) -> nat {
    match fitting(net_profit * bribe_bps) {
        Some(product) => product / 10_000,
        None => 0,
    }
}

/// The gas limit of our transaction: a fifth more than the simulation used.
pub open spec fn limit_for(gas_used: nat) -> nat {
    if gas_used * 120 <= u64::MAX {
        gas_used * 120 / 100
    } else {
        u64::MAX as nat / 100
    }
}

/// What our transaction pays: the cost of gas in the profit token, what is left
/// of the profit, the builder's share, and the fees and the limit of gas.
pub struct BundlePrice {
    pub base_gas_cost: U256,
    pub net_profit: U256,
    pub miner_bribe: U256,
    pub priority_fee_per_gas: U256,
    pub max_fee_per_gas: U256,
    pub gas_limit: u64,
}

/// The values of what our transaction pays.
pub ghost struct Price {
    pub base_gas_cost: nat,
    pub net_profit: nat,
    pub miner_bribe: nat,
    pub priority_fee_per_gas: nat,
    pub max_fee_per_gas: nat,
    pub gas_limit: nat,
}

impl View for BundlePrice {
    type V = Price;

    open spec fn view(&self) -> Price {
        Price {
            base_gas_cost: self.base_gas_cost@,
            net_profit: self.net_profit@,
            miner_bribe: self.miner_bribe@,
            priority_fee_per_gas: self.priority_fee_per_gas@,
            max_fee_per_gas: self.max_fee_per_gas@,
            gas_limit: self.gas_limit as nat,
        }
    }
}

/// The values of a price or of the reason why there is none.
pub open spec fn price_of_bundle(
    x: Result<BundlePrice, DropReason>,
) -> Result<Price, DropReason> {
    match x {
        Ok(price) => Ok(price@),
        Err(reason) => Err(reason),
    }
}

/// What our transaction pays after a simulation. The builder's share is spread
/// over the gas that was used; the sum of the fees is taken modulo two to the
/// power of 256.
pub open spec fn priced(
    sim: SimulationResult,
    base_fee: nat,
    bribe_bps: u64,
    registry: Map<(Seq<u8>, Seq<u8>), Seq<(Seq<u8>, Seq<char>)>>,
    market: Map<Seq<u8>, PoolState>,
    repay_token: Seq<u8>,
) -> Result<Price, DropReason> {
    let gas = saturated((sim.gas_used * base_fee) as nat);
    let profit = sim.expected_profit@;
    if !sim.is_profitable {
        Err(DropReason::Unprofitable)
    } else {
        match cost_in_token(registry, market, repay_token, gas) {
            None => Err(DropReason::NoGasPrice),
            Some(cost) => if profit <= cost {
                Err(DropReason::Unprofitable)
            } else if sim.gas_used == 0 {
                Err(DropReason::NoGasUsed)
            } else {
                let net_profit = (profit - cost) as nat;
                let share = bribe(net_profit, bribe_bps as nat);
                Ok(
                    Price {
                        base_gas_cost: cost,
                        net_profit,
                        miner_bribe: share,
                        priority_fee_per_gas: share / sim.gas_used as nat,
                        max_fee_per_gas: (base_fee + share / sim.gas_used as nat) % modulus(),
                        gas_limit: limit_for(sim.gas_used as nat),
                    },
                )
            },
        }
    }
}

fn gas_limit_for(gas_used: u64) -> (r: u64)
    ensures
        r == limit_for(gas_used as nat),
{
    let product: u128 = (gas_used as u128) * 120;
    if product <= u64::MAX as u128 {
        (product / 100) as u64
    } else {
        u64::MAX / 100
    }
}

fn bribe_for(net_profit: U256, bribe_bps: u64) -> (r: U256)
    ensures
        r@ == bribe(net_profit@, bribe_bps as nat),
{
    match net_profit.checked_mul(U256::from_u64(bribe_bps)) {
        Some(product) => product.quotient(U256::from_u64(10_000)),
        None => U256::zero(),
    }
}

/// Decides what our transaction pays after a simulation, or that it is not worth
/// sending.
pub fn price_bundle(
    sim: &SimulationResult,
    base_fee: U256,
    bribe_bps: u64,
    registry: &PairRegistry,
    state: &MarketState,
    repay_token: Address,
) -> (r: Result<BundlePrice, DropReason>)
    ensures
        price_of_bundle(r) == priced(
            *sim,
            base_fee@,
            bribe_bps,
            registered(registry@),
            state@,
            repay_token@,
        ),
{
    if !sim.is_profitable {
        return Err(DropReason::Unprofitable);
    }
    let gas = U256::from_u64(sim.gas_used).saturating_mul(base_fee);
    let base_gas_cost = match gas_cost_in_token(registry, state, repay_token, gas) {
        Some(cost) => cost,
        None => {
            return Err(DropReason::NoGasPrice);
        },
    };
    if !base_gas_cost.less_than(&sim.expected_profit) {
        return Err(DropReason::Unprofitable);
    }
    if sim.gas_used == 0 {
        return Err(DropReason::NoGasUsed);
    }
    let net_profit = sim.expected_profit.saturating_sub(base_gas_cost);
    let miner_bribe = bribe_for(net_profit, bribe_bps);
    let priority_fee_per_gas = miner_bribe.quotient(U256::from_u64(sim.gas_used));
    Ok(
        BundlePrice {
            base_gas_cost,
            net_profit,
            miner_bribe,
            priority_fee_per_gas,
            max_fee_per_gas: base_fee.wrapping_add(priority_fee_per_gas),
            gas_limit: gas_limit_for(sim.gas_used),
        },
    )
}

/// The builder's share of a profit stays below the profit, for any share below
/// the whole.
pub proof fn bribe_stays_below_the_profit(net_profit: nat, bribe_bps: nat)
    requires
        bribe_bps < 10_000,
        net_profit > 0,
    ensures
        bribe(net_profit, bribe_bps) < net_profit,
{
    let product = net_profit * bribe_bps;
    assert(product < 10_000 * net_profit) by (nonlinear_arith)
        requires
            product == net_profit * bribe_bps,
            bribe_bps < 10_000,
            net_profit > 0,
    ;
}

/// A bundle is priced only where the simulated profit exceeds the cost of gas. It
/// leaves part of the profit after the builder's share, for any share below the
/// whole, and pays no more than that share as priority fees for the gas that was
/// used.
pub proof fn priced_bundle_keeps_a_profit(
    sim: SimulationResult,
    base_fee: nat,
    bribe_bps: u64,
    registry: Map<(Seq<u8>, Seq<u8>), Seq<(Seq<u8>, Seq<char>)>>,
    market: Map<Seq<u8>, PoolState>,
    repay_token: Seq<u8>,
)
    requires
        bribe_bps < 10_000,
    ensures
        priced(sim, base_fee, bribe_bps, registry, market, repay_token) matches Ok(price) ==> {
            &&& price.base_gas_cost + price.net_profit == sim.expected_profit@
            &&& price.net_profit > 0
            &&& price.miner_bribe < price.net_profit
            &&& price.priority_fee_per_gas * sim.gas_used <= price.miner_bribe
        },
{
    match priced(sim, base_fee, bribe_bps, registry, market, repay_token) {
        Ok(price) => {
            bribe_stays_below_the_profit(price.net_profit, bribe_bps as nat);
            vstd::arithmetic::div_mod::lemma_fundamental_div_mod(
                price.miner_bribe as int,
                sim.gas_used as int,
            );
            assert(price.priority_fee_per_gas * sim.gas_used == sim.gas_used
                * price.priority_fee_per_gas) by (nonlinear_arith);
        },
        Err(_) => {},
    }
}

/// The gas limit leaves a fifth above what the simulation used, as long as that
/// fits.
pub proof fn gas_limit_leaves_a_margin(gas_used: nat)
    requires
        gas_used * 120 <= u64::MAX,
    ensures
        limit_for(gas_used) == gas_used + gas_used / 5,
{
}

/// The blocks that a bundle may run in, written for builders: from the next one
/// on, up to the given number of blocks ahead.
pub fn bundle_blocks(current_block: u64, window: u64) -> (r: (String, String))
    requires
        current_block < u64::MAX,
        current_block + window <= u64::MAX,
    ensures
        r.0@ == seq!['0', 'x'] + hexadecimal((current_block + 1) as nat),
        r.1@ == seq!['0', 'x'] + hexadecimal((current_block + window) as nat),
{
    (prefixed_hexadecimal(current_block + 1), prefixed_hexadecimal(current_block + window))
}

/// Calls `alloy::hex::encode`: the bytes in lower-case hexadecimal.
#[verifier::external_body]
fn encode_hex(bytes: &[u8]) -> (r: String)
    ensures
        r@ == hex_bytes(bytes@),
{
    alloy::hex::encode(bytes)
}

/// An encoded transaction, written for builders.
pub fn transaction_text(encoded: &[u8]) -> (r: String)
    ensures
        r@ == seq!['0', 'x'] + hex_bytes(encoded@),
{
    let mut r = String::new();
    r.push('0');
    r.push('x');
    assert(r@ =~= seq!['0', 'x']);
    r.append(encode_hex(encoded).as_str());
    r
}

/// The authorisation that a request to a builder carries: the configured one, for
/// the builder whose address has `blxrbdn` in it.
pub fn authorisation(url: &str, configured: Option<String>) -> (r: Option<String>)
    ensures
        occurs(url@, "blxrbdn"@) ==> r == configured,
        !occurs(url@, "blxrbdn"@) ==> r is None,
{
    if contains(url, "blxrbdn") {
        configured
    } else {
        None
    }
}

/// Whether a builder took a bundle: the request succeeded and the reply has no
/// `"error"` in it.
pub fn is_accepted(succeeded: bool, body: &str) -> (r: bool)
    ensures
        r == (succeeded && !occurs(body@, "\"error\""@)),
{
    succeeded && !contains(body, "\"error\"")
}

/// The builder's share is the largest number of units that is not more than the
/// configured part of the net profit: ten thousand times the share is at most the
/// profit times the configured ten-thousandths, and ten thousand times one unit more
/// exceeds it. Where that product takes more than 256 bits, the builder gets nothing.
pub proof fn bribe_is_the_configured_share(net_profit: nat, bribe_bps: nat)
    ensures
        net_profit * bribe_bps < modulus() ==> bribe(net_profit, bribe_bps) * 10_000 <= net_profit
            * bribe_bps < (bribe(net_profit, bribe_bps) + 1) * 10_000,
        net_profit * bribe_bps >= modulus() ==> bribe(net_profit, bribe_bps) == 0,
{
}

/// A larger share or a larger profit never gives the builder less, as long as the
/// product fits into 256 bits; no share and no profit give nothing.
pub proof fn bribe_grows_with_the_share(
    net_profit: nat,
    more_profit: nat,
    bribe_bps: nat,
    more_bps: nat,
)
    requires
        net_profit <= more_profit,
        bribe_bps <= more_bps,
        more_profit * more_bps < modulus(),
    ensures
        bribe(net_profit, bribe_bps) <= bribe(more_profit, more_bps),
        bribe(net_profit, 0) == 0,
        bribe(0, bribe_bps) == 0,
{
    assert(net_profit * bribe_bps <= more_profit * more_bps) by (nonlinear_arith)
        requires
            net_profit <= more_profit,
            bribe_bps <= more_bps,
    ;
    assert(net_profit * 0 == 0 && 0 * bribe_bps == 0) by (nonlinear_arith);
}

/// The gas limit is the largest one whose hundredfold is at most 120 times the gas
/// that the simulation used. Where that takes more than 64 bits, it is a hundredth of
/// the largest 64-bit number.
pub proof fn gas_limit_is_a_fifth_more(gas_used: nat)
    ensures
        gas_used * 120 <= u64::MAX ==> limit_for(gas_used) * 100 <= gas_used * 120 < (limit_for(
            gas_used,
        ) + 1) * 100,
        gas_used * 120 > u64::MAX ==> limit_for(gas_used) * 100 <= u64::MAX < (limit_for(gas_used)
            + 1) * 100,
{
}

/// A bundle is priced exactly where the simulation is profitable and used gas, and
/// the profit exceeds what that gas costs in the profit token at the base fee. The
/// builder's share of what is left is spread over the gas that was used: the priority
/// fee is the largest one that the share pays for, and comes on top of the base fee.
pub proof fn price_splits_the_profit(
    sim: SimulationResult,
    base_fee: nat,
    bribe_bps: u64,
    registry: Map<(Seq<u8>, Seq<u8>), Seq<(Seq<u8>, Seq<char>)>>,
    market: Map<Seq<u8>, PoolState>,
    repay_token: Seq<u8>,
)
    requires
        base_fee < modulus(),
    ensures
        ({
            let gas = if sim.gas_used * base_fee < modulus() {
                (sim.gas_used * base_fee) as nat
            } else {
                (modulus() - 1) as nat
            };
            let cost = cost_in_token(registry, market, repay_token, gas);
            let outcome = priced(sim, base_fee, bribe_bps, registry, market, repay_token);
            let gain = sim.expected_profit@;
            &&& outcome is Ok <==> sim.is_profitable && cost is Some && cost->0 < gain
                && sim.gas_used > 0
            &&& outcome == Err::<Price, DropReason>(DropReason::NoGasPrice) <==> sim.is_profitable
                && cost is None
            &&& outcome == Err::<Price, DropReason>(DropReason::NoGasUsed) <==> sim.is_profitable
                && cost is Some && cost->0 < gain && sim.gas_used == 0
            &&& outcome == Err::<Price, DropReason>(DropReason::Unprofitable) <==>
                !sim.is_profitable || cost is Some && gain <= cost->0
            &&& outcome matches Ok(price) ==> {
                &&& price.base_gas_cost == cost->0
                &&& price.net_profit + cost->0 == gain
                &&& price.miner_bribe == bribe(price.net_profit, bribe_bps as nat)
                &&& price.priority_fee_per_gas * sim.gas_used <= price.miner_bribe
                &&& price.miner_bribe < (price.priority_fee_per_gas + 1) * sim.gas_used
                &&& base_fee + price.priority_fee_per_gas < modulus() ==> price.max_fee_per_gas
                    == base_fee + price.priority_fee_per_gas
                &&& modulus() <= base_fee + price.priority_fee_per_gas < 2 * modulus()
                    ==> price.max_fee_per_gas + modulus() == base_fee + price.priority_fee_per_gas
                &&& price.gas_limit == limit_for(sim.gas_used as nat)
            }
        }),
{
    match priced(sim, base_fee, bribe_bps, registry, market, repay_token) {
        Ok(price) => {
            let q = price.priority_fee_per_gas as int;
            let (n, d) = (price.miner_bribe as int, sim.gas_used as int);
            vstd::arithmetic::div_mod::lemma_fundamental_div_mod(n, d);
            assert(q * d <= n < (q + 1) * d) by (nonlinear_arith)
                requires
                    n == d * q + n % d,
                    0 <= n % d < d,
            ;
        },
        Err(_) => {},
    }
}

/// A bundle may run from the block after the current one on, up to the given number of
/// blocks ahead: both can be read back, in hexadecimal after `0x`.
pub proof fn bundle_runs_from_the_next_block(current: u64, window: u64, r: (String, String))
    requires
        current < u64::MAX,
        current + window <= u64::MAX,
        call_ensures(bundle_blocks, (current, window), r),
    ensures
        number_in(r.0@) == Some((current + 1) as nat),
        number_in(r.1@) == Some((current + window) as nat),
{
    lemma_hexadecimal_is_read((current + 1) as nat);
    lemma_hexadecimal_is_read((current + window) as nat);
}

proof fn lemma_hexadecimal_is_read(n: nat)
    requires
        n < modulus(),
    ensures
        number_in(seq!['0', 'x'] + hexadecimal(n)) == Some(n),
{
    hexadecimal_spells_the_number(n);
    assert((seq!['0', 'x'] + hexadecimal(n)).skip(2) =~= hexadecimal(n));
}

/// Only the builder whose address has `blxrbdn` in it is sent the authorisation, and
/// is sent it as configured.
pub proof fn one_builder_is_sent_the_authorisation(
    url: &str,
    before: Seq<char>,
    after: Seq<char>,
    configured: Option<String>,
    r: Option<String>,
)
    requires
        call_ensures(authorisation, (url, configured), r),
    ensures
        url@ == before + "blxrbdn"@ + after ==> r == configured,
        r is Some ==> r == configured && occurs(url@, "blxrbdn"@),
{
    occurring_is_standing_inside(url@, "blxrbdn"@, before, after);
}

/// A builder took a bundle only where the request succeeded; a reply with `"error"`
/// in it is a refusal, and any other reply to a request that succeeded is none.
pub proof fn error_in_the_reply_is_a_refusal(
    succeeded: bool,
    body: &str,
    before: Seq<char>,
    after: Seq<char>,
    r: bool,
)
    requires
        call_ensures(is_accepted, (succeeded, body), r),
    ensures
        r ==> succeeded,
        body@ == before + "\"error\""@ + after ==> !r,
        succeeded && !r ==> occurs(body@, "\"error\""@),
{
    occurring_is_standing_inside(body@, "\"error\""@, before, after);
}

/// What `price_bundle` decides: a bundle is priced exactly where the simulation is
/// profitable and used gas, and the profit exceeds what `gas_cost_in_token` tells of
/// that gas at the base fee. What is left of the profit and that cost make up the
/// profit; the builder's share of what is left follows the configured
/// ten-thousandths; the priority fee spreads the share over the gas that was used and
/// comes on top of the base fee.
pub proof fn computed_price_splits_the_profit(
    sim: SimulationResult,
    base_fee: U256,
    bribe_bps: u64,
    registry: PairRegistry,
    state: MarketState,
    repay_token: Address,
    gas: U256,
    cost: Option<U256>,
    r: Result<BundlePrice, DropReason>,
)
    requires
        gas@ == sim.gas_used * base_fee@,
        call_ensures(gas_cost_in_token, (&registry, &state, repay_token, gas), cost),
        call_ensures(
            price_bundle,
            (&sim, base_fee, bribe_bps, &registry, &state, repay_token),
            r,
        ),
    ensures
        r is Ok <==> sim.is_profitable && cost is Some && cost->0@ < sim.expected_profit@
            && sim.gas_used > 0,
        r matches Ok(price) ==> {
            let share = price.miner_bribe@;
            let fee = price.priority_fee_per_gas@;
            &&& price.base_gas_cost@ == cost->0@
            &&& price.net_profit@ + cost->0@ == sim.expected_profit@
            &&& price.net_profit@ * bribe_bps < modulus() ==> share * 10_000 <= price.net_profit@
                * bribe_bps < (share + 1) * 10_000
            &&& fee * sim.gas_used <= share < (fee + 1) * sim.gas_used
            &&& base_fee@ + fee < modulus() ==> price.max_fee_per_gas@ == base_fee@ + fee
            &&& sim.gas_used * 120 <= u64::MAX ==> price.gas_limit == sim.gas_used + sim.gas_used
                / 5
        },
{
    lemma_below_modulus(gas);
    lemma_below_modulus(base_fee);
    price_splits_the_profit(
        sim,
        base_fee@,
        bribe_bps,
        registered(registry@),
        state@,
        repay_token@,
    );
    if let Ok(price) = r {
        bribe_is_the_configured_share(price.net_profit@, bribe_bps as nat);
        if sim.gas_used * 120 <= u64::MAX {
            gas_limit_leaves_a_margin(sim.gas_used as nat);
        }
    }
}

} // verus!
