//! Reading the swap of a pending transaction, and writing the arbitrage that
//! follows it.
use vstd::arithmetic::power::pow;
use vstd::prelude::*;
use vstd::slice::slice_subrange;

use crate::abi::{
    address_in, address_word, balance_in, decode_coin_swap, decode_swap, decoded_coin_swap,
    decoded_swap, number_word, optional_path, optional_swap, push_address, push_number,
    read_selector, selector_bytes, selector_of, start_call, written_address_is_read_back,
    written_balance_is_read_back, EXECUTE_FLASH_ARBITRAGE, SWAP_EXACT_ETH_FOR_TOKENS,
    SWAP_EXACT_TOKENS_FOR_ETH, SWAP_EXACT_TOKENS_FOR_TOKENS,
    SWAP_EXACT_TOKENS_FOR_TOKENS_WITH_FEE,
};
use crate::address::{addresses, Address};
use crate::pool::{
    arb_profit, flash_repay_amount, profit_is_what_the_sale_leaves, sale_amount, PoolState,
    VictimSwap,
};
use crate::table::Key;
use crate::u256::{lemma_bytes_spell_the_number, lemma_last_bytes, U256};

verus! {

/// The values of an optional swap.
pub open spec fn swap_values(x: Option<VictimSwap>) -> Option<(nat, Seq<Seq<u8>>)> {
    match x {
        Some(swap) => Some((swap.amount_in@, addresses(swap.path@))),
        None => None,
    }
}

/// How a call names the amount that its swap pays in.
#[derive(Clone, Copy, Debug, PartialEq, Eq, Structural)]
pub enum SwapForm {
    /// As an argument: a given amount of tokens.
    Tokens,
    /// As the value that the transaction carries: a given amount of the native
    /// coin.
    Coin,
}

/// The form of the swap that a selector stands for; nothing where it stands for
/// none.
pub open spec fn form_of(selector: nat) -> Option<SwapForm> {
    if selector == SWAP_EXACT_TOKENS_FOR_TOKENS || selector == SWAP_EXACT_TOKENS_FOR_ETH
        || selector == SWAP_EXACT_TOKENS_FOR_TOKENS_WITH_FEE {
        Some(SwapForm::Tokens)
    } else if selector == SWAP_EXACT_ETH_FOR_TOKENS {
        Some(SwapForm::Coin)
    } else {
        None
    }
}

/// A swap that pays in a given value along an optional path.
pub open spec fn valued(path: Option<Seq<Seq<u8>>>, value: nat) -> Option<(nat, Seq<Seq<u8>>)> {
    match path {
        Some(path) => Some((value, path)),
        None => None,
    }
}

/// The swap that a transaction with a given input and value makes: its selector
/// tells whether the amount is an argument or the value.
pub open spec fn swap_in(input: Seq<u8>, value: nat) -> Option<(nat, Seq<Seq<u8>>)> {
    if input.len() < 4 {
        None
    } else {
        match form_of(selector_of(input)) {
            Some(SwapForm::Tokens) => decoded_swap(input.skip(4)),
            Some(SwapForm::Coin) => valued(decoded_coin_swap(input.skip(4)), value),
            None => None,
        }
    }
}

/// The form of the swap that a selector stands for.
pub fn swap_form(selector: u32) -> (r: Option<SwapForm>)
    ensures
        r == form_of(selector as nat),
{
    if selector == SWAP_EXACT_TOKENS_FOR_TOKENS || selector == SWAP_EXACT_TOKENS_FOR_ETH || selector
        == SWAP_EXACT_TOKENS_FOR_TOKENS_WITH_FEE {
        Some(SwapForm::Tokens)
    } else if selector == SWAP_EXACT_ETH_FOR_TOKENS {
        Some(SwapForm::Coin)
    } else {
        None
    }
}

/// The swap of tokens whose amount and path were decoded.
pub fn token_swap(decoded: Option<(U256, Vec<Address>)>) -> (r: Option<VictimSwap>)
    ensures
        swap_values(r) == optional_swap(decoded),
{
    let (amount_in, path) = decoded?;
    Some(VictimSwap { amount_in, path })
}

/// The swap of the native coin whose path was decoded, in a transaction that
/// carries a given value.
pub fn coin_swap(decoded: Option<Vec<Address>>, value: U256) -> (r: Option<VictimSwap>)
    ensures
        swap_values(r) == valued(optional_path(decoded), value@),
{
    let path = decoded?;
    Some(VictimSwap { amount_in: value, path })
}

/// Reads the swap that a transaction makes, by its input and its value. A
/// selector that stands for no swap is not decoded any further.
pub fn decode_victim_swap(input: &[u8], tx_value: U256) -> (r: Option<VictimSwap>)
    ensures
        swap_values(r) == swap_in(input@, tx_value@),
{
    let selector = read_selector(input)?;
    let form = swap_form(selector)?;
    let arguments = slice_subrange(input, 4, input.len());
    assert(arguments@ == input@.skip(4));
    match form {
        SwapForm::Tokens => token_swap(decode_swap(arguments)),
        SwapForm::Coin => coin_swap(decode_coin_swap(arguments), tx_value),
    }
}

/// The arguments of the arbitrage call: the pools and their factories, what is
/// borrowed and from which side of the first pool, what the second pool pays out
/// on each side, what is paid back, and on what terms the call may succeed.
pub struct ArbParams {
    pub pair1: Address,
    pub pair2: Address,
    pub factory1: Address,
    pub factory2: Address,
    pub borrow_token: Address,
    pub borrow_amount: U256,
    pub amount0_out_pair2: U256,
    pub amount1_out_pair2: U256,
    pub repay_token: Address,
    pub repay_amount: U256,
    pub profit_token: Address,
    pub min_profit: U256,
    pub deadline: U256,
    pub amount0_out_pair1: U256,
    pub amount1_out_pair1: U256,
}

/// The values of the arguments of the arbitrage call.
pub ghost struct ArbTerms {
    pub pair1: Seq<u8>,
    pub pair2: Seq<u8>,
    pub factory1: Seq<u8>,
    pub factory2: Seq<u8>,
    pub borrow_token: Seq<u8>,
    pub borrow_amount: nat,
    pub amount0_out_pair2: nat,
    pub amount1_out_pair2: nat,
    pub repay_token: Seq<u8>,
    pub repay_amount: nat,
    pub profit_token: Seq<u8>,
    pub min_profit: nat,
    pub deadline: nat,
    pub amount0_out_pair1: nat,
    pub amount1_out_pair1: nat,
}

impl View for ArbParams {
    type V = ArbTerms;

    open spec fn view(&self) -> ArbTerms {
        ArbTerms {
            pair1: self.pair1@,
            pair2: self.pair2@,
            factory1: self.factory1@,
            factory2: self.factory2@,
            borrow_token: self.borrow_token@,
            borrow_amount: self.borrow_amount@,
            amount0_out_pair2: self.amount0_out_pair2@,
            amount1_out_pair2: self.amount1_out_pair2@,
            repay_token: self.repay_token@,
            repay_amount: self.repay_amount@,
            profit_token: self.profit_token@,
            min_profit: self.min_profit@,
            deadline: self.deadline@,
            amount0_out_pair1: self.amount0_out_pair1@,
            amount1_out_pair1: self.amount1_out_pair1@,
        }
    }
}

impl ArbTerms {
    /// The call with these arguments: its selector, then a word for each of them.
    pub open spec fn encoded(self) -> Seq<u8> {
        selector_bytes(EXECUTE_FLASH_ARBITRAGE) + address_word(self.pair1) + address_word(
            self.pair2,
        ) + address_word(self.factory1) + address_word(self.factory2) + address_word(
            self.borrow_token,
        ) + number_word(self.borrow_amount) + number_word(self.amount0_out_pair2) + number_word(
            self.amount1_out_pair2,
        ) + address_word(self.repay_token) + number_word(self.repay_amount) + address_word(
            self.profit_token,
        ) + number_word(self.min_profit) + number_word(self.deadline) + number_word(
            self.amount0_out_pair1,
        ) + number_word(self.amount1_out_pair1)
    }
}

impl ArbParams {
    /// Writes the call with these arguments.
    pub fn encode(&self) -> (r: Vec<u8>)
        ensures
            r@ == self@.encoded(),
    {
        let mut r = start_call(EXECUTE_FLASH_ARBITRAGE);
        push_address(&mut r, &self.pair1);
        push_address(&mut r, &self.pair2);
        push_address(&mut r, &self.factory1);
        push_address(&mut r, &self.factory2);
        push_address(&mut r, &self.borrow_token);
        push_number(&mut r, &self.borrow_amount);
        push_number(&mut r, &self.amount0_out_pair2);
        push_number(&mut r, &self.amount1_out_pair2);
        push_address(&mut r, &self.repay_token);
        push_number(&mut r, &self.repay_amount);
        push_address(&mut r, &self.profit_token);
        push_number(&mut r, &self.min_profit);
        push_number(&mut r, &self.deadline);
        push_number(&mut r, &self.amount0_out_pair1);
        push_number(&mut r, &self.amount1_out_pair1);
        r
    }
}

/// The least profit that the call is to make: a tenth of the estimated one, and
/// one at least.
pub open spec fn least_profit(profit: nat) -> nat {
    if profit / 10 > 1 {
        profit / 10
    } else {
        1
    }
}

/// The pools of an arbitrage, their factories, and until when it may run.
pub struct Venue {
    pub pair1: Address,
    pub pair2: Address,
    pub factory1: Address,
    pub factory2: Address,
    pub deadline: U256,
}

/// The arguments of the call that borrows `borrowed` of `token_out` from `pool1`
/// and sells it into `pool2` for `token_in` after a swap that paid `paid` of
/// `token_in`; nothing where the loan or the sale cannot be had, or where the
/// sale does not cover the repayment.
pub open spec fn arb_terms(
    venue: Venue,
    token_in: Seq<u8>,
    token_out: Seq<u8>,
    paid: nat,
    borrowed: nat,
    pool1: PoolState,
    pool2: PoolState,
) -> Option<ArbTerms> {
    match (
        pool1.repayment(token_out, token_in, pool1.reserve0@, pool1.reserve1@, borrowed),
        pool2.sale(token_in, token_out, paid, borrowed),
    ) {
        (Some(repaid), Some(sold)) => if repaid <= sold {
            Some(
                ArbTerms {
                    pair1: venue.pair1@,
                    pair2: venue.pair2@,
                    factory1: venue.factory1@,
                    factory2: venue.factory2@,
                    borrow_token: token_out,
                    borrow_amount: borrowed,
                    amount0_out_pair2: if pool2.token0@ == token_in {
                        sold
                    } else {
                        0
                    },
                    amount1_out_pair2: if pool2.token0@ == token_in {
                        0
                    } else {
                        sold
                    },
                    repay_token: token_in,
                    repay_amount: repaid,
                    profit_token: token_in,
                    min_profit: least_profit((sold - repaid) as nat),
                    deadline: venue.deadline@,
                    amount0_out_pair1: if pool1.token0@ == token_out {
                        borrowed
                    } else {
                        0
                    },
                    amount1_out_pair1: if pool1.token0@ == token_out {
                        0
                    } else {
                        borrowed
                    },
                },
            )
        } else {
            None
        },
        _ => None,
    }
}

/// The values of optional arguments.
pub open spec fn terms_of(x: Option<ArbParams>) -> Option<ArbTerms> {
    match x {
        Some(params) => Some(params@),
        None => None,
    }
}

/// The bytes of an optional call.
pub open spec fn optional_bytes(x: Option<Vec<u8>>) -> Option<Seq<u8>> {
    match x {
        Some(bytes) => Some(bytes@),
        None => None,
    }
}

/// The amounts of the two sides of a pool where one side pays out.
fn on_side(first: bool, amount: U256) -> (r: (U256, U256))
    ensures
        r.0@ == (if first {
            amount@
        } else {
            0
        }),
        r.1@ == (if first {
            0
        } else {
            amount@
        }),
{
    if first {
        (amount, U256::zero())
    } else {
        (U256::zero(), amount)
    }
}

/// Computes the arguments of the arbitrage call that backruns the pending swap.
pub fn plan_arbitrage(
    venue: &Venue,
    victim: &VictimSwap,
    optimal_borrow: U256,
    pool1: &PoolState,
    pool2: &PoolState,
) -> (r: Option<ArbParams>)
    ensures
        terms_of(r) == (if victim.path@.len() >= 2 {
            arb_terms(
                *venue,
                victim.path@[0]@,
                victim.path@[1]@,
                victim.amount_in@,
                optimal_borrow@,
                *pool1,
                *pool2,
            )
        } else {
            None
        }),
{
    if victim.path.len() < 2 {
        return None;
    }
    let token_in = victim.path[0];
    let token_out = victim.path[1];
    let repay_amount = flash_repay_amount(
        pool1,
        token_out,
        token_in,
        pool1.reserve0,
        pool1.reserve1,
        optimal_borrow,
    )?;
    let (amount0_out_pair1, amount1_out_pair1) = on_side(
        pool1.token0.same(&token_out),
        optimal_borrow,
    );
    let sold = sale_amount(pool2, token_in, token_out, victim.amount_in, optimal_borrow)?;
    if sold.less_than(&repay_amount) {
        return None;
    }
    let (amount0_out_pair2, amount1_out_pair2) = on_side(pool2.token0.same(&token_in), sold);
    let one = U256::from_u64(1);
    let tenth = sold.saturating_sub(repay_amount).quotient(U256::from_u64(10));
    let min_profit = if one.less_than(&tenth) {
        tenth
    } else {
        one
    };
    Some(
        ArbParams {
            pair1: venue.pair1,
            pair2: venue.pair2,
            factory1: venue.factory1,
            factory2: venue.factory2,
            borrow_token: token_out,
            borrow_amount: optimal_borrow,
            amount0_out_pair2,
            amount1_out_pair2,
            repay_token: token_in,
            repay_amount,
            profit_token: token_in,
            min_profit,
            deadline: venue.deadline,
            amount0_out_pair1,
            amount1_out_pair1,
        },
    )
}

/// Writes the arbitrage call that backruns the pending swap.
pub fn build_calldata(
    pair1: Address,
    pair2: Address,
    factory1: Address,
    factory2: Address,
    deadline: U256,
    victim: &VictimSwap,
    optimal_borrow: U256,
    pool1: &PoolState,
    pool2: &PoolState,
) -> (r: Option<Vec<u8>>)
    ensures
        optional_bytes(r) == (if victim.path@.len() >= 2 {
            match arb_terms(
                (Venue { pair1, pair2, factory1, factory2, deadline }),
                victim.path@[0]@,
                victim.path@[1]@,
                victim.amount_in@,
                optimal_borrow@,
                *pool1,
                *pool2,
            ) {
                Some(terms) => Some(terms.encoded()),
                None => None,
            }
        } else {
            None
        }),
{
    let venue = Venue { pair1, pair2, factory1, factory2, deadline };
    let params = plan_arbitrage(&venue, victim, optimal_borrow, pool1, pool2)?;
    Some(params.encode())
}

/// A call can be written exactly where the profit can be estimated, and asks for
/// a tenth of that profit, and for one at least.
pub proof fn call_follows_the_estimate(
    venue: Venue,
    token_in: Seq<u8>,
    token_out: Seq<u8>,
    paid: nat,
    borrowed: nat,
    pool1: PoolState,
    pool2: PoolState,
)
    ensures
        ({
            let terms = arb_terms(venue, token_in, token_out, paid, borrowed, pool1, pool2);
            let profit = arb_profit(pool1, pool2, token_in, token_out, paid, borrowed);
            &&& terms is Some <==> profit is Some
            &&& terms is Some ==> terms->0.min_profit == least_profit(profit->0)
        }),
{
}

/// Each pool pays out on one side only: the first one what is borrowed, the
/// second one what covers the repayment and the estimated profit.
pub proof fn one_side_pays_out(
    venue: Venue,
    token_in: Seq<u8>,
    token_out: Seq<u8>,
    paid: nat,
    borrowed: nat,
    pool1: PoolState,
    pool2: PoolState,
)
    ensures
        arb_terms(venue, token_in, token_out, paid, borrowed, pool1, pool2) matches Some(terms)
            ==> {
            &&& terms.amount0_out_pair1 == 0 || terms.amount1_out_pair1 == 0
            &&& terms.amount0_out_pair1 + terms.amount1_out_pair1 == borrowed
            &&& terms.amount0_out_pair2 == 0 || terms.amount1_out_pair2 == 0
            &&& terms.amount0_out_pair2 + terms.amount1_out_pair2 == terms.repay_amount
                + arb_profit(pool1, pool2, token_in, token_out, paid, borrowed)->0
        },
{
}

/// Four selectors stand for a swap: three for one whose amount is an argument, and
/// one for a swap of the native coin. Every other selector stands for none.
pub proof fn four_selectors_are_swaps(selector: nat)
    ensures
        form_of(selector) == Some(SwapForm::Coin) <==> selector == 0x7ff36ab5,
        form_of(selector) == Some(SwapForm::Tokens) <==> (selector == 0x38ed1739 || selector
            == 0x18cbafe5 || selector == 0x5c11d795),
{
}

/// The swap of a call is read from what follows its selector. Where the amount is an
/// argument, the value of the transaction makes no difference; where it is the value,
/// the swap pays that value in. A call of another kind, or one too short to have a
/// selector, makes no swap.
pub proof fn swap_is_read_by_its_selector(selector: u32, arguments: Seq<u8>, value: nat)
    ensures
        ({
            let input = selector_bytes(selector) + arguments;
            let swap = swap_in(input, value);
            &&& selector == 0x38ed1739 || selector == 0x18cbafe5 || selector == 0x5c11d795 ==> swap
                == decoded_swap(arguments)
            &&& selector == 0x7ff36ab5 ==> match decoded_coin_swap(arguments) {
                Some(path) => swap == Some((value, path)),
                None => swap is None,
            }
            &&& selector != 0x38ed1739 && selector != 0x18cbafe5 && selector != 0x5c11d795
                && selector != 0x7ff36ab5 ==> swap is None
        }),
        arguments.len() < 4 ==> swap_in(arguments, value) is None,
{
    let input = selector_bytes(selector) + arguments;
    lemma_selector(selector, arguments);
    lemma_last_bytes(selector as nat, 4, 4);
    assert(input.skip(4) =~= arguments);
}

proof fn lemma_selector(selector: u32, rest: Seq<u8>)
    ensures
        selector_of(selector_bytes(selector) + rest) == selector,
{
    lemma_last_bytes(selector as nat, 4, 4);
    assert((selector_bytes(selector) + rest).take(4) =~= selector_bytes(selector));
    assert(pow(256, 4) == 0x1_0000_0000) by {
        reveal_with_fuel(pow, 5);
    }
    lemma_bytes_spell_the_number(selector as nat, 4);
}

/// The word of a call at a place: thirty-two bytes, the first one right after the
/// selector.
pub open spec fn word_at(call: Seq<u8>, place: int) -> Seq<u8> {
    call.subrange(4 + 32 * place, 36 + 32 * place)
}

proof fn lemma_words(start: Seq<u8>, words: Seq<Seq<u8>>, place: int)
    requires
        start.len() == 4,
        forall|k: int| 0 <= k < words.len() ==> (#[trigger] words[k]).len() == 32,
        0 <= place < words.len(),
    ensures
        strung(start, words).len() == 4 + 32 * words.len(),
        word_at(strung(start, words), place) == words[place],
    decreases words.len(),
{
    let rest = words.drop_last();
    let before = strung(start, rest);
    let whole = strung(start, words);
    assert forall|k: int| 0 <= k < rest.len() implies (#[trigger] rest[k]).len() == 32 by {
        assert(rest[k] == words[k]);
    }
    lemma_strung_length(start, rest);
    assert(words.last() == words[words.len() - 1]);
    if place == words.len() - 1 {
        assert(word_at(whole, place) =~= words[place]);
    } else {
        lemma_words(start, rest, place);
        assert(word_at(whole, place) =~= word_at(before, place));
    }
}

proof fn lemma_strung_length(start: Seq<u8>, words: Seq<Seq<u8>>)
    requires
        start.len() == 4,
        forall|k: int| 0 <= k < words.len() ==> (#[trigger] words[k]).len() == 32,
    ensures
        strung(start, words).len() == 4 + 32 * words.len(),
    decreases words.len(),
{
    if words.len() > 0 {
        let rest = words.drop_last();
        assert forall|k: int| 0 <= k < rest.len() implies (#[trigger] rest[k]).len() == 32 by {
            assert(rest[k] == words[k]);
        }
        lemma_strung_length(start, rest);
        assert(words.last() == words[words.len() - 1]);
    }
}

/// Words strung together after a start.
spec fn strung(start: Seq<u8>, words: Seq<Seq<u8>>) -> Seq<u8>
    decreases words.len(),
{
    if words.len() == 0 {
        start
    } else {
        strung(start, words.drop_last()) + words.last()
    }
}

/// The arguments of the arbitrage call can be read back from its bytes: after the
/// selector `0x937c11a5` come fifteen words, which hold the pools, their factories,
/// the borrowed token and amount, the payouts of the second pool, the token and amount
/// to pay back, the profit token, the least profit, the deadline, and the payouts of
/// the first pool.
pub proof fn call_can_be_read_back(params: ArbParams)
    ensures
        ({
            let call = params@.encoded();
            &&& call.len() == 484
            &&& selector_of(call) == 0x937c11a5
            &&& address_in(word_at(call, 0)) == Some(params.pair1@)
            &&& address_in(word_at(call, 1)) == Some(params.pair2@)
            &&& address_in(word_at(call, 2)) == Some(params.factory1@)
            &&& address_in(word_at(call, 3)) == Some(params.factory2@)
            &&& address_in(word_at(call, 4)) == Some(params.borrow_token@)
            &&& balance_in(word_at(call, 5)) == params.borrow_amount@
            &&& balance_in(word_at(call, 6)) == params.amount0_out_pair2@
            &&& balance_in(word_at(call, 7)) == params.amount1_out_pair2@
            &&& address_in(word_at(call, 8)) == Some(params.repay_token@)
            &&& balance_in(word_at(call, 9)) == params.repay_amount@
            &&& address_in(word_at(call, 10)) == Some(params.profit_token@)
            &&& balance_in(word_at(call, 11)) == params.min_profit@
            &&& balance_in(word_at(call, 12)) == params.deadline@
            &&& balance_in(word_at(call, 13)) == params.amount0_out_pair1@
            &&& balance_in(word_at(call, 14)) == params.amount1_out_pair1@
        }),
{
    let call = params@.encoded();
    let start = selector_bytes(EXECUTE_FLASH_ARBITRAGE);
    lemma_last_bytes(EXECUTE_FLASH_ARBITRAGE as nat, 4, 4);
    let words = seq![
        address_word(params.pair1@),
        address_word(params.pair2@),
        address_word(params.factory1@),
        address_word(params.factory2@),
        address_word(params.borrow_token@),
        number_word(params.borrow_amount@),
        number_word(params.amount0_out_pair2@),
        number_word(params.amount1_out_pair2@),
        address_word(params.repay_token@),
        number_word(params.repay_amount@),
        address_word(params.profit_token@),
        number_word(params.min_profit@),
        number_word(params.deadline@),
        number_word(params.amount0_out_pair1@),
        number_word(params.amount1_out_pair1@),
    ];
    lemma_number_word(params.borrow_amount);
    lemma_number_word(params.amount0_out_pair2);
    lemma_number_word(params.amount1_out_pair2);
    lemma_number_word(params.repay_amount);
    lemma_number_word(params.min_profit);
    lemma_number_word(params.deadline);
    lemma_number_word(params.amount0_out_pair1);
    lemma_number_word(params.amount1_out_pair1);
    written_address_is_read_back(params.pair1);
    written_address_is_read_back(params.pair2);
    written_address_is_read_back(params.factory1);
    written_address_is_read_back(params.factory2);
    written_address_is_read_back(params.borrow_token);
    written_address_is_read_back(params.repay_token);
    written_address_is_read_back(params.profit_token);
    assert(strung(start, words) == call) by {
        lemma_unstring(start, words);
    }
    assert forall|k: int| 0 <= k < words.len() implies word_at(call, k) == #[trigger] words[k] by {
        lemma_words(start, words, k);
    }
    lemma_words(start, words, 0);
    lemma_selector(EXECUTE_FLASH_ARBITRAGE, call.skip(4));
    assert(call.take(4) =~= start);
    assert(call =~= start + call.skip(4));
    assert(word_at(call, 0) == words[0] && word_at(call, 1) == words[1] && word_at(call, 2)
        == words[2] && word_at(call, 3) == words[3] && word_at(call, 4) == words[4]);
    assert(word_at(call, 5) == words[5] && word_at(call, 6) == words[6] && word_at(call, 7)
        == words[7] && word_at(call, 8) == words[8] && word_at(call, 9) == words[9]);
    assert(word_at(call, 10) == words[10] && word_at(call, 11) == words[11] && word_at(call, 12)
        == words[12] && word_at(call, 13) == words[13] && word_at(call, 14) == words[14]);
}

proof fn lemma_number_word(n: U256)
    ensures
        number_word(n@).len() == 32,
        balance_in(number_word(n@)) == n@,
{
    lemma_last_bytes(n@, 32, 32);
    written_balance_is_read_back(n);
}

proof fn lemma_unstring(start: Seq<u8>, w: Seq<Seq<u8>>)
    requires
        w.len() == 15,
    ensures
        strung(start, w) == start + w[0] + w[1] + w[2] + w[3] + w[4] + w[5] + w[6] + w[7] + w[8]
            + w[9] + w[10] + w[11] + w[12] + w[13] + w[14],
{
    reveal_with_fuel(strung, 16);
    lemma_less(w, 15);
    lemma_less(w, 14);
    lemma_less(w, 13);
    lemma_less(w, 12);
    lemma_less(w, 11);
    lemma_less(w, 10);
    lemma_less(w, 9);
    lemma_less(w, 8);
    lemma_less(w, 7);
    lemma_less(w, 6);
    lemma_less(w, 5);
    lemma_less(w, 4);
    lemma_less(w, 3);
    lemma_less(w, 2);
    lemma_less(w, 1);
    assert(w.take(15) =~= w);
}

proof fn lemma_less(w: Seq<Seq<u8>>, n: int)
    requires
        0 < n <= w.len(),
    ensures
        w.take(n).drop_last() == w.take(n - 1),
        w.take(n).last() == w[n - 1],
        w.take(n).len() == n,
{
    assert(w.take(n).drop_last() =~= w.take(n - 1));
}

/// The least profit is a tenth of the estimated one, rounded down, but one at least.
pub proof fn least_profit_is_a_tenth(profit: nat)
    ensures
        least_profit(profit) >= 1,
        profit >= 10 ==> least_profit(profit) * 10 <= profit < (least_profit(profit) + 1) * 10,
        profit < 10 ==> least_profit(profit) == 1,
{
}

/// The call borrows the token that the swap buys, from the side of the first pool that
/// holds it, and takes the token that the swap pays with from the side of the second
/// pool that holds it. It pays back and counts its profit in that token: what the
/// second pool pays out, what is paid back and the profit add up. The pools, their
/// factories and the deadline are those given.
pub proof fn call_takes_each_token_from_its_side(
    venue: Venue,
    token_in: Seq<u8>,
    token_out: Seq<u8>,
    paid: nat,
    borrowed: nat,
    pool1: PoolState,
    pool2: PoolState,
)
    requires
        token_in != token_out,
    ensures
        arb_terms(venue, token_in, token_out, paid, borrowed, pool1, pool2) matches Some(terms)
            ==> {
            let owed = pool1.repayment(
                token_out,
                token_in,
                pool1.reserve0@,
                pool1.reserve1@,
                borrowed,
            );
            let sold = pool2.sale(token_in, token_out, paid, borrowed);
            &&& pool1.token0@ == token_out ==> terms.amount0_out_pair1 == borrowed
                && terms.amount1_out_pair1 == 0
            &&& pool1.token1@ == token_out ==> terms.amount1_out_pair1 == borrowed
                && terms.amount0_out_pair1 == 0
            &&& pool2.token0@ == token_in ==> Some(terms.amount0_out_pair2) == sold
                && terms.amount1_out_pair2 == 0
            &&& pool2.token1@ == token_in ==> Some(terms.amount1_out_pair2) == sold
                && terms.amount0_out_pair2 == 0
            &&& Some(terms.repay_amount) == owed
            &&& terms.borrow_token == token_out && terms.borrow_amount == borrowed
            &&& terms.repay_token == token_in && terms.profit_token == token_in
            &&& terms.pair1 == venue.pair1@ && terms.factory1 == venue.factory1@
            &&& terms.pair2 == venue.pair2@ && terms.factory2 == venue.factory2@
            &&& terms.deadline == venue.deadline@
            &&& terms.min_profit == least_profit((sold->0 - owed->0) as nat)
        },
{
}

/// `plan_arbitrage` and `build_calldata` go by the first two tokens of the path,
/// however many follow, and by nothing for a shorter one. The call holds the planned
/// arguments: the loan of the second token from the side of the first pool that holds
/// it, the sale for the first token from the side of the second pool that holds it.
pub proof fn planned_call_takes_each_token_from_its_side(
    venue: Venue,
    victim: VictimSwap,
    loan: U256,
    pool1: PoolState,
    pool2: PoolState,
    plan: Option<ArbParams>,
    call: Option<Vec<u8>>,
)
    requires
        victim.path@.len() >= 2 ==> victim.path@[0]@ != victim.path@[1]@,
        call_ensures(plan_arbitrage, (&venue, &victim, loan, &pool1, &pool2), plan),
        call_ensures(
            build_calldata,
            (
                venue.pair1,
                venue.pair2,
                venue.factory1,
                venue.factory2,
                venue.deadline,
                &victim,
                loan,
                &pool1,
                &pool2,
            ),
            call,
        ),
    ensures
        plan is Some <==> call is Some,
        victim.path@.len() < 2 ==> plan is None,
        victim.path@.len() > 1 ==> {
            let (a, b) = (victim.path@[0]@, victim.path@[1]@);
            let sold = pool2.sale(a, b, victim.amount_in@, loan@);
            let owed = pool1.repayment(b, a, pool1.reserve0@, pool1.reserve1@, loan@);
            &&& plan is Some <==> sold is Some && owed is Some && owed->0 <= sold->0
            &&& plan matches Some(p) ==> {
                &&& p.borrow_token@ == b && p.repay_token@ == a && p.profit_token@ == a
                &&& p.borrow_amount@ == loan@ && p.repay_amount@ == owed->0
                &&& pool1.token0@ == b ==> p.amount0_out_pair1@ == loan@ && p.amount1_out_pair1@
                    == 0
                &&& pool1.token1@ == b ==> p.amount1_out_pair1@ == loan@ && p.amount0_out_pair1@
                    == 0
                &&& pool2.token0@ == a ==> p.amount0_out_pair2@ == sold->0 && p.amount1_out_pair2@
                    == 0
                &&& pool2.token1@ == a ==> p.amount1_out_pair2@ == sold->0 && p.amount0_out_pair2@
                    == 0
                &&& p.pair1@ == venue.pair1@ && p.pair2@ == venue.pair2@
                &&& p.factory1@ == venue.factory1@ && p.factory2@ == venue.factory2@
                &&& p.deadline@ == venue.deadline@
                &&& p.min_profit@ > 0
                &&& sold->0 - owed->0 >= 10 ==> p.min_profit@ * 10 <= sold->0 - owed->0 < (
                p.min_profit@ + 1) * 10
                &&& call->0@ == p@.encoded()
            }
        },
{
    if victim.path@.len() > 1 {
        let (a, b) = (victim.path@[0]@, victim.path@[1]@);
        call_takes_each_token_from_its_side(
            venue,
            a,
            b,
            victim.amount_in@,
            loan@,
            pool1,
            pool2,
        );
        call_follows_the_estimate(venue, a, b, victim.amount_in@, loan@, pool1, pool2);
        profit_is_what_the_sale_leaves(pool1, pool2, a, b, victim.amount_in@, loan@);
    }
}

/// `decode_victim_swap` reads what `decode_swap` or `decode_coin_swap` reads of what
/// follows the selector; a swap of the native coin pays in the value of the
/// transaction, and a swap of tokens the amount among its arguments.
pub proof fn swap_pays_the_amount_or_the_value(
    input: &[u8],
    value: U256,
    selector: u32,
    arguments: Seq<u8>,
    r: Option<VictimSwap>,
)
    requires
        input@ == selector_bytes(selector) + arguments,
        call_ensures(decode_victim_swap, (input, value), r),
    ensures
        selector == 0x7ff36ab5 ==> match decoded_coin_swap(arguments) {
            Some(path) => r is Some && r->0.amount_in@ == value@ && addresses(r->0.path@) == path,
            None => r is None,
        },
        selector == 0x38ed1739 || selector == 0x18cbafe5 || selector == 0x5c11d795
            ==> match decoded_swap(arguments) {
            Some((paid, path)) => r is Some && r->0.amount_in@ == paid && addresses(r->0.path@)
                == path,
            None => r is None,
        },
        selector != 0x38ed1739 && selector != 0x18cbafe5 && selector != 0x5c11d795 && selector
            != 0x7ff36ab5 ==> r is None,
{
    swap_is_read_by_its_selector(selector, arguments, value@);
}

} // verus!
