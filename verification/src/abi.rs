//! The binary interface of contracts: the words of calls and replies.
use alloy::primitives::{Address as ChainAddress, Bytes, U256 as Wide};
use alloy::sol_types::{sol_data, SolType};
use vstd::arithmetic::power::pow;
use vstd::prelude::*;
use vstd::slice::slice_subrange;

use crate::address::{address_bytes, addresses, Address};
use crate::u256::{
    big_endian, big_endian_value, lemma_below_modulus, lemma_byte_powers,
    lemma_bytes_spell_the_number, lemma_last_bytes, lemma_spelled_number_fits, U256,
};

verus! {

/// The selector of `swapExactTokensForTokens(uint256,uint256,address[],address,uint256)`.
pub const SWAP_EXACT_TOKENS_FOR_TOKENS: u32 = 0x38ed1739;

/// The selector of `swapExactTokensForETH(uint256,uint256,address[],address,uint256)`.
pub const SWAP_EXACT_TOKENS_FOR_ETH: u32 = 0x18cbafe5;

/// The selector of `swapExactETHForTokens(uint256,address[],address,uint256)`.
pub const SWAP_EXACT_ETH_FOR_TOKENS: u32 = 0x7ff36ab5;

/// The selector of `swapExactTokensForTokensSupportingFeeOnTransferTokens(uint256,uint256,address[],address,uint256)`.
pub const SWAP_EXACT_TOKENS_FOR_TOKENS_WITH_FEE: u32 = 0x5c11d795;

/// The selector of `aggregate3((address,bool,bytes)[])`.
pub const AGGREGATE3: u32 = 0x82ad56cb;

/// The selector of `getReserves()`.
pub const GET_RESERVES: u32 = 0x0902f1ac;

/// The selector of `getPair(address,address)`.
pub const GET_PAIR: u32 = 0xe6a43905;

/// The selector of `balanceOf(address)`.
pub const BALANCE_OF: u32 = 0x70a08231;

/// The selector of `owner()`.
pub const OWNER: u32 = 0x8da5cb5b;

/// The selector of `executeFlashArbitrage((address,address,address,address,address,uint256,uint256,uint256,address,uint256,address,uint256,uint256),uint256,uint256)`.
pub const EXECUTE_FLASH_ARBITRAGE: u32 = 0x937c11a5;

/// One call of a batch: the contract to call, whether it may fail, and its input.
pub struct Call3 {
    pub target: Address,
    pub allow_failure: bool,
    pub call_data: Vec<u8>,
}

impl View for Call3 {
    type V = (Seq<u8>, bool, Seq<u8>);

    open spec fn view(&self) -> (Seq<u8>, bool, Seq<u8>) {
        (self.target@, self.allow_failure, self.call_data@)
    }
}

/// The reply to one call of a batch: whether it succeeded, and its output.
pub struct CallResult {
    pub success: bool,
    pub return_data: Vec<u8>,
}

impl View for CallResult {
    type V = (bool, Seq<u8>);

    open spec fn view(&self) -> (bool, Seq<u8>) {
        (self.success, self.return_data@)
    }
}

/// What each call of a batch asks.
pub open spec fn calls(list: Seq<Call3>) -> Seq<(Seq<u8>, bool, Seq<u8>)> {
    list.map_values(|c: Call3| c@)
}

/// What each reply of a batch says.
pub open spec fn results(list: Seq<CallResult>) -> Seq<(bool, Seq<u8>)> {
    list.map_values(|c: CallResult| c@)
}

/// What the replies of an optional batch say.
pub open spec fn optional_results(list: Option<Vec<CallResult>>) -> Option<Seq<(bool, Seq<u8>)>> {
    match list {
        Some(list) => Some(results(list@)),
        None => None,
    }
}

/// The number of calls that have a reply, and of replies that have a call.
pub open spec fn answered(asked: nat, replied: nat) -> nat {
    if asked < replied {
        asked
    } else {
        replied
    }
}

/// An address as a word of thirty-two bytes: twelve zeros before it.
pub open spec fn address_word(a: Seq<u8>) -> Seq<u8> {
    Seq::new(12, |i: int| 0u8) + a
}

/// A number as a word of thirty-two bytes, most significant byte first.
pub open spec fn number_word(n: nat) -> Seq<u8> {
    big_endian(n, 32)
}

/// The first four bytes of a call.
pub open spec fn selector_bytes(selector: u32) -> Seq<u8> {
    big_endian(selector as nat, 4)
}

/// The number that the first four bytes of a call spell.
pub open spec fn selector_of(input: Seq<u8>) -> nat {
    big_endian_value(input.take(4))
}

/// The address in the first word of a reply.
pub open spec fn address_in(data: Seq<u8>) -> Option<Seq<u8>> {
    if data.len() >= 32 {
        Some(data.subrange(12, 32))
    } else {
        None
    }
}

/// The two reserves in a reply to `getReserves()`: the last fourteen bytes of its
/// first two words.
pub open spec fn reserves_in(data: Seq<u8>) -> Option<(nat, nat)> {
    if data.len() >= 96 {
        Some(
            (big_endian_value(data.subrange(18, 32)), big_endian_value(data.subrange(50, 64))),
        )
    } else {
        None
    }
}

/// The encoding of the argument of `aggregate3`.
pub uninterp spec fn encoded_calls(list: Seq<(Seq<u8>, bool, Seq<u8>)>) -> Seq<u8>;

/// What `aggregate3` returns by the bytes of its reply.
pub uninterp spec fn decoded_results(data: Seq<u8>) -> Option<Seq<(bool, Seq<u8>)>>;

/// The amount paid and the path of a swap for a given amount of tokens, by the
/// bytes of its arguments.
pub uninterp spec fn decoded_swap(data: Seq<u8>) -> Option<(nat, Seq<Seq<u8>>)>;

/// The path of a swap of the native coin, by the bytes of its arguments.
pub uninterp spec fn decoded_coin_swap(data: Seq<u8>) -> Option<Seq<Seq<u8>>>;

/// The values of an optional amount and path.
pub open spec fn optional_swap(x: Option<(U256, Vec<Address>)>) -> Option<(nat, Seq<Seq<u8>>)> {
    match x {
        Some((paid, path)) => Some((paid@, addresses(path@))),
        None => None,
    }
}

/// The addresses of an optional path.
pub open spec fn optional_path(x: Option<Vec<Address>>) -> Option<Seq<Seq<u8>>> {
    match x {
        Some(path) => Some(addresses(path@)),
        None => None,
    }
}

/// The values of an optional pair of numbers.
pub open spec fn optional_numbers(x: Option<(U256, U256)>) -> Option<(nat, nat)> {
    match x {
        Some((a, b)) => Some((a@, b@)),
        None => None,
    }
}

/// Calls `abi_encode` of `alloy::sol_types::sol_data::Address`: the word of an
/// address.
#[verifier::external_body]
fn encode_address(a: &Address) -> (r: Vec<u8>)
    ensures
        r@ == address_word(a@),
{
    sol_data::Address::abi_encode(&ChainAddress::from(a.bytes))
}

/// Calls `abi_encode` of `alloy::sol_types::sol_data::Uint`: the word of a
/// number.
#[verifier::external_body]
fn encode_number(n: &U256) -> (r: Vec<u8>)
    ensures
        r@ == number_word(n@),
{
    sol_data::Uint::<256>::abi_encode(&Wide::from_limbs([n.l0, n.l1, n.l2, n.l3]))
}

/// Calls `abi_encode_sequence` of `alloy::sol_types::SolType` for a list of
/// (address, bool, bytes); the encoding is named and not spelled out.
#[verifier::external_body]
fn encode_calls(list: &Vec<Call3>) -> (r: Vec<u8>)
    ensures
        r@ == encoded_calls(calls(list@)),
{
    let tuples: Vec<(ChainAddress, bool, Bytes)> = list.iter().map(
        |c| (ChainAddress::from(c.target.bytes), c.allow_failure, c.call_data.clone().into()),
    ).collect();
    <(sol_data::Array<(sol_data::Address, sol_data::Bool, sol_data::Bytes)>,)>::abi_encode_sequence(
        &(tuples,),
    )
}

/// Calls `abi_decode_sequence` of `alloy::sol_types::SolType` for a list of
/// (bool, bytes); what it reads is named and not spelled out.
#[verifier::external_body]
pub(crate) fn decode_results(data: &[u8]) -> (r: Option<Vec<CallResult>>)
    ensures
        optional_results(r) == decoded_results(data@),
{
    let (list,) =
        <(sol_data::Array<(sol_data::Bool, sol_data::Bytes)>,)>::abi_decode_sequence(data).ok()?;
    Some(
        list.into_iter().map(
            |(success, bytes)| CallResult { success, return_data: bytes.to_vec() },
        ).collect(),
    )
}

/// Calls `abi_decode_sequence` of `alloy::sol_types::SolType` for one address:
/// the last twenty bytes of the first word, nothing where there is no whole word.
#[verifier::external_body]
pub(crate) fn decode_address(data: &[u8]) -> (r: Option<Address>)
    ensures
        address_bytes(r) == address_in(data@),
{
    let (a,) = <(sol_data::Address,)>::abi_decode_sequence(data).ok()?;
    Some(Address { bytes: a.into_array() })
}

/// Calls `abi_decode_sequence` of `alloy::sol_types::SolType` for (uint112,
/// uint112, uint32): the first two numbers, each by the last fourteen bytes of
/// its word, nothing where there are no three whole words.
#[verifier::external_body]
pub(crate) fn decode_reserves(data: &[u8]) -> (r: Option<(U256, U256)>)
    ensures
        optional_numbers(r) == reserves_in(data@),
{
    let (a, b, _) = <(
        sol_data::Uint<112>,
        sol_data::Uint<112>,
        sol_data::Uint<32>,
    )>::abi_decode_sequence(data).ok()?;
    let [a0, a1, a2, a3] = Wide::from(a).into_limbs();
    let [b0, b1, b2, b3] = Wide::from(b).into_limbs();
    Some((U256 { l0: a0, l1: a1, l2: a2, l3: a3 }, U256 { l0: b0, l1: b1, l2: b2, l3: b3 }))
}

/// Calls `abi_decode_sequence` of `alloy::sol_types::SolType` for (uint256,
/// uint256, address[], address, uint256) and keeps the first number and the
/// list; what it reads is named and not spelled out.
#[verifier::external_body]
pub(crate) fn decode_swap(data: &[u8]) -> (r: Option<(U256, Vec<Address>)>)
    ensures
        optional_swap(r) == decoded_swap(data@),
{
    let (paid, _, path, _, _) = <(
        sol_data::Uint<256>,
        sol_data::Uint<256>,
        sol_data::Array<sol_data::Address>,
        sol_data::Address,
        sol_data::Uint<256>,
    )>::abi_decode_sequence(data).ok()?;
    let [l0, l1, l2, l3] = paid.into_limbs();
    let path = path.into_iter().map(|a| Address { bytes: a.into_array() }).collect();
    Some((U256 { l0, l1, l2, l3 }, path))
}

/// Calls `abi_decode_sequence` of `alloy::sol_types::SolType` for (uint256,
/// address[], address, uint256) and keeps the list; what it reads is named and
/// not spelled out.
#[verifier::external_body]
pub(crate) fn decode_coin_swap(data: &[u8]) -> (r: Option<Vec<Address>>)
    ensures
        optional_path(r) == decoded_coin_swap(data@),
{
    let (_, path, _, _) = <(
        sol_data::Uint<256>,
        sol_data::Array<sol_data::Address>,
        sol_data::Address,
        sol_data::Uint<256>,
    )>::abi_decode_sequence(data).ok()?;
    Some(path.into_iter().map(|a| Address { bytes: a.into_array() }).collect())
}

/// The four bytes of a selector, as the start of a call.
pub(crate) fn start_call(selector: u32) -> (r: Vec<u8>)
    ensures
        r@ == selector_bytes(selector),
{
    let mut r: Vec<u8> = Vec::new();
    r.push((selector / 0x100_0000) as u8);
    r.push((selector / 0x1_0000 % 0x100) as u8);
    r.push((selector / 0x100 % 0x100) as u8);
    r.push((selector % 0x100) as u8);
    proof {
        reveal_with_fuel(big_endian, 5);
        assert(r@ =~= selector_bytes(selector));
    }
    r
}

/// The selector of a call, nothing where the call has less than four bytes.
pub fn read_selector(input: &[u8]) -> (r: Option<u32>)
    ensures
        match r {
            Some(selector) => input@.len() >= 4 && selector == selector_of(input@),
            None => input@.len() < 4,
        },
{
    if input.len() < 4 {
        return None;
    }
    proof {
        reveal_with_fuel(big_endian_value, 5);
        let first = input@.take(4);
        assert(first.drop_last().drop_last().drop_last().drop_last() =~= Seq::empty());
    }
    Some(
        (input[0] as u32) * 0x100_0000 + (input[1] as u32) * 0x1_0000 + (input[2] as u32) * 0x100
            + (input[3] as u32),
    )
}

/// Appends the word of an address to a call.
pub(crate) fn push_address(out: &mut Vec<u8>, a: &Address)
    ensures
        final(out)@ == old(out)@ + address_word(a@),
{
    let mut word = encode_address(a);
    out.append(&mut word);
}

/// Appends the word of a number to a call.
pub(crate) fn push_number(out: &mut Vec<u8>, n: &U256)
    ensures
        final(out)@ == old(out)@ + number_word(n@),
{
    let mut word = encode_number(n);
    out.append(&mut word);
}

/// The call that asks a factory for the pool of two tokens.
pub fn get_pair_call(token_a: &Address, token_b: &Address) -> (r: Vec<u8>)
    ensures
        r@ == selector_bytes(GET_PAIR) + address_word(token_a@) + address_word(token_b@),
{
    let mut r = start_call(GET_PAIR);
    push_address(&mut r, token_a);
    push_address(&mut r, token_b);
    r
}

/// The call that asks a pool for its reserves.
pub fn get_reserves_call() -> (r: Vec<u8>)
    ensures
        r@ == selector_bytes(GET_RESERVES),
{
    start_call(GET_RESERVES)
}

/// The call that asks a contract for its owner.
pub fn owner_call() -> (r: Vec<u8>)
    ensures
        r@ == selector_bytes(OWNER),
{
    start_call(OWNER)
}

/// The call that asks a token for the balance of an account.
pub fn balance_of_call(account: &Address) -> (r: Vec<u8>)
    ensures
        r@ == selector_bytes(BALANCE_OF) + address_word(account@),
{
    let mut r = start_call(BALANCE_OF);
    push_address(&mut r, account);
    r
}

/// The call that makes a batch of calls.
pub fn aggregate3_call(list: &Vec<Call3>) -> (r: Vec<u8>)
    ensures
        r@ == selector_bytes(AGGREGATE3) + encoded_calls(calls(list@)),
{
    let mut r = start_call(AGGREGATE3);
    let mut rest = encode_calls(list);
    r.append(&mut rest);
    r
}

/// The first word of a reply as a number; zero where the reply holds no whole
/// word.
pub open spec fn balance_in(data: Seq<u8>) -> nat {
    if data.len() >= 32 {
        big_endian_value(data.take(32))
    } else {
        0
    }
}

/// Reads the balance in a reply to `balanceOf(address)`.
pub fn balance_from_reply(output: &[u8]) -> (r: U256)
    ensures
        r@ == balance_in(output@),
{
    if output.len() < 32 {
        return U256::zero();
    }
    assert(output@.subrange(0, 32) =~= output@.take(32));
    U256::from_be_slice(slice_subrange(output, 0, 32))
}

/// An address that was written is read back.
pub proof fn written_address_is_read_back(a: Address)
    ensures
        address_in(address_word(a@)) == Some(a@),
{
    assert(address_word(a@).subrange(12, 32) =~= a@);
}

/// A balance that was written is read back.
pub proof fn written_balance_is_read_back(n: U256)
    ensures
        balance_in(number_word(n@)) == n@,
{
    lemma_last_bytes(n@, 32, 32);
    lemma_byte_powers();
    lemma_below_modulus(n);
    lemma_bytes_spell_the_number(n@, 32);
    assert(number_word(n@).take(32) =~= number_word(n@));
}

/// Reserves that were written, each of them below two to the power of 112, are
/// read back, whatever the time that follows them.
pub proof fn written_reserves_are_read_back(reserve0: nat, reserve1: nat, time: nat)
    requires
        reserve0 < 0x1_0000_0000_0000_0000_0000_0000_0000,
        reserve1 < 0x1_0000_0000_0000_0000_0000_0000_0000,
    ensures
        reserves_in(number_word(reserve0) + number_word(reserve1) + number_word(time)) == Some(
            (reserve0, reserve1),
        ),
{
    let data = number_word(reserve0) + number_word(reserve1) + number_word(time);
    lemma_last_bytes(reserve0, 32, 14);
    lemma_last_bytes(reserve1, 32, 14);
    lemma_last_bytes(time, 32, 32);
    lemma_byte_powers();
    lemma_bytes_spell_the_number(reserve0, 14);
    lemma_bytes_spell_the_number(reserve1, 14);
    assert(data.subrange(18, 32) =~= number_word(reserve0).skip(18));
    assert(data.subrange(50, 64) =~= number_word(reserve1).skip(18));
}

/// Reserves that are read are below two to the power of 112.
pub proof fn read_reserves_are_small(data: Seq<u8>)
    ensures
        reserves_in(data) matches Some((reserve0, reserve1)) ==> reserve0
            < 0x1_0000_0000_0000_0000_0000_0000_0000 && reserve1
            < 0x1_0000_0000_0000_0000_0000_0000_0000,
{
    if data.len() >= 96 {
        lemma_spelled_number_fits(data.subrange(18, 32));
        lemma_spelled_number_fits(data.subrange(50, 64));
        lemma_byte_powers();
    }
}

/// The number of calls with a reply is at most that of the calls and that of the
/// replies, and one of the two.
pub proof fn answered_is_the_smaller_number(asked: nat, replied: nat)
    ensures
        answered(asked, replied) <= asked,
        answered(asked, replied) <= replied,
        answered(asked, replied) == asked || answered(asked, replied) == replied,
{
}

/// A balance is read from the first word of a reply, whatever follows it; a reply
/// without a whole word tells none.
pub proof fn balance_is_the_first_word(n: U256, tail: Seq<u8>)
    ensures
        balance_in(number_word(n@) + tail) == n@,
        tail.len() < 32 ==> balance_in(tail) == 0,
{
    written_balance_is_read_back(n);
    lemma_last_bytes(n@, 32, 32);
    assert((number_word(n@) + tail).take(32) =~= number_word(n@).take(32));
}

/// An address is read from the last twenty bytes of the first word of a reply, whatever
/// stands before them in the word and after it; a reply without a whole word names
/// none.
pub proof fn address_ends_the_first_word(a: Address, head: Seq<u8>, tail: Seq<u8>)
    requires
        head.len() == 12,
    ensures
        address_in(head + a@ + tail) == Some(a@),
        tail.len() < 32 ==> address_in(tail) is None,
{
    assert((head + a@ + tail).subrange(12, 32) =~= a@);
}

/// A call starts with its selector, most significant byte first, and the selector can
/// be read back, whatever follows it.
pub proof fn selector_is_read_back(selector: u32, tail: Seq<u8>)
    ensures
        selector_bytes(selector).len() == 4,
        selector_of(selector_bytes(selector) + tail) == selector,
{
    lemma_last_bytes(selector as nat, 4, 4);
    assert((selector_bytes(selector) + tail).take(4) =~= selector_bytes(selector));
    assert(pow(256, 4) == 0x1_0000_0000) by {
        reveal_with_fuel(pow, 5);
    }
    lemma_bytes_spell_the_number(selector as nat, 4);
}

/// A reply tells reserves exactly where it has three whole words, whatever follows
/// them.
pub proof fn three_words_tell_reserves(data: Seq<u8>, tail: Seq<u8>)
    ensures
        reserves_in(data) is Some <==> data.len() >= 96,
        data.len() >= 96 ==> reserves_in(data + tail) == reserves_in(data),
{
    if data.len() >= 96 {
        assert((data + tail).subrange(18, 32) =~= data.subrange(18, 32));
        assert((data + tail).subrange(50, 64) =~= data.subrange(50, 64));
    }
}

} // verus!
