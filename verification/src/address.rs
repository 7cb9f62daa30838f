//! Account addresses and transaction hashes.
use alloy::primitives::{Address as ChainAddress, B256};
use vstd::arithmetic::power::pow;
use vstd::prelude::*;

use crate::table::Key;
use crate::text::{digit, hex_bytes};
use crate::u256::{big_endian_value, bytes_spell_place_by_place, lemma_spelled_number_fits};

verus! {

/// The address of an account: twenty bytes.
#[derive(Clone, Copy, Debug)]
pub struct Address {
    pub bytes: [u8; 20],
}

impl View for Address {
    type V = Seq<u8>;

    open spec fn view(&self) -> Seq<u8> {
        self.bytes@
    }
}

/// The hash of a transaction: thirty-two bytes.
#[derive(Clone, Copy, Debug)]
pub struct TxHash {
    pub bytes: [u8; 32],
}

impl View for TxHash {
    type V = Seq<u8>;

    open spec fn view(&self) -> Seq<u8> {
        self.bytes@
    }
}

/// The bytes of each address of a list.
pub open spec fn addresses(list: Seq<Address>) -> Seq<Seq<u8>> {
    list.map_values(|a: Address| a@)
}

/// Whether `a` comes before `b` where bytes are compared from the first one on.
pub open spec fn precedes(a: Seq<u8>, b: Seq<u8>) -> bool {
    exists|i: int|
        0 <= i < a.len() && i < b.len() && #[trigger] a[i] < b[i] && a.take(i) == b.take(i)
}

/// The value of a hexadecimal digit of either case.
pub open spec fn hex_value(c: char) -> Option<nat> {
    if '0' <= c <= '9' {
        Some((c as int - 48) as nat)
    } else if 'a' <= c <= 'f' {
        Some((c as int - 87) as nat)
    } else if 'A' <= c <= 'F' {
        Some((c as int - 55) as nat)
    } else {
        None
    }
}

/// The text without a leading `0x` or `0X`.
pub open spec fn without_prefix(s: Seq<char>) -> Seq<char> {
    if s.len() >= 2 && s[0] == '0' && (s[1] == 'x' || s[1] == 'X') {
        s.skip(2)
    } else {
        s
    }
}

/// The address that a text spells: forty hexadecimal digits of either case,
/// with or without `0x` or `0X` before them.
pub open spec fn spelled_address(s: Seq<char>) -> Option<Seq<u8>> {
    let digits = without_prefix(s);
    if digits.len() == 40 && (forall|i: int|
        0 <= i < 40 ==> hex_value(#[trigger] digits[i]) is Some) {
        Some(
            Seq::new(
                20,
                |i: int|
                    (16 * hex_value(digits[2 * i])->0 + hex_value(digits[2 * i + 1])->0) as u8,
            ),
        )
    } else {
        None
    }
}

/// The bytes of an optional address.
pub open spec fn address_bytes(a: Option<Address>) -> Option<Seq<u8>> {
    match a {
        Some(a) => Some(a@),
        None => None,
    }
}

/// The order of addresses is total: one of two different ones comes first.
pub proof fn lemma_one_precedes(a: Seq<u8>, b: Seq<u8>)
    requires
        a.len() == b.len(),
    ensures
        a != b ==> precedes(a, b) || precedes(b, a),
    decreases a.len(),
{
    if a.len() == 0 {
        assert(a =~= b);
    } else if a != b {
        let x = a.drop_last();
        let y = b.drop_last();
        if x != y {
            lemma_one_precedes(x, y);
            let (p, q) = if precedes(x, y) {
                (x, y)
            } else {
                (y, x)
            };
            let i = choose|i: int|
                0 <= i < p.len() && i < q.len() && #[trigger] p[i] < q[i] && p.take(i) == q.take(i);
            assert(p.take(i) == q.take(i));
            assert(x.take(i) =~= a.take(i));
            assert(y.take(i) =~= b.take(i));
            if precedes(x, y) {
                assert(a[i] < b[i]);
            } else {
                assert(b[i] < a[i]);
            }
        } else {
            let i = a.len() - 1;
            assert(a.take(i) =~= x);
            assert(b.take(i) =~= y);
            if a[i] == b[i] {
                assert(a =~= x.push(a[i]));
                assert(b =~= y.push(b[i]));
            }
            assert(a[i] < b[i] || b[i] < a[i]);
        }
    }
}

/// The order of addresses is strict: two never come before each other.
pub proof fn lemma_precedes_one_way(a: Seq<u8>, b: Seq<u8>)
    requires
        precedes(a, b),
    ensures
        !precedes(b, a),
        a != b,
{
    let i = choose|i: int|
        0 <= i < a.len() && i < b.len() && #[trigger] a[i] < b[i] && a.take(i) == b.take(i);
    if precedes(b, a) {
        let j = choose|j: int|
            0 <= j < b.len() && j < a.len() && #[trigger] b[j] < a[j] && b.take(j) == a.take(j);
        if i < j {
            assert(b.take(j)[i] == a.take(j)[i]);
        } else if j < i {
            assert(b.take(i)[j] == a.take(i)[j]);
        }
    }
}

fn same_bytes(a: &[u8], b: &[u8]) -> (r: bool)
    requires
        a@.len() == b@.len(),
    ensures
        r == (a@ == b@),
{
    let mut i: usize = 0;
    while i < a.len()
        invariant
            a@.len() == b@.len(),
            i <= a@.len(),
            forall|k: int| 0 <= k < i ==> a@[k] == b@[k],
        decreases a@.len() - i,
    {
        if a[i] != b[i] {
            return false;
        }
        i = i + 1;
    }
    assert(a@ =~= b@);
    true
}

impl Address {
    /// The address whose bytes are all zero.
    pub fn zero() -> (r: Address)
        ensures
            r@ == Seq::new(20, |i: int| 0u8),
    {
        let r = Address { bytes: [0u8; 20] };
        assert(r@ =~= Seq::new(20, |i: int| 0u8));
        r
    }

    /// Whether this address comes before the other one.
    pub fn less_than(&self, other: &Address) -> (r: bool)
        ensures
            r == precedes(self@, other@),
    {
        let mut i: usize = 0;
        while i < 20
            invariant
                i <= 20,
                forall|k: int| 0 <= k < i ==> self@[k] == other@[k],
            decreases 20 - i,
        {
            if self.bytes[i] != other.bytes[i] {
                assert(self@.take(i as int) =~= other@.take(i as int));
                if self.bytes[i] < other.bytes[i] {
                    assert(self@[i as int] < other@[i as int]);
                    return true;
                }
                assert(other@[i as int] < self@[i as int]);
                assert(precedes(other@, self@));
                proof {
                    lemma_precedes_one_way(other@, self@);
                }
                return false;
            }
            i = i + 1;
        }
        false
    }

    /// Calls `alloy::primitives::Address::from_str`: the address of forty
    /// hexadecimal digits, with or without `0x` or `0X`; nothing for any other
    /// text.
    #[verifier::external_body]
    pub(crate) fn from_text(s: &str) -> (r: Option<Address>)
        ensures
            address_bytes(r) == spelled_address(s@),
    {
        Some(Address { bytes: s.parse::<ChainAddress>().ok()?.into_array() })
    }
}

impl Key for Address {
    fn same(&self, other: &Address) -> (r: bool) {
        same_bytes(&self.bytes, &other.bytes)
    }
}

impl Key for TxHash {
    fn same(&self, other: &TxHash) -> (r: bool) {
        same_bytes(&self.bytes, &other.bytes)
    }
}

impl TxHash {
    /// Calls `to_string` on `alloy::primitives::B256`: `0x` and the bytes in
    /// lower-case hexadecimal.
    #[verifier::external_body]
    pub(crate) fn to_text(&self) -> (r: String)
        ensures
            r@ == seq!['0', 'x'] + hex_bytes(self@),
    {
        B256::new(self.bytes).to_string()
    }
}

/// The unordered pair of two tokens, the smaller address first.
#[derive(Clone, Copy, Debug)]
pub struct TokenPair {
    pub first: Address,
    pub second: Address,
}

impl View for TokenPair {
    type V = (Seq<u8>, Seq<u8>);

    open spec fn view(&self) -> (Seq<u8>, Seq<u8>) {
        (self.first@, self.second@)
    }
}

impl Key for TokenPair {
    fn same(&self, other: &TokenPair) -> (r: bool) {
        self.first.same(&other.first) && self.second.same(&other.second)
    }
}

/// Two addresses with the smaller one first.
pub open spec fn in_order(a: Seq<u8>, b: Seq<u8>) -> (Seq<u8>, Seq<u8>) {
    if precedes(a, b) {
        (a, b)
    } else {
        (b, a)
    }
}

/// Two tokens with the smaller address first.
pub fn sorted_pair(a: Address, b: Address) -> (r: TokenPair)
    ensures
        r@ == in_order(a@, b@),
{
    if a.less_than(&b) {
        TokenPair { first: a, second: b }
    } else {
        TokenPair { first: b, second: a }
    }
}

/// The pair of two tokens does not depend on which of them is named first.
pub proof fn pair_ignores_order(a: Address, b: Address)
    ensures
        in_order(a@, b@) == in_order(b@, a@),
{
    lemma_one_precedes(a@, b@);
    if precedes(a@, b@) {
        lemma_precedes_one_way(a@, b@);
    }
}

/// The order of addresses is that of the numbers that their bytes spell.
pub proof fn addresses_are_ordered_as_numbers(a: Seq<u8>, b: Seq<u8>)
    requires
        a.len() == b.len(),
    ensures
        precedes(a, b) <==> big_endian_value(a) < big_endian_value(b),
{
    if precedes(a, b) {
        lemma_smaller_number(a, b);
    } else if a == b {
    } else {
        lemma_one_precedes(a, b);
        lemma_smaller_number(b, a);
    }
}

proof fn lemma_smaller_number(a: Seq<u8>, b: Seq<u8>)
    requires
        a.len() == b.len(),
        precedes(a, b),
    ensures
        big_endian_value(a) < big_endian_value(b),
{
    let i = choose|i: int|
        0 <= i < a.len() && i < b.len() && #[trigger] a[i] < b[i] && a.take(i) == b.take(i);
    let (x, y) = (a.skip(i + 1), b.skip(i + 1));
    bytes_spell_place_by_place(a.take(i), seq![a[i]], a[i]);
    bytes_spell_place_by_place(b.take(i), seq![b[i]], b[i]);
    let (s, t) = (a.take(i) + seq![a[i]], b.take(i) + seq![b[i]]);
    bytes_spell_place_by_place(s, x, 0);
    bytes_spell_place_by_place(t, y, 0);
    assert(a =~= s + x);
    assert(b =~= t + y);
    lemma_spelled_number_fits(x);
    let p = pow(256, x.len());
    let (m, n) = (big_endian_value(s) as int, big_endian_value(t) as int);
    assert(m < n);
    assert((m + 1) * p <= n * p) by (nonlinear_arith)
        requires
            m + 1 <= n,
            p >= 0,
    ;
    assert((m + 1) * p == m * p + p) by (nonlinear_arith);
}

/// A pair of tokens holds both of them, the one with the smaller number first.
pub proof fn pair_holds_both_tokens(a: Seq<u8>, b: Seq<u8>)
    requires
        a.len() == b.len(),
    ensures
        in_order(a, b) == (a, b) || in_order(a, b) == (b, a),
        big_endian_value(in_order(a, b).0) <= big_endian_value(in_order(a, b).1),
{
    addresses_are_ordered_as_numbers(a, b);
}

/// An address that is written in hexadecimal is spelled by that text, with `0x` before
/// it or without.
pub proof fn written_address_is_spelled(a: Address)
    ensures
        spelled_address(hex_bytes(a@)) == Some(a@),
        spelled_address(seq!['0', 'x'] + hex_bytes(a@)) == Some(a@),
{
    let digits = hex_bytes(a@);
    assert((seq!['0', 'x'] + digits).skip(2) =~= digits);
    assert forall|i: int| 0 <= i < 40 implies hex_value(#[trigger] digits[i]) is Some by {
        lemma_digit_value(a@[i / 2]);
    }
    assert(digits[1] != 'x' && digits[1] != 'X') by {
        lemma_digit_value(a@[0]);
    }
    assert forall|i: int| 0 <= i < 20 implies spelled_address(digits)->0[i] == a@[i] by {
        lemma_digit_value(a@[i]);
        assert(digits[2 * i] == digit(a@[i] as nat / 16));
        assert(digits[2 * i + 1] == digit(a@[i] as nat % 16));
    }
    assert(spelled_address(digits)->0 =~= a@);
}

proof fn lemma_digit_value(byte: u8)
    ensures
        hex_value(digit(byte as nat / 16)) == Some(byte as nat / 16),
        hex_value(digit(byte as nat % 16)) == Some(byte as nat % 16),
{
}

/// A text spells an address only where it is forty hexadecimal digits, after `0x`,
/// `0X` or nothing.
pub proof fn only_forty_digits_are_an_address(s: Seq<char>)
    ensures
        spelled_address(s) is Some ==> {
            ||| s.len() == 40
            ||| s.len() == 42 && s[0] == '0' && (s[1] == 'x' || s[1] == 'X')
        },
        spelled_address(s) matches Some(a) ==> a.len() == 20 && forall|k: int|
            s.len() - 40 <= k < s.len() ==> {
                let c = #[trigger] s[k] as int;
                48 <= c <= 57 || 65 <= c <= 70 || 97 <= c <= 102
            },
{
    if spelled_address(s) is Some {
        let digits = without_prefix(s);
        assert forall|k: int| s.len() - 40 <= k < s.len() implies {
            let c = #[trigger] s[k] as int;
            48 <= c <= 57 || 65 <= c <= 70 || 97 <= c <= 102
        } by {
            assert(digits[k - (s.len() - 40)] == s[k]);
            assert(hex_value(digits[k - (s.len() - 40)]) is Some);
        }
    }
}

} // verus!
