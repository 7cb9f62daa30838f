//! 256-bit unsigned integers, the amounts of every token and of gas.
//!
//! A value is kept as four 64-bit limbs. The arithmetic itself is `ruint`'s
//! (the integer type behind `alloy::primitives::U256`); each operation used
//! here is a wrapper whose contract states its mathematical meaning.
use alloy::primitives::U256 as Wide;
use vstd::arithmetic::power::{lemma_pow_adds, pow};
use vstd::prelude::*;

use crate::text::{decimal, decimal_value, is_decimal, lemma_decimal_round_trip};

verus! {

/// One more than the largest value: two to the power of 256.
pub open spec fn modulus() -> nat {
    0x1_0000_0000_0000_0000_0000_0000_0000_0000_0000_0000_0000_0000_0000_0000_0000_0000nat
}

/// A 256-bit unsigned integer, least significant limb first.
#[derive(Clone, Copy, Debug, PartialEq, Eq, Structural)]
pub struct U256 {
    pub l0: u64,
    pub l1: u64,
    pub l2: u64,
    pub l3: u64,
}

impl View for U256 {
    type V = nat;

    closed spec fn view(&self) -> nat {
        (self.l0 + 0x1_0000_0000_0000_0000 * self.l1
            + 0x1_0000_0000_0000_0000_0000_0000_0000_0000 * self.l2
            + 0x1_0000_0000_0000_0000_0000_0000_0000_0000_0000_0000_0000_0000 * self.l3) as nat
    }
}

/// The values of an optional integer.
pub open spec fn amount(x: Option<U256>) -> Option<nat> {
    match x {
        Some(v) => Some(v@),
        None => None,
    }
}

/// `n` where it fits into 256 bits.
pub open spec fn fitting(n: nat) -> Option<nat> {
    if n < modulus() {
        Some(n)
    } else {
        None
    }
}

/// `n`, or the largest value where it does not fit into 256 bits.
pub open spec fn saturated(n: nat) -> nat {
    if n < modulus() {
        n
    } else {
        (modulus() - 1) as nat
    }
}

/// The bytes read as one number, most significant byte first.
pub open spec fn big_endian_value(bytes: Seq<u8>) -> nat
    decreases bytes.len(),
{
    if bytes.len() == 0 {
        0
    } else {
        256 * big_endian_value(bytes.drop_last()) + bytes.last() as nat
    }
}

/// A number as `len` bytes, most significant byte first.
pub open spec fn big_endian(n: nat, len: nat) -> Seq<u8>
    decreases len,
{
    if len == 0 {
        Seq::empty()
    } else {
        big_endian(n / 256, (len - 1) as nat).push((n % 256) as u8)
    }
}

/// The value of a digit: `0` to `9`, then the letters of either case.
pub open spec fn digit_value(c: char) -> Option<nat> {
    if '0' <= c <= '9' {
        Some((c as int - 48) as nat)
    } else if 'a' <= c <= 'z' {
        Some((c as int - 87) as nat)
    } else if 'A' <= c <= 'Z' {
        Some((c as int - 55) as nat)
    } else {
        None
    }
}

/// The number that digits below the radix spell, underscores aside; nothing where
/// another character is among them.
pub open spec fn spelled_number(s: Seq<char>, radix: nat) -> Option<nat>
    decreases s.len(),
{
    if s.len() == 0 {
        Some(0)
    } else if s.last() == '_' {
        spelled_number(s.drop_last(), radix)
    } else {
        match (spelled_number(s.drop_last(), radix), digit_value(s.last())) {
            (Some(n), Some(d)) => if d < radix {
                Some(n * radix + d)
            } else {
                None
            },
            _ => None,
        }
    }
}

/// The radix that a text starts with: sixteen after `0x`, eight after `0o`, two
/// after `0b`, of either case; nothing where it starts with none of them.
pub open spec fn prefixed_radix(s: Seq<char>) -> Option<nat> {
    if s.len() < 2 || s[0] != '0' {
        None
    } else if s[1] == 'x' || s[1] == 'X' {
        Some(16)
    } else if s[1] == 'o' || s[1] == 'O' {
        Some(8)
    } else if s[1] == 'b' || s[1] == 'B' {
        Some(2)
    } else {
        None
    }
}

/// The number that a text stands for, in the radix of its prefix or else in
/// decimal, where it takes no more than 256 bits.
pub open spec fn number_in(s: Seq<char>) -> Option<nat> {
    let spelled = match prefixed_radix(s) {
        Some(radix) => spelled_number(s.skip(2), radix),
        None => spelled_number(s, 10),
    };
    match spelled {
        Some(n) => fitting(n),
        None => None,
    }
}

/// Decimal digits alone stand for the number that they spell.
pub proof fn lemma_decimal_number(s: Seq<char>)
    requires
        is_decimal(s),
    ensures
        number_in(s) == fitting(decimal_value(s)),
{
    lemma_decimal_digits(s);
    if s.len() >= 2 {
        assert('0' <= s[1] <= '9');
    }
}

proof fn lemma_decimal_digits(s: Seq<char>)
    requires
        forall|i: int| 0 <= i < s.len() ==> '0' <= #[trigger] s[i] <= '9',
    ensures
        spelled_number(s, 10) == Some(decimal_value(s)),
    decreases s.len(),
{
    if s.len() > 0 {
        assert('0' <= s[s.len() - 1] <= '9');
        lemma_decimal_digits(s.drop_last());
    }
}

/// Every value is below two to the power of 256.
pub broadcast proof fn lemma_below_modulus(x: U256)
    ensures
        #[trigger] x@ < modulus(),
{
}

/// Two integers of the same value are the same integer.
pub proof fn same_value_is_same_integer(a: U256, b: U256)
    ensures
        a@ == b@ <==> a == b,
{
    if a.l3 != b.l3 {
    } else if a.l2 != b.l2 {
    } else if a.l1 != b.l1 {
    }
}

impl U256 {
    /// The number zero.
    pub fn zero() -> (r: U256)
        ensures
            r@ == 0,
    {
        U256 { l0: 0, l1: 0, l2: 0, l3: 0 }
    }

    /// A 64-bit number.
    pub fn from_u64(n: u64) -> (r: U256)
        ensures
            r@ == n,
    {
        U256 { l0: n, l1: 0, l2: 0, l3: 0 }
    }

    /// Whether the value is zero.
    pub fn is_zero(&self) -> (r: bool)
        ensures
            r == (self@ == 0),
    {
        self.l0 == 0 && self.l1 == 0 && self.l2 == 0 && self.l3 == 0
    }

    /// Whether this value is less than the other one.
    pub fn less_than(&self, other: &U256) -> (r: bool)
        ensures
            r == (self@ < other@),
    {
        if self.l3 != other.l3 {
            self.l3 < other.l3
        } else if self.l2 != other.l2 {
            self.l2 < other.l2
        } else if self.l1 != other.l1 {
            self.l1 < other.l1
        } else {
            self.l0 < other.l0
        }
    }

    /// Calls `ruint::Uint::checked_add`: the sum, or nothing where it takes
    /// more than 256 bits.
    #[verifier::external_body]
    pub(crate) fn checked_add(self, rhs: U256) -> (r: Option<U256>)
        ensures
            amount(r) == fitting(self@ + rhs@),
    {
        let a = Wide::from_limbs([self.l0, self.l1, self.l2, self.l3]);
        let b = Wide::from_limbs([rhs.l0, rhs.l1, rhs.l2, rhs.l3]);
        let [l0, l1, l2, l3] = a.checked_add(b)?.into_limbs();
        Some(U256 { l0, l1, l2, l3 })
    }

    /// Calls `ruint::Uint::checked_sub`: the difference, or nothing where it
    /// is negative.
    #[verifier::external_body]
    pub(crate) fn checked_sub(self, rhs: U256) -> (r: Option<U256>)
        ensures
            amount(r) == (if rhs@ <= self@ {
                Some((self@ - rhs@) as nat)
            } else {
                None
            }),
    {
        let a = Wide::from_limbs([self.l0, self.l1, self.l2, self.l3]);
        let b = Wide::from_limbs([rhs.l0, rhs.l1, rhs.l2, rhs.l3]);
        let [l0, l1, l2, l3] = a.checked_sub(b)?.into_limbs();
        Some(U256 { l0, l1, l2, l3 })
    }

    /// Calls `ruint::Uint::checked_mul`: the product, or nothing where it
    /// takes more than 256 bits.
    #[verifier::external_body]
    pub(crate) fn checked_mul(self, rhs: U256) -> (r: Option<U256>)
        ensures
            amount(r) == fitting(self@ * rhs@),
    {
        let a = Wide::from_limbs([self.l0, self.l1, self.l2, self.l3]);
        let b = Wide::from_limbs([rhs.l0, rhs.l1, rhs.l2, rhs.l3]);
        let [l0, l1, l2, l3] = a.checked_mul(b)?.into_limbs();
        Some(U256 { l0, l1, l2, l3 })
    }

    /// Calls `ruint::Uint::checked_div`: the quotient, rounded down, or
    /// nothing where the divisor is zero.
    #[verifier::external_body]
    pub(crate) fn checked_div(self, rhs: U256) -> (r: Option<U256>)
        ensures
            amount(r) == (if rhs@ > 0 {
                Some(self@ / rhs@)
            } else {
                None
            }),
    {
        let a = Wide::from_limbs([self.l0, self.l1, self.l2, self.l3]);
        let b = Wide::from_limbs([rhs.l0, rhs.l1, rhs.l2, rhs.l3]);
        let [l0, l1, l2, l3] = a.checked_div(b)?.into_limbs();
        Some(U256 { l0, l1, l2, l3 })
    }

    /// Calls `ruint::Uint::saturating_add`: the sum, or the largest value
    /// where it takes more than 256 bits.
    #[verifier::external_body]
    pub(crate) fn saturating_add(self, rhs: U256) -> (r: U256)
        ensures
            r@ == saturated(self@ + rhs@),
    {
        let a = Wide::from_limbs([self.l0, self.l1, self.l2, self.l3]);
        let b = Wide::from_limbs([rhs.l0, rhs.l1, rhs.l2, rhs.l3]);
        let [l0, l1, l2, l3] = a.saturating_add(b).into_limbs();
        U256 { l0, l1, l2, l3 }
    }

    /// Calls `ruint::Uint::saturating_sub`: the difference, or zero where it
    /// is negative.
    #[verifier::external_body]
    pub(crate) fn saturating_sub(self, rhs: U256) -> (r: U256)
        ensures
            r@ == (if rhs@ <= self@ {
                (self@ - rhs@) as nat
            } else {
                0
            }),
    {
        let a = Wide::from_limbs([self.l0, self.l1, self.l2, self.l3]);
        let b = Wide::from_limbs([rhs.l0, rhs.l1, rhs.l2, rhs.l3]);
        let [l0, l1, l2, l3] = a.saturating_sub(b).into_limbs();
        U256 { l0, l1, l2, l3 }
    }

    /// Calls `ruint::Uint::saturating_mul`: the product, or the largest value
    /// where it takes more than 256 bits.
    #[verifier::external_body]
    pub(crate) fn saturating_mul(self, rhs: U256) -> (r: U256)
        ensures
            r@ == saturated(self@ * rhs@),
    {
        let a = Wide::from_limbs([self.l0, self.l1, self.l2, self.l3]);
        let b = Wide::from_limbs([rhs.l0, rhs.l1, rhs.l2, rhs.l3]);
        let [l0, l1, l2, l3] = a.saturating_mul(b).into_limbs();
        U256 { l0, l1, l2, l3 }
    }

    /// Calls `ruint::Uint::wrapping_add`: the sum modulo two to the power of
    /// 256, which is what `+` computes on these integers.
    #[verifier::external_body]
    pub(crate) fn wrapping_add(self, rhs: U256) -> (r: U256)
        ensures
            r@ == (self@ + rhs@) % modulus(),
    {
        let a = Wide::from_limbs([self.l0, self.l1, self.l2, self.l3]);
        let b = Wide::from_limbs([rhs.l0, rhs.l1, rhs.l2, rhs.l3]);
        let [l0, l1, l2, l3] = a.wrapping_add(b).into_limbs();
        U256 { l0, l1, l2, l3 }
    }

    /// Calls `ruint::Uint::abs_diff`: the distance between two values.
    #[verifier::external_body]
    pub(crate) fn abs_diff(self, rhs: U256) -> (r: U256)
        ensures
            r@ == (if rhs@ <= self@ {
                (self@ - rhs@) as nat
            } else {
                (rhs@ - self@) as nat
            }),
    {
        let a = Wide::from_limbs([self.l0, self.l1, self.l2, self.l3]);
        let b = Wide::from_limbs([rhs.l0, rhs.l1, rhs.l2, rhs.l3]);
        let [l0, l1, l2, l3] = a.abs_diff(b).into_limbs();
        U256 { l0, l1, l2, l3 }
    }

    /// The quotient by a divisor above zero, rounded down.
    pub fn quotient(self, divisor: U256) -> (r: U256)
        requires
            divisor@ > 0,
        ensures
            r@ == self@ / divisor@,
    {
        match self.checked_div(divisor) {
            Some(q) => q,
            None => self,
        }
    }

    /// The value as a 128-bit number.
    pub fn to_u128(&self) -> (r: u128)
        requires
            self@ <= u128::MAX,
        ensures
            r == self@,
    {
        (self.l0 as u128) + (self.l1 as u128) * 0x1_0000_0000_0000_0000
    }

    /// Calls `ruint::Uint::from_be_slice`: the bytes read as one number, most
    /// significant byte first. It panics on more than 32 bytes.
    #[verifier::external_body]
    pub(crate) fn from_be_slice(bytes: &[u8]) -> (r: U256)
        requires
            bytes@.len() <= 32,
        ensures
            r@ == big_endian_value(bytes@),
    {
        let [l0, l1, l2, l3] = Wide::from_be_slice(bytes).into_limbs();
        U256 { l0, l1, l2, l3 }
    }

    /// Calls `to_string` on `ruint::Uint`: the number in decimal, without
    /// leading zeros.
    #[verifier::external_body]
    pub(crate) fn to_text(&self) -> (r: String)
        ensures
            r@ == decimal(self@),
    {
        Wide::from_limbs([self.l0, self.l1, self.l2, self.l3]).to_string()
    }

    /// Calls `ruint::Uint::from_str`: the number that the digits of a text spell,
    /// underscores between them aside, in the radix of its prefix or else in
    /// decimal; nothing where another character is among them or where the number
    /// takes more than 256 bits.
    #[verifier::external_body]
    fn read(s: &str) -> (r: Option<U256>)
        ensures
            amount(r) == number_in(s@),
    {
        let [l0, l1, l2, l3] = s.parse::<Wide>().ok()?.into_limbs();
        Some(U256 { l0, l1, l2, l3 })
    }

    /// Reads a number.
    pub fn from_text(s: &str) -> (r: Option<U256>)
        ensures
            amount(r) == number_in(s@),
    {
        U256::read(s)
    }

    /// A 128-bit number.
    pub fn from_u128(n: u128) -> (r: U256)
        ensures
            r@ == n,
    {
        let low: u64 = (n % 0x1_0000_0000_0000_0000) as u64;
        let high: u64 = (n / 0x1_0000_0000_0000_0000) as u64;
        U256 { l0: low, l1: high, l2: 0, l3: 0 }
    }
}

/// The last bytes of a number do not depend on how many come before them.
pub proof fn lemma_last_bytes(n: nat, len: nat, last: nat)
    requires
        last <= len,
    ensures
        big_endian(n, len).len() == len,
        big_endian(n, len).skip(len - last) == big_endian(n, last),
    decreases len,
{
    if len > 0 {
        let rest = big_endian(n / 256, (len - 1) as nat);
        if last > 0 {
            lemma_last_bytes(n / 256, (len - 1) as nat, (last - 1) as nat);
            assert(big_endian(n, len).skip(len - last) =~= rest.skip(len - last).push(
                (n % 256) as u8,
            ));
        } else {
            lemma_last_bytes(n / 256, (len - 1) as nat, 0);
            assert(big_endian(n, len).skip(len as int) =~= Seq::empty());
        }
    } else {
        assert(Seq::<u8>::empty().skip(0) =~= Seq::empty());
    }
}

/// The bytes of a number that fits into them spell that number.
pub proof fn lemma_bytes_spell_the_number(n: nat, len: nat)
    requires
        n < pow(256, len),
    ensures
        big_endian_value(big_endian(n, len)) == n,
    decreases len,
{
    reveal(pow);
    if len > 0 {
        let bytes = big_endian(n, len);
        let fewer = (len - 1) as nat;
        assert(n / 256 < pow(256, fewer)) by (nonlinear_arith)
            requires
                n < 256 * pow(256, fewer),
        ;
        lemma_bytes_spell_the_number(n / 256, fewer);
        assert(bytes.drop_last() =~= big_endian(n / 256, fewer));
    }
}

/// The number that some bytes spell fits into as many bytes.
pub proof fn lemma_spelled_number_fits(bytes: Seq<u8>)
    ensures
        big_endian_value(bytes) < pow(256, bytes.len()),
    decreases bytes.len(),
{
    reveal(pow);
    if bytes.len() > 0 {
        lemma_spelled_number_fits(bytes.drop_last());
    }
}

/// Fourteen bytes hold numbers below two to the power of 112, and thirty-two bytes
/// those of 256 bits.
pub proof fn lemma_byte_powers()
    ensures
        pow(256, 14) == 0x1_0000_0000_0000_0000_0000_0000_0000,
        pow(256, 32) == modulus(),
{
    assert(pow(256, 2) == 0x1_0000) by {
        reveal_with_fuel(pow, 3);
    }
    assert(pow(256, 4) == 0x1_0000_0000) by {
        lemma_pow_adds(256, 2, 2);
    }
    assert(pow(256, 8) == 0x1_0000_0000_0000_0000) by {
        lemma_pow_adds(256, 4, 4);
    }
    assert(pow(256, 12) == 0x1_0000_0000_0000_0000_0000_0000) by {
        lemma_pow_adds(256, 8, 4);
    }
    assert(pow(256, 14) == 0x1_0000_0000_0000_0000_0000_0000_0000) by {
        lemma_pow_adds(256, 12, 2);
    }
    assert(pow(256, 16) == 0x1_0000_0000_0000_0000_0000_0000_0000_0000) by {
        lemma_pow_adds(256, 8, 8);
    }
    lemma_pow_adds(256, 16, 16);
}

/// What is written of a number is read as that number again.
pub proof fn written_number_is_read_back(n: U256)
    ensures
        number_in(decimal(n@)) == Some(n@),
{
    lemma_decimal_round_trip(n@);
    lemma_decimal_number(decimal(n@));
    lemma_below_modulus(n);
}

/// The bound of the values is two to the power of 256.
pub proof fn bound_is_a_power_of_two()
    ensures
        modulus() == pow(2, 256),
{
    assert(pow(2, 8) == 256) by {
        reveal_with_fuel(pow, 9);
    }
    assert(pow(2, 16) == 0x1_0000) by {
        lemma_pow_adds(2, 8, 8);
    }
    assert(pow(2, 32) == 0x1_0000_0000) by {
        lemma_pow_adds(2, 16, 16);
    }
    assert(pow(2, 64) == 0x1_0000_0000_0000_0000) by {
        lemma_pow_adds(2, 32, 32);
    }
    assert(pow(2, 128) == 0x1_0000_0000_0000_0000_0000_0000_0000_0000) by {
        lemma_pow_adds(2, 64, 64);
    }
    lemma_pow_adds(2, 128, 128);
}

/// A number fits exactly where a value of it exists; one that does not is held at the
/// largest value, and no value lies closer to it.
pub proof fn values_are_held_at_the_largest(n: nat, x: U256)
    ensures
        fitting(x@) == Some(x@),
        saturated(x@) == x@,
        fitting(n) is None ==> n > x@,
        fitting(n) matches Some(m) ==> m == n && n < pow(2, 256),
        saturated(n) <= n,
        x@ <= n ==> x@ <= saturated(n),
        saturated(n) < pow(2, 256),
{
    bound_is_a_power_of_two();
    lemma_below_modulus(x);
}

/// The number that bytes spell is that of the first ones, moved up by a byte for each
/// of the last ones, and that of the last ones; a single byte spells itself.
pub proof fn bytes_spell_place_by_place(first: Seq<u8>, last: Seq<u8>, byte: u8)
    ensures
        big_endian_value(first + last) == big_endian_value(first) * pow(256, last.len())
            + big_endian_value(last),
        big_endian_value(seq![byte]) == byte,
    decreases last.len(),
{
    reveal(pow);
    reveal_with_fuel(big_endian_value, 2);
    assert(seq![byte].drop_last() =~= Seq::empty());
    if last.len() == 0 {
        assert(first + last =~= first);
        assert(pow(256, 0) == 1);
        assert(big_endian_value(first) * 1 == big_endian_value(first));
    } else {
        let rest = last.drop_last();
        bytes_spell_place_by_place(first, rest, byte);
        assert((first + last).drop_last() =~= first + rest);
        assert((first + last).last() == last.last());
        let (a, p) = (big_endian_value(first) as int, pow(256, rest.len()));
        assert(pow(256, last.len()) == 256 * p);
        assert(256 * (a * p) == a * (256 * p)) by (nonlinear_arith);
    }
}

} // verus!
