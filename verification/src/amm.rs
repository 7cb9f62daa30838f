//! Constant-product exchange arithmetic.
//!
//! A pool holds two reserves. A trade pays into the one and takes from the
//! other; the part of the payment that counts is `gamma` ten-thousandths of it,
//! the rest is the fee.
use vstd::prelude::*;

use crate::u256::{amount, lemma_below_modulus, modulus, U256};

verus! {

/// What a trade pays out: `in * gamma * reserve_out / (reserve_in * 10000 + in * gamma)`,
/// rounded down. There is none where a reserve is empty or a term of the
/// fraction takes more than 256 bits.
pub open spec fn amount_out(
    amount_in: nat,
    reserve_in: nat,
    reserve_out: nat,
    gamma: nat,
) -> Option<nat> {
    let with_fee = amount_in * gamma;
    let numerator = with_fee * reserve_out;
    let denominator = reserve_in * 10_000 + with_fee;
    if amount_in == 0 {
        Some(0)
    } else if reserve_in > 0 && reserve_out > 0 && numerator < modulus() && denominator
        < modulus() {
        Some(numerator / denominator)
    } else {
        None
    }
}

/// What a trade has to pay to take `amount_out`:
/// `reserve_in * out * 10000 / ((reserve_out - out) * gamma)`, rounded down, and
/// one more. There is none where the reserve does not exceed what is taken, where
/// `gamma` is zero, or where a term of the fraction takes more than 256 bits.
pub open spec fn amount_in(
    amount_out: nat,
    reserve_in: nat,
    reserve_out: nat,
    gamma: nat,
) -> Option<nat> {
    let numerator = reserve_in * amount_out * 10_000;
    let denominator = (reserve_out - amount_out) * gamma;
    if amount_out == 0 {
        Some(0)
    } else if amount_out < reserve_out && gamma > 0 && numerator < modulus() && denominator
        < modulus() {
        Some((numerator / (denominator as nat) + 1) as nat)
    } else {
        None
    }
}

/// The reserves after a trade that pays in `amount_in`: the one grows by the
/// payment, modulo two to the power of 256, the other shrinks by what is paid out.
pub open spec fn swap_effect(
    reserve_in: nat,
    reserve_out: nat,
    paid: nat,
    gamma: nat,
) -> Option<(nat, nat)> {
    match amount_out(paid, reserve_in, reserve_out, gamma) {
        Some(out) => Some(
            (
                (reserve_in + paid) % modulus(),
                (reserve_out - out) as nat,
            ),
        ),
        None => None,
    }
}

proof fn lemma_quotient_below(a: nat, b: nat, d: nat)
    requires
        d > 0,
        b > 0,
        a < d,
    ensures
        a * b / d < b,
{
    assert(a * b < d * b) by (nonlinear_arith)
        requires
            a < d,
            b > 0,
    ;
    vstd::arithmetic::div_mod::lemma_multiply_divide_lt((a * b) as int, d as int, b as int);
}

/// What a trade pays out never exhausts the reserve.
pub proof fn reserve_is_never_exhausted(paid: nat, reserve_in: nat, reserve_out: nat, gamma: nat)
    requires
        paid > 0,
    ensures
        amount_out(paid, reserve_in, reserve_out, gamma) matches Some(out) ==> out < reserve_out,
{
    let with_fee = paid * gamma;
    let d = reserve_in * 10_000 + with_fee;
    if reserve_in > 0 && reserve_out > 0 {
        lemma_quotient_below(with_fee, reserve_out, d);
    }
}

/// What a trade of `amount_in` pays out.
pub fn get_amount_out(
    amount_in: U256,
    reserve_in: U256,
    reserve_out: U256,
    gamma_num: U256,
) -> (r: Option<U256>)
    ensures
        amount(r) == amount_out(amount_in@, reserve_in@, reserve_out@, gamma_num@),
{
    if amount_in.is_zero() {
        return Some(U256::zero());
    }
    proof {
        let f = amount_in@ * gamma_num@;
        let o = reserve_out@;
        if o > 0 {
            assert(f <= f * o) by (nonlinear_arith)
                requires
                    o > 0,
            ;
        }
        if reserve_in@ == 0 && o > 0 && f > 0 {
            vstd::arithmetic::div_mod::lemma_div_multiples_vanish(o as int, f as int);
            assert(f * o / f == o);
        }
        reserve_is_never_exhausted(amount_in@, reserve_in@, o, gamma_num@);
    }
    let amount_in_with_fee = amount_in.checked_mul(gamma_num)?;
    let numerator = amount_in_with_fee.checked_mul(reserve_out)?;
    let scaled = reserve_in.checked_mul(U256::from_u64(10_000))?;
    let denominator = scaled.checked_add(amount_in_with_fee)?;
    let amount_out = numerator.checked_div(denominator)?;
    if !amount_out.less_than(&reserve_out) {
        return None;
    }
    Some(amount_out)
}

/// What a trade has to pay to take `amount_out`.
pub fn get_amount_in(
    amount_out: U256,
    reserve_in: U256,
    reserve_out: U256,
    gamma_num: U256,
) -> (r: Option<U256>)
    ensures
        amount(r) == amount_in(amount_out@, reserve_in@, reserve_out@, gamma_num@),
{
    broadcast use lemma_below_modulus;

    if amount_out.is_zero() {
        return Some(U256::zero());
    }
    if !amount_out.less_than(&reserve_out) {
        return None;
    }
    let ghost left = (reserve_out@ - amount_out@) as nat;
    proof {
        if gamma_num@ > 0 {
            assert(left * gamma_num@ > 0) by (nonlinear_arith)
                requires
                    left > 0,
                    gamma_num@ > 0,
            ;
        } else {
            assert(left * gamma_num@ == 0) by (nonlinear_arith)
                requires
                    gamma_num@ == 0,
            ;
        }
    }
    let numerator = reserve_in.checked_mul(amount_out)?.checked_mul(U256::from_u64(10_000))?;
    let denominator = reserve_out.checked_sub(amount_out)?.checked_mul(gamma_num)?;
    let quotient = numerator.checked_div(denominator)?;
    proof {
        // The numerator is a multiple of ten thousand, so it is not the largest value.
        let n = numerator@;
        let d = denominator@;
        assert(n / d <= n) by (nonlinear_arith)
            requires
                d > 0,
        ;
        assert(n % 2 == 0);
        assert(quotient@ + 1 < modulus()) by {
            assert((modulus() - 1) % 2 == 1);
        }
    }
    Some(quotient.saturating_add(U256::from_u64(1)))
}

/// The reserves of a pool after a trade that pays in `amount_in`.
pub fn apply_swap_effect(
    reserve_in: U256,
    reserve_out: U256,
    amount_in: U256,
    gamma_num: U256,
) -> (r: Option<(U256, U256)>)
    ensures
        match r {
            Some((a, b)) => swap_effect(reserve_in@, reserve_out@, amount_in@, gamma_num@) == Some(
                (a@, b@),
            ),
            None => swap_effect(reserve_in@, reserve_out@, amount_in@, gamma_num@) is None,
        },
{
    broadcast use lemma_below_modulus;

    if amount_in.is_zero() {
        return Some((reserve_in, reserve_out));
    }
    let amount_out = get_amount_out(amount_in, reserve_in, reserve_out, gamma_num)?;
    proof {
        reserve_is_never_exhausted(amount_in@, reserve_in@, reserve_out@, gamma_num@);
    }
    Some((reserve_in.wrapping_add(amount_in), reserve_out.saturating_sub(amount_out)))
}

/// One step of Newton's method stays at or above the square root.
proof fn lemma_newton_above(m: int, v: int)
    requires
        m >= 0,
        v > 0,
    ensures
        m < ((v + m / v) / 2 + 1) * ((v + m / v) / 2 + 1),
{
    let q = m / v;
    let y = (v + q) / 2;
    vstd::arithmetic::div_mod::lemma_fundamental_div_mod(m, v);
    assert(m < v * (q + 1)) by (nonlinear_arith)
        requires
            m == v * q + m % v,
            m % v < v,
    ;
    assert(2 * (y + 1) >= v + q + 1);
    assert(q >= 0) by (nonlinear_arith)
        requires
            q == m / v,
            m >= 0,
            v > 0,
    ;
    let s = v + q + 1;
    assert(s * s >= 4 * (v * (q + 1))) by (nonlinear_arith)
        requires
            s == v + q + 1,
    ;
    assert(4 * ((y + 1) * (y + 1)) >= s * s) by (nonlinear_arith)
        requires
            2 * (y + 1) >= s,
            s >= 0,
    ;
}

/// A number and the quotient by it do not exceed the whole and one more.
proof fn lemma_newton_sum(m: int, v: int)
    requires
        0 < v <= m,
    ensures
        1 <= m / v,
        v + m / v <= m + 1,
{
    let q = m / v;
    vstd::arithmetic::div_mod::lemma_fundamental_div_mod(m, v);
    assert(q >= 1) by (nonlinear_arith)
        requires
            q == m / v,
            0 < v <= m,
    ;
    assert(v + q <= v * q + 1) by (nonlinear_arith)
        requires
            v >= 1,
            q >= 1,
    ;
}

/// Where a step of Newton's method does not go down, the root is reached.
proof fn lemma_newton_stops(m: int, v: int)
    requires
        0 < v,
        m >= 0,
        v <= (v + m / v) / 2,
    ensures
        v * v <= m,
{
    let q = m / v;
    vstd::arithmetic::div_mod::lemma_fundamental_div_mod(m, v);
    assert(v <= q);
    assert(v * v <= v * q) by (nonlinear_arith)
        requires
            0 < v <= q,
    ;
}

/// The number half way between two numbers, rounded down. Their sum may take more
/// than 256 bits.
fn half_way(a: U256, b: U256) -> (r: U256)
    ensures
        r@ == (a@ + b@) / 2,
{
    broadcast use lemma_below_modulus;

    let two = U256::from_u64(2);
    if a.less_than(&b) {
        a.saturating_add(b.saturating_sub(a).quotient(two))
    } else {
        b.saturating_add(a.saturating_sub(b).quotient(two))
    }
}

/// The largest number whose square is at most `n`, by Newton's method.
pub fn isqrt_u256(n: U256) -> (r: U256)
    ensures
        r@ * r@ <= n@,
        n@ < (r@ + 1) * (r@ + 1),
{
    if n.is_zero() {
        assert((0 + 1) * (0 + 1) == 1int) by (nonlinear_arith);
        return U256::zero();
    }
    let one = U256::from_u64(1);
    let mut x = n;
    let mut y = half_way(x, one);
    proof {
        let m = n@ as int;
        assert(m < (m + 1) * (m + 1)) by (nonlinear_arith)
            requires
                m >= 0,
        ;
        lemma_newton_above(m, 1);
        assert(m / 1 == m);
        assert((1 + m) / 2 == y@);
        assert(m / m == 1) by (nonlinear_arith)
            requires
                m > 0,
        ;
    }
    while y.less_than(&x)
        invariant
            0 < n@,
            0 < x@ <= n@,
            0 < y@,
            n@ < (x@ + 1) * (x@ + 1),
            n@ < (y@ + 1) * (y@ + 1),
            y@ == (x@ + n@ / x@) / 2,
        decreases x@,
    {
        x = y;
        let q = n.quotient(x);
        proof {
            let m = n@ as int;
            let v = x@ as int;
            lemma_newton_above(m, v);
            assert(m / v <= m) by (nonlinear_arith)
                requires
                    v > 0,
                    m >= 0,
            ;
            lemma_newton_sum(m, v);
        }
        y = half_way(x, q);
    }
    proof {
        lemma_newton_stops(n@ as int, x@ as int);
    }
    x
}

/// The measure by which pools of the same tokens are compared: the second reserve
/// over the first one, times ten to the power of 18, rounded down. There is none
/// where the first reserve is empty or the scaled second one takes more than 256
/// bits.
pub open spec fn implied_price(reserve0: nat, reserve1: nat) -> Option<nat> {
    if reserve0 > 0 && reserve1 * 1_000_000_000_000_000_000 < modulus() {
        Some(reserve1 * 1_000_000_000_000_000_000 / reserve0)
    } else {
        None
    }
}

/// The price that the reserves of a pool imply, scaled by ten to the power of 18.
pub fn implied_price_1e18(reserve0: U256, reserve1: U256) -> (r: Option<U256>)
    ensures
        amount(r) == implied_price(reserve0@, reserve1@),
{
    if reserve0.is_zero() {
        return None;
    }
    reserve1.checked_mul(U256::from_u64(1_000_000_000_000_000_000))?.checked_div(reserve0)
}

/// A trade never lowers the product of the reserves. The one exception is a
/// payment that wraps its reserve around, which takes a fee of the whole
/// payment.
pub proof fn product_never_falls(reserve_in: U256, reserve_out: U256, paid: U256, gamma: U256)
    requires
        gamma@ <= 10_000,
        gamma@ > 0 || reserve_in@ + paid@ < modulus(),
    ensures
        swap_effect(reserve_in@, reserve_out@, paid@, gamma@) matches Some(after) ==> after.0
            * after.1 >= reserve_in@ * reserve_out@,
{
    broadcast use lemma_below_modulus;

    let ri = reserve_in@ as int;
    let ro = reserve_out@ as int;
    let p = paid@ as int;
    let g = gamma@ as int;
    if p > 0 {
        if let Some(q) = amount_out(paid@, reserve_in@, reserve_out@, gamma@) {
            let out = q as int;
            let f = p * g;
            let d = ri * 10_000 + f;
            reserve_is_never_exhausted(paid@, reserve_in@, reserve_out@, gamma@);
            if g > 0 {
                assert(p <= f) by (nonlinear_arith)
                    requires
                        f == p * g,
                        g > 0,
                        p > 0,
                ;
                vstd::arithmetic::div_mod::lemma_fundamental_div_mod(f * ro, d);
                assert(out * d <= f * ro) by (nonlinear_arith)
                    requires
                        f * ro == d * out + (f * ro) % d,
                        (f * ro) % d >= 0,
                ;
                assert(out * (ri + p) * g <= p * ro * g) by (nonlinear_arith)
                    requires
                        out * d <= f * ro,
                        d == ri * 10_000 + f,
                        f == p * g,
                        0 < g <= 10_000,
                        out >= 0,
                        ri >= 0,
                ;
                assert(out * (ri + p) <= p * ro) by (nonlinear_arith)
                    requires
                        out * (ri + p) * g <= p * ro * g,
                        g > 0,
                ;
            } else {
                assert(f == 0) by (nonlinear_arith)
                    requires
                        f == p * g,
                        g == 0,
                ;
                assert(f * ro == 0) by (nonlinear_arith)
                    requires
                        f == 0,
                ;
                assert(out == 0) by (nonlinear_arith)
                    requires
                        out == 0int / d,
                        d > 0,
                ;
                assert(out * (ri + p) <= p * ro) by (nonlinear_arith)
                    requires
                        out == 0,
                        p >= 0,
                        ro >= 0,
                ;
            }
            assert((ri + p) * (ro - out) >= ri * ro) by (nonlinear_arith)
                requires
                    out * (ri + p) <= p * ro,
            ;
        }
    }
}

/// Whoever pays what `amount_in` asks for an amount is paid out at least that
/// amount.
pub proof fn asked_amount_suffices(wanted: nat, reserve_in: nat, reserve_out: nat, gamma: nat)
    ensures
        amount_in(wanted, reserve_in, reserve_out, gamma) matches Some(asked) ==> (amount_out(
            asked,
            reserve_in,
            reserve_out,
            gamma,
        ) matches Some(out) ==> out >= wanted),
{
    if wanted > 0 {
        if let Some(asked) = amount_in(wanted, reserve_in, reserve_out, gamma) {
            if let Some(out) = amount_out(asked, reserve_in, reserve_out, gamma) {
                let x = asked as int;
                let w = wanted as int;
                let ri = reserve_in as int;
                let ro = reserve_out as int;
                let g = gamma as int;
                let n = ri * w * 10_000;
                let dn = (ro - w) * g;
                let f = x * g;
                let d = ri * 10_000 + f;
                assert(dn > 0) by (nonlinear_arith)
                    requires
                        dn == (ro - w) * g,
                        ro > w,
                        g > 0,
                ;
                vstd::arithmetic::div_mod::lemma_fundamental_div_mod(n, dn);
                assert(x * dn > n) by (nonlinear_arith)
                    requires
                        x == n / dn + 1,
                        n == dn * (n / dn) + n % dn,
                        n % dn < dn,
                ;
                assert(f * ro >= w * d) by (nonlinear_arith)
                    requires
                        x * dn > n,
                        dn == (ro - w) * g,
                        n == ri * w * 10_000,
                        f == x * g,
                        d == ri * 10_000 + f,
                ;
                assert(d > 0) by (nonlinear_arith)
                    requires
                        d == ri * 10_000 + f,
                        f == x * g,
                        x > 0,
                        g > 0,
                        ri >= 0,
                ;
                vstd::arithmetic::div_mod::lemma_div_is_ordered(w * d, f * ro, d);
                vstd::arithmetic::div_mod::lemma_div_by_multiple(w, d);
            }
        }
    }
}

/// What `amount_in` asks for an amount is at most one unit more than needed:
/// one unit less is never paid out more than the amount.
pub proof fn asked_amount_is_tight(wanted: nat, reserve_in: nat, reserve_out: nat, gamma: nat)
    requires
        wanted > 0,
    ensures
        amount_in(wanted, reserve_in, reserve_out, gamma) matches Some(asked) ==> asked > 0 && (
        amount_out((asked - 1) as nat, reserve_in, reserve_out, gamma) matches Some(out) ==> out
            <= wanted),
{
    if let Some(asked) = amount_in(wanted, reserve_in, reserve_out, gamma) {
        let w = wanted as int;
        let ri = reserve_in as int;
        let ro = reserve_out as int;
        let g = gamma as int;
        let n = ri * w * 10_000;
        let dn = (ro - w) * g;
        assert(dn > 0) by (nonlinear_arith)
            requires
                dn == (ro - w) * g,
                ro > w,
                g > 0,
        ;
        assert(n >= 0) by (nonlinear_arith)
            requires
                n == ri * w * 10_000,
                ri >= 0,
                w > 0,
        ;
        vstd::arithmetic::div_mod::lemma_div_pos_is_pos(n, dn);
        let less = (asked - 1) as nat;
        if less > 0 {
            if let Some(out) = amount_out(less, reserve_in, reserve_out, gamma) {
                let x = less as int;
                let f = x * g;
                let d = ri * 10_000 + f;
                vstd::arithmetic::div_mod::lemma_fundamental_div_mod(n, dn);
                assert(x * dn <= n) by (nonlinear_arith)
                    requires
                        x == n / dn,
                        n == dn * (n / dn) + n % dn,
                        n % dn >= 0,
                ;
                assert(f * ro <= w * d) by (nonlinear_arith)
                    requires
                        x * dn <= n,
                        dn == (ro - w) * g,
                        n == ri * w * 10_000,
                        f == x * g,
                        d == ri * 10_000 + f,
                ;
                assert(f >= 0) by (nonlinear_arith)
                    requires
                        f == x * g,
                        x > 0,
                        g > 0,
                ;
                vstd::arithmetic::div_mod::lemma_div_is_ordered(f * ro, w * d, d);
                vstd::arithmetic::div_mod::lemma_div_by_multiple(w, d);
            }
        }
    }
}

/// Whoever pays more is not paid out less.
pub proof fn paying_more_never_yields_less(
    less: nat,
    more: nat,
    reserve_in: nat,
    reserve_out: nat,
    gamma: nat,
)
    requires
        less <= more,
    ensures
        amount_out(less, reserve_in, reserve_out, gamma) matches Some(a) ==> (amount_out(
            more,
            reserve_in,
            reserve_out,
            gamma,
        ) matches Some(b) ==> a <= b),
{
    if less > 0 {
        if let (Some(a), Some(b)) = (
            amount_out(less, reserve_in, reserve_out, gamma),
            amount_out(more, reserve_in, reserve_out, gamma),
        ) {
            let ro = reserve_out as int;
            let c = (reserve_in * 10_000) as int;
            let f = (less * gamma) as int;
            let h = (more * gamma) as int;
            assert(0 <= f <= h) by (nonlinear_arith)
                requires
                    f == less * gamma,
                    h == more * gamma,
                    less <= more,
            ;
            let q = a as int;
            vstd::arithmetic::div_mod::lemma_fundamental_div_mod(f * ro, c + f);
            assert(q * (c + f) <= f * ro) by (nonlinear_arith)
                requires
                    f * ro == (c + f) * q + (f * ro) % (c + f),
                    (f * ro) % (c + f) >= 0,
            ;
            // q * (c + h) * (c + f) <= f * ro * (c + h) <= h * ro * (c + f)
            assert(q * (c + h) * (c + f) <= f * ro * (c + h)) by (nonlinear_arith)
                requires
                    q * (c + f) <= f * ro,
                    c + h > 0,
            ;
            assert(f * ro * (c + h) <= h * ro * (c + f)) by (nonlinear_arith)
                requires
                    0 <= f <= h,
                    ro >= 0,
                    c >= 0,
            ;
            assert(q * (c + h) <= h * ro) by (nonlinear_arith)
                requires
                    q * (c + h) * (c + f) <= h * ro * (c + f),
                    c + f > 0,
            ;
            vstd::arithmetic::div_mod::lemma_div_is_ordered(q * (c + h), h * ro, c + h);
            vstd::arithmetic::div_mod::lemma_div_by_multiple(q, c + h);
        }
    }
}

/// What a trade pays out, rounded down.
pub open spec fn payout(paid: nat, reserve_in: nat, reserve_out: nat, gamma: nat) -> nat {
    paid * gamma * reserve_out / (reserve_in * 10_000 + paid * gamma)
}

/// The rounded-down price of a trade, without the unit that is added to it.
pub open spec fn price(taken: nat, reserve_in: nat, reserve_out: nat, gamma: nat) -> int {
    (reserve_in * taken * 10_000) as int / ((reserve_out - taken) * gamma)
}

/// A trade pays out the largest amount that the fee and the reserves allow: the
/// payout times the reserve that it faces, fee included, is at most the payment that
/// counts times the reserve that it takes from, and one unit more would exceed that.
/// Nothing paid in takes nothing out. Any other trade has a payout exactly where both
/// reserves hold something and the two products fit into 256 bits.
pub proof fn payout_is_the_largest_allowed(
    paid: nat,
    reserve_in: nat,
    reserve_out: nat,
    gamma: nat,
)
    ensures
        paid == 0 ==> amount_out(paid, reserve_in, reserve_out, gamma) == Some(0nat),
        paid > 0 ==> (amount_out(paid, reserve_in, reserve_out, gamma) is Some <==> (reserve_in > 0
            && reserve_out > 0 && paid * gamma * reserve_out < modulus() && reserve_in * 10_000
            + paid * gamma < modulus())),
        amount_out(paid, reserve_in, reserve_out, gamma) matches Some(out) ==> (paid > 0 ==> out * (
        reserve_in * 10_000 + paid * gamma) <= paid * gamma * reserve_out < (out + 1) * (reserve_in
            * 10_000 + paid * gamma)),
        amount_out(paid, reserve_in, reserve_out, gamma) matches Some(out) ==> out <= reserve_out,
{
    if paid > 0 {
        reserve_is_never_exhausted(paid, reserve_in, reserve_out, gamma);
        if let Some(out) = amount_out(paid, reserve_in, reserve_out, gamma) {
            lemma_quotient_bounds(
                (paid * gamma * reserve_out) as int,
                (reserve_in * 10_000 + paid * gamma) as int,
            );
        }
    }
}

/// What has to be paid is one more than the largest amount that would be too little
/// before rounding. Nothing taken costs nothing. Anything else has a cost exactly
/// where the reserve holds more than what is taken, part of a payment counts, and the
/// two products fit into 256 bits.
pub proof fn cost_is_one_above_the_quotient(
    taken: nat,
    reserve_in: nat,
    reserve_out: nat,
    gamma: nat,
)
    ensures
        taken == 0 ==> amount_in(taken, reserve_in, reserve_out, gamma) == Some(0nat),
        taken > 0 ==> (amount_in(taken, reserve_in, reserve_out, gamma) is Some <==> (taken
            < reserve_out && gamma > 0 && reserve_in * taken * 10_000 < modulus() && (reserve_out
            - taken) * gamma < modulus())),
        amount_in(taken, reserve_in, reserve_out, gamma) matches Some(cost) ==> (taken > 0 ==> cost
            > 0 && (cost - 1) * ((reserve_out - taken) * gamma) <= reserve_in * taken * 10_000
            < cost * ((reserve_out - taken) * gamma)),
{
    if taken > 0 {
        if let Some(cost) = amount_in(taken, reserve_in, reserve_out, gamma) {
            let d = (reserve_out - taken) * gamma;
            assert(d > 0) by (nonlinear_arith)
                requires
                    d == (reserve_out - taken) * gamma,
                    taken < reserve_out,
                    gamma > 0,
            ;
            lemma_quotient_bounds((reserve_in * taken * 10_000) as int, d);
        }
    }
}

proof fn lemma_quotient_bounds(n: int, d: int)
    requires
        n >= 0,
        d > 0,
    ensures
        (n / d) * d <= n < (n / d + 1) * d,
        n / d >= 0,
{
    let q = n / d;
    vstd::arithmetic::div_mod::lemma_fundamental_div_mod(n, d);
    assert(q * d <= n < (q + 1) * d) by (nonlinear_arith)
        requires
            n == d * q + n % d,
            0 <= n % d < d,
    ;
    assert(q >= 0) by (nonlinear_arith)
        requires
            q == n / d,
            n >= 0,
            d > 0,
    ;
}

/// A trade moves the reserves by what is paid and what is paid out, and by nothing
/// else: the one it pays into holds the payment more, the other one the payout less.
/// A reserve that would take more than 256 bits wraps around.
pub proof fn trade_moves_what_is_traded(
    reserve_in: nat,
    reserve_out: nat,
    paid: nat,
    gamma: nat,
)
    requires
        reserve_in < modulus(),
        paid < modulus(),
    ensures
        swap_effect(reserve_in, reserve_out, paid, gamma) is Some <==> amount_out(
            paid,
            reserve_in,
            reserve_out,
            gamma,
        ) is Some,
        swap_effect(reserve_in, reserve_out, paid, gamma) matches Some(after) ==> {
            &&& reserve_in + paid < modulus() ==> after.0 == reserve_in + paid
            &&& reserve_in + paid >= modulus() ==> after.0 + modulus() == reserve_in + paid
            &&& after.1 + amount_out(paid, reserve_in, reserve_out, gamma)->0 == reserve_out
        },
{
    payout_is_the_largest_allowed(paid, reserve_in, reserve_out, gamma);
}

/// The price is the largest number that, times the first reserve, does not exceed the
/// second one times ten to the power of 18. There is one exactly where the first
/// reserve holds something and that product fits into 256 bits.
pub proof fn price_is_the_largest_below(reserve0: nat, reserve1: nat)
    ensures
        implied_price(reserve0, reserve1) is Some <==> reserve0 > 0 && reserve1
            * 1_000_000_000_000_000_000 < modulus(),
        implied_price(reserve0, reserve1) matches Some(price) ==> price * reserve0 <= reserve1
            * 1_000_000_000_000_000_000 < (price + 1) * reserve0,
{
    if reserve0 > 0 {
        lemma_quotient_bounds((reserve1 * 1_000_000_000_000_000_000) as int, reserve0 as int);
    }
}

/// What `get_amount_out` computes is the payout of the trade: the largest amount whose
/// product with the reserve that it faces, fee included, does not exceed the payment
/// that counts times the other reserve.
pub proof fn computed_payout_is_the_largest(
    paid: U256,
    reserve_in: U256,
    reserve_out: U256,
    gamma: U256,
    r: Option<U256>,
)
    requires
        paid@ > 0,
        call_ensures(get_amount_out, (paid, reserve_in, reserve_out, gamma), r),
    ensures
        r is Some <==> reserve_in@ > 0 && reserve_out@ > 0 && paid@ * gamma@ * reserve_out@
            < modulus() && reserve_in@ * 10_000 + paid@ * gamma@ < modulus(),
        r matches Some(out) ==> out@ * (reserve_in@ * 10_000 + paid@ * gamma@) <= paid@ * gamma@
            * reserve_out@ < (out@ + 1) * (reserve_in@ * 10_000 + paid@ * gamma@),
{
    payout_is_the_largest_allowed(paid@, reserve_in@, reserve_out@, gamma@);
}

/// What `get_amount_in` computes is one more than what would be too little before
/// rounding.
pub proof fn computed_cost_is_one_above(
    taken: U256,
    reserve_in: U256,
    reserve_out: U256,
    gamma: U256,
    r: Option<U256>,
)
    requires
        taken@ > 0,
        call_ensures(get_amount_in, (taken, reserve_in, reserve_out, gamma), r),
    ensures
        r is Some <==> taken@ < reserve_out@ && gamma@ > 0 && reserve_in@ * taken@ * 10_000
            < modulus() && (reserve_out@ - taken@) * gamma@ < modulus(),
        r matches Some(cost) ==> cost@ > 0 && (cost@ - 1) * ((reserve_out@ - taken@) * gamma@)
            <= reserve_in@ * taken@ * 10_000 < cost@ * ((reserve_out@ - taken@) * gamma@),
{
    cost_is_one_above_the_quotient(taken@, reserve_in@, reserve_out@, gamma@);
}

/// What `apply_swap_effect` computes are the reserves with what is paid added to the
/// first one and the payout, as `get_amount_out` computes it, taken from the second.
pub proof fn computed_reserves_are_moved(
    reserve_in: U256,
    reserve_out: U256,
    paid: U256,
    gamma: U256,
    out: Option<U256>,
    r: Option<(U256, U256)>,
)
    requires
        reserve_in@ + paid@ < modulus(),
        call_ensures(get_amount_out, (paid, reserve_in, reserve_out, gamma), out),
        call_ensures(apply_swap_effect, (reserve_in, reserve_out, paid, gamma), r),
    ensures
        r is Some <==> out is Some,
        r matches Some((a, b)) ==> a@ == reserve_in@ + paid@ && b@ + out->0@ == reserve_out@,
{
    lemma_below_modulus(reserve_in);
    lemma_below_modulus(paid);
    trade_moves_what_is_traded(reserve_in@, reserve_out@, paid@, gamma@);
}

/// What `implied_price_1e18` computes is the largest number that, times the first
/// reserve, does not exceed the second one times ten to the power of 18.
pub proof fn computed_price_is_the_largest(reserve0: U256, reserve1: U256, r: Option<U256>)
    requires
        call_ensures(implied_price_1e18, (reserve0, reserve1), r),
    ensures
        r is Some <==> reserve0@ > 0 && reserve1@ * 1_000_000_000_000_000_000 < modulus(),
        r matches Some(price) ==> price@ * reserve0@ <= reserve1@ * 1_000_000_000_000_000_000 < (
        price@ + 1) * reserve0@,
{
    price_is_the_largest_below(reserve0@, reserve1@);
}

/// What `isqrt_u256` computes squares to its argument, where that is a square.
pub proof fn root_of_a_square_is_exact(n: U256, root: nat, r: U256)
    requires
        n@ == root * root,
        call_ensures(isqrt_u256, (n,), r),
    ensures
        r@ == root,
{
    let (a, b) = (r@ as int, root as int);
    if a < b {
        assert((a + 1) * (a + 1) <= b * b) by (nonlinear_arith)
            requires
                0 <= a < b,
        ;
    } else if a > b {
        assert(a * a > b * b) by (nonlinear_arith)
            requires
                0 <= b < a,
        ;
    }
}

} // verus!
