//! Narrowing a range around the peak of a function by thirds.
use vstd::arithmetic::power::{lemma_pow_adds, lemma_pow_positive, pow};
use vstd::prelude::*;

use crate::curve::Curve;
use crate::u256::modulus;

verus! {

/// The range that is left after at most `steps` steps. Each step compares the
/// function at one third and at two thirds of the range and drops the third
/// beyond the lower of the two values; a range of less than three is left as it
/// is.
pub open spec fn narrowed(gain: spec_fn(nat) -> nat, lo: nat, hi: nat, steps: nat) -> (nat, nat)
    decreases steps,
{
    let third = (hi - lo) / 3;
    if steps == 0 || hi < lo + 3 {
        (lo, hi)
    } else if gain((lo + third) as nat) < gain((hi - third) as nat) {
        narrowed(gain, (lo + third) as nat, hi, (steps - 1) as nat)
    } else {
        narrowed(gain, lo, (hi - third) as nat, (steps - 1) as nat)
    }
}

/// The lowest value of a range at which the function is greatest.
pub open spec fn first_best(gain: spec_fn(nat) -> nat, lo: nat, hi: nat) -> nat
    decreases hi,
{
    if hi <= lo {
        lo
    } else {
        let best = first_best(gain, lo, (hi - 1) as nat);
        if gain(best) < gain(hi) {
            hi
        } else {
            best
        }
    }
}

/// Whether the function rises up to the peak and does not rise after it.
pub open spec fn peaks_at(gain: spec_fn(nat) -> nat, peak: nat, lo: nat, hi: nat) -> bool {
    &&& lo <= peak <= hi
    &&& forall|a: nat, b: nat| lo <= a < b <= peak ==> #[trigger] gain(a) < #[trigger] gain(b)
    &&& forall|a: nat, b: nat| peak <= a < b <= hi ==> #[trigger] gain(a) >= #[trigger] gain(b)
}

/// Nothing in a range is greater than its first best value, and what comes before
/// that one is less.
pub proof fn first_best_is_greatest(gain: spec_fn(nat) -> nat, lo: nat, hi: nat)
    requires
        lo <= hi,
    ensures
        lo <= first_best(gain, lo, hi) <= hi,
        forall|l: nat| lo <= l <= hi ==> #[trigger] gain(l) <= gain(first_best(gain, lo, hi)),
        forall|l: nat|
            lo <= l < first_best(gain, lo, hi) ==> #[trigger] gain(l) < gain(
                first_best(gain, lo, hi),
            ),
    decreases hi,
{
    if lo < hi {
        first_best_is_greatest(gain, lo, (hi - 1) as nat);
    }
}

/// What is left of a range is a part of it.
pub proof fn narrowed_range_is_inside(
    gain: spec_fn(nat) -> nat,
    lo: nat,
    hi: nat,
    steps: nat,
)
    requires
        lo <= hi,
    ensures
        lo <= narrowed(gain, lo, hi, steps).0 <= narrowed(gain, lo, hi, steps).1 <= hi,
    decreases steps,
{
    if steps > 0 && hi >= lo + 3 {
        let third = (hi - lo) / 3;
        narrowed_range_is_inside(gain, (lo + third) as nat, hi, (steps - 1) as nat);
        narrowed_range_is_inside(gain, lo, (hi - third) as nat, (steps - 1) as nat);
    }
}

/// The peak of a function that rises up to it and does not rise after it is
/// never dropped.
pub proof fn narrowing_keeps_the_peak(
    gain: spec_fn(nat) -> nat,
    peak: nat,
    lo: nat,
    hi: nat,
    steps: nat,
)
    requires
        peaks_at(gain, peak, lo, hi),
    ensures
        narrowed(gain, lo, hi, steps).0 <= peak <= narrowed(gain, lo, hi, steps).1,
    decreases steps,
{
    if steps > 0 && hi >= lo + 3 {
        let third = (hi - lo) / 3;
        let m1 = (lo + third) as nat;
        let m2 = (hi - third) as nat;
        if gain(m1) < gain(m2) {
            assert(m1 <= peak);
            narrowing_keeps_the_peak(gain, peak, m1, hi, (steps - 1) as nat);
        } else {
            assert(peak <= m2);
            narrowing_keeps_the_peak(gain, peak, lo, m2, (steps - 1) as nat);
        }
    }
}

/// Whether a gain follows a curve: it is zero or below the curve, and less than two
/// below it. The curve starts no lower than zero.
pub open spec fn follows(gain: spec_fn(nat) -> nat, curve: Curve, end: nat) -> bool {
    &&& curve.covers(end)
    &&& curve.at(0) >= 0real
    &&& forall|l: nat|
        1 <= l <= end ==> curve.at(l) - 2real < (#[trigger] gain(l) as real) && (gain(l) > 0 ==> (
        gain(l) as real) < curve.at(l))
}

/// Whether a point of the curve lies in a range, or an end of the range lies at most
/// four lower than it, the end that is next to it.
spec fn at_hand(curve: Curve, lo: nat, hi: nat, best: nat) -> bool {
    ||| lo <= best <= hi
    ||| best < lo && curve.at(lo) <= curve.at(best) <= curve.at(lo) + 4real
    ||| hi < best && curve.at(hi) <= curve.at(best) <= curve.at(hi) + 4real
}

/// What is left of a range after the search holds a point that is at most 27 lower
/// than any point of the curve that was at hand.
proof fn lemma_search_stays_near(
    gain: spec_fn(nat) -> nat,
    curve: Curve,
    end: nat,
    lo: nat,
    hi: nat,
    steps: nat,
    best: nat,
) -> (kept: nat)
    requires
        follows(gain, curve, end),
        1 <= lo <= hi <= end,
        best <= end,
        curve.at(best) >= 0real,
        at_hand(curve, lo, hi, best),
    ensures
        narrowed(gain, lo, hi, steps).0 <= kept <= narrowed(gain, lo, hi, steps).1,
        curve.at(best) <= curve.at(kept) + 27real,
    decreases steps,
{
    if steps == 0 || hi < lo + 3 {
        if best < lo {
            lo
        } else if hi < best {
            hi
        } else {
            best
        }
    } else {
        let third = (hi - lo) / 3;
        let m1 = (lo + third) as nat;
        let m2 = (hi - third) as nat;
        let fewer = (steps - 1) as nat;
        if gain(m1) < gain(m2) {
            assert(curve.at(m1) < curve.at(m2) + 2real);
            narrowed_range_is_inside(gain, m1, hi, fewer);
            let left = narrowed(gain, m1, hi, fewer);
            if m1 <= best || hi < best {
                lemma_search_stays_near(gain, curve, end, m1, hi, fewer, best)
            } else if curve.at(best) <= curve.at(m1) {
                lemma_search_stays_near(gain, curve, end, m1, hi, fewer, m1)
            } else {
                if best < lo {
                    curve.lemma_step_up(best, lo, m1, m2, hi);
                } else {
                    curve.lemma_fell_little(best, m1, m2);
                }
                if curve.at(best) <= curve.at(m1) + 4real {
                    lemma_search_stays_near(gain, curve, end, m1, hi, fewer, best)
                } else {
                    curve.lemma_no_lower_between(best, left.0, hi, curve.at(best) - 27real);
                    left.0
                }
            }
        } else {
            assert(best > m2 ==> curve.at(m2) < curve.at(m1) + 2real) by {
                if best > m2 {
                    curve.lemma_no_lower_between(0, m1, best, 0real);
                }
            }
            narrowed_range_is_inside(gain, lo, m2, fewer);
            let left = narrowed(gain, lo, m2, fewer);
            if best <= m2 {
                lemma_search_stays_near(gain, curve, end, lo, m2, fewer, best)
            } else if curve.at(best) <= curve.at(m2) {
                lemma_search_stays_near(gain, curve, end, lo, m2, fewer, m2)
            } else {
                if hi < best {
                    curve.lemma_step_down(best, lo, m1, m2, hi);
                } else {
                    curve.lemma_rises_little(m1, m2, best);
                }
                if curve.at(best) <= curve.at(m2) + 4real {
                    lemma_search_stays_near(gain, curve, end, lo, m2, fewer, best)
                } else {
                    curve.lemma_no_lower_between(lo, left.1, best, curve.at(best) - 27real);
                    left.1
                }
            }
        }
    }
}

/// On a gain that follows a curve the search keeps almost all of the largest one:
/// what is left of the range holds a value that gains at most 28 less than any value
/// of the range, however many steps were taken.
pub proof fn search_keeps_most_of_the_gain(
    gain: spec_fn(nat) -> nat,
    curve: Curve,
    lo: nat,
    hi: nat,
    steps: nat,
    best: nat,
) -> (kept: nat)
    requires
        follows(gain, curve, hi),
        1 <= lo <= best <= hi,
    ensures
        narrowed(gain, lo, hi, steps).0 <= kept <= narrowed(gain, lo, hi, steps).1,
        gain(best) <= gain(kept) + 28,
{
    narrowed_range_is_inside(gain, lo, hi, steps);
    if gain(best) == 0 {
        narrowed(gain, lo, hi, steps).0
    } else {
        let kept = lemma_search_stays_near(gain, curve, hi, lo, hi, steps, best);
        assert((gain(best) as real) < (gain(kept) as real) + 29real);
        kept
    }
}

/// Beyond a width of two, each step leaves at most two thirds of a range.
proof fn lemma_width(gain: spec_fn(nat) -> nat, lo: nat, hi: nat, steps: nat)
    requires
        lo <= hi,
    ensures
        ({
            let left = narrowed(gain, lo, hi, steps);
            left.1 - left.0 <= 2 || (left.1 - left.0 - 2) * pow(3, steps) <= (hi - lo - 2) * pow(
                2,
                steps,
            )
        }),
    decreases steps,
{
    reveal(pow);
    let w = hi - lo;
    let left = narrowed(gain, lo, hi, steps);
    let v = left.1 - left.0;
    if steps > 0 && w >= 3 {
        let third = w / 3;
        let n = (steps - 1) as nat;
        let u = w - third;
        lemma_width(gain, (lo + third) as nat, hi, n);
        lemma_width(gain, lo, (hi - third) as nat, n);
        let p = pow(3, n);
        let q = pow(2, n);
        assert(3 * (u - 2) <= 2 * (w - 2));
        lemma_pow_positive(2, n);
        if v > 2 {
            assert((v - 2) * p <= (u - 2) * q);
            assert((v - 2) * (3 * p) <= (w - 2) * (2 * q)) by (nonlinear_arith)
                requires
                    (v - 2) * p <= (u - 2) * q,
                    3 * (u - 2) <= 2 * (w - 2),
                    q > 0,
            ;
        }
    }
}

/// Four hundred and forty steps narrow any range of 256-bit numbers to a width of
/// at most two.
pub proof fn any_range_is_narrowed(gain: spec_fn(nat) -> nat, lo: nat, hi: nat)
    requires
        lo <= hi < modulus(),
    ensures
        narrowed(gain, lo, hi, 440).1 - narrowed(gain, lo, hi, 440).0 <= 2,
{
    lemma_width(gain, lo, hi, 440);
    let left = narrowed(gain, lo, hi, 440);
    let v = left.1 - left.0;
    if v > 2 {
        lemma_three_outgrows_two_by_far();
        let p = pow(3, 440);
        let q = pow(2, 440);
        let w = hi - lo - 2;
        let limit = modulus() as int;
        lemma_pow_positive(2, 440);
        assert((v - 2) * p >= p) by (nonlinear_arith)
            requires
                v > 2,
                p > 0,
        ;
        assert(w * q < limit * q) by (nonlinear_arith)
            requires
                w < limit,
                q > 0,
        ;
    }
}

/// Three to the power of 440 exceeds two to the power of 440, 256 times doubled.
proof fn lemma_three_outgrows_two_by_far()
    ensures
        pow(3, 440) > modulus() * pow(2, 440),
        pow(3, 440) > 0,
{
    lemma_powers_of_two_hundred();
    assert(pow(3, 400) == 70550791086553325712464271575934796216507949612787315762871223209262085551582934156579298529447134158154952334825355911866929793071824566694145084454535257027960285323760313192443283334088001) by {
        lemma_pow_adds(3, 200, 200);
    }
    assert(pow(3, 440) == 857732915902130819322162408365711029333798933009081907542010101230713445443489463994526475419504923047841995711407538175719778606068185025275806590271783363644560189299293994213889297048822325404770371325416801) by {
        lemma_pow_adds(3, 400, 40);
    }
    assert(pow(2, 400) == 2582249878086908589655919172003011874329705792829223512830659356540647622016841194629645353280137831435903171972747493376) by {
        lemma_pow_adds(2, 200, 200);
    }
    assert(pow(2, 440) == 2839213766779714416208296124562517712318911565184836172974571090549372219192960637992933791850638927971728600024477257552869537611776) by {
        lemma_pow_adds(2, 400, 40);
    }
}

proof fn lemma_powers_of_two_hundred()
    ensures
        pow(3, 40) == 12157665459056928801,
        pow(3, 200)
            == 265613988875874769338781322035779626829233452653394495974574961739092490901302182994384699044001,
        pow(2, 40) == 1099511627776,
        pow(2, 200) == 1606938044258990275541962092341162602522202993782792835301376,
{
    assert(pow(3, 20) == 3486784401) by {
        reveal_with_fuel(pow, 21);
    }
    assert(pow(3, 40) == 12157665459056928801) by {
        lemma_pow_adds(3, 20, 20);
    }
    assert(pow(3, 80) == 147808829414345923316083210206383297601) by {
        lemma_pow_adds(3, 40, 40);
    }
    assert(pow(3, 160) == 21847450052839212624230656502990235142567050104912751880812823948662932355201) by {
        lemma_pow_adds(3, 80, 80);
    }
    assert(pow(3, 200) == 265613988875874769338781322035779626829233452653394495974574961739092490901302182994384699044001) by {
        lemma_pow_adds(3, 160, 40);
    }
    assert(pow(2, 20) == 1048576) by {
        reveal_with_fuel(pow, 21);
    }
    assert(pow(2, 40) == 1099511627776) by {
        lemma_pow_adds(2, 20, 20);
    }
    assert(pow(2, 80) == 1208925819614629174706176) by {
        lemma_pow_adds(2, 40, 40);
    }
    assert(pow(2, 160) == 1461501637330902918203684832716283019655932542976) by {
        lemma_pow_adds(2, 80, 80);
    }
    assert(pow(2, 200) == 1606938044258990275541962092341162602522202993782792835301376) by {
        lemma_pow_adds(2, 160, 40);
    }
}

} // verus!
