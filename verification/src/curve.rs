//! Concave curves made of two hyperbolas: the profit of a loan before rounding.
use vstd::prelude::*;

verus! {

/// A concave curve that falls towards a pole below zero and towards one above.
pub ghost struct Curve {
    /// The height that the curve would have far from both poles.
    pub top: real,
    /// Where the lower pole lies.
    pub below: real,
    /// How much the lower pole pulls the curve down.
    pub pull_below: real,
    /// Where the upper pole lies.
    pub above: real,
    /// How much the upper pole pulls the curve down.
    pub pull_above: real,
}

impl Curve {
    /// The height of the curve at a point between the poles.
    pub open spec fn at(self, x: nat) -> real {
        self.top - self.pull_below / (x as real - self.below) - self.pull_above / (self.above
            - x as real)
    }

    /// Whether zero to `end` lie between the poles, and both pull the curve down.
    pub open spec fn covers(self, end: nat) -> bool {
        &&& self.below < 0real
        &&& (end as real) < self.above
        &&& self.pull_below >= 0real
        &&& self.pull_above >= 0real
    }

    /// Between two points the curve is no lower than at the lower one of them.
    pub proof fn lemma_no_lower_between(self, x: nat, y: nat, z: nat, least: real)
        requires
            self.covers(z),
            x <= y <= z,
            self.at(x) >= least,
            self.at(z) >= least,
        ensures
            self.at(y) >= least,
    {
        self.lemma_from_above(x);
        self.lemma_from_above(y);
        self.lemma_from_above(z);
        lemma_between(
            self.pull_below,
            self.pull_above,
            self.above - self.below,
            self.above - z as real,
            self.above - y as real,
            self.above - x as real,
            self.top - least,
        );
    }

    /// Where the curve falls by less than two over a distance, it falls by less than
    /// two over the distance before, if that is not longer.
    pub proof fn lemma_fell_little(self, x: nat, y: nat, z: nat)
        requires
            self.covers(z),
            x < y < z,
            y - x <= z - y,
            self.at(y) < self.at(z) + 2real,
        ensures
            self.at(x) < self.at(y) + 2real,
    {
        self.lemma_from_above(x);
        self.lemma_from_above(y);
        self.lemma_from_above(z);
        lemma_slower_before(
            self.pull_below,
            self.pull_above,
            self.above - self.below,
            self.above - x as real,
            self.above - y as real,
            self.above - z as real,
        );
    }

    /// Where the curve rises by less than two over a distance, it rises by less than
    /// two over the distance after, if that is not longer.
    pub proof fn lemma_rises_little(self, x: nat, y: nat, z: nat)
        requires
            self.covers(z),
            x < y < z,
            z - y <= y - x,
            self.at(y) < self.at(x) + 2real,
        ensures
            self.at(z) < self.at(y) + 2real,
    {
        self.lemma_from_below(x);
        self.lemma_from_below(y);
        self.lemma_from_below(z);
        lemma_slower_before(
            self.pull_above,
            self.pull_below,
            self.above - self.below,
            z as real - self.below,
            y as real - self.below,
            x as real - self.below,
        );
    }

    /// A step to the right of a range whose left end is at most four lower than a
    /// point before it: either the new left end is so too, or the right end is at
    /// most 27 lower than that point.
    pub proof fn lemma_step_up(self, best: nat, lo: nat, m1: nat, m2: nat, hi: nat)
        requires
            self.covers(hi),
            best < lo < m1 < m2 < hi,
            m1 - lo == hi - m2,
            m1 - lo <= m2 - m1,
            self.at(lo) <= self.at(best) <= self.at(lo) + 4real,
            self.at(m1) < self.at(m2) + 2real,
        ensures
            self.at(m1) <= self.at(best),
            self.at(best) <= self.at(m1) + 4real || self.at(best) <= self.at(hi) + 27real,
    {
        self.lemma_from_above(best);
        self.lemma_from_above(lo);
        self.lemma_from_above(m1);
        self.lemma_from_above(m2);
        self.lemma_from_above(hi);
        lemma_slide(
            self.pull_below,
            self.pull_above,
            self.above - self.below,
            self.above - best as real,
            self.above - lo as real,
            self.above - m1 as real,
            self.above - m2 as real,
            self.above - hi as real,
        );
    }

    /// A step to the left of a range whose right end is at most four lower than a
    /// point after it: either the new right end is so too, or the left end is at most
    /// 27 lower than that point.
    pub proof fn lemma_step_down(self, best: nat, lo: nat, m1: nat, m2: nat, hi: nat)
        requires
            self.covers(best),
            lo < m1 < m2 < hi < best,
            m1 - lo == hi - m2,
            m1 - lo <= m2 - m1,
            self.at(hi) <= self.at(best) <= self.at(hi) + 4real,
            self.at(m2) < self.at(m1) + 2real,
        ensures
            self.at(m2) <= self.at(best),
            self.at(best) <= self.at(m2) + 4real || self.at(best) <= self.at(lo) + 27real,
    {
        self.lemma_from_below(best);
        self.lemma_from_below(lo);
        self.lemma_from_below(m1);
        self.lemma_from_below(m2);
        self.lemma_from_below(hi);
        lemma_slide(
            self.pull_above,
            self.pull_below,
            self.above - self.below,
            best as real - self.below,
            hi as real - self.below,
            m2 as real - self.below,
            m1 as real - self.below,
            lo as real - self.below,
        );
    }

    /// The curve seen from the upper pole.
    proof fn lemma_from_above(self, x: nat)
        ensures
            self.at(x) == self.top - dip(
                self.pull_below,
                self.pull_above,
                self.above - self.below,
                self.above - x as real,
            ),
    {
        let t = self.above - x as real;
        assert((self.above - self.below) - t == x as real - self.below);
    }

    /// The curve seen from the lower pole.
    proof fn lemma_from_below(self, x: nat)
        ensures
            self.at(x) == self.top - dip(
                self.pull_above,
                self.pull_below,
                self.above - self.below,
                x as real - self.below,
            ),
    {
        let t = x as real - self.below;
        assert((self.above - self.below) - t == self.above - x as real);
    }
}

/// A larger number stays no smaller when both are scaled.
proof fn lemma_scale(a: real, b: real, c: real)
    requires
        a <= b,
        c >= 0real,
    ensures
        a * c <= b * c,
{
    assert(a * c <= b * c) by (nonlinear_arith)
        requires
            a <= b,
            c >= 0real,
    ;
}

/// What scales two numbers can be taken from both.
proof fn lemma_cancel(a: real, b: real, c: real)
    requires
        a * c <= b * c,
        c > 0real,
    ensures
        a <= b,
{
    if a > b {
        assert(a * c > b * c) by (nonlinear_arith)
            requires
                a > b,
                c > 0real,
        ;
    }
}

/// A product with a sum is the sum of the products.
proof fn lemma_spread(a: real, b: real, c: real)
    ensures
        (a + b) * c == a * c + b * c,
        (a - b) * c == a * c - b * c,
        c * (a + b) == a * c + b * c,
        c * (a - b) == a * c - b * c,
        a * c == c * a,
{
    assert((a + b) * c == a * c + b * c) by (nonlinear_arith);
    assert((a - b) * c == a * c - b * c) by (nonlinear_arith);
    assert(c * (a + b) == a * c + b * c) by (nonlinear_arith);
    assert(c * (a - b) == a * c - b * c) by (nonlinear_arith);
    assert(a * c == c * a) by (nonlinear_arith);
}

/// Equal numbers have equal products.
proof fn lemma_replace(a: real, b: real, c: real)
    requires
        a == b,
    ensures
        a * c == b * c,
{
}

/// Three factors can be grouped in any way.
proof fn lemma_regroup(a: real, b: real, c: real)
    ensures
        a * b * c == a * (b * c),
        a * b * c == (a * c) * b,
{
    assert(a * b * c == a * (b * c)) by (nonlinear_arith);
    assert(a * b * c == (a * c) * b) by (nonlinear_arith);
}

/// A quotient times the divisor is the dividend.
proof fn lemma_quotient(n: real, a: real)
    requires
        n >= 0real,
        a > 0real,
    ensures
        (n / a) * a == n,
        n / a >= 0real,
        n > 0real ==> n / a > 0real,
{
    let x = n / a;
    assert(x * a == n) by (nonlinear_arith)
        requires
            a > 0real,
            x == n / a,
    ;
    if x < 0real {
        assert(x * a < 0real) by (nonlinear_arith)
            requires
                x < 0real,
                a > 0real,
        ;
    } else if x == 0real {
        assert(x * a == 0real) by (nonlinear_arith)
            requires
                x == 0real,
        ;
    }
}

/// How far a curve lies below its top at a distance `t` from one of two poles that
/// lie `n` apart; `q` is the weight of that pole and `p` that of the other one.
pub open spec fn dip(p: real, q: real, n: real, t: real) -> real {
    p / (n - t) + q / t
}

/// One over a number is convex.
proof fn lemma_reciprocal(n: real, a: real, b: real, c: real)
    requires
        n >= 0real,
        0real < a < b < c,
    ensures
        (n / b) * (c - a) <= (n / a) * (c - b) + (n / c) * (b - a),
{
    let (x, y, z) = (n / a, n / b, n / c);
    lemma_quotient(n, a);
    lemma_quotient(n, b);
    lemma_quotient(n, c);
    assert(y * (c - a) <= x * (c - b) + z * (b - a)) by (nonlinear_arith)
        requires
            n >= 0real,
            0real < a < b < c,
            x * a == n,
            y * b == n,
            z * c == n,
    ;
}

/// The dip is convex.
proof fn lemma_dip_is_convex(p: real, q: real, n: real, a: real, b: real, c: real)
    requires
        p >= 0real,
        q >= 0real,
        0real < a < b < c < n,
    ensures
        dip(p, q, n, b) * (c - a) <= dip(p, q, n, a) * (c - b) + dip(p, q, n, c) * (b - a),
{
    lemma_reciprocal(q, a, b, c);
    lemma_reciprocal(p, n - c, n - b, n - a);
    assert((n - a) - (n - c) == c - a);
    assert((n - a) - (n - b) == b - a);
    assert((n - b) - (n - c) == c - b);
    lemma_spread(p / (n - a), q / a, c - b);
    lemma_spread(p / (n - b), q / b, c - a);
    lemma_spread(p / (n - c), q / c, b - a);
}

/// Between two points the dip is no deeper than at the deeper one of them.
proof fn lemma_between(p: real, q: real, n: real, a: real, b: real, c: real, most: real)
    requires
        p >= 0real,
        q >= 0real,
        0real < a <= b <= c < n,
        dip(p, q, n, a) <= most,
        dip(p, q, n, c) <= most,
    ensures
        dip(p, q, n, b) <= most,
{
    if a < b < c {
        lemma_dip_is_convex(p, q, n, a, b, c);
        lemma_scale(dip(p, q, n, a), most, c - b);
        lemma_scale(dip(p, q, n, c), most, b - a);
        lemma_spread(c - b, b - a, most);
        assert((c - b) + (b - a) == c - a);
        lemma_spread(most, most, c - a);
        lemma_spread(most, most, c - b);
        lemma_spread(most, most, b - a);
        lemma_cancel(dip(p, q, n, b), most, c - a);
    }
}

/// Towards a pole the dip deepens ever faster: where it deepens by less than two
/// over a distance, it deepened by less than two over any distance before that is
/// not longer.
proof fn lemma_slower_before(p: real, q: real, n: real, t0: real, t1: real, t2: real)
    requires
        p >= 0real,
        q >= 0real,
        0real < t2 < t1 < t0 < n,
        t0 - t1 <= t1 - t2,
        dip(p, q, n, t2) < dip(p, q, n, t1) + 2real,
    ensures
        dip(p, q, n, t1) < dip(p, q, n, t0) + 2real,
{
    lemma_dip_is_convex(p, q, n, t2, t1, t0);
    let (x0, x1, x2) = (dip(p, q, n, t0), dip(p, q, n, t1), dip(p, q, n, t2));
    let (u, v) = (t0 - t1, t1 - t2);
    // x1 * (u + v) <= x2 * u + x0 * v, so (x1 - x0) * v <= (x2 - x1) * u
    assert(t0 - t2 == u + v);
    lemma_spread(u, v, x1);
    lemma_spread(x1, x0, v);
    lemma_spread(x2, x1, u);
    lemma_spread(x1, x1, u);
    assert((x1 - x0) * v <= (x2 - x1) * u);
    lemma_scale(x2 - x1, 2real, u);
    assert((x1 - x0) * v <= 2real * u);
    if x1 - x0 >= 2real {
        lemma_scale(2real, x1 - x0, v);
        // equality would need u == v and x2 - x1 == 2
        assert(2real * v <= 2real * u);
        assert(u == v);
        lemma_cancel(x1 - x0, x2 - x1, v);
    }
}

/// Numbers with equal products are equal.
proof fn lemma_same(a: real, b: real, c: real)
    requires
        a * c == b * c,
        c > 0real,
    ensures
        a == b,
{
    lemma_cancel(a, b, c);
    lemma_cancel(b, a, c);
}

/// How much deeper the dip is at `t` than at `t0`, farther from the pole, as a
/// product.
proof fn lemma_descent(p: real, q: real, n: real, t0: real, t: real) -> (c: real)
    requires
        p >= 0real,
        q >= 0real,
        0real < t < t0 < n,
    ensures
        c >= 0real,
        c * (n - t) == p / (n - t0),
        (dip(p, q, n, t) - dip(p, q, n, t0)) * t == (q / t0 - c * t) * (t0 - t),
{
    let (u, v, r) = (n - t, n - t0, t0 - t);
    let (a, b, a0, b0) = (p / u, q / t, p / v, q / t0);
    lemma_quotient(p, u);
    lemma_quotient(p, v);
    lemma_quotient(q, t);
    lemma_quotient(q, t0);
    lemma_quotient(a, v);
    let c = a / v;
    assert(c * u == a0) by {
        lemma_regroup(c, u, v);
        lemma_same(c * u, a0, v);
    }
    assert(a0 == a + c * r) by {
        lemma_regroup(c, r, v);
        lemma_spread(a, c * r, v);
        lemma_spread(v, r, a);
        lemma_spread(a, a, u);
        assert(u == v + r);
        assert(v * a == a * v && r * a == a * r) by {
            lemma_spread(v, v, a);
            lemma_spread(r, r, a);
        }
        lemma_same(a0, a + c * r, v);
    }
    assert((a + b - (a0 + b0)) * t == (b0 - c * t) * r) by {
        assert(a + b - (a0 + b0) == (b - b0) - c * r);
        lemma_spread(b - b0, c * r, t);
        lemma_spread(b, b0, t);
        lemma_spread(t0, t, b0);
        lemma_spread(b0, b0, t0);
        lemma_spread(b0, b0, t);
        lemma_regroup(c, r, t);
        lemma_spread(b0, c * t, r);
        assert(b0 * (t0 - t) == b0 * t0 - b0 * t);
    }
    c
}

/// Towards a pole the dip deepens at least as fast as the distance shrinks.
proof fn lemma_deeper_nearer(p: real, q: real, n: real, t0: real, t1: real, t2: real)
    requires
        p >= 0real,
        q >= 0real,
        0real < t2 < t1 < t0 < n,
        dip(p, q, n, t0) <= dip(p, q, n, t1),
    ensures
        (dip(p, q, n, t1) - dip(p, q, n, t0)) * t1 <= (dip(p, q, n, t2) - dip(p, q, n, t0)) * t2,
{
    let c1 = lemma_descent(p, q, n, t0, t1);
    let c2 = lemma_descent(p, q, n, t0, t2);
    let b0 = q / t0;
    let (k1, k2) = (b0 - c1 * t1, b0 - c2 * t2);
    let (r1, r2) = (t0 - t1, t0 - t2);
    assert(c2 <= c1) by {
        lemma_scale(n - t1, n - t2, c2);
        lemma_spread(c2, c2, n - t1);
        lemma_spread(c2, c2, n - t2);
        lemma_cancel(c2, c1, n - t1);
    }
    assert(c2 * t2 <= c1 * t1) by {
        lemma_scale(c2, c1, t2);
        lemma_scale(t2, t1, c1);
        lemma_spread(c1, c1, t1);
        lemma_spread(c1, c1, t2);
    }
    assert(k1 >= 0real) by {
        lemma_scale(0real, dip(p, q, n, t1) - dip(p, q, n, t0), t1);
        lemma_spread(0real, 0real, t1);
        lemma_spread(0real, 0real, r1);
        lemma_cancel(0real, k1, r1);
    }
    assert(k1 * r1 <= k2 * r2) by {
        lemma_scale(k1, k2, r2);
        lemma_scale(r1, r2, k1);
        lemma_spread(r1, r1, k1);
        lemma_spread(r2, r2, k1);
    }
}

/// Where two distances from the points before grow by half at most, the dip deepens
/// by at most nine quarters of what the distance to the pole shrinks.
proof fn lemma_descent_is_bounded(
    p: real,
    q: real,
    n: real,
    t0: real,
    tz: real,
    t2: real,
    t3: real,
)
    requires
        p >= 0real,
        q >= 0real,
        0real < t3 < t2 < tz < t0 < n,
        dip(p, q, n, t0) <= dip(p, q, n, tz),
        2real * (tz - t3) <= 3real * (tz - t2),
    ensures
        4real * ((dip(p, q, n, t3) - dip(p, q, n, t0)) * t3) <= 9real * ((dip(p, q, n, t2) - dip(
            p,
            q,
            n,
            t0,
        )) * t2),
{
    let cz = lemma_descent(p, q, n, t0, tz);
    let c2 = lemma_descent(p, q, n, t0, t2);
    let c3 = lemma_descent(p, q, n, t0, t3);
    let (a0, b0) = (p / (n - t0), q / t0);
    lemma_quotient(p, n - t0);
    lemma_quotient(q, t0);
    let (kz, k2, k3) = (b0 - cz * tz, b0 - c2 * t2, b0 - c3 * t3);
    assert(kz >= 0real) by {
        lemma_scale(0real, dip(p, q, n, tz) - dip(p, q, n, t0), tz);
        lemma_spread(0real, 0real, tz);
        lemma_spread(0real, 0real, t0 - tz);
        lemma_cancel(0real, kz, t0 - tz);
    }
    let (ez, e2, e3) = (kz * (n - tz), k2 * (n - t2), k3 * (n - t3));
    lemma_even_fall(a0, b0, cz, n, tz);
    lemma_even_fall(a0, b0, c2, n, t2);
    lemma_even_fall(a0, b0, c3, n, t3);
    let slope = a0 + b0;
    assert(ez >= 0real) by {
        lemma_scale(0real, kz, n - tz);
        lemma_spread(0real, 0real, n - tz);
    }
    assert(e2 == ez + slope * (tz - t2)) by {
        lemma_spread(tz, t2, slope);
        lemma_spread(slope, slope, tz);
        lemma_spread(slope, slope, t2);
    }
    assert(e3 == ez + slope * (tz - t3)) by {
        lemma_spread(tz, t3, slope);
        lemma_spread(slope, slope, tz);
        lemma_spread(slope, slope, t3);
    }
    assert(2real * e3 <= 3real * e2) by {
        lemma_scale(2real * (tz - t3), 3real * (tz - t2), slope);
        lemma_regroup(2real, tz - t3, slope);
        lemma_regroup(3real, tz - t2, slope);
        lemma_spread(tz - t3, tz - t3, slope);
        lemma_spread(tz - t2, tz - t2, slope);
    }
    assert(e2 >= 0real) by {
        lemma_scale(0real, slope, tz - t2);
        lemma_spread(0real, 0real, tz - t2);
    }
    assert(k2 >= 0real) by {
        lemma_spread(0real, 0real, n - t2);
        lemma_cancel(0real, k2, n - t2);
    }
    assert(2real * k3 <= 3real * k2) by {
        lemma_scale(n - t2, n - t3, k2);
        lemma_spread(n - t2, n - t2, k2);
        lemma_spread(n - t3, n - t3, k2);
        lemma_regroup(2real, k3, n - t3);
        lemma_regroup(3real, k2, n - t3);
        lemma_cancel(2real * k3, 3real * k2, n - t3);
    }
    let (r2, r3) = (t0 - t2, t0 - t3);
    assert(4real * (k3 * r3) <= 9real * (k2 * r2)) by {
        lemma_scale(2real * k3, 3real * k2, r3);
        lemma_regroup(2real, k3, r3);
        lemma_regroup(3real, k2, r3);
        lemma_scale(2real * r3, 3real * r2, k2);
        lemma_regroup(2real, r3, k2);
        lemma_regroup(3real, r2, k2);
        lemma_spread(r3, r3, k2);
        lemma_spread(r2, r2, k2);
    }
}

proof fn lemma_even_fall(a0: real, b0: real, c: real, n: real, t: real)
    requires
        c * (n - t) == a0,
    ensures
        (b0 - c * t) * (n - t) == b0 * n - (a0 + b0) * t,
{
    let u = n - t;
    lemma_spread(b0, c * t, u);
    lemma_regroup(c, t, u);
    lemma_spread(n, t, b0);
    lemma_spread(b0, b0, n);
    lemma_spread(b0, b0, t);
    lemma_spread(a0, b0, t);
}

/// One step of a search towards a pole, on points that lie ever nearer to it: the
/// start `t0`, the near end `tz` of the range, `t1` and `t2` at a third and at two
/// thirds of it, and its far end `t3`. Where the dip deepens by less than two from
/// `t1` to `t2`, either `t1` is still at most four deeper than the start, or the
/// whole range is at most 27 deeper than it.
proof fn lemma_slide(
    p: real,
    q: real,
    n: real,
    t0: real,
    tz: real,
    t1: real,
    t2: real,
    t3: real,
)
    requires
        p >= 0real,
        q >= 0real,
        0real < t3 < t2 < t1 < tz < t0 < n,
        tz - t1 == t2 - t3,
        tz - t1 <= t1 - t2,
        dip(p, q, n, t0) <= dip(p, q, n, tz) <= dip(p, q, n, t0) + 4real,
        dip(p, q, n, t2) < dip(p, q, n, t1) + 2real,
    ensures
        dip(p, q, n, t0) <= dip(p, q, n, t1),
        dip(p, q, n, t1) <= dip(p, q, n, t0) + 4real || dip(p, q, n, t3) <= dip(p, q, n, t0)
            + 27real,
{
    let base = dip(p, q, n, t0);
    let (d1, d2, d3) = (
        dip(p, q, n, t1) - base,
        dip(p, q, n, t2) - base,
        dip(p, q, n, t3) - base,
    );
    let h = tz - t1;
    if d1 < 0real {
        // tz would lie above both of its neighbours
        lemma_dip_is_convex(p, q, n, t1, tz, t0);
        let x = dip(p, q, n, tz);
        lemma_scale(base, x, t0 - t1);
        lemma_spread(t0 - tz, tz - t1, base);
        assert((t0 - tz) + (tz - t1) == t0 - t1);
        lemma_spread(base, base, t0 - t1);
        lemma_spread(base, base, t0 - tz);
        lemma_spread(base, base, tz - t1);
        lemma_cancel(base, dip(p, q, n, t1), t0 - tz);
    }
    lemma_slower_before(p, q, n, tz, t1, t2);
    assert(d1 <= 6real && d2 <= d1 + 2real);
    lemma_deeper_nearer(p, q, n, t0, t1, t2);
    lemma_descent_is_bounded(p, q, n, t0, tz, t2, t3);
    // d1 * t1 <= d2 * t2 <= (d1 + 2) * t2
    assert(d1 * (t1 - t2) <= 2real * t2) by {
        lemma_scale(d2, d1 + 2real, t2);
        lemma_spread(d1, 2real, t2);
        lemma_spread(t1, t2, d1);
        lemma_spread(d1, d1, t1);
        lemma_spread(d1, d1, t2);
    }
    assert(d1 * h <= 2real * t2) by {
        lemma_scale(h, t1 - t2, d1);
        lemma_spread(h, h, d1);
        lemma_spread(t1 - t2, t1 - t2, d1);
    }
    if t3 <= h {
        lemma_spread(4real, 4real, h);
        lemma_cancel(d1, 4real, h);
    } else if t3 >= 2real * h {
        lemma_scale(d2, 8real, t2);
        assert(4real * (d3 * t3) <= 72real * t2);
        assert(d3 * t3 <= 27real * t3);
        lemma_cancel(d3, 27real, t3);
    } else {
        // d2 * h <= 2 * t3 + 4 * h
        let most = 2real * t3 + 4real * h;
        assert(d2 * h <= most) by {
            lemma_scale(d2, d1 + 2real, h);
            lemma_spread(d1, 2real, h);
        }
        let (th, tt, hh) = (t3 * h, t3 * t3, h * h);
        assert(d2 * t2 * h <= 2real * tt + 6real * th + 4real * hh) by {
            lemma_regroup(d2, t2, h);
            lemma_scale(d2 * h, most, t2);
            lemma_spread(t3, h, most);
            lemma_spread(2real * t3, 4real * h, t3);
            lemma_spread(2real * t3, 4real * h, h);
            lemma_regroup(2real, t3, t3);
            lemma_regroup(4real, h, t3);
            lemma_regroup(2real, t3, h);
            lemma_regroup(4real, h, h);
            lemma_spread(h, h, t3);
            lemma_spread(t3, t3, most);
            lemma_spread(h, h, most);
        }
        // (t3 - h) * (2 * h - t3) >= 0
        assert(tt + 2real * hh <= 3real * th) by {
            lemma_scale(0real, t3 - h, 2real * h - t3);
            lemma_spread(0real, 0real, 2real * h - t3);
            lemma_spread(t3, h, 2real * h - t3);
            lemma_spread(2real * h, t3, t3);
            lemma_spread(2real * h, t3, h);
            lemma_regroup(2real, h, t3);
            lemma_regroup(2real, h, h);
            lemma_spread(h, h, t3);
            lemma_spread(t3, t3, 2real * h - t3);
            lemma_spread(h, h, 2real * h - t3);
        }
        assert(d2 * t2 * h <= 12real * th);
        assert(4real * (d3 * t3) * h <= 9real * (d2 * t2) * h) by {
            lemma_scale(4real * (d3 * t3), 9real * (d2 * t2), h);
        }
        lemma_regroup(4real, d3 * t3, h);
        lemma_regroup(9real, d2 * t2, h);
        lemma_regroup(d3, t3, h);
        assert(th > 0real) by {
            lemma_scale(h, t3, h);
            lemma_spread(0real, 0real, h);
            if hh <= 0real {
                lemma_cancel(h, 0real, h);
            }
        }
        lemma_cancel(d3, 27real, th);
    }
}

/// A product of whole numbers is their product.
proof fn lemma_product(a: int, b: int)
    ensures
        (a * b) as real == (a as real) * (b as real),
{
    assert((a * b) as real == (a as real) * (b as real)) by (nonlinear_arith);
}

/// The quotient of two whole numbers, before it is rounded down.
pub proof fn lemma_before_rounding(n: int, d: int) -> (x: real)
    requires
        n >= 0,
        d > 0,
    ensures
        x * (d as real) == n as real,
        (n / d) as real <= x < (n / d) as real + 1real,
{
    let x = n as real / d as real;
    let k = n / d;
    lemma_quotient(n as real, d as real);
    vstd::arithmetic::div_mod::lemma_fundamental_div_mod(n, d);
    lemma_product(d, k);
    lemma_spread(k as real, 1real, d as real);
    lemma_cancel(k as real, x, d as real);
    if x >= k as real + 1real {
        lemma_scale(k as real + 1real, x, d as real);
    }
    x
}

/// The curve of what one trade brings less what another one costs: at `x`, the trade
/// that brings `r` at most and half of it at `b`, less the one that costs `e` where
/// half of the `d` that it can take is taken.
pub open spec fn between_trades(r: real, b: real, e: real, d: real) -> Curve {
    Curve { top: r + e, below: -b, pull_below: r * b, above: d, pull_above: e * d }
}

/// The height of the curve is what the first trade brings less what the second one
/// costs.
pub proof fn lemma_between_trades(
    r: real,
    b: real,
    e: real,
    d: real,
    x: nat,
    gained: real,
    spent: real,
)
    requires
        r >= 0real,
        b > 0real,
        e >= 0real,
        (x as real) < d,
        gained * (x as real + b) == r * (x as real),
        spent * (d - x as real) == e * (x as real),
    ensures
        between_trades(r, b, e, d).covers(x),
        between_trades(r, b, e, d).at(x) == gained - spent,
{
    let curve = between_trades(r, b, e, d);
    let v = x as real;
    let (u, w) = (v + b, d - v);
    lemma_scale(0real, r, b);
    lemma_scale(0real, e, d);
    lemma_spread(0real, 0real, b);
    lemma_spread(0real, 0real, d);
    lemma_quotient(r * b, u);
    lemma_quotient(e * d, w);
    assert(v - curve.below == u);
    assert(r - (r * b) / u == gained) by {
        lemma_spread(r, (r * b) / u, u);
        lemma_spread(v, b, r);
        lemma_spread(r, r, v);
        lemma_spread(r, r, b);
        lemma_spread(r, r, u);
        lemma_same(r - (r * b) / u, gained, u);
    }
    assert((e * d) / w - e == spent) by {
        lemma_spread((e * d) / w, e, w);
        lemma_spread(d, v, e);
        lemma_spread(e, e, v);
        lemma_spread(e, e, d);
        lemma_spread(e, e, w);
        lemma_same((e * d) / w - e, spent, w);
    }
}

/// Where nothing is traded, the curve is at zero.
pub proof fn lemma_nothing_traded(
    r: nat,
    half: nat,
    fee1: nat,
    cost: nat,
    fee2: nat,
    whole: nat,
)
    requires
        half > 0,
        fee1 > 0,
        fee2 > 0,
        whole > 0,
    ensures
        between_trades(
            r as real,
            half as real / fee1 as real,
            cost as real / fee2 as real,
            whole as real,
        ).at(0) == 0real,
{
    let (b, e) = (half as real / fee1 as real, cost as real / fee2 as real);
    lemma_quotient(half as real, fee1 as real);
    lemma_quotient(cost as real, fee2 as real);
    lemma_spread(0real, 0real, b);
    lemma_spread(0real, 0real, whole as real);
    lemma_spread(0real, 0real, r as real);
    lemma_spread(0real, 0real, e);
    lemma_between_trades(r as real, b, e, whole as real, 0, 0real, 0real);
}

/// What a trade brings, where a fee scales both what is paid and what is held.
pub proof fn lemma_trade_brings(
    gained: real,
    paid: int,
    with_fee: int,
    brought: int,
    held: int,
    r: int,
    fee: int,
) -> (b: real)
    requires
        paid >= 0,
        held > 0,
        fee > 0,
        with_fee == paid * fee,
        brought == with_fee * r,
        gained * ((held + with_fee) as real) == brought as real,
    ensures
        b == held as real / fee as real,
        b > 0real,
        gained * (paid as real + b) == (r as real) * (paid as real),
{
    let (v, f, most) = (paid as real, fee as real, r as real);
    let b = held as real / f;
    lemma_quotient(held as real, f);
    lemma_product(paid, fee);
    lemma_product(with_fee, r);
    assert((gained * (v + b)) * f == brought as real) by {
        lemma_spread(v, b, f);
        lemma_regroup(gained, v + b, f);
    }
    assert((most * v) * f == brought as real) by {
        lemma_replace(with_fee as real, v * f, most);
        lemma_regroup(v, f, most);
        lemma_spread(v, v, most);
        lemma_replace(v * most, most * v, f);
    }
    lemma_same(gained * (v + b), most * v, f);
    b
}

/// What a trade costs, where a fee scales what can be taken.
pub proof fn lemma_trade_costs(spent: real, taken: int, held: int, whole: int, fee: int) -> (
    e: real)
    requires
        0 <= taken < whole,
        held >= 0,
        fee > 0,
        spent * (((whole - taken) * fee) as real) == (held * taken * 10_000) as real,
    ensures
        e == (held * 10_000) as real / fee as real,
        e >= 0real,
        spent * (whole as real - taken as real) == e * (taken as real),
{
    let (v, w, f) = (taken as real, whole as real - taken as real, fee as real);
    let e = (held * 10_000) as real / f;
    lemma_quotient((held * 10_000) as real, f);
    lemma_product(whole - taken, fee);
    lemma_product(held, taken);
    assert((spent * w) * f == (e * v) * f) by {
        lemma_regroup(spent, w, f);
        lemma_regroup(e, v, f);
        lemma_product(held * 10_000, taken);
        assert(held * 10_000 * taken == held * taken * 10_000) by (nonlinear_arith);
    }
    lemma_same(spent * w, e * v, f);
    e
}

} // verus!
