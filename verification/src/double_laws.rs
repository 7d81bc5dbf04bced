//! What floats come to as numbers: how close sums, products and quotients are to the exact ones,
//! and how they are ordered.
//!
//! A size is measured by its [`double::weight`], in units of the smallest one: the number one
//! weighs [`one`].

use crate::double;
use crate::double::{Double, Number};
use vstd::arithmetic::power2;
use vstd::arithmetic::power2::pow2;
use vstd::prelude::*;

verus! {

/// The weight of the number one.
pub open spec fn one() -> nat {
    pow2(1074)
}

/// How far two numbers are apart.
pub open spec fn gap(a: int, b: int) -> int {
    if a <= b {
        b - a
    } else {
        a - b
    }
}

pub proof fn lemma_one()
    ensures
        one() >= 0x1_0000_0000_0000_0000,
{
    power2::lemma2_to64();
    double::lemma_powers(64, 1010);
    let (a, b) = (pow2(64) as int, pow2(1010) as int);
    assert(a * b >= a) by (nonlinear_arith)
        requires
            a >= 0,
            b >= 1,
    ;
    double::lemma_powers(1010, 0);
}

/// Rounding moves a number by at most half of the last of its 53 bits, or by half of the smallest
/// size.
pub proof fn law_rounding_is_close(p: nat, q: nat)
    requires
        q > 0,
        double::nearest(p, q) is Some,
    ensures
        double::nearest(p, q)->0.wf(),
        0x20_0000_0000_0000 * gap(
            (p * one()) as int,
            (double::weight(double::nearest(p, q)->0) * q) as int,
        ) <= p * one() + 0x10_0000_0000_0000 * q,
{
    let most = double::MOST_EXPONENT as int;
    double::lemma_exponent_exists(p, q, most);
    let e = choose|e: int| double::is_exponent(p, q, e);
    double::lemma_nearest_weight(p, q, e);
    double::lemma_significand_close(p, q, e);
    let m = double::significand(p, q, e) as int;
    let unit = pow2((e + 1074) as nat) as int;
    let step = unit * q;
    let pt = p * one() as int;
    assert((m * unit) * q == m * step) by (nonlinear_arith)
        requires
            step == unit * q,
    ;
    assert((2 * m - 1) * step == 2 * (m * step) - step) by (nonlinear_arith);
    assert((2 * m + 1) * step == 2 * (m * step) + step) by (nonlinear_arith);
    assert(2 * gap(pt, m * step) <= step);
    if e == double::LEAST_EXPONENT {
        power2::lemma2_to64();
        assert(step == q) by (nonlinear_arith)
            requires
                step == unit * q,
                unit == 1,
        ;
    } else {
        power2::lemma2_to64_rest();
        double::lemma_powers((e + 1074) as nat, 52);
        assert(pow2((1127 + (e - 1)) as nat) == unit * 0x10_0000_0000_0000);
        assert(q * (unit * 0x10_0000_0000_0000) == 0x10_0000_0000_0000 * step) by (nonlinear_arith)
            requires
                step == unit * q,
        ;
    }
}

/// What is at most a whole number of up to 53 bits does not overflow.
pub proof fn lemma_bounded(p: nat, q: nat, k: nat)
    requires
        q > 0,
        p <= k * q,
        k < 0x20_0000_0000_0000,
    ensures
        double::nearest(p, q) is Some,
        double::nearest(p, q)->0.wf(),
        double::weight(double::nearest(p, q)->0) <= k * one(),
{
    double::lemma_whole(k);
    assert(p * 1 <= k * q);
    double::lemma_nearest_grows(p, q, k, 1);
    law_rounding_is_close(p, q);
}

/// A sum of floats is the exact sum, rounded.
pub proof fn law_sums_are_close(x: Double, y: Double, k: nat)
    requires
        x.wf(),
        y.wf(),
        double::weight(x) + double::weight(y) <= k * one(),
        k < 0x20_0000_0000_0000,
    ensures
        double::sum(x, y) matches Some(d) && d.wf() && 0x20_0000_0000_0000 * gap(
            (double::weight(x) + double::weight(y)) as int,
            double::weight(d) as int,
        ) <= double::weight(x) + double::weight(y) + 0x10_0000_0000_0000,
{
    let (ax, bx) = (double::above(x) as int, double::below(x) as int);
    let (ay, by) = (double::above(y) as int, double::below(y) as int);
    let (wx, wy) = (double::weight(x) as int, double::weight(y) as int);
    let t = one() as int;
    lemma_one();
    double::lemma_weight(x);
    double::lemma_weight(y);
    double::lemma_below_positive(x, y);
    let p = ax * by + ay * bx;
    let q = bx * by;
    assert((ax * by + ay * bx) * t == (ax * t) * by + (ay * t) * bx) by (nonlinear_arith);
    assert((wx * bx) * by + (wy * by) * bx == (wx + wy) * (bx * by)) by (nonlinear_arith);
    assert(p * t == (wx + wy) * q);
    assert(p <= k * q) by (nonlinear_arith)
        requires
            p * t == (wx + wy) * q,
            wx + wy <= k * t,
            t >= 1,
            q >= 1,
    ;
    lemma_bounded(p as nat, q as nat, k);
    law_rounding_is_close(p as nat, q as nat);
    let d = double::nearest(p as nat, q as nat)->0;
    let wd = double::weight(d) as int;
    lemma_common(wx + wy, wd, q, 0x20_0000_0000_0000, 0x10_0000_0000_0000);
}

/// A common factor of both sides of a bound can be left out.
proof fn lemma_common(a: int, b: int, q: int, c: int, h: int)
    requires
        q > 0,
        c > 0,
        c * gap(a * q, b * q) <= a * q + h * q,
    ensures
        c * gap(a, b) <= a + h,
{
    assert(gap(a * q, b * q) == gap(a, b) * q) by {
        assert(a <= b ==> a * q <= b * q && b * q - a * q == (b - a) * q) by (nonlinear_arith)
            requires
                q > 0,
        ;
        assert(a > b ==> a * q > b * q && a * q - b * q == (a - b) * q) by (nonlinear_arith)
            requires
                q > 0,
        ;
    }
    let g = gap(a, b);
    assert(c * g <= a + h) by (nonlinear_arith)
        requires
            q > 0,
            c * (g * q) <= a * q + h * q,
    ;
}

/// A bound that is multiplied through.
proof fn lemma_through(a: int, b: int, t: int, c: int, h: int)
    requires
        t >= 0,
        c * gap(a, b) <= a + h,
    ensures
        c * gap(a * t, b * t) <= a * t + h * t,
{
    assert(gap(a * t, b * t) == gap(a, b) * t) by {
        assert(a <= b ==> a * t <= b * t && b * t - a * t == (b - a) * t) by (nonlinear_arith)
            requires
                t >= 0,
        ;
        assert(a > b ==> a * t >= b * t && a * t - b * t == (a - b) * t) by (nonlinear_arith)
            requires
                t >= 0,
        ;
    }
    let g = gap(a, b);
    assert(c * (g * t) <= a * t + h * t) by (nonlinear_arith)
        requires
            t >= 0,
            c * g <= a + h,
    ;
}

/// A product of floats is the exact product, rounded.
pub proof fn law_products_are_close(x: Double, y: Double, k: nat)
    requires
        x.wf(),
        y.wf(),
        double::weight(x) * double::weight(y) <= k * (one() * one()),
        k < 0x20_0000_0000_0000,
    ensures
        double::product(x, y) matches Some(d) && d.wf() && 0x20_0000_0000_0000 * gap(
            (double::weight(x) * double::weight(y)) as int,
            (double::weight(d) * one()) as int,
        ) <= double::weight(x) * double::weight(y) + 0x10_0000_0000_0000 * one(),
{
    let (ax, bx) = (double::above(x) as int, double::below(x) as int);
    let (ay, by) = (double::above(y) as int, double::below(y) as int);
    let (wx, wy) = (double::weight(x) as int, double::weight(y) as int);
    let t = one() as int;
    lemma_one();
    double::lemma_weight(x);
    double::lemma_weight(y);
    double::lemma_below_positive(x, y);
    let p = ax * ay;
    let q = bx * by;
    assert((p * t) * t == (wx * wy) * q) by (nonlinear_arith)
        requires
            p == ax * ay,
            q == bx * by,
            ax * t == wx * bx,
            ay * t == wy * by,
    ;
    assert(p <= k * q) by (nonlinear_arith)
        requires
            (p * t) * t == (wx * wy) * q,
            wx * wy <= k * (t * t),
            t >= 1,
            q >= 1,
    ;
    assert(p >= 0) by (nonlinear_arith)
        requires
            p == ax * ay,
            ax >= 0,
            ay >= 0,
    ;
    lemma_bounded(p as nat, q as nat, k);
    law_rounding_is_close(p as nat, q as nat);
    let d = double::nearest(p as nat, q as nat)->0;
    let wd = double::weight(d) as int;
    lemma_through(p * t, wd * q, t, 0x20_0000_0000_0000, 0x10_0000_0000_0000 * q);
    assert((wd * q) * t == (wd * t) * q) by (nonlinear_arith);
    assert((0x10_0000_0000_0000 * q) * t == (0x10_0000_0000_0000 * t) * q) by (nonlinear_arith);
    lemma_common(wx * wy, wd * t, q, 0x20_0000_0000_0000, 0x10_0000_0000_0000 * t);
}

/// A quotient of floats is the exact quotient, rounded.
pub proof fn law_quotients_are_close(x: Double, y: Double, k: nat)
    requires
        x.wf(),
        y.wf(),
        y.significand > 0,
        double::weight(x) <= k * double::weight(y),
        k < 0x20_0000_0000_0000,
    ensures
        double::quotient(x, y) matches Some(d) && d.wf() && double::weight(d) <= k * one()
            && 0x20_0000_0000_0000 * gap(
            (double::weight(x) * one()) as int,
            (double::weight(d) * double::weight(y)) as int,
        ) <= double::weight(x) * one() + 0x10_0000_0000_0000 * double::weight(y),
{
    let (ax, bx) = (double::above(x) as int, double::below(x) as int);
    let (ay, by) = (double::above(y) as int, double::below(y) as int);
    let (wx, wy) = (double::weight(x) as int, double::weight(y) as int);
    let t = one() as int;
    lemma_one();
    double::lemma_weight(x);
    double::lemma_weight(y);
    double::lemma_below_positive(x, y);
    double::lemma_size_positive(y);
    let p = ax * by;
    let q = bx * ay;
    let c = bx * by;
    assert(c > 0) by (nonlinear_arith)
        requires
            c == bx * by,
            bx > 0,
            by > 0,
    ;
    assert(q > 0) by (nonlinear_arith)
        requires
            q == bx * ay,
            bx > 0,
            ay > 0,
    ;
    assert(p >= 0) by (nonlinear_arith)
        requires
            p == ax * by,
            ax >= 0,
            by >= 0,
    ;
    assert(p * t == wx * c) by (nonlinear_arith)
        requires
            p == ax * by,
            c == bx * by,
            ax * t == wx * bx,
    ;
    assert(q * t == wy * c) by (nonlinear_arith)
        requires
            q == bx * ay,
            c == bx * by,
            ay * t == wy * by,
    ;
    assert(p <= k * q) by (nonlinear_arith)
        requires
            p * t == wx * c,
            q * t == wy * c,
            wx <= k * wy,
            t >= 1,
            c > 0,
    ;
    lemma_bounded(p as nat, q as nat, k);
    law_rounding_is_close(p as nat, q as nat);
    let d = double::nearest(p as nat, q as nat)->0;
    let wd = double::weight(d) as int;
    lemma_through(p * t, wd * q, t, 0x20_0000_0000_0000, 0x10_0000_0000_0000 * q);
    assert((p * t) * t == (wx * t) * c) by (nonlinear_arith)
        requires
            p * t == wx * c,
    ;
    assert((wd * q) * t == (wd * wy) * c) by (nonlinear_arith)
        requires
            q * t == wy * c,
    ;
    assert((0x10_0000_0000_0000 * q) * t == (0x10_0000_0000_0000 * wy) * c) by (nonlinear_arith)
        requires
            q * t == wy * c,
    ;
    lemma_common(wx * t, wd * wy, c, 0x20_0000_0000_0000, 0x10_0000_0000_0000 * wy);
}

/// So many thousandths are what they say, to a thousandth of a millionth of a thousandth.
pub proof fn law_thousandths_are_close(n: nat)
    requires
        n <= 0x1_0000_0000,
    ensures
        double::thousandths(n) matches Number::Finite { negative, size } && !negative && size.wf()
            && 0x10_0000 * gap((1000 * double::weight(size)) as int, (n * one()) as int) <= one()
            && (n <= 0x10_0000 ==> 0x1_0000_0000 * gap(
            (1000 * double::weight(size)) as int,
            (n * one()) as int,
        ) <= one()),
{
    lemma_one();
    double::lemma_thousandths(n, n);
    law_rounding_is_close(n, 1000);
    let w = double::weight(double::nearest(n, 1000)->0) as int;
    let t = one() as int;
    let g = gap(1000 * w, n * t);
    assert(gap(n * t, w * 1000) == g);
    assert(n * t <= 0x1_0000_0000 * t) by (nonlinear_arith)
        requires
            0 <= n <= 0x1_0000_0000,
            t >= 0,
    ;
    if n <= 0x10_0000 {
        assert(n * t <= 0x10_0000 * t) by (nonlinear_arith)
            requires
                0 <= n <= 0x10_0000,
                t >= 0,
        ;
    }
}

/// Thousandths are ordered as their counts, strictly.
pub proof fn law_thousandths_are_ordered(a: nat, b: nat)
    requires
        a <= 0x1_0000_0000,
        b <= 0x1_0000_0000,
    ensures
        double::less(double::thousandths(a), double::thousandths(b)) <==> a < b,
        double::at_most(double::thousandths(a), double::thousandths(b)) <==> a <= b,
{
    law_thousandths_are_close(a);
    law_thousandths_are_close(b);
    lemma_one();
    let x = double::nearest(a, 1000)->0;
    let y = double::nearest(b, 1000)->0;
    double::lemma_smaller_by_weight(x, y);
    double::lemma_smaller_by_weight(y, x);
    let t = one() as int;
    if a < b {
        assert(b * t >= a * t + t) by (nonlinear_arith)
            requires
                b >= a + 1,
                t >= 0,
        ;
    } else if b < a {
        assert(a * t >= b * t + t) by (nonlinear_arith)
            requires
                a >= b + 1,
                t >= 0,
        ;
    }
}

/// Rounding off goes to the whole number within a half, and from the middle up.
pub proof fn law_rounding_off_is_close(x: Double, most: nat)
    requires
        x.wf(),
    ensures
        ({
            let n = double::rounded_off(Number::Finite { negative: false, size: x }, most);
            &&& n <= most
            &&& n < most ==> 2 * gap((n * one()) as int, double::weight(x) as int) <= one()
            &&& n < most ==> (2 * n - 1) * one() <= 2 * double::weight(x) && 2 * double::weight(x)
                < (2 * n + 1) * one()
            &&& n == most ==> (2 * most - 1) * one() <= 2 * double::weight(x)
        }),
{
    let (a, b) = (double::above(x) as int, double::below(x) as int);
    let w = double::weight(x) as int;
    let t = one() as int;
    double::lemma_weight(x);
    double::lemma_below_positive(x, x);
    lemma_one();
    let m = (2 * a + b) / (2 * b);
    let r = (2 * a + b) % (2 * b);
    vstd::arithmetic::div_mod::lemma_fundamental_div_mod(2 * a + b, 2 * b);
    assert((2 * b) * m == 2 * (m * b)) by (nonlinear_arith);
    // b is within a factor of t, so the bound passes from one to the other
    assert(2 * (m * b) <= 2 * a + b && 2 * a < 2 * (m * b) + b);
    lemma_scaled_half(m, a, b, w, t);
    if m > most {
        assert((2 * most - 1) * t <= (2 * m - 1) * t) by (nonlinear_arith)
            requires
                most <= m,
                t >= 0,
        ;
    }
    assert((2 * m - 1) * t == 2 * (m * t) - t && (2 * m + 1) * t == 2 * (m * t) + t)
        by (nonlinear_arith);
}

proof fn lemma_scaled_half(m: int, a: int, b: int, w: int, t: int)
    requires
        b > 0,
        t > 0,
        a * t == w * b,
        2 * (m * b) <= 2 * a + b,
        2 * a < 2 * (m * b) + b,
    ensures
        2 * (m * t) - t <= 2 * w < 2 * (m * t) + t,
{
    assert((2 * (m * t) - t) * b <= (2 * w) * b) by (nonlinear_arith)
        requires
            t > 0,
            a * t == w * b,
            2 * (m * b) - b <= 2 * a,
    ;
    assert((2 * w) * b < (2 * (m * t) + t) * b) by (nonlinear_arith)
        requires
            t > 0,
            a * t == w * b,
            2 * a < 2 * (m * b) + b,
    ;
    let (lo, mid, hi) = (2 * (m * t) - t, 2 * w, 2 * (m * t) + t);
    assert(lo <= mid < hi) by (nonlinear_arith)
        requires
            lo * b <= mid * b,
            mid * b < hi * b,
            b > 0,
    ;
}

// ---------------------------------------------------------------- signs and order

/// A finite number in units of the smallest one.
pub open spec fn value(n: Number) -> int {
    match n {
        Number::Finite { negative, size } => if negative {
            -(double::weight(size) as int)
        } else {
            double::weight(size) as int
        },
        _ => 0,
    }
}

/// Finite numbers compare as their values; a zero has no sign that counts.
pub proof fn law_numbers_compare_by_value(a: Number, b: Number)
    requires
        a is Finite && a.wf(),
        b is Finite && b.wf(),
    ensures
        double::less(a, b) <==> value(a) < value(b),
        double::at_most(a, b) <==> value(a) <= value(b),
        double::is_positive(a) <==> value(a) > 0,
{
    double::lemma_smaller_by_weight(a->size, b->size);
    double::lemma_smaller_by_weight(b->size, a->size);
    lemma_weight_positive(a->size);
    lemma_weight_positive(b->size);
}

proof fn lemma_weight_positive(x: Double)
    ensures
        double::weight(x) > 0 <==> x.significand > 0,
{
    let s = x.significand as int;
    let t = pow2((x.exponent + 1074) as nat) as int;
    vstd::arithmetic::power2::lemma_pow2_pos((x.exponent + 1074) as nat);
    assert(s * t > 0 <==> s > 0) by (nonlinear_arith)
        requires
            t > 0,
            s >= 0,
    ;
}

/// Nothing is below, above or equal to what is not a number, and the infinities lie beyond
/// everything else.
pub proof fn law_what_lies_beyond_the_numbers(a: Number)
    ensures
        !double::less(a, Number::NotANumber) && !double::less(Number::NotANumber, a),
        !double::at_most(a, Number::NotANumber) && !double::at_most(Number::NotANumber, a),
        a is Finite ==> double::less(a, Number::PosInf) && double::less(Number::NegInf, a),
        a is Finite ==> !double::less(Number::PosInf, a) && !double::less(a, Number::NegInf),
        double::less(Number::NegInf, Number::PosInf),
        !double::less(Number::PosInf, Number::NegInf),
        !double::is_positive(Number::NotANumber) && !double::is_positive(Number::PosInf)
            && !double::is_positive(Number::NegInf),
{
}

/// Adding does not care for the order, taking away is adding the opposite, and what is taken from
/// itself leaves nothing.
pub proof fn law_sums_commute(a: Number, b: Number)
    requires
        a.wf(),
        b.wf(),
    ensures
        double::plus(a, b) == double::plus(b, a),
        double::minus(a, b) == double::plus(a, double::negated(b)),
        double::negated(double::negated(a)) == a,
        a is Finite ==> double::minus(a, a) == double::zero(),
        a is Finite ==> value(double::negated(a)) == -value(a),
{
    if a is Finite && b is Finite {
        double::lemma_smaller_by_weight(a->size, b->size);
        double::lemma_smaller_by_weight(b->size, a->size);
        double::lemma_smaller_by_weight(a->size, a->size);
        let (x, y) = (a->size, b->size);
        assert(double::sum(x, y) == double::sum(y, x)) by {
            let (p, q) = (double::above(x) as int, double::below(x) as int);
            let (r, s) = (double::above(y) as int, double::below(y) as int);
            assert(p * s + r * q == r * q + p * s && q * s == s * q) by (nonlinear_arith);
        }
    }
    if a is Finite {
        double::lemma_smaller_by_weight(a->size, a->size);
    }
}

/// Signs multiply: a product or a quotient of finite numbers is negative exactly when one of the
/// two is, and products do not care for the order.
pub proof fn law_signs_multiply(a: Number, b: Number)
    requires
        a is Finite,
        b is Finite,
    ensures
        double::times(a, b) == double::times(b, a),
        double::is_negative(double::times(a, b)) <==> a->negative != b->negative,
        b->size.significand > 0 ==> (double::is_negative(double::over(a, b)) <==> a->negative
            != b->negative),
{
    let (x, y) = (a->size, b->size);
    assert(double::product(x, y) == double::product(y, x)) by {
        let (p, q) = (double::above(x) as int, double::below(x) as int);
        let (r, s) = (double::above(y) as int, double::below(y) as int);
        assert(p * r == r * p && q * s == s * q) by (nonlinear_arith);
    }
}

/// A difference is off by half of the last bit at most.
pub proof fn law_differences_are_close(x: Double, y: Double, k: nat)
    requires
        x.wf(),
        y.wf(),
        double::weight(y) <= double::weight(x) <= k * one(),
        k < 0x20_0000_0000_0000,
    ensures
        double::difference(x, y) matches Some(d) && d.wf() && 0x20_0000_0000_0000 * gap(
            double::weight(x) - double::weight(y),
            double::weight(d) as int,
        ) <= double::weight(x) - double::weight(y) + 0x10_0000_0000_0000,
{
    let (ax, bx) = (double::above(x) as int, double::below(x) as int);
    let (ay, by) = (double::above(y) as int, double::below(y) as int);
    let (wx, wy) = (double::weight(x) as int, double::weight(y) as int);
    let t = one() as int;
    lemma_one();
    double::lemma_weight(x);
    double::lemma_weight(y);
    double::lemma_below_positive(x, y);
    let p = ax * by - ay * bx;
    let q = bx * by;
    assert((ax * by - ay * bx) * t == (ax * t) * by - (ay * t) * bx) by (nonlinear_arith);
    assert((wx * bx) * by - (wy * by) * bx == (wx - wy) * (bx * by)) by (nonlinear_arith);
    assert(p * t == (wx - wy) * q);
    assert(0 <= p <= k * q) by (nonlinear_arith)
        requires
            p * t == (wx - wy) * q,
            0 <= wx - wy <= k * t,
            t >= 1,
            q >= 1,
    ;
    lemma_bounded(p as nat, q as nat, k);
    law_rounding_is_close(p as nat, q as nat);
    let d = double::nearest(p as nat, q as nat)->0;
    let wd = double::weight(d) as int;
    lemma_common(wx - wy, wd, q, 0x20_0000_0000_0000, 0x10_0000_0000_0000);
}

/// Numbers add up as their values do, whatever their signs, to half of the last bit.
pub proof fn law_numbers_add_up(a: Number, b: Number, k: nat)
    requires
        a is Finite && a.wf(),
        b is Finite && b.wf(),
        double::weight(a->size) + double::weight(b->size) <= k * one(),
        k < 0x20_0000_0000_0000,
    ensures
        double::plus(a, b) is Finite,
        0x20_0000_0000_0000 * gap(value(a) + value(b), value(double::plus(a, b))) <= gap(
            value(a) + value(b),
            0,
        ) + 0x10_0000_0000_0000,
{
    let (x, y) = (a->size, b->size);
    double::lemma_smaller_by_weight(x, y);
    double::lemma_smaller_by_weight(y, x);
    if a->negative == b->negative {
        law_sums_are_close(x, y, k);
    } else if double::weight(x) < double::weight(y) {
        law_differences_are_close(y, x, k);
    } else if double::weight(y) < double::weight(x) {
        law_differences_are_close(x, y, k);
    } else {
        let none = double::zero_size();
        assert(double::weight(none) == 0) by {
            assert(0 * pow2((none.exponent + 1074) as nat) == 0) by (nonlinear_arith);
        }
    }
}

} // verus!
