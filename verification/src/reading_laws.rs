//! What a reading says, in the chip's own units: totals, ratio, plausibility, and the alerts.

use crate::decode;
use crate::decode::{Pin, Reading};
use crate::double;
use crate::double::Number;
use crate::double_laws;
use vstd::prelude::*;

verus! {

// ---------------------------------------------------------------- totals

/// The currents of the first `n` pins, in milliamps.
pub open spec fn milliamps(pins: Seq<Pin>, n: nat) -> nat
    decreases n,
{
    if n == 0 {
        0
    } else {
        milliamps(pins, (n - 1) as nat) + pins[n - 1].milliamps as nat
    }
}

/// The powers of the first `n` pins, in microwatts.
pub open spec fn microwatts(pins: Seq<Pin>, n: nat) -> nat
    decreases n,
{
    if n == 0 {
        0
    } else {
        microwatts(pins, (n - 1) as nat) + pins[n - 1].millivolts as nat * pins[n
            - 1].milliamps as nat
    }
}

proof fn lemma_total_amps(pins: Seq<Pin>, n: nat)
    requires
        n <= pins.len(),
        n <= 6,
    ensures
        milliamps(pins, n) <= 65_535 * n,
        decode::total_amps(pins.take(n as int)) matches Number::Finite { negative, size }
            && !negative && size.wf() && 0x8000_0000 * double_laws::gap(
            (1000 * double::weight(size)) as int,
            (milliamps(pins, n) * double_laws::one()) as int,
        ) <= n * double_laws::one(),
    decreases n,
{
    let t = double_laws::one() as int;
    double_laws::lemma_one();
    if n == 0 {
        let none = double::zero_size();
        assert(double::weight(none) == 0) by (nonlinear_arith)
            requires
                double::weight(none) == none.significand as nat * vstd::arithmetic::power2::pow2(
                    (none.exponent + 1074) as nat,
                ),
                none.significand == 0,
        ;
        assert(0 * t == 0) by (nonlinear_arith);
    } else {
        let before = (n - 1) as nat;
        lemma_total_amps(pins, before);
        assert(pins.take(n as int).drop_last() =~= pins.take(before as int));
        let ma = pins[n - 1].milliamps as nat;
        double_laws::law_thousandths_are_close(ma);
        let x = decode::total_amps(pins.take(before as int))->size;
        let y = double::thousandths(ma)->size;
        let (wx, wy) = (double::weight(x) as int, double::weight(y) as int);
        let had = milliamps(pins, before) as int;
        let all = milliamps(pins, n) as int;
        assert(all * t == had * t + ma * t) by (nonlinear_arith)
            requires
                all == had + ma,
        ;
        assert(all * t <= 393_210 * t) by (nonlinear_arith)
            requires
                all <= 393_210,
                t >= 0,
        ;
        assert(before * t <= 6 * t && n * t == before * t + t) by (nonlinear_arith)
            requires
                before <= 6,
                n == before + 1,
                t >= 0,
        ;
        assert(1000 * (wx + wy) <= 400_000 * t);
        double_laws::law_sums_are_close(x, y, 400);
    }
}

/// The total current is the sum of the six currents, to far less than a millionth of a milliamp.
pub proof fn law_the_total_is_the_sum(r: Reading)
    ensures
        decode::total_amps(r.pins@) matches Number::Finite { negative, size } && !negative
            && size.wf() && 0x1000_0000 * double_laws::gap(
            (1000 * double::weight(size)) as int,
            ((r.pins@[0].milliamps + r.pins@[1].milliamps + r.pins@[2].milliamps
                + r.pins@[3].milliamps + r.pins@[4].milliamps + r.pins@[5].milliamps)
                * double_laws::one()) as int,
        ) <= double_laws::one(),
{
    lemma_total_amps(r.pins@, 6);
    assert(r.pins@.take(6) =~= r.pins@);
    reveal_with_fuel(milliamps, 7);
}

/// A reading carries more than so many milliamps when its currents add up to more, and not when
/// they add up to less.
pub proof fn law_load_is_compared_as_added(r: Reading, limit: nat)
    requires
        limit <= 0x10_0000,
    ensures
        ({
            let sum = r.pins@[0].milliamps + r.pins@[1].milliamps + r.pins@[2].milliamps
                + r.pins@[3].milliamps + r.pins@[4].milliamps + r.pins@[5].milliamps;
            let total = decode::total_amps(r.pins@);
            &&& sum > limit ==> double::less(double::thousandths(limit), total)
            &&& sum < limit ==> double::less(total, double::thousandths(limit))
            &&& sum < limit ==> !double::less(double::thousandths(limit), total)
            &&& sum < limit ==> double::at_most(total, double::thousandths(limit))
            &&& sum > limit ==> !double::at_most(total, double::thousandths(limit))
        }),
{
    law_the_total_is_the_sum(r);
    double_laws::law_thousandths_are_close(limit);
    double_laws::lemma_one();
    let x = decode::total_amps(r.pins@)->size;
    let y = double::thousandths(limit)->size;
    double::lemma_smaller_by_weight(x, y);
    double::lemma_smaller_by_weight(y, x);
    let t = double_laws::one() as int;
    let sum = r.pins@[0].milliamps + r.pins@[1].milliamps + r.pins@[2].milliamps
        + r.pins@[3].milliamps + r.pins@[4].milliamps + r.pins@[5].milliamps;
    if sum > limit {
        assert(sum * t >= limit * t + t) by (nonlinear_arith)
            requires
                sum >= limit + 1,
                t >= 0,
        ;
    } else if sum < limit {
        assert(limit * t >= sum * t + t) by (nonlinear_arith)
            requires
                limit >= sum + 1,
                t >= 0,
        ;
    }
}

/// The power of a pin is its voltage times its current.
pub proof fn law_power_is_volts_times_amps(p: Pin)
    ensures
        decode::pin_watts(p) matches Number::Finite { negative, size } && !negative && size.wf()
            && 0x4000 * double_laws::gap(
            (1_000_000 * double::weight(size)) as int,
            (p.millivolts as nat * p.milliamps as nat * double_laws::one()) as int,
        ) <= double_laws::one(),
{
    let (mv, ma) = (p.millivolts as int, p.milliamps as int);
    let t = double_laws::one() as int;
    double_laws::lemma_one();
    double_laws::law_thousandths_are_close(mv as nat);
    double_laws::law_thousandths_are_close(ma as nat);
    let x = double::thousandths(mv as nat)->size;
    let y = double::thousandths(ma as nat)->size;
    let (wx, wy) = (double::weight(x) as int, double::weight(y) as int);
    let (e1, e2) = (1000 * wx - mv * t, 1000 * wy - ma * t);
    assert(0x1_0000_0000 * e1 <= t && -t <= 0x1_0000_0000 * e1);
    assert(0x1_0000_0000 * e2 <= t && -t <= 0x1_0000_0000 * e2);
    assert(1_000_000 * (wx * wy) == (mv * t + e1) * (ma * t + e2)) by (nonlinear_arith)
        requires
            1000 * wx == mv * t + e1,
            1000 * wy == ma * t + e2,
    ;
    lemma_expand(mv * t, e1, ma * t, e2);
    assert((mv * t) * (ma * t) == (mv * ma) * (t * t)) by (nonlinear_arith);
    lemma_small_term(mv, t, e2);
    lemma_small_term(ma, t, e1);
    assert(0x1_0000_0000 * (e1 * e2) <= t * t && -(t * t) <= 0x1_0000_0000 * (e1 * e2))
        by (nonlinear_arith)
        requires
            0x1_0000_0000 * e1 <= t,
            -t <= 0x1_0000_0000 * e1,
            e2 <= t,
            -t <= e2,
            t >= 0,
    ;
    let tt = t * t;
    assert(tt >= t) by (nonlinear_arith)
        requires
            tt == t * t,
            t >= 1,
    ;
    let exact = (mv * ma) * tt;
    assert(mv * ma <= 65_535 * 65_535) by (nonlinear_arith)
        requires
            0 <= mv <= 65_535,
            0 <= ma <= 65_535,
    ;
    assert(exact <= 0x1_0000_0000 * tt) by (nonlinear_arith)
        requires
            exact == (mv * ma) * tt,
            mv * ma <= 0x1_0000_0000,
            tt >= 0,
    ;
    let ww = wx * wy;
    assert(1_000_000 * ww <= 0x1_0001_0000 * tt);
    assert(ww <= 0x1_0001 * tt);
    double_laws::law_products_are_close(x, y, 0x1_0001);
    let d = double::product(x, y)->0;
    let wd = double::weight(d) as int;
    // both errors together
    assert(0x20_0000_0000_0000 * double_laws::gap(ww, wd * t) <= ww + 0x10_0000_0000_0000 * t);
    assert(0x10_0000_0000_0000 * t <= tt) by {
        vstd::arithmetic::power2::lemma2_to64();
        assert(0x10_0000_0000_0000 * t <= tt) by (nonlinear_arith)
            requires
                tt == t * t,
                t >= 0x1_0000_0000_0000_0000,
        ;
    }
    let mid = 1_000_000 * (wd * t);
    assert(0x10_0000 * double_laws::gap(1_000_000 * ww, mid) <= tt);
    assert(0x4000 * double_laws::gap(mid, exact) <= tt);
    let near = 1_000_000 * wd;
    let want = (mv * ma) * t;
    assert(mid == near * t) by (nonlinear_arith)
        requires
            mid == 1_000_000 * (wd * t),
            near == 1_000_000 * wd,
    ;
    assert(exact == want * t) by (nonlinear_arith)
        requires
            exact == (mv * ma) * tt,
            tt == t * t,
            want == (mv * ma) * t,
    ;
    lemma_divide(near, want, t, 0x4000);
}

proof fn lemma_total_watts(pins: Seq<Pin>, n: nat)
    requires
        n <= pins.len(),
        n <= 6,
    ensures
        microwatts(pins, n) <= 0x1_0000_0000 * n,
        decode::total_watts(pins.take(n as int)) matches Number::Finite { negative, size }
            && !negative && size.wf() && 0x2000 * double_laws::gap(
            (1_000_000 * double::weight(size)) as int,
            (microwatts(pins, n) * double_laws::one()) as int,
        ) <= n * double_laws::one(),
    decreases n,
{
    let t = double_laws::one() as int;
    double_laws::lemma_one();
    if n == 0 {
        let none = double::zero_size();
        assert(double::weight(none) == 0) by (nonlinear_arith)
            requires
                double::weight(none) == none.significand as nat * vstd::arithmetic::power2::pow2(
                    (none.exponent + 1074) as nat,
                ),
                none.significand == 0,
        ;
        assert(0 * t == 0) by (nonlinear_arith);
    } else {
        let before = (n - 1) as nat;
        lemma_total_watts(pins, before);
        assert(pins.take(n as int).drop_last() =~= pins.take(before as int));
        let p = pins[n - 1];
        law_power_is_volts_times_amps(p);
        let uw = p.millivolts as int * p.milliamps as int;
        assert(0 <= uw <= 0x1_0000_0000) by (nonlinear_arith)
            requires
                uw == p.millivolts as int * p.milliamps as int,
                0 <= p.millivolts <= 65_535,
                0 <= p.milliamps <= 65_535,
        ;
        let x = decode::total_watts(pins.take(before as int))->size;
        let y = decode::pin_watts(p)->size;
        let (wx, wy) = (double::weight(x) as int, double::weight(y) as int);
        let had = microwatts(pins, before) as int;
        let all = microwatts(pins, n) as int;
        assert(all * t == had * t + uw * t) by (nonlinear_arith)
            requires
                all == had + uw,
        ;
        assert(all * t <= 0x6_0000_0000 * t) by (nonlinear_arith)
            requires
                all <= 0x6_0000_0000,
                t >= 0,
        ;
        assert(before * t <= 6 * t && n * t == before * t + t) by (nonlinear_arith)
            requires
                before <= 6,
                n == before + 1,
                t >= 0,
        ;
        assert(1_000_000 * (wx + wy) <= 0x6_1000_0000 * t);
        double_laws::law_sums_are_close(x, y, 0x1_0000);
    }
}

/// The total power is the sum of voltage times current over the six pins, to a thousandth of a
/// microwatt.
pub proof fn law_the_power_is_the_sum(r: Reading)
    ensures
        decode::total_watts(r.pins@) matches Number::Finite { negative, size } && !negative
            && size.wf() && 0x400 * double_laws::gap(
            (1_000_000 * double::weight(size)) as int,
            ((r.pins@[0].millivolts as nat * r.pins@[0].milliamps as nat
                + r.pins@[1].millivolts as nat * r.pins@[1].milliamps as nat
                + r.pins@[2].millivolts as nat * r.pins@[2].milliamps as nat
                + r.pins@[3].millivolts as nat * r.pins@[3].milliamps as nat
                + r.pins@[4].millivolts as nat * r.pins@[4].milliamps as nat
                + r.pins@[5].millivolts as nat * r.pins@[5].milliamps as nat)
                * double_laws::one()) as int,
        ) <= double_laws::one(),
{
    lemma_total_watts(r.pins@, 6);
    assert(r.pins@.take(6) =~= r.pins@);
    reveal_with_fuel(microwatts, 7);
}

// ---------------------------------------------------------------- extremes and balance

/// Every pin lies between the extremes, and each of them is the current or voltage of a pin.
pub proof fn law_extremes_are_those_of_pins(r: Reading, i: int)
    requires
        0 <= i < 6,
    ensures
        decode::min_amps(r.pins@) <= r.pins@[i].milliamps <= decode::max_amps(r.pins@),
        decode::min_volts(r.pins@) <= r.pins@[i].millivolts <= decode::max_volts(r.pins@),
        exists|j: int|
            0 <= j < 6 && (#[trigger] r.pins@[j]).milliamps == decode::min_amps(r.pins@),
        exists|j: int|
            0 <= j < 6 && (#[trigger] r.pins@[j]).milliamps == decode::max_amps(r.pins@),
        exists|j: int|
            0 <= j < 6 && (#[trigger] r.pins@[j]).millivolts == decode::min_volts(r.pins@),
        exists|j: int|
            0 <= j < 6 && (#[trigger] r.pins@[j]).millivolts == decode::max_volts(r.pins@),
{
    decode::law_extremes(r);
}

/// A reading is plausible exactly when no pin is above 20 V and some pin is at 5 V or more.
pub proof fn law_plausible_means_a_rail(r: Reading)
    ensures
        decode::is_plausible(r.pins@) <==> (forall|i: int|
            0 <= i < 6 ==> (#[trigger] r.pins@[i]).millivolts <= 20_000) && (exists|i: int|
            0 <= i < 6 && (#[trigger] r.pins@[i]).millivolts >= 5_000),
{
    decode::law_extremes(r);
    let m = decode::max_volts(r.pins@);
    let k = choose|k: int| 0 <= k < 6 && (#[trigger] r.pins@[k]).millivolts == m;
    assert(r.pins@[k].millivolts == m);
}

/// There is a ratio exactly when every pin carries more than 50 mA, and it is the highest current
/// over the lowest: no pin is above it and none below, whichever pins those are.
pub proof fn law_the_ratio_is_highest_over_lowest(r: Reading, hi: int, lo: int)
    requires
        0 <= hi < 6,
        0 <= lo < 6,
        forall|i: int| 0 <= i < 6 ==> (#[trigger] r.pins@[i]).milliamps <= r.pins@[hi].milliamps,
        forall|i: int| 0 <= i < 6 ==> r.pins@[lo].milliamps <= (#[trigger] r.pins@[i]).milliamps,
    ensures
        decode::balance(r.pins@) is Some <==> r.pins@[lo].milliamps > 50,
        decode::balance(r.pins@) matches Some(b) ==> (b matches Number::Finite { negative, size }
            && !negative && size.wf() && 0x1_0000 * double_laws::gap(
            (double::weight(size) * r.pins@[lo].milliamps) as int,
            (r.pins@[hi].milliamps * double_laws::one()) as int,
        ) <= double_laws::one()),
{
    decode::law_extremes(r);
    let (a, b) = (r.pins@[hi].milliamps as int, r.pins@[lo].milliamps as int);
    let top = choose|k: int|
        0 <= k < 6 && (#[trigger] r.pins@[k]).milliamps == decode::max_amps(r.pins@);
    let low = choose|k: int|
        0 <= k < 6 && (#[trigger] r.pins@[k]).milliamps == decode::min_amps(r.pins@);
    assert(r.pins@[top].milliamps <= a);
    assert(r.pins@[low].milliamps >= b);
    if b > 50 {
        let t = double_laws::one() as int;
        double_laws::lemma_one();
        double_laws::law_thousandths_are_close(a as nat);
        double_laws::law_thousandths_are_close(b as nat);
        double::lemma_thousandths(b as nat, b as nat);
        let x = double::thousandths(a as nat)->size;
        let y = double::thousandths(b as nat)->size;
        let (wx, wy) = (double::weight(x) as int, double::weight(y) as int);
        let (e1, e2) = (1000 * wx - a * t, 1000 * wy - b * t);
        assert(b * t >= 51 * t && a * t <= 65_535 * t && b * t <= 65_535 * t) by (nonlinear_arith)
            requires
                51 <= b <= 65_535,
                a <= 65_535,
                t >= 0,
        ;
        assert(wx <= 1300 * wy);
        double_laws::law_quotients_are_close(x, y, 1300);
        let d = double::quotient(x, y)->0;
        let wd = double::weight(d) as int;
        let tt = t * t;
        assert(wx * t <= 66 * tt && 1000 * (wx * t) == (a * t) * t + e1 * t) by (nonlinear_arith)
            requires
                1000 * wx == a * t + e1,
                wx <= 66 * t,
                tt == t * t,
                t >= 0,
        ;
        assert(1000 * (wd * wy) == wd * (b * t) + wd * e2) by (nonlinear_arith)
            requires
                1000 * wy == b * t + e2,
        ;
        assert(0x20_0000 * (wd * e2) <= tt && -tt <= 0x20_0000 * (wd * e2)) by (nonlinear_arith)
            requires
                0 <= wd <= 1300 * t,
                0x1_0000_0000 * e2 <= t,
                -t <= 0x1_0000_0000 * e2,
                tt == t * t,
                t >= 0,
        ;
        assert(0x1_0000_0000 * (e1 * t) <= tt && -tt <= 0x1_0000_0000 * (e1 * t))
            by (nonlinear_arith)
            requires
                0x1_0000_0000 * e1 <= t,
                -t <= 0x1_0000_0000 * e1,
                tt == t * t,
                t >= 0,
        ;
        assert(0x10_0000_0000_0000 * wy <= tt) by (nonlinear_arith)
            requires
                0 <= wy <= 66 * t,
                tt == t * t,
                t >= 0x1_0000_0000_0000_0000,
        ;
        assert(wd * (b * t) == (wd * b) * t) by (nonlinear_arith);
        assert(0x1_0000 * double_laws::gap((wd * b) * t, (a * t) * t) <= tt);
        lemma_divide(wd * b, a * t, t, 0x1_0000);
    }
}

proof fn lemma_expand(a: int, b: int, c: int, d: int)
    ensures
        (a + b) * (c + d) == a * c + a * d + c * b + b * d,
{
    assert((a + b) * (c + d) == a * c + a * d + c * b + b * d) by (nonlinear_arith);
}

proof fn lemma_small_term(m: int, t: int, e: int)
    requires
        0 <= m <= 65_535,
        t >= 0,
        0x1_0000_0000 * e <= t,
        -t <= 0x1_0000_0000 * e,
    ensures
        0x1_0000 * ((m * t) * e) <= t * t,
        -(t * t) <= 0x1_0000 * ((m * t) * e),
{
    let a = m * e;
    assert(0x1_0000 * a <= t && -t <= 0x1_0000 * a) by (nonlinear_arith)
        requires
            a == m * e,
            0 <= m <= 65_535,
            0x1_0000_0000 * e <= t,
            -t <= 0x1_0000_0000 * e,
    ;
    assert((m * t) * e == a * t) by (nonlinear_arith)
        requires
            a == m * e,
    ;
    assert(0x1_0000 * (a * t) <= t * t && -(t * t) <= 0x1_0000 * (a * t)) by (nonlinear_arith)
        requires
            0x1_0000 * a <= t,
            -t <= 0x1_0000 * a,
            t >= 0,
    ;
}

proof fn lemma_divide(a: int, b: int, t: int, c: int)
    requires
        t > 0,
        c > 0,
        c * double_laws::gap(a * t, b * t) <= t * t,
    ensures
        c * double_laws::gap(a, b) <= t,
{
    assert(double_laws::gap(a * t, b * t) == double_laws::gap(a, b) * t) by {
        assert(a <= b ==> a * t <= b * t && b * t - a * t == (b - a) * t) by (nonlinear_arith)
            requires
                t > 0,
        ;
        assert(a > b ==> a * t > b * t && a * t - b * t == (a - b) * t) by (nonlinear_arith)
            requires
                t > 0,
        ;
    }
    let g = double_laws::gap(a, b);
    assert(c * g <= t) by (nonlinear_arith)
        requires
            t > 0,
            c * (g * t) <= t * t,
    ;
}

} // verus!
