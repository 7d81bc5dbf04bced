//! Binary floating point of double precision, in whole numbers.
//!
//! A [`Number`] is what a 64-bit float holds. Sums, products, quotients and decimals are the exact
//! result rounded once to the nearest such number, a half to the even one; texts are made of the
//! exact value. That is what the hardware and the standard library compute, so limits are met and
//! digits are printed exactly as with floats.

use crate::big;
use crate::number;
use crate::number::{digit_of, find_exponent, read_exponent, read_mantissa};
use crate::text;
use crate::text::{chars_of, lower, pad_left, same_text, slice_of, text_of};
use vstd::arithmetic::power2;
use vstd::arithmetic::power2::pow2;
use vstd::prelude::*;

verus! {

/// One more than the largest significand.
pub const SIGNIFICANDS: u64 = 0x20_0000_0000_0000;

/// The smallest significand above the smallest exponent.
pub const LEAST_NORMAL: u64 = 0x10_0000_0000_0000;

/// The smallest exponent.
pub const LEAST_EXPONENT: i32 = -1074;

/// The largest exponent.
pub const MOST_EXPONENT: i32 = 971;

/// A finite number without its sign: `significand * 2^exponent`.
#[derive(Debug, Clone, Copy, PartialEq, Eq, Structural)]
pub struct Double {
    pub significand: u64,
    pub exponent: i32,
}

/// How often a number is doubled from its significand.
pub open spec fn ups(x: Double) -> nat {
    if x.exponent >= 0 {
        x.exponent as nat
    } else {
        0
    }
}

/// How often a number is halved from its significand.
pub open spec fn downs(x: Double) -> nat {
    if x.exponent >= 0 {
        0
    } else {
        (-x.exponent) as nat
    }
}

/// The number is `above(x) / below(x)`.
pub open spec fn above(x: Double) -> nat {
    x.significand as nat * pow2(ups(x))
}

/// The number is `above(x) / below(x)`.
pub open spec fn below(x: Double) -> nat {
    pow2(downs(x))
}

impl Double {
    /// The significand has all its bits, unless the exponent is the smallest; so every number is
    /// written in one way.
    pub open spec fn wf(self) -> bool {
        &&& self.significand < SIGNIFICANDS
        &&& LEAST_EXPONENT <= self.exponent <= MOST_EXPONENT
        &&& self.exponent > LEAST_EXPONENT ==> self.significand >= LEAST_NORMAL
    }
}

// ---------------------------------------------------------------- rounding

/// Whether `p / q` is below `2^53 * 2^e`, so that it has a significand at that exponent.
pub open spec fn fits(p: nat, q: nat, e: int) -> bool {
    p * pow2(1074) < q * pow2((1127 + e) as nat)
}

/// The exponent at which `p / q` is rounded: the smallest at which it fits.
pub open spec fn is_exponent(p: nat, q: nat, e: int) -> bool {
    &&& LEAST_EXPONENT <= e
    &&& fits(p, q, e)
    &&& e == LEAST_EXPONENT || !fits(p, q, e - 1)
}

/// `p / q` in units of `2^e`, rounded, a half to the even neighbour.
pub open spec fn significand(p: nat, q: nat, e: int) -> nat {
    if e < 0 {
        number::rounded(p * pow2((-e) as nat), q)
    } else {
        number::rounded(p, q * pow2(e as nat))
    }
}

/// The number nearest to `p / q`, a half to the even one; none when that is infinite.
pub open spec fn nearest(p: nat, q: nat) -> Option<Double> {
    if !fits(p, q, MOST_EXPONENT as int) {
        None
    } else {
        let e = choose|e: int| is_exponent(p, q, e);
        let m = significand(p, q, e);
        if m < SIGNIFICANDS {
            Some(Double { significand: m as u64, exponent: e as i32 })
        } else if e < MOST_EXPONENT {
            Some(Double { significand: LEAST_NORMAL, exponent: (e + 1) as i32 })
        } else {
            None
        }
    }
}

pub proof fn lemma_powers(a: nat, b: nat)
    ensures
        pow2(a) >= 1,
        pow2(a + b) == pow2(a) * pow2(b),
        a <= b ==> pow2(a) <= pow2(b),
{
    power2::lemma_pow2_pos(a);
    power2::lemma_pow2_adds(a, b);
    if a < b {
        power2::lemma_pow2_strictly_increases(a, b);
    }
}

/// What fits at an exponent fits at every larger one.
pub proof fn lemma_fits_grows(p: nat, q: nat, e: int, f: int)
    requires
        -1127 <= e <= f,
        fits(p, q, e),
    ensures
        fits(p, q, f),
{
    lemma_powers((1127 + e) as nat, (1127 + f) as nat);
    let a = pow2((1127 + e) as nat) as int;
    let b = pow2((1127 + f) as nat) as int;
    assert(q * a <= q * b) by (nonlinear_arith)
        requires
            a <= b,
            q >= 0,
    ;
}

/// There is one exponent only.
proof fn lemma_exponent(p: nat, q: nat, e: int)
    requires
        is_exponent(p, q, e),
    ensures
        (choose|x: int| is_exponent(p, q, x)) == e,
{
    let x = choose|x: int| is_exponent(p, q, x);
    assert(is_exponent(p, q, x));
    if x < e {
        lemma_fits_grows(p, q, x, e - 1);
    } else if e < x {
        lemma_fits_grows(p, q, e, x - 1);
    }
}

proof fn lemma_rounded_at_most(p: nat, q: nat, k: nat)
    requires
        q > 0,
        p <= k * q,
    ensures
        number::rounded(p, q) <= k,
{
    let d = p / q;
    let r = p % q;
    assert(p == d * q + r && r < q) by {
        vstd::arithmetic::div_mod::lemma_fundamental_div_mod(p as int, q as int);
        assert(d * q == q * d) by (nonlinear_arith);
    }
    assert(d <= k && (d == k ==> r == 0)) by (nonlinear_arith)
        requires
            d * q + r <= k * q,
            q > 0,
            r >= 0,
    ;
}

proof fn lemma_rounded_at_least(p: nat, q: nat, k: nat)
    requires
        q > 0,
        p >= k * q,
    ensures
        number::rounded(p, q) >= k,
{
    let d = p / q;
    let r = p % q;
    assert(p == d * q + r && r < q) by {
        vstd::arithmetic::div_mod::lemma_fundamental_div_mod(p as int, q as int);
        assert(d * q == q * d) by (nonlinear_arith);
    }
    assert(d >= k) by (nonlinear_arith)
        requires
            d * q + r >= k * q,
            r < q,
            q > 0,
    ;
}

/// What fits at an exponent has a significand of at most 53 bits there, or rounds up to the
/// first that has 54.
proof fn lemma_significand_fits(p: nat, q: nat, e: int)
    requires
        q > 0,
        LEAST_EXPONENT <= e,
        fits(p, q, e),
    ensures
        significand(p, q, e) <= SIGNIFICANDS,
{
    power2::lemma2_to64_rest();
    let s = pow2(53) as int;
    if e < 0 {
        let a = (1074 + e) as nat;
        let b = (-e) as nat;
        lemma_powers(a, b);
        lemma_powers(a, 53);
        let x = pow2(a) as int;
        let y = pow2(b) as int;
        assert(p * y < q * s) by (nonlinear_arith)
            requires
                p * (x * y) < q * (x * s),
                x >= 1,
        ;
        assert(s * q == q * s) by (nonlinear_arith);
        lemma_rounded_at_most(p * pow2(b), q, pow2(53));
    } else {
        lemma_powers(1074, (53 + e) as nat);
        lemma_powers(53, e as nat);
        lemma_powers(e as nat, 0);
        let x = pow2(1074) as int;
        let y = pow2(e as nat) as int;
        assert(p < (q * y) * s) by (nonlinear_arith)
            requires
                p * x < q * (x * (s * y)),
                x >= 1,
        ;
        assert((q * y) * s == s * (q * y)) by (nonlinear_arith);
        assert(q * y > 0) by (nonlinear_arith)
            requires
                q > 0,
                y >= 1,
        ;
        lemma_rounded_at_most(p, q * pow2(e as nat), pow2(53));
    }
}

/// What does not fit one exponent lower has a significand of at least 53 bits.
proof fn lemma_significand_fills(p: nat, q: nat, e: int)
    requires
        q > 0,
        LEAST_EXPONENT < e,
        !fits(p, q, e - 1),
    ensures
        significand(p, q, e) >= LEAST_NORMAL,
{
    power2::lemma2_to64_rest();
    let s = pow2(52) as int;
    if e < 0 {
        let a = (1074 + e) as nat;
        let b = (-e) as nat;
        lemma_powers(a, b);
        lemma_powers(a, 52);
        let x = pow2(a) as int;
        let y = pow2(b) as int;
        assert(p * y >= q * s) by (nonlinear_arith)
            requires
                p * (x * y) >= q * (x * s),
                x >= 1,
        ;
        assert(s * q == q * s) by (nonlinear_arith);
        lemma_rounded_at_least(p * pow2(b), q, pow2(52));
    } else {
        lemma_powers(1074, (52 + e) as nat);
        lemma_powers(52, e as nat);
        lemma_powers(e as nat, 0);
        let x = pow2(1074) as int;
        let y = pow2(e as nat) as int;
        assert(p >= (q * y) * s) by (nonlinear_arith)
            requires
                p * x >= q * (x * (s * y)),
                x >= 1,
        ;
        assert((q * y) * s == s * (q * y)) by (nonlinear_arith);
        assert(q * y > 0) by (nonlinear_arith)
            requires
                q > 0,
                y >= 1,
        ;
        lemma_rounded_at_least(p, q * pow2(e as nat), pow2(52));
    }
}

/// The exponent at which `p / q` is rounded.
fn exponent_of(p: &Vec<u32>, q: &Vec<u32>) -> (r: Option<i32>)
    requires
        big::value(q@) > 0,
    ensures
        match r {
            Some(e) => is_exponent(big::value(p@), big::value(q@), e as int) && e
                <= MOST_EXPONENT && fits(
                big::value(p@),
                big::value(q@),
                MOST_EXPONENT as int,
            ),
            None => !fits(big::value(p@), big::value(q@), MOST_EXPONENT as int),
        },
{
    let ghost pv = big::value(p@);
    let ghost qv = big::value(q@);
    let scaled = big::doubled(p, 1074);
    if !big::less(&scaled, &big::doubled(q, 2098)) {
        return None;
    }
    let mut e: i32 = LEAST_EXPONENT;
    let mut bound = big::doubled(q, 53);
    let mut far = big::doubled(&bound, 32);
    proof {
        lemma_powers(53, 32);
        let a = pow2(53) as int;
        let b = pow2(32) as int;
        assert((qv * a) * b == qv * (a * b)) by (nonlinear_arith);
    }
    while !big::less(&scaled, &far)
        invariant
            LEAST_EXPONENT <= e <= MOST_EXPONENT,
            pv == big::value(p@),
            qv == big::value(q@),
            big::value(scaled@) == pv * pow2(1074),
            big::value(bound@) == qv * pow2((1127 + e) as nat),
            big::value(far@) == qv * pow2((1127 + e + 32) as nat),
            e == LEAST_EXPONENT || !fits(pv, qv, e - 1),
            fits(pv, qv, MOST_EXPONENT as int),
        decreases MOST_EXPONENT - e,
    {
        proof {
            if e + 32 > MOST_EXPONENT {
                lemma_fits_grows(pv, qv, MOST_EXPONENT as int, e + 32);
            }
            if fits(pv, qv, e + 31) {
                lemma_fits_grows(pv, qv, e + 31, e + 32);
            }
            lemma_powers((1127 + e + 32) as nat, 32);
            let a = pow2((1127 + e + 32) as nat) as int;
            let b = pow2(32) as int;
            assert((qv * a) * b == qv * (a * b)) by (nonlinear_arith);
        }
        bound = far;
        e = e + 32;
        far = big::doubled(&bound, 32);
    }
    while !big::less(&scaled, &bound)
        invariant
            LEAST_EXPONENT <= e <= MOST_EXPONENT,
            pv == big::value(p@),
            qv == big::value(q@),
            big::value(scaled@) == pv * pow2(1074),
            big::value(bound@) == qv * pow2((1127 + e) as nat),
            e == LEAST_EXPONENT || !fits(pv, qv, e - 1),
            fits(pv, qv, MOST_EXPONENT as int),
        decreases MOST_EXPONENT - e,
    {
        proof {
            assert(!fits(pv, qv, e as int));
            lemma_powers((1127 + e) as nat, 1);
            power2::lemma2_to64();
            let a = pow2((1127 + e) as nat) as int;
            assert((qv * a) * 2 == qv * (a * 2)) by (nonlinear_arith);
        }
        bound = big::times_plus(&bound, 2, 0);
        e = e + 1;
    }
    Some(e)
}

/// The number nearest to `p / q`.
pub fn nearest_to(p: &Vec<u32>, q: &Vec<u32>) -> (r: Option<Double>)
    requires
        big::value(q@) > 0,
    ensures
        r == nearest(big::value(p@), big::value(q@)),
        r matches Some(x) ==> x.wf(),
{
    let ghost pv = big::value(p@);
    let ghost qv = big::value(q@);
    match exponent_of(p, q) {
        None => None,
        Some(e) => {
            proof {
                lemma_exponent(pv, qv, e as int);
                lemma_significand_fits(pv, qv, e as int);
                if e > LEAST_EXPONENT {
                    lemma_significand_fills(pv, qv, e as int);
                }
                if e >= 0 {
                    lemma_powers(e as nat, 0);
                    let y = pow2(e as nat) as int;
                    assert(qv * y > 0) by (nonlinear_arith)
                        requires
                            qv > 0,
                            y >= 1,
                    ;
                }
            }
            let m: u64 = if e < 0 {
                big::as_small(&big::nearest_whole(&big::doubled(p, (-e) as u64), q))
            } else {
                big::as_small(&big::nearest_whole(p, &big::doubled(q, e as u64)))
            };
            if m < SIGNIFICANDS {
                Some(Double { significand: m, exponent: e })
            } else if e < MOST_EXPONENT {
                Some(Double { significand: LEAST_NORMAL, exponent: e + 1 })
            } else {
                None
            }
        },
    }
}

// ---------------------------------------------------------------- arithmetic without signs

/// `x + y`.
pub open spec fn sum(x: Double, y: Double) -> Option<Double> {
    nearest(above(x) * below(y) + above(y) * below(x), below(x) * below(y))
}

/// `x - y`, for a `y` that is no larger.
pub open spec fn difference(x: Double, y: Double) -> Option<Double> {
    nearest((above(x) * below(y) - above(y) * below(x)) as nat, below(x) * below(y))
}

/// `x * y`.
pub open spec fn product(x: Double, y: Double) -> Option<Double> {
    nearest(above(x) * above(y), below(x) * below(y))
}

/// `x / y`, for a `y` above zero.
pub open spec fn quotient(x: Double, y: Double) -> Option<Double> {
    nearest(above(x) * below(y), below(x) * above(y))
}

/// `x < y`.
pub open spec fn smaller(x: Double, y: Double) -> bool {
    above(x) * below(y) < above(y) * below(x)
}

pub proof fn lemma_below_positive(x: Double, y: Double)
    ensures
        below(x) > 0,
        below(x) * below(y) > 0,
        y.significand > 0 ==> below(x) * above(y) > 0,
{
    lemma_powers(downs(x), 0);
    lemma_powers(downs(y), 0);
    lemma_powers(ups(y), 0);
    let a = below(x) as int;
    let b = below(y) as int;
    let m = y.significand as int;
    let u = pow2(ups(y)) as int;
    assert(a * b > 0) by (nonlinear_arith)
        requires
            a >= 1,
            b >= 1,
    ;
    if m > 0 {
        assert(a * (m * u) > 0) by (nonlinear_arith)
            requires
                a >= 1,
                m >= 1,
                u >= 1,
        ;
    }
}

fn ups_of(x: Double) -> (n: u64)
    ensures
        n == ups(x),
{
    if x.exponent >= 0 {
        x.exponent as u64
    } else {
        0
    }
}

fn downs_of(x: Double) -> (n: u64)
    ensures
        n == downs(x),
{
    if x.exponent >= 0 {
        0
    } else {
        (-(x.exponent as i64)) as u64
    }
}

fn above_of(x: Double) -> (v: Vec<u32>)
    ensures
        big::value(v@) == above(x),
{
    big::doubled(&big::small(x.significand), ups_of(x))
}

fn below_of(x: Double) -> (v: Vec<u32>)
    ensures
        big::value(v@) == below(x),
        big::value(v@) > 0,
{
    proof {
        lemma_below_positive(x, x);
        assert(1 * below(x) == below(x)) by (nonlinear_arith);
    }
    big::doubled(&big::small(1), downs_of(x))
}

fn both_below(x: Double, y: Double) -> (v: Vec<u32>)
    ensures
        big::value(v@) == below(x) * below(y),
        big::value(v@) > 0,
{
    proof {
        lemma_below_positive(x, y);
    }
    big::doubled(&below_of(x), downs_of(y))
}

fn crossed(x: Double, y: Double) -> (v: Vec<u32>)
    ensures
        big::value(v@) == above(x) * below(y),
{
    big::doubled(&above_of(x), downs_of(y))
}

fn add_sizes(x: Double, y: Double) -> (r: Option<Double>)
    ensures
        r == sum(x, y),
        r matches Some(d) ==> d.wf(),
{
    nearest_to(&big::plus(&crossed(x, y), &crossed(y, x)), &both_below(x, y))
}

fn subtract_sizes(x: Double, y: Double) -> (r: Option<Double>)
    requires
        !smaller(x, y),
    ensures
        r == difference(x, y),
        r matches Some(d) ==> d.wf(),
{
    match big::minus(&crossed(x, y), &crossed(y, x)) {
        Some(v) => nearest_to(&v, &both_below(x, y)),
        None => None,
    }
}

fn multiply_sizes(x: Double, y: Double) -> (r: Option<Double>)
    ensures
        r == product(x, y),
        r matches Some(d) ==> d.wf(),
{
    assert(x.significand * y.significand <= u64::MAX * u64::MAX) by (nonlinear_arith)
        requires
            0 <= x.significand <= u64::MAX,
            0 <= y.significand <= u64::MAX,
    ;
    let m: u128 = x.significand as u128 * y.significand as u128;
    let v = big::doubled(&big::doubled(&big::wide(m), ups_of(x)), ups_of(y));
    proof {
        let a = x.significand as int;
        let b = y.significand as int;
        let p = pow2(ups(x)) as int;
        let q = pow2(ups(y)) as int;
        assert(((a * b) * p) * q == (a * p) * (b * q)) by (nonlinear_arith);
    }
    nearest_to(&v, &both_below(x, y))
}

fn divide_sizes(x: Double, y: Double) -> (r: Option<Double>)
    requires
        y.significand > 0,
    ensures
        r == quotient(x, y),
        r matches Some(d) ==> d.wf(),
{
    proof {
        lemma_below_positive(x, y);
        assert(above(y) * below(x) == below(x) * above(y)) by (nonlinear_arith);
    }
    nearest_to(&crossed(x, y), &crossed(y, x))
}

fn is_smaller(x: Double, y: Double) -> (r: bool)
    ensures
        r == smaller(x, y),
{
    big::less(&crossed(x, y), &crossed(y, x))
}

// ---------------------------------------------------------------- numbers

/// What a 64-bit float holds.
#[derive(Debug, Clone, Copy, PartialEq, Eq, Structural)]
pub enum Number {
    /// A sign and a size; there are two zeros.
    Finite { negative: bool, size: Double },
    PosInf,
    NegInf,
    NotANumber,
}

/// A size with a sign; none is infinite.
pub open spec fn signed(negative: bool, size: Option<Double>) -> Number {
    match size {
        Some(size) => Number::Finite { negative, size },
        None => infinite(negative),
    }
}

/// Infinity with a sign.
pub open spec fn infinite(negative: bool) -> Number {
    if negative {
        Number::NegInf
    } else {
        Number::PosInf
    }
}

/// Zero without a sign.
pub open spec fn zero_size() -> Double {
    Double { significand: 0, exponent: LEAST_EXPONENT }
}

/// Zero.
pub open spec fn zero() -> Number {
    Number::Finite { negative: false, size: zero_size() }
}

/// The number nearest to `p / q`.
pub open spec fn ratio(p: nat, q: nat) -> Number {
    signed(false, nearest(p, q))
}

/// The number nearest to so many thousandths: what a decimal with three places stands for.
pub open spec fn thousandths(n: nat) -> Number {
    ratio(n, 1000)
}

/// The number nearest to a whole number.
pub open spec fn whole(n: nat) -> Number {
    ratio(n, 1)
}

/// Whether a number has a minus sign.
pub open spec fn is_negative(n: Number) -> bool {
    match n {
        Number::Finite { negative, size } => negative,
        Number::PosInf => false,
        Number::NegInf => true,
        Number::NotANumber => false,
    }
}

/// Whether a number is infinite.
pub open spec fn is_infinite(n: Number) -> bool {
    n == Number::PosInf || n == Number::NegInf
}

/// Whether a number is one of the zeros.
pub open spec fn is_zero(n: Number) -> bool {
    n matches Number::Finite { negative, size } && size.significand == 0
}

/// Whether a number is finite and above zero.
pub open spec fn is_positive(n: Number) -> bool {
    n matches Number::Finite { negative, size } && !negative && size.significand > 0
}

/// The number with the other sign.
pub open spec fn negated(n: Number) -> Number {
    match n {
        Number::Finite { negative, size } => Number::Finite { negative: !negative, size },
        Number::PosInf => Number::NegInf,
        Number::NegInf => Number::PosInf,
        Number::NotANumber => Number::NotANumber,
    }
}

/// `a + b`.
pub open spec fn plus(a: Number, b: Number) -> Number {
    match (a, b) {
        (Number::Finite { negative: m, size: x }, Number::Finite { negative: n, size: y }) => if m
            == n {
            signed(m, sum(x, y))
        } else if smaller(x, y) {
            signed(n, difference(y, x))
        } else if smaller(y, x) {
            signed(m, difference(x, y))
        } else {
            zero()
        },
        (Number::Finite { .. }, _) => b,
        (_, Number::Finite { .. }) => a,
        _ => if a == b {
            a
        } else {
            Number::NotANumber
        },
    }
}

/// `a - b`.
pub open spec fn minus(a: Number, b: Number) -> Number {
    plus(a, negated(b))
}

/// `a * b`.
pub open spec fn times(a: Number, b: Number) -> Number {
    let negative = is_negative(a) != is_negative(b);
    match (a, b) {
        (Number::Finite { negative: m, size: x }, Number::Finite { negative: n, size: y }) => signed(
            negative,
            product(x, y),
        ),
        _ => if a == Number::NotANumber || b == Number::NotANumber || is_zero(a) || is_zero(b) {
            Number::NotANumber
        } else {
            infinite(negative)
        },
    }
}

/// `a / b`.
pub open spec fn over(a: Number, b: Number) -> Number {
    let negative = is_negative(a) != is_negative(b);
    match (a, b) {
        (Number::Finite { negative: m, size: x }, Number::Finite { negative: n, size: y }) =>
            if y.significand > 0 {
            signed(negative, quotient(x, y))
        } else if x.significand > 0 {
            infinite(negative)
        } else {
            Number::NotANumber
        },
        _ => if a == Number::NotANumber || b == Number::NotANumber || (is_infinite(a)
            && is_infinite(b)) {
            Number::NotANumber
        } else if is_infinite(a) {
            infinite(negative)
        } else {
            Number::Finite { negative, size: zero_size() }
        },
    }
}

/// `a < b`; what is not a number is neither below nor above any.
pub open spec fn less(a: Number, b: Number) -> bool {
    match (a, b) {
        (Number::Finite { negative: m, size: x }, Number::Finite { negative: n, size: y }) => if m
            && n {
            smaller(y, x)
        } else if m {
            x.significand > 0 || y.significand > 0
        } else if n {
            false
        } else {
            smaller(x, y)
        },
        _ => a != Number::NotANumber && b != Number::NotANumber && a != b && (a == Number::NegInf
            || b == Number::PosInf),
    }
}

/// `a <= b`.
pub open spec fn at_most(a: Number, b: Number) -> bool {
    a != Number::NotANumber && b != Number::NotANumber && !less(b, a)
}

fn with_sign(negative: bool, size: Option<Double>) -> (n: Number)
    ensures
        n == signed(negative, size),
        (size matches Some(x) ==> x.wf()) ==> n.wf(),
{
    match size {
        Some(size) => Number::Finite { negative, size },
        None => infinity(negative),
    }
}

fn infinity(negative: bool) -> (n: Number)
    ensures
        n == infinite(negative),
{
    if negative {
        Number::NegInf
    } else {
        Number::PosInf
    }
}

impl Number {
    /// Zero.
    pub fn zero() -> (n: Number)
        ensures
            n == zero(),
            n.wf(),
    {
        Number::Finite {
            negative: false,
            size: Double { significand: 0, exponent: LEAST_EXPONENT },
        }
    }

    /// The number nearest to `p / q`.
    pub fn ratio(p: u64, q: u64) -> (n: Number)
        requires
            q > 0,
        ensures
            n == ratio(p as nat, q as nat),
            n.wf(),
    {
        with_sign(false, nearest_to(&big::small(p), &big::small(q)))
    }

    /// The number nearest to so many thousandths.
    pub fn thousandths(n: u64) -> (r: Number)
        ensures
            r == thousandths(n as nat),
            r.wf(),
    {
        Number::ratio(n, 1000)
    }

    /// The number nearest to a whole number.
    pub fn whole(n: u128) -> (r: Number)
        ensures
            r == whole(n as nat),
            r.wf(),
    {
        with_sign(false, nearest_to(&big::wide(n), &big::small(1)))
    }

    /// Whether this is finite and above zero.
    pub fn positive(self) -> (r: bool)
        ensures
            r == is_positive(self),
    {
        match self {
            Number::Finite { negative, size } => !negative && size.significand > 0,
            _ => false,
        }
    }

    fn negative(self) -> (r: bool)
        ensures
            r == is_negative(self),
    {
        match self {
            Number::Finite { negative, .. } => negative,
            Number::PosInf => false,
            Number::NegInf => true,
            Number::NotANumber => false,
        }
    }

    /// `self + b`.
    pub fn plus(self, b: Number) -> (r: Number)
        ensures
            r == plus(self, b),
            r.wf(),
    {
        match (self, b) {
            (Number::Finite { negative: m, size: x }, Number::Finite { negative: n, size: y }) => {
                if m == n {
                    with_sign(m, add_sizes(x, y))
                } else if is_smaller(x, y) {
                    with_sign(n, subtract_sizes(y, x))
                } else if is_smaller(y, x) {
                    with_sign(m, subtract_sizes(x, y))
                } else {
                    Number::zero()
                }
            },
            (Number::Finite { .. }, _) => b,
            (_, Number::Finite { .. }) => self,
            _ => {
                if self == b {
                    self
                } else {
                    Number::NotANumber
                }
            },
        }
    }

    /// `self - b`.
    pub fn minus(self, b: Number) -> (r: Number)
        ensures
            r == minus(self, b),
            r.wf(),
    {
        let other = match b {
            Number::Finite { negative, size } => Number::Finite { negative: !negative, size },
            Number::PosInf => Number::NegInf,
            Number::NegInf => Number::PosInf,
            Number::NotANumber => Number::NotANumber,
        };
        self.plus(other)
    }

    /// `self * b`.
    pub fn times(self, b: Number) -> (r: Number)
        ensures
            r == times(self, b),
            r.wf(),
    {
        let negative = self.negative() != b.negative();
        match (self, b) {
            (Number::Finite { size: x, .. }, Number::Finite { size: y, .. }) => {
                with_sign(negative, multiply_sizes(x, y))
            },
            (Number::NotANumber, _) | (_, Number::NotANumber) => Number::NotANumber,
            (Number::Finite { size, .. }, _) | (_, Number::Finite { size, .. }) => {
                if size.significand == 0 {
                    Number::NotANumber
                } else {
                    infinity(negative)
                }
            },
            _ => infinity(negative),
        }
    }

    /// `self / b`.
    pub fn over(self, b: Number) -> (r: Number)
        ensures
            r == over(self, b),
            r.wf(),
    {
        let negative = self.negative() != b.negative();
        match (self, b) {
            (Number::Finite { size: x, .. }, Number::Finite { size: y, .. }) => {
                if y.significand > 0 {
                    with_sign(negative, divide_sizes(x, y))
                } else if x.significand > 0 {
                    infinity(negative)
                } else {
                    Number::NotANumber
                }
            },
            (Number::NotANumber, _) | (_, Number::NotANumber) => Number::NotANumber,
            (_, Number::Finite { .. }) => infinity(negative),
            (Number::Finite { .. }, _) => Number::Finite {
                negative,
                size: Double { significand: 0, exponent: LEAST_EXPONENT },
            },
            _ => Number::NotANumber,
        }
    }

    /// `self < b`.
    pub fn less(self, b: Number) -> (r: bool)
        ensures
            r == less(self, b),
    {
        match (self, b) {
            (Number::Finite { negative: m, size: x }, Number::Finite { negative: n, size: y }) => {
                if m && n {
                    is_smaller(y, x)
                } else if m {
                    x.significand > 0 || y.significand > 0
                } else if n {
                    false
                } else {
                    is_smaller(x, y)
                }
            },
            (Number::NotANumber, _) | (_, Number::NotANumber) => false,
            (Number::NegInf, Number::NegInf) | (Number::PosInf, Number::PosInf) => false,
            (Number::NegInf, _) | (_, Number::PosInf) => true,
            _ => false,
        }
    }

    /// `self <= b`.
    pub fn at_most(self, b: Number) -> (r: bool)
        ensures
            r == at_most(self, b),
    {
        match (self, b) {
            (Number::NotANumber, _) | (_, Number::NotANumber) => false,
            _ => !b.less(self),
        }
    }
}

// ---------------------------------------------------------------- whole numbers

/// The whole part, no larger than `most`; zero for what is negative or not a number.
pub open spec fn truncated(n: Number, most: nat) -> nat {
    match n {
        Number::Finite { negative, size } => if negative {
            0
        } else {
            number::capped(above(size) / below(size), most)
        },
        Number::PosInf => most,
        Number::NegInf => 0,
        Number::NotANumber => 0,
    }
}

/// The nearest whole number, a half away from zero, no larger than `most`; zero for what is
/// negative or not a number.
pub open spec fn rounded_off(n: Number, most: nat) -> nat {
    match n {
        Number::Finite { negative, size } => if negative {
            0
        } else {
            number::capped((2 * above(size) + below(size)) / (2 * below(size)), most)
        },
        Number::PosInf => most,
        Number::NegInf => 0,
        Number::NotANumber => 0,
    }
}

/// A number in units of `1 / scale`, to the nearest whole, a half to the even neighbour.
pub open spec fn scaled_size(x: Double, scale: nat) -> nat {
    number::rounded(above(x) * scale, below(x))
}

/// Whether a size is below a whole number.
pub open spec fn under(x: Double, n: nat) -> bool {
    above(x) < n * below(x)
}

impl Double {
    /// The size in billionths, to the nearest whole, a half to the even neighbour.
    pub fn billionths(self) -> (n: u128)
        requires
            under(self, 0x1_0000_0000_0000_0000),
        ensures
            n == scaled_size(self, 1_000_000_000),
            n <= 0x1_0000_0000_0000_0000 * 1_000_000_000,
    {
        let top = big::times_plus(&above_of(self), 1_000_000_000, 0);
        proof {
            let a = above(self);
            let b = below(self);
            lemma_below_positive(self, self);
            let k = (0x1_0000_0000_0000_0000 * 1_000_000_000) as nat;
            assert(a * 1_000_000_000 <= k * b) by (nonlinear_arith)
                requires
                    a < 0x1_0000_0000_0000_0000 * b,
                    k == 0x1_0000_0000_0000_0000 * 1_000_000_000,
            ;
            lemma_rounded_at_most(a * 1_000_000_000, b, k);
        }
        big::as_wide(&big::nearest_whole(&top, &below_of(self)))
    }
}

fn up_to(v: &Vec<u32>, most: u64) -> (n: u64)
    ensures
        n == number::capped(big::value(v@), most as nat),
{
    if big::less(&big::small(most), v) {
        most
    } else {
        big::as_small(v)
    }
}

impl Number {
    /// The whole part, no larger than `most`.
    pub fn truncated(self, most: u64) -> (n: u64)
        ensures
            n == truncated(self, most as nat),
    {
        match self {
            Number::Finite { negative, size } => {
                if negative {
                    0
                } else {
                    up_to(&big::divided(&above_of(size), &below_of(size)).0, most)
                }
            },
            Number::PosInf => most,
            Number::NegInf => 0,
            Number::NotANumber => 0,
        }
    }

    /// The nearest whole number, a half away from zero, no larger than `most`.
    pub fn rounded_off(self, most: u64) -> (n: u64)
        ensures
            n == rounded_off(self, most as nat),
    {
        match self {
            Number::Finite { negative, size } => {
                if negative {
                    0
                } else {
                    let unit = below_of(size);
                    let twice = big::times_plus(&above_of(size), 2, 0);
                    let top = big::plus(&twice, &unit);
                    let bottom = big::times_plus(&unit, 2, 0);
                    assert(big::value(top@) == 2 * above(size) + below(size));
                    up_to(&big::divided(&top, &bottom).0, most)
                }
            },
            Number::PosInf => most,
            Number::NegInf => 0,
            Number::NotANumber => 0,
        }
    }
}

// ---------------------------------------------------------------- text

/// The minus sign, where there is one.
pub open spec fn sign(negative: bool) -> Seq<char> {
    if negative {
        "-"@
    } else {
        seq![]
    }
}

/// A size with `places` digits after the point, a half to the even digit.
pub open spec fn fixed_size(x: Double, places: nat) -> Seq<char> {
    let n = scaled_size(x, number::pow10(places));
    if places == 0 {
        text::decimal(n)
    } else {
        number::fixed(n, places)
    }
}

/// A number with `places` digits after the point.
pub open spec fn fixed(n: Number, places: nat) -> Seq<char> {
    match n {
        Number::Finite { negative, size } => sign(negative) + fixed_size(size, places),
        Number::PosInf => "inf"@,
        Number::NegInf => "-inf"@,
        Number::NotANumber => "NaN"@,
    }
}

/// Fewer places than this are zero for every size.
pub const FEWEST_PLACES: i64 = -309;

/// No size has digits beyond so many places.
pub const MOST_PLACES: i64 = 1074;

/// A size is `over_at(x, k) / under_at(x, k)` in units of `10^-k`; `k` counts zeros before the
/// point when it is negative.
pub open spec fn over_at(x: Double, k: int) -> nat {
    if k >= 0 {
        above(x) * number::pow10(k as nat)
    } else {
        above(x)
    }
}

/// A size is `over_at(x, k) / under_at(x, k)` in units of `10^-k`.
pub open spec fn under_at(x: Double, k: int) -> nat {
    if k >= 0 {
        below(x)
    } else {
        below(x) * number::pow10((-k) as nat)
    }
}

/// Whether `d` units of `10^-k` stand for the size: it is the number nearest to them.
pub open spec fn stands_for(d: nat, k: int, x: Double) -> bool {
    d > 0 && Some(x) == (if k >= 0 {
        nearest(d, number::pow10(k as nat))
    } else {
        nearest(d * number::pow10((-k) as nat), 1)
    })
}

/// Whether one of the two decimals with `k` places around a size stands for it.
pub open spec fn reads_back(x: Double, k: int) -> bool {
    let d = over_at(x, k) / under_at(x, k);
    stands_for(d, k, x) || stands_for(d + 1, k, x)
}

/// The decimal with `k` places that stands for a size; of two the closer one, and the upper one
/// when they are equally close.
pub open spec fn digits_at(x: Double, k: int) -> nat {
    let d = over_at(x, k) / under_at(x, k);
    let rest = over_at(x, k) % under_at(x, k);
    if stands_for(d + 1, k, x) && (!stands_for(d, k, x) || 2 * rest >= under_at(x, k)) {
        d + 1
    } else {
        d
    }
}

/// The fewest places, `k` or more, whose digits stand for the size.
pub open spec fn places_from(x: Double, k: int) -> int
    decreases MOST_PLACES - k,
{
    if k >= MOST_PLACES || reads_back(x, k) {
        k
    } else {
        places_from(x, k + 1)
    }
}

/// A size in the fewest digits that stand for it and no other.
pub open spec fn shortest_size(x: Double) -> Seq<char> {
    if x.significand == 0 {
        "0"@
    } else {
        let k = places_from(x, FEWEST_PLACES as int);
        if k >= 0 {
            number::shortest(digits_at(x, k), k as nat)
        } else {
            text::decimal(digits_at(x, k) * number::pow10((-k) as nat))
        }
    }
}

/// A number in the fewest digits that stand for it and no other.
pub open spec fn shortest(n: Number) -> Seq<char> {
    match n {
        Number::Finite { negative, size } => sign(negative) + shortest_size(size),
        Number::PosInf => "inf"@,
        Number::NegInf => "-inf"@,
        Number::NotANumber => "NaN"@,
    }
}

fn split_at(n: &Vec<u32>, places: u64) -> (r: (String, String))
    ensures
        r.0@ == text::decimal(big::value(n@) / number::pow10(places as nat)),
        r.1@ == text::decimal(big::value(n@) % number::pow10(places as nat)),
{
    let unit = big::tenfold(&big::small(1), places as u128);
    proof {
        number::lemma_pow10_positive(places as nat);
        let p = number::pow10(places as nat);
        assert(1 * p == p) by (nonlinear_arith);
    }
    let (whole, rest, _) = big::divided(n, &unit);
    (big::digits_of(&whole), big::digits_of(&rest))
}

fn fixed_text(n: &Vec<u32>, places: usize) -> (s: String)
    ensures
        s@ == number::fixed(big::value(n@), places as nat),
{
    let (whole, rest) = split_at(n, places as u64);
    let mut s = whole;
    s.append(".");
    s.append(pad_left(rest.as_str(), places, '0').as_str());
    s
}

fn shortest_text(n: &Vec<u32>, places: usize) -> (s: String)
    ensures
        s@ == number::shortest(big::value(n@), places as nat),
{
    let (whole, rest) = split_at(n, places as u64);
    let mut tail = chars_of(pad_left(rest.as_str(), places, '0').as_str());
    let ghost full = tail@;
    while tail.len() > 0 && tail[tail.len() - 1] == '0'
        invariant
            number::without_zeros(tail@) == number::without_zeros(full),
        decreases tail.len(),
    {
        let ghost had = tail@;
        let _ = tail.pop();
        assert(tail@ =~= had.drop_last());
    }
    let mut s = whole;
    if tail.len() > 0 {
        s.append(".");
        s.append(text_of(&tail).as_str());
    }
    s
}

fn sign_text(negative: bool) -> (s: String)
    ensures
        s@ == sign(negative),
{
    if negative {
        "-".to_owned()
    } else {
        proof {
            reveal_strlit("");
            assert(""@ =~= seq![]);
        }
        "".to_owned()
    }
}

fn stands(d: &Vec<u32>, k: i64, x: Double) -> (r: bool)
    requires
        FEWEST_PLACES <= k <= MOST_PLACES,
    ensures
        r == stands_for(big::value(d@), k as int, x),
{
    if !big::less(&big::small(0), d) {
        return false;
    }
    let found = if k >= 0 {
        let unit = big::tenfold(&big::small(1), k as u128);
        proof {
            number::lemma_pow10_positive(k as nat);
            let p = number::pow10(k as nat);
            assert(1 * p == p) by (nonlinear_arith);
        }
        nearest_to(d, &unit)
    } else {
        nearest_to(&big::tenfold(d, (-k) as u128), &big::small(1))
    };
    match found {
        Some(y) => y == x,
        None => false,
    }
}

/// The digits to `k` places, and whether they stand for the size.
fn digits_to(x: Double, k: i64) -> (r: (Vec<u32>, bool))
    requires
        FEWEST_PLACES <= k <= MOST_PLACES,
    ensures
        big::value(r.0@) == digits_at(x, k as int),
        r.1 == reads_back(x, k as int),
{
    let over = if k >= 0 {
        big::tenfold(&above_of(x), k as u128)
    } else {
        above_of(x)
    };
    let under = if k >= 0 {
        below_of(x)
    } else {
        big::tenfold(&below_of(x), (-k) as u128)
    };
    proof {
        lemma_under_positive(x, k as int);
    }
    let (down, rest, _) = big::divided(&over, &under);
    let up = big::times_plus(&down, 1, 1);
    let down_stands = stands(&down, k, x);
    let up_stands = stands(&up, k, x);
    let twice = big::times_plus(&rest, 2, 0);
    if up_stands && (!down_stands || !big::less(&twice, &under)) {
        (up, true)
    } else {
        (down, down_stands || up_stands)
    }
}

proof fn lemma_under_positive(x: Double, k: int)
    ensures
        under_at(x, k) > 0,
{
    lemma_below_positive(x, x);
    if k < 0 {
        number::lemma_pow10_positive((-k) as nat);
        let p = number::pow10((-k) as nat);
        assert(below(x) * p > 0) by (nonlinear_arith)
            requires
                below(x) > 0,
                p >= 1,
        ;
    }
}

/// What fits has an exponent at which it is rounded.
pub proof fn lemma_exponent_exists(p: nat, q: nat, e: int)
    requires
        LEAST_EXPONENT <= e,
        fits(p, q, e),
    ensures
        exists|x: int| is_exponent(p, q, x),
    decreases e - LEAST_EXPONENT,
{
    if e == LEAST_EXPONENT || !fits(p, q, e - 1) {
        assert(is_exponent(p, q, e));
    } else {
        lemma_exponent_exists(p, q, e - 1);
    }
}

/// A large power of ten is rounded at a positive exponent.
proof fn lemma_large_exponent(n: nat)
    requires
        n >= 21,
    ensures
        nearest(number::pow10(n), 1) matches Some(x) ==> x.exponent > 0,
{
    let p = number::pow10(n);
    lemma_ten_to_21(n);
    if fits(p, 1, MOST_EXPONENT as int) {
        lemma_exponent_exists(p, 1, MOST_EXPONENT as int);
        let e = choose|e: int| is_exponent(p, 1, e);
        if e <= 0 {
            lemma_fits_grows(p, 1, e, 0);
            lemma_powers(1074, 53);
            power2::lemma2_to64_rest();
            let a = pow2(1074) as int;
            assert(p * a >= 1 * (a * 0x20_0000_0000_0000)) by (nonlinear_arith)
                requires
                    p >= 0x20_0000_0000_0000,
                    a >= 1,
            ;
        }
        if e > MOST_EXPONENT {
            lemma_fits_grows(p, 1, MOST_EXPONENT as int, e - 1);
        }
    }
}

/// A whole significand has no digits this far before the point.
proof fn lemma_far_digits(x: Double, k: int)
    requires
        x.exponent <= 0,
        FEWEST_PLACES <= k <= -20,
    ensures
        places_from(x, k) == places_from(x, -20),
    decreases -20 - k,
{
    if k < -20 {
        lemma_far_digits(x, k + 1);
        let n = (-k) as nat;
        power2::lemma2_to64();
        lemma_powers(downs(x), 0);
        lemma_ten_to_21(n);
        let a = above(x);
        assert(a == x.significand) by (nonlinear_arith)
            requires
                a == x.significand as nat * 1,
        ;
        let b = below(x) as int;
        let p = number::pow10(n) as int;
        assert(b * p >= p) by (nonlinear_arith)
            requires
                b >= 1,
                p >= 0,
        ;
        let q = under_at(x, k);
        assert(a / q == 0) by {
            vstd::arithmetic::div_mod::lemma_basic_div(a as int, q as int);
        }
        assert(1 * p == p) by (nonlinear_arith);
        lemma_large_exponent(n);
        assert(!stands_for(0, k, x));
        assert(!stands_for(1, k, x));
    }
}

proof fn lemma_ten_to_21(n: nat)
    requires
        n >= 21,
    ensures
        number::pow10(n) >= 1_000_000_000_000_000_000_000,
    decreases n,
{
    if n == 21 {
        reveal_with_fuel(number::pow10, 22);
    } else {
        lemma_ten_to_21((n - 1) as nat);
    }
}

fn size_text(x: Double) -> (s: String)
    ensures
        s@ == shortest_size(x),
{
    if x.significand == 0 {
        return "0".to_owned();
    }
    let mut k: i64 = if x.exponent <= 0 {
        -20
    } else {
        FEWEST_PLACES
    };
    proof {
        if x.exponent <= 0 {
            lemma_far_digits(x, FEWEST_PLACES as int);
        }
    }
    let (mut d, mut found) = digits_to(x, k);
    while k < MOST_PLACES && !found
        invariant
            FEWEST_PLACES <= k <= MOST_PLACES,
            big::value(d@) == digits_at(x, k as int),
            found == reads_back(x, k as int),
            places_from(x, FEWEST_PLACES as int) == places_from(x, k as int),
        decreases MOST_PLACES - k,
    {
        k = k + 1;
        let next = digits_to(x, k);
        d = next.0;
        found = next.1;
    }
    if k >= 0 {
        shortest_text(&d, k as usize)
    } else {
        big::digits_of(&big::tenfold(&d, (-k) as u128))
    }
}

impl Number {
    /// The number with `places` digits after the point, a half to the even digit.
    pub fn fixed(self, places: usize) -> (s: String)
        ensures
            s@ == fixed(self, places as nat),
    {
        match self {
            Number::Finite { negative, size } => {
                let mut s = sign_text(negative);
                let scaled = big::tenfold(&above_of(size), places as u128);
                let n = big::nearest_whole(&scaled, &below_of(size));
                if places == 0 {
                    s.append(big::digits_of(&n).as_str());
                } else {
                    s.append(fixed_text(&n, places).as_str());
                }
                s
            },
            Number::PosInf => "inf".to_owned(),
            Number::NegInf => "-inf".to_owned(),
            Number::NotANumber => "NaN".to_owned(),
        }
    }

    /// The number in the fewest digits that stand for it and no other.
    pub fn to_string(&self) -> (s: String)
        ensures
            s@ == shortest(*self),
    {
        match *self {
            Number::Finite { negative, size } => {
                let mut s = sign_text(negative);
                s.append(size_text(size).as_str());
                s
            },
            Number::PosInf => "inf".to_owned(),
            Number::NegInf => "-inf".to_owned(),
            Number::NotANumber => "NaN".to_owned(),
        }
    }
}

// ---------------------------------------------------------------- bits

/// The number that 64 bits hold: a sign, eleven bits of exponent, and the rest of the
/// significand.
pub open spec fn of_bits(bits: u64) -> Number {
    let negative = bits / 0x8000_0000_0000_0000 == 1;
    let field = (bits / LEAST_NORMAL) % 2048;
    let rest = bits % LEAST_NORMAL;
    if field == 2047 {
        if rest == 0 {
            infinite(negative)
        } else {
            Number::NotANumber
        }
    } else if field == 0 {
        Number::Finite { negative, size: Double { significand: rest, exponent: LEAST_EXPONENT } }
    } else {
        Number::Finite {
            negative,
            size: Double {
                significand: (LEAST_NORMAL + rest) as u64,
                exponent: (field - 1075) as i32,
            },
        }
    }
}

impl Number {
    /// A number is written in one way.
    pub open spec fn wf(self) -> bool {
        self matches Number::Finite { negative, size } ==> size.wf()
    }

    /// The number that the bits of a float hold.
    pub fn from_bits(bits: u64) -> (n: Number)
        ensures
            n == of_bits(bits),
            n.wf(),
    {
        let negative = bits / 0x8000_0000_0000_0000 == 1;
        let field: u64 = (bits / LEAST_NORMAL) % 2048;
        let rest: u64 = bits % LEAST_NORMAL;
        if field == 2047 {
            if rest == 0 {
                infinity(negative)
            } else {
                Number::NotANumber
            }
        } else if field == 0 {
            Number::Finite {
                negative,
                size: Double { significand: rest, exponent: LEAST_EXPONENT },
            }
        } else {
            Number::Finite {
                negative,
                size: Double {
                    significand: LEAST_NORMAL + rest,
                    exponent: field as i32 - 1075,
                },
            }
        }
    }

    /// The bits of the float that holds the number.
    pub fn to_bits(self) -> (bits: u64)
        requires
            self.wf(),
        ensures
            of_bits(bits) == self,
    {
        match self {
            Number::Finite { negative, size } => {
                let top: u64 = if negative {
                    0x8000_0000_0000_0000
                } else {
                    0
                };
                if size.significand < LEAST_NORMAL {
                    top + size.significand
                } else {
                    let field: u64 = (size.exponent + 1075) as u64;
                    top + field * LEAST_NORMAL + (size.significand - LEAST_NORMAL)
                }
            },
            Number::PosInf => 0x7ff0_0000_0000_0000,
            Number::NegInf => 0xfff0_0000_0000_0000,
            Number::NotANumber => 0x7ff8_0000_0000_0000,
        }
    }
}

// ---------------------------------------------------------------- reading

/// The number nearest to `n * 10^k`.
pub open spec fn nearest_decimal(n: nat, k: int) -> Option<Double> {
    if k >= 0 {
        nearest(n * number::pow10(k as nat), 1)
    } else {
        nearest(n, number::pow10((-k) as nat))
    }
}

/// The size that an unsigned decimal numeral stands for, when it is well formed; none in it is
/// infinite.
pub open spec fn decimal_size(s: Seq<char>) -> Option<Option<Double>> {
    let (front, exponent) = match number::exponent_mark(s) {
        Some(i) => (s.take(i), number::exponent_value(s.skip(i + 1))),
        None => (s, Some(0)),
    };
    match (number::mantissa(front), exponent) {
        (Some((digits, places)), Some(e)) => Some(
            nearest_decimal(number::digits_value(digits), e - places),
        ),
        _ => None,
    }
}

/// The number a decimal numeral stands for: a sign, then digits with a point and an exponent, or
/// one of the words for what is not a number, in any case.
pub open spec fn decimal_value(s: Seq<char>) -> Option<Number> {
    let marked = s.len() > 0 && (s[0] == '-' || s[0] == '+');
    let negative = marked && s[0] == '-';
    let body = if marked {
        s.drop_first()
    } else {
        s
    };
    let word = body.map_values(|c: char| text::ascii_lower(c));
    if word == "inf"@ || word == "infinity"@ {
        Some(infinite(negative))
    } else if word == "nan"@ {
        Some(Number::NotANumber)
    } else {
        match decimal_size(body) {
            Some(size) => Some(signed(negative, size)),
            None => None,
        }
    }
}

proof fn lemma_ten_over_two(n: nat)
    ensures
        number::pow10(n) >= pow2(3 * n),
    decreases n,
{
    power2::lemma2_to64();
    if n > 0 {
        lemma_ten_over_two((n - 1) as nat);
        lemma_powers(3, (3 * (n - 1)) as nat);
        lemma_powers((3 * (n - 1)) as nat, 0);
        assert(3 + 3 * (n - 1) == 3 * n);
    }
}

proof fn lemma_pow10_adds(a: nat, b: nat)
    ensures
        number::pow10(a + b) == number::pow10(a) * number::pow10(b),
    decreases a,
{
    let y = number::pow10(b) as int;
    if a > 0 {
        lemma_pow10_adds((a - 1) as nat, b);
        let x = number::pow10((a - 1) as nat) as int;
        assert(number::pow10(a + b) == 10 * number::pow10((a - 1 + b) as nat));
        assert(10 * (x * y) == (10 * x) * y) by (nonlinear_arith);
    } else {
        assert(1 * y == y) by (nonlinear_arith);
    }
}

proof fn lemma_nearest_small(p: nat, q: nat)
    requires
        q > 0,
        2 * (p * pow2(1074)) < q,
    ensures
        nearest(p, q) == Some(zero_size()),
{
    power2::lemma2_to64_rest();
    let a = p * pow2(1074);
    assert(q <= q * 0x20_0000_0000_0000) by (nonlinear_arith);
    assert(is_exponent(p, q, LEAST_EXPONENT as int));
    lemma_exponent(p, q, LEAST_EXPONENT as int);
    lemma_fits_grows(p, q, LEAST_EXPONENT as int, MOST_EXPONENT as int);
    vstd::arithmetic::div_mod::lemma_basic_div(a as int, q as int);
    vstd::arithmetic::div_mod::lemma_small_mod(a, q);
}

proof fn lemma_zero_decimal(k: int)
    ensures
        nearest_decimal(0, k) == Some(zero_size()),
{
    if k >= 0 {
        let p = number::pow10(k as nat);
        assert(0 * p == 0) by (nonlinear_arith);
        assert(0 * pow2(1074) == 0) by (nonlinear_arith);
        lemma_nearest_small(0, 1);
    } else {
        number::lemma_pow10_positive((-k) as nat);
        assert(0 * pow2(1074) == 0) by (nonlinear_arith);
        lemma_nearest_small(0, number::pow10((-k) as nat));
    }
}

proof fn lemma_huge_decimal(n: nat, k: int)
    requires
        n >= 1,
        k >= 400,
    ensures
        nearest_decimal(n, k) is None,
{
    let p = number::pow10(k as nat);
    let x = n * p;
    lemma_ten_over_two(k as nat);
    lemma_powers(1024, (3 * k) as nat);
    lemma_powers(1024, 1074);
    let a = pow2(1024) as int;
    let b = pow2(1074) as int;
    lemma_powers(1074, 0);
    assert(x >= p) by (nonlinear_arith)
        requires
            x == n * p,
            n >= 1,
            p >= 0,
    ;
    assert(x * b >= 1 * (a * b)) by (nonlinear_arith)
        requires
            x >= a,
            b >= 1,
    ;
}

proof fn lemma_tiny_decimal(n: nat, digits: nat, k: int)
    requires
        n < number::pow10(digits),
        k <= -(digits + 400),
    ensures
        nearest_decimal(n, k) == Some(zero_size()),
{
    let j = (-k) as nat;
    let more = (j - digits) as nat;
    lemma_pow10_adds(digits, more);
    number::lemma_pow10_positive(j);
    lemma_ten_over_two(more);
    lemma_powers(1075, (3 * more) as nat);
    power2::lemma_pow2_unfold(1075);
    let a = number::pow10(digits) as int;
    let b = number::pow10(more) as int;
    let c = pow2(1074) as int;
    lemma_powers(1074, 0);
    assert(2 * (n * c) < a * b) by (nonlinear_arith)
        requires
            0 <= n < a,
            b >= 2 * c,
            c >= 1,
    ;
    lemma_nearest_small(n, number::pow10(j));
}

fn digits_number(v: &Vec<char>) -> (n: Vec<u32>)
    requires
        number::all_digits(v@),
    ensures
        big::value(n@) == number::digits_value(v@),
        big::value(n@) < number::pow10(v@.len()),
{
    let mut n = big::small(0);
    let mut i: usize = 0;
    assert(v@.take(0) =~= seq![]);
    while i < v.len()
        invariant
            i <= v.len(),
            number::all_digits(v@),
            big::value(n@) == number::digits_value(v@.take(i as int)),
            big::value(n@) < number::pow10(i as nat),
        decreases v.len() - i,
    {
        assert(v@.take(i + 1).drop_last() =~= v@.take(i as int));
        let d: u32 = match digit_of(v[i]) {
            Some(d) => d as u32,
            None => 0,
        };
        assert(d == (v@[i as int] as nat - 48) as nat);
        n = big::times_plus(&n, 10, d);
        i = i + 1;
    }
    assert(v@.take(v@.len() as int) =~= v@);
    n
}

fn decimal_near(digits: &Vec<char>, k: i128) -> (r: Option<Double>)
    requires
        number::all_digits(digits@),
        -0x1_0000_0000_0000_0000_0000 <= k <= 0x1_0000_0000_0000_0000_0000,
    ensures
        r == nearest_decimal(number::digits_value(digits@), k as int),
        r matches Some(x) ==> x.wf(),
{
    let n = digits_number(digits);
    let nothing = Double { significand: 0, exponent: LEAST_EXPONENT };
    if !big::less(&big::small(0), &n) {
        proof {
            lemma_zero_decimal(k as int);
        }
        return Some(nothing);
    }
    if k >= 400 {
        proof {
            lemma_huge_decimal(big::value(n@), k as int);
        }
        return None;
    }
    let least: i128 = -(digits.len() as i128 + 400);
    if k <= least {
        proof {
            lemma_tiny_decimal(big::value(n@), digits@.len(), k as int);
        }
        return Some(nothing);
    }
    if k >= 0 {
        nearest_to(&big::tenfold(&n, k as u128), &big::small(1))
    } else {
        let unit = big::tenfold(&big::small(1), (-k) as u128);
        proof {
            number::lemma_pow10_positive((-k) as nat);
            let p = number::pow10((-k) as nat);
            assert(1 * p == p) by (nonlinear_arith);
        }
        nearest_to(&n, &unit)
    }
}

fn read_size(v: &Vec<char>) -> (r: Option<Option<Double>>)
    ensures
        r == decimal_size(v@),
        r matches Some(Some(x)) ==> x.wf(),
{
    let (front, exponent) = match find_exponent(v) {
        Some(i) => {
            assert(v@.subrange(0, i as int) =~= v@.take(i as int));
            assert(v@.subrange(i + 1, v@.len() as int) =~= v@.skip(i + 1));
            (slice_of(v, 0, i), read_exponent(&slice_of(v, i + 1, v.len())))
        },
        None => {
            assert(v@.subrange(0, v@.len() as int) =~= v@);
            (slice_of(v, 0, v.len()), Some(0i64))
        },
    };
    match (read_mantissa(&front), exponent) {
        (Some((digits, places)), Some(e)) => {
            Some(decimal_near(&digits, e as i128 - places as i128))
        },
        _ => None,
    }
}

/// Read a decimal numeral: the number nearest to it.
pub fn read_decimal(v: &Vec<char>) -> (r: Option<Number>)
    ensures
        r == decimal_value(v@),
        r matches Some(n) ==> n.wf(),
{
    let marked = v.len() > 0 && (v[0] == '-' || v[0] == '+');
    let negative = marked && v[0] == '-';
    let body = if marked {
        assert(v@.subrange(1, v@.len() as int) =~= v@.drop_first());
        slice_of(v, 1, v.len())
    } else {
        assert(v@.subrange(0, v@.len() as int) =~= v@);
        slice_of(v, 0, v.len())
    };
    let word = text_of(&lower(&body));
    if same_text(word.as_str(), "inf") || same_text(word.as_str(), "infinity") {
        return Some(infinity(negative));
    }
    if same_text(word.as_str(), "nan") {
        return Some(Number::NotANumber);
    }
    match read_size(&body) {
        Some(size) => Some(with_sign(negative, size)),
        None => None,
    }
}

// ---------------------------------------------------------------- what texts are made of

/// A character that numbers are written with.
pub open spec fn is_numeral(c: char) -> bool {
    '0' <= c <= '9' || c == '.' || c == '-' || c == 'i' || c == 'n' || c == 'f' || c == 'N' || c
        == 'a'
}

/// A text made of such characters.
pub open spec fn all_numeral(s: Seq<char>) -> bool {
    forall|i: int| 0 <= i < s.len() ==> is_numeral(#[trigger] s[i])
}

proof fn lemma_numeral_join(a: Seq<char>, b: Seq<char>)
    requires
        all_numeral(a),
        all_numeral(b),
    ensures
        all_numeral(a + b),
{
    let s = a + b;
    assert forall|i: int| 0 <= i < s.len() implies is_numeral(#[trigger] s[i]) by {
        if i < a.len() {
            assert(s[i] == a[i]);
        } else {
            assert(s[i] == b[i - a.len()]);
        }
    }
}

/// Decimals are made of digits.
pub proof fn lemma_decimal_numeral(n: nat)
    ensures
        all_numeral(text::decimal(n)),
    decreases n,
{
    let s = text::decimal(n);
    if n >= 10 {
        lemma_decimal_numeral(n / 10);
        let front = text::decimal(n / 10);
        assert forall|i: int| 0 <= i < s.len() implies is_numeral(#[trigger] s[i]) by {
            if i < front.len() {
                assert(s[i] == front[i]);
            }
        }
    }
}

proof fn lemma_without_zeros_numeral(s: Seq<char>)
    requires
        all_numeral(s),
    ensures
        all_numeral(number::without_zeros(s)),
    decreases s.len(),
{
    if s.len() > 0 && s.last() == '0' {
        let init = s.drop_last();
        assert forall|i: int| 0 <= i < init.len() implies is_numeral(#[trigger] init[i]) by {
            assert(init[i] == s[i]);
        }
        lemma_without_zeros_numeral(init);
    }
}

/// Fixed-point texts are made of digits and a point.
pub proof fn lemma_fixed_numeral(n: nat, places: nat)
    ensures
        all_numeral(number::fixed(n, places)),
        all_numeral(number::shortest(n, places)),
{
    reveal_strlit(".");
    let a = text::decimal(n / number::pow10(places));
    let d = text::decimal(n % number::pow10(places));
    let f = number::fraction(n, places);
    lemma_decimal_numeral(n / number::pow10(places));
    lemma_decimal_numeral(n % number::pow10(places));
    if d.len() < places {
        let fill = text::repeated('0', (places - d.len()) as nat);
        assert(all_numeral(fill));
        lemma_numeral_join(fill, d);
    }
    lemma_without_zeros_numeral(f);
    lemma_numeral_join(a, "."@);
    lemma_numeral_join(a + "."@, f);
    lemma_numeral_join(a + "."@, number::without_zeros(f));
}

/// Numbers are written with digits, a point, a sign and the letters of the words for what is not
/// finite.
pub proof fn lemma_number_numeral(n: Number, places: nat)
    ensures
        all_numeral(fixed(n, places)),
        all_numeral(shortest(n)),
{
    reveal_strlit("-");
    reveal_strlit("0");
    reveal_strlit("inf");
    reveal_strlit("-inf");
    reveal_strlit("NaN");
    match n {
        Number::Finite { negative, size } => {
            let a = scaled_size(size, number::pow10(places));
            lemma_decimal_numeral(a);
            lemma_fixed_numeral(a, places);
            lemma_numeral_join(sign(negative), fixed_size(size, places));
            let k = places_from(size, FEWEST_PLACES as int);
            let d = digits_at(size, k);
            if k >= 0 {
                lemma_fixed_numeral(d, k as nat);
            } else {
                lemma_decimal_numeral(d * number::pow10((-k) as nat));
            }
            lemma_numeral_join(sign(negative), shortest_size(size));
        },
        _ => {},
    }
}

// ---------------------------------------------------------------- order

/// A size in units of the smallest one.
pub open spec fn weight(x: Double) -> nat {
    x.significand as nat * pow2((x.exponent + 1074) as nat)
}

pub proof fn lemma_weight(x: Double)
    requires
        x.exponent >= LEAST_EXPONENT,
    ensures
        above(x) * pow2(1074) == weight(x) * below(x),
{
    let s = x.significand as int;
    let u = pow2(ups(x)) as int;
    let d = pow2(downs(x)) as int;
    let t = pow2((x.exponent + 1074) as nat) as int;
    lemma_powers(ups(x), 1074);
    lemma_powers((x.exponent + 1074) as nat, downs(x));
    assert(ups(x) + 1074 == (x.exponent + 1074) as nat + downs(x));
    let z = pow2(1074) as int;
    assert((s * u) * z == (s * t) * d) by (nonlinear_arith)
        requires
            u * z == t * d,
    ;
}

/// Sizes are ordered by their weights.
pub proof fn lemma_smaller_by_weight(x: Double, y: Double)
    requires
        x.exponent >= LEAST_EXPONENT,
        y.exponent >= LEAST_EXPONENT,
    ensures
        smaller(x, y) <==> weight(x) < weight(y),
{
    lemma_weight(x);
    lemma_weight(y);
    lemma_below_positive(x, y);
    lemma_below_positive(y, x);
    lemma_powers(1074, 0);
    let z = pow2(1074) as int;
    let (a, b) = (above(x) as int, below(x) as int);
    let (c, d) = (above(y) as int, below(y) as int);
    let (v, w) = (weight(x) as int, weight(y) as int);
    assert((a * d) * z == v * (b * d)) by (nonlinear_arith)
        requires
            a * z == v * b,
    ;
    assert((c * b) * z == w * (b * d)) by (nonlinear_arith)
        requires
            c * z == w * d,
    ;
    if v < w {
        assert(a * d < c * b) by (nonlinear_arith)
            requires
                (a * d) * z == v * (b * d),
                (c * b) * z == w * (b * d),
                v < w,
                b * d > 0,
                z >= 1,
        ;
    } else {
        assert(a * d >= c * b) by (nonlinear_arith)
            requires
                (a * d) * z == v * (b * d),
                (c * b) * z == w * (b * d),
                v >= w,
                b * d > 0,
                z >= 1,
        ;
    }
}

/// What rounding to a whole number means: within a half, and a half only to the even one.
pub proof fn lemma_rounded(p: nat, q: nat)
    requires
        q > 0,
    ensures
        ({
            let m = number::rounded(p, q) as int;
            &&& (2 * m - 1) * q <= 2 * p <= (2 * m + 1) * q
            &&& 2 * p == (2 * m - 1) * q ==> m % 2 == 0
            &&& 2 * p == (2 * m + 1) * q ==> m % 2 == 0
        }),
{
    let d = (p / q) as int;
    let r = (p % q) as int;
    vstd::arithmetic::div_mod::lemma_fundamental_div_mod(p as int, q as int);
    let m = number::rounded(p, q) as int;
    assert(q * d == d * q) by (nonlinear_arith);
    assert((2 * d - 1) * q == 2 * (d * q) - q) by (nonlinear_arith);
    assert((2 * d + 1) * q == 2 * (d * q) + q) by (nonlinear_arith);
    assert((2 * (d + 1) + 1) * q == 2 * (d * q) + 3 * q) by (nonlinear_arith);
    assert((2 * (d + 1) - 1) * q == 2 * (d * q) + q) by (nonlinear_arith);
}

/// Rounding to a whole number keeps the order.
proof fn lemma_rounded_grows(p1: nat, q1: nat, p2: nat, q2: nat)
    requires
        q1 > 0,
        q2 > 0,
        p1 * q2 <= p2 * q1,
    ensures
        number::rounded(p1, q1) <= number::rounded(p2, q2),
{
    let a = number::rounded(p1, q1) as int;
    let b = number::rounded(p2, q2) as int;
    lemma_rounded(p1, q1);
    lemma_rounded(p2, q2);
    if a > b {
        assert(((2 * a - 1) * q1) * q2 <= (2 * p1) * q2) by (nonlinear_arith)
            requires
                (2 * a - 1) * q1 <= 2 * p1,
                q2 > 0,
        ;
        assert((2 * p1) * q2 <= (2 * p2) * q1) by (nonlinear_arith)
            requires
                p1 * q2 <= p2 * q1,
        ;
        assert((2 * p2) * q1 <= ((2 * b + 1) * q2) * q1) by (nonlinear_arith)
            requires
                2 * p2 <= (2 * b + 1) * q2,
                q1 > 0,
        ;
        let z = q1 * q2;
        assert(z > 0) by (nonlinear_arith)
            requires
                z == q1 * q2,
                q1 > 0,
                q2 > 0,
        ;
        assert(((2 * a - 1) * q1) * q2 == (2 * a - 1) * z) by (nonlinear_arith)
            requires
                z == q1 * q2,
        ;
        assert(((2 * b + 1) * q2) * q1 == (2 * b + 1) * z) by (nonlinear_arith)
            requires
                z == q1 * q2,
        ;
        assert(2 * a - 1 <= 2 * b + 1) by (nonlinear_arith)
            requires
                (2 * a - 1) * z <= (2 * b + 1) * z,
                z > 0,
        ;
        assert(a == b + 1);
        assert(2 * p1 == (2 * a - 1) * q1) by (nonlinear_arith)
            requires
                (2 * p1) * q2 == ((2 * a - 1) * q1) * q2,
                q2 > 0,
        ;
        assert(2 * p2 == (2 * b + 1) * q2) by (nonlinear_arith)
            requires
                (2 * p2) * q1 == ((2 * b + 1) * q2) * q1,
                q1 > 0,
        ;
    }
}

proof fn lemma_fits_below(p1: nat, q1: nat, p2: nat, q2: nat, e: int)
    requires
        q1 > 0,
        q2 > 0,
        p1 * q2 <= p2 * q1,
        fits(p2, q2, e),
    ensures
        fits(p1, q1, e),
{
    let t = pow2(1074) as int;
    let k = pow2((1127 + e) as nat) as int;
    lemma_powers(1074, 0);
    assert(p1 * t < q1 * k) by (nonlinear_arith)
        requires
            p1 * q2 <= p2 * q1,
            p2 * t < q2 * k,
            q1 > 0,
            q2 > 0,
            t >= 1,
    ;
}

/// The weight of the nearest number: its significand at the exponent where it was rounded.
pub proof fn lemma_nearest_weight(p: nat, q: nat, e: int)
    requires
        q > 0,
        is_exponent(p, q, e),
        fits(p, q, MOST_EXPONENT as int),
    ensures
        e <= MOST_EXPONENT,
        nearest(p, q) matches Some(x) ==> {
            &&& x.wf()
            &&& weight(x) == significand(p, q, e) * pow2((e + 1074) as nat)
        },
        nearest(p, q) is None ==> e == MOST_EXPONENT && significand(p, q, e) == SIGNIFICANDS,
{
    lemma_exponent(p, q, e);
    lemma_significand_fits(p, q, e);
    if e > LEAST_EXPONENT {
        lemma_significand_fills(p, q, e);
    }
    if e > MOST_EXPONENT {
        lemma_fits_grows(p, q, MOST_EXPONENT as int, e - 1);
    }
    power2::lemma_pow2_unfold((e + 1 + 1074) as nat);
    let t = pow2((e + 1074) as nat) as int;
    assert(0x20_0000_0000_0000 * t == 0x10_0000_0000_0000 * (2 * t)) by (nonlinear_arith);
}

/// How far a number is from `p / q`, in units of `1 / (q * 2^1074)`.
pub open spec fn distance(p: nat, q: nat, x: Double) -> nat {
    let (a, b) = (p * pow2(1074), weight(x) * q);
    if a <= b {
        (b - a) as nat
    } else {
        (a - b) as nat
    }
}

/// No number is closer to `p / q` than the nearest one.
pub proof fn law_nearest_is_closest(p: nat, q: nat, y: Double)
    requires
        q > 0,
        y.wf(),
        nearest(p, q) is Some,
    ensures
        distance(p, q, nearest(p, q)->0) <= distance(p, q, y),
{
    lemma_exponent_exists(p, q, MOST_EXPONENT as int);
    let e = choose|e: int| is_exponent(p, q, e);
    lemma_nearest_weight(p, q, e);
    let m = significand(p, q, e) as int;
    let unit = pow2((e + 1074) as nat) as int;
    lemma_significand_close(p, q, e);
    let pt = p * pow2(1074) as int;
    let w = y.significand as int;
    if y.exponent >= e {
        let k = (y.exponent - e) as nat;
        lemma_powers((e + 1074) as nat, k);
        let n = w * pow2(k) as int;
        let v = pow2(k) as int;
        assert(w * (unit * v) == (w * v) * unit) by (nonlinear_arith);
        lemma_closest_multiple(pt, unit * q, m, n);
        assert((m * unit) * q == m * (unit * q)) by (nonlinear_arith);
        assert((n * unit) * q == n * (unit * q)) by (nonlinear_arith);
    } else {
        let low = pow2((y.exponent + 1074) as nat) as int;
        let half = pow2((e + 1073) as nat) as int;
        power2::lemma_pow2_unfold((e + 1074) as nat);
        lemma_powers((y.exponent + 1074) as nat, (e + 1073) as nat);
        lemma_powers((e + 1073) as nat, 53);
        power2::lemma2_to64_rest();
        assert(pow2((1127 + (e - 1)) as nat) == half * 0x20_0000_0000_0000);
        let n = 0x10_0000_0000_0000int;
        assert(w * low <= n * unit) by (nonlinear_arith)
            requires
                w <= 0x20_0000_0000_0000,
                0 <= w,
                0 <= low <= half,
                unit == 2 * half,
                n == 0x10_0000_0000_0000,
        ;
        assert(half * 0x20_0000_0000_0000 == n * unit) by (nonlinear_arith)
            requires
                unit == 2 * half,
                n == 0x10_0000_0000_0000,
        ;
        assert(q * (n * unit) == n * (unit * q)) by (nonlinear_arith);
        assert((w * low) * q <= n * (unit * q)) by (nonlinear_arith)
            requires
                w * low <= n * unit,
                q > 0,
        ;
        lemma_closest_multiple(pt, unit * q, m, n);
        assert((m * unit) * q == m * (unit * q)) by (nonlinear_arith);
    }
}

/// A significand is within half a unit of what it stands for.
pub proof fn lemma_significand_close(p: nat, q: nat, e: int)
    requires
        q > 0,
        LEAST_EXPONENT <= e,
    ensures
        ({
            let m = significand(p, q, e) as int;
            let step = pow2((e + 1074) as nat) * q as int;
            (2 * m - 1) * step <= 2 * (p * pow2(1074)) <= (2 * m + 1) * step
        }),
{
    let m = significand(p, q, e) as int;
    let t = pow2(1074) as int;
    let unit = pow2((e + 1074) as nat) as int;
    lemma_powers(1074, 0);
    if e < 0 {
        let d = pow2((-e) as nat) as int;
        lemma_powers((e + 1074) as nat, (-e) as nat);
        lemma_rounded(p * pow2((-e) as nat), q);
        lemma_scaled((2 * m - 1) * q, 2 * (p * d), unit);
        lemma_scaled(2 * (p * d), (2 * m + 1) * q, unit);
        assert((2 * (p * d)) * unit == 2 * (p * (unit * d))) by (nonlinear_arith);
        assert(((2 * m - 1) * q) * unit == (2 * m - 1) * (unit * q)) by (nonlinear_arith);
        assert(((2 * m + 1) * q) * unit == (2 * m + 1) * (unit * q)) by (nonlinear_arith);
    } else {
        let u = pow2(e as nat) as int;
        lemma_powers(e as nat, 1074);
        assert(q * u > 0) by (nonlinear_arith)
            requires
                q > 0,
                u >= 1,
        ;
        lemma_rounded(p, q * pow2(e as nat));
        lemma_scaled((2 * m - 1) * (q * u), 2 * (p as int), t);
        lemma_scaled(2 * (p as int), (2 * m + 1) * (q * u), t);
        assert((2 * p) * t == 2 * (p * t)) by (nonlinear_arith);
        assert(((2 * m - 1) * (q * u)) * t == (2 * m - 1) * ((u * t) * q)) by (nonlinear_arith);
        assert(((2 * m + 1) * (q * u)) * t == (2 * m + 1) * ((u * t) * q)) by (nonlinear_arith);
    }
}

pub proof fn lemma_scaled(a: int, b: int, k: int)
    requires
        a <= b,
        k >= 0,
    ensures
        a * k <= b * k,
{
    assert(a * k <= b * k) by (nonlinear_arith)
        requires
            a <= b,
            k >= 0,
    ;
}

/// A multiple within half a step is as close as any.
proof fn lemma_closest_multiple(v: int, step: int, m: int, n: int)
    requires
        step >= 0,
        (2 * m - 1) * step <= 2 * v <= (2 * m + 1) * step,
    ensures
        v <= m * step ==> m * step - v <= (if v <= n * step {
            n * step - v
        } else {
            v - n * step
        }),
        v > m * step ==> v - m * step <= (if v <= n * step {
            n * step - v
        } else {
            v - n * step
        }),
{
    assert((2 * m - 1) * step == 2 * (m * step) - step) by (nonlinear_arith);
    assert((2 * m + 1) * step == 2 * (m * step) + step) by (nonlinear_arith);
    if n < m {
        assert(n * step <= m * step - step) by (nonlinear_arith)
            requires
                n <= m - 1,
                step >= 0,
        ;
    } else if n > m {
        assert(n * step >= m * step + step) by (nonlinear_arith)
            requires
                n >= m + 1,
                step >= 0,
        ;
    }
}

/// Rounding keeps the order: what is no larger is not rounded to something larger.
pub proof fn lemma_nearest_grows(p1: nat, q1: nat, p2: nat, q2: nat)
    requires
        q1 > 0,
        q2 > 0,
        p1 * q2 <= p2 * q1,
        nearest(p2, q2) is Some,
    ensures
        nearest(p1, q1) is Some,
        nearest(p1, q1)->0.wf(),
        nearest(p2, q2)->0.wf(),
        weight(nearest(p1, q1)->0) <= weight(nearest(p2, q2)->0),
{
    lemma_fits_below(p1, q1, p2, q2, MOST_EXPONENT as int);
    lemma_exponent_exists(p1, q1, MOST_EXPONENT as int);
    lemma_exponent_exists(p2, q2, MOST_EXPONENT as int);
    let e1 = choose|e: int| is_exponent(p1, q1, e);
    let e2 = choose|e: int| is_exponent(p2, q2, e);
    if e1 > e2 {
        lemma_fits_grows(p2, q2, e2, e1 - 1);
        lemma_fits_below(p1, q1, p2, q2, e1 - 1);
    }
    lemma_nearest_weight(p1, q1, e1);
    lemma_nearest_weight(p2, q2, e2);
    let m1 = significand(p1, q1, e1) as int;
    let m2 = significand(p2, q2, e2) as int;
    let t1 = pow2((e1 + 1074) as nat) as int;
    let t2 = pow2((e2 + 1074) as nat) as int;
    lemma_powers((e1 + 1074) as nat, 0);
    if e1 == e2 {
        lemma_significand_grows(p1, q1, p2, q2, e1);
        assert(m1 * t1 <= m2 * t1) by (nonlinear_arith)
            requires
                m1 <= m2,
                t1 >= 1,
        ;
        lemma_significand_fits(p2, q2, e2);
    } else {
        lemma_significand_fits(p1, q1, e1);
        lemma_significand_fills(p2, q2, e2);
        lemma_powers((e1 + 1 + 1074) as nat, (e2 + 1074) as nat);
        power2::lemma_pow2_unfold((e1 + 1 + 1074) as nat);
        assert(m1 * t1 <= m2 * t2) by (nonlinear_arith)
            requires
                m1 <= 0x20_0000_0000_0000,
                m2 >= 0x10_0000_0000_0000,
                2 * t1 <= t2,
                t1 >= 1,
        ;
    }
}

proof fn lemma_significand_grows(p1: nat, q1: nat, p2: nat, q2: nat, e: int)
    requires
        q1 > 0,
        q2 > 0,
        p1 * q2 <= p2 * q1,
    ensures
        significand(p1, q1, e) <= significand(p2, q2, e),
{
    if e < 0 {
        let t = pow2((-e) as nat) as int;
        lemma_powers((-e) as nat, 0);
        assert((p1 * t) * q2 <= (p2 * t) * q1) by (nonlinear_arith)
            requires
                p1 * q2 <= p2 * q1,
                t >= 1,
        ;
        lemma_rounded_grows(p1 * pow2((-e) as nat), q1, p2 * pow2((-e) as nat), q2);
    } else {
        let t = pow2(e as nat) as int;
        lemma_powers(e as nat, 0);
        assert(p1 * (q2 * t) <= p2 * (q1 * t)) by (nonlinear_arith)
            requires
                p1 * q2 <= p2 * q1,
                t >= 1,
        ;
        assert(q1 * t > 0 && q2 * t > 0) by (nonlinear_arith)
            requires
                q1 > 0,
                q2 > 0,
                t >= 1,
        ;
        lemma_rounded_grows(p1, q1 * pow2(e as nat), p2, q2 * pow2(e as nat));
    }
}

/// Thousandths are positive numbers, and are ordered as their counts.
pub proof fn lemma_thousandths(a: nat, b: nat)
    requires
        a <= b <= 0xffff_ffff_ffff_ffff,
    ensures
        a >= 1 ==> is_positive(thousandths(a)),
        thousandths(a) matches Number::Finite { negative, size } && !negative && size.wf(),
        thousandths(b) matches Number::Finite { negative, size } && !negative && size.wf(),
        at_most(thousandths(a), thousandths(b)),
        nearest(a, 1000) is Some,
        nearest(b, 1000) is Some,
        weight(nearest(a, 1000)->0) <= weight(nearest(b, 1000)->0),
{
    power2::lemma2_to64();
    lemma_powers(64, 1074);
    lemma_powers(1138, 1127);
    lemma_powers(1074, 0);
    let t = pow2(1074) as int;
    let u = pow2(1138) as int;
    let v = pow2(1127) as int;
    // every count fits well below the largest exponent
    assert(fits(b, 1000, 11)) by {
        assert(b * t < 1000 * u) by (nonlinear_arith)
            requires
                b <= 0xffff_ffff_ffff_ffff,
                u == 0x1_0000_0000_0000_0000 * t,
                t >= 1,
        ;
    }
    lemma_fits_grows(b, 1000, 11, MOST_EXPONENT as int);
    lemma_exponent_exists(b, 1000, 11);
    let e = choose|e: int| is_exponent(b, 1000, e);
    if e > 11 {
        lemma_fits_grows(b, 1000, 11, e - 1);
    }
    lemma_nearest_weight(b, 1000, e);
    assert(a * 1000 <= b * 1000);
    lemma_nearest_grows(a, 1000, b, 1000);
    if a >= 1 {
        lemma_fits_below(a, 1000, b, 1000, 11);
        lemma_exponent_exists(a, 1000, 11);
        let f = choose|f: int| is_exponent(a, 1000, f);
        lemma_fits_grows(a, 1000, 11, MOST_EXPONENT as int);
        lemma_nearest_weight(a, 1000, f);
        if f > LEAST_EXPONENT {
            lemma_significand_fills(a, 1000, f);
        } else {
            lemma_powers(10, 1074);
            assert(a * t >= 1 * 1000) by (nonlinear_arith)
                requires
                    a >= 1,
                    t >= 1024,
            ;
            lemma_rounded_at_least(a * pow2(1074), 1000, 1);
        }
        let x = nearest(a, 1000)->0;
        let w = pow2((f + 1074) as nat) as int;
        lemma_powers((f + 1074) as nat, 0);
        let m = significand(a, 1000, f) as int;
        assert(m * w >= 1) by (nonlinear_arith)
            requires
                m >= 1,
                w >= 1,
        ;
        if x.significand == 0 {
            assert(weight(x) == 0) by (nonlinear_arith)
                requires
                    weight(x) == x.significand as nat * pow2((x.exponent + 1074) as nat),
                    x.significand == 0,
            ;
        }
    }
    lemma_smaller_by_weight(nearest(b, 1000)->0, nearest(a, 1000)->0);
}

/// A number is the one nearest to itself.
pub proof fn lemma_nearest_self(x: Double)
    requires
        x.wf(),
    ensures
        nearest(above(x), below(x)) == Some(x),
{
    let (p, q) = (above(x), below(x));
    let e = x.exponent as int;
    let s = x.significand as int;
    let t = pow2((e + 1074) as nat) as int;
    power2::lemma2_to64_rest();
    power2::lemma2_to64();
    lemma_below_positive(x, x);
    lemma_weight(x);
    lemma_powers((e + 1074) as nat, 53);
    lemma_powers((e + 1074) as nat, 0);
    let b = q as int;
    assert(fits(p, q, e)) by {
        assert((s * t) * b < b * (t * 0x20_0000_0000_0000)) by (nonlinear_arith)
            requires
                0 <= s < 0x20_0000_0000_0000,
                t >= 1,
                b >= 1,
        ;
    }
    if e > LEAST_EXPONENT {
        lemma_powers((e + 1074) as nat, 52);
        assert((s * t) * b >= b * (t * 0x10_0000_0000_0000)) by (nonlinear_arith)
            requires
                s >= 0x10_0000_0000_0000,
                t >= 1,
                b >= 1,
        ;
    }
    lemma_exponent(p, q, e);
    lemma_fits_grows(p, q, e, MOST_EXPONENT as int);
    if e < 0 {
        assert(p == s) by (nonlinear_arith)
            requires
                p == s * 1,
        ;
        lemma_rounded_at_most(p * q, q, x.significand as nat);
        lemma_rounded_at_least(p * q, q, x.significand as nat);
    } else {
        let u = pow2(e as nat);
        lemma_powers(e as nat, 0);
        assert(q * u == u) by (nonlinear_arith)
            requires
                q == 1,
        ;
        lemma_rounded_at_most(p, u, x.significand as nat);
        lemma_rounded_at_least(p, u, x.significand as nat);
    }
}

/// Whole numbers of up to 53 bits are held exactly.
pub proof fn lemma_whole(n: nat)
    requires
        n < SIGNIFICANDS,
    ensures
        whole(n) matches Number::Finite { negative, size } && !negative && size.wf() && weight(size)
            == n * pow2(1074) && above(size) == n * below(size),
{
    power2::lemma2_to64_rest();
    lemma_powers(1074, 53);
    lemma_powers(1074, 0);
    let t = pow2(1074) as int;
    assert(fits(n, 1, 0)) by {
        assert(n * t < 1 * (t * 0x20_0000_0000_0000)) by (nonlinear_arith)
            requires
                n < 0x20_0000_0000_0000,
                t >= 1,
        ;
    }
    lemma_fits_grows(n, 1, 0, MOST_EXPONENT as int);
    lemma_exponent_exists(n, 1, 0);
    let e = choose|e: int| is_exponent(n, 1, e);
    if e > 0 {
        lemma_fits_grows(n, 1, 0, e - 1);
    }
    lemma_nearest_weight(n, 1, e);
    let a = pow2((-e) as nat) as int;
    let b = pow2((e + 1074) as nat) as int;
    lemma_powers((-e) as nat, (e + 1074) as nat);
    power2::lemma2_to64();
    let m = significand(n, 1, e) as int;
    assert(m == n * a) by {
        if e < 0 {
            let x = (n * a) as nat;
            assert(x / 1 == x && x % 1 == 0) by (nonlinear_arith);
        } else {
            assert(n * 1 == n && 1 * 1 == 1);
            assert(n / 1 == n && n % 1 == 0) by (nonlinear_arith);
        }
    }
    assert((n * a) * b == n * t) by (nonlinear_arith)
        requires
            a * b == t,
    ;
    let x = nearest(n, 1)->0;
    lemma_weight(x);
    lemma_below_positive(x, x);
    let d = below(x) as int;
    let u = above(x) as int;
    assert(u == n * d) by (nonlinear_arith)
        requires
            u * t == (n * t) * d,
            t >= 1,
    ;
}

/// A size has something below the line, and nothing above it only when it is zero.
pub proof fn lemma_size_positive(x: Double)
    ensures
        below(x) > 0,
        x.significand == 0 <==> above(x) == 0,
{
    lemma_below_positive(x, x);
    lemma_powers(ups(x), 0);
    let s = x.significand as int;
    let u = pow2(ups(x)) as int;
    assert(s > 0 ==> s * u > 0) by (nonlinear_arith)
        requires
            u >= 1,
    ;
    assert(s == 0 ==> s * u == 0) by (nonlinear_arith);
}

/// What is no heavier is no larger.
proof fn lemma_cross(x: Double, y: Double)
    requires
        x.wf(),
        y.wf(),
        weight(x) <= weight(y),
    ensures
        above(x) * below(y) <= above(y) * below(x),
{
    lemma_smaller_by_weight(y, x);
}

/// Dividing by a number of at least one keeps the order, and never overflows.
pub proof fn lemma_quotient_grows(x: Double, y: Double, c: Double)
    requires
        x.wf(),
        y.wf(),
        weight(x) <= weight(y),
        above(c) >= below(c),
        c.significand > 0,
    ensures
        quotient(x, c) is Some,
        quotient(y, c) is Some,
        quotient(x, c)->0.wf(),
        quotient(y, c)->0.wf(),
        weight(quotient(x, c)->0) <= weight(quotient(y, c)->0),
{
    lemma_cross(x, y);
    lemma_below_positive(x, c);
    lemma_below_positive(y, c);
    let (a1, b1) = (above(x) as int, below(x) as int);
    let (a2, b2) = (above(y) as int, below(y) as int);
    let (u, d) = (above(c) as int, below(c) as int);
    assert((a2 * d) * b2 <= a2 * (b2 * u)) by (nonlinear_arith)
        requires
            d <= u,
            a2 >= 0,
            b2 >= 0,
    ;
    lemma_nearest_self(y);
    lemma_nearest_grows(above(y) * below(c), below(y) * above(c), above(y), below(y));
    assert((a1 * d) * (b2 * u) <= (a2 * d) * (b1 * u)) by (nonlinear_arith)
        requires
            a1 * b2 <= a2 * b1,
            d >= 0,
            u >= 0,
    ;
    lemma_nearest_grows(
        above(x) * below(c),
        below(x) * above(c),
        above(y) * below(c),
        below(y) * above(c),
    );
}

/// Multiplying numbers of at most one keeps the order, and never overflows.
pub proof fn lemma_product_grows(x: Double, y: Double, c: Double)
    requires
        x.wf(),
        y.wf(),
        c.wf(),
        weight(x) <= weight(y) <= pow2(1074),
    ensures
        product(x, c) is Some,
        product(y, c) is Some,
        product(x, c)->0.wf(),
        product(y, c)->0.wf(),
        weight(product(x, c)->0) <= weight(product(y, c)->0),
{
    lemma_cross(x, y);
    lemma_below_positive(x, c);
    lemma_below_positive(y, c);
    lemma_weight(y);
    lemma_powers(1074, 0);
    let (a1, b1) = (above(x) as int, below(x) as int);
    let (a2, b2) = (above(y) as int, below(y) as int);
    let (u, d) = (above(c) as int, below(c) as int);
    let t = pow2(1074) as int;
    let w = weight(y) as int;
    assert(a2 <= b2) by (nonlinear_arith)
        requires
            a2 * t == w * b2,
            w <= t,
            t >= 1,
            b2 >= 0,
    ;
    assert((a2 * u) * d <= u * (b2 * d)) by (nonlinear_arith)
        requires
            a2 <= b2,
            u >= 0,
            d >= 0,
    ;
    lemma_below_positive(c, c);
    lemma_nearest_self(c);
    lemma_nearest_grows(above(y) * above(c), below(y) * below(c), above(c), below(c));
    assert((a1 * u) * (b2 * d) <= (a2 * u) * (b1 * d)) by (nonlinear_arith)
        requires
            a1 * b2 <= a2 * b1,
            u >= 0,
            d >= 0,
    ;
    lemma_nearest_grows(
        above(x) * above(c),
        below(x) * below(c),
        above(y) * above(c),
        below(y) * below(c),
    );
}

/// Rounding off keeps the order.
pub proof fn lemma_rounded_off_grows(x: Double, y: Double, most: nat)
    requires
        x.wf(),
        y.wf(),
        weight(x) <= weight(y),
    ensures
        rounded_off(Number::Finite { negative: false, size: x }, most) <= rounded_off(
            Number::Finite { negative: false, size: y },
            most,
        ),
{
    lemma_cross(x, y);
    lemma_below_positive(x, y);
    lemma_below_positive(y, x);
    let (a1, b1) = (above(x) as int, below(x) as int);
    let (a2, b2) = (above(y) as int, below(y) as int);
    let (p1, q1) = (2 * a1 + b1, 2 * b1);
    let (p2, q2) = (2 * a2 + b2, 2 * b2);
    let (m1, m2) = (p1 / q1, p2 / q2);
    vstd::arithmetic::div_mod::lemma_fundamental_div_mod(p1, q1);
    vstd::arithmetic::div_mod::lemma_fundamental_div_mod(p2, q2);
    let (r1, r2) = (p1 % q1, p2 % q2);
    assert(p1 * q2 <= p2 * q1) by (nonlinear_arith)
        requires
            a1 * b2 <= a2 * b1,
            p1 == 2 * a1 + b1,
            q1 == 2 * b1,
            p2 == 2 * a2 + b2,
            q2 == 2 * b2,
    ;
    if m1 > m2 {
        assert((q1 * m1) * q2 >= (q1 * (m2 + 1)) * q2) by (nonlinear_arith)
            requires
                m1 >= m2 + 1,
                q1 > 0,
                q2 > 0,
        ;
        assert(p1 * q2 >= (q1 * m1) * q2) by (nonlinear_arith)
            requires
                p1 == q1 * m1 + r1,
                r1 >= 0,
                q2 > 0,
        ;
        assert(p2 * q1 < (q2 * (m2 + 1)) * q1) by (nonlinear_arith)
            requires
                p2 == q2 * m2 + r2,
                r2 < q2,
                q1 > 0,
        ;
        assert((q2 * (m2 + 1)) * q1 == (q1 * (m2 + 1)) * q2) by (nonlinear_arith);
    }
}

} // verus!
