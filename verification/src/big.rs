//! Natural numbers of any size, for arithmetic that must be exact before it is rounded once.
//!
//! A number is a vector of 32-bit digits, the lowest first; high zeros do not matter.

use crate::number;
use crate::text;
use crate::text::decimal_text;
use vstd::arithmetic::power2;
use vstd::prelude::*;

verus! {

/// One more than the highest digit.
pub const RADIX: u64 = 0x1_0000_0000;

/// What the digit at position `n` counts.
pub open spec fn place(n: nat) -> nat
    decreases n,
{
    if n == 0 {
        1
    } else {
        0x1_0000_0000 * place((n - 1) as nat)
    }
}

/// The number that digits stand for.
pub open spec fn value(s: Seq<u32>) -> nat
    decreases s.len(),
{
    if s.len() == 0 {
        0
    } else {
        value(s.drop_last()) + place((s.len() - 1) as nat) * s.last() as nat
    }
}

proof fn lemma_place_positive(n: nat)
    ensures
        place(n) >= 1,
        n >= 1 ==> place(n) >= 0x1_0000_0000,
    decreases n,
{
    if n > 0 {
        lemma_place_positive((n - 1) as nat);
    }
}

proof fn lemma_push(s: Seq<u32>, x: u32)
    ensures
        value(s.push(x)) == value(s) + place(s.len()) * x as nat,
{
    assert(s.push(x).drop_last() =~= s);
}

proof fn lemma_value_bound(s: Seq<u32>)
    ensures
        value(s) < place(s.len()),
    decreases s.len(),
{
    if s.len() > 0 {
        lemma_value_bound(s.drop_last());
        let p = place((s.len() - 1) as nat);
        let x = s.last() as nat;
        assert(p * x + p <= 0x1_0000_0000 * p) by (nonlinear_arith)
            requires
                x < 0x1_0000_0000,
        ;
    }
}

/// The value of the lowest `i` digits.
spec fn low(s: Seq<u32>, i: int) -> nat {
    value(s.take(if i < s.len() {
        i
    } else {
        s.len() as int
    }))
}

/// The digit at `i`.
spec fn digit(s: Seq<u32>, i: int) -> nat {
    if i < s.len() {
        s[i] as nat
    } else {
        0
    }
}

proof fn lemma_low_step(s: Seq<u32>, i: int)
    requires
        0 <= i,
    ensures
        low(s, i + 1) == low(s, i) + place(i as nat) * digit(s, i),
        low(s, s.len() as int) == value(s),
        low(s, 0) == 0,
{
    assert(s.take(s.len() as int) =~= s);
    if i < s.len() {
        assert(s.take(i + 1).drop_last() =~= s.take(i));
        assert(s.take(i + 1).last() == s[i]);
    }
}

/// The number itself.
pub fn small(n: u64) -> (v: Vec<u32>)
    ensures
        value(v@) == n,
{
    let lo: u64 = n % RADIX;
    let hi: u64 = n / RADIX;
    let mut v: Vec<u32> = Vec::new();
    v.push(lo as u32);
    proof {
        lemma_push(seq![], lo as u32);
        assert(v@ =~= Seq::<u32>::empty().push(lo as u32));
        lemma_push(v@, hi as u32);
        reveal_with_fuel(place, 2);
        assert(value(Seq::<u32>::empty()) == 0);
        assert(place(0) * lo == lo) by (nonlinear_arith)
            requires
                place(0) == 1,
        ;
        assert(place(1) * hi == 0x1_0000_0000 * hi) by (nonlinear_arith)
            requires
                place(1) == 0x1_0000_0000,
        ;
    }
    if hi > 0 {
        v.push(hi as u32);
    }
    v
}

/// The number itself.
pub fn wide(n: u128) -> (v: Vec<u32>)
    ensures
        value(v@) == n,
{
    let mut v: Vec<u32> = Vec::new();
    let mut rest: u128 = n;
    assert(place(0) * rest == rest) by (nonlinear_arith)
        requires
            place(0) == 1,
    ;
    while rest > 0
        invariant
            value(v@) + place(v@.len()) * rest == n,
        decreases rest,
    {
        let lo: u128 = rest % 0x1_0000_0000;
        let hi: u128 = rest / 0x1_0000_0000;
        proof {
            lemma_push(v@, lo as u32);
            let p = place(v@.len()) as int;
            assert(p * lo + (0x1_0000_0000 * p) * hi == p * rest) by (nonlinear_arith)
                requires
                    rest == lo + 0x1_0000_0000 * hi,
            ;
        }
        v.push(lo as u32);
        rest = hi;
    }
    assert(place(v@.len()) * 0 == 0) by (nonlinear_arith);
    v
}

/// `a + b`.
pub fn plus(a: &Vec<u32>, b: &Vec<u32>) -> (v: Vec<u32>)
    ensures
        value(v@) == value(a@) + value(b@),
{
    let n: usize = if a.len() > b.len() {
        a.len()
    } else {
        b.len()
    };
    let mut v: Vec<u32> = Vec::new();
    let mut carry: u64 = 0;
    let mut i: usize = 0;
    proof {
        lemma_low_step(a@, 0);
        lemma_low_step(b@, 0);
        assert(place(0) * carry == 0) by (nonlinear_arith)
            requires
                carry == 0,
        ;
    }
    while i < n
        invariant
            i <= n,
            v.len() == i,
            carry <= 1,
            value(v@) + place(i as nat) * carry == low(a@, i as int) + low(b@, i as int),
        decreases n - i,
    {
        let x: u64 = if i < a.len() {
            a[i] as u64
        } else {
            0
        };
        let y: u64 = if i < b.len() {
            b[i] as u64
        } else {
            0
        };
        let t: u64 = x + y + carry;
        let lo: u64 = t % RADIX;
        let hi: u64 = t / RADIX;
        proof {
            lemma_low_step(a@, i as int);
            lemma_low_step(b@, i as int);
            lemma_push(v@, lo as u32);
            let p = place(i as nat) as int;
            let r = 0x1_0000_0000int;
            assert(p * lo + (r * p) * hi == p * x + p * y + p * carry) by (nonlinear_arith)
                requires
                    lo + r * hi == x + y + carry,
            ;
        }
        v.push(lo as u32);
        carry = hi;
        i = i + 1;
    }
    proof {
        lemma_low_all(a@, n as int);
        lemma_low_all(b@, n as int);
        assert(place(n as nat) * 0 == 0) by (nonlinear_arith);
    }
    if carry > 0 {
        proof {
            lemma_push(v@, carry as u32);
        }
        v.push(carry as u32);
    }
    v
}

/// `v * by + plus`.
pub fn times_plus(v: &Vec<u32>, by: u32, plus: u32) -> (out: Vec<u32>)
    ensures
        value(out@) == value(v@) * by + plus,
{
    let mut out: Vec<u32> = Vec::new();
    let mut carry: u64 = plus as u64;
    let mut i: usize = 0;
    assert(v@.take(0) =~= seq![]);
    assert(value(v@.take(0)) * by == 0) by (nonlinear_arith)
        requires
            value(v@.take(0)) == 0,
    ;
    assert(place(0) * carry == carry) by (nonlinear_arith)
        requires
            place(0) == 1,
    ;
    while i < v.len()
        invariant
            i <= v.len(),
            out.len() == i,
            carry < RADIX,
            value(out@) + place(i as nat) * carry == value(v@.take(i as int)) * by + plus,
        decreases v.len() - i,
    {
        let x: u64 = v[i] as u64;
        assert(x * by + carry <= 0xffff_ffff * 0xffff_ffff + 0xffff_ffff) by (nonlinear_arith)
            requires
                x <= 0xffff_ffff,
                by <= 0xffff_ffff,
                carry <= 0xffff_ffff,
        ;
        assert(0 <= x * by) by (nonlinear_arith)
            requires
                x >= 0,
                by >= 0,
        ;
        let t: u64 = x * by as u64 + carry;
        let lo: u64 = t % RADIX;
        let hi: u64 = t / RADIX;
        proof {
            assert(v@.take(i + 1).drop_last() =~= v@.take(i as int));
            lemma_push(out@, lo as u32);
            let p = place(i as nat) as int;
            let before = value(v@.take(i as int)) as int;
            assert(value(v@.take(i + 1)) == before + p * x);
            assert(p * lo + (0x1_0000_0000 * p) * hi == p * t) by (nonlinear_arith)
                requires
                    t == lo + 0x1_0000_0000 * hi,
            ;
            assert(p * t == p * carry + (p * x) * by) by (nonlinear_arith)
                requires
                    t == x * by + carry,
            ;
            assert((before + p * x) * by == before * by + (p * x) * by) by (nonlinear_arith);
        }
        out.push(lo as u32);
        carry = hi;
        i = i + 1;
    }
    assert(v@.take(v@.len() as int) =~= v@);
    if carry > 0 {
        proof {
            lemma_push(out@, carry as u32);
        }
        out.push(carry as u32);
    }
    out
}

/// `v * 2^k`.
pub fn doubled(v: &Vec<u32>, k: u64) -> (out: Vec<u32>)
    ensures
        value(out@) == value(v@) * power2::pow2(k as nat),
{
    let mut out = times_plus(v, 1, 0);
    let mut left: u64 = k;
    proof {
        power2::lemma2_to64();
        assert(value(v@) * 1 == value(v@)) by (nonlinear_arith);
    }
    while left > 0
        invariant
            left <= k,
            value(out@) == value(v@) * power2::pow2((k - left) as nat),
        decreases left,
    {
        let step: u64 = if left >= 16 {
            16
        } else {
            1
        };
        let by: u32 = if left >= 16 {
            0x1_0000
        } else {
            2
        };
        let ghost done = (k - left) as nat;
        proof {
            power2::lemma2_to64();
            power2::lemma_pow2_adds(done, step as nat);
            let x = value(v@) as int;
            let p = power2::pow2(done) as int;
            let b = by as int;
            assert((x * p) * b == x * (p * b)) by (nonlinear_arith);
        }
        out = times_plus(&out, by, 0);
        left = left - step;
    }
    out
}

fn trimmed(v: Vec<u32>) -> (out: Vec<u32>)
    ensures
        value(out@) == value(v@),
{
    let mut out = v;
    while out.len() > 0 && out[out.len() - 1] == 0
        invariant
            value(out@) == value(v@),
        decreases out.len(),
    {
        let ghost had = out@;
        let _ = out.pop();
        assert(out@ =~= had.drop_last());
        assert(place((had.len() - 1) as nat) * 0 == 0) by (nonlinear_arith);
    }
    out
}

/// `a - b`, unless `b` is larger.
pub fn minus(a: &Vec<u32>, b: &Vec<u32>) -> (out: Option<Vec<u32>>)
    ensures
        match out {
            Some(v) => value(a@) >= value(b@) && value(v@) == value(a@) - value(b@),
            None => value(a@) < value(b@),
        },
{
    let n: usize = if a.len() > b.len() {
        a.len()
    } else {
        b.len()
    };
    let mut v: Vec<u32> = Vec::new();
    let mut borrow: u64 = 0;
    let mut i: usize = 0;
    proof {
        lemma_low_step(a@, 0);
        lemma_low_step(b@, 0);
        assert(place(0) * borrow == 0) by (nonlinear_arith)
            requires
                borrow == 0,
        ;
    }
    while i < n
        invariant
            i <= n,
            v.len() == i,
            borrow <= 1,
            value(v@) + low(b@, i as int) == low(a@, i as int) + place(i as nat) * borrow,
        decreases n - i,
    {
        let x: u64 = if i < a.len() {
            a[i] as u64
        } else {
            0
        };
        let y: u64 = if i < b.len() {
            b[i] as u64
        } else {
            0
        };
        let t: u64 = RADIX + x - y - borrow;
        let lo: u64 = t % RADIX;
        let next: u64 = 1 - t / RADIX;
        proof {
            lemma_low_step(a@, i as int);
            lemma_low_step(b@, i as int);
            lemma_push(v@, lo as u32);
            let p = place(i as nat) as int;
            let r = 0x1_0000_0000int;
            assert(lo + y + borrow == x + r * next);
            assert(p * lo + p * y + p * borrow == p * x + (r * p) * next) by (nonlinear_arith)
                requires
                    lo + y + borrow == x + r * next,
            ;
        }
        v.push(lo as u32);
        borrow = next;
        i = i + 1;
    }
    proof {
        lemma_value_bound(v@);
        lemma_low_all(a@, n as int);
        lemma_low_all(b@, n as int);
        assert(place(n as nat) * 0 == 0) by (nonlinear_arith);
        assert(place(n as nat) * 1 == place(n as nat)) by (nonlinear_arith);
    }
    if borrow == 0 {
        Some(trimmed(v))
    } else {
        None
    }
}

proof fn lemma_low_all(s: Seq<u32>, n: int)
    requires
        n >= s.len(),
    ensures
        low(s, n) == value(s),
{
    assert(s.take(s.len() as int) =~= s);
}

/// Whether `a < b`.
pub fn less(a: &Vec<u32>, b: &Vec<u32>) -> (r: bool)
    ensures
        r == (value(a@) < value(b@)),
{
    minus(a, b).is_none()
}

/// The quotient, the remainder, and whether the quotient is odd.
pub fn divided(p: &Vec<u32>, q: &Vec<u32>) -> (out: (Vec<u32>, Vec<u32>, bool))
    requires
        value(q@) > 0,
    ensures
        value(out.0@) == value(p@) / value(q@),
        value(out.1@) == value(p@) % value(q@),
        out.2 == (value(out.0@) % 2 == 1),
{
    // the divisor times every power of two up to the first that is above the dividend
    let mut steps: Vec<Vec<u32>> = Vec::new();
    let mut top = times_plus(q, 1, 0);
    let ghost d = value(q@);
    assert(d * 1 == d) by (nonlinear_arith);
    proof {
        power2::lemma2_to64();
    }
    while !less(p, &top)
        invariant
            d == value(q@),
            d > 0,
            value(top@) == d * power2::pow2(steps@.len()),
            value(top@) > 0,
            forall|j: int|
                0 <= j < steps.len() ==> value((#[trigger] steps@[j])@) == d * power2::pow2(
                    j as nat,
                ),
        decreases
            if value(p@) >= value(top@) {
                value(p@) - value(top@) + 1
            } else {
                0
            },
    {
        let next = times_plus(&top, 2, 0);
        proof {
            let k = steps@.len();
            power2::lemma_pow2_unfold(k + 1);
            let p2 = power2::pow2(k) as int;
            assert((d * p2) * 2 == d * (2 * p2)) by (nonlinear_arith);
        }
        steps.push(top);
        top = next;
    }
    let mut quotient = small(0);
    let mut rest = times_plus(p, 1, 0);
    let mut odd = false;
    proof {
        assert(value(p@) * 1 == value(p@)) by (nonlinear_arith);
        assert(0 * value(top@) == 0) by (nonlinear_arith);
    }
    let ghost dividend = value(p@);
    while steps.len() > 0
        invariant
            d > 0,
            dividend == value(quotient@) * (d * power2::pow2(steps@.len())) + value(rest@),
            value(rest@) < d * power2::pow2(steps@.len()),
            odd == (value(quotient@) % 2 == 1),
            forall|j: int|
                0 <= j < steps.len() ==> value((#[trigger] steps@[j])@) == d * power2::pow2(
                    j as nat,
                ),
        decreases steps.len(),
    {
        let ghost k = (steps@.len() - 1) as nat;
        let ghost had = steps@;
        proof {
            power2::lemma_pow2_unfold(k + 1);
            let p2 = power2::pow2(k) as int;
            let x = value(quotient@) as int;
            assert(d * (2 * p2) == 2 * (d * p2)) by (nonlinear_arith);
            assert(x * (2 * (d * p2)) == (x * 2) * (d * p2)) by (nonlinear_arith);
            let s = d * p2;
            assert((x * 2 + 1) * s == (x * 2) * s + s) by (nonlinear_arith);
            assert((x * 2 + 0) * s == (x * 2) * s);
        }
        match steps.pop() {
            Some(step) => {
                assert(value(step@) == d * power2::pow2(k));
                assert forall|j: int| 0 <= j < steps.len() implies value(
                    (#[trigger] steps@[j])@,
                ) == d * power2::pow2(j as nat) by {
                    assert(steps@[j] == had[j]);
                }
                match minus(&rest, &step) {
                    Some(left) => {
                        rest = left;
                        quotient = times_plus(&quotient, 2, 1);
                        odd = true;
                    },
                    None => {
                        quotient = times_plus(&quotient, 2, 0);
                        odd = false;
                    },
                }
            },
            None => {},
        }
    }
    proof {
        power2::lemma2_to64();
        assert(d * 1 == d) by (nonlinear_arith);
        vstd::arithmetic::div_mod::lemma_fundamental_div_mod_converse(
            dividend as int,
            d as int,
            value(quotient@) as int,
            value(rest@) as int,
        );
    }
    (trimmed(quotient), rest, odd)
}

/// The number nearest to `p / q`; a half goes to the even neighbour.
pub fn nearest_whole(p: &Vec<u32>, q: &Vec<u32>) -> (out: Vec<u32>)
    requires
        value(q@) > 0,
    ensures
        value(out@) == number::rounded(value(p@), value(q@)),
{
    let (quotient, rest, odd) = divided(p, q);
    let twice = times_plus(&rest, 2, 0);
    if less(q, &twice) || (odd && !less(&twice, q)) {
        times_plus(&quotient, 1, 1)
    } else {
        quotient
    }
}

/// `v * 10^k`.
pub fn tenfold(v: &Vec<u32>, k: u128) -> (out: Vec<u32>)
    ensures
        value(out@) == value(v@) * number::pow10(k as nat),
{
    let mut out = times_plus(v, 1, 0);
    let mut done: u128 = 0;
    assert(value(v@) * 1 == value(v@)) by (nonlinear_arith);
    while done < k
        invariant
            done <= k,
            value(out@) == value(v@) * number::pow10(done as nat),
        decreases k - done,
    {
        out = times_plus(&out, 10, 0);
        proof {
            let x = value(v@) as int;
            let p = number::pow10(done as nat) as int;
            assert((x * p) * 10 == x * (10 * p)) by (nonlinear_arith);
        }
        done = done + 1;
    }
    out
}

/// The number, when it fits.
pub fn as_wide(v: &Vec<u32>) -> (n: u128)
    requires
        value(v@) < 0x1_0000_0000_0000_0000_0000_0000_0000_0000,
    ensures
        n == value(v@),
{
    let mut n: u128 = 0;
    let mut i: usize = v.len();
    proof {
        assert(v@.take(v@.len() as int) =~= v@);
        assert(0 * place(i as nat) == 0) by (nonlinear_arith);
    }
    while i > 0
        invariant
            i <= v.len(),
            value(v@) < 0x1_0000_0000_0000_0000_0000_0000_0000_0000,
            n * place(i as nat) + value(v@.take(i as int)) == value(v@),
        decreases i,
    {
        let x: u128 = v[i - 1] as u128;
        proof {
            lemma_place_positive(i as nat);
            let p = place((i - 1) as nat) as int;
            assert(v@.take(i as int).drop_last() =~= v@.take(i - 1));
            assert(n * place(i as nat) <= value(v@)) by (nonlinear_arith)
                requires
                    n * place(i as nat) + value(v@.take(i as int)) == value(v@),
            ;
            assert(n < 0x1_0000_0000_0000_0000_0000_0000) by (nonlinear_arith)
                requires
                    n * place(i as nat) < 0x1_0000_0000_0000_0000_0000_0000_0000_0000,
                    place(i as nat) >= 0x1_0000_0000,
            ;
            assert(n * (0x1_0000_0000 * p) + p * x == (n * 0x1_0000_0000 + x) * p)
                by (nonlinear_arith);
        }
        n = n * 0x1_0000_0000 + x;
        i = i - 1;
    }
    assert(v@.take(0) =~= seq![]);
    assert(n * 1 == n) by (nonlinear_arith);
    n
}

/// The number, when it fits.
pub fn as_small(v: &Vec<u32>) -> (n: u64)
    requires
        value(v@) < 0x1_0000_0000_0000_0000,
    ensures
        n == value(v@),
{
    as_wide(v) as u64
}

/// `v` in decimal.
pub fn digits_of(v: &Vec<u32>) -> (s: String)
    ensures
        s@ == text::decimal(value(v@)),
    decreases value(v@),
{
    let ten = small(10);
    if less(v, &ten) {
        return decimal_text(as_small(v) as u128);
    }
    let (tens, ones, _) = divided(v, &ten);
    let mut s = digits_of(&tens);
    let ghost front = s@;
    let last = decimal_text(as_small(&ones) as u128);
    s.append(last.as_str());
    assert(s@ =~= front.push(text::digit_char(value(ones@))));
    s
}

} // verus!
