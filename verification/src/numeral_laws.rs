//! Numerals in and out: what is printed is read back, and what is rounded stays close.

use crate::double;
use crate::double::{Double, Number};
use crate::double_laws;
use crate::number;
use crate::number::NumeralError;
use crate::text;
use crate::text_laws;
use crate::text_laws::worth;
use vstd::prelude::*;

verus! {

// ---------------------------------------------------------------- whole numbers

/// A printed number is read back where it fits, and is too large where it does not; a plus sign
/// before it changes nothing.
pub proof fn law_printed_numbers_are_read(n: nat, max: nat)
    ensures
        number::numeral_value(text::decimal(n), 10, max) == if n <= max {
            Ok::<nat, NumeralError>(n)
        } else {
            Err(NumeralError::TooLarge)
        },
        number::numeral_value(text::hex(n), 16, max) == if n <= max {
            Ok::<nat, NumeralError>(n)
        } else {
            Err(NumeralError::TooLarge)
        },
        number::numeral_value(seq!['+'] + text::decimal(n), 10, max) == number::numeral_value(
            text::decimal(n),
            10,
            max,
        ),
{
    lemma_decimal_read(n, max);
    lemma_hex_read(n, max);
    text_laws::law_decimals_read_back(n);
    text_laws::law_hexadecimals_read_back(n);
    let s = text::decimal(n);
    assert('0' <= s[0] <= '9');
    assert('0' <= text::hex(n)[0] <= '9' || 'a' <= text::hex(n)[0] <= 'f');
    assert((seq!['+'] + s).drop_first() =~= s);
    assert((seq!['+'] + s)[0] == '+');
}

proof fn lemma_decimal_read(n: nat, max: nat)
    ensures
        number::digits_read(text::decimal(n), 10, max) == if n <= max {
            Ok::<nat, NumeralError>(n)
        } else {
            Err(NumeralError::TooLarge)
        },
    decreases n,
{
    reveal_with_fuel(number::digits_read, 2);
    let s = text::decimal(n);
    if n < 10 {
        assert(s.drop_last() =~= seq![]);
    } else {
        lemma_decimal_read(n / 10, max);
        assert(s.drop_last() =~= text::decimal(n / 10));
    }
}

proof fn lemma_hex_read(n: nat, max: nat)
    ensures
        number::digits_read(text::hex(n), 16, max) == if n <= max {
            Ok::<nat, NumeralError>(n)
        } else {
            Err(NumeralError::TooLarge)
        },
    decreases n,
{
    reveal_with_fuel(number::digits_read, 2);
    let s = text::hex(n);
    if n < 16 {
        assert(s.drop_last() =~= seq![]);
    } else {
        lemma_hex_read(n / 16, max);
        assert(s.drop_last() =~= text::hex(n / 16));
    }
}

/// What is read holds digits alone, is no larger than allowed, and is what the digits are worth.
pub proof fn law_what_is_read_is_what_stands_there(s: Seq<char>, max: nat)
    ensures
        number::numeral_value(s, 10, max) matches Ok(n) ==> {
            let digits = if s.len() > 1 && s[0] == '+' {
                s.drop_first()
            } else {
                s
            };
            &&& digits.len() > 0 && n <= max && n == worth(digits, 10)
            &&& forall|i: int| 0 <= i < digits.len() ==> '0' <= #[trigger] digits[i] <= '9'
        },
        number::numeral_value(s, 10, max) == Err::<nat, NumeralError>(NumeralError::Empty)
            <==> s.len() == 0,
{
    lemma_read(number::unsigned_digits(s), max);
}

proof fn lemma_read(s: Seq<char>, max: nat)
    ensures
        number::digits_read(s, 10, max) matches Ok(n) ==> n == worth(s, 10) && (s.len() > 0 ==> n
            <= max) && forall|i: int| 0 <= i < s.len() ==> '0' <= #[trigger] s[i] <= '9',
        number::digits_read(s, 10, max) != Err::<nat, NumeralError>(NumeralError::Empty),
    decreases s.len(),
{
    if s.len() > 0 {
        let t = s.drop_last();
        lemma_read(t, max);
        if number::digits_read(s, 10, max) is Ok {
            assert forall|i: int| 0 <= i < s.len() implies '0' <= #[trigger] s[i] <= '9' by {
                if i < t.len() {
                    assert(s[i] == t[i]);
                } else {
                    assert(s[i] == s.last());
                }
            }
        }
    }
}

/// A printed signed number is read back.
pub proof fn law_signed_numbers_are_read_back(n: i32)
    ensures
        number::signed_value(number::signed_text(n as int)) == Some(n as int),
{
    reveal_strlit("-");
    if n < 0 {
        let m = (-(n as int)) as nat;
        let s = number::signed_text(n as int);
        text_laws::law_decimals_read_back(m);
        lemma_decimal_read(m, 2_147_483_648);
        assert(s.drop_first() =~= text::decimal(m));
        assert(s[0] == '-');
    } else {
        text_laws::law_decimals_read_back(n as nat);
        law_printed_numbers_are_read(n as nat, i32::MAX as nat);
        assert('0' <= text::decimal(n as nat)[0] <= '9');
    }
}

// ---------------------------------------------------------------- rounding

/// Rounding goes to the nearest whole number, and from the middle to the even one.
pub proof fn law_rounding_goes_to_the_nearest(num: nat, den: nat)
    requires
        den > 0,
    ensures
        2 * double_laws::gap((number::rounded(num, den) * den) as int, num as int) <= den,
        2 * double_laws::gap((number::rounded(num, den) * den) as int, num as int) == den
            ==> number::rounded(num, den) % 2 == 0,
{
    let q = num / den;
    vstd::arithmetic::div_mod::lemma_fundamental_div_mod(num as int, den as int);
    assert((q + 1) * den == q * den + den && q * den == den * q) by (nonlinear_arith);
    vstd::arithmetic::div_mod::lemma_mod_bound(num as int, den as int);
}

/// A size in fixed places is off by half a unit of the last place at most.
pub proof fn law_fixed_places_are_close(x: Double, scale: nat)
    requires
        x.wf(),
    ensures
        2 * double_laws::gap(
            (double::scaled_size(x, scale) * double_laws::one()) as int,
            (double::weight(x) * scale) as int,
        ) <= double_laws::one(),
{
    let (a, b) = (double::above(x) as int, double::below(x) as int);
    let w = double::weight(x) as int;
    let t = double_laws::one() as int;
    let s = scale as int;
    let m = double::scaled_size(x, scale) as int;
    double_laws::lemma_one();
    double::lemma_weight(x);
    double::lemma_below_positive(x, x);
    law_rounding_goes_to_the_nearest(double::above(x) * scale, double::below(x));
    let (p, q) = (m * b, a * s);
    let (y, z) = (m * t, w * s);
    assert(p * t == y * b) by (nonlinear_arith)
        requires
            p == m * b,
            y == m * t,
    ;
    assert(q * t == z * b) by (nonlinear_arith)
        requires
            q == a * s,
            z == w * s,
            a * t == w * b,
    ;
    lemma_half_passes(p, q, y, z, b, t);
}

proof fn lemma_half_passes(p: int, q: int, y: int, z: int, b: int, t: int)
    requires
        b > 0,
        t > 0,
        p * t == y * b,
        q * t == z * b,
        2 * double_laws::gap(p, q) <= b,
    ensures
        2 * double_laws::gap(y, z) <= t,
{
    assert((2 * (y - z)) * b <= t * b) by (nonlinear_arith)
        requires
            t > 0,
            p * t == y * b,
            q * t == z * b,
            2 * (p - q) <= b,
    ;
    assert((2 * (z - y)) * b <= t * b) by (nonlinear_arith)
        requires
            t > 0,
            p * t == y * b,
            q * t == z * b,
            2 * (q - p) <= b,
    ;
    assert(2 * (y - z) <= t) by (nonlinear_arith)
        requires
            b > 0,
            (2 * (y - z)) * b <= t * b,
    ;
    assert(2 * (z - y) <= t) by (nonlinear_arith)
        requires
            b > 0,
            (2 * (z - y)) * b <= t * b,
    ;
}

/// Whole numbers are taken off a size from below: what is left is less than one.
pub proof fn law_truncating_goes_down(x: Double, most: nat)
    requires
        x.wf(),
    ensures
        ({
            let n = double::truncated(Number::Finite { negative: false, size: x }, most);
            &&& n <= most
            &&& n * double_laws::one() <= double::weight(x)
            &&& n < most ==> double::weight(x) < (n + 1) * double_laws::one()
        }),
        double::truncated(Number::Finite { negative: true, size: x }, most) == 0,
        double::truncated(Number::NotANumber, most) == 0,
        double::truncated(Number::NegInf, most) == 0,
        double::truncated(Number::PosInf, most) == most,
{
    let (a, b) = (double::above(x) as int, double::below(x) as int);
    let w = double::weight(x) as int;
    let t = double_laws::one() as int;
    double_laws::lemma_one();
    double::lemma_weight(x);
    double::lemma_below_positive(x, x);
    let m = a / b;
    vstd::arithmetic::div_mod::lemma_fundamental_div_mod(a, b);
    vstd::arithmetic::div_mod::lemma_mod_bound(a, b);
    assert(b * m == m * b) by (nonlinear_arith);
    assert((m * t) * b <= w * b) by (nonlinear_arith)
        requires
            m * b <= a,
            a * t == w * b,
            t > 0,
    ;
    assert(w * b < ((m + 1) * t) * b) by (nonlinear_arith)
        requires
            a < m * b + b,
            a * t == w * b,
            t > 0,
    ;
    assert(m * t <= w) by (nonlinear_arith)
        requires
            b > 0,
            (m * t) * b <= w * b,
    ;
    assert(w < (m + 1) * t) by (nonlinear_arith)
        requires
            b > 0,
            w * b < ((m + 1) * t) * b,
    ;
    let c = number::capped(m as nat, most) as int;
    assert(c * t <= m * t) by (nonlinear_arith)
        requires
            c <= m,
            t > 0,
    ;
}

// ---------------------------------------------------------------- decimals

/// What two numerals one after the other are worth.
pub proof fn law_numerals_shift(a: Seq<char>, b: Seq<char>)
    ensures
        worth(a + b, 10) == worth(a, 10) * number::pow10(b.len()) + worth(b, 10),
    decreases b.len(),
{
    let s = a + b;
    if b.len() == 0 {
        assert(s =~= a);
        assert(number::pow10(b.len()) == 1);
        assert(worth(a, 10) * 1 == worth(a, 10));
    } else {
        let c = b.drop_last();
        law_numerals_shift(a, c);
        assert(s.drop_last() =~= a + c);
        assert(s.last() == b.last());
        let p = number::pow10(c.len()) as int;
        let w = worth(a, 10);
        assert(number::pow10(b.len()) == 10 * p);
        assert((w * p) * 10 == w * (10 * p)) by (nonlinear_arith);
    }
}

proof fn lemma_zeros(n: nat)
    ensures
        worth(text::repeated('0', n), 10) == 0,
    decreases n,
{
    let s = text::repeated('0', n);
    if n > 0 {
        lemma_zeros((n - 1) as nat);
        assert(s.drop_last() =~= text::repeated('0', (n - 1) as nat));
    }
}

proof fn lemma_decimal_length(n: nat, places: nat)
    requires
        n < number::pow10(places),
        places > 0,
    ensures
        text::decimal(n).len() <= places,
    decreases places,
{
    if n >= 10 {
        assert(number::pow10(places) == 10 * number::pow10((places - 1) as nat));
        assert(number::pow10(1) == 10) by {
            reveal_with_fuel(number::pow10, 2);
        }
        lemma_decimal_length(n / 10, (places - 1) as nat);
    }
}

/// A text in fixed places is the whole part, a point and exactly that many digits, which together
/// are worth the number in units of the last place.
pub proof fn law_fixed_texts_read_back(n: nat, places: nat)
    requires
        places > 0,
    ensures
        ({
            let front = text::decimal(n / number::pow10(places));
            let tail = number::fixed(n, places).skip(front.len() as int + 1);
            &&& number::fixed(n, places) == front + seq!['.'] + tail
            &&& tail.len() == places
            &&& worth(front + tail, 10) == n
        }),
{
    let p = number::pow10(places);
    number::lemma_pow10_positive(places);
    let front = text::decimal(n / p);
    let rest = text::decimal(n % p);
    let tail = number::fraction(n, places);
    reveal_strlit(".");
    assert("."@ =~= seq!['.']);
    vstd::arithmetic::div_mod::lemma_mod_bound(n as int, p as int);
    vstd::arithmetic::div_mod::lemma_fundamental_div_mod(n as int, p as int);
    lemma_decimal_length(n % p, places);
    text_laws::law_decimals_read_back(n / p);
    text_laws::law_decimals_read_back(n % p);
    let zeros = text::repeated('0', (places - rest.len()) as nat);
    assert(tail =~= zeros + rest);
    law_numerals_shift(zeros, rest);
    lemma_zeros(zeros.len());
    law_numerals_shift(front, tail);
    assert(number::fixed(n, places).skip(front.len() as int + 1) =~= tail);
    assert(p * (n / p) == (n / p) * p) by (nonlinear_arith);
    assert(0 * number::pow10(rest.len()) == 0);
}

/// A decimal with a point stands for the number nearest to what its digits are worth over the
/// power of ten that its places give; a minus sign before it gives the opposite.
pub proof fn law_decimals_are_read_to_the_nearest(a: Seq<char>, b: Seq<char>)
    requires
        a.len() > 0,
        forall|i: int| 0 <= i < a.len() ==> '0' <= #[trigger] a[i] <= '9',
        forall|i: int| 0 <= i < b.len() ==> '0' <= #[trigger] b[i] <= '9',
    ensures
        double::decimal_value(a + seq!['.'] + b) == Some(
            double::ratio(worth(a + b, 10) as nat, number::pow10(b.len())),
        ),
        double::decimal_value(a) == Some(double::ratio(worth(a, 10) as nat, 1)),
        double::decimal_value(seq!['-'] + (a + seq!['.'] + b)) == Some(
            double::signed(
                true,
                double::nearest(worth(a + b, 10) as nat, number::pow10(b.len())),
            ),
        ),
{
    let s = a + seq!['.'] + b;
    assert forall|i: int| 0 <= i < s.len() implies ('0' <= #[trigger] s[i] <= '9' || (i == a.len()
        && s[i] == '.')) by {
        if i < a.len() {
            assert(s[i] == a[i]);
        } else if i > a.len() {
            assert(s[i] == b[i - a.len() - 1]);
        }
    }
    lemma_no_mark(s);
    lemma_no_mark(a);
    lemma_no_word(s);
    lemma_no_word(a);
    s.index_of_first_ensures('.');
    a.index_of_first_ensures('.');
    let i = a.len() as int;
    assert(s[i] == '.');
    assert(s.index_of_first('.') == Some(i));
    assert(s.take(i) + s.skip(i + 1) =~= a + b);
    let d = a + b;
    assert forall|j: int| 0 <= j < d.len() implies '0' <= #[trigger] d[j] <= '9' by {
        if j < a.len() {
            assert(d[j] == a[j]);
        } else {
            assert(d[j] == b[j - a.len()]);
        }
    }
    lemma_digits_worth(d);
    lemma_digits_worth(a);
    assert(s[0] == a[0] && '0' <= a[0] <= '9');
    number::lemma_pow10_positive(b.len());
    assert(number::pow10(0) == 1);
    let m = seq!['-'] + s;
    assert(m.drop_first() =~= s);
    assert(m[0] == '-');
    if b.len() == 0 {
        assert(worth(d, 10) as nat * number::pow10(0) == worth(d, 10) as nat) by (nonlinear_arith)
            requires
                number::pow10(0) == 1,
        ;
    }
    assert(worth(a, 10) as nat * number::pow10(0) == worth(a, 10) as nat) by (nonlinear_arith)
        requires
            number::pow10(0) == 1,
    ;
}

proof fn lemma_digits_worth(s: Seq<char>)
    requires
        forall|i: int| 0 <= i < s.len() ==> '0' <= #[trigger] s[i] <= '9',
    ensures
        number::digits_value(s) == worth(s, 10),
    decreases s.len(),
{
    if s.len() > 0 {
        let t = s.drop_last();
        assert forall|i: int| 0 <= i < t.len() implies '0' <= #[trigger] t[i] <= '9' by {
            assert(t[i] == s[i]);
        }
        lemma_digits_worth(t);
        assert('0' <= s[s.len() - 1] <= '9');
    }
}

proof fn lemma_no_mark(s: Seq<char>)
    requires
        forall|i: int| 0 <= i < s.len() ==> '0' <= #[trigger] s[i] <= '9' || s[i] == '.',
    ensures
        number::exponent_mark(s) is None,
    decreases s.len(),
{
    if s.len() > 0 {
        let t = s.drop_first();
        assert forall|i: int| 0 <= i < t.len() implies ('0' <= #[trigger] t[i] <= '9' || t[i]
            == '.') by {
            assert(t[i] == s[i + 1]);
        }
        lemma_no_mark(t);
        assert('0' <= s[0] <= '9' || s[0] == '.');
    }
}

proof fn lemma_no_word(s: Seq<char>)
    requires
        s.len() > 0 && '0' <= s[0] <= '9',
    ensures
        ({
            let word = s.map_values(|c: char| text::ascii_lower(c));
            word != "inf"@ && word != "infinity"@ && word != "nan"@
        }),
{
    reveal_strlit("inf");
    reveal_strlit("infinity");
    reveal_strlit("nan");
    let word = s.map_values(|c: char| text::ascii_lower(c));
    assert(word[0] == s[0]);
    assert("inf"@[0] == 'i' && "infinity"@[0] == 'i' && "nan"@[0] == 'n');
}

/// A number below zero is printed as the one above it behind a minus sign; the digits are those of
/// the nearest number of units of the last place.
pub proof fn law_printed_numbers_show_their_sign(x: Double, places: nat)
    ensures
        double::fixed(Number::Finite { negative: true, size: x }, places) == seq!['-']
            + double::fixed(Number::Finite { negative: false, size: x }, places),
        double::shortest(Number::Finite { negative: true, size: x }) == seq!['-']
            + double::shortest(Number::Finite { negative: false, size: x }),
        places > 0 ==> double::fixed(Number::Finite { negative: false, size: x }, places)
            == number::fixed(double::scaled_size(x, number::pow10(places)), places),
        double::fixed(Number::Finite { negative: false, size: x }, 0) == text::decimal(
            double::scaled_size(x, 1),
        ),
        double::fixed(Number::NotANumber, places) == "NaN"@,
        double::fixed(Number::PosInf, places) == "inf"@,
        double::fixed(Number::NegInf, places) == "-inf"@,
{
    reveal_strlit("-");
    reveal_strlit("");
    assert("-"@ =~= seq!['-']);
    assert(number::pow10(0) == 1);
    let s = double::fixed_size(x, places);
    assert(double::sign(false) + s =~= s);
    let z = double::fixed_size(x, 0);
    assert(double::sign(false) + z =~= z);
    let d = double::shortest_size(x);
    assert(double::sign(false) + d =~= d);
}

} // verus!
