//! Numbers as text: fixed-point decimals, and the parts of numerals to be read.

use crate::text;
use crate::text::{decimal_text, find_char, slice_of};
use vstd::prelude::*;

verus! {

// ---------------------------------------------------------------- rounding

/// Ten to the power `n`.
pub open spec fn pow10(n: nat) -> nat
    decreases n,
{
    if n == 0 {
        1
    } else {
        10 * pow10((n - 1) as nat)
    }
}

/// The integer nearest to `num / den`; a half goes to the even neighbour.
pub open spec fn rounded(num: nat, den: nat) -> nat {
    let q = num / den;
    let twice = 2 * (num % den);
    if twice > den || (twice == den && q % 2 == 1) {
        q + 1
    } else {
        q
    }
}

// ---------------------------------------------------------------- fixed-point text

/// The digits after the point: `n` modulo ten to the `places`, zero-filled.
pub open spec fn fraction(n: nat, places: nat) -> Seq<char> {
    text::padded(text::decimal(n % pow10(places)), places, '0')
}

/// `n / 10^places` with exactly `places` digits after the point.
pub open spec fn fixed(n: nat, places: nat) -> Seq<char> {
    text::decimal(n / pow10(places)) + "."@ + fraction(n, places)
}

/// `s` without its trailing zeros.
pub open spec fn without_zeros(s: Seq<char>) -> Seq<char>
    decreases s.len(),
{
    if s.len() > 0 && s.last() == '0' {
        without_zeros(s.drop_last())
    } else {
        s
    }
}

/// `n / 10^places` in the shortest form: no trailing zeros, no point without digits behind it.
pub open spec fn shortest(n: nat, places: nat) -> Seq<char> {
    let tail = without_zeros(fraction(n, places));
    if tail.len() == 0 {
        text::decimal(n / pow10(places))
    } else {
        text::decimal(n / pow10(places)) + "."@ + tail
    }
}

/// A power of ten is at least one.
pub proof fn lemma_pow10_positive(n: nat)
    ensures
        pow10(n) >= 1,
    decreases n,
{
    if n > 0 {
        lemma_pow10_positive((n - 1) as nat);
    }
}

// ---------------------------------------------------------------- signed text

/// A signed integer as text.
pub open spec fn signed_text(n: int) -> Seq<char> {
    if n < 0 {
        "-"@ + text::decimal((-n) as nat)
    } else {
        text::decimal(n as nat)
    }
}

/// A signed integer as text.
pub fn signed_to_text(n: i32) -> (s: String)
    ensures
        s@ == signed_text(n as int),
{
    if n < 0 {
        let mut s = "-".to_owned();
        s.append(decimal_text((-(n as i128)) as u128).as_str());
        s
    } else {
        decimal_text(n as u128)
    }
}

// ---------------------------------------------------------------- reading integers

/// Why a numeral could not be read.
#[derive(Debug, Clone, Copy, PartialEq, Eq, Structural)]
pub enum NumeralError {
    /// There is nothing to read.
    Empty,
    /// A character is not a digit of the radix.
    InvalidDigit,
    /// The value is larger than the target holds.
    TooLarge,
}

impl NumeralError {
    /// The reason in words.
    pub fn message(self) -> (s: &'static str)
        ensures
            s@ == numeral_error_text(self),
    {
        match self {
            NumeralError::Empty => "cannot parse integer from empty string",
            NumeralError::InvalidDigit => "invalid digit found in string",
            NumeralError::TooLarge => "number too large to fit in target type",
        }
    }
}

/// The reason in words.
pub open spec fn numeral_error_text(e: NumeralError) -> Seq<char> {
    match e {
        NumeralError::Empty => "cannot parse integer from empty string"@,
        NumeralError::InvalidDigit => "invalid digit found in string"@,
        NumeralError::TooLarge => "number too large to fit in target type"@,
    }
}

/// The value of a digit: `0` to `9`, and `a` to `f` in either case above nine.
pub open spec fn digit_value(c: char) -> Option<nat> {
    if '0' <= c <= '9' {
        Some((c as nat - 48) as nat)
    } else if 'a' <= c <= 'f' {
        Some((c as nat - 87) as nat)
    } else if 'A' <= c <= 'F' {
        Some((c as nat - 55) as nat)
    } else {
        None
    }
}

/// What reading the digits `s` from left to right comes to: the value, or what stopped it first.
pub open spec fn digits_read(s: Seq<char>, radix: nat, max: nat) -> Result<nat, NumeralError>
    decreases s.len(),
{
    if s.len() == 0 {
        Ok(0)
    } else {
        match digits_read(s.drop_last(), radix, max) {
            Err(e) => Err(e),
            Ok(v) => match digit_value(s.last()) {
                None => Err(NumeralError::InvalidDigit),
                Some(d) => if d >= radix {
                    Err(NumeralError::InvalidDigit)
                } else if v * radix + d > max {
                    Err(NumeralError::TooLarge)
                } else {
                    Ok(v * radix + d)
                },
            },
        }
    }
}

/// The digits of an unsigned numeral, behind an optional `+`.
pub open spec fn unsigned_digits(s: Seq<char>) -> Seq<char> {
    if s.len() > 1 && s[0] == '+' {
        s.drop_first()
    } else {
        s
    }
}

/// The value of an unsigned numeral, at most `max`.
pub open spec fn numeral_value(s: Seq<char>, radix: nat, max: nat) -> Result<nat, NumeralError> {
    if s.len() == 0 {
        Err(NumeralError::Empty)
    } else {
        digits_read(unsigned_digits(s), radix, max)
    }
}

/// The value of a digit.
pub fn digit_of(c: char) -> (d: Option<u8>)
    ensures
        match d {
            Some(v) => digit_value(c) == Some(v as nat) && v < 16,
            None => digit_value(c) is None,
        },
{
    if '0' <= c && c <= '9' {
        Some((c as u8) - 48u8)
    } else if 'a' <= c && c <= 'f' {
        Some((c as u8) - 87u8)
    } else if 'A' <= c && c <= 'F' {
        Some((c as u8) - 55u8)
    } else {
        None
    }
}

proof fn lemma_digits_read_error_stays(s: Seq<char>, i: int, radix: nat, max: nat)
    requires
        0 <= i <= s.len(),
        digits_read(s.take(i), radix, max) is Err,
    ensures
        digits_read(s, radix, max) == digits_read(s.take(i), radix, max),
    decreases s.len() - i,
{
    if i < s.len() {
        assert(s.take(i + 1).drop_last() =~= s.take(i));
        lemma_digits_read_error_stays(s, i + 1, radix, max);
    } else {
        assert(s.take(i) =~= s);
    }
}

fn read_digits(v: &Vec<char>, from: usize, radix: u8, max: u64) -> (r: Result<u64, NumeralError>)
    requires
        from <= v.len(),
        radix == 10 || radix == 16,
    ensures
        match r {
            Ok(n) => digits_read(v@.skip(from as int), radix as nat, max as nat) == Ok::<
                nat,
                NumeralError,
            >(n as nat) && n <= max,
            Err(e) => digits_read(v@.skip(from as int), radix as nat, max as nat) == Err::<
                nat,
                NumeralError,
            >(e),
        },
{
    let ghost s = v@.skip(from as int);
    let mut acc: u64 = 0;
    let mut i: usize = from;
    while i < v.len()
        invariant
            from <= i <= v.len(),
            s == v@.skip(from as int),
            radix == 10 || radix == 16,
            acc <= max,
            digits_read(s.take(i - from), radix as nat, max as nat) == Ok::<nat, NumeralError>(
                acc as nat,
            ),
        decreases v.len() - i,
    {
        let ghost k = i - from;
        assert(s.take(k + 1).drop_last() =~= s.take(k));
        assert(s.take(k + 1).last() == v@[i as int]);
        match digit_of(v[i]) {
            None => {
                proof {
                    lemma_digits_read_error_stays(s, k + 1, radix as nat, max as nat);
                }
                return Err(NumeralError::InvalidDigit);
            },
            Some(d) => {
                if d >= radix {
                    proof {
                        lemma_digits_read_error_stays(s, k + 1, radix as nat, max as nat);
                    }
                    return Err(NumeralError::InvalidDigit);
                }
                let next: u128 = acc as u128 * radix as u128 + d as u128;
                if next > max as u128 {
                    proof {
                        lemma_digits_read_error_stays(s, k + 1, radix as nat, max as nat);
                    }
                    return Err(NumeralError::TooLarge);
                }
                acc = next as u64;
            },
        }
        i = i + 1;
    }
    assert(s.take(s.len() as int) =~= s);
    Ok(acc)
}

/// Read an unsigned numeral of at most `max` in radix ten or sixteen.
pub fn read_unsigned(v: &Vec<char>, radix: u8, max: u64) -> (r: Result<u64, NumeralError>)
    requires
        radix == 10 || radix == 16,
    ensures
        match r {
            Ok(n) => numeral_value(v@, radix as nat, max as nat) == Ok::<nat, NumeralError>(
                n as nat,
            ) && n <= max,
            Err(e) => numeral_value(v@, radix as nat, max as nat) == Err::<nat, NumeralError>(e),
        },
{
    if v.len() == 0 {
        return Err(NumeralError::Empty);
    }
    if v.len() > 1 && v[0] == '+' {
        assert(v@.skip(1) =~= v@.drop_first());
        read_digits(v, 1, radix, max)
    } else {
        assert(v@.skip(0) =~= v@);
        read_digits(v, 0, radix, max)
    }
}

// ---------------------------------------------------------------- reading signed integers

/// The value of a signed decimal numeral that fits 32 bits.
pub open spec fn signed_value(s: Seq<char>) -> Option<int> {
    if s.len() > 1 && s[0] == '-' {
        match digits_read(s.drop_first(), 10, 2_147_483_648) {
            Ok(n) => Some(-(n as int)),
            Err(_) => None,
        }
    } else {
        match numeral_value(s, 10, i32::MAX as nat) {
            Ok(n) => Some(n as int),
            Err(_) => None,
        }
    }
}

/// Read a signed decimal numeral.
pub fn read_signed(v: &Vec<char>) -> (r: Option<i32>)
    ensures
        match r {
            Some(n) => signed_value(v@) == Some(n as int),
            None => signed_value(v@) is None,
        },
{
    if v.len() > 1 && v[0] == '-' {
        assert(v@.skip(1) =~= v@.drop_first());
        match read_digits(v, 1, 10, 2_147_483_648) {
            Ok(n) => Some((-(n as i64)) as i32),
            Err(_) => None,
        }
    } else {
        match read_unsigned(v, 10, i32::MAX as u64) {
            Ok(n) => Some(n as i32),
            Err(_) => None,
        }
    }
}

// ---------------------------------------------------------------- reading decimals

/// Exponents are counted up to here.
pub const MOST_EXPONENT: i64 = 1_000_000_000_000_000_000;

/// Whether every character is a decimal digit.
pub open spec fn all_digits(s: Seq<char>) -> bool {
    forall|i: int| 0 <= i < s.len() ==> '0' <= #[trigger] s[i] <= '9'
}

/// `n`, or `cap` when `n` is larger.
pub open spec fn capped(n: nat, cap: nat) -> nat {
    if n <= cap {
        n
    } else {
        cap
    }
}

/// The value of decimal digits, no larger than `cap`.
pub open spec fn digits_capped(s: Seq<char>, cap: nat) -> nat
    decreases s.len(),
{
    if s.len() == 0 {
        0
    } else {
        capped(digits_capped(s.drop_last(), cap) * 10 + (s.last() as nat - 48) as nat, cap)
    }
}

/// The exponent behind the `e`, when it is well formed.
pub open spec fn exponent_value(s: Seq<char>) -> Option<int> {
    let signed = s.len() > 0 && (s[0] == '-' || s[0] == '+');
    let digits = if signed {
        s.drop_first()
    } else {
        s
    };
    if digits.len() > 0 && all_digits(digits) {
        let n = digits_capped(digits, MOST_EXPONENT as nat) as int;
        if signed && s[0] == '-' {
            Some(-n)
        } else {
            Some(n)
        }
    } else {
        None
    }
}

/// A mantissa without its point, and how many digits stood behind it, when it is well formed.
pub open spec fn mantissa(s: Seq<char>) -> Option<(Seq<char>, int)> {
    let (digits, places) = match s.index_of_first('.') {
        Some(i) => (s.take(i) + s.skip(i + 1), s.len() - i - 1),
        None => (s, 0),
    };
    if digits.len() > 0 && all_digits(digits) {
        Some((digits, places))
    } else {
        None
    }
}

/// Where the exponent begins.
pub open spec fn exponent_mark(s: Seq<char>) -> Option<int>
    decreases s.len(),
{
    if s.len() == 0 {
        None
    } else if s[0] == 'e' || s[0] == 'E' {
        Some(0)
    } else {
        match exponent_mark(s.drop_first()) {
            Some(i) => Some(i + 1),
            None => None,
        }
    }
}

/// The value of decimal digits.
pub open spec fn digits_value(s: Seq<char>) -> nat
    decreases s.len(),
{
    if s.len() == 0 {
        0
    } else {
        digits_value(s.drop_last()) * 10 + (s.last() as nat - 48) as nat
    }
}

fn are_digits(v: &Vec<char>) -> (r: bool)
    ensures
        r == all_digits(v@),
{
    let mut i: usize = 0;
    while i < v.len()
        invariant
            i <= v.len(),
            forall|j: int| 0 <= j < i ==> '0' <= #[trigger] v@[j] <= '9',
        decreases v.len() - i,
    {
        let c: char = v[i];
        if c < '0' || c > '9' {
            assert(!('0' <= v@[i as int] <= '9'));
            return false;
        }
        i = i + 1;
    }
    true
}

fn digits_up_to(v: &Vec<char>, n: usize, cap: u64) -> (r: u64)
    requires
        n <= v.len(),
        all_digits(v@),
        cap <= MOST_EXPONENT,
    ensures
        r == digits_capped(v@.take(n as int), cap as nat),
        r <= cap,
{
    let mut r: u64 = 0;
    let mut i: usize = 0;
    assert(v@.take(0) =~= seq![]);
    while i < n
        invariant
            i <= n <= v.len(),
            all_digits(v@),
            cap <= MOST_EXPONENT,
            r <= cap,
            r == digits_capped(v@.take(i as int), cap as nat),
        decreases n - i,
    {
        assert(v@.take(i + 1).drop_last() =~= v@.take(i as int));
        let d: u64 = match digit_of(v[i]) {
            Some(d) => d as u64,
            None => 0,
        };
        assert(d == (v@[i as int] as nat - 48) as nat);
        let next: u128 = r as u128 * 10 + d as u128;
        r = if next <= cap as u128 {
            next as u64
        } else {
            cap
        };
        i = i + 1;
    }
    r
}

/// Read the exponent behind the `e`.
pub fn read_exponent(v: &Vec<char>) -> (r: Option<i64>)
    ensures
        match r {
            Some(n) => exponent_value(v@) == Some(n as int) && -MOST_EXPONENT <= n
                <= MOST_EXPONENT,
            None => exponent_value(v@) is None,
        },
{
    let signed = v.len() > 0 && (v[0] == '-' || v[0] == '+');
    let digits = if signed {
        assert(v@.subrange(1, v@.len() as int) =~= v@.drop_first());
        slice_of(v, 1, v.len())
    } else {
        assert(v@.subrange(0, v@.len() as int) =~= v@);
        slice_of(v, 0, v.len())
    };
    if digits.len() == 0 || !are_digits(&digits) {
        return None;
    }
    assert(digits@.take(digits@.len() as int) =~= digits@);
    let n: u64 = digits_up_to(&digits, digits.len(), MOST_EXPONENT as u64);
    if signed && v[0] == '-' {
        Some(-(n as i64))
    } else {
        Some(n as i64)
    }
}

/// Read a mantissa.
pub fn read_mantissa(v: &Vec<char>) -> (r: Option<(Vec<char>, usize)>)
    ensures
        match r {
            Some((digits, places)) => mantissa(v@) == Some((digits@, places as int)) && all_digits(
                digits@,
            ),
            None => mantissa(v@) is None,
        },
{
    proof {
        v@.index_of_first_ensures('.');
    }
    let (digits, places) = match find_char(v, '.') {
        Some(i) => {
            let mut d = slice_of(v, 0, i);
            let mut rest = slice_of(v, i + 1, v.len());
            assert(d@ =~= v@.take(i as int));
            assert(rest@ =~= v@.skip(i + 1));
            d.append(&mut rest);
            (d, v.len() - i - 1)
        },
        None => {
            assert(v@.subrange(0, v@.len() as int) =~= v@);
            (slice_of(v, 0, v.len()), 0usize)
        },
    };
    if digits.len() == 0 || !are_digits(&digits) {
        None
    } else {
        Some((digits, places))
    }
}

/// Find where the exponent begins.
pub fn find_exponent(v: &Vec<char>) -> (r: Option<usize>)
    ensures
        match r {
            Some(i) => exponent_mark(v@) == Some(i as int) && i < v.len(),
            None => exponent_mark(v@) is None,
        },
{
    let mut i: usize = 0;
    assert(v@.skip(0) =~= v@);
    while i < v.len()
        invariant
            i <= v.len(),
            exponent_mark(v@) == (match exponent_mark(v@.skip(i as int)) {
                Some(k) => Some(k + i),
                None => None,
            }),
        decreases v.len() - i,
    {
        let ghost rest = v@.skip(i as int);
        assert(rest[0] == v@[i as int]);
        assert(rest.drop_first() =~= v@.skip(i + 1));
        if v[i] == 'e' || v[i] == 'E' {
            return Some(i);
        }
        i = i + 1;
    }
    None
}

} // verus!
