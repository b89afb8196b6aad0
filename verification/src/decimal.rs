//! Exact decimal quantisation for the pack compilers: decimal text to a
//! fixed-point integer with a given number of fractional bits, rounded half
//! up without binary floating point, and source identities.
use crate::crc::{crc32, crc32_ieee_of};
use crate::fnv::{fnv_fold, rolling_hash, FNV_OFFSET};
use crate::le::{rotate_left, rotl};
use vstd::prelude::*;
use vstd::string::{StrSliceExecFns, StringSliceAdditionalSpecFns};

verus! {

/// Why a source could not be compiled into a pack.
#[derive(Clone, Copy, Debug, PartialEq, Eq, Structural)]
pub enum CompileError {
    Schema,
    Profile,
    Decimal,
    Range,
    Count,
    Identity,
}

/// The characters with the Unicode White_Space property.
pub open spec fn is_white_space(c: char) -> bool {
    let v = c as u32;
    (0x9 <= v <= 0xd) || v == 0x20 || v == 0x85 || v == 0xa0 || v == 0x1680 || (0x2000 <= v
        <= 0x200a) || v == 0x2028 || v == 0x2029 || v == 0x202f || v == 0x205f || v == 0x3000
}

pub open spec fn trim_start_chars(s: Seq<char>) -> Seq<char>
    decreases s.len(),
{
    if s.len() > 0 && is_white_space(s[0]) {
        trim_start_chars(s.drop_first())
    } else {
        s
    }
}

pub open spec fn trim_end_chars(s: Seq<char>) -> Seq<char>
    decreases s.len(),
{
    if s.len() > 0 && is_white_space(s.last()) {
        trim_end_chars(s.drop_last())
    } else {
        s
    }
}

/// The text without leading and trailing white space.
pub open spec fn trimmed(s: Seq<char>) -> Seq<char> {
    trim_end_chars(trim_start_chars(s))
}

/// Calls `str::trim`, which returns the text without its leading and
/// trailing characters of the Unicode White_Space property.
#[verifier::external_body]
fn trim_text(text: &str) -> (r: &str)
    ensures
        r@ == trimmed(text@),
{
    text.trim()
}

pub open spec fn is_digit(c: char) -> bool {
    '0' <= c && c <= '9'
}

pub open spec fn all_digits(s: Seq<char>) -> bool {
    forall|i: int| 0 <= i < s.len() ==> #[trigger] is_digit(s[i])
}

/// The value of a run of decimal digits.
pub open spec fn digits_value(s: Seq<char>) -> int
    decreases s.len(),
{
    if s.len() == 0 {
        0
    } else {
        digits_value(s.drop_last()) * 10 + (s.last() as int - '0' as int)
    }
}

/// The first `.` at or after `k`, or -1.
pub open spec fn dot_from(s: Seq<char>, k: int) -> int
    decreases s.len() - k,
{
    if k < 0 || k >= s.len() {
        -1
    } else if s[k] == '.' {
        k
    } else {
        dot_from(s, k + 1)
    }
}

pub open spec fn pow10(n: nat) -> int
    decreases n,
{
    if n == 0 {
        1
    } else {
        10 * pow10((n - 1) as nat)
    }
}

pub open spec fn pow2(n: nat) -> int
    decreases n,
{
    if n == 0 {
        1
    } else {
        2 * pow2((n - 1) as nat)
    }
}

/// The sign, whole digits and fraction digits of a decimal, or `None` when
/// the text is not a plain decimal (`-`, digits, optionally `.` and digits,
/// at most 30 fraction digits, no exponent or `+`).
pub open spec fn decimal_parts(t: Seq<char>) -> Option<(bool, Seq<char>, Seq<char>)> {
    if t.len() == 0 || t.contains('e') || t.contains('E') || t.contains('+') {
        None
    } else {
        let negative = t[0] == '-';
        let start = if negative {
            1int
        } else {
            0int
        };
        let d = dot_from(t, start);
        let whole = if d < 0 {
            t.subrange(start, t.len() as int)
        } else {
            t.subrange(start, d)
        };
        let d2 = if d < 0 {
            -1
        } else {
            dot_from(t, d + 1)
        };
        let fraction = if d < 0 {
            Seq::empty()
        } else if d2 < 0 {
            t.subrange(d + 1, t.len() as int)
        } else {
            t.subrange(d + 1, d2)
        };
        if d2 >= 0 || whole.len() == 0 || !all_digits(whole) || !all_digits(fraction)
            || fraction.len() > 30 {
            None
        } else {
            Some((negative, whole, fraction))
        }
    }
}

/// The numerator times the fixed-point scale `2^bits` as a 128-bit integer
/// computes it (at 127 bits the scale is the most negative value), or
/// `None` on overflow.
pub open spec fn scaled_numerator(num: int, bits: nat) -> Option<int> {
    if bits == 127 {
        if num == 0 {
            Some(0)
        } else if num == 1 {
            Some(i128::MIN as int)
        } else {
            None
        }
    } else if num * pow2(bits) > i128::MAX {
        None
    } else {
        Some(num * pow2(bits))
    }
}

/// A quotient rounded toward zero.
pub open spec fn quotient_toward_zero(a: int, b: int) -> int {
    if a >= 0 {
        a / b
    } else {
        -((-a) / b)
    }
}

/// The numerator of a well-formed decimal scaled to `bits` fractional bits,
/// over the denominator `10^(fraction digits)`; `None` when it does not fit
/// 128 bits.
pub open spec fn scaled_decimal(whole: Seq<char>, fraction: Seq<char>, bits: nat) -> Option<int> {
    let den = pow10(fraction.len());
    let num = digits_value(whole) * den + digits_value(fraction);
    if num > i128::MAX {
        None
    } else {
        scaled_numerator(num, bits)
    }
}

/// The scaled value divided by the denominator, rounded half up in magnitude.
pub open spec fn rounded_of(scaled: int, fraction: Seq<char>) -> int {
    let den = pow10(fraction.len());
    quotient_toward_zero(scaled + den / 2, den)
}

/// What parsing decimal text into a fixed-point value with `bits`
/// fractional bits gives: the value rounded half up in magnitude, or
/// `Decimal` for text that is not a plain decimal or whose whole part does
/// not fit 128 bits, or `Range` when the value does not fit.
pub open spec fn decimal_of(t: Seq<char>, bits: nat) -> Result<i32, CompileError> {
    match decimal_parts(t) {
        None => Err(CompileError::Decimal),
        Some(parts) => {
            let (negative, whole, fraction) = parts;
            if digits_value(whole) > i128::MAX {
                Err(CompileError::Decimal)
            } else {
                match scaled_decimal(whole, fraction, bits) {
                    None => Err(CompileError::Range),
                    Some(scaled) => {
                        let rounded = rounded_of(scaled, fraction);
                        let signed = if negative {
                            -rounded
                        } else {
                            rounded
                        };
                        if signed < i32::MIN || signed > i32::MAX {
                            Err(CompileError::Range)
                        } else {
                            Ok(signed as i32)
                        }
                    },
                }
            }
        },
    }
}

/// The inputs on which the parser's 128-bit arithmetic cannot go on: the
/// rounding half-denominator pushes the scaled numerator past the largest
/// value, or a negative value's rounded magnitude is the most negative
/// value (as with `-1` at 127 fractional bits).
pub open spec fn decimal_overflows(t: Seq<char>, bits: nat) -> bool {
    match decimal_parts(t) {
        None => false,
        Some(parts) => {
            let (negative, whole, fraction) = parts;
            &&& digits_value(whole) <= i128::MAX
            &&& scaled_decimal(whole, fraction, bits) matches Some(scaled) && (scaled + pow10(
                fraction.len(),
            ) / 2 > i128::MAX || (negative && rounded_of(scaled, fraction) == i128::MIN))
        },
    }
}

fn text_chars(t: &str) -> (r: Vec<char>)
    ensures
        r@ == t@,
{
    let n = t.unicode_len();
    let mut out: Vec<char> = Vec::new();
    let mut i: usize = 0;
    while i < n
        invariant
            i <= n == t@.len(),
            out@ == t@.take(i as int),
        decreases n - i,
    {
        out.push(t.get_char(i));
        i += 1;
        assert(out@ =~= t@.take(i as int));
    }
    assert(t@.take(n as int) =~= t@);
    out
}

fn contains_char(t: &Vec<char>, c: char) -> (r: bool)
    ensures
        r == t@.contains(c),
{
    let mut i: usize = 0;
    while i < t.len()
        invariant
            i <= t@.len(),
            forall|k: int| 0 <= k < i ==> t@[k] != c,
        decreases t@.len() - i,
    {
        if t[i] == c {
            assert(t@[i as int] == c);
            return true;
        }
        i += 1;
    }
    false
}

fn find_dot(t: &Vec<char>, k: usize) -> (r: Option<usize>)
    requires
        k <= t@.len(),
    ensures
        match r {
            Some(d) => dot_from(t@, k as int) == d && k <= d < t@.len(),
            None => dot_from(t@, k as int) == -1,
        },
{
    let mut i: usize = k;
    while i < t.len()
        invariant
            k <= i <= t@.len(),
            dot_from(t@, k as int) == dot_from(t@, i as int),
        decreases t@.len() - i,
    {
        if t[i] == '.' {
            return Some(i);
        }
        i += 1;
    }
    None
}

fn all_digits_in(t: &Vec<char>, from: usize, to: usize) -> (r: bool)
    requires
        from <= to <= t@.len(),
    ensures
        r == all_digits(t@.subrange(from as int, to as int)),
{
    let mut i: usize = from;
    while i < to
        invariant
            from <= i <= to <= t@.len(),
            forall|k: int| from <= k < i ==> is_digit(#[trigger] t@[k]),
        decreases to - i,
    {
        if !(t[i] >= '0' && t[i] <= '9') {
            assert(!is_digit(t@.subrange(from as int, to as int)[i - from]));
            return false;
        }
        i += 1;
    }
    assert forall|k: int| 0 <= k < to - from implies #[trigger] is_digit(
        t@.subrange(from as int, to as int)[k],
    ) by {
        assert(t@.subrange(from as int, to as int)[k] == t@[from + k]);
    }
    true
}

proof fn lemma_digits_value_grows(s: Seq<char>, k: int)
    requires
        all_digits(s),
        0 <= k <= s.len(),
    ensures
        0 <= digits_value(s.take(k)) <= digits_value(s),
    decreases s.len() - k,
{
    if k < s.len() {
        lemma_digits_value_grows(s, k + 1);
        assert(s.take(k + 1).drop_last() =~= s.take(k));
        assert(is_digit(s[k]));
    } else {
        assert(s.take(k) =~= s);
        lemma_digits_nonnegative(s);
    }
}

proof fn lemma_digits_nonnegative(s: Seq<char>)
    requires
        all_digits(s),
    ensures
        0 <= digits_value(s),
    decreases s.len(),
{
    if s.len() > 0 {
        assert(is_digit(s.last()));
        assert(all_digits(s.drop_last())) by {
            assert forall|i: int| 0 <= i < s.drop_last().len() implies #[trigger] is_digit(
                s.drop_last()[i],
            ) by {
                assert(s.drop_last()[i] == s[i]);
            }
        }
        lemma_digits_nonnegative(s.drop_last());
    }
}

/// The value of the digits from `from` to `to`, if it fits 128 bits.
fn digits_value_in(t: &Vec<char>, from: usize, to: usize) -> (r: Option<i128>)
    requires
        from <= to <= t@.len(),
        all_digits(t@.subrange(from as int, to as int)),
    ensures
        match r {
            Some(v) => v == digits_value(t@.subrange(from as int, to as int)),
            None => digits_value(t@.subrange(from as int, to as int)) > i128::MAX,
        },
{
    let ghost s = t@.subrange(from as int, to as int);
    let mut v: i128 = 0;
    let mut i: usize = from;
    while i < to
        invariant
            from <= i <= to <= t@.len(),
            s == t@.subrange(from as int, to as int),
            all_digits(s),
            v == digits_value(s.take(i - from)),
            0 <= v,
        decreases to - i,
    {
        let ghost k = i - from;
        assert(s[k] == t@[i as int]);
        assert(is_digit(s[k]));
        let d = (t[i] as u32 - '0' as u32) as i128;
        assert(s.take(k + 1).drop_last() =~= s.take(k));
        if v > (i128::MAX - d) / 10 {
            proof {
                assert(digits_value(s.take(k + 1)) > i128::MAX);
                lemma_digits_value_grows(s, k + 1);
            }
            return None;
        }
        v = v * 10 + d;
        i += 1;
    }
    assert(s.take(to - from) =~= s);
    Some(v)
}

fn pow10_exec(n: usize) -> (r: i128)
    requires
        n <= 30,
    ensures
        r == pow10(n as nat),
        1 <= r <= pow10(30),
{
    let mut r: i128 = 1;
    let mut i: usize = 0;
    while i < n
        invariant
            i <= n <= 30,
            r == pow10(i as nat),
            1 <= r <= pow10(i as nat),
        decreases n - i,
    {
        proof {
            assert(pow10(30) == 1_000_000_000_000_000_000_000_000_000_000) by {
                reveal_with_fuel(pow10, 31);
            }
            lemma_pow10_monotone(i as nat + 1, 30);
        }
        r = r * 10;
        i += 1;
    }
    proof {
        lemma_pow10_monotone(n as nat, 30);
    }
    r
}

proof fn lemma_pow10_monotone(a: nat, b: nat)
    requires
        a <= b,
    ensures
        1 <= pow10(a) <= pow10(b),
    decreases b,
{
    if a < b {
        lemma_pow10_monotone(a, (b - 1) as nat);
    } else if a > 0 {
        lemma_pow10_monotone((a - 1) as nat, (a - 1) as nat);
    }
}

fn pow2_exec(n: u8) -> (r: i128)
    requires
        n < 127,
    ensures
        r == pow2(n as nat),
        r >= 1,
{
    let mut r: i128 = 1;
    let mut i: u8 = 0;
    while i < n
        invariant
            i <= n < 127,
            r == pow2(i as nat),
            1 <= r <= pow2(i as nat),
        decreases n - i,
    {
        proof {
            lemma_pow2_bound(i as nat + 1);
        }
        r = r * 2;
        i += 1;
    }
    r
}

proof fn lemma_pow2_bound(n: nat)
    requires
        n <= 126,
    ensures
        1 <= pow2(n) <= pow2(126),
        pow2(126) == 0x4000_0000_0000_0000_0000_0000_0000_0000,
    decreases n,
{
    assert(pow2(21) == 0x20_0000) by {
        reveal_with_fuel(pow2, 22);
    }
    lemma_pow2_add(21, 21);
    assert(pow2(42) == 0x400_0000_0000);
    lemma_pow2_add(42, 21);
    assert(pow2(63) == 0x8000_0000_0000_0000);
    lemma_pow2_add(63, 63);
    assert(pow2(126) == 0x4000_0000_0000_0000_0000_0000_0000_0000);
    lemma_pow2_monotone(n, 126);
}

proof fn lemma_pow2_add(a: nat, b: nat)
    ensures
        pow2(a + b) == pow2(a) * pow2(b),
    decreases b,
{
    if b > 0 {
        lemma_pow2_add(a, (b - 1) as nat);
        assert(pow2(a + b) == 2 * pow2((a + b - 1) as nat));
        assert(2 * (pow2(a) * pow2((b - 1) as nat)) == pow2(a) * (2 * pow2((b - 1) as nat)))
            by (nonlinear_arith);
    }
}

proof fn lemma_pow2_monotone(a: nat, b: nat)
    requires
        a <= b,
    ensures
        1 <= pow2(a) <= pow2(b),
    decreases b,
{
    if a < b {
        lemma_pow2_monotone(a, (b - 1) as nat);
    } else if a > 0 {
        lemma_pow2_monotone((a - 1) as nat, (a - 1) as nat);
    }
}

proof fn lemma_digits_below_pow10(s: Seq<char>)
    requires
        all_digits(s),
    ensures
        0 <= digits_value(s) < pow10(s.len()),
    decreases s.len(),
{
    if s.len() > 0 {
        let t = s.drop_last();
        assert(all_digits(t)) by {
            assert forall|i: int| 0 <= i < t.len() implies #[trigger] is_digit(t[i]) by {
                assert(t[i] == s[i]);
            }
        }
        lemma_digits_below_pow10(t);
        assert(is_digit(s.last()));
        assert(digits_value(s) < pow10(s.len())) by (nonlinear_arith)
            requires
                digits_value(s) == digits_value(t) * 10 + (s.last() as int - '0' as int),
                0 <= s.last() as int - '0' as int <= 9,
                digits_value(t) < pow10(t.len()),
                pow10(s.len()) == 10 * pow10(t.len()),
        ;
    }
}

/// Where the parts of a decimal lie in `t`: the sign, then the whole digits
/// `start..whole_end` and the fraction digits `frac_start..frac_end`.
fn decimal_fields(t: &Vec<char>) -> (r: Option<(bool, usize, usize, usize, usize)>)
    ensures
        match r {
            None => decimal_parts(t@) is None,
            Some(f) => f.1 <= f.2 <= t@.len() && f.3 <= f.4 <= t@.len() && f.4 - f.3 <= 30
                && decimal_parts(t@) == Some(
                (
                    f.0,
                    t@.subrange(f.1 as int, f.2 as int),
                    t@.subrange(f.3 as int, f.4 as int),
                ),
            ),
        },
{
    if t.len() == 0 || contains_char(t, 'e') || contains_char(t, 'E') || contains_char(t, '+') {
        return None;
    }
    let negative = t[0] == '-';
    let start: usize = if negative {
        1
    } else {
        0
    };
    let n = t.len();
    let mut whole_end = n;
    let mut frac_start = n;
    let mut frac_end = n;
    let mut third = false;
    match find_dot(t, start) {
        None => {},
        Some(d) => {
            whole_end = d;
            frac_start = d + 1;
            match find_dot(t, d + 1) {
                None => {},
                Some(d2) => {
                    frac_end = d2;
                    third = true;
                },
            }
        },
    }
    proof {
        if dot_from(t@, start as int) < 0 {
            assert(t@.subrange(frac_start as int, frac_end as int) =~= Seq::<char>::empty());
        }
    }
    if third || whole_end == start || !all_digits_in(t, start, whole_end) || !all_digits_in(
        t,
        frac_start,
        frac_end,
    ) || frac_end - frac_start > 30 {
        return None;
    }
    Some((negative, start, whole_end, frac_start, frac_end))
}

/// Parses the characters of a trimmed decimal.
fn decimal_value(t: &Vec<char>, bits: u8) -> (r: Result<i32, CompileError>)
    requires
        bits < 128,
        !decimal_overflows(t@, bits as nat),
    ensures
        r == decimal_of(t@, bits as nat),
{
    let (negative, start, whole_end, frac_start, frac_end) = match decimal_fields(t) {
        None => {
            return Err(CompileError::Decimal);
        },
        Some(f) => f,
    };
    let ghost whole_s = t@.subrange(start as int, whole_end as int);
    let ghost frac_s = t@.subrange(frac_start as int, frac_end as int);
    let whole = match digits_value_in(t, start, whole_end) {
        None => {
            return Err(CompileError::Decimal);
        },
        Some(v) => v,
    };
    proof {
        lemma_digits_below_pow10(frac_s);
        lemma_pow10_monotone(frac_s.len(), 30);
        assert(pow10(30) == 1_000_000_000_000_000_000_000_000_000_000) by {
            reveal_with_fuel(pow10, 31);
        }
        lemma_digits_nonnegative(whole_s);
    }
    let frac = match digits_value_in(t, frac_start, frac_end) {
        None => {
            return Err(CompileError::Range);
        },
        Some(v) => v,
    };
    let den = pow10_exec(frac_end - frac_start);
    scale_decimal(negative, whole, frac, den, bits, Ghost(frac_s))
}

/// The rounded, signed fixed-point value of a decimal with the given whole
/// and fraction values over the denominator `den`.
fn scale_decimal(
    negative: bool,
    whole: i128,
    frac: i128,
    den: i128,
    bits: u8,
    Ghost(fraction): Ghost<Seq<char>>,
) -> (r: Result<i32, CompileError>)
    requires
        bits < 128,
        whole >= 0,
        0 <= frac < den,
        den == pow10(fraction.len()),
        den <= 1_000_000_000_000_000_000_000_000_000_000,
        ({
            let num = whole * den + frac;
            num <= i128::MAX ==> (scaled_numerator(num, bits as nat) matches Some(scaled) ==> !(
            scaled + den / 2 > i128::MAX || (negative && rounded_of(scaled, fraction)
                == i128::MIN)))
        }),
    ensures
        ({
            let num = whole * den + frac;
            if num > i128::MAX {
                r == Err::<i32, CompileError>(CompileError::Range)
            } else {
                match scaled_numerator(num, bits as nat) {
                    None => r == Err::<i32, CompileError>(CompileError::Range),
                    Some(scaled) => {
                        let rounded = rounded_of(scaled, fraction);
                        let signed = if negative {
                            -rounded
                        } else {
                            rounded
                        };
                        r == if signed < i32::MIN || signed > i32::MAX {
                            Err::<i32, CompileError>(CompileError::Range)
                        } else {
                            Ok(signed as i32)
                        }
                    },
                }
            }
        }),
{
    assert((whole as int) * (den as int) + (frac as int) > i128::MAX <==> (whole as int) > (
    i128::MAX - frac as int) / (den as int)) by (nonlinear_arith)
        requires
            den >= 1,
            0 <= frac,
            frac < den,
            whole >= 0,
    ;
    if whole > (i128::MAX - frac) / den {
        return Err(CompileError::Range);
    }
    assert(0 <= (whole as int) * (den as int)) by (nonlinear_arith)
        requires
            whole >= 0,
            den >= 1,
    ;
    let num = whole * den + frac;
    let scaled: i128 = if bits == 127 {
        if num == 0 {
            0
        } else if num == 1 {
            i128::MIN
        } else {
            return Err(CompileError::Range);
        }
    } else {
        let p = pow2_exec(bits);
        assert((num as int) * (p as int) > i128::MAX <==> (num as int) > (i128::MAX as int) / (
        p as int)) by (nonlinear_arith)
            requires
                p >= 1,
                num >= 0,
        ;
        if num > i128::MAX / p {
            return Err(CompileError::Range);
        }
        num * p
    };
    let rounded = (scaled + den / 2) / den;
    let signed = if negative {
        -rounded
    } else {
        rounded
    };
    if signed < i32::MIN as i128 || signed > i32::MAX as i128 {
        return Err(CompileError::Range);
    }
    Ok(signed as i32)
}

/// Whether the characters of a trimmed decimal are one on which the
/// parser's 128-bit arithmetic cannot go on.
fn decimal_overflow_in(t: &Vec<char>, bits: u8) -> (r: bool)
    requires
        bits < 128,
    ensures
        r == decimal_overflows(t@, bits as nat),
{
    let (negative, start, whole_end, frac_start, frac_end) = match decimal_fields(t) {
        None => {
            return false;
        },
        Some(f) => f,
    };
    let ghost whole_s = t@.subrange(start as int, whole_end as int);
    let ghost frac_s = t@.subrange(frac_start as int, frac_end as int);
    let whole = match digits_value_in(t, start, whole_end) {
        None => {
            return false;
        },
        Some(v) => v,
    };
    proof {
        lemma_digits_below_pow10(frac_s);
        lemma_pow10_monotone(frac_s.len(), 30);
        assert(pow10(30) == 1_000_000_000_000_000_000_000_000_000_000) by {
            reveal_with_fuel(pow10, 31);
        }
        lemma_digits_nonnegative(whole_s);
    }
    let frac = match digits_value_in(t, frac_start, frac_end) {
        None => {
            return false;
        },
        Some(v) => v,
    };
    let den = pow10_exec(frac_end - frac_start);
    scaled_overflows(negative, whole, frac, den, bits, Ghost(frac_s))
}

/// Whether rounding the scaled decimal overflows 128 bits, or gives the
/// most negative value for a negative decimal.
fn scaled_overflows(
    negative: bool,
    whole: i128,
    frac: i128,
    den: i128,
    bits: u8,
    Ghost(fraction): Ghost<Seq<char>>,
) -> (r: bool)
    requires
        bits < 128,
        whole >= 0,
        0 <= frac < den,
        den == pow10(fraction.len()),
        den <= 1_000_000_000_000_000_000_000_000_000_000,
    ensures
        r == ({
            let num = whole * den + frac;
            num <= i128::MAX && (scaled_numerator(num, bits as nat) matches Some(scaled) && (scaled
                + den / 2 > i128::MAX || (negative && rounded_of(scaled, fraction) == i128::MIN)))
        }),
{
    assert((whole as int) * (den as int) + (frac as int) > i128::MAX <==> (whole as int) > (
    i128::MAX - frac as int) / (den as int)) by (nonlinear_arith)
        requires
            den >= 1,
            0 <= frac,
            frac < den,
            whole >= 0,
    ;
    if whole > (i128::MAX - frac) / den {
        return false;
    }
    assert(0 <= (whole as int) * (den as int)) by (nonlinear_arith)
        requires
            whole >= 0,
            den >= 1,
    ;
    let num = whole * den + frac;
    let scaled: i128 = if bits == 127 {
        if num == 0 {
            0
        } else if num == 1 {
            i128::MIN
        } else {
            return false;
        }
    } else {
        let p = pow2_exec(bits);
        assert((num as int) * (p as int) > i128::MAX <==> (num as int) > (i128::MAX as int) / (
        p as int)) by (nonlinear_arith)
            requires
                p >= 1,
                num >= 0,
        ;
        if num > i128::MAX / p {
            return false;
        }
        num * p
    };
    if scaled > i128::MAX - den / 2 {
        return true;
    }
    let rounded = (scaled + den / 2) / den;
    negative && rounded == i128::MIN
}

/// Whether `parse_scaled` can read `text` at `fractional_bits`: false
/// exactly on the decimals its 128-bit arithmetic cannot go on with.
pub fn decimal_in_range(text: &str, fractional_bits: u8) -> (r: bool)
    requires
        fractional_bits < 128,
    ensures
        r == !decimal_overflows(trimmed(text@), fractional_bits as nat),
{
    let t = trim_text(text);
    let chars = text_chars(t);
    !decimal_overflow_in(&chars, fractional_bits)
}

/// Parses decimal text (surrounding white space ignored) into a fixed-point
/// value with `fractional_bits` fractional bits, rounding half up in
/// magnitude. Exponents, `+` signs, empty parts and more than 30 fraction
/// digits are refused as `Decimal`; values that do not fit are `Range`.
pub fn parse_scaled(text: &str, fractional_bits: u8) -> (r: Result<i32, CompileError>)
    requires
        fractional_bits < 128,
        !decimal_overflows(trimmed(text@), fractional_bits as nat),
    ensures
        r == decimal_of(trimmed(text@), fractional_bits as nat),
{
    let t = trim_text(text);
    let chars = text_chars(t);
    decimal_value(&chars, fractional_bits)
}

/// The identity of a source: the FNV-1a hash of its ASCII text, which must
/// be nonempty and must not hash to zero.
pub open spec fn identity_of(text: &str) -> Result<u32, CompileError> {
    if text@.len() == 0 || !vstd::string::is_ascii(text) {
        Err(CompileError::Identity)
    } else if fnv_fold(FNV_OFFSET, text.spec_bytes()) == 0 {
        Err(CompileError::Identity)
    } else {
        Ok(fnv_fold(FNV_OFFSET, text.spec_bytes()))
    }
}

pub fn identity(text: &str) -> (r: Result<u32, CompileError>)
    ensures
        r == identity_of(text),
{
    if text.unicode_len() == 0 || !text.is_ascii() {
        return Err(CompileError::Identity);
    }
    let h = rolling_hash(FNV_OFFSET, text.as_bytes());
    if h == 0 {
        Err(CompileError::Identity)
    } else {
        Ok(h)
    }
}

/// The identity of a spatial source set: the CRC-32 of each compiled pack,
/// folded in by rotating the running value left seven bits.
pub open spec fn source_set_identity_of(
    vehicle: Seq<u8>,
    motor: Seq<u8>,
    mission: Seq<u8>,
    wind: Seq<u8>,
) -> u32 {
    let a = crc32_ieee_of(vehicle);
    let b = rotl(a, 7) ^ crc32_ieee_of(motor);
    let c = rotl(b, 7) ^ crc32_ieee_of(mission);
    rotl(c, 7) ^ crc32_ieee_of(wind)
}

/// Identifies a spatial source set by its compiled vehicle, motor, mission
/// and wind packs.
pub fn source_set_identity(vehicle: &[u8], motor: &[u8], mission: &[u8], wind: &[u8]) -> (r: u32)
    ensures
        r == source_set_identity_of(vehicle@, motor@, mission@, wind@),
{
    let mut state = crc32(vehicle);
    state = rotate_left(state, 7) ^ crc32(motor);
    state = rotate_left(state, 7) ^ crc32(mission);
    rotate_left(state, 7) ^ crc32(wind)
}

} // verus!
