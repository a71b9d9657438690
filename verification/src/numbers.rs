//! JSON numbers read leniently as unsigned integers: an unsigned integer as
//! it is, anything negative as zero, a fraction rounded down, and anything
//! too large as `u64::MAX`.
use vstd::prelude::*;

use crate::memory::json::JsonValue;
use crate::text::{chars_of, digits_value, is_digit, parse_unsigned, parse_unsigned_exec};

verus! {

/// One or more decimal digits.
pub open spec fn digit_run(s: Seq<char>) -> bool {
    s.len() > 0 && forall|i: int| 0 <= i < s.len() ==> is_digit(#[trigger] s[i])
}

pub open spec fn pow10(k: nat) -> nat
    decreases k,
{
    if k == 0 {
        1
    } else {
        10 * pow10((k - 1) as nat)
    }
}

/// `n`, or `u64::MAX` when `n` is larger.
pub open spec fn saturate(n: nat) -> u64 {
    if n > u64::MAX {
        u64::MAX
    } else {
        n as u64
    }
}

/// The whole part of the number whose digits are `d` with the decimal point
/// after the first `p` of them (`p` may be negative or beyond the digits).
pub open spec fn floor_of(d: Seq<char>, p: int) -> nat {
    if p <= 0 {
        0
    } else if p <= d.len() {
        digits_value(d.take(p))
    } else {
        digits_value(d) * pow10((p - d.len()) as nat)
    }
}

/// The parts of a number written as JSON writes one: a sign, integer digits,
/// fraction digits and a signed exponent.
pub struct NumberText {
    pub negative: bool,
    pub int_digits: Seq<char>,
    pub frac_digits: Seq<char>,
    pub exp_negative: bool,
    pub exp_digits: Seq<char>,
}

/// The first position of `e` or `E`, -1 when there is none.
pub open spec fn exp_mark(s: Seq<char>) -> int
    decreases s.len(),
{
    if s.len() == 0 {
        -1
    } else {
        let p = exp_mark(s.drop_last());
        if p >= 0 {
            p
        } else if s.last() == 'e' || s.last() == 'E' {
            s.len() - 1
        } else {
            -1
        }
    }
}

/// The first position of `.`, -1 when there is none.
pub open spec fn dot_mark(s: Seq<char>) -> int
    decreases s.len(),
{
    if s.len() == 0 {
        -1
    } else {
        let p = dot_mark(s.drop_last());
        if p >= 0 {
            p
        } else if s.last() == '.' {
            s.len() - 1
        } else {
            -1
        }
    }
}

/// Reads `[-]digits[.digits][(e|E)[+|-]digits]`.
pub open spec fn number_text(t: Seq<char>) -> Option<NumberText> {
    let negative = t.len() > 0 && t[0] == '-';
    let body = if negative {
        t.drop_first()
    } else {
        t
    };
    let e = exp_mark(body);
    let mantissa = if e >= 0 {
        body.take(e)
    } else {
        body
    };
    let exp_part = if e >= 0 {
        body.skip(e + 1)
    } else {
        Seq::empty()
    };
    let exp_negative = exp_part.len() > 0 && exp_part[0] == '-';
    let exp_digits = if exp_part.len() > 0 && (exp_part[0] == '-' || exp_part[0] == '+') {
        exp_part.drop_first()
    } else {
        exp_part
    };
    let d = dot_mark(mantissa);
    let int_digits = if d >= 0 {
        mantissa.take(d)
    } else {
        mantissa
    };
    let frac_digits = if d >= 0 {
        mantissa.skip(d + 1)
    } else {
        Seq::empty()
    };
    if digit_run(int_digits) && (d < 0 || digit_run(frac_digits)) && (e < 0 || digit_run(exp_digits)) {
        Some(NumberText { negative, int_digits, frac_digits, exp_negative, exp_digits })
    } else {
        None
    }
}

/// A number read as an unsigned integer: zero when negative, else its whole
/// part, at most `u64::MAX`; `None` for text that is not a number.
pub open spec fn number_floor(t: Seq<char>) -> Option<u64> {
    match number_text(t) {
        Some(n) => if n.negative {
            Some(0)
        } else {
            let e = digits_value(n.exp_digits) as int;
            let p = n.int_digits.len() + if n.exp_negative {
                -e
            } else {
                e
            };
            Some(saturate(floor_of(n.int_digits + n.frac_digits, p)))
        },
        None => None,
    }
}

/// A JSON value read leniently as an unsigned integer: a number as
/// `number_floor` reads it, a string as `u64::from_str` reads it, nothing
/// for other values.
pub open spec fn lenient_u64_spec(v: JsonValue) -> Option<u64> {
    match v {
        JsonValue::Number(t) => number_floor(t@),
        JsonValue::Text(s) => match parse_unsigned(s@, u64::MAX as nat) {
            Some(n) => Some(n as u64),
            None => None,
        },
        _ => None,
    }
}

// ---------------------------------------------------------------------------
// Facts about digits.
// ---------------------------------------------------------------------------

proof fn lemma_digits_value_push(s: Seq<char>, c: char)
    ensures
        digits_value(s.push(c)) == digits_value(s) * 10 + ((c as u32) - 48) as nat,
{
    assert(s.push(c).drop_last() =~= s);
}

proof fn lemma_zero_digits(s: Seq<char>)
    requires
        forall|i: int| 0 <= i < s.len() ==> #[trigger] s[i] == '0',
    ensures
        digits_value(s) == 0,
    decreases s.len(),
{
    if s.len() > 0 {
        lemma_zero_digits(s.drop_last());
    }
}

proof fn lemma_nonzero_digits(s: Seq<char>, k: int)
    requires
        0 <= k < s.len(),
        forall|i: int| 0 <= i < s.len() ==> is_digit(#[trigger] s[i]),
        s[k] != '0',
    ensures
        digits_value(s) >= 1,
    decreases s.len(),
{
    if k < s.len() - 1 {
        lemma_nonzero_digits(s.drop_last(), k);
    }
}

proof fn lemma_pow10_big(k: nat)
    requires
        k >= 20,
    ensures
        pow10(k) > u64::MAX,
    decreases k,
{
    if k > 20 {
        lemma_pow10_big((k - 1) as nat);
    } else {
        reveal_with_fuel(pow10, 21);
    }
}

proof fn lemma_pow10_positive(k: nat)
    ensures
        pow10(k) >= 1,
    decreases k,
{
    if k > 0 {
        lemma_pow10_positive((k - 1) as nat);
    }
}

/// Sums digits with saturation: the value, or `u64::MAX` when larger.
fn saturating_digits(d: &Vec<char>, n: usize) -> (r: u64)
    requires
        n <= d@.len(),
        forall|i: int| 0 <= i < d@.len() ==> is_digit(#[trigger] d@[i]),
    ensures
        r == saturate(digits_value(d@.take(n as int))),
{
    let mut acc: u64 = 0;
    let mut i: usize = 0;
    assert(d@.take(0) =~= Seq::<char>::empty());
    while i < n
        invariant
            i <= n,
            n <= d@.len(),
            forall|j: int| 0 <= j < d@.len() ==> is_digit(#[trigger] d@[j]),
            acc == saturate(digits_value(d@.take(i as int))),
        decreases n - i,
    {
        let c = d[i];
        assert(is_digit(d@[i as int]));
        let digit: u64 = ((c as u32) - 48) as u64;
        proof {
            assert(d@.take(i + 1) =~= d@.take(i as int).push(c));
            lemma_digits_value_push(d@.take(i as int), c);
        }
        if acc > (u64::MAX - digit) / 10 {
            assert(acc * 10 + digit > u64::MAX) by (nonlinear_arith)
                requires
                    acc > (u64::MAX - digit) / 10,
                    digit < 10,
            ;
            acc = u64::MAX;
        } else {
            assert(acc * 10 + digit <= u64::MAX) by (nonlinear_arith)
                requires
                    acc <= (u64::MAX - digit) / 10,
                    digit < 10,
            ;
            acc = acc * 10 + digit;
        }
        i = i + 1;
    }
    acc
}

/// `v * 10^k` with saturation, for `v` already saturated.
fn saturating_scale(v: u64, k: u64, Ghost(exact): Ghost<nat>) -> (r: u64)
    requires
        v == saturate(exact),
    ensures
        r == saturate(exact * pow10(k as nat)),
{
    let mut acc = v;
    let mut j: u64 = 0;
    assert(pow10(0) == 1);
    assert(exact * pow10(0) == exact);
    while j < k
        invariant
            j <= k,
            acc == saturate(exact * pow10(j as nat)),
        decreases k - j,
    {
        proof {
            assert(pow10((j + 1) as nat) == 10 * pow10(j as nat));
            assert(exact * pow10((j + 1) as nat) == (exact * pow10(j as nat)) * 10) by (nonlinear_arith)
                requires
                    pow10((j + 1) as nat) == 10 * pow10(j as nat),
            ;
        }
        if acc > u64::MAX / 10 {
            proof {
                lemma_pow10_positive(j as nat);
                if exact * pow10(j as nat) <= u64::MAX {
                    assert(exact * pow10(j as nat) * 10 > u64::MAX) by (nonlinear_arith)
                        requires
                            exact * pow10(j as nat) > u64::MAX / 10,
                    ;
                } else {
                    assert(exact * pow10(j as nat) * 10 > u64::MAX) by (nonlinear_arith)
                        requires
                            exact * pow10(j as nat) > u64::MAX,
                    ;
                }
            }
            acc = u64::MAX;
        } else {
            proof {
                if exact * pow10(j as nat) > u64::MAX {
                    assert(acc == u64::MAX);
                }
            }
            acc = acc * 10;
        }
        j = j + 1;
    }
    acc
}

/// The value of a digit run, or `u128::MAX` when larger.
fn exponent_value(d: &Vec<char>) -> (r: u128)
    requires
        forall|i: int| 0 <= i < d@.len() ==> is_digit(#[trigger] d@[i]),
    ensures
        r as nat == if digits_value(d@) > u128::MAX { u128::MAX as nat } else { digits_value(d@) },
{
    let mut acc: u128 = 0;
    let mut i: usize = 0;
    assert(d@.take(0) =~= Seq::<char>::empty());
    while i < d.len()
        invariant
            i <= d@.len(),
            forall|j: int| 0 <= j < d@.len() ==> is_digit(#[trigger] d@[j]),
            acc as nat == if digits_value(d@.take(i as int)) > u128::MAX {
                u128::MAX as nat
            } else {
                digits_value(d@.take(i as int))
            },
        decreases d@.len() - i,
    {
        let c = d[i];
        assert(is_digit(d@[i as int]));
        let digit: u128 = ((c as u32) - 48) as u128;
        proof {
            assert(d@.take(i + 1) =~= d@.take(i as int).push(c));
            lemma_digits_value_push(d@.take(i as int), c);
        }
        if acc > (u128::MAX - digit) / 10 {
            assert(acc * 10 + digit > u128::MAX) by (nonlinear_arith)
                requires
                    acc > (u128::MAX - digit) / 10,
                    digit < 10,
            ;
            acc = u128::MAX;
        } else {
            assert(acc * 10 + digit <= u128::MAX) by (nonlinear_arith)
                requires
                    acc <= (u128::MAX - digit) / 10,
                    digit < 10,
            ;
            acc = acc * 10 + digit;
        }
        i = i + 1;
    }
    assert(d@.take(d@.len() as int) =~= d@);
    acc
}

proof fn lemma_mark_prefix(s: Seq<char>, n: int, dot: bool)
    requires
        0 <= n <= s.len(),
        (if dot { dot_mark(s.take(n)) } else { exp_mark(s.take(n)) }) >= 0,
    ensures
        (if dot { dot_mark(s) } else { exp_mark(s) }) == (if dot { dot_mark(s.take(n)) } else { exp_mark(s.take(n)) }),
    decreases s.len() - n,
{
    if n < s.len() {
        assert(s.drop_last().take(n) =~= s.take(n));
        lemma_mark_prefix(s.drop_last(), n, dot);
    } else {
        assert(s.take(n) =~= s);
    }
}

fn mark_exec(s: &Vec<char>, dot: bool) -> (r: Option<usize>)
    ensures
        r matches Some(p) ==> p < s@.len() && p as int == (if dot { dot_mark(s@) } else { exp_mark(s@) }),
        r is None ==> (if dot { dot_mark(s@) } else { exp_mark(s@) }) == -1,
{
    let mut i: usize = 0;
    while i < s.len()
        invariant
            i <= s@.len(),
            (if dot { dot_mark(s@.take(i as int)) } else { exp_mark(s@.take(i as int)) }) == -1,
        decreases s.len() - i,
    {
        assert(s@.take(i + 1).drop_last() =~= s@.take(i as int));
        assert(s@.take(i + 1).last() == s@[i as int]);
        let c = s[i];
        let hit = if dot {
            c == '.'
        } else {
            c == 'e' || c == 'E'
        };
        if hit {
            proof {
                lemma_mark_prefix(s@, i + 1, dot);
            }
            return Some(i);
        }
        i = i + 1;
    }
    assert(s@.take(s@.len() as int) =~= s@);
    None
}

fn digit_run_exec(s: &Vec<char>) -> (r: bool)
    ensures
        r == digit_run(s@),
{
    if s.len() == 0 {
        return false;
    }
    let mut i: usize = 0;
    while i < s.len()
        invariant
            i <= s@.len(),
            forall|j: int| 0 <= j < i ==> is_digit(#[trigger] s@[j]),
        decreases s.len() - i,
    {
        if !('0' <= s[i] && s[i] <= '9') {
            assert(!is_digit(s@[i as int]));
            return false;
        }
        i = i + 1;
    }
    true
}

fn all_zero_exec(s: &Vec<char>) -> (r: bool)
    ensures
        r == (forall|i: int| 0 <= i < s@.len() ==> #[trigger] s@[i] == '0'),
{
    let mut i: usize = 0;
    while i < s.len()
        invariant
            i <= s@.len(),
            forall|j: int| 0 <= j < i ==> #[trigger] s@[j] == '0',
        decreases s.len() - i,
    {
        if s[i] != '0' {
            return false;
        }
        i = i + 1;
    }
    true
}

/// A number's text in parts (see `NumberText`).
struct ParsedNumber {
    negative: bool,
    int_digits: Vec<char>,
    frac_digits: Vec<char>,
    exp_negative: bool,
    exp_digits: Vec<char>,
}

spec fn parsed_view(p: ParsedNumber) -> NumberText {
    NumberText {
        negative: p.negative,
        int_digits: p.int_digits@,
        frac_digits: p.frac_digits@,
        exp_negative: p.exp_negative,
        exp_digits: p.exp_digits@,
    }
}

#[verifier::rlimit(40)]
fn parse_number_text(t: &Vec<char>) -> (r: Option<ParsedNumber>)
    ensures
        r matches Some(x) ==> number_text(t@) == Some(parsed_view(x)),
        r is None ==> number_text(t@) is None,
{
    let negative = t.len() > 0 && t[0] == '-';
    let body = if negative {
        crate::text::slice(t, 1, t.len())
    } else {
        crate::text::slice(t, 0, t.len())
    };
    assert(body@ =~= if negative { t@.drop_first() } else { t@ });
    let e = mark_exec(&body, false);
    let mantissa = match e {
        Some(p) => crate::text::slice(&body, 0, p),
        None => crate::text::slice(&body, 0, body.len()),
    };
    let exp_part = match e {
        Some(p) => crate::text::slice(&body, p + 1, body.len()),
        None => Vec::new(),
    };
    assert(mantissa@ =~= if exp_mark(body@) >= 0 { body@.take(exp_mark(body@)) } else { body@ });
    assert(exp_part@ =~= if exp_mark(body@) >= 0 { body@.skip(exp_mark(body@) + 1) } else { Seq::<char>::empty() });
    let exp_negative = exp_part.len() > 0 && exp_part[0] == '-';
    let exp_digits = if exp_part.len() > 0 && (exp_part[0] == '-' || exp_part[0] == '+') {
        crate::text::slice(&exp_part, 1, exp_part.len())
    } else {
        crate::text::slice(&exp_part, 0, exp_part.len())
    };
    assert(exp_digits@ =~= if exp_part@.len() > 0 && (exp_part@[0] == '-' || exp_part@[0] == '+') {
        exp_part@.drop_first()
    } else {
        exp_part@
    });
    let d = mark_exec(&mantissa, true);
    let int_digits = match d {
        Some(p) => crate::text::slice(&mantissa, 0, p),
        None => crate::text::slice(&mantissa, 0, mantissa.len()),
    };
    let frac_digits = match d {
        Some(p) => crate::text::slice(&mantissa, p + 1, mantissa.len()),
        None => Vec::new(),
    };
    assert(int_digits@ =~= if dot_mark(mantissa@) >= 0 { mantissa@.take(dot_mark(mantissa@)) } else { mantissa@ });
    assert(frac_digits@ =~= if dot_mark(mantissa@) >= 0 {
        mantissa@.skip(dot_mark(mantissa@) + 1)
    } else {
        Seq::<char>::empty()
    });
    let valid = digit_run_exec(&int_digits) && (d.is_none() || digit_run_exec(&frac_digits)) && (e.is_none()
        || digit_run_exec(&exp_digits));
    if !valid {
        return None;
    }
    Some(ParsedNumber { negative, int_digits, frac_digits, exp_negative, exp_digits })
}

/// The whole part, saturated, of the number with integer digits `int_part`,
/// fraction digits `frac` and exponent `exp` (negative when `exp_negative`).
#[verifier::rlimit(40)]
fn scaled_floor(int_part: &Vec<char>, frac: &Vec<char>, exp_negative: bool, exp: &Vec<char>) -> (r: u64)
    requires
        forall|i: int| 0 <= i < int_part@.len() ==> is_digit(#[trigger] int_part@[i]),
        forall|i: int| 0 <= i < frac@.len() ==> is_digit(#[trigger] frac@[i]),
        forall|i: int| 0 <= i < exp@.len() ==> is_digit(#[trigger] exp@[i]),
    ensures
        r == saturate(
            floor_of(
                int_part@ + frac@,
                int_part@.len() + if exp_negative {
                    -(digits_value(exp@) as int)
                } else {
                    digits_value(exp@) as int
                },
            ),
        ),
{
    let mut all = crate::text::slice(int_part, 0, int_part.len());
    crate::text::push_all(&mut all, frac);
    let ghost dd = int_part@ + frac@;
    assert(all@ =~= dd);
    assert forall|i: int| 0 <= i < dd.len() implies is_digit(#[trigger] dd[i]) by {
        if i < int_part@.len() {
            assert(dd[i] == int_part@[i]);
        } else {
            assert(dd[i] == frac@[i - int_part@.len()]);
        }
    }
    let ghost ev = digits_value(exp@);
    let expo = exponent_value(exp);
    let ilen = int_part.len();
    let flen = frac.len();
    let total = all.len();
    let ghost p: int = ilen + if exp_negative { -(ev as int) } else { ev as int };
    if exp_negative {
        if expo >= ilen as u128 {
            assert(p <= 0);
            return 0;
        }
        let q = ilen - (expo as usize);
        assert(q as int == p);
        return saturating_digits(&all, q);
    }
    if expo >= flen as u128 + 20 {
        if all_zero_exec(&all) {
            proof {
                lemma_zero_digits(dd);
            }
            return 0;
        }
        proof {
            let k = choose|k: int| 0 <= k < dd.len() && dd[k] != '0';
            lemma_nonzero_digits(dd, k);
            lemma_pow10_big((p - dd.len()) as nat);
            assert(digits_value(dd) * pow10((p - dd.len()) as nat) >= pow10((p - dd.len()) as nat)) by (nonlinear_arith)
                requires
                    digits_value(dd) >= 1,
            ;
        }
        return u64::MAX;
    }
    if expo <= flen as u128 {
        let q = ilen + (expo as usize);
        assert(q as int == p);
        return saturating_digits(&all, q);
    }
    let k = (expo - flen as u128) as u64;
    assert(k as int == p - dd.len());
    let v = saturating_digits(&all, total);
    assert(dd.take(total as int) =~= dd);
    saturating_scale(v, k, Ghost(digits_value(dd)))
}

/// Reads a number's text as an unsigned integer (see `number_floor`).
pub fn number_floor_exec(t: &Vec<char>) -> (r: Option<u64>)
    ensures
        r == number_floor(t@),
{
    match parse_number_text(t) {
        None => None,
        Some(n) => {
            if n.negative {
                return Some(0);
            }
            assert(forall|i: int| 0 <= i < n.exp_digits@.len() ==> is_digit(#[trigger] n.exp_digits@[i]));
            assert(forall|i: int| 0 <= i < n.frac_digits@.len() ==> is_digit(#[trigger] n.frac_digits@[i]));
            Some(scaled_floor(&n.int_digits, &n.frac_digits, n.exp_negative, &n.exp_digits))
        },
    }
}

/// Reads a JSON value leniently as an unsigned integer (see `lenient_u64_spec`).
pub fn lenient_u64(v: &JsonValue) -> (r: Option<u64>)
    ensures
        r == lenient_u64_spec(*v),
{
    match v {
        JsonValue::Number(t) => number_floor_exec(&chars_of(t.as_str())),
        JsonValue::Text(s) => parse_unsigned_exec(&chars_of(s.as_str()), 18446744073709551615),
        _ => None,
    }
}

} // verus!
