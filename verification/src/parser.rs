//! The unit-definition language parser.
//!
//! A document is a sequence of blocks
//! `unit <identifier> { dimension: <expr> transformation: <expr> prefixes: standard | no }`,
//! with whitespace (spaces, tabs, line breaks and semicolons) between
//! tokens.  A dimension expression is a flat left-to-right chain of
//! fundamental-axis terms with optional integer exponents, combined by `*`
//! and `/`; a transformation is `identity`, `linear(scale: n[, offset: n])`
//! or `decibel(p0: n)`.  Numbers are decimal, with an optional fraction and
//! exponent, and must denote rationals representable over `i128`.
//!
//! Every parsing function is a recursive-descent mirror of a specification
//! function over the document's character sequence, so the accepted language
//! and the parsed values are pinned down exactly.

use crate::errors::ArshinError;
use crate::fundamentals::{
    dim_mul_checked, dim_mul_fits, dim_pow_checked, dim_pow_fits, spec_dim_fundamental,
    spec_dim_identity, spec_dim_mul, spec_dim_pow, Dimension, Fundamentals,
};
use crate::rational::{
    add_i128, in_i128, lemma_pow10_fits, mul_i128, pow10_mag, rat_mul_fits, spec_pow10,
    spec_rat_mul, spec_reduce, Rat, Ratio,
};
use crate::registry::UnitRegistry;
use crate::transformations::{
    DecibelTransformation, LinearTransformation, TransModel, UnitTransformation,
};
use crate::units::{Unit, UnitModel};
use vstd::arithmetic::power::pow;
use vstd::prelude::*;

verus! {

/// Whitespace of the definition language: blanks, line breaks and the
/// property separator `;`.
pub open spec fn is_ws(c: char) -> bool {
    c == ' ' || c == '\t' || c == '\n' || c == '\r' || c == ';'
}

/// A decimal digit.
pub open spec fn is_digit(c: char) -> bool {
    48 <= c as int && c as int <= 57
}

/// The numeric value of a decimal digit character.
pub open spec fn spec_digit_val(c: char) -> int {
    c as int - 48
}

/// The first position at or after `i` holding no whitespace.
pub open spec fn spec_skip_ws(s: Seq<char>, i: nat) -> nat
    decreases s.len() - i,
{
    if i < s.len() && is_ws(s[i as int]) {
        spec_skip_ws(s, i + 1)
    } else {
        i
    }
}

/// Skipping whitespace stays within the input.
pub proof fn lemma_skip_ws_bounds(s: Seq<char>, i: nat)
    requires
        i <= s.len(),
    ensures
        i <= spec_skip_ws(s, i) <= s.len(),
    decreases s.len() - i,
{
    if i < s.len() && is_ws(s[i as int]) {
        lemma_skip_ws_bounds(s, i + 1);
    }
}

/// The literal `lit` occurs in `s` at position `i`.
pub open spec fn spec_match_lit(s: Seq<char>, i: nat, lit: Seq<char>) -> bool {
    i + lit.len() <= s.len() && s.subrange(i as int, i + lit.len() as int) == lit
}

/// Decimal digits accumulated onto `acc`, ending at the first non-digit;
/// `None` exactly when the value would exceed `i128::MAX`.
pub open spec fn spec_digits(s: Seq<char>, i: nat, acc: int) -> Option<(int, nat)>
    decreases s.len() - i,
{
    if i < s.len() && is_digit(s[i as int]) {
        let a2 = acc * 10 + spec_digit_val(s[i as int]);
        if a2 > i128::MAX as int {
            None
        } else {
            spec_digits(s, i + 1, a2)
        }
    } else {
        Some((acc, i))
    }
}

/// A parsed digit run ends within the input and keeps its value
/// nonnegative.
pub proof fn lemma_digits_bounds(s: Seq<char>, i: nat, acc: int)
    requires
        i <= s.len(),
        0 <= acc <= i128::MAX as int,
    ensures
        spec_digits(s, i, acc) matches Some(r) ==> i <= r.1 <= s.len() && 0 <= r.0
            <= i128::MAX as int,
    decreases s.len() - i,
{
    if i < s.len() && is_digit(s[i as int]) {
        let a2 = acc * 10 + spec_digit_val(s[i as int]);
        if a2 <= i128::MAX as int {
            lemma_digits_bounds(s, i + 1, a2);
        }
    }
}

/// An optional sign, then at least one digit; `None` exactly when the digits
/// are missing or the magnitude exceeds `i64::MAX`.
pub open spec fn spec_signed_int(s: Seq<char>, i: nat) -> Option<(int, nat)> {
    let neg = i < s.len() && s[i as int] == '-';
    let p: nat = if i < s.len() && (s[i as int] == '-' || s[i as int] == '+') {
        i + 1
    } else {
        i
    };
    if p < s.len() && is_digit(s[p as int]) {
        match spec_digits(s, p, 0) {
            Some((v, j)) => if v > i64::MAX as int {
                None
            } else {
                Some((if neg { -v } else { v }, j))
            },
            None => None,
        }
    } else {
        None
    }
}

/// A decimal number: optional sign, integer digits, optional fraction,
/// optional decimal exponent.  `None` exactly when the syntax is wrong or
/// the denoted rational is not representable over `i128`.
pub open spec fn spec_number(s: Seq<char>, i: nat) -> Option<(Ratio, nat)> {
    let neg = i < s.len() && s[i as int] == '-';
    let p: nat = if i < s.len() && (s[i as int] == '-' || s[i as int] == '+') {
        i + 1
    } else {
        i
    };
    if p < s.len() && is_digit(s[p as int]) {
        match spec_digits(s, p, 0) {
            Some((intval, j1)) => match spec_number_frac(s, j1) {
                Some((fv, fc, j2)) => match spec_number_exp(s, j2) {
                    Some((ev, j3)) => spec_number_value(neg, intval, fv, fc, ev, j3),
                    None => None,
                },
                None => None,
            },
            None => None,
        }
    } else {
        None
    }
}

/// The optional fraction part `.digits`: its value, its digit count and the
/// position after it.  `None` exactly when a `.` is not followed by digits
/// or the value exceeds `i128::MAX`.
pub open spec fn spec_number_frac(s: Seq<char>, i: nat) -> Option<(int, nat, nat)> {
    if i < s.len() && s[i as int] == '.' {
        if i + 1 < s.len() && is_digit(s[i as int + 1]) {
            match spec_digits(s, i + 1, 0) {
                Some((fv, j)) => Some((fv, (j - (i + 1)) as nat, j)),
                None => None,
            }
        } else {
            None
        }
    } else {
        Some((0, 0, i))
    }
}

/// The optional exponent part `e<signed digits>`; `None` exactly when an
/// `e` is not followed by a signed integer.
pub open spec fn spec_number_exp(s: Seq<char>, i: nat) -> Option<(int, nat)> {
    if i < s.len() && (s[i as int] == 'e' || s[i as int] == 'E') {
        spec_signed_int(s, i + 1)
    } else {
        Some((0, i))
    }
}

/// The exact rational denoted by the parsed parts of a number, in canonical
/// form; `None` exactly when a power of ten or a product leaves the `i128`
/// range.
pub open spec fn spec_number_value(neg: bool, intval: int, fv: int, fc: nat, ev: int, end: nat)
    -> Option<(Ratio, nat)> {
    if fc > 38 {
        None
    } else {
        let m1 = intval * pow(10, fc);
        let m = m1 + fv;
        if m1 > i128::MAX as int || m > i128::MAX as int {
            None
        } else {
            let e10 = ev - fc;
            if e10 >= 0 {
                if e10 > 38 || !in_i128(m * pow(10, e10 as nat)) {
                    None
                } else {
                    let n = m * pow(10, e10 as nat);
                    Some((spec_reduce(if neg { -n } else { n }, 1), end))
                }
            } else if e10 < -38 {
                None
            } else {
                Some((spec_reduce(if neg { -m } else { m }, pow(10, (-e10) as nat)), end))
            }
        }
    }
}

/// Advances past whitespace, mirroring [`spec_skip_ws`].
fn skip_ws(s: &str, n: usize, i: usize) -> (r: usize)
    requires
        n == s@.len(),
        i <= n,
    ensures
        r as nat == spec_skip_ws(s@, i as nat),
        i <= r <= n,
    decreases n - i,
{
    if i < n {
        let c = s.get_char(i);
        if c == ' ' || c == '\t' || c == '\n' || c == '\r' || c == ';' {
            return skip_ws(s, n, i + 1);
        }
    }
    i
}

/// Tests for a literal at a position, mirroring [`spec_match_lit`].
fn match_lit(s: &str, n: usize, i: usize, lit: &str) -> (r: bool)
    requires
        n == s@.len(),
        i <= n,
    ensures
        r == spec_match_lit(s@, i as nat, lit@),
{
    let m = lit.unicode_len();
    if m > n - i {
        return false;
    }
    let mut j: usize = 0;
    while j < m
        invariant
            0 <= j <= m,
            i + m <= n,
            n == s@.len(),
            m == lit@.len(),
            forall|k: int| 0 <= k < j ==> s@[i + k] == lit@[k],
        decreases m - j,
    {
        if s.get_char(i + j) != lit.get_char(j) {
            proof {
                if spec_match_lit(s@, i as nat, lit@) {
                    assert(s@.subrange(i as int, i + lit@.len() as int)[j as int] == s@[i + j]);
                }
            }
            return false;
        }
        j = j + 1;
    }
    proof {
        assert(s@.subrange(i as int, i + lit@.len() as int) =~= lit@);
    }
    true
}

/// Accumulates decimal digits, mirroring [`spec_digits`].
fn digits(s: &str, n: usize, i: usize, acc: i128) -> (r: Option<(i128, usize)>)
    requires
        n == s@.len(),
        i <= n,
        0 <= acc,
    ensures
        r is Some <==> spec_digits(s@, i as nat, acc as int) is Some,
        r matches Some((v, j)) ==> spec_digits(s@, i as nat, acc as int) == Some(
            (v as int, j as nat),
        ) && i <= j <= n && 0 <= v,
    decreases n - i,
{
    if i < n {
        let c = s.get_char(i);
        let d = c as u32;
        if 48 <= d && d <= 57 {
            let a1 = match acc.checked_mul(10) {
                Some(x) => x,
                None => {
                    return None;
                },
            };
            let a2 = match a1.checked_add((d - 48) as i128) {
                Some(x) => x,
                None => {
                    return None;
                },
            };
            return digits(s, n, i + 1, a2);
        }
    }
    Some((acc, i))
}

/// Parses an optionally signed integer, mirroring [`spec_signed_int`].
fn signed_int(s: &str, n: usize, i: usize) -> (r: Option<(i64, usize)>)
    requires
        n == s@.len(),
        i <= n,
    ensures
        r is Some <==> spec_signed_int(s@, i as nat) is Some,
        r matches Some((v, j)) ==> spec_signed_int(s@, i as nat) == Some((v as int, j as nat))
            && j <= n,
{
    let mut neg = false;
    let mut p = i;
    if i < n {
        let c = s.get_char(i);
        if c == '-' {
            neg = true;
            p = i + 1;
        } else if c == '+' {
            p = i + 1;
        }
    }
    if p < n {
        let c = s.get_char(p);
        let d = c as u32;
        if 48 <= d && d <= 57 {
            return match digits(s, n, p, 0) {
                Some((v, j)) => {
                    if v > i64::MAX as i128 {
                        None
                    } else {
                        Some((if neg { -(v as i64) } else { v as i64 }, j))
                    }
                },
                None => None,
            };
        }
    }
    None
}

/// Parses a decimal number to an exact rational, mirroring [`spec_number`].
fn number(s: &str, n: usize, i: usize) -> (r: Option<(Rat, usize)>)
    requires
        n == s@.len(),
        i <= n,
    ensures
        r is Some <==> spec_number(s@, i as nat) is Some,
        r matches Some((v, j)) ==> v.wf() && spec_number(s@, i as nat) == Some((v@, j as nat))
            && j <= n,
{
    let mut neg = false;
    let mut p = i;
    if i < n {
        let c = s.get_char(i);
        if c == '-' {
            neg = true;
            p = i + 1;
        } else if c == '+' {
            p = i + 1;
        }
    }
    if !(p < n) {
        return None;
    }
    let c0 = s.get_char(p);
    let d0 = c0 as u32;
    if !(48 <= d0 && d0 <= 57) {
        return None;
    }
    let (intval, j1) = match digits(s, n, p, 0) {
        Some(x) => x,
        None => {
            return None;
        },
    };
    let (fv, fc, j2) = match number_frac(s, n, j1) {
        Some(x) => x,
        None => {
            return None;
        },
    };
    let (ev, j3) = match number_exp(s, n, j2) {
        Some(x) => x,
        None => {
            return None;
        },
    };
    if fc > 38 {
        return None;
    }
    proof {
        lemma_pow10_fits(fc as nat);
    }
    let p10 = match pow10_mag(fc as u32) {
        Some(x) => x,
        None => {
            return None;
        },
    };
    let m1 = match mul_i128(intval, p10) {
        Some(x) => x,
        None => {
            return None;
        },
    };
    let m = match add_i128(m1, fv) {
        Some(x) => x,
        None => {
            return None;
        },
    };
    proof {
        assert(m1 as int >= 0) by (nonlinear_arith)
            requires
                m1 as int == intval as int * p10 as int,
                intval as int >= 0,
                p10 as int >= 1,
        ;
    }
    let e10: i128 = (ev as i128) - (fc as i128);
    if e10 >= 0 {
        if e10 > 38 {
            return None;
        }
        proof {
            lemma_pow10_fits(e10 as nat);
        }
        let q10 = match pow10_mag(e10 as u32) {
            Some(x) => x,
            None => {
                return None;
            },
        };
        let nn = match mul_i128(m, q10) {
            Some(x) => x,
            None => {
                return None;
            },
        };
        let v = Rat::from_parts(if neg { -nn } else { nn }, 1);
        Some((v, j3))
    } else {
        if e10 < -38 {
            return None;
        }
        proof {
            lemma_pow10_fits((-e10) as nat);
        }
        let q10 = match pow10_mag((-e10) as u32) {
            Some(x) => x,
            None => {
                return None;
            },
        };
        let v = Rat::from_parts(if neg { -m } else { m }, q10);
        Some((v, j3))
    }
}

/// Parses the optional fraction part, mirroring [`spec_number_frac`].
fn number_frac(s: &str, n: usize, i: usize) -> (r: Option<(i128, usize, usize)>)
    requires
        n == s@.len(),
        i <= n,
    ensures
        r is Some <==> spec_number_frac(s@, i as nat) is Some,
        r matches Some((fv, fc, j)) ==> spec_number_frac(s@, i as nat) == Some(
            (fv as int, fc as nat, j as nat),
        ) && j <= n && 0 <= fv,
{
    if i < n && s.get_char(i) == '.' {
        if i + 1 < n {
            let c = s.get_char(i + 1);
            let d = c as u32;
            if 48 <= d && d <= 57 {
                return match digits(s, n, i + 1, 0) {
                    Some((fv, j)) => Some((fv, j - (i + 1), j)),
                    None => None,
                };
            }
        }
        None
    } else {
        Some((0, 0, i))
    }
}

/// Parses the optional exponent part, mirroring [`spec_number_exp`].
fn number_exp(s: &str, n: usize, i: usize) -> (r: Option<(i64, usize)>)
    requires
        n == s@.len(),
        i <= n,
    ensures
        r is Some <==> spec_number_exp(s@, i as nat) is Some,
        r matches Some((v, j)) ==> spec_number_exp(s@, i as nat) == Some((v as int, j as nat))
            && j <= n,
{
    if i < n {
        let c = s.get_char(i);
        if c == 'e' || c == 'E' {
            return signed_int(s, n, i + 1);
        }
    }
    Some((0, i))
}


/// A first character of an identifier: a letter or an underscore.
pub open spec fn is_ident_start(c: char) -> bool {
    (65 <= c as int && c as int <= 90) || (97 <= c as int && c as int <= 122) || c == '_'
}

/// A continuation character of an identifier.
pub open spec fn is_ident_char(c: char) -> bool {
    is_ident_start(c) || is_digit(c)
}

/// The end of the identifier starting at `i`.
pub open spec fn spec_ident_end(s: Seq<char>, i: nat) -> nat
    decreases s.len() - i,
{
    if i < s.len() && is_ident_char(s[i as int]) {
        spec_ident_end(s, i + 1)
    } else {
        i
    }
}

/// An identifier ends within the input, after its start.
pub proof fn lemma_ident_end_bounds(s: Seq<char>, i: nat)
    requires
        i <= s.len(),
    ensures
        i <= spec_ident_end(s, i) <= s.len(),
    decreases s.len() - i,
{
    if i < s.len() && is_ident_char(s[i as int]) {
        lemma_ident_end_bounds(s, i + 1);
    }
}

/// An identifier: a letter or underscore, then letters, digits and
/// underscores.
pub open spec fn spec_identifier(s: Seq<char>, i: nat) -> Option<(Seq<char>, nat)> {
    if i < s.len() && is_ident_start(s[i as int]) {
        let j = spec_ident_end(s, i);
        Some((s.subrange(i as int, j as int), j))
    } else {
        None
    }
}

/// One term of a dimension expression: an axis and its integer exponent.
pub ghost struct TermSpec {
    pub fundamental: Fundamentals,
    pub exponent: int,
}

/// The transformation expression of a unit definition, before defaults are
/// applied.
pub ghost enum ParsedTransSpec {
    Identity,
    Linear { scale: Ratio, offset: Option<Ratio> },
    Decibel { p0: Ratio },
}

/// One parsed unit-definition block.
pub ghost struct UnitDefSpec {
    pub name: Seq<char>,
    pub terms: Seq<TermSpec>,
    pub transformation: ParsedTransSpec,
    pub prefixes: bool,
}

/// The accumulated properties of a block, with their defaults.
pub ghost struct BlockAcc {
    pub terms: Seq<TermSpec>,
    pub trans: ParsedTransSpec,
    pub prefixes: bool,
}

/// A fundamental-axis name: one of the ten fixed strings.
pub open spec fn spec_fundamental(s: Seq<char>, i: nat) -> Option<(Fundamentals, nat)> {
    if spec_match_lit(s, i, "amount of substance"@) {
        Some((Fundamentals::AmountOfSubstance, i + "amount of substance"@.len()))
    } else if spec_match_lit(s, i, "luminous intensity"@) {
        Some((Fundamentals::LuminousIntensity, i + "luminous intensity"@.len()))
    } else if spec_match_lit(s, i, "length"@) {
        Some((Fundamentals::Length, i + "length"@.len()))
    } else if spec_match_lit(s, i, "mass"@) {
        Some((Fundamentals::Mass, i + "mass"@.len()))
    } else if spec_match_lit(s, i, "time"@) {
        Some((Fundamentals::Time, i + "time"@.len()))
    } else if spec_match_lit(s, i, "current"@) {
        Some((Fundamentals::Current, i + "current"@.len()))
    } else if spec_match_lit(s, i, "temperature"@) {
        Some((Fundamentals::Temperature, i + "temperature"@.len()))
    } else if spec_match_lit(s, i, "angle"@) {
        Some((Fundamentals::Angle, i + "angle"@.len()))
    } else if spec_match_lit(s, i, "bit"@) {
        Some((Fundamentals::Bit, i + "bit"@.len()))
    } else if spec_match_lit(s, i, "count"@) {
        Some((Fundamentals::Count, i + "count"@.len()))
    } else {
        None
    }
}

/// A parsed fundamental name ends within the input.
pub proof fn lemma_fundamental_bounds(s: Seq<char>, i: nat)
    ensures
        spec_fundamental(s, i) matches Some(r) ==> i <= r.1 <= s.len(),
{
}

/// One dimension term: an axis name, optionally followed by `^` and a
/// signed integer exponent (default one).
pub open spec fn spec_term(s: Seq<char>, i: nat) -> Option<(TermSpec, nat)> {
    match spec_fundamental(s, i) {
        Some((f, j)) => {
            let k = spec_skip_ws(s, j);
            if k < s.len() && s[k as int] == '^' {
                let k2 = spec_skip_ws(s, k + 1);
                match spec_signed_int(s, k2) {
                    Some((e, j2)) => Some((TermSpec { fundamental: f, exponent: e }, j2)),
                    None => None,
                }
            } else {
                Some((TermSpec { fundamental: f, exponent: 1 }, j))
            }
        },
        None => None,
    }
}

/// A parsed signed integer ends within the input, after its start.
pub proof fn lemma_signed_int_bounds(s: Seq<char>, i: nat)
    requires
        i <= s.len(),
    ensures
        spec_signed_int(s, i) matches Some(r) ==> i <= r.1 <= s.len() && -(i64::MAX as int)
            <= r.0 <= i64::MAX as int,
{
    let p: nat = if i < s.len() && (s[i as int] == '-' || s[i as int] == '+') {
        i + 1
    } else {
        i
    };
    if p < s.len() && is_digit(s[p as int]) {
        lemma_digits_bounds(s, p, 0);
    }
}

/// A parsed term ends within the input, after its start, with a
/// representable exponent.
pub proof fn lemma_term_bounds(s: Seq<char>, i: nat)
    requires
        i <= s.len(),
    ensures
        spec_term(s, i) matches Some(r) ==> i <= r.1 <= s.len() && -(i64::MAX as int)
            <= r.0.exponent <= i64::MAX as int,
{
    lemma_fundamental_bounds(s, i);
    if spec_fundamental(s, i) is Some {
        let (f, j) = spec_fundamental(s, i).unwrap();
        lemma_skip_ws_bounds(s, j);
        let k = spec_skip_ws(s, j);
        if k < s.len() && s[k as int] == '^' {
            lemma_skip_ws_bounds(s, k + 1);
            lemma_signed_int_bounds(s, spec_skip_ws(s, k + 1));
        }
    }
}

/// The rest of a dimension expression after its first term: a flat
/// left-to-right chain of `*` and `/` operators, a `/` negating the
/// following term's exponent.
pub open spec fn spec_dim_expr_rest(s: Seq<char>, i: nat, acc: Seq<TermSpec>) -> Option<
    (Seq<TermSpec>, nat),
>
    decreases s.len() - i,
    via spec_dim_expr_rest_decreases
{
    let k = spec_skip_ws(s, i);
    if k < s.len() && (s[k as int] == '*' || s[k as int] == '/') {
        let neg = s[k as int] == '/';
        let k2 = spec_skip_ws(s, k + 1);
        match spec_term(s, k2) {
            Some((t, j)) => {
                let t2 = TermSpec {
                    fundamental: t.fundamental,
                    exponent: if neg { -t.exponent } else { t.exponent },
                };
                spec_dim_expr_rest(s, j, acc.push(t2))
            },
            None => None,
        }
    } else {
        Some((acc, i))
    }
}

#[via_fn]
proof fn spec_dim_expr_rest_decreases(s: Seq<char>, i: nat, acc: Seq<TermSpec>) {
    if i <= s.len() {
        lemma_skip_ws_bounds(s, i);
        let k = spec_skip_ws(s, i);
        if k < s.len() && (s[k as int] == '*' || s[k as int] == '/') {
            lemma_skip_ws_bounds(s, k + 1);
            lemma_term_bounds(s, spec_skip_ws(s, k + 1));
        }
    }
}

/// A whole dimension expression: one term, then the operator chain.
pub open spec fn spec_dim_expr(s: Seq<char>, i: nat) -> Option<(Seq<TermSpec>, nat)> {
    match spec_term(s, i) {
        Some((t, j)) => spec_dim_expr_rest(s, j, seq![t]),
        None => None,
    }
}

/// A parsed operator chain ends within the input, after its start.
pub proof fn lemma_dim_expr_rest_bounds(s: Seq<char>, i: nat, acc: Seq<TermSpec>)
    requires
        i <= s.len(),
    ensures
        spec_dim_expr_rest(s, i, acc) matches Some(r) ==> i <= r.1 <= s.len(),
    decreases s.len() - i,
{
    lemma_skip_ws_bounds(s, i);
    let k = spec_skip_ws(s, i);
    if k < s.len() && (s[k as int] == '*' || s[k as int] == '/') {
        lemma_skip_ws_bounds(s, k + 1);
        let k2 = spec_skip_ws(s, k + 1);
        lemma_term_bounds(s, k2);
        match spec_term(s, k2) {
            Some((t, j)) => {
                let t2 = TermSpec {
                    fundamental: t.fundamental,
                    exponent: if s[k as int] == '/' { -t.exponent } else { t.exponent },
                };
                lemma_dim_expr_rest_bounds(s, j, acc.push(t2));
            },
            None => {},
        }
    }
}

/// A transformation expression: `identity`, `linear(scale: n[, offset: n])`
/// or `decibel(p0: n)`.
pub open spec fn spec_transformation(s: Seq<char>, i: nat) -> Option<(ParsedTransSpec, nat)> {
    if spec_match_lit(s, i, "identity"@) {
        Some((ParsedTransSpec::Identity, i + "identity"@.len()))
    } else if spec_match_lit(s, i, "linear"@) {
        spec_linear_args(s, i + "linear"@.len())
    } else if spec_match_lit(s, i, "decibel"@) {
        spec_decibel_args(s, i + "decibel"@.len())
    } else {
        None
    }
}

/// The argument list `(scale: n[, offset: n])` of a linear transformation.
pub open spec fn spec_linear_args(s: Seq<char>, i: nat) -> Option<(ParsedTransSpec, nat)> {
    let k = spec_skip_ws(s, i);
    if k < s.len() && s[k as int] == '(' {
        let k1 = spec_skip_ws(s, k + 1);
        if spec_match_lit(s, k1, "scale"@) {
            let k2 = spec_skip_ws(s, k1 + "scale"@.len());
            if k2 < s.len() && s[k2 as int] == ':' {
                let k3 = spec_skip_ws(s, k2 + 1);
                match spec_number(s, k3) {
                    Some((sc, j)) => {
                        let k4 = spec_skip_ws(s, j);
                        if k4 < s.len() && s[k4 as int] == ',' {
                            spec_offset_arg(s, k4 + 1, sc)
                        } else if k4 < s.len() && s[k4 as int] == ')' {
                            Some((ParsedTransSpec::Linear { scale: sc, offset: None }, k4 + 1))
                        } else {
                            None
                        }
                    },
                    None => None,
                }
            } else {
                None
            }
        } else {
            None
        }
    } else {
        None
    }
}

/// The trailing `offset: n)` of a linear transformation's argument list.
pub open spec fn spec_offset_arg(s: Seq<char>, i: nat, sc: Ratio) -> Option<
    (ParsedTransSpec, nat),
> {
    let k = spec_skip_ws(s, i);
    if spec_match_lit(s, k, "offset"@) {
        let k1 = spec_skip_ws(s, k + "offset"@.len());
        if k1 < s.len() && s[k1 as int] == ':' {
            let k2 = spec_skip_ws(s, k1 + 1);
            match spec_number(s, k2) {
                Some((of, j)) => {
                    let k3 = spec_skip_ws(s, j);
                    if k3 < s.len() && s[k3 as int] == ')' {
                        Some((ParsedTransSpec::Linear { scale: sc, offset: Some(of) }, k3 + 1))
                    } else {
                        None
                    }
                },
                None => None,
            }
        } else {
            None
        }
    } else {
        None
    }
}

/// The argument list `(p0: n)` of a decibel transformation.
pub open spec fn spec_decibel_args(s: Seq<char>, i: nat) -> Option<(ParsedTransSpec, nat)> {
    let k = spec_skip_ws(s, i);
    if k < s.len() && s[k as int] == '(' {
        let k1 = spec_skip_ws(s, k + 1);
        if spec_match_lit(s, k1, "p0"@) {
            let k2 = spec_skip_ws(s, k1 + "p0"@.len());
            if k2 < s.len() && s[k2 as int] == ':' {
                let k3 = spec_skip_ws(s, k2 + 1);
                match spec_number(s, k3) {
                    Some((p0, j)) => {
                        let k4 = spec_skip_ws(s, j);
                        if k4 < s.len() && s[k4 as int] == ')' {
                            Some((ParsedTransSpec::Decibel { p0 }, k4 + 1))
                        } else {
                            None
                        }
                    },
                    None => None,
                }
            } else {
                None
            }
        } else {
            None
        }
    } else {
        None
    }
}

/// A parsed number ends within the input, after its start.
pub proof fn lemma_number_bounds(s: Seq<char>, i: nat)
    requires
        i <= s.len(),
    ensures
        spec_number(s, i) matches Some(r) ==> i <= r.1 <= s.len(),
{
    let p: nat = if i < s.len() && (s[i as int] == '-' || s[i as int] == '+') {
        i + 1
    } else {
        i
    };
    if p < s.len() && is_digit(s[p as int]) {
        lemma_digits_bounds(s, p, 0);
        match spec_digits(s, p, 0) {
            Some((intval, j1)) => {
                lemma_number_frac_bounds(s, j1);
                match spec_number_frac(s, j1) {
                    Some((fv, fc, j2)) => {
                        lemma_number_exp_bounds(s, j2);
                    },
                    None => {},
                }
            },
            None => {},
        }
    }
}

/// A parsed fraction part ends within the input, after its start.
pub proof fn lemma_number_frac_bounds(s: Seq<char>, i: nat)
    requires
        i <= s.len(),
    ensures
        spec_number_frac(s, i) matches Some(r) ==> i <= r.2 <= s.len(),
{
    if i < s.len() && s[i as int] == '.' {
        if i + 1 < s.len() && is_digit(s[i as int + 1]) {
            lemma_digits_bounds(s, i + 1, 0);
        }
    }
}

/// A parsed exponent part ends within the input, after its start.
pub proof fn lemma_number_exp_bounds(s: Seq<char>, i: nat)
    requires
        i <= s.len(),
    ensures
        spec_number_exp(s, i) matches Some(r) ==> i <= r.1 <= s.len(),
{
    if i < s.len() && (s[i as int] == 'e' || s[i as int] == 'E') {
        lemma_signed_int_bounds(s, i + 1);
    }
}

/// A parsed transformation ends within the input, after its start.
pub proof fn lemma_transformation_bounds(s: Seq<char>, i: nat)
    requires
        i <= s.len(),
    ensures
        spec_transformation(s, i) matches Some(r) ==> i <= r.1 <= s.len(),
{
    if spec_match_lit(s, i, "identity"@) {
    } else if spec_match_lit(s, i, "linear"@) {
        lemma_linear_args_bounds(s, (i + "linear"@.len()) as nat);
    } else if spec_match_lit(s, i, "decibel"@) {
        lemma_decibel_args_bounds(s, (i + "decibel"@.len()) as nat);
    }
}

/// A parsed linear argument list ends within the input, after its start.
pub proof fn lemma_linear_args_bounds(s: Seq<char>, i: nat)
    requires
        i <= s.len(),
    ensures
        spec_linear_args(s, i) matches Some(r) ==> i <= r.1 <= s.len(),
{
    lemma_skip_ws_bounds(s, i);
    let k = spec_skip_ws(s, i);
    if k < s.len() && s[k as int] == '(' {
        lemma_skip_ws_bounds(s, k + 1);
        let k1 = spec_skip_ws(s, k + 1);
        if spec_match_lit(s, k1, "scale"@) {
            lemma_skip_ws_bounds(s, k1 + "scale"@.len());
            let k2 = spec_skip_ws(s, k1 + "scale"@.len());
            if k2 < s.len() && s[k2 as int] == ':' {
                lemma_skip_ws_bounds(s, k2 + 1);
                let k3 = spec_skip_ws(s, k2 + 1);
                lemma_number_bounds(s, k3);
                match spec_number(s, k3) {
                    Some((sc, j)) => {
                        lemma_skip_ws_bounds(s, j);
                        let k4 = spec_skip_ws(s, j);
                        if k4 < s.len() && s[k4 as int] == ',' {
                            lemma_offset_arg_bounds(s, k4 + 1, sc);
                        }
                    },
                    None => {},
                }
            }
        }
    }
}

/// A parsed offset argument ends within the input, after its start.
pub proof fn lemma_offset_arg_bounds(s: Seq<char>, i: nat, sc: Ratio)
    requires
        i <= s.len(),
    ensures
        spec_offset_arg(s, i, sc) matches Some(r) ==> i <= r.1 <= s.len(),
{
    lemma_skip_ws_bounds(s, i);
    let k = spec_skip_ws(s, i);
    if spec_match_lit(s, k, "offset"@) {
        lemma_skip_ws_bounds(s, k + "offset"@.len());
        let k1 = spec_skip_ws(s, k + "offset"@.len());
        if k1 < s.len() && s[k1 as int] == ':' {
            lemma_skip_ws_bounds(s, k1 + 1);
            let k2 = spec_skip_ws(s, k1 + 1);
            lemma_number_bounds(s, k2);
            match spec_number(s, k2) {
                Some((of, j)) => {
                    lemma_skip_ws_bounds(s, j);
                },
                None => {},
            }
        }
    }
}

/// A parsed decibel argument list ends within the input, after its start.
pub proof fn lemma_decibel_args_bounds(s: Seq<char>, i: nat)
    requires
        i <= s.len(),
    ensures
        spec_decibel_args(s, i) matches Some(r) ==> i <= r.1 <= s.len(),
{
    lemma_skip_ws_bounds(s, i);
    let k = spec_skip_ws(s, i);
    if k < s.len() && s[k as int] == '(' {
        lemma_skip_ws_bounds(s, k + 1);
        let k1 = spec_skip_ws(s, k + 1);
        if spec_match_lit(s, k1, "p0"@) {
            lemma_skip_ws_bounds(s, k1 + "p0"@.len());
            let k2 = spec_skip_ws(s, k1 + "p0"@.len());
            if k2 < s.len() && s[k2 as int] == ':' {
                lemma_skip_ws_bounds(s, k2 + 1);
                let k3 = spec_skip_ws(s, k2 + 1);
                lemma_number_bounds(s, k3);
                match spec_number(s, k3) {
                    Some((p0, j)) => {
                        lemma_skip_ws_bounds(s, j);
                    },
                    None => {},
                }
            }
        }
    }
}

/// The properties of a block up to its closing `}`, each property
/// overwriting its default (or an earlier occurrence).
pub open spec fn spec_block(s: Seq<char>, i: nat, acc: BlockAcc) -> Option<(BlockAcc, nat)>
    decreases s.len() - i,
    via spec_block_decreases
{
    let k = spec_skip_ws(s, i);
    if k < s.len() && s[k as int] == '}' {
        Some((acc, k + 1))
    } else if spec_match_lit(s, k, "dimension"@) {
        let k1 = spec_skip_ws(s, k + "dimension"@.len());
        if k1 < s.len() && s[k1 as int] == ':' {
            let k2 = spec_skip_ws(s, k1 + 1);
            match spec_dim_expr(s, k2) {
                Some((ts, j)) => spec_block(
                    s,
                    j,
                    BlockAcc { terms: ts, trans: acc.trans, prefixes: acc.prefixes },
                ),
                None => None,
            }
        } else {
            None
        }
    } else if spec_match_lit(s, k, "transformation"@) {
        let k1 = spec_skip_ws(s, k + "transformation"@.len());
        if k1 < s.len() && s[k1 as int] == ':' {
            let k2 = spec_skip_ws(s, k1 + 1);
            match spec_transformation(s, k2) {
                Some((t, j)) => spec_block(
                    s,
                    j,
                    BlockAcc { terms: acc.terms, trans: t, prefixes: acc.prefixes },
                ),
                None => None,
            }
        } else {
            None
        }
    } else if spec_match_lit(s, k, "prefixes"@) {
        let k1 = spec_skip_ws(s, k + "prefixes"@.len());
        if k1 < s.len() && s[k1 as int] == ':' {
            let k2 = spec_skip_ws(s, k1 + 1);
            if spec_match_lit(s, k2, "standard"@) {
                spec_block(
                    s,
                    (k2 + "standard"@.len()) as nat,
                    BlockAcc { terms: acc.terms, trans: acc.trans, prefixes: true },
                )
            } else if spec_match_lit(s, k2, "no"@) {
                spec_block(
                    s,
                    (k2 + "no"@.len()) as nat,
                    BlockAcc { terms: acc.terms, trans: acc.trans, prefixes: false },
                )
            } else {
                None
            }
        } else {
            None
        }
    } else {
        None
    }
}

#[via_fn]
proof fn spec_block_decreases(s: Seq<char>, i: nat, acc: BlockAcc) {
    if i <= s.len() {
        lemma_skip_ws_bounds(s, i);
        let k = spec_skip_ws(s, i);
        if k < s.len() && s[k as int] == '}' {
        } else {
            if spec_match_lit(s, k, "dimension"@) {
                lemma_skip_ws_bounds(s, k + "dimension"@.len());
                let k1 = spec_skip_ws(s, k + "dimension"@.len());
                if k1 < s.len() && s[k1 as int] == ':' {
                    lemma_skip_ws_bounds(s, k1 + 1);
                    let k2 = spec_skip_ws(s, k1 + 1);
                    lemma_term_bounds(s, k2);
                    match spec_term(s, k2) {
                        Some((t, j0)) => {
                            lemma_dim_expr_rest_bounds(s, j0, seq![t]);
                        },
                        None => {},
                    }
                }
            }
            if spec_match_lit(s, k, "transformation"@) {
                lemma_skip_ws_bounds(s, k + "transformation"@.len());
                let k1 = spec_skip_ws(s, k + "transformation"@.len());
                if k1 < s.len() && s[k1 as int] == ':' {
                    lemma_skip_ws_bounds(s, k1 + 1);
                    lemma_transformation_bounds(s, spec_skip_ws(s, k1 + 1));
                }
            }
            if spec_match_lit(s, k, "prefixes"@) {
                lemma_skip_ws_bounds(s, k + "prefixes"@.len());
                let k1 = spec_skip_ws(s, k + "prefixes"@.len());
                if k1 < s.len() && s[k1 as int] == ':' {
                    lemma_skip_ws_bounds(s, k1 + 1);
                }
            }
        }
    }
}

/// A parsed block ends within the input, strictly after its start.
pub proof fn lemma_block_bounds(s: Seq<char>, i: nat, acc: BlockAcc)
    requires
        i <= s.len(),
    ensures
        spec_block(s, i, acc) matches Some(r) ==> i < r.1 <= s.len(),
    decreases s.len() - i,
{
    lemma_skip_ws_bounds(s, i);
    let k = spec_skip_ws(s, i);
    if k < s.len() && s[k as int] == '}' {
    } else if spec_match_lit(s, k, "dimension"@) {
        lemma_skip_ws_bounds(s, k + "dimension"@.len());
        let k1 = spec_skip_ws(s, k + "dimension"@.len());
        if k1 < s.len() && s[k1 as int] == ':' {
            lemma_skip_ws_bounds(s, k1 + 1);
            let k2 = spec_skip_ws(s, k1 + 1);
            lemma_term_bounds(s, k2);
            match spec_term(s, k2) {
                Some((t, j0)) => {
                    lemma_dim_expr_rest_bounds(s, j0, seq![t]);
                    match spec_dim_expr_rest(s, j0, seq![t]) {
                        Some((ts, j)) => {
                            lemma_block_bounds(
                                s,
                                j,
                                BlockAcc { terms: ts, trans: acc.trans, prefixes: acc.prefixes },
                            );
                        },
                        None => {},
                    }
                },
                None => {},
            }
        }
    } else if spec_match_lit(s, k, "transformation"@) {
        lemma_skip_ws_bounds(s, k + "transformation"@.len());
        let k1 = spec_skip_ws(s, k + "transformation"@.len());
        if k1 < s.len() && s[k1 as int] == ':' {
            lemma_skip_ws_bounds(s, k1 + 1);
            let k2 = spec_skip_ws(s, k1 + 1);
            lemma_transformation_bounds(s, k2);
            match spec_transformation(s, k2) {
                Some((t, j)) => {
                    lemma_block_bounds(
                        s,
                        j,
                        BlockAcc { terms: acc.terms, trans: t, prefixes: acc.prefixes },
                    );
                },
                None => {},
            }
        }
    } else if spec_match_lit(s, k, "prefixes"@) {
        lemma_skip_ws_bounds(s, k + "prefixes"@.len());
        let k1 = spec_skip_ws(s, k + "prefixes"@.len());
        if k1 < s.len() && s[k1 as int] == ':' {
            lemma_skip_ws_bounds(s, k1 + 1);
            let k2 = spec_skip_ws(s, k1 + 1);
            if spec_match_lit(s, k2, "standard"@) {
                lemma_block_bounds(
                    s,
                    (k2 + "standard"@.len()) as nat,
                    BlockAcc { terms: acc.terms, trans: acc.trans, prefixes: true },
                );
            } else if spec_match_lit(s, k2, "no"@) {
                lemma_block_bounds(
                    s,
                    (k2 + "no"@.len()) as nat,
                    BlockAcc { terms: acc.terms, trans: acc.trans, prefixes: false },
                );
            }
        }
    }
}

/// One `unit <identifier> { ... }` block.  At least one whitespace
/// character must separate the keyword from the identifier.
pub open spec fn spec_unit_def(s: Seq<char>, i: nat) -> Option<(UnitDefSpec, nat)> {
    if spec_match_lit(s, i, "unit"@) {
        let k = spec_skip_ws(s, i + "unit"@.len());
        if k > i + "unit"@.len() {
            match spec_identifier(s, k) {
                Some((name, j)) => {
                    let k1 = spec_skip_ws(s, j);
                    if k1 < s.len() && s[k1 as int] == '{' {
                        match spec_block(
                            s,
                            k1 + 1,
                            BlockAcc {
                                terms: Seq::empty(),
                                trans: ParsedTransSpec::Identity,
                                prefixes: false,
                            },
                        ) {
                            Some((acc, j2)) => Some(
                                (
                                    UnitDefSpec {
                                        name,
                                        terms: acc.terms,
                                        transformation: acc.trans,
                                        prefixes: acc.prefixes,
                                    },
                                    j2,
                                ),
                            ),
                            None => None,
                        }
                    } else {
                        None
                    }
                },
                None => None,
            }
        } else {
            None
        }
    } else {
        None
    }
}

/// A parsed unit definition ends within the input, strictly after its
/// start.
pub proof fn lemma_unit_def_bounds(s: Seq<char>, i: nat)
    requires
        i <= s.len(),
    ensures
        spec_unit_def(s, i) matches Some(r) ==> i < r.1 <= s.len(),
{
    if spec_match_lit(s, i, "unit"@) {
        lemma_skip_ws_bounds(s, i + "unit"@.len());
        let k = spec_skip_ws(s, i + "unit"@.len());
        if k > i + "unit"@.len() {
            match spec_identifier(s, k) {
                Some((name, j)) => {
                    lemma_ident_end_bounds(s, k);
                    lemma_skip_ws_bounds(s, j);
                    let k1 = spec_skip_ws(s, j);
                    if k1 < s.len() && s[k1 as int] == '{' {
                        lemma_block_bounds(
                            s,
                            k1 + 1,
                            BlockAcc {
                                terms: Seq::empty(),
                                trans: ParsedTransSpec::Identity,
                                prefixes: false,
                            },
                        );
                    }
                },
                None => {},
            }
        }
    }
}

/// A whole document: whitespace-separated unit definitions until the end of
/// the input.
pub open spec fn spec_document(s: Seq<char>, i: nat, acc: Seq<UnitDefSpec>) -> Option<
    Seq<UnitDefSpec>,
>
    decreases s.len() - i,
    via spec_document_decreases
{
    let k = spec_skip_ws(s, i);
    if k >= s.len() {
        Some(acc)
    } else {
        match spec_unit_def(s, k) {
            Some((d, j)) => spec_document(s, j, acc.push(d)),
            None => None,
        }
    }
}

#[via_fn]
proof fn spec_document_decreases(s: Seq<char>, i: nat, acc: Seq<UnitDefSpec>) {
    if i <= s.len() {
        lemma_skip_ws_bounds(s, i);
        let k = spec_skip_ws(s, i);
        if k < s.len() {
            lemma_unit_def_bounds(s, k);
        }
    }
}


/// One parsed dimension term.
#[derive(Debug, Clone, Copy, PartialEq, Eq, Structural)]
pub struct DimensionTerm {
    pub fundamental: Fundamentals,
    pub exponent: i64,
}

impl View for DimensionTerm {
    type V = TermSpec;

    open spec fn view(&self) -> TermSpec {
        TermSpec { fundamental: self.fundamental, exponent: self.exponent as int }
    }
}

/// One parsed transformation expression.
#[derive(Debug)]
pub enum ParsedTransformation {
    Identity,
    Linear { scale: Rat, offset: Option<Rat> },
    Decibel { p0: Rat },
}

impl View for ParsedTransformation {
    type V = ParsedTransSpec;

    open spec fn view(&self) -> ParsedTransSpec {
        match *self {
            ParsedTransformation::Identity => ParsedTransSpec::Identity,
            ParsedTransformation::Linear { scale, offset } => ParsedTransSpec::Linear {
                scale: scale@,
                offset: match offset {
                    Some(o) => Some(o@),
                    None => None,
                },
            },
            ParsedTransformation::Decibel { p0 } => ParsedTransSpec::Decibel { p0: p0@ },
        }
    }
}

/// Every rational held by a parsed transformation is well formed.
pub open spec fn parsed_trans_wf(t: ParsedTransformation) -> bool {
    match t {
        ParsedTransformation::Identity => true,
        ParsedTransformation::Linear { scale, offset } => scale.wf() && (match offset {
            Some(o) => o.wf(),
            None => true,
        }),
        ParsedTransformation::Decibel { p0 } => p0.wf(),
    }
}

/// One parsed unit-definition block.
#[derive(Debug)]
pub struct UnitDefinition {
    pub name: String,
    pub terms: Vec<DimensionTerm>,
    pub transformation: ParsedTransformation,
    pub prefixes: bool,
}

/// The term sequence of a parsed term vector.
pub open spec fn terms_view(v: Seq<DimensionTerm>) -> Seq<TermSpec> {
    v.map_values(|t: DimensionTerm| t@)
}

impl View for UnitDefinition {
    type V = UnitDefSpec;

    open spec fn view(&self) -> UnitDefSpec {
        UnitDefSpec {
            name: self.name@,
            terms: terms_view(self.terms@),
            transformation: self.transformation@,
            prefixes: self.prefixes,
        }
    }
}

/// The definition sequence of a parsed definition vector.
pub open spec fn defs_view(v: Seq<UnitDefinition>) -> Seq<UnitDefSpec> {
    v.map_values(|d: UnitDefinition| d@)
}

/// Parses an identifier, mirroring [`spec_identifier`].
fn identifier(s: &str, n: usize, i: usize) -> (r: Option<(String, usize)>)
    requires
        n == s@.len(),
        i <= n,
    ensures
        r is Some <==> spec_identifier(s@, i as nat) is Some,
        r matches Some((v, j)) ==> spec_identifier(s@, i as nat) == Some((v@, j as nat)) && i
            <= j <= n,
{
    if i < n {
        let c = s.get_char(i);
        let d = c as u32;
        if (65 <= d && d <= 90) || (97 <= d && d <= 122) || c == '_' {
            let j = ident_end(s, n, i);
            let name = s.substring_char(i, j).to_owned();
            return Some((name, j));
        }
    }
    None
}

/// Finds the end of an identifier, mirroring [`spec_ident_end`].
fn ident_end(s: &str, n: usize, i: usize) -> (r: usize)
    requires
        n == s@.len(),
        i <= n,
    ensures
        r as nat == spec_ident_end(s@, i as nat),
        i <= r <= n,
    decreases n - i,
{
    if i < n {
        let c = s.get_char(i);
        let d = c as u32;
        if (65 <= d && d <= 90) || (97 <= d && d <= 122) || c == '_' || (48 <= d && d <= 57) {
            return ident_end(s, n, i + 1);
        }
    }
    i
}

/// Matches a keyword and returns the position after it.
fn keyword(s: &str, n: usize, i: usize, lit: &str) -> (r: Option<usize>)
    requires
        n == s@.len(),
        i <= n,
    ensures
        r is Some <==> spec_match_lit(s@, i as nat, lit@),
        r matches Some(j) ==> j as nat == i as nat + lit@.len() && i <= j <= n,
{
    if match_lit(s, n, i, lit) {
        Some(i + lit.unicode_len())
    } else {
        None
    }
}

/// Parses a fundamental-axis name, mirroring [`spec_fundamental`].
fn fundamental(s: &str, n: usize, i: usize) -> (r: Option<(Fundamentals, usize)>)
    requires
        n == s@.len(),
        i <= n,
    ensures
        r is Some <==> spec_fundamental(s@, i as nat) is Some,
        r matches Some((f, j)) ==> spec_fundamental(s@, i as nat) == Some((f, j as nat)) && i
            <= j <= n,
{
    if let Some(j) = keyword(s, n, i, "amount of substance") {
        Some((Fundamentals::AmountOfSubstance, j))
    } else if let Some(j) = keyword(s, n, i, "luminous intensity") {
        Some((Fundamentals::LuminousIntensity, j))
    } else if let Some(j) = keyword(s, n, i, "length") {
        Some((Fundamentals::Length, j))
    } else if let Some(j) = keyword(s, n, i, "mass") {
        Some((Fundamentals::Mass, j))
    } else if let Some(j) = keyword(s, n, i, "time") {
        Some((Fundamentals::Time, j))
    } else if let Some(j) = keyword(s, n, i, "current") {
        Some((Fundamentals::Current, j))
    } else if let Some(j) = keyword(s, n, i, "temperature") {
        Some((Fundamentals::Temperature, j))
    } else if let Some(j) = keyword(s, n, i, "angle") {
        Some((Fundamentals::Angle, j))
    } else if let Some(j) = keyword(s, n, i, "bit") {
        Some((Fundamentals::Bit, j))
    } else if let Some(j) = keyword(s, n, i, "count") {
        Some((Fundamentals::Count, j))
    } else {
        None
    }
}

/// Parses one dimension term, mirroring [`spec_term`].
fn term(s: &str, n: usize, i: usize) -> (r: Option<(DimensionTerm, usize)>)
    requires
        n == s@.len(),
        i <= n,
    ensures
        r is Some <==> spec_term(s@, i as nat) is Some,
        r matches Some((t, j)) ==> spec_term(s@, i as nat) == Some((t@, j as nat)) && i <= j
            <= n && -i64::MAX <= t.exponent <= i64::MAX,
{
    let (f, j) = match fundamental(s, n, i) {
        Some(x) => x,
        None => {
            return None;
        },
    };
    let k = skip_ws(s, n, j);
    if k < n && s.get_char(k) == '^' {
        let k2 = skip_ws(s, n, k + 1);
        match signed_int(s, n, k2) {
            Some((e, j2)) => {
                proof {
                    lemma_signed_int_bounds(s@, k2 as nat);
                }
                Some((DimensionTerm { fundamental: f, exponent: e }, j2))
            },
            None => None,
        }
    } else {
        Some((DimensionTerm { fundamental: f, exponent: 1 }, j))
    }
}

/// Parses the operator chain of a dimension expression, mirroring
/// [`spec_dim_expr_rest`].
fn dim_expr_rest(s: &str, n: usize, i: usize, acc: Vec<DimensionTerm>) -> (r: Option<
    (Vec<DimensionTerm>, usize),
>)
    requires
        n == s@.len(),
        i <= n,
    ensures
        r is Some <==> spec_dim_expr_rest(s@, i as nat, terms_view(acc@)) is Some,
        r matches Some((ts, j)) ==> spec_dim_expr_rest(s@, i as nat, terms_view(acc@)) == Some(
            (terms_view(ts@), j as nat),
        ) && i <= j <= n,
    decreases n - i,
{
    let k = skip_ws(s, n, i);
    if k < n {
        let c = s.get_char(k);
        if c == '*' || c == '/' {
            let neg = c == '/';
            let k2 = skip_ws(s, n, k + 1);
            let (t, j) = match term(s, n, k2) {
                Some(x) => x,
                None => {
                    return None;
                },
            };
            let t2 = DimensionTerm {
                fundamental: t.fundamental,
                exponent: if neg {
                    -t.exponent
                } else {
                    t.exponent
                },
            };
            let mut acc2 = acc;
            acc2.push(t2);
            proof {
                assert(terms_view(acc2@) =~= terms_view(acc@).push(t2@));
            }
            return dim_expr_rest(s, n, j, acc2);
        }
    }
    Some((acc, i))
}

/// Parses a whole dimension expression, mirroring [`spec_dim_expr`].
fn dim_expr(s: &str, n: usize, i: usize) -> (r: Option<(Vec<DimensionTerm>, usize)>)
    requires
        n == s@.len(),
        i <= n,
    ensures
        r is Some <==> spec_dim_expr(s@, i as nat) is Some,
        r matches Some((ts, j)) ==> spec_dim_expr(s@, i as nat) == Some(
            (terms_view(ts@), j as nat),
        ) && i <= j <= n,
{
    let (t, j) = match term(s, n, i) {
        Some(x) => x,
        None => {
            return None;
        },
    };
    let mut acc: Vec<DimensionTerm> = Vec::new();
    acc.push(t);
    proof {
        assert(terms_view(acc@) =~= seq![t@]);
    }
    dim_expr_rest(s, n, j, acc)
}

/// Parses a transformation expression, mirroring [`spec_transformation`].
fn transformation(s: &str, n: usize, i: usize) -> (r: Option<(ParsedTransformation, usize)>)
    requires
        n == s@.len(),
        i <= n,
    ensures
        r is Some <==> spec_transformation(s@, i as nat) is Some,
        r matches Some((t, j)) ==> spec_transformation(s@, i as nat) == Some((t@, j as nat))
            && i <= j <= n && parsed_trans_wf(t),
{
    if let Some(j) = keyword(s, n, i, "identity") {
        Some((ParsedTransformation::Identity, j))
    } else if let Some(j) = keyword(s, n, i, "linear") {
        linear_args(s, n, j)
    } else if let Some(j) = keyword(s, n, i, "decibel") {
        decibel_args(s, n, j)
    } else {
        None
    }
}

/// Parses `(scale: n[, offset: n])`, mirroring [`spec_linear_args`].
fn linear_args(s: &str, n: usize, i: usize) -> (r: Option<(ParsedTransformation, usize)>)
    requires
        n == s@.len(),
        i <= n,
    ensures
        r is Some <==> spec_linear_args(s@, i as nat) is Some,
        r matches Some((t, j)) ==> spec_linear_args(s@, i as nat) == Some((t@, j as nat)) && i
            <= j <= n && parsed_trans_wf(t),
{
    let k = skip_ws(s, n, i);
    if !(k < n && s.get_char(k) == '(') {
        return None;
    }
    let k1 = skip_ws(s, n, k + 1);
    let kk = match keyword(s, n, k1, "scale") {
        Some(x) => x,
        None => {
            return None;
        },
    };
    let k2 = skip_ws(s, n, kk);
    if !(k2 < n && s.get_char(k2) == ':') {
        return None;
    }
    let k3 = skip_ws(s, n, k2 + 1);
    let (sc, j) = match number(s, n, k3) {
        Some(x) => x,
        None => {
            return None;
        },
    };
    proof {
        lemma_number_bounds(s@, k3 as nat);
    }
    let k4 = skip_ws(s, n, j);
    if k4 < n && s.get_char(k4) == ',' {
        offset_arg(s, n, k4 + 1, sc)
    } else if k4 < n && s.get_char(k4) == ')' {
        Some((ParsedTransformation::Linear { scale: sc, offset: None }, k4 + 1))
    } else {
        None
    }
}

/// Parses `offset: n)`, mirroring [`spec_offset_arg`].
fn offset_arg(s: &str, n: usize, i: usize, sc: Rat) -> (r: Option<(ParsedTransformation, usize)>)
    requires
        n == s@.len(),
        i <= n,
        sc.wf(),
    ensures
        r is Some <==> spec_offset_arg(s@, i as nat, sc@) is Some,
        r matches Some((t, j)) ==> spec_offset_arg(s@, i as nat, sc@) == Some((t@, j as nat))
            && i <= j <= n && parsed_trans_wf(t),
{
    let k = skip_ws(s, n, i);
    let kk = match keyword(s, n, k, "offset") {
        Some(x) => x,
        None => {
            return None;
        },
    };
    let k1 = skip_ws(s, n, kk);
    if !(k1 < n && s.get_char(k1) == ':') {
        return None;
    }
    let k2 = skip_ws(s, n, k1 + 1);
    let (of, j) = match number(s, n, k2) {
        Some(x) => x,
        None => {
            return None;
        },
    };
    proof {
        lemma_number_bounds(s@, k2 as nat);
    }
    let k3 = skip_ws(s, n, j);
    if k3 < n && s.get_char(k3) == ')' {
        Some((ParsedTransformation::Linear { scale: sc, offset: Some(of) }, k3 + 1))
    } else {
        None
    }
}

/// Parses `(p0: n)`, mirroring [`spec_decibel_args`].
fn decibel_args(s: &str, n: usize, i: usize) -> (r: Option<(ParsedTransformation, usize)>)
    requires
        n == s@.len(),
        i <= n,
    ensures
        r is Some <==> spec_decibel_args(s@, i as nat) is Some,
        r matches Some((t, j)) ==> spec_decibel_args(s@, i as nat) == Some((t@, j as nat)) && i
            <= j <= n && parsed_trans_wf(t),
{
    let k = skip_ws(s, n, i);
    if !(k < n && s.get_char(k) == '(') {
        return None;
    }
    let k1 = skip_ws(s, n, k + 1);
    let kk = match keyword(s, n, k1, "p0") {
        Some(x) => x,
        None => {
            return None;
        },
    };
    let k2 = skip_ws(s, n, kk);
    if !(k2 < n && s.get_char(k2) == ':') {
        return None;
    }
    let k3 = skip_ws(s, n, k2 + 1);
    let (p0, j) = match number(s, n, k3) {
        Some(x) => x,
        None => {
            return None;
        },
    };
    proof {
        lemma_number_bounds(s@, k3 as nat);
    }
    let k4 = skip_ws(s, n, j);
    if k4 < n && s.get_char(k4) == ')' {
        Some((ParsedTransformation::Decibel { p0 }, k4 + 1))
    } else {
        None
    }
}

/// Parses the properties of a block, mirroring [`spec_block`].
fn block(
    s: &str,
    n: usize,
    i: usize,
    terms: Vec<DimensionTerm>,
    trans: ParsedTransformation,
    prefixes: bool,
) -> (r: Option<(Vec<DimensionTerm>, ParsedTransformation, bool, usize)>)
    requires
        n == s@.len(),
        i <= n,
        parsed_trans_wf(trans),
    ensures
        r is Some <==> spec_block(
            s@,
            i as nat,
            BlockAcc { terms: terms_view(terms@), trans: trans@, prefixes },
        ) is Some,
        r matches Some((ts, tr, pf, j)) ==> spec_block(
            s@,
            i as nat,
            BlockAcc { terms: terms_view(terms@), trans: trans@, prefixes },
        ) == Some((BlockAcc { terms: terms_view(ts@), trans: tr@, prefixes: pf }, j as nat)) && i
            < j <= n && parsed_trans_wf(tr),
    decreases n - i,
{
    let k = skip_ws(s, n, i);
    if k < n && s.get_char(k) == '}' {
        return Some((terms, trans, prefixes, k + 1));
    }
    if let Some(kk) = keyword(s, n, k, "dimension") {
        let k1 = skip_ws(s, n, kk);
        if !(k1 < n && s.get_char(k1) == ':') {
            return None;
        }
        let k2 = skip_ws(s, n, k1 + 1);
        let (ts, j) = match dim_expr(s, n, k2) {
            Some(x) => x,
            None => {
                return None;
            },
        };
        block(s, n, j, ts, trans, prefixes)
    } else if let Some(kk) = keyword(s, n, k, "transformation") {
        let k1 = skip_ws(s, n, kk);
        if !(k1 < n && s.get_char(k1) == ':') {
            return None;
        }
        let k2 = skip_ws(s, n, k1 + 1);
        let (t, j) = match transformation(s, n, k2) {
            Some(x) => x,
            None => {
                return None;
            },
        };
        block(s, n, j, terms, t, prefixes)
    } else if let Some(kk) = keyword(s, n, k, "prefixes") {
        let k1 = skip_ws(s, n, kk);
        if !(k1 < n && s.get_char(k1) == ':') {
            return None;
        }
        let k2 = skip_ws(s, n, k1 + 1);
        if let Some(j) = keyword(s, n, k2, "standard") {
            block(s, n, j, terms, trans, true)
        } else if let Some(j) = keyword(s, n, k2, "no") {
            block(s, n, j, terms, trans, false)
        } else {
            None
        }
    } else {
        None
    }
}

/// Parses one unit definition, mirroring [`spec_unit_def`].
fn unit_def(s: &str, n: usize, i: usize) -> (r: Option<(UnitDefinition, usize)>)
    requires
        n == s@.len(),
        i <= n,
    ensures
        r is Some <==> spec_unit_def(s@, i as nat) is Some,
        r matches Some((d, j)) ==> spec_unit_def(s@, i as nat) == Some((d@, j as nat)) && i < j
            <= n && parsed_trans_wf(d.transformation),
{
    let kk = match keyword(s, n, i, "unit") {
        Some(x) => x,
        None => {
            return None;
        },
    };
    let k = skip_ws(s, n, kk);
    if !(k > kk) {
        return None;
    }
    let (name, j) = match identifier(s, n, k) {
        Some(x) => x,
        None => {
            return None;
        },
    };
    let k1 = skip_ws(s, n, j);
    if !(k1 < n && s.get_char(k1) == '{') {
        return None;
    }
    let empty_terms: Vec<DimensionTerm> = Vec::new();
    proof {
        assert(terms_view(empty_terms@) =~= Seq::<TermSpec>::empty());
    }
    let (ts, tr, pf, j2) = match block(
        s,
        n,
        k1 + 1,
        empty_terms,
        ParsedTransformation::Identity,
        false,
    ) {
        Some(x) => x,
        None => {
            return None;
        },
    };
    Some((UnitDefinition { name, terms: ts, transformation: tr, prefixes: pf }, j2))
}

/// Parses a whole document, mirroring [`spec_document`].
fn document(s: &str, n: usize, i: usize, acc: Vec<UnitDefinition>) -> (r: Option<
    Vec<UnitDefinition>,
>)
    requires
        n == s@.len(),
        i <= n,
        forall|k: int| 0 <= k < acc@.len() ==> parsed_trans_wf(#[trigger] acc@[k].transformation),
    ensures
        r is Some <==> spec_document(s@, i as nat, defs_view(acc@)) is Some,
        r matches Some(v) ==> spec_document(s@, i as nat, defs_view(acc@)) == Some(defs_view(v@))
            && (forall|k: int|
            0 <= k < v@.len() ==> parsed_trans_wf(#[trigger] v@[k].transformation)),
    decreases n - i,
{
    let k = skip_ws(s, n, i);
    if k >= n {
        return Some(acc);
    }
    let (d, j) = match unit_def(s, n, k) {
        Some(x) => x,
        None => {
            return None;
        },
    };
    let mut acc2 = acc;
    acc2.push(d);
    proof {
        assert(defs_view(acc2@) =~= defs_view(acc@).push(d@));
    }
    document(s, n, j, acc2)
}


/// The dimension denoted by a term sequence: starting from the dimensionless
/// identity, each axis dimension is raised to its term's exponent and
/// multiplied in, left to right.  `None` exactly when an exponent leaves the
/// `i32` range.
pub open spec fn spec_fold_terms(terms: Seq<TermSpec>, j: nat, acc: Dimension) -> Option<Dimension>
    decreases terms.len() - j,
{
    if j >= terms.len() {
        Some(acc)
    } else {
        let t = terms[j as int];
        let fd = spec_dim_fundamental(t.fundamental);
        if !dim_pow_fits(fd, t.exponent) {
            None
        } else {
            let p = spec_dim_pow(fd, t.exponent);
            if !dim_mul_fits(acc, p) {
                None
            } else {
                spec_fold_terms(terms, j + 1, spec_dim_mul(acc, p))
            }
        }
    }
}

/// The fixed table of SI magnitude prefixes: a long name and a power of
/// ten, from `Quetta` (`10^30`) down to `quecto` (`10^-30`).
pub open spec fn spec_si_prefixes() -> Seq<(Seq<char>, int)> {
    seq![
        ("Quetta"@, 30int),
        ("Ronna"@, 27int),
        ("Yotta"@, 24int),
        ("Zetta"@, 21int),
        ("Exa"@, 18int),
        ("Peta"@, 15int),
        ("Tera"@, 12int),
        ("Giga"@, 9int),
        ("Mega"@, 6int),
        ("kilo"@, 3int),
        ("hecto"@, 2int),
        ("deca"@, 1int),
        ("deci"@, -1int),
        ("centi"@, -2int),
        ("milli"@, -3int),
        ("micro"@, -6int),
        ("nano"@, -9int),
        ("pico"@, -12int),
        ("femto"@, -15int),
        ("atto"@, -18int),
        ("zepto"@, -21int),
        ("yocto"@, -24int),
        ("ronto"@, -27int),
        ("quecto"@, -30int),
    ]
}

/// The `k`-th entry of the SI prefix table.
fn si_prefix(k: usize) -> (r: (&'static str, i32))
    requires
        k < 24,
    ensures
        r.0@ == spec_si_prefixes()[k as int].0,
        r.1 as int == spec_si_prefixes()[k as int].1,
        -30 <= r.1 <= 30,
{
    match k {
        0 => ("Quetta", 30),
        1 => ("Ronna", 27),
        2 => ("Yotta", 24),
        3 => ("Zetta", 21),
        4 => ("Exa", 18),
        5 => ("Peta", 15),
        6 => ("Tera", 12),
        7 => ("Giga", 9),
        8 => ("Mega", 6),
        9 => ("kilo", 3),
        10 => ("hecto", 2),
        11 => ("deca", 1),
        12 => ("deci", -1),
        13 => ("centi", -2),
        14 => ("milli", -3),
        15 => ("micro", -6),
        16 => ("nano", -9),
        17 => ("pico", -12),
        18 => ("femto", -15),
        19 => ("atto", -18),
        20 => ("zepto", -21),
        21 => ("yocto", -24),
        22 => ("ronto", -27),
        _ => ("quecto", -30),
    }
}

/// The transformation registered for a parsed transformation expression: a
/// missing linear offset defaults to zero.
pub open spec fn spec_def_trans(t: ParsedTransSpec) -> TransModel {
    match t {
        ParsedTransSpec::Identity => TransModel::Identity,
        ParsedTransSpec::Linear { scale, offset } => TransModel::Linear {
            scale,
            offset: match offset {
                Some(o) => o,
                None => Ratio { num: 0, den: 1 },
            },
        },
        ParsedTransSpec::Decibel { p0 } => TransModel::Decibel { p0 },
    }
}

/// How registry building ends: the finished name-to-unit map, or the first
/// failure in definition order.
pub ghost enum BuildOutcome {
    /// Every definition and prefix expansion registered.
    Done(Map<Seq<char>, UnitModel>),
    /// A unit name was registered twice.
    Duplicate(Seq<char>),
    /// `prefixes: standard` was asked of a decibel unit.
    DecibelPrefix,
    /// `prefixes: standard` was asked of a linear unit with nonzero offset.
    BiasedPrefix,
    /// A dimension exponent or a prefix scale is not representable.
    Overflow,
}

/// Registers the 24 prefixed derivatives of a unit, from entry `k` on.
pub open spec fn spec_build_prefixes(
    base_name: Seq<char>,
    dim: Dimension,
    scale: Ratio,
    k: nat,
    acc: Map<Seq<char>, UnitModel>,
) -> BuildOutcome
    decreases 24 - k,
{
    if k >= 24 {
        BuildOutcome::Done(acc)
    } else {
        let entry = spec_si_prefixes()[k as int];
        if !rat_mul_fits(scale, spec_pow10(entry.1)) {
            BuildOutcome::Overflow
        } else {
            let nm = entry.0 + base_name;
            if acc.contains_key(nm) {
                BuildOutcome::Duplicate(nm)
            } else {
                spec_build_prefixes(
                    base_name,
                    dim,
                    scale,
                    k + 1,
                    acc.insert(
                        nm,
                        UnitModel {
                            name: nm,
                            dimension: dim,
                            transformation: TransModel::Linear {
                                scale: spec_rat_mul(scale, spec_pow10(entry.1)),
                                offset: Ratio { num: 0, den: 1 },
                            },
                        },
                    ),
                )
            }
        }
    }
}

/// Builds the registry map from the parsed definitions, from definition `j`
/// on: reduce the dimension, register the unit, and expand its standard
/// prefixes if asked for (rejecting decibel and biased linear bases).
pub open spec fn spec_build_defs(
    defs: Seq<UnitDefSpec>,
    j: nat,
    acc: Map<Seq<char>, UnitModel>,
) -> BuildOutcome
    decreases defs.len() - j,
{
    if j >= defs.len() {
        BuildOutcome::Done(acc)
    } else {
        let def = defs[j as int];
        match spec_fold_terms(def.terms, 0, spec_dim_identity()) {
            None => BuildOutcome::Overflow,
            Some(dim) => {
                if acc.contains_key(def.name) {
                    BuildOutcome::Duplicate(def.name)
                } else {
                    let acc1 = acc.insert(
                        def.name,
                        UnitModel {
                            name: def.name,
                            dimension: dim,
                            transformation: spec_def_trans(def.transformation),
                        },
                    );
                    if !def.prefixes {
                        spec_build_defs(defs, j + 1, acc1)
                    } else {
                        match def.transformation {
                            ParsedTransSpec::Decibel { .. } => BuildOutcome::DecibelPrefix,
                            ParsedTransSpec::Linear { scale, offset } => {
                                if match offset {
                                    Some(o) => o.num != 0,
                                    None => false,
                                } {
                                    BuildOutcome::BiasedPrefix
                                } else {
                                    match spec_build_prefixes(def.name, dim, scale, 0, acc1) {
                                        BuildOutcome::Done(m) => spec_build_defs(defs, j + 1, m),
                                        other => other,
                                    }
                                }
                            },
                            ParsedTransSpec::Identity => {
                                match spec_build_prefixes(
                                    def.name,
                                    dim,
                                    Ratio { num: 1, den: 1 },
                                    0,
                                    acc1,
                                ) {
                                    BuildOutcome::Done(m) => spec_build_defs(defs, j + 1, m),
                                    other => other,
                                }
                            },
                        }
                    }
                }
            },
        }
    }
}

/// Reduces a parsed term vector to a dimension, mirroring
/// [`spec_fold_terms`].
fn fold_terms(terms: &Vec<DimensionTerm>, j: usize, acc: Dimension) -> (r: Option<Dimension>)
    requires
        j <= terms@.len(),
        acc.wf(),
    ensures
        r is Some <==> spec_fold_terms(terms_view(terms@), j as nat, acc) is Some,
        r matches Some(d) ==> spec_fold_terms(terms_view(terms@), j as nat, acc) == Some(d)
            && d.wf(),
    decreases terms@.len() - j,
{
    if j >= terms.len() {
        return Some(acc);
    }
    let t = terms[j];
    let fd = Dimension::new_from_fundamental(t.fundamental);
    let p = match dim_pow_checked(fd, t.exponent) {
        Some(x) => x,
        None => {
            return None;
        },
    };
    match dim_mul_checked(acc, p) {
        Some(d) => fold_terms(terms, j + 1, d),
        None => None,
    }
}


/// Registers the 24 standard-prefix derivatives of a base unit, mirroring
/// [`spec_build_prefixes`] from entry zero.
fn build_prefixes(registry: &mut UnitRegistry, base_name: &str, dim: Dimension, scale: Rat) -> (r:
    Result<(), ArshinError>)
    requires
        old(registry).wf(),
        scale.wf(),
        dim.wf(),
    ensures
        final(registry).wf(),
        r is Ok <==> spec_build_prefixes(base_name@, dim, scale@, 0, old(registry)@) matches
            BuildOutcome::Done(m),
        r is Ok ==> spec_build_prefixes(base_name@, dim, scale@, 0, old(registry)@)
            == BuildOutcome::Done(final(registry)@),
        spec_build_prefixes(base_name@, dim, scale@, 0, old(registry)@) matches
            BuildOutcome::Duplicate(nm) ==> (r matches Err(e) && (e matches
        ArshinError::DuplicateUnitName { name } && name@ == nm)),
        spec_build_prefixes(base_name@, dim, scale@, 0, old(registry)@)
            == BuildOutcome::Overflow ==> (r matches Err(e) && (e matches ArshinError::ParseError {
            ..
        })),
        !(spec_build_prefixes(base_name@, dim, scale@, 0, old(registry)@) matches
            BuildOutcome::DecibelPrefix),
        !(spec_build_prefixes(base_name@, dim, scale@, 0, old(registry)@) matches
            BuildOutcome::BiasedPrefix),
    {
    let mut k: usize = 0;
    while k < 24
        invariant
            0 <= k <= 24,
            registry.wf(),
            scale.wf(),
            dim.wf(),
            spec_build_prefixes(base_name@, dim, scale@, k as nat, registry@)
                == spec_build_prefixes(base_name@, dim, scale@, 0, old(registry)@),
        decreases 24 - k,
    {
        let (pname, e) = si_prefix(k);
        proof {
            lemma_pow10_fits(vstd::math::abs(e as int));
        }
        let p10 = match Rat::checked_pow10(e) {
            Some(x) => x,
            None => unreached(),
        };
        let scale2 = match scale.checked_mul(&p10) {
            Some(x) => x,
            None => {
                return Err(
                    ArshinError::ParseError {
                        message: String::from_str("prefix scale out of representable range"),
                    },
                );
            },
        };
        let mut name2 = String::from_str(pname);
        name2.append(base_name);
        let u = Unit::new_linear(name2.as_str(), dim, scale2, Rat::from_int(0));
        match registry.register(u) {
            Ok(_) => {},
            Err(err) => {
                return Err(err);
            },
        }
        k = k + 1;
    }
    Ok(())
}

/// Builds a registry from parsed definitions, mirroring
/// [`spec_build_defs`].
fn build_registry(defs: &Vec<UnitDefinition>) -> (r: Result<UnitRegistry, ArshinError>)
    requires
        forall|k: int|
            0 <= k < defs@.len() ==> parsed_trans_wf(#[trigger] defs@[k].transformation),
    ensures
        ({
            let outcome = spec_build_defs(defs_view(defs@), 0, Map::empty());
            &&& (outcome matches BuildOutcome::Done(m) ==> (r matches Ok(reg) && reg.wf() && reg@
                == m))
            &&& (outcome matches BuildOutcome::Duplicate(nm) ==> (r matches Err(e) && (e matches
            ArshinError::DuplicateUnitName { name } && name@ == nm)))
            &&& (outcome == BuildOutcome::DecibelPrefix ==> (r matches Err(e) && (e matches
            ArshinError::ParseError { message } && message@
                == "Decibel transformation is not compatible with standard prefixes"@)))
            &&& (outcome == BuildOutcome::BiasedPrefix ==> (r matches Err(e) && (e matches
            ArshinError::ParseError { message } && message@
                == "Linear transformation with offset is not compatible with standard prefixes"@)))
            &&& (outcome == BuildOutcome::Overflow ==> (r matches Err(e) && (e matches
            ArshinError::ParseError { .. })))
        }),
{
    let mut registry = UnitRegistry::new();
    let n = defs.len();
    let mut j: usize = 0;
    while j < n
        invariant
            0 <= j <= n,
            n == defs@.len(),
            registry.wf(),
            forall|k: int|
                0 <= k < defs@.len() ==> parsed_trans_wf(#[trigger] defs@[k].transformation),
            spec_build_defs(defs_view(defs@), j as nat, registry@) == spec_build_defs(
                defs_view(defs@),
                0,
                Map::empty(),
            ),
        decreases n - j,
    {
        let def = &defs[j];
        proof {
            assert(defs_view(defs@)[j as int] == defs@[j as int]@);
        }
        let dim = match fold_terms(&def.terms, 0, Dimension::new([0, 0, 0, 0, 0, 0, 0, 0, 0, 0])) {
            Some(d) => d,
            None => {
                return Err(
                    ArshinError::ParseError {
                        message: String::from_str("dimension exponent out of representable range"),
                    },
                );
            },
        };
        let trans_exec: UnitTransformation = match &def.transformation {
            ParsedTransformation::Identity => UnitTransformation::Identity,
            ParsedTransformation::Linear { scale, offset } => {
                let off = match offset {
                    Some(o) => *o,
                    None => Rat::from_int(0),
                };
                UnitTransformation::Linear(LinearTransformation::new(*scale, off))
            },
            ParsedTransformation::Decibel { p0 } => UnitTransformation::Decibel(
                DecibelTransformation::new(*p0),
            ),
        };
        proof {
            assert(trans_exec@ == spec_def_trans(defs_view(defs@)[j as int].transformation));
        }
        let u = Unit::new(def.name.as_str(), dim, trans_exec);
        match registry.register(u) {
            Ok(_) => {},
            Err(err) => {
                return Err(err);
            },
        }
        if def.prefixes {
            match &def.transformation {
                ParsedTransformation::Decibel { .. } => {
                    return Err(
                        ArshinError::ParseError {
                            message: String::from_str(
                                "Decibel transformation is not compatible with standard prefixes",
                            ),
                        },
                    );
                },
                ParsedTransformation::Linear { scale, offset } => {
                    let biased = match offset {
                        Some(o) => o.num() != 0,
                        None => false,
                    };
                    if biased {
                        return Err(
                            ArshinError::ParseError {
                                message: String::from_str(
                                    "Linear transformation with offset is not compatible with standard prefixes",
                                ),
                            },
                        );
                    }
                    match build_prefixes(&mut registry, def.name.as_str(), dim, *scale) {
                        Ok(_) => {},
                        Err(err) => {
                            return Err(err);
                        },
                    }
                },
                ParsedTransformation::Identity => {
                    match build_prefixes(&mut registry, def.name.as_str(), dim, Rat::from_int(1)) {
                        Ok(_) => {},
                        Err(err) => {
                            return Err(err);
                        },
                    }
                },
            }
        }
        j = j + 1;
    }
    Ok(registry)
}

/// Parses a unit-definition document and builds the registry it describes.
/// Fails with `ParseError` exactly on malformed syntax, unrepresentable
/// numbers, or a standard-prefix request on a decibel or biased linear
/// unit; and with `DuplicateUnitName` exactly when two definitions (a
/// prefix expansion included) collide.
pub fn parse_units_file(file_content: &str) -> (r: Result<UnitRegistry, ArshinError>)
    ensures
        spec_document(file_content@, 0, Seq::empty()) is None ==> (r matches Err(e) && (e matches
        ArshinError::ParseError { .. })),
        spec_document(file_content@, 0, Seq::empty()) matches Some(defs) ==> {
            let outcome = spec_build_defs(defs, 0, Map::empty());
            &&& (outcome matches BuildOutcome::Done(m) ==> (r matches Ok(reg) && reg.wf() && reg@
                == m))
            &&& (outcome matches BuildOutcome::Duplicate(nm) ==> (r matches Err(e) && (e matches
            ArshinError::DuplicateUnitName { name } && name@ == nm)))
            &&& (outcome == BuildOutcome::DecibelPrefix ==> (r matches Err(e) && (e matches
            ArshinError::ParseError { message } && message@
                == "Decibel transformation is not compatible with standard prefixes"@)))
            &&& (outcome == BuildOutcome::BiasedPrefix ==> (r matches Err(e) && (e matches
            ArshinError::ParseError { message } && message@
                == "Linear transformation with offset is not compatible with standard prefixes"@)))
            &&& (outcome == BuildOutcome::Overflow ==> (r matches Err(e) && (e matches
            ArshinError::ParseError { .. })))
        },
{
    let n = file_content.unicode_len();
    let empty: Vec<UnitDefinition> = Vec::new();
    proof {
        assert(defs_view(empty@) =~= Seq::<UnitDefSpec>::empty());
    }
    let defs = match document(file_content, n, 0, empty) {
        Some(d) => d,
        None => {
            return Err(
                ArshinError::ParseError {
                    message: String::from_str("malformed unit definition document"),
                },
            );
        },
    };
    build_registry(&defs)
}

} // verus!

