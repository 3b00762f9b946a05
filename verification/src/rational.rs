//! Exact rational numbers over `i128`, the numeric scalar of the library.
//!
//! A [`Rat`] is a fraction in lowest terms with a positive denominator.  Its
//! mathematical value is the pair of unbounded integers [`Ratio`]; all
//! contracts are stated over that model.  Arithmetic is checked: an operation
//! yields `None` exactly when an intermediate product or sum would leave the
//! `i128` range.

use vstd::arithmetic::div_mod::{
    lemma_fundamental_div_mod, lemma_fundamental_div_mod_converse_div,
    lemma_fundamental_div_mod_converse_mod, lemma_mod_multiples_basic, lemma_mod_multiples_vanish,
    lemma_mod_self_0, lemma_small_mod, lemma_sub_mod_noop,
};
use vstd::arithmetic::power::{lemma_pow0, lemma_pow1, lemma_pow_adds, lemma_pow_increases, lemma_pow_positive, pow};
use vstd::math::abs;
use vstd::prelude::*;

verus! {

/// Mathematical value of a rational number: an unbounded numerator and
/// denominator.  A well-formed value has `den >= 1` and is in lowest terms.
pub ghost struct Ratio {
    pub num: int,
    pub den: int,
}

/// Greatest common divisor by Euclid's algorithm.
pub open spec fn spec_gcd(a: nat, b: nat) -> nat
    decreases b,
{
    if b == 0 {
        a
    } else {
        spec_gcd(b, a % b)
    }
}

/// The gcd of two numbers, not both zero, is positive and divides both.
pub proof fn lemma_gcd_divides(a: nat, b: nat)
    requires
        a > 0 || b > 0,
    ensures
        spec_gcd(a, b) >= 1,
        a as int % (spec_gcd(a, b) as int) == 0,
        b as int % (spec_gcd(a, b) as int) == 0,
    decreases b,
{
    if b == 0 {
        lemma_mod_self_0(a as int);
        lemma_small_mod(0, a);
    } else {
        lemma_gcd_divides(b, a % b);
        let g = spec_gcd(b, a % b) as int;
        lemma_fundamental_div_mod(a as int, b as int);
        assert(a == b * (a as int / b as int) + a % b);
        lemma_fundamental_div_mod(b as int, g);
        let k = b as int / g;
        assert(b as int == g * k + b as int % g);
        assert(b * (a as int / b as int) == g * (k * (a as int / b as int)))
            by (nonlinear_arith)
            requires
                b == g * k,
        ;
        lemma_mod_multiples_vanish(k * (a as int / b as int), (a % b) as int, g);
    }
}

/// Every common divisor of `a` and `b` divides their gcd.
pub proof fn lemma_gcd_universal(a: nat, b: nat, c: nat)
    requires
        c >= 1,
        a as int % (c as int) == 0,
        b as int % (c as int) == 0,
        a > 0 || b > 0,
    ensures
        spec_gcd(a, b) as int % (c as int) == 0,
    decreases b,
{
    if b == 0 {
    } else {
        lemma_fundamental_div_mod(a as int, b as int);
        let q = a as int / b as int;
        assert(a % b == a - b * q);
        lemma_fundamental_div_mod(b as int, c as int);
        assert(b == c * (b as int / c as int));
        assert(b * q == c * ((b as int / c as int) * q))
            by (nonlinear_arith)
            requires
                b == c * (b as int / c as int),
        ;
        lemma_mod_multiples_basic((b as int / c as int) * q, c as int);
        assert((b * q) % (c as int) == 0);
        lemma_sub_mod_noop(a as int, b * q, c as int);
        lemma_small_mod(0, c);
        assert((a - b * q) % (c as int) == 0);
        lemma_gcd_universal(b, (a as int % b as int) as nat, c);
    }
}

/// A positive divisor of a positive number is no larger than it.
pub proof fn lemma_divisor_le(x: nat, d: nat)
    requires
        d >= 1,
        x >= 1,
        x as int % (d as int) == 0,
    ensures
        d <= x,
        x as int / d as int >= 1,
{
    lemma_fundamental_div_mod(x as int, d as int);
    let q = x as int / d as int;
    assert(x == d * q);
    assert(q >= 1 && d <= d * q) by (nonlinear_arith)
        requires
            x == d * q,
            d >= 1,
            x >= 1,
    ;
}

/// Dividing out the gcd leaves a coprime pair.
pub proof fn lemma_reduced_coprime(a: nat, b: nat)
    requires
        a > 0 || b > 0,
    ensures
        ({
            let g = spec_gcd(a, b) as int;
            spec_gcd((a as int / g) as nat, (b as int / g) as nat) == 1
        }),
{
    lemma_gcd_divides(a, b);
    let g = spec_gcd(a, b) as int;
    lemma_fundamental_div_mod(a as int, g);
    lemma_fundamental_div_mod(b as int, g);
    let a1 = a as int / g;
    let b1 = b as int / g;
    assert(a == g * a1 && b == g * b1);
    assert(a1 >= 0 && b1 >= 0) by (nonlinear_arith)
        requires
            a == g * a1,
            b == g * b1,
            g >= 1,
            a >= 0,
            b >= 0,
    ;
    if a > 0 {
        assert(a1 > 0) by (nonlinear_arith)
            requires
                a == g * a1,
                a > 0,
                g >= 1,
                a1 >= 0,
        ;
    } else {
        assert(b1 > 0) by (nonlinear_arith)
            requires
                b == g * b1,
                b > 0,
                g >= 1,
                b1 >= 0,
        ;
    }
    lemma_gcd_divides(a1 as nat, b1 as nat);
    let h = spec_gcd(a1 as nat, b1 as nat) as int;
    lemma_fundamental_div_mod(a1, h);
    lemma_fundamental_div_mod(b1, h);
    let a2 = a1 / h;
    let b2 = b1 / h;
    assert(a1 == h * a2 && b1 == h * b2);
    assert(a == (g * h) * a2 && b == (g * h) * b2) by (nonlinear_arith)
        requires
            a == g * a1,
            b == g * b1,
            a1 == h * a2,
            b1 == h * b2,
    ;
    lemma_mod_multiples_basic(a2, g * h);
    lemma_mod_multiples_basic(b2, g * h);
    assert(g * h >= 1) by (nonlinear_arith)
        requires
            g >= 1,
            h >= 1,
    ;
    lemma_gcd_universal(a, b, (g * h) as nat);
    assert(g % (g * h) == 0);
    if h > 1 {
        assert(g < g * h) by (nonlinear_arith)
            requires
                g >= 1,
                h > 1,
        ;
        lemma_small_mod(g as nat, (g * h) as nat);
        assert(false);
    }
}

/// `gcd(a, 1) == 1`.
pub proof fn lemma_gcd_one(a: nat)
    ensures
        spec_gcd(a, 1) == 1,
        spec_gcd(1, a) == 1,
{
    reveal_with_fuel(spec_gcd, 4);
    assert(a % 1nat == 0nat) by {
        lemma_mod_multiples_basic(a as int, 1int);
    }
    assert(spec_gcd(a, 1) == spec_gcd(1nat, a % 1nat));
    if a != 0 {
        if a == 1 {
            lemma_mod_self_0(1int);
        } else {
            lemma_small_mod(1, a);
            assert(spec_gcd(1, a) == spec_gcd(a, 1nat % a));
        }
    }
}

/// The canonical form of `n / d` for `d >= 1`: both components divided by
/// their (positive) gcd.
pub open spec fn spec_reduce(n: int, d: int) -> Ratio {
    let g = spec_gcd(abs(n), abs(d)) as int;
    Ratio { num: n / g, den: d / g }
}

/// Well-formed rational value: positive denominator, lowest terms, and both
/// components representable in `i128` (the numerator strictly above
/// `i128::MIN`, so that its absolute value is also representable).
pub open spec fn ratio_wf(r: Ratio) -> bool {
    &&& 1 <= r.den <= i128::MAX as int
    &&& -(i128::MAX as int) <= r.num <= i128::MAX as int
    &&& spec_gcd(abs(r.num), r.den as nat) == 1
}

/// Two ratios denote the same rational number.
pub open spec fn ratio_eq(a: Ratio, b: Ratio) -> bool {
    a.num * b.den == b.num * a.den
}

/// An exact rational number: a fraction held in lowest terms with a
/// positive denominator.
#[derive(Debug, Clone, Copy, PartialEq, Eq)]
pub struct Rat {
    num: i128,
    den: i128,
}

impl View for Rat {
    type V = Ratio;

    closed spec fn view(&self) -> Ratio {
        Ratio { num: self.num as int, den: self.den as int }
    }
}

impl Rat {
    /// Well-formedness: the invariant every constructor establishes and
    /// every operation preserves.
    pub open spec fn wf(&self) -> bool {
        ratio_wf(self@)
    }

    /// The numerator of the fraction in lowest terms.
    pub fn num(&self) -> (n: i128)
        ensures
            n as int == self@.num,
    {
        self.num
    }

    /// The denominator of the fraction in lowest terms; always positive.
    pub fn den(&self) -> (d: i128)
        ensures
            d as int == self@.den,
    {
        self.den
    }

    /// The integer `n` as a rational.
    pub fn from_int(n: i64) -> (r: Rat)
        ensures
            r.wf(),
            r@ == (Ratio { num: n as int, den: 1 }),
    {
        proof {
            lemma_gcd_one(abs(n as int));
        }
        Rat { num: n as i128, den: 1 }
    }

    /// The rational `n / d`, brought to canonical form.
    pub fn new(n: i64, d: i64) -> (r: Rat)
        requires
            d != 0,
        ensures
            r.wf(),
            r@ == (if d > 0 {
                spec_reduce(n as int, d as int)
            } else {
                spec_reduce(-(n as int), -(d as int))
            }),
            ratio_eq(r@, Ratio { num: n as int, den: d as int }),
    {
        let (nn, dd): (i128, i128) = if d > 0 {
            (n as i128, d as i128)
        } else {
            (-(n as i128), -(d as i128))
        };
        let r = reduce(nn, dd);
        proof {
            lemma_reduce_ratio_eq(nn as int, dd as int);
            let rr = spec_reduce(nn as int, dd as int);
            assert(rr.num * (d as int) == (n as int) * rr.den) by (nonlinear_arith)
                requires
                    rr.num * (dd as int) == (nn as int) * rr.den,
                    nn as int == if d > 0 { n as int } else { -(n as int) },
                    dd as int == if d > 0 { d as int } else { -(d as int) },
            ;
        }
        r
    }
}

/// The reduction `spec_reduce(n, d)` preserves the denoted rational and is
/// well formed.
pub proof fn lemma_reduce_ratio_eq(n: int, d: int)
    requires
        1 <= d <= i128::MAX as int,
        -(i128::MAX as int) <= n <= i128::MAX as int,
    ensures
        ratio_wf(spec_reduce(n, d)),
        ratio_eq(spec_reduce(n, d), Ratio { num: n, den: d }),
        abs(spec_reduce(n, d).num) <= abs(n),
        spec_reduce(n, d).den <= d,
{
    let g = spec_gcd(abs(n), d as nat) as int;
    lemma_gcd_divides(abs(n), d as nat);
    lemma_fundamental_div_mod(abs(n) as int, g);
    lemma_fundamental_div_mod(d, g);
    let m1 = abs(n) as int / g;
    let d1 = d / g;
    assert(abs(n) == g * m1 && d == g * d1);
    lemma_divisor_le(d as nat, g as nat);
    assert(d1 >= 1);
    assert(m1 >= 0 && m1 <= abs(n) && d1 <= d) by (nonlinear_arith)
        requires
            abs(n) == g * m1,
            d == g * d1,
            g >= 1,
            d1 >= 1,
    ;
    // Euclidean division of n by g equals the sign-adjusted magnitude quotient.
    assert(n == if n >= 0 { g * m1 } else { g * (-m1) }) by (nonlinear_arith)
        requires
            abs(n) == g * m1,
            abs(n) == if n >= 0 { n } else { -n },
    ;
    if n >= 0 {
        assert(n == m1 * g + 0) by (nonlinear_arith)
            requires
                n == g * m1,
        ;
        lemma_fundamental_div_mod_converse_div(n, g, m1, 0);
    } else {
        assert(n == (-m1) * g + 0) by (nonlinear_arith)
            requires
                n == g * (-m1),
        ;
        lemma_fundamental_div_mod_converse_div(n, g, -m1, 0);
    }
    let n1 = n / g;
    assert(abs(n1) == m1);
    lemma_reduced_coprime(abs(n), d as nat);
    assert(n1 * d == n * d1) by (nonlinear_arith)
        requires
            n == g * n1,
            d == g * d1,
    ;
}

/// Brings `n / d` (with `d >= 1`) to canonical form by dividing out the gcd.
fn reduce(n: i128, d: i128) -> (r: Rat)
    requires
        1 <= d,
        -(i128::MAX as int) <= n as int,
    ensures
        r.wf(),
        r@ == spec_reduce(n as int, d as int),
{
    let m: i128 = if n < 0 {
        -n
    } else {
        n
    };
    let g = gcd_i128(m, d);
    proof {
        lemma_reduce_ratio_eq(n as int, d as int);
        lemma_gcd_divides(abs(n as int), d as nat);
        lemma_fundamental_div_mod(m as int, g as int);
        lemma_fundamental_div_mod(d as int, g as int);
        lemma_divisor_le(d as nat, g as nat);
        assert(m as int / g as int <= m && d as int / g as int <= d) by (nonlinear_arith)
            requires
                m == g * (m as int / g as int),
                d == g * (d as int / g as int),
                g >= 1,
                m >= 0,
                d >= 1,
                m as int / g as int >= 0,
                d as int / g as int >= 1,
        ;
    }
    let q = m / g;
    let dq = d / g;
    proof {
        let gg = g as int;
        assert(m as int / gg >= 0);
        if n >= 0 {
            assert(n as int / gg == m as int / gg);
        } else {
            assert(n == gg * (-(m as int / gg))) by (nonlinear_arith)
                requires
                    m == gg * (m as int / gg),
                    n == -(m as int),
            ;
            lemma_fundamental_div_mod_converse_div(n as int, gg, -(m as int / gg), 0);
        }
    }
    let nq: i128 = if n < 0 {
        -q
    } else {
        q
    };
    Rat { num: nq, den: dq }
}

/// Euclid's algorithm on machine integers.
fn gcd_i128(a: i128, b: i128) -> (g: i128)
    requires
        0 <= a,
        0 <= b,
        a > 0 || b > 0,
    ensures
        g as int == spec_gcd(a as nat, b as nat) as int,
        g >= 1,
{
    let mut x = a;
    let mut y = b;
    while y != 0
        invariant
            0 <= x,
            0 <= y,
            x > 0 || y > 0,
            spec_gcd(x as nat, y as nat) == spec_gcd(a as nat, b as nat),
        decreases y,
    {
        let t = x % y;
        x = y;
        y = t;
    }
    proof {
        lemma_gcd_divides(a as nat, b as nat);
    }
    x
}


/// `x` is representable as an `i128` with representable negation.
pub open spec fn in_i128(x: int) -> bool {
    -(i128::MAX as int) <= x <= i128::MAX as int
}

/// Exact product of two ratios, in canonical form.
pub open spec fn spec_rat_mul(a: Ratio, b: Ratio) -> Ratio {
    spec_reduce(a.num * b.num, a.den * b.den)
}

/// Exact sum of two ratios, in canonical form.
pub open spec fn spec_rat_add(a: Ratio, b: Ratio) -> Ratio {
    spec_reduce(a.num * b.den + b.num * a.den, a.den * b.den)
}

/// Exact negation of a ratio.
pub open spec fn spec_rat_neg(a: Ratio) -> Ratio {
    Ratio { num: -a.num, den: a.den }
}

/// Exact difference of two ratios, in canonical form.
pub open spec fn spec_rat_sub(a: Ratio, b: Ratio) -> Ratio {
    spec_rat_add(a, spec_rat_neg(b))
}

/// Exact reciprocal of a nonzero ratio.
pub open spec fn spec_rat_recip(a: Ratio) -> Ratio {
    if a.num >= 0 {
        Ratio { num: a.den, den: a.num }
    } else {
        Ratio { num: -a.den, den: -a.num }
    }
}

/// Exact quotient of two ratios, in canonical form.
pub open spec fn spec_rat_div(a: Ratio, b: Ratio) -> Ratio {
    spec_rat_mul(a, spec_rat_recip(b))
}

/// The intermediate products of a multiplication stay in `i128` range.
pub open spec fn rat_mul_fits(a: Ratio, b: Ratio) -> bool {
    in_i128(a.num * b.num) && in_i128(a.den * b.den)
}

/// The intermediate products and sum of an addition stay in `i128` range.
pub open spec fn rat_add_fits(a: Ratio, b: Ratio) -> bool {
    &&& in_i128(a.num * b.den)
    &&& in_i128(b.num * a.den)
    &&& in_i128(a.num * b.den + b.num * a.den)
    &&& in_i128(a.den * b.den)
}

/// The intermediate values of a subtraction stay in `i128` range.
pub open spec fn rat_sub_fits(a: Ratio, b: Ratio) -> bool {
    rat_add_fits(a, spec_rat_neg(b))
}

/// The intermediate products of a division stay in `i128` range.
pub open spec fn rat_div_fits(a: Ratio, b: Ratio) -> bool {
    rat_mul_fits(a, spec_rat_recip(b))
}

/// The gcd is symmetric in its arguments.
pub proof fn lemma_gcd_comm(a: nat, b: nat)
    requires
        a > 0 || b > 0,
    ensures
        spec_gcd(a, b) == spec_gcd(b, a),
{
    lemma_gcd_divides(a, b);
    lemma_gcd_divides(b, a);
    let g1 = spec_gcd(a, b);
    let g2 = spec_gcd(b, a);
    lemma_gcd_universal(b, a, g1);
    lemma_gcd_universal(a, b, g2);
    lemma_divisor_le(g2, g1);
    lemma_divisor_le(g1, g2);
}

/// Product of two `i128` values, `None` exactly when the result (or its
/// negation) would not be representable.
pub(crate) fn mul_i128(x: i128, y: i128) -> (r: Option<i128>)
    ensures
        r.is_some() <==> in_i128(x as int * y as int),
        r.is_some() ==> r.unwrap() as int == x as int * y as int,
{
    match x.checked_mul(y) {
        Some(v) => if v == i128::MIN {
            None
        } else {
            Some(v)
        },
        None => None,
    }
}

/// Sum of two `i128` values, `None` exactly when the result (or its
/// negation) would not be representable.
pub(crate) fn add_i128(x: i128, y: i128) -> (r: Option<i128>)
    ensures
        r.is_some() <==> in_i128(x as int + y as int),
        r.is_some() ==> r.unwrap() as int == x as int + y as int,
{
    match x.checked_add(y) {
        Some(v) => if v == i128::MIN {
            None
        } else {
            Some(v)
        },
        None => None,
    }
}

impl Rat {
    /// Checked product: `None` exactly when an intermediate product
    /// overflows `i128`.
    pub fn checked_mul(&self, other: &Rat) -> (r: Option<Rat>)
        requires
            self.wf(),
            other.wf(),
        ensures
            r.is_some() <==> rat_mul_fits(self@, other@),
            r.is_some() ==> r.unwrap().wf() && r.unwrap()@ == spec_rat_mul(self@, other@),
    {
        let n = match mul_i128(self.num, other.num) {
            Some(v) => v,
            None => {
                return None;
            },
        };
        let d = match mul_i128(self.den, other.den) {
            Some(v) => v,
            None => {
                return None;
            },
        };
        proof {
            assert(d >= 1) by (nonlinear_arith)
                requires
                    d as int == self@.den * other@.den,
                    self@.den >= 1,
                    other@.den >= 1,
            ;
        }
        Some(reduce(n, d))
    }

    /// Checked sum: `None` exactly when an intermediate product or the
    /// numerator sum overflows `i128`.
    pub fn checked_add(&self, other: &Rat) -> (r: Option<Rat>)
        requires
            self.wf(),
            other.wf(),
        ensures
            r.is_some() <==> rat_add_fits(self@, other@),
            r.is_some() ==> r.unwrap().wf() && r.unwrap()@ == spec_rat_add(self@, other@),
    {
        let n1 = match mul_i128(self.num, other.den) {
            Some(v) => v,
            None => {
                return None;
            },
        };
        let n2 = match mul_i128(other.num, self.den) {
            Some(v) => v,
            None => {
                return None;
            },
        };
        let n = match add_i128(n1, n2) {
            Some(v) => v,
            None => {
                return None;
            },
        };
        let d = match mul_i128(self.den, other.den) {
            Some(v) => v,
            None => {
                return None;
            },
        };
        proof {
            assert(d >= 1) by (nonlinear_arith)
                requires
                    d as int == self@.den * other@.den,
                    self@.den >= 1,
                    other@.den >= 1,
            ;
        }
        Some(reduce(n, d))
    }

    /// Exact negation; always representable.
    pub fn neg(&self) -> (r: Rat)
        requires
            self.wf(),
        ensures
            r.wf(),
            r@ == spec_rat_neg(self@),
    {
        Rat { num: -self.num, den: self.den }
    }

    /// Checked difference: `None` exactly when an intermediate product or
    /// the numerator difference overflows `i128`.
    pub fn checked_sub(&self, other: &Rat) -> (r: Option<Rat>)
        requires
            self.wf(),
            other.wf(),
        ensures
            r.is_some() <==> rat_sub_fits(self@, other@),
            r.is_some() ==> r.unwrap().wf() && r.unwrap()@ == spec_rat_sub(self@, other@),
    {
        self.checked_add(&other.neg())
    }

    /// Exact reciprocal: `None` exactly when the value is zero.
    pub fn recip(&self) -> (r: Option<Rat>)
        requires
            self.wf(),
        ensures
            r.is_some() <==> self@.num != 0,
            r.is_some() ==> r.unwrap().wf() && r.unwrap()@ == spec_rat_recip(self@),
    {
        if self.num == 0 {
            None
        } else {
            proof {
                lemma_gcd_comm(abs(self@.num), self@.den as nat);
            }
            if self.num > 0 {
                Some(Rat { num: self.den, den: self.num })
            } else {
                Some(Rat { num: -self.den, den: -self.num })
            }
        }
    }

    /// Checked quotient: `None` exactly when the divisor is zero or an
    /// intermediate product overflows `i128`.
    pub fn checked_div(&self, other: &Rat) -> (r: Option<Rat>)
        requires
            self.wf(),
            other.wf(),
        ensures
            r.is_some() <==> other@.num != 0 && rat_div_fits(self@, other@),
            r.is_some() ==> r.unwrap().wf() && r.unwrap()@ == spec_rat_div(self@, other@),
    {
        match other.recip() {
            Some(inv) => self.checked_mul(&inv),
            None => None,
        }
    }
}


/// The power of ten `10^k`, as an exact ratio (for negative `k`, a unit
/// fraction).
pub open spec fn spec_pow10(k: int) -> Ratio {
    if k >= 0 {
        Ratio { num: pow(10, k as nat), den: 1 }
    } else {
        Ratio { num: 1, den: pow(10, (-k) as nat) }
    }
}

/// `10^m` on machine integers, `None` exactly when it exceeds `i128::MAX`.
pub(crate) fn pow10_mag(m: u32) -> (r: Option<i128>)
    ensures
        r.is_some() <==> pow(10, m as nat) <= i128::MAX as int,
        r.is_some() ==> r.unwrap() as int == pow(10, m as nat) && r.unwrap() >= 1,
{
    let mut acc: i128 = 1;
    let mut i: u32 = 0;
    proof {
        lemma_pow0(10);
    }
    while i < m
        invariant
            0 <= i <= m,
            acc as int == pow(10, i as nat),
            1 <= acc <= i128::MAX,
        decreases m - i,
    {
        proof {
            lemma_pow_adds(10, i as nat, 1);
            lemma_pow1(10);
            assert(pow(10, (i + 1) as nat) == 10 * pow(10, i as nat));
        }
        acc = match acc.checked_mul(10) {
            Some(v) => v,
            None => {
                proof {
                    lemma_pow_increases(10, (i + 1) as nat, m as nat);
                }
                return None;
            },
        };
        i = i + 1;
    }
    Some(acc)
}

impl Rat {
    /// The exact power of ten `10^k`; `None` exactly when `10^|k|` exceeds
    /// `i128::MAX`.
    pub fn checked_pow10(k: i32) -> (r: Option<Rat>)
        ensures
            r.is_some() <==> pow(10, abs(k as int)) <= i128::MAX as int,
            r.is_some() ==> r.unwrap().wf() && r.unwrap()@ == spec_pow10(k as int),
    {
        let m: u32 = if k < 0 {
            (-(k as i64)) as u32
        } else {
            k as u32
        };
        match pow10_mag(m) {
            Some(v) => {
                proof {
                    lemma_pow_positive(10, m as nat);
                    lemma_gcd_one(abs(v as int));
                }
                if k >= 0 {
                    Some(Rat { num: v, den: 1 })
                } else {
                    Some(Rat { num: 1, den: v })
                }
            },
            None => None,
        }
    }
}

/// The `e`-th power of a ratio, as an iterated canonical product.
pub open spec fn spec_rat_pow(a: Ratio, e: nat) -> Ratio
    decreases e,
{
    if e == 0 {
        Ratio { num: 1, den: 1 }
    } else {
        spec_rat_mul(spec_rat_pow(a, (e - 1) as nat), a)
    }
}

/// All intermediate products of the iterated power stay in `i128` range.
pub open spec fn rat_pow_fits(a: Ratio, e: nat) -> bool
    decreases e,
{
    if e == 0 {
        true
    } else {
        rat_pow_fits(a, (e - 1) as nat) && rat_mul_fits(spec_rat_pow(a, (e - 1) as nat), a)
    }
}

/// If the iterated power fits up to `e`, it fits up to any smaller count.
pub proof fn lemma_rat_pow_fits_prefix(a: Ratio, i: nat, e: nat)
    requires
        i <= e,
        rat_pow_fits(a, e),
    ensures
        rat_pow_fits(a, i),
    decreases e,
{
    if i < e {
        lemma_rat_pow_fits_prefix(a, i, (e - 1) as nat);
    }
}

/// The signed power `a^e` (reciprocal of the positive power for negative
/// `e`).
pub open spec fn spec_rat_powi(a: Ratio, e: int) -> Ratio {
    if e >= 0 {
        spec_rat_pow(a, e as nat)
    } else {
        spec_rat_recip(spec_rat_pow(a, (-e) as nat))
    }
}

/// The signed power is computable: intermediates fit and, for negative `e`,
/// the base power is nonzero.
pub open spec fn rat_powi_fits(a: Ratio, e: int) -> bool {
    rat_pow_fits(a, abs(e)) && (e < 0 ==> spec_rat_pow(a, (-e) as nat).num != 0)
}

impl Rat {
    /// Checked iterated power with nonnegative exponent.
    pub fn checked_pow(&self, e: u64) -> (r: Option<Rat>)
        requires
            self.wf(),
        ensures
            r.is_some() <==> rat_pow_fits(self@, e as nat),
            r.is_some() ==> r.unwrap().wf() && r.unwrap()@ == spec_rat_pow(self@, e as nat),
    {
        let mut acc = Rat::from_int(1);
        let mut i: u64 = 0;
        while i < e
            invariant
                0 <= i <= e,
                acc.wf(),
                acc@ == spec_rat_pow(self@, i as nat),
                rat_pow_fits(self@, i as nat),
                self.wf(),
            decreases e - i,
        {
            acc = match acc.checked_mul(self) {
                Some(v) => v,
                None => {
                    proof {
                        if rat_pow_fits(self@, e as nat) {
                            lemma_rat_pow_fits_prefix(self@, (i + 1) as nat, e as nat);
                        }
                    }
                    return None;
                },
            };
            i = i + 1;
        }
        Some(acc)
    }

    /// Checked signed power: `None` exactly when an intermediate overflows
    /// or a negative power of zero is asked for.
    pub fn checked_powi(&self, e: i64) -> (r: Option<Rat>)
        requires
            self.wf(),
        ensures
            r.is_some() <==> rat_powi_fits(self@, e as int),
            r.is_some() ==> r.unwrap().wf() && r.unwrap()@ == spec_rat_powi(self@, e as int),
    {
        let m: u64 = if e < 0 {
            (-(e as i128)) as u64
        } else {
            e as u64
        };
        match self.checked_pow(m) {
            Some(p) => {
                if e < 0 {
                    p.recip()
                } else {
                    Some(p)
                }
            },
            None => None,
        }
    }
}


/// Powers of ten up to the 38th stay within `i128::MAX`.
pub proof fn lemma_pow10_fits(e: nat)
    requires
        e <= 38,
    ensures
        pow(10, e) <= i128::MAX as int,
        pow(10, e) >= 1,
{
    lemma_pow_positive(10, e);
    assert(pow(10, 13) == 10000000000000int) by {
        reveal_with_fuel(pow, 14);
    }
    assert(pow(10, 12) == 1000000000000int) by {
        reveal_with_fuel(pow, 13);
    }
    lemma_pow_adds(10, 13, 13);
    lemma_pow_adds(10, 26, 12);
    assert(pow(10, 38) <= i128::MAX as int);
    lemma_pow_increases(10, e, 38);
}

impl Rat {
    /// The canonical rational `n / d` from machine-integer components.
    pub fn from_parts(n: i128, d: i128) -> (r: Rat)
        requires
            1 <= d,
            -(i128::MAX as int) <= n as int,
        ensures
            r.wf(),
            r@ == spec_reduce(n as int, d as int),
    {
        reduce(n, d)
    }
}


/// Denoting the same rational is transitive (over nonzero middle
/// denominators).
pub proof fn lemma_ratio_eq_trans(a: Ratio, b: Ratio, c: Ratio)
    requires
        ratio_eq(a, b),
        ratio_eq(b, c),
        b.den != 0,
    ensures
        ratio_eq(a, c),
{
    assert(a.num * c.den == c.num * a.den) by (nonlinear_arith)
        requires
            a.num * b.den == b.num * a.den,
            b.num * c.den == c.num * b.den,
            b.den != 0,
    ;
}


/// Bezout coefficients for the gcd: returns `(x, y)` with
/// `a * x + b * y == gcd(a, b)`.
pub proof fn lemma_bezout(a: nat, b: nat) -> (r: (int, int))
    ensures
        a * r.0 + b * r.1 == spec_gcd(a, b),
    decreases b,
{
    if b == 0 {
        let r = (1int, 0int);
        assert(a * 1 + b * 0 == a) by (nonlinear_arith)
            requires
                b == 0,
        ;
        r
    } else {
        let (x, y) = lemma_bezout(b, a % b);
        lemma_fundamental_div_mod(a as int, b as int);
        let q = a as int / b as int;
        let r = (y, x - q * y);
        assert(a * y + b * (x - q * y) == b * x + (a - q * b) * y) by (nonlinear_arith);
        assert(a % b == a - q * b);
        r
    }
}

/// Euclid's lemma: a number coprime to a divisor of one factor of a product
/// it divides must divide the other factor.
pub proof fn lemma_coprime_divides(m: nat, k: nat, d: nat)
    requires
        d >= 1,
        spec_gcd(m, d) == 1,
        (m * k) as int % (d as int) == 0,
    ensures
        k as int % (d as int) == 0,
{
    let (x, y) = lemma_bezout(m, d);
    assert(m * x + d * y == 1);
    lemma_fundamental_div_mod((m * k) as int, d as int);
    let q = (m * k) as int / d as int;
    assert(m * k == d * q);
    assert(k == (x * q + k * y) * d + 0) by (nonlinear_arith)
        requires
            m * x + d * y == 1,
            m * k == d * q,
    ;
    lemma_fundamental_div_mod_converse_mod(k as int, d as int, x * q + k * y, 0);
}

/// Canonical forms are unique: two well-formed ratios denoting the same
/// rational number are equal.
pub proof fn lemma_canonical_unique(a: Ratio, b: Ratio)
    requires
        ratio_wf(a),
        ratio_wf(b),
        ratio_eq(a, b),
    ensures
        a == b,
{
    lemma_canonical_den_divides(a, b);
    lemma_canonical_den_divides(b, a);
    lemma_divisor_le(a.den as nat, b.den as nat);
    lemma_divisor_le(b.den as nat, a.den as nat);
    assert(a.den == b.den);
    assert(a.num == b.num) by (nonlinear_arith)
        requires
            a.num * b.den == b.num * a.den,
            a.den == b.den,
            a.den >= 1,
    ;
}

/// The denominator of one canonical ratio divides the denominator of any
/// ratio denoting the same rational.
proof fn lemma_canonical_den_divides(a: Ratio, b: Ratio)
    requires
        ratio_wf(a),
        ratio_wf(b),
        ratio_eq(a, b),
    ensures
        b.den as int % (a.den as int) == 0,
{
    let m = abs(a.num);
    // |a.num| * b.den is a multiple of a.den, whatever the sign of a.num.
    if a.num >= 0 {
        assert((m as int) * b.den == b.num * a.den) by (nonlinear_arith)
            requires
                a.num * b.den == b.num * a.den,
                a.num >= 0,
                m as int == a.num,
        ;
        lemma_mod_multiples_basic(b.num, a.den as int);
        assert(((m as int) * b.den) % (a.den as int) == 0);
    } else {
        assert((m as int) * b.den == (-b.num) * a.den) by (nonlinear_arith)
            requires
                a.num * b.den == b.num * a.den,
                a.num < 0,
                m as int == -a.num,
        ;
        lemma_mod_multiples_basic(-b.num, a.den as int);
        assert(((m as int) * b.den) % (a.den as int) == 0);
    }
    assert((m * (b.den as nat)) as int == (m as int) * b.den) by (nonlinear_arith)
        requires
            b.den >= 1,
    ;
    lemma_coprime_divides(m, b.den as nat, a.den as nat);
}


/// The iterated canonical power denotes the componentwise mathematical
/// power: `a^e` is the canonical form of `a.num^e / a.den^e`.
pub proof fn lemma_rat_pow_denotes(a: Ratio, e: nat)
    requires
        ratio_wf(a),
        rat_pow_fits(a, e),
    ensures
        ratio_wf(spec_rat_pow(a, e)),
        ratio_eq(spec_rat_pow(a, e), Ratio { num: pow(a.num, e), den: pow(a.den, e) }),
        pow(a.den, e) >= 1,
    decreases e,
{
    lemma_pow_positive(a.den, e);
    if e == 0 {
        lemma_gcd_one(1);
        lemma_pow0(a.num);
        lemma_pow0(a.den);
    } else {
        lemma_rat_pow_denotes(a, (e - 1) as nat);
        let p = spec_rat_pow(a, (e - 1) as nat);
        assert(1 <= p.den * a.den) by (nonlinear_arith)
            requires
                1 <= p.den,
                1 <= a.den,
        ;
        lemma_reduce_ratio_eq(p.num * a.num, p.den * a.den);
        let raw = Ratio { num: p.num * a.num, den: p.den * a.den };
        let target = Ratio { num: pow(a.num, e), den: pow(a.den, e) };
        assert(pow(a.num, e) == pow(a.num, (e - 1) as nat) * a.num && pow(a.den, e) == pow(
            a.den,
            (e - 1) as nat,
        ) * a.den) by {
            lemma_pow_adds(a.num, (e - 1) as nat, 1);
            lemma_pow_adds(a.den, (e - 1) as nat, 1);
            lemma_pow1(a.num);
            lemma_pow1(a.den);
        }
        let pn = p.num;
        let pd = p.den;
        let qn = pow(a.num, (e - 1) as nat);
        let qd = pow(a.den, (e - 1) as nat);
        assert((pn * a.num) * (qd * a.den) == (qn * a.num) * (pd * a.den)) by (nonlinear_arith)
            requires
                pn * qd == qn * pd,
        ;
        assert(ratio_eq(raw, target));
        lemma_ratio_eq_trans(spec_rat_pow(a, e), raw, target);
    }
}


/// Reduction is idempotent: bringing an already-canonical ratio to
/// canonical form changes nothing.
pub proof fn lemma_reduce_idempotent(a: Ratio)
    requires
        ratio_wf(a),
    ensures
        spec_reduce(a.num, a.den) == a,
{
    lemma_reduce_ratio_eq(a.num, a.den);
    lemma_canonical_unique(spec_reduce(a.num, a.den), a);
}

} // verus!
