//! Numeric transformations between a unit's own representation and the
//! canonical base representation.
//!
//! Three strategies exist: identity, affine (`v * scale + offset`) and
//! logarithmic decibel (`10^(v/10) * p0`).  All arithmetic is exact over
//! rationals; a conversion yields `None` exactly when its result is not an
//! exact representable rational (a decibel conversion off the powers of
//! ten, or an intermediate overflow).

use crate::rational::{
    lemma_canonical_unique, lemma_gcd_one, lemma_ratio_eq_trans, lemma_reduce_ratio_eq,
    rat_add_fits, rat_div_fits, rat_mul_fits, rat_sub_fits, ratio_eq, ratio_wf, spec_pow10,
    spec_rat_add, spec_rat_div, spec_rat_mul, spec_rat_recip, spec_rat_sub, Rat, Ratio,
};
use vstd::arithmetic::div_mod::lemma_mod_multiples_basic;
use vstd::arithmetic::power::lemma_pow_positive;
use vstd::arithmetic::div_mod::{
    lemma_fundamental_div_mod, lemma_fundamental_div_mod_converse_div,
    lemma_fundamental_div_mod_converse_mod,
};
use vstd::arithmetic::power::{lemma_pow0, lemma_pow1, lemma_pow_adds, lemma_pow_increases, pow};
use vstd::math::abs;
use vstd::prelude::*;

verus! {

/// The affine strategy `to_base(v) = v * scale + offset`.  Requires
/// `scale != 0` for the inverse direction to exist.
#[derive(Debug, Clone, Copy, PartialEq, Eq)]
pub struct LinearTransformation {
    pub scale: Rat,
    pub offset: Rat,
}

/// The trivial strategy: the unit representation is the base
/// representation.
#[derive(Debug, Clone, Copy, PartialEq, Eq)]
pub struct IdentityTransformation;

/// The logarithmic-ratio strategy referenced to `p0`:
/// `to_base(v) = 10^(v/10) * p0`.
#[derive(Debug, Clone, Copy, PartialEq, Eq)]
pub struct DecibelTransformation {
    pub p0: Rat,
}

/// The closed set of transformation strategies, matched exhaustively at
/// every consumption site.
#[derive(Debug, Clone, Copy, PartialEq, Eq)]
pub enum UnitTransformation {
    Identity,
    Linear(LinearTransformation),
    Decibel(DecibelTransformation),
}

/// Mathematical content of a transformation: the strategy tag and its
/// exact rational parameters.
pub ghost enum TransModel {
    Identity,
    Linear { scale: Ratio, offset: Ratio },
    Decibel { p0: Ratio },
}

impl View for UnitTransformation {
    type V = TransModel;

    open spec fn view(&self) -> TransModel {
        match *self {
            UnitTransformation::Identity => TransModel::Identity,
            UnitTransformation::Linear(l) => TransModel::Linear {
                scale: l.scale@,
                offset: l.offset@,
            },
            UnitTransformation::Decibel(d) => TransModel::Decibel { p0: d.p0@ },
        }
    }
}

/// Every rational held by the transformation is well formed.
pub open spec fn trans_wf(t: TransModel) -> bool {
    match t {
        TransModel::Identity => true,
        TransModel::Linear { scale, offset } => ratio_wf(scale) && ratio_wf(offset),
        TransModel::Decibel { p0 } => ratio_wf(p0),
    }
}

/// `v * scale + offset`, when every intermediate fits.
pub open spec fn spec_linear_to_base(scale: Ratio, offset: Ratio, v: Ratio) -> Option<Ratio> {
    if rat_mul_fits(v, scale) && rat_add_fits(spec_rat_mul(v, scale), offset) {
        Some(spec_rat_add(spec_rat_mul(v, scale), offset))
    } else {
        None
    }
}

/// `(v - offset) / scale`, when the scale is nonzero and every intermediate
/// fits.
pub open spec fn spec_linear_from_base(scale: Ratio, offset: Ratio, v: Ratio) -> Option<Ratio> {
    if scale.num != 0 && rat_sub_fits(v, offset) && rat_div_fits(
        spec_rat_sub(v, offset),
        scale,
    ) {
        Some(spec_rat_div(spec_rat_sub(v, offset), scale))
    } else {
        None
    }
}

/// The exact decimal logarithm: `Some(k)` exactly when `n == 10^k`.
pub open spec fn spec_log10_exact(n: int) -> Option<nat>
    decreases n,
{
    if n < 1 {
        None
    } else if n == 1 {
        Some(0)
    } else if n % 10 == 0 {
        match spec_log10_exact(n / 10) {
            Some(k) => Some((k + 1) as nat),
            None => None,
        }
    } else {
        None
    }
}

/// The exact decimal logarithm names only exact powers of ten.
pub proof fn lemma_log10_exact_pow(n: int, k: nat)
    requires
        spec_log10_exact(n) == Some(k),
    ensures
        n == pow(10, k),
    decreases n,
{
    if n == 1 {
        lemma_pow0(10);
    } else {
        lemma_log10_exact_pow(n / 10, (k - 1) as nat);
        lemma_pow_adds(10, (k - 1) as nat, 1);
        lemma_pow1(10);
        assert(pow(10, k) == 10 * pow(10, (k - 1) as nat));
        lemma_fundamental_div_mod(n, 10);
    }
}

/// Powers of ten from the 39th on exceed `i128::MAX`.
pub proof fn lemma_pow10_exceeds(e: nat)
    requires
        e >= 39,
    ensures
        pow(10, e) > i128::MAX as int,
{
    assert(pow(10, 13) == 10000000000000int) by {
        reveal_with_fuel(pow, 14);
    }
    lemma_pow_adds(10, 13, 13);
    lemma_pow_adds(10, 26, 13);
    assert(pow(10, 39) > i128::MAX as int);
    lemma_pow_increases(10, 39, e);
}

/// `10^(v/10) * p0`: defined exactly when `v` is an integer multiple of ten
/// and the power and product are representable.
pub open spec fn spec_decibel_to_base(p0: Ratio, v: Ratio) -> Option<Ratio> {
    if v.den == 1 && v.num % 10 == 0 {
        let k = v.num / 10;
        if pow(10, abs(k)) <= i128::MAX as int && rat_mul_fits(spec_pow10(k), p0) {
            Some(spec_rat_mul(spec_pow10(k), p0))
        } else {
            None
        }
    } else {
        None
    }
}

/// `10 * log10(v / p0)`: defined exactly when `v / p0` is an exact power of
/// ten.
pub open spec fn spec_decibel_from_base(p0: Ratio, v: Ratio) -> Option<Ratio> {
    if p0.num != 0 && rat_div_fits(v, p0) {
        let q = spec_rat_div(v, p0);
        if q.den == 1 {
            match spec_log10_exact(q.num) {
                Some(k) => Some(Ratio { num: 10 * (k as int), den: 1 }),
                None => None,
            }
        } else if q.num == 1 {
            match spec_log10_exact(q.den) {
                Some(k) => Some(Ratio { num: -10 * (k as int), den: 1 }),
                None => None,
            }
        } else {
            None
        }
    } else {
        None
    }
}

/// What `to_base` returns for each strategy.
pub open spec fn spec_to_base(t: TransModel, v: Ratio) -> Option<Ratio> {
    match t {
        TransModel::Identity => Some(v),
        TransModel::Linear { scale, offset } => spec_linear_to_base(scale, offset, v),
        TransModel::Decibel { p0 } => spec_decibel_to_base(p0, v),
    }
}

/// What `from_base` returns for each strategy.
pub open spec fn spec_from_base(t: TransModel, v: Ratio) -> Option<Ratio> {
    match t {
        TransModel::Identity => Some(v),
        TransModel::Linear { scale, offset } => spec_linear_from_base(scale, offset, v),
        TransModel::Decibel { p0 } => spec_decibel_from_base(p0, v),
    }
}

/// The strategy is a pure rescaling: identity, or linear with zero offset.
/// Only such transformations may be composed by unit multiplication,
/// division and powers.
pub open spec fn spec_scale_only(t: TransModel) -> bool {
    match t {
        TransModel::Identity => true,
        TransModel::Linear { scale, offset } => offset.num == 0,
        TransModel::Decibel { .. } => false,
    }
}

/// The scale factor of a rescaling strategy (one for the identity).
pub open spec fn spec_scale(t: TransModel) -> Ratio {
    match t {
        TransModel::Identity => Ratio { num: 1, den: 1 },
        TransModel::Linear { scale, offset } => scale,
        TransModel::Decibel { .. } => Ratio { num: 1, den: 1 },
    }
}

impl IdentityTransformation {
    /// The identity strategy.
    pub fn new() -> (r: IdentityTransformation)
        ensures
            r == IdentityTransformation,
    {
        IdentityTransformation
    }

    /// The base representation equals the unit representation.
    pub fn to_base(&self, value: &Rat) -> (r: Rat)
        ensures
            r == *value,
    {
        *value
    }

    /// The unit representation equals the base representation.
    pub fn from_base(&self, value: &Rat) -> (r: Rat)
        ensures
            r == *value,
    {
        *value
    }
}

impl LinearTransformation {
    /// The affine strategy `v * scale + offset`.
    pub fn new(scale: Rat, offset: Rat) -> (r: LinearTransformation)
        ensures
            r.scale == scale,
            r.offset == offset,
    {
        LinearTransformation { scale, offset }
    }

    /// The scale factor.
    pub fn scale(&self) -> (r: Rat)
        ensures
            r == self.scale,
    {
        self.scale
    }

    /// The shift (bias) term.
    pub fn offset(&self) -> (r: Rat)
        ensures
            r == self.offset,
    {
        self.offset
    }

    /// `v * scale + offset`; `None` exactly when an intermediate overflows.
    pub fn to_base(&self, value: &Rat) -> (r: Option<Rat>)
        requires
            self.scale.wf(),
            self.offset.wf(),
            value.wf(),
        ensures
            r is Some <==> spec_linear_to_base(self.scale@, self.offset@, value@) is Some,
            r matches Some(x) ==> x.wf() && Some(x@) == spec_linear_to_base(
                self.scale@,
                self.offset@,
                value@,
            ),
    {
        match value.checked_mul(&self.scale) {
            Some(p) => p.checked_add(&self.offset),
            None => None,
        }
    }

    /// `(v - offset) / scale`; `None` exactly when the scale is zero or an
    /// intermediate overflows.
    pub fn from_base(&self, value: &Rat) -> (r: Option<Rat>)
        requires
            self.scale.wf(),
            self.offset.wf(),
            value.wf(),
        ensures
            r is Some <==> spec_linear_from_base(self.scale@, self.offset@, value@) is Some,
            r matches Some(x) ==> x.wf() && Some(x@) == spec_linear_from_base(
                self.scale@,
                self.offset@,
                value@,
            ),
    {
        match value.checked_sub(&self.offset) {
            Some(d) => d.checked_div(&self.scale),
            None => None,
        }
    }
}

/// Finds the exact decimal logarithm of a positive number, mirroring
/// [`spec_log10_exact`].
fn log10_exact(n: u128) -> (r: Option<u32>)
    requires
        n as int <= i128::MAX as int,
    ensures
        r is Some <==> spec_log10_exact(n as int) is Some,
        r matches Some(k) ==> spec_log10_exact(n as int) == Some(k as nat) && k <= 38,
    decreases n,
{
    if n < 1 {
        None
    } else if n == 1 {
        Some(0)
    } else if n % 10 == 0 {
        match log10_exact(n / 10) {
            Some(k) => {
                proof {
                    lemma_log10_exact_pow(n as int / 10, k as nat);
                    lemma_fundamental_div_mod(n as int, 10);
                    lemma_pow_adds(10, k as nat, 1);
                    lemma_pow1(10);
                    assert(pow(10, (k + 1) as nat) == 10 * pow(10, k as nat));
                    assert(n as int == pow(10, (k + 1) as nat));
                    if k + 1 >= 39 {
                        lemma_pow10_exceeds((k + 1) as nat);
                        assert(false);
                    }
                }
                Some(k + 1)
            },
            None => None,
        }
    } else {
        None
    }
}

impl DecibelTransformation {
    /// The logarithmic strategy referenced to `p0`.
    pub fn new(p0: Rat) -> (r: DecibelTransformation)
        ensures
            r.p0 == p0,
    {
        DecibelTransformation { p0 }
    }

    /// The reference value of the ratio scale.
    pub fn p0(&self) -> (r: Rat)
        ensures
            r == self.p0,
    {
        self.p0
    }

    /// `10^(v/10) * p0`; `None` exactly when `v` is not an integer multiple
    /// of ten or an intermediate is not representable.
    pub fn to_base(&self, value: &Rat) -> (r: Option<Rat>)
        requires
            self.p0.wf(),
            value.wf(),
        ensures
            r is Some <==> spec_decibel_to_base(self.p0@, value@) is Some,
            r matches Some(x) ==> x.wf() && Some(x@) == spec_decibel_to_base(self.p0@, value@),
    {
        let n = value.num();
        let d = value.den();
        if d != 1 {
            return None;
        }
        let neg = n < 0;
        let m: u128 = if neg {
            (-n) as u128
        } else {
            n as u128
        };
        let ghost nn = value@.num;
        proof {
            lemma_fundamental_div_mod(m as int, 10);
            if nn < 0 && m as int % 10 != 0 {
                // A negative number with a nonzero magnitude remainder also
                // has a nonzero Euclidean remainder.
                lemma_fundamental_div_mod_converse_mod(
                    nn,
                    10,
                    -(m as int / 10) - 1,
                    10 - (m as int % 10),
                );
            }
        }
        if m % 10 != 0 {
            return None;
        }
        let km = m / 10;
        proof {
            if nn < 0 {
                lemma_fundamental_div_mod_converse_div(nn, 10, -(m as int / 10), 0);
                lemma_fundamental_div_mod_converse_mod(nn, 10, -(m as int / 10), 0);
            }
            assert(abs(nn / 10) == km as int);
        }
        if km > 127 {
            proof {
                if pow(10, abs(nn / 10)) <= i128::MAX as int {
                    lemma_pow10_exceeds(abs(nn / 10));
                }
            }
            return None;
        }
        let k: i32 = if neg {
            -(km as i32)
        } else {
            km as i32
        };
        match Rat::checked_pow10(k) {
            Some(p) => p.checked_mul(&self.p0),
            None => None,
        }
    }

    /// `10 * log10(v / p0)`; `None` exactly when `v / p0` is not an exact
    /// power of ten or the quotient is not representable.
    pub fn from_base(&self, value: &Rat) -> (r: Option<Rat>)
        requires
            self.p0.wf(),
            value.wf(),
        ensures
            r is Some <==> spec_decibel_from_base(self.p0@, value@) is Some,
            r matches Some(x) ==> x.wf() && Some(x@) == spec_decibel_from_base(self.p0@, value@),
    {
        match value.checked_div(&self.p0) {
            Some(q) => {
                let qn = q.num();
                let qd = q.den();
                if qd == 1 {
                    if qn < 1 {
                        return None;
                    }
                    match log10_exact(qn as u128) {
                        Some(k) => Some(Rat::from_int(10 * (k as i64))),
                        None => None,
                    }
                } else if qn == 1 {
                    match log10_exact(qd as u128) {
                        Some(k) => Some(Rat::from_int(-10 * (k as i64))),
                        None => None,
                    }
                } else {
                    None
                }
            },
            None => None,
        }
    }
}

impl UnitTransformation {
    /// Converts a value in this unit's representation to the canonical base
    /// representation; `None` exactly when the exact result is not
    /// representable.
    pub fn to_base(&self, value: &Rat) -> (r: Option<Rat>)
        requires
            trans_wf(self@),
            value.wf(),
        ensures
            r is Some <==> spec_to_base(self@, value@) is Some,
            r matches Some(x) ==> x.wf() && Some(x@) == spec_to_base(self@, value@),
    {
        match self {
            UnitTransformation::Identity => Some(*value),
            UnitTransformation::Linear(l) => l.to_base(value),
            UnitTransformation::Decibel(d) => d.to_base(value),
        }
    }

    /// Converts a canonical base-representation value to this unit's
    /// representation; `None` exactly when the exact result is not
    /// representable.
    pub fn from_base(&self, value: &Rat) -> (r: Option<Rat>)
        requires
            trans_wf(self@),
            value.wf(),
        ensures
            r is Some <==> spec_from_base(self@, value@) is Some,
            r matches Some(x) ==> x.wf() && Some(x@) == spec_from_base(self@, value@),
    {
        match self {
            UnitTransformation::Identity => Some(*value),
            UnitTransformation::Linear(l) => l.from_base(value),
            UnitTransformation::Decibel(d) => d.from_base(value),
        }
    }

    /// True exactly for pure rescalings: the identity, or a linear
    /// transformation with zero offset.
    pub fn is_scale_only(&self) -> (b: bool)
        ensures
            b == spec_scale_only(self@),
    {
        match self {
            UnitTransformation::Identity => true,
            UnitTransformation::Linear(l) => l.offset.num() == 0,
            UnitTransformation::Decibel(_) => false,
        }
    }

    /// The scale factor of a rescaling strategy (one for the identity).
    pub fn scale_factor(&self) -> (r: Rat)
        requires
            trans_wf(self@),
        ensures
            r.wf(),
            r@ == spec_scale(self@),
    {
        match self {
            UnitTransformation::Identity => Rat::from_int(1),
            UnitTransformation::Linear(l) => l.scale,
            UnitTransformation::Decibel(_) => Rat::from_int(1),
        }
    }
}


/// The affine round-trip law: for every linear transformation with nonzero
/// scale, wherever both conversions are representable,
/// `from_base(to_base(v))` returns exactly the canonical rational `v`.
#[verifier::rlimit(100)]
pub proof fn lemma_linear_round_trip(scale: Ratio, offset: Ratio, v: Ratio)
    requires
        ratio_wf(scale),
        ratio_wf(offset),
        ratio_wf(v),
        scale.num != 0,
    ensures
        spec_linear_to_base(scale, offset, v) matches Some(w) ==> (spec_linear_from_base(
            scale,
            offset,
            w,
        ) matches Some(u) ==> u == v),
{
    if spec_linear_to_base(scale, offset, v) is Some {
        let p = spec_rat_mul(v, scale);
        assert(1 <= v.den * scale.den) by (nonlinear_arith)
            requires
                1 <= v.den,
                1 <= scale.den,
        ;
        lemma_reduce_ratio_eq(v.num * scale.num, v.den * scale.den);
        let w = spec_rat_add(p, offset);
        assert(1 <= p.den * offset.den) by (nonlinear_arith)
            requires
                1 <= p.den,
                1 <= offset.den,
        ;
        lemma_reduce_ratio_eq(p.num * offset.den + offset.num * p.den, p.den * offset.den);
        if spec_linear_from_base(scale, offset, w) is Some {
            let sd = spec_rat_sub(w, offset);
            assert(1 <= w.den * offset.den) by (nonlinear_arith)
                requires
                    1 <= w.den,
                    1 <= offset.den,
            ;
            lemma_reduce_ratio_eq(w.num * offset.den + (-offset.num) * w.den, w.den * offset.den);
            let rs = spec_rat_recip(scale);
            let u = spec_rat_div(sd, scale);
            assert(1 <= sd.den * rs.den && rs.den != 0) by (nonlinear_arith)
                requires
                    1 <= sd.den,
                    1 <= rs.den,
            ;
            lemma_reduce_ratio_eq(sd.num * rs.num, sd.den * rs.den);
            // The product cancels the reduction of the sum:
            // p.den * (w.num * offset.den - offset.num * w.den) == p.num * offset.den * w.den.
            assert(p.den * (w.num * offset.den - offset.num * w.den) == p.num * offset.den
                * w.den) by (nonlinear_arith)
                requires
                    w.num * (p.den * offset.den) == (p.num * offset.den + offset.num * p.den)
                        * w.den,
            ;
            // Hence the difference denotes the same rational as the product.
            assert(sd.num * p.den == p.num * sd.den) by (nonlinear_arith)
                requires
                    sd.num * (w.den * offset.den) == (w.num * offset.den + (-offset.num) * w.den)
                        * sd.den,
                    p.den * (w.num * offset.den - offset.num * w.den) == p.num * offset.den
                        * w.den,
                    1 <= offset.den,
                    1 <= w.den,
                    1 <= p.den,
            ;
            // Dividing back by the scale returns the original rational.
            assert(sd.num * rs.num * v.den == v.num * (sd.den * rs.den)) by (nonlinear_arith)
                requires
                    sd.num * p.den == p.num * sd.den,
                    p.num * (v.den * scale.den) == (v.num * scale.num) * p.den,
                    rs == (if scale.num >= 0 {
                        Ratio { num: scale.den, den: scale.num }
                    } else {
                        Ratio { num: -scale.den, den: -scale.num }
                    }),
                    scale.num != 0,
                    1 <= p.den,
                    1 <= scale.den,
                    1 <= v.den,
            ;
            let u1 = Ratio { num: sd.num * rs.num, den: sd.den * rs.den };
            assert(ratio_eq(u1, v));
            lemma_ratio_eq_trans(u, u1, v);
            lemma_canonical_unique(u, v);
        }
    }
}


/// The exact decimal logarithm recovers every power of ten.
pub proof fn lemma_log10_exact_of_pow(k: nat)
    requires
        pow(10, k) <= i128::MAX as int,
    ensures
        spec_log10_exact(pow(10, k)) == Some(k),
    decreases k,
{
    lemma_pow_positive(10, k);
    if k == 0 {
        lemma_pow0(10);
    } else {
        let m = pow(10, (k - 1) as nat);
        lemma_pow_positive(10, (k - 1) as nat);
        lemma_pow_adds(10, (k - 1) as nat, 1);
        lemma_pow1(10);
        assert(pow(10, k) == m * 10);
        assert(m * 10 <= i128::MAX as int);
        lemma_log10_exact_of_pow((k - 1) as nat);
        lemma_mod_multiples_basic(m, 10);
        lemma_fundamental_div_mod_converse_div(m * 10, 10, m, 0);
        assert(pow(10, k) >= 10) by (nonlinear_arith)
            requires
                pow(10, k) == m * 10,
                m >= 1,
        ;
    }
}

/// Powers of ten are well-formed canonical ratios.
pub proof fn lemma_pow10_wf(k: int)
    requires
        pow(10, vstd::math::abs(k)) <= i128::MAX as int,
    ensures
        ratio_wf(spec_pow10(k)),
        spec_pow10(k).num >= 1,
{
    lemma_pow_positive(10, vstd::math::abs(k));
    if k >= 0 {
        lemma_gcd_one(vstd::math::abs(pow(10, k as nat)));
    } else {
        lemma_gcd_one(pow(10, (-k) as nat) as nat);
    }
}

/// The logarithmic round-trip law: wherever both conversions are exactly
/// representable, `from_base(to_base(v))` returns exactly the canonical
/// rational `v`.
#[verifier::rlimit(100)]
pub proof fn lemma_decibel_round_trip(p0: Ratio, v: Ratio)
    requires
        ratio_wf(p0),
        ratio_wf(v),
    ensures
        spec_decibel_to_base(p0, v) matches Some(w) ==> (spec_decibel_from_base(p0, w)
            matches Some(u) ==> u == v),
{
    if spec_decibel_to_base(p0, v) is Some {
        let k = v.num / 10;
        let p = spec_pow10(k);
        lemma_pow10_wf(k);
        let w = spec_rat_mul(p, p0);
        assert(1 <= p.den * p0.den) by (nonlinear_arith)
            requires
                1 <= p.den,
                1 <= p0.den,
        ;
        lemma_reduce_ratio_eq(p.num * p0.num, p.den * p0.den);
        if spec_decibel_from_base(p0, w) is Some {
            let rp = spec_rat_recip(p0);
            let q = spec_rat_div(w, p0);
            assert(1 <= w.den * rp.den && rp.den != 0) by (nonlinear_arith)
                requires
                    1 <= w.den,
                    1 <= rp.den,
            ;
            lemma_reduce_ratio_eq(w.num * rp.num, w.den * rp.den);
            // The quotient denotes the bare power of ten again.
            assert((w.num * rp.num) * p.den == p.num * (w.den * rp.den)) by (nonlinear_arith)
                requires
                    w.num * (p.den * p0.den) == (p.num * p0.num) * w.den,
                    rp == (if p0.num >= 0 {
                        Ratio { num: p0.den, den: p0.num }
                    } else {
                        Ratio { num: -p0.den, den: -p0.num }
                    }),
                    p0.num != 0,
                    1 <= p0.den,
                    1 <= p.den,
                    1 <= w.den,
            ;
            let q1 = Ratio { num: w.num * rp.num, den: w.den * rp.den };
            assert(ratio_eq(q1, p));
            lemma_ratio_eq_trans(q, q1, p);
            lemma_canonical_unique(q, p);
            // Reading the exact logarithm back yields the original decibel
            // value.
            vstd::arithmetic::div_mod::lemma_fundamental_div_mod(v.num, 10);
            if k >= 0 {
                lemma_log10_exact_of_pow(k as nat);
            } else {
                lemma_log10_exact_of_pow((-k) as nat);
                lemma_pow_positive(10, (-k) as nat);
                assert(pow(10, (-k) as nat) > 1) by {
                    if pow(10, (-k) as nat) <= 1 {
                        lemma_pow_increases(10, 1, (-k) as nat);
                        lemma_pow1(10);
                    }
                }
            }
        }
    }
}

/// The conversion round-trip law for every strategy: wherever both the
/// conversion into base representation and the conversion back are exactly
/// representable (and a linear scale is nonzero), the round trip returns
/// exactly the canonical rational it started from.
pub proof fn lemma_transformation_round_trip(t: TransModel, v: Ratio)
    requires
        trans_wf(t),
        ratio_wf(v),
        t matches TransModel::Linear { scale, offset } ==> scale.num != 0,
    ensures
        spec_to_base(t, v) matches Some(w) ==> (spec_from_base(t, w) matches Some(u) ==> u == v),
{
    match t {
        TransModel::Identity => {},
        TransModel::Linear { scale, offset } => {
            lemma_linear_round_trip(scale, offset, v);
        },
        TransModel::Decibel { p0 } => {
            lemma_decibel_round_trip(p0, v);
        },
    }
}

} // verus!
