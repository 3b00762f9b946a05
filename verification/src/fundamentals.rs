//! The ten fundamental axes and the dimension-vector algebra.
//!
//! A [`Dimension`] is a vector of ten signed integer exponents, one per
//! fundamental axis, kept in a canonical form: whenever the nine non-count
//! exponents are all zero the count exponent is one (the unique
//! representation of "dimensionless"), and otherwise it is zero.  The
//! algebra — elementwise sum, difference and scalar product followed by
//! canonicalization — is what gives units their identity.

use crate::strings::{int_to_string, spec_int_string};
use vstd::prelude::*;

verus! {

/// The number of fundamental axes.
pub const FUNDAMENTALS_NUMBER: usize = 10;

/// One of the ten fundamental physical axes.  `Count` is the distinguished
/// dimensionless axis.
#[derive(Debug, Clone, Copy, Hash, PartialEq, Eq, Structural)]
pub enum Fundamentals {
    Mass,
    Length,
    Time,
    Current,
    Temperature,
    AmountOfSubstance,
    LuminousIntensity,
    Angle,
    Bit,
    Count,
}

/// The fixed position of each axis in the exponent vector.
pub open spec fn fundamental_index(f: Fundamentals) -> int {
    match f {
        Fundamentals::Mass => 0,
        Fundamentals::Length => 1,
        Fundamentals::Time => 2,
        Fundamentals::Current => 3,
        Fundamentals::Temperature => 4,
        Fundamentals::AmountOfSubstance => 5,
        Fundamentals::LuminousIntensity => 6,
        Fundamentals::Angle => 7,
        Fundamentals::Bit => 8,
        Fundamentals::Count => 9,
    }
}

impl Fundamentals {
    /// The position of this axis in the exponent vector.
    pub fn to_index(&self) -> (i: usize)
        ensures
            i as int == fundamental_index(*self),
    {
        match *self {
            Fundamentals::Mass => 0,
            Fundamentals::Length => 1,
            Fundamentals::Time => 2,
            Fundamentals::Current => 3,
            Fundamentals::Temperature => 4,
            Fundamentals::AmountOfSubstance => 5,
            Fundamentals::LuminousIntensity => 6,
            Fundamentals::Angle => 7,
            Fundamentals::Bit => 8,
            Fundamentals::Count => 9,
        }
    }

    /// The axis at position `n`; an error message for `n` out of range.
    pub fn from_index(n: usize) -> (r: Result<Fundamentals, String>)
        ensures
            r is Ok <==> n < 10,
            r matches Ok(f) ==> fundamental_index(f) == n as int,
    {
        match n {
            0 => Ok(Fundamentals::Mass),
            1 => Ok(Fundamentals::Length),
            2 => Ok(Fundamentals::Time),
            3 => Ok(Fundamentals::Current),
            4 => Ok(Fundamentals::Temperature),
            5 => Ok(Fundamentals::AmountOfSubstance),
            6 => Ok(Fundamentals::LuminousIntensity),
            7 => Ok(Fundamentals::Angle),
            8 => Ok(Fundamentals::Bit),
            9 => Ok(Fundamentals::Count),
            _ => Err(String::from_str("Invalid index of fundamental dimensionalities")),
        }
    }

    /// All ten axes, in vector order.
    pub fn iter() -> (r: Vec<Fundamentals>)
        ensures
            r@ == seq![
                Fundamentals::Mass,
                Fundamentals::Length,
                Fundamentals::Time,
                Fundamentals::Current,
                Fundamentals::Temperature,
                Fundamentals::AmountOfSubstance,
                Fundamentals::LuminousIntensity,
                Fundamentals::Angle,
                Fundamentals::Bit,
                Fundamentals::Count,
            ],
    {
        let mut v: Vec<Fundamentals> = Vec::new();
        v.push(Fundamentals::Mass);
        v.push(Fundamentals::Length);
        v.push(Fundamentals::Time);
        v.push(Fundamentals::Current);
        v.push(Fundamentals::Temperature);
        v.push(Fundamentals::AmountOfSubstance);
        v.push(Fundamentals::LuminousIntensity);
        v.push(Fundamentals::Angle);
        v.push(Fundamentals::Bit);
        v.push(Fundamentals::Count);
        proof {
            assert(v@ =~= seq![
                Fundamentals::Mass,
                Fundamentals::Length,
                Fundamentals::Time,
                Fundamentals::Current,
                Fundamentals::Temperature,
                Fundamentals::AmountOfSubstance,
                Fundamentals::LuminousIntensity,
                Fundamentals::Angle,
                Fundamentals::Bit,
                Fundamentals::Count,
            ]);
        }
        v
    }
}

/// A canonical exponent vector over the ten fundamental axes.
#[derive(Debug, Clone, Copy, Hash, PartialEq, Eq, Structural)]
pub struct Dimension {
    pub mass: i32,
    pub length: i32,
    pub time: i32,
    pub current: i32,
    pub temperature: i32,
    pub amount_of_substance: i32,
    pub luminous_intensity: i32,
    pub angle: i32,
    pub bit: i32,
    pub count: i32,
}

/// The nine non-count exponents are all zero.
pub open spec fn dim_base_zero(d: Dimension) -> bool {
    &&& d.mass == 0
    &&& d.length == 0
    &&& d.time == 0
    &&& d.current == 0
    &&& d.temperature == 0
    &&& d.amount_of_substance == 0
    &&& d.luminous_intensity == 0
    &&& d.angle == 0
    &&& d.bit == 0
}

impl Dimension {
    /// The canonical-form invariant: the count exponent is one exactly when
    /// every other exponent is zero, and zero otherwise.
    pub open spec fn wf(&self) -> bool {
        if dim_base_zero(*self) {
            self.count == 1
        } else {
            self.count == 0
        }
    }
}

/// The canonical dimension with the given nine non-count exponents.
pub open spec fn spec_dim_canon(
    mass: i32,
    length: i32,
    time: i32,
    current: i32,
    temperature: i32,
    amount_of_substance: i32,
    luminous_intensity: i32,
    angle: i32,
    bit: i32,
) -> Dimension {
    let c: i32 = if mass == 0 && length == 0 && time == 0 && current == 0 && temperature == 0
        && amount_of_substance == 0 && luminous_intensity == 0 && angle == 0 && bit == 0 {
        1
    } else {
        0
    };
    Dimension {
        mass,
        length,
        time,
        current,
        temperature,
        amount_of_substance,
        luminous_intensity,
        angle,
        bit,
        count: c,
    }
}

/// `x` fits in an `i32` exponent.
pub open spec fn in_i32(x: int) -> bool {
    i32::MIN <= x <= i32::MAX
}

/// The elementwise sums of two exponent vectors fit in `i32`.
pub open spec fn dim_mul_fits(a: Dimension, b: Dimension) -> bool {
    &&& in_i32(a.mass + b.mass)
    &&& in_i32(a.length + b.length)
    &&& in_i32(a.time + b.time)
    &&& in_i32(a.current + b.current)
    &&& in_i32(a.temperature + b.temperature)
    &&& in_i32(a.amount_of_substance + b.amount_of_substance)
    &&& in_i32(a.luminous_intensity + b.luminous_intensity)
    &&& in_i32(a.angle + b.angle)
    &&& in_i32(a.bit + b.bit)
}

/// The elementwise differences of two exponent vectors fit in `i32`.
pub open spec fn dim_div_fits(a: Dimension, b: Dimension) -> bool {
    &&& in_i32(a.mass - b.mass)
    &&& in_i32(a.length - b.length)
    &&& in_i32(a.time - b.time)
    &&& in_i32(a.current - b.current)
    &&& in_i32(a.temperature - b.temperature)
    &&& in_i32(a.amount_of_substance - b.amount_of_substance)
    &&& in_i32(a.luminous_intensity - b.luminous_intensity)
    &&& in_i32(a.angle - b.angle)
    &&& in_i32(a.bit - b.bit)
}

/// The elementwise scalar products of an exponent vector fit in `i32`.
pub open spec fn dim_pow_fits(a: Dimension, p: int) -> bool {
    &&& in_i32(a.mass * p)
    &&& in_i32(a.length * p)
    &&& in_i32(a.time * p)
    &&& in_i32(a.current * p)
    &&& in_i32(a.temperature * p)
    &&& in_i32(a.amount_of_substance * p)
    &&& in_i32(a.luminous_intensity * p)
    &&& in_i32(a.angle * p)
    &&& in_i32(a.bit * p)
}

/// Elementwise sum, canonicalized: the dimension of a product.
pub open spec fn spec_dim_mul(a: Dimension, b: Dimension) -> Dimension {
    spec_dim_canon(
        (a.mass + b.mass) as i32,
        (a.length + b.length) as i32,
        (a.time + b.time) as i32,
        (a.current + b.current) as i32,
        (a.temperature + b.temperature) as i32,
        (a.amount_of_substance + b.amount_of_substance) as i32,
        (a.luminous_intensity + b.luminous_intensity) as i32,
        (a.angle + b.angle) as i32,
        (a.bit + b.bit) as i32,
    )
}

/// Elementwise difference, canonicalized: the dimension of a quotient.
pub open spec fn spec_dim_div(a: Dimension, b: Dimension) -> Dimension {
    spec_dim_canon(
        (a.mass - b.mass) as i32,
        (a.length - b.length) as i32,
        (a.time - b.time) as i32,
        (a.current - b.current) as i32,
        (a.temperature - b.temperature) as i32,
        (a.amount_of_substance - b.amount_of_substance) as i32,
        (a.luminous_intensity - b.luminous_intensity) as i32,
        (a.angle - b.angle) as i32,
        (a.bit - b.bit) as i32,
    )
}

/// Elementwise scalar product, canonicalized: the dimension of a power.
pub open spec fn spec_dim_pow(a: Dimension, p: int) -> Dimension {
    spec_dim_canon(
        (a.mass * p) as i32,
        (a.length * p) as i32,
        (a.time * p) as i32,
        (a.current * p) as i32,
        (a.temperature * p) as i32,
        (a.amount_of_substance * p) as i32,
        (a.luminous_intensity * p) as i32,
        (a.angle * p) as i32,
        (a.bit * p) as i32,
    )
}

impl Dimension {
    /// Builds the canonical dimension with the given exponents, in axis
    /// order.  The tenth (count) entry of `powers` is ignored: the canonical
    /// count exponent is determined by the other nine.
    pub fn new(powers: [i32; 10]) -> (r: Dimension)
        ensures
            r.wf(),
            r == spec_dim_canon(
                powers[0],
                powers[1],
                powers[2],
                powers[3],
                powers[4],
                powers[5],
                powers[6],
                powers[7],
                powers[8],
            ),
    {
        let mass = powers[0];
        let length = powers[1];
        let time = powers[2];
        let current = powers[3];
        let temperature = powers[4];
        let amount_of_substance = powers[5];
        let luminous_intensity = powers[6];
        let angle = powers[7];
        let bit = powers[8];
        let count: i32 = if mass == 0 && length == 0 && time == 0 && current == 0
            && temperature == 0 && amount_of_substance == 0 && luminous_intensity == 0
            && angle == 0 && bit == 0 {
            1
        } else {
            0
        };
        Dimension {
            mass,
            length,
            time,
            current,
            temperature,
            amount_of_substance,
            luminous_intensity,
            angle,
            bit,
            count,
        }
    }

    /// The canonical dimension of a single fundamental axis.
    pub fn new_from_fundamental(fundamental: Fundamentals) -> (r: Dimension)
        ensures
            r.wf(),
            r == spec_dim_fundamental(fundamental),
    {
        match fundamental {
            Fundamentals::Mass => Dimension::new([1, 0, 0, 0, 0, 0, 0, 0, 0, 0]),
            Fundamentals::Length => Dimension::new([0, 1, 0, 0, 0, 0, 0, 0, 0, 0]),
            Fundamentals::Time => Dimension::new([0, 0, 1, 0, 0, 0, 0, 0, 0, 0]),
            Fundamentals::Current => Dimension::new([0, 0, 0, 1, 0, 0, 0, 0, 0, 0]),
            Fundamentals::Temperature => Dimension::new([0, 0, 0, 0, 1, 0, 0, 0, 0, 0]),
            Fundamentals::AmountOfSubstance => Dimension::new([0, 0, 0, 0, 0, 1, 0, 0, 0, 0]),
            Fundamentals::LuminousIntensity => Dimension::new([0, 0, 0, 0, 0, 0, 1, 0, 0, 0]),
            Fundamentals::Angle => Dimension::new([0, 0, 0, 0, 0, 0, 0, 1, 0, 0]),
            Fundamentals::Bit => Dimension::new([0, 0, 0, 0, 0, 0, 0, 0, 1, 0]),
            Fundamentals::Count => Dimension::new([0, 0, 0, 0, 0, 0, 0, 0, 0, 1]),
        }
    }

    /// The exponents of this dimension, in axis order.
    pub fn powers(&self) -> (r: [i32; 10])
        ensures
            r@ == seq![
                self.mass,
                self.length,
                self.time,
                self.current,
                self.temperature,
                self.amount_of_substance,
                self.luminous_intensity,
                self.angle,
                self.bit,
                self.count,
            ],
    {
        let r = [
            self.mass,
            self.length,
            self.time,
            self.current,
            self.temperature,
            self.amount_of_substance,
            self.luminous_intensity,
            self.angle,
            self.bit,
            self.count,
        ];
        proof {
            assert(r@ =~= seq![
                self.mass,
                self.length,
                self.time,
                self.current,
                self.temperature,
                self.amount_of_substance,
                self.luminous_intensity,
                self.angle,
                self.bit,
                self.count,
            ]);
        }
        r
    }

    /// The dimension of a product: elementwise sum, canonicalized.
    pub fn mul(self, rhs: Dimension) -> (r: Dimension)
        requires
            dim_mul_fits(self, rhs),
        ensures
            r.wf(),
            r == spec_dim_mul(self, rhs),
    {
        Dimension::new([
            self.mass + rhs.mass,
            self.length + rhs.length,
            self.time + rhs.time,
            self.current + rhs.current,
            self.temperature + rhs.temperature,
            self.amount_of_substance + rhs.amount_of_substance,
            self.luminous_intensity + rhs.luminous_intensity,
            self.angle + rhs.angle,
            self.bit + rhs.bit,
            0,
        ])
    }

    /// The dimension of a quotient: elementwise difference, canonicalized.
    pub fn div(self, rhs: Dimension) -> (r: Dimension)
        requires
            dim_div_fits(self, rhs),
        ensures
            r.wf(),
            r == spec_dim_div(self, rhs),
    {
        Dimension::new([
            self.mass - rhs.mass,
            self.length - rhs.length,
            self.time - rhs.time,
            self.current - rhs.current,
            self.temperature - rhs.temperature,
            self.amount_of_substance - rhs.amount_of_substance,
            self.luminous_intensity - rhs.luminous_intensity,
            self.angle - rhs.angle,
            self.bit - rhs.bit,
            0,
        ])
    }

    /// The dimension of an integer power: elementwise scalar product,
    /// canonicalized.
    pub fn pow(self, power: i64) -> (r: Dimension)
        requires
            dim_pow_fits(self, power as int),
        ensures
            r.wf(),
            r == spec_dim_pow(self, power as int),
    {
        let p = power as i128;
        Dimension::new([
            ((self.mass as i128) * p) as i32,
            ((self.length as i128) * p) as i32,
            ((self.time as i128) * p) as i32,
            ((self.current as i128) * p) as i32,
            ((self.temperature as i128) * p) as i32,
            ((self.amount_of_substance as i128) * p) as i32,
            ((self.luminous_intensity as i128) * p) as i32,
            ((self.angle as i128) * p) as i32,
            ((self.bit as i128) * p) as i32,
            0,
        ])
    }
}

/// The exponent vector of a single fundamental axis.
pub open spec fn spec_dim_fundamental(f: Fundamentals) -> Dimension {
    match f {
        Fundamentals::Mass => spec_dim_canon(1, 0, 0, 0, 0, 0, 0, 0, 0),
        Fundamentals::Length => spec_dim_canon(0, 1, 0, 0, 0, 0, 0, 0, 0),
        Fundamentals::Time => spec_dim_canon(0, 0, 1, 0, 0, 0, 0, 0, 0),
        Fundamentals::Current => spec_dim_canon(0, 0, 0, 1, 0, 0, 0, 0, 0),
        Fundamentals::Temperature => spec_dim_canon(0, 0, 0, 0, 1, 0, 0, 0, 0),
        Fundamentals::AmountOfSubstance => spec_dim_canon(0, 0, 0, 0, 0, 1, 0, 0, 0),
        Fundamentals::LuminousIntensity => spec_dim_canon(0, 0, 0, 0, 0, 0, 1, 0, 0),
        Fundamentals::Angle => spec_dim_canon(0, 0, 0, 0, 0, 0, 0, 1, 0),
        Fundamentals::Bit => spec_dim_canon(0, 0, 0, 0, 0, 0, 0, 0, 1),
        Fundamentals::Count => spec_dim_canon(0, 0, 0, 0, 0, 0, 0, 0, 0),
    }
}

/// The canonical dimensionless identity.
pub open spec fn spec_dim_identity() -> Dimension {
    spec_dim_canon(0, 0, 0, 0, 0, 0, 0, 0, 0)
}

/// Multiplying and then dividing by the same dimension returns the original:
/// the dimension algebra cancels exactly.
pub proof fn lemma_dim_mul_div_cancel(a: Dimension, b: Dimension)
    requires
        a.wf(),
        b.wf(),
        dim_mul_fits(a, b),
    ensures
        spec_dim_div(spec_dim_mul(a, b), b) == a,
{
}

/// The zeroth power of any dimension is the dimensionless identity, and the
/// first power returns the dimension unchanged.
pub proof fn lemma_dim_pow_zero_one(a: Dimension)
    requires
        a.wf(),
    ensures
        spec_dim_pow(a, 0) == spec_dim_identity(),
        spec_dim_pow(a, 1) == a,
{
}

/// Canonicalization is idempotent: re-canonicalizing the exponents of a
/// canonical dimension changes nothing.
pub proof fn lemma_dim_canon_idempotent(a: Dimension)
    requires
        a.wf(),
    ensures
        spec_dim_canon(
            a.mass,
            a.length,
            a.time,
            a.current,
            a.temperature,
            a.amount_of_substance,
            a.luminous_intensity,
            a.angle,
            a.bit,
        ) == a,
{
}

/// The dimensionless identity is neutral for multiplication and division.
pub proof fn lemma_dim_identity_neutral(a: Dimension)
    requires
        a.wf(),
    ensures
        spec_dim_mul(a, spec_dim_identity()) == a,
        spec_dim_div(a, spec_dim_identity()) == a,
{
}


/// Elementwise checked sum: `None` exactly when an exponent sum leaves the
/// `i32` range.
pub fn dim_mul_checked(a: Dimension, b: Dimension) -> (r: Option<Dimension>)
    ensures
        r is Some <==> dim_mul_fits(a, b),
        r matches Some(d) ==> d == spec_dim_mul(a, b) && d.wf(),
{
    let lo = i32::MIN as i64;
    let hi = i32::MAX as i64;
    let m = a.mass as i64 + b.mass as i64;
    let l = a.length as i64 + b.length as i64;
    let t = a.time as i64 + b.time as i64;
    let c = a.current as i64 + b.current as i64;
    let te = a.temperature as i64 + b.temperature as i64;
    let am = a.amount_of_substance as i64 + b.amount_of_substance as i64;
    let lu = a.luminous_intensity as i64 + b.luminous_intensity as i64;
    let an = a.angle as i64 + b.angle as i64;
    let bi = a.bit as i64 + b.bit as i64;
    if m < lo || m > hi || l < lo || l > hi || t < lo || t > hi || c < lo || c > hi || te < lo
        || te > hi || am < lo || am > hi || lu < lo || lu > hi || an < lo || an > hi || bi < lo
        || bi > hi {
        None
    } else {
        Some(a.mul(b))
    }
}

/// Elementwise checked scalar product: `None` exactly when an exponent
/// product leaves the `i32` range.
pub fn dim_pow_checked(a: Dimension, power: i64) -> (r: Option<Dimension>)
    ensures
        r is Some <==> dim_pow_fits(a, power as int),
        r matches Some(d) ==> d == spec_dim_pow(a, power as int) && d.wf(),
{
    let lo = i32::MIN as i128;
    let hi = i32::MAX as i128;
    let p = power as i128;
    proof {
        lemma_exponent_product_bounds(a.mass as int, power as int);
        lemma_exponent_product_bounds(a.length as int, power as int);
        lemma_exponent_product_bounds(a.time as int, power as int);
        lemma_exponent_product_bounds(a.current as int, power as int);
        lemma_exponent_product_bounds(a.temperature as int, power as int);
        lemma_exponent_product_bounds(a.amount_of_substance as int, power as int);
        lemma_exponent_product_bounds(a.luminous_intensity as int, power as int);
        lemma_exponent_product_bounds(a.angle as int, power as int);
        lemma_exponent_product_bounds(a.bit as int, power as int);
    }
    let m = a.mass as i128 * p;
    let l = a.length as i128 * p;
    let t = a.time as i128 * p;
    let c = a.current as i128 * p;
    let te = a.temperature as i128 * p;
    let am = a.amount_of_substance as i128 * p;
    let lu = a.luminous_intensity as i128 * p;
    let an = a.angle as i128 * p;
    let bi = a.bit as i128 * p;
    if m < lo || m > hi || l < lo || l > hi || t < lo || t > hi || c < lo || c > hi || te < lo
        || te > hi || am < lo || am > hi || lu < lo || lu > hi || an < lo || an > hi || bi < lo
        || bi > hi {
        None
    } else {
        Some(a.pow(power))
    }
}


/// The product of an `i32` exponent and an `i64` power is far inside the
/// `i128` range.
proof fn lemma_exponent_product_bounds(x: int, y: int)
    requires
        i32::MIN <= x <= i32::MAX,
        i64::MIN <= y <= i64::MAX,
    ensures
        i128::MIN < x * y < i128::MAX,
{
    assert(x * y <= 2147483648 * 9223372036854775808 && x * y >= -(
    2147483648 * 9223372036854775808)) by (nonlinear_arith)
        requires
            -2147483648 <= x <= 2147483647,
            -9223372036854775808 <= y <= 9223372036854775807,
    ;
}


/// The fixed display name of each fundamental axis.
pub open spec fn spec_fundamental_label(f: Fundamentals) -> Seq<char> {
    match f {
        Fundamentals::Mass => "mass"@,
        Fundamentals::Length => "length"@,
        Fundamentals::Time => "time"@,
        Fundamentals::Current => "current"@,
        Fundamentals::Temperature => "temperature"@,
        Fundamentals::AmountOfSubstance => "amount of substance"@,
        Fundamentals::LuminousIntensity => "luminous intensity"@,
        Fundamentals::Angle => "angle"@,
        Fundamentals::Bit => "bit"@,
        Fundamentals::Count => "count"@,
    }
}

impl Fundamentals {
    /// The display name of this axis.
    pub fn label(&self) -> (r: String)
        ensures
            r@ == spec_fundamental_label(*self),
    {
        match *self {
            Fundamentals::Mass => String::from_str("mass"),
            Fundamentals::Length => String::from_str("length"),
            Fundamentals::Time => String::from_str("time"),
            Fundamentals::Current => String::from_str("current"),
            Fundamentals::Temperature => String::from_str("temperature"),
            Fundamentals::AmountOfSubstance => String::from_str("amount of substance"),
            Fundamentals::LuminousIntensity => String::from_str("luminous intensity"),
            Fundamentals::Angle => String::from_str("angle"),
            Fundamentals::Bit => String::from_str("bit"),
            Fundamentals::Count => String::from_str("count"),
        }
    }
}

/// How one axis is displayed: its bare name for exponent one, else
/// `[name]^exponent`.
pub open spec fn spec_axis_term(name: Seq<char>, e: int) -> Seq<char> {
    if e == 1 {
        name
    } else {
        "["@ + name + "]^"@ + spec_int_string(e)
    }
}

/// Appends one displayed axis to the display string: axes with exponent
/// zero are skipped, and displayed axes are joined by `" * "`.
pub open spec fn spec_append_term(acc: Seq<char>, name: Seq<char>, e: int) -> Seq<char> {
    if e == 0 {
        acc
    } else if acc.len() == 0 {
        spec_axis_term(name, e)
    } else {
        acc + " * "@ + spec_axis_term(name, e)
    }
}

/// The display string of a dimension: its nonzero axes in axis order.
pub open spec fn spec_dim_display(d: Dimension) -> Seq<char> {
    let s0 = spec_append_term(Seq::empty(), "mass"@, d.mass as int);
    let s1 = spec_append_term(s0, "length"@, d.length as int);
    let s2 = spec_append_term(s1, "time"@, d.time as int);
    let s3 = spec_append_term(s2, "current"@, d.current as int);
    let s4 = spec_append_term(s3, "temperature"@, d.temperature as int);
    let s5 = spec_append_term(s4, "amount of substance"@, d.amount_of_substance as int);
    let s6 = spec_append_term(s5, "luminous intensity"@, d.luminous_intensity as int);
    let s7 = spec_append_term(s6, "angle"@, d.angle as int);
    let s8 = spec_append_term(s7, "bit"@, d.bit as int);
    spec_append_term(s8, "count"@, d.count as int)
}

/// Renders one axis term, mirroring [`spec_axis_term`].
fn axis_term(name: &str, e: i32) -> (r: String)
    ensures
        r@ == spec_axis_term(name@, e as int),
{
    if e == 1 {
        name.to_owned()
    } else {
        let mut t = String::from_str("[");
        t.append(name);
        t.append("]^");
        t.append(int_to_string(e as i64).as_str());
        proof {
            assert(t@ =~= spec_axis_term(name@, e as int));
        }
        t
    }
}

/// Appends one displayed axis, mirroring [`spec_append_term`].
fn append_term(acc: String, name: &str, e: i32) -> (r: String)
    ensures
        r@ == spec_append_term(acc@, name@, e as int),
{
    if e == 0 {
        acc
    } else {
        let term = axis_term(name, e);
        if acc.unicode_len() == 0 {
            proof {
                assert(acc@ =~= Seq::<char>::empty());
                assert(spec_append_term(acc@, name@, e as int) == spec_axis_term(name@, e as int));
            }
            term
        } else {
            let mut a = acc;
            a.append(" * ");
            a.append(term.as_str());
            proof {
                assert(a@ =~= spec_append_term(acc@, name@, e as int));
            }
            a
        }
    }
}

impl Dimension {
    /// The display string: each nonzero axis in order, as `name` for
    /// exponent one or `[name]^exponent` otherwise, joined by `" * "`.  The
    /// canonical dimensionless vector displays as `count`.
    pub fn display_string(&self) -> (r: String)
        ensures
            r@ == spec_dim_display(*self),
    {
        let mut acc = String::new();
        proof {
            assert(acc@ =~= Seq::<char>::empty());
        }
        acc = append_term(acc, "mass", self.mass);
        acc = append_term(acc, "length", self.length);
        acc = append_term(acc, "time", self.time);
        acc = append_term(acc, "current", self.current);
        acc = append_term(acc, "temperature", self.temperature);
        acc = append_term(acc, "amount of substance", self.amount_of_substance);
        acc = append_term(acc, "luminous intensity", self.luminous_intensity);
        acc = append_term(acc, "angle", self.angle);
        acc = append_term(acc, "bit", self.bit);
        acc = append_term(acc, "count", self.count);
        acc
    }
}

} // verus!
