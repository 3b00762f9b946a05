//! Units of measure: a display name, a dimension vector and a numeric
//! transformation into the canonical base representation.
//!
//! Composite units are synthesized by multiplication, division and integer
//! powers.  Composition is restricted to the subgroup of pure rescalings
//! (identity, or linear with zero offset): offsets and logarithmic scales do
//! not compose under multiplication, so composing them is a caller error
//! excluded by precondition.

use crate::fundamentals::{
    dim_div_fits, dim_mul_fits, dim_pow_fits, spec_dim_div, spec_dim_mul, spec_dim_pow, Dimension,
};
use crate::rational::{
    rat_div_fits, rat_mul_fits, rat_powi_fits, ratio_wf, spec_rat_div, spec_rat_mul,
    spec_rat_powi, Rat, Ratio,
};
use crate::fundamentals::spec_dim_display;
use crate::strings::spec_int_string;
use crate::strings::int_to_string;
use crate::transformations::{
    spec_from_base, spec_scale, spec_scale_only, spec_to_base, trans_wf, LinearTransformation,
    TransModel, UnitTransformation,
};
use vstd::pervasive::unreached;
use vstd::prelude::*;

verus! {

/// A unit of measure.  Created once and then immutable; composition returns
/// new units and never mutates its operands.
#[derive(Debug)]
pub struct Unit {
    pub name: String,
    pub dimensionality: Dimension,
    pub transformation: UnitTransformation,
}

/// Mathematical content of a unit: its name as a character sequence, its
/// dimension vector and its transformation.
pub ghost struct UnitModel {
    pub name: Seq<char>,
    pub dimension: Dimension,
    pub transformation: TransModel,
}

impl View for Unit {
    type V = UnitModel;

    open spec fn view(&self) -> UnitModel {
        UnitModel {
            name: self.name@,
            dimension: self.dimensionality,
            transformation: self.transformation@,
        }
    }
}

/// Well-formedness of a unit's content: a canonical dimension and
/// well-formed transformation rationals.
pub open spec fn unit_model_wf(m: UnitModel) -> bool {
    m.dimension.wf() && trans_wf(m.transformation)
}

/// The name synthesized for a product or quotient of two units.
pub open spec fn spec_composite_name(a: Seq<char>, b: Seq<char>) -> Seq<char> {
    "("@ + a + " * "@ + b + ")"@
}

/// The name synthesized for an integer power of a unit.
pub open spec fn spec_power_name(a: Seq<char>, e: int) -> Seq<char> {
    "("@ + a + " ^ "@ + spec_int_string(e) + ")"@
}

impl Clone for Unit {
    /// An exact copy: same name, dimension and transformation.
    fn clone(&self) -> (r: Unit)
        ensures
            r@ == self@,
    {
        Unit {
            name: self.name.clone(),
            dimensionality: self.dimensionality,
            transformation: self.transformation,
        }
    }
}

impl Unit {
    /// Well-formedness: the invariant every constructor establishes.
    pub open spec fn wf(&self) -> bool {
        unit_model_wf(self@)
    }

    /// A unit from its parts.
    pub fn new(name: &str, dimension: Dimension, transformation: UnitTransformation) -> (r: Unit)
        ensures
            r@ == (UnitModel { name: name@, dimension, transformation: transformation@ }),
    {
        Unit { name: name.to_owned(), dimensionality: dimension, transformation }
    }

    /// A base unit: its representation is the canonical one.
    pub fn new_base(name: &str, dimension: Dimension) -> (r: Unit)
        ensures
            r@ == (UnitModel { name: name@, dimension, transformation: TransModel::Identity }),
    {
        Unit::new(name, dimension, UnitTransformation::Identity)
    }

    /// A linearly transformed unit `to_base(v) = v * scale + offset`.
    pub fn new_linear(name: &str, dimension: Dimension, scale: Rat, offset: Rat) -> (r: Unit)
        ensures
            r@ == (UnitModel {
                name: name@,
                dimension,
                transformation: TransModel::Linear { scale: scale@, offset: offset@ },
            }),
    {
        Unit::new(
            name,
            dimension,
            UnitTransformation::Linear(LinearTransformation::new(scale, offset)),
        )
    }

    /// Converts a value in this unit's representation to the canonical base
    /// representation; `None` exactly when the exact result is not
    /// representable.
    pub fn to_base(&self, value: &Rat) -> (r: Option<Rat>)
        requires
            self.wf(),
            value.wf(),
        ensures
            r is Some <==> spec_to_base(self@.transformation, value@) is Some,
            r matches Some(x) ==> x.wf() && Some(x@) == spec_to_base(self@.transformation, value@),
    {
        self.transformation.to_base(value)
    }

    /// Converts a canonical base-representation value into this unit's
    /// representation; `None` exactly when the exact result is not
    /// representable.
    pub fn from_base(&self, value: &Rat) -> (r: Option<Rat>)
        requires
            self.wf(),
            value.wf(),
        ensures
            r is Some <==> spec_from_base(self@.transformation, value@) is Some,
            r matches Some(x) ==> x.wf() && Some(x@) == spec_from_base(
                self@.transformation,
                value@,
            ),
    {
        self.transformation.from_base(value)
    }

    /// The unit's display name.
    pub fn name(&self) -> (r: &str)
        ensures
            r@ == self@.name,
    {
        self.name.as_str()
    }

    /// The unit's dimension vector.
    pub fn dimensionality(&self) -> (r: &Dimension)
        ensures
            *r == self@.dimension,
    {
        &self.dimensionality
    }

    /// The unit's transformation strategy.
    pub fn transformation(&self) -> (r: &UnitTransformation)
        ensures
            r@ == self@.transformation,
    {
        &self.transformation
    }

    /// Two units are compatible exactly when their dimensions are equal.
    pub fn compatible(&self, other: &Unit) -> (b: bool)
        ensures
            b == (self@.dimension == other@.dimension),
    {
        self.dimensionality == other.dimensionality
    }

    /// The product of two units: dimensions multiply, scale factors
    /// multiply, and a name is synthesized.  Both operands must be pure
    /// rescalings — composing an offset or logarithmic unit is a caller
    /// error — and the exponent sums and scale product must be
    /// representable.
    pub fn mul(self, rhs: Unit) -> (r: Unit)
        requires
            self.wf(),
            rhs.wf(),
            spec_scale_only(self@.transformation),
            spec_scale_only(rhs@.transformation),
            dim_mul_fits(self@.dimension, rhs@.dimension),
            rat_mul_fits(spec_scale(self@.transformation), spec_scale(rhs@.transformation)),
        ensures
            r.wf(),
            r@.name == spec_composite_name(self@.name, rhs@.name),
            r@.dimension == spec_dim_mul(self@.dimension, rhs@.dimension),
            r@.transformation == (TransModel::Linear {
                scale: spec_rat_mul(
                    spec_scale(self@.transformation),
                    spec_scale(rhs@.transformation),
                ),
                offset: Ratio { num: 0, den: 1 },
            }),
    {
        let scale = match self.transformation.scale_factor().checked_mul(
            &rhs.transformation.scale_factor(),
        ) {
            Some(s) => s,
            None => unreached(),
        };
        let dimension = self.dimensionality.mul(rhs.dimensionality);
        let name = composite_name(self.name.as_str(), rhs.name.as_str());
        Unit {
            name,
            dimensionality: dimension,
            transformation: UnitTransformation::Linear(
                LinearTransformation::new(scale, Rat::from_int(0)),
            ),
        }
    }

    /// The quotient of two units: dimensions divide, scale factors divide,
    /// and a name is synthesized.  Both operands must be pure rescalings and
    /// the divisor's scale must be nonzero.
    pub fn div(self, rhs: Unit) -> (r: Unit)
        requires
            self.wf(),
            rhs.wf(),
            spec_scale_only(self@.transformation),
            spec_scale_only(rhs@.transformation),
            spec_scale(rhs@.transformation).num != 0,
            dim_div_fits(self@.dimension, rhs@.dimension),
            rat_div_fits(spec_scale(self@.transformation), spec_scale(rhs@.transformation)),
        ensures
            r.wf(),
            r@.name == spec_composite_name(self@.name, rhs@.name),
            r@.dimension == spec_dim_div(self@.dimension, rhs@.dimension),
            r@.transformation == (TransModel::Linear {
                scale: spec_rat_div(
                    spec_scale(self@.transformation),
                    spec_scale(rhs@.transformation),
                ),
                offset: Ratio { num: 0, den: 1 },
            }),
    {
        let scale = match self.transformation.scale_factor().checked_div(
            &rhs.transformation.scale_factor(),
        ) {
            Some(s) => s,
            None => unreached(),
        };
        let dimension = self.dimensionality.div(rhs.dimensionality);
        let name = composite_name(self.name.as_str(), rhs.name.as_str());
        Unit {
            name,
            dimensionality: dimension,
            transformation: UnitTransformation::Linear(
                LinearTransformation::new(scale, Rat::from_int(0)),
            ),
        }
    }

    /// The integer power of a unit: the dimension and the scale factor are
    /// raised elementwise.  The unit must be a pure rescaling, and for a
    /// negative power its scale must be nonzero.
    pub fn pow(&self, power: i64) -> (r: Unit)
        requires
            self.wf(),
            spec_scale_only(self@.transformation),
            dim_pow_fits(self@.dimension, power as int),
            rat_powi_fits(spec_scale(self@.transformation), power as int),
        ensures
            r.wf(),
            r@.name == spec_power_name(self@.name, power as int),
            r@.dimension == spec_dim_pow(self@.dimension, power as int),
            r@.transformation == (TransModel::Linear {
                scale: spec_rat_powi(spec_scale(self@.transformation), power as int),
                offset: Ratio { num: 0, den: 1 },
            }),
    {
        let scale = match self.transformation.scale_factor().checked_powi(power) {
            Some(s) => s,
            None => unreached(),
        };
        let dimension = self.dimensionality.pow(power);
        let mut name = String::from_str("(");
        name.append(self.name.as_str());
        name.append(" ^ ");
        name.append(int_to_string(power).as_str());
        name.append(")");
        proof {
            assert(name@ =~= spec_power_name(self@.name, power as int));
        }
        Unit {
            name,
            dimensionality: dimension,
            transformation: UnitTransformation::Linear(
                LinearTransformation::new(scale, Rat::from_int(0)),
            ),
        }
    }
}

/// Synthesizes the name `"(a * b)"` of a composite unit.
fn composite_name(a: &str, b: &str) -> (r: String)
    ensures
        r@ == spec_composite_name(a@, b@),
{
    let mut name = String::from_str("(");
    name.append(a);
    name.append(" * ");
    name.append(b);
    name.append(")");
    proof {
        assert(name@ =~= spec_composite_name(a@, b@));
    }
    name
}


/// The display string of a unit: its name, then its dimension in brackets.
pub open spec fn spec_unit_display(m: UnitModel) -> Seq<char> {
    m.name + " ["@ + spec_dim_display(m.dimension) + "]"@
}

impl Unit {
    /// The display string `name [dimension]`.
    pub fn display_string(&self) -> (r: String)
        ensures
            r@ == spec_unit_display(self@),
    {
        let mut out = self.name.clone();
        out.append(" [");
        out.append(self.dimensionality.display_string().as_str());
        out.append("]");
        proof {
            assert(out@ =~= spec_unit_display(self@));
        }
        out
    }
}

} // verus!
