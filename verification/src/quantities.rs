//! Quantities: a magnitude coupled with a unit.
//!
//! The magnitude is always held in the canonical base representation of the
//! quantity's current dimension, independent of the attached unit.  The unit
//! is consulted only at construction (to convert into base representation),
//! on explicit conversion to a target unit, when composing units, and for
//! display.  Dimensional violations on addition and subtraction are reported
//! as recoverable errors; composing a biased or logarithmic unit is a caller
//! error excluded by precondition.

use crate::errors::ArshinError;
use crate::fundamentals::{dim_div_fits, dim_mul_fits, dim_pow_fits, spec_dim_div, spec_dim_mul, spec_dim_pow, Dimension};
use crate::rational::{
    rat_add_fits, rat_div_fits, rat_mul_fits, rat_powi_fits, rat_sub_fits, ratio_wf, spec_rat_add,
    spec_rat_div, spec_rat_mul, spec_rat_powi, spec_rat_sub, Rat, Ratio,
};
use crate::registry::UnitRegistry;
use crate::transformations::{
    spec_from_base, spec_scale, spec_scale_only, spec_to_base,
};
use crate::units::{spec_composite_name, spec_power_name, unit_model_wf, Unit, UnitModel};
use vstd::pervasive::unreached;
use vstd::prelude::*;

verus! {

/// A physical quantity: a base-representation magnitude and a unit.
#[derive(Debug)]
pub struct Quantity {
    magnitude: Rat,
    unit: Unit,
}

impl Clone for Quantity {
    /// An exact copy: same magnitude and unit.
    fn clone(&self) -> (r: Quantity)
        ensures
            r@ == self@,
    {
        Quantity { magnitude: self.magnitude, unit: self.unit.clone() }
    }
}

/// Mathematical content of a quantity.
pub ghost struct QuantityModel {
    pub magnitude: Ratio,
    pub unit: UnitModel,
}

impl View for Quantity {
    type V = QuantityModel;

    closed spec fn view(&self) -> QuantityModel {
        QuantityModel { magnitude: self.magnitude@, unit: self.unit@ }
    }
}

impl Quantity {
    /// Well-formedness: a well-formed magnitude and unit.
    pub open spec fn wf(&self) -> bool {
        ratio_wf(self@.magnitude) && unit_model_wf(self@.unit)
    }

    /// A quantity from a magnitude expressed in `unit`, converted to and
    /// stored in base representation.  Fails with `NotRepresentable` exactly
    /// when the base value is not an exact representable rational.
    pub fn new(magnitude: Rat, unit: Unit) -> (r: Result<Quantity, ArshinError>)
        requires
            magnitude.wf(),
            unit.wf(),
        ensures
            r is Ok <==> spec_to_base(unit@.transformation, magnitude@) is Some,
            r matches Ok(q) ==> q.wf() && q@.unit == unit@ && Some(q@.magnitude) == spec_to_base(
                unit@.transformation,
                magnitude@,
            ),
            r matches Err(e) ==> e == ArshinError::NotRepresentable,
    {
        match unit.to_base(&magnitude) {
            Some(base_magnitude) => Ok(Quantity { magnitude: base_magnitude, unit }),
            None => Err(ArshinError::NotRepresentable),
        }
    }

    /// A quantity from a magnitude and a unit name looked up in a registry.
    /// Fails with `UnknownUnitName` exactly when the name is absent, and
    /// with `NotRepresentable` exactly when the base value is not an exact
    /// representable rational.
    pub fn new_from_registry(registry: &UnitRegistry, magnitude: Rat, unit_name: &str) -> (r:
        Result<Quantity, ArshinError>)
        requires
            registry.wf(),
            magnitude.wf(),
        ensures
            !registry@.contains_key(unit_name@) ==> (r matches Err(e) && (e matches
            ArshinError::UnknownUnitName { name } && name@ == unit_name@)),
            registry@.contains_key(unit_name@) ==> {
                let u = registry@[unit_name@];
                &&& (r is Ok <==> spec_to_base(u.transformation, magnitude@) is Some)
                &&& (r matches Ok(q) ==> q.wf() && q@.unit == u && Some(q@.magnitude)
                    == spec_to_base(u.transformation, magnitude@))
                &&& (r matches Err(e) ==> e == ArshinError::NotRepresentable)
            },
    {
        match registry.get(unit_name) {
            Some(unit) => {
                proof {
                    registry.lemma_wf_values(unit_name@);
                }
                Quantity::new(magnitude, unit.clone())
            },
            None => Err(ArshinError::UnknownUnitName { name: unit_name.to_owned() }),
        }
    }

    /// The magnitude of this quantity expressed in `unit`.  Fails with
    /// `UnitConversionError` exactly when the dimensions differ, and with
    /// `NotRepresentable` exactly when the converted value is not an exact
    /// representable rational.
    pub fn magnitude_as(&self, unit: &Unit) -> (r: Result<Rat, ArshinError>)
        requires
            self.wf(),
            unit.wf(),
        ensures
            self@.unit.dimension != unit@.dimension ==> r == Err::<Rat, ArshinError>(
                ArshinError::UnitConversionError {
                    expected: self@.unit.dimension,
                    got: unit@.dimension,
                },
            ),
            self@.unit.dimension == unit@.dimension ==> {
                &&& (r is Ok <==> spec_from_base(unit@.transformation, self@.magnitude) is Some)
                &&& (r matches Ok(x) ==> x.wf() && Some(x@) == spec_from_base(
                    unit@.transformation,
                    self@.magnitude,
                ))
                &&& (r matches Err(e) ==> e == ArshinError::NotRepresentable)
            },
    {
        if self.unit.dimensionality == unit.dimensionality {
            match unit.from_base(&self.magnitude) {
                Some(x) => Ok(x),
                None => Err(ArshinError::NotRepresentable),
            }
        } else {
            Err(ArshinError::UnitConversionError {
                expected: self.unit.dimensionality,
                got: unit.dimensionality,
            })
        }
    }

    /// Shorthand for [`Quantity::magnitude_as`].
    pub fn m_as(&self, unit: &Unit) -> (r: Result<Rat, ArshinError>)
        requires
            self.wf(),
            unit.wf(),
        ensures
            self@.unit.dimension != unit@.dimension ==> r == Err::<Rat, ArshinError>(
                ArshinError::UnitConversionError {
                    expected: self@.unit.dimension,
                    got: unit@.dimension,
                },
            ),
            self@.unit.dimension == unit@.dimension ==> {
                &&& (r is Ok <==> spec_from_base(unit@.transformation, self@.magnitude) is Some)
                &&& (r matches Ok(x) ==> x.wf() && Some(x@) == spec_from_base(
                    unit@.transformation,
                    self@.magnitude,
                ))
                &&& (r matches Err(e) ==> e == ArshinError::NotRepresentable)
            },
    {
        self.magnitude_as(unit)
    }

    /// The attached unit.
    pub fn unit(&self) -> (r: &Unit)
        ensures
            r@ == self@.unit,
    {
        &self.unit
    }

    /// The dimension of this quantity.
    pub fn dimensionality(&self) -> (r: &Dimension)
        ensures
            *r == self@.unit.dimension,
    {
        &self.unit.dimensionality
    }

    /// The magnitude in canonical base representation.
    pub fn base_magnitude(&self) -> (r: Rat)
        ensures
            r@ == self@.magnitude,
    {
        self.magnitude
    }

    /// Raises the quantity to an integer power: the base magnitude is raised
    /// numerically and the unit dimension and scale are raised elementwise.
    /// The unit must be a pure rescaling — raising a biased or logarithmic
    /// quantity to a power is a caller error — and the powers must be
    /// representable.
    pub fn pow(&self, power: i64) -> (r: Quantity)
        requires
            self.wf(),
            spec_scale_only(self@.unit.transformation),
            rat_powi_fits(self@.magnitude, power as int),
            rat_powi_fits(spec_scale(self@.unit.transformation), power as int),
            dim_pow_fits(self@.unit.dimension, power as int),
        ensures
            r.wf(),
            r@.magnitude == spec_rat_powi(self@.magnitude, power as int),
            r@.unit.dimension == spec_dim_pow(self@.unit.dimension, power as int),
            r@.unit.name == spec_power_name(self@.unit.name, power as int),
            spec_scale_only(r@.unit.transformation),
    {
        let magnitude = match self.magnitude.checked_powi(power) {
            Some(m) => m,
            None => unreached(),
        };
        let unit = self.unit.pow(power);
        Quantity { magnitude, unit }
    }

    /// Multiplies the magnitude by a plain scalar; the unit is unchanged.
    pub fn scalar_mul(&self, scalar: &Rat) -> (r: Quantity)
        requires
            self.wf(),
            scalar.wf(),
            rat_mul_fits(self@.magnitude, scalar@),
        ensures
            r.wf(),
            r@.unit == self@.unit,
            r@.magnitude == spec_rat_mul(self@.magnitude, scalar@),
    {
        let magnitude = match self.magnitude.checked_mul(scalar) {
            Some(m) => m,
            None => unreached(),
        };
        Quantity { magnitude, unit: self.unit.clone() }
    }

    /// Divides the magnitude by a plain nonzero scalar; the unit is
    /// unchanged.  This is legal for every unit, a decibel unit included:
    /// only the stored base magnitude is scaled.
    pub fn scalar_div(&self, scalar: &Rat) -> (r: Quantity)
        requires
            self.wf(),
            scalar.wf(),
            scalar@.num != 0,
            rat_div_fits(self@.magnitude, scalar@),
        ensures
            r.wf(),
            r@.unit == self@.unit,
            r@.magnitude == spec_rat_div(self@.magnitude, scalar@),
    {
        let magnitude = match self.magnitude.checked_div(scalar) {
            Some(m) => m,
            None => unreached(),
        };
        Quantity { magnitude, unit: self.unit.clone() }
    }

    /// Adds two quantities.  Fails with `IncompatibleDimensions` exactly
    /// when the dimensions differ; otherwise the base magnitudes add
    /// directly and the left operand's unit is kept for display.
    pub fn add(&self, other: &Quantity) -> (r: Result<Quantity, ArshinError>)
        requires
            self.wf(),
            other.wf(),
            self@.unit.dimension == other@.unit.dimension ==> rat_add_fits(
                self@.magnitude,
                other@.magnitude,
            ),
        ensures
            r is Ok <==> self@.unit.dimension == other@.unit.dimension,
            r matches Ok(q) ==> q.wf() && q@.unit == self@.unit && q@.magnitude == spec_rat_add(
                self@.magnitude,
                other@.magnitude,
            ),
            r matches Err(e) ==> e == (ArshinError::IncompatibleDimensions {
                a: self@.unit.dimension,
                b: other@.unit.dimension,
            }),
    {
        if self.unit.dimensionality == other.unit.dimensionality {
            let magnitude = match self.magnitude.checked_add(&other.magnitude) {
                Some(m) => m,
                None => unreached(),
            };
            Ok(Quantity { magnitude, unit: self.unit.clone() })
        } else {
            Err(ArshinError::IncompatibleDimensions {
                a: self.unit.dimensionality,
                b: other.unit.dimensionality,
            })
        }
    }

    /// Subtracts two quantities.  Fails with `IncompatibleDimensions`
    /// exactly when the dimensions differ; otherwise the base magnitudes
    /// subtract directly and the left operand's unit is kept for display.
    pub fn sub(&self, other: &Quantity) -> (r: Result<Quantity, ArshinError>)
        requires
            self.wf(),
            other.wf(),
            self@.unit.dimension == other@.unit.dimension ==> rat_sub_fits(
                self@.magnitude,
                other@.magnitude,
            ),
        ensures
            r is Ok <==> self@.unit.dimension == other@.unit.dimension,
            r matches Ok(q) ==> q.wf() && q@.unit == self@.unit && q@.magnitude == spec_rat_sub(
                self@.magnitude,
                other@.magnitude,
            ),
            r matches Err(e) ==> e == (ArshinError::IncompatibleDimensions {
                a: self@.unit.dimension,
                b: other@.unit.dimension,
            }),
    {
        if self.unit.dimensionality == other.unit.dimensionality {
            let magnitude = match self.magnitude.checked_sub(&other.magnitude) {
                Some(m) => m,
                None => unreached(),
            };
            Ok(Quantity { magnitude, unit: self.unit.clone() })
        } else {
            Err(ArshinError::IncompatibleDimensions {
                a: self.unit.dimensionality,
                b: other.unit.dimensionality,
            })
        }
    }

    /// Multiplies two quantities: base magnitudes multiply directly (both
    /// are canonical base values) and the units compose.  Both units must be
    /// pure rescalings.
    pub fn mul(&self, other: &Quantity) -> (r: Quantity)
        requires
            self.wf(),
            other.wf(),
            spec_scale_only(self@.unit.transformation),
            spec_scale_only(other@.unit.transformation),
            dim_mul_fits(self@.unit.dimension, other@.unit.dimension),
            rat_mul_fits(spec_scale(self@.unit.transformation), spec_scale(other@.unit.transformation)),
            rat_mul_fits(self@.magnitude, other@.magnitude),
        ensures
            r.wf(),
            r@.magnitude == spec_rat_mul(self@.magnitude, other@.magnitude),
            r@.unit.dimension == spec_dim_mul(self@.unit.dimension, other@.unit.dimension),
            r@.unit.name == spec_composite_name(self@.unit.name, other@.unit.name),
            spec_scale_only(r@.unit.transformation),
    {
        let magnitude = match self.magnitude.checked_mul(&other.magnitude) {
            Some(m) => m,
            None => unreached(),
        };
        let unit = self.unit.clone().mul(other.unit.clone());
        Quantity { magnitude, unit }
    }

    /// Divides two quantities: base magnitudes divide directly and the
    /// units compose.  Both units must be pure rescalings, and the divisor's
    /// magnitude and scale must be nonzero.
    pub fn div(&self, other: &Quantity) -> (r: Quantity)
        requires
            self.wf(),
            other.wf(),
            spec_scale_only(self@.unit.transformation),
            spec_scale_only(other@.unit.transformation),
            spec_scale(other@.unit.transformation).num != 0,
            other@.magnitude.num != 0,
            dim_div_fits(self@.unit.dimension, other@.unit.dimension),
            rat_div_fits(spec_scale(self@.unit.transformation), spec_scale(other@.unit.transformation)),
            rat_div_fits(self@.magnitude, other@.magnitude),
        ensures
            r.wf(),
            r@.magnitude == spec_rat_div(self@.magnitude, other@.magnitude),
            r@.unit.dimension == spec_dim_div(self@.unit.dimension, other@.unit.dimension),
            r@.unit.name == spec_composite_name(self@.unit.name, other@.unit.name),
            spec_scale_only(r@.unit.transformation),
    {
        let magnitude = match self.magnitude.checked_div(&other.magnitude) {
            Some(m) => m,
            None => unreached(),
        };
        let unit = self.unit.clone().div(other.unit.clone());
        Quantity { magnitude, unit }
    }
}

} // verus!
