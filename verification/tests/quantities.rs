use arshin::errors::ArshinError;
use arshin::fundamentals::{Dimension, Fundamentals};
use arshin::parser::parse_units_file;
use arshin::quantities::Quantity;
use arshin::rational::Rat;
use arshin::registry::UnitRegistry;
use arshin::transformations::{
    DecibelTransformation, IdentityTransformation, LinearTransformation, UnitTransformation,
};
use arshin::units::Unit;

fn length() -> Dimension {
    Dimension::new_from_fundamental(Fundamentals::Length)
}

fn mass() -> Dimension {
    Dimension::new_from_fundamental(Fundamentals::Mass)
}

fn time() -> Dimension {
    Dimension::new_from_fundamental(Fundamentals::Time)
}

fn count() -> Dimension {
    Dimension::new_from_fundamental(Fundamentals::Count)
}

fn temperature() -> Dimension {
    Dimension::new_from_fundamental(Fundamentals::Temperature)
}

#[test]
fn test_identity_transformation() {
    let trans = IdentityTransformation::new();
    assert_eq!(trans.to_base(&Rat::from_int(42)), Rat::from_int(42));
    assert_eq!(trans.from_base(&Rat::from_int(42)), Rat::from_int(42));

    assert_eq!(trans, IdentityTransformation::new());
}

#[test]
fn transformations_test_linear_transformation() {
    let trans = LinearTransformation::new(Rat::from_int(2), Rat::from_int(5));
    assert_eq!(trans.scale(), Rat::from_int(2));
    assert_eq!(trans.offset(), Rat::from_int(5));

    // to_base: value * scale + offset
    assert_eq!(trans.to_base(&Rat::from_int(9)), Some(Rat::from_int(23))); // 9 * 2 + 5 = 23
    assert_eq!(trans.to_base(&Rat::from_int(5)), Some(Rat::from_int(15))); // 5 * 2 + 5 = 15

    // from_base: (value - offset) / scale
    assert_eq!(trans.from_base(&Rat::from_int(3)), Some(Rat::from_int(-1))); // (3 - 5) / 2 = -1
    assert_eq!(trans.from_base(&Rat::from_int(9)), Some(Rat::from_int(2))); // (9 - 5) / 2 = 2

    assert_eq!(trans, LinearTransformation::new(Rat::from_int(2), Rat::from_int(5)));
}

#[test]
fn transformations_test_decibel_transformation() {
    let trans = DecibelTransformation::new(Rat::from_int(1));
    assert_eq!(trans.p0(), Rat::from_int(1));

    // to_base: 10 ^ (value / 10) * p0
    assert_eq!(trans.to_base(&Rat::from_int(0)), Some(Rat::from_int(1))); // 10^(0/10) * 1 = 1
    assert_eq!(trans.to_base(&Rat::from_int(10)), Some(Rat::from_int(10))); // 10^(10/10) * 1 = 10

    // from_base: 10 * log10(value / p0)
    assert_eq!(trans.from_base(&Rat::from_int(1)), Some(Rat::from_int(0))); // log10(1/1) * 10 = 0
    assert_eq!(trans.from_base(&Rat::from_int(10)), Some(Rat::from_int(10))); // log10(10/1) * 10 = 10

    assert_eq!(trans, DecibelTransformation::new(Rat::from_int(1)));
}

#[test]
fn decibel_off_grid_values_are_inexact() {
    let trans = DecibelTransformation::new(Rat::from_int(1));
    // 10^(5/10) is irrational, and log10(2) is irrational: neither is an
    // exact rational, so both conversions decline.
    assert_eq!(trans.to_base(&Rat::from_int(5)), None);
    assert_eq!(trans.from_base(&Rat::from_int(2)), None);
    // Negative base values have no logarithm at all.
    assert_eq!(trans.from_base(&Rat::from_int(-10)), None);
    // Powers of ten below one are still exact.
    assert_eq!(trans.to_base(&Rat::from_int(-10)), Some(Rat::new(1, 10)));
    assert_eq!(trans.from_base(&Rat::new(1, 100)), Some(Rat::from_int(-20)));
}

#[test]
fn linear_round_trip_is_exact() {
    // from_base(to_base(v)) == v for a nonzero scale, including zero,
    // negative and large magnitudes.
    let trans = LinearTransformation::new(Rat::new(-7, 3), Rat::new(27315, 100));
    let samples = [
        Rat::from_int(0),
        Rat::from_int(-12345),
        Rat::new(1, 3),
        Rat::new(-987654321, 1024),
        Rat::from_int(1_000_000_000_000_000_000),
    ];
    for v in samples.iter() {
        let w = trans.to_base(v).unwrap();
        assert_eq!(trans.from_base(&w), Some(*v));
    }
}

#[test]
fn test_unit_new() {
    let unit = Unit::new("meter", length(), UnitTransformation::Identity);
    assert_eq!(unit.name(), "meter");
    assert_eq!(unit.dimensionality(), &length());
    assert_eq!(unit.to_base(&Rat::from_int(10)), Some(Rat::from_int(10)));
    assert_eq!(unit.from_base(&Rat::from_int(10)), Some(Rat::from_int(10)));
}

#[test]
fn test_unit_new_base() {
    let unit = Unit::new_base("second", time());
    assert_eq!(unit.name(), "second");
    assert_eq!(unit.dimensionality(), &time());
    assert_eq!(unit.to_base(&Rat::from_int(5)), Some(Rat::from_int(5)));
    assert_eq!(unit.from_base(&Rat::from_int(5)), Some(Rat::from_int(5)));
}

#[test]
fn test_unit_new_linear() {
    let unit = Unit::new_linear("kilometer", length(), Rat::from_int(1000), Rat::from_int(0));
    assert_eq!(unit.name(), "kilometer");
    assert_eq!(unit.dimensionality(), &length());
    assert_eq!(unit.to_base(&Rat::from_int(1)), Some(Rat::from_int(1000))); // 1 km = 1000 m
    assert_eq!(unit.from_base(&Rat::from_int(1000)), Some(Rat::from_int(1))); // 1000 m = 1 km

    // With offset (e.g. Celsius to Kelvin)
    let unit = Unit::new_linear("celsius", temperature(), Rat::from_int(1), Rat::new(27315, 100));
    assert_eq!(unit.to_base(&Rat::from_int(0)), Some(Rat::new(27315, 100)));
    assert_eq!(unit.from_base(&Rat::new(27315, 100)), Some(Rat::from_int(0)));
}

#[test]
fn test_unit_is_compatible_with() {
    let meter = Unit::new_base("meter", length());
    let kilometer = Unit::new_linear("kilometer", length(), Rat::from_int(1000), Rat::from_int(0));
    let second = Unit::new_base("second", time());

    assert!(meter.compatible(&kilometer));
    assert!(!meter.compatible(&second));
}

#[test]
fn test_unit_transformation_access() {
    let unit = Unit::new_linear("kilometer", length(), Rat::from_int(1000), Rat::from_int(0));
    let transformation = unit.transformation();
    if let UnitTransformation::Linear(transformation) = transformation {
        assert_eq!(transformation.scale(), Rat::from_int(1000));
        assert_eq!(transformation.offset(), Rat::from_int(0));
    }
}

#[test]
fn test_unit_display() {
    let meter = Unit::new_base("meter", length());
    assert_eq!(meter.display_string(), "meter [length]");

    let second = Unit::new_base("second", time());
    assert_eq!(second.display_string(), "second [time]");

    let joule = Unit::new_base("joule", mass().mul(length().pow(2)).div(time().pow(2)));
    assert_eq!(joule.display_string(), "joule [mass * [length]^2 * [time]^-2]");
}

#[test]
fn test_units_operations() {
    let kilometer = Unit::new_linear("kilometer", length(), Rat::from_int(1000), Rat::from_int(0));
    let minute = Unit::new_linear("minute", time(), Rat::from_int(60), Rat::from_int(0));
    let kilometer_per_minute = kilometer.clone().div(minute.clone());
    assert_eq!(kilometer_per_minute.to_base(&Rat::from_int(1)), Some(Rat::new(1000, 60)));

    let kilometer_minute = kilometer.mul(minute);
    assert_eq!(kilometer_minute.to_base(&Rat::from_int(1)), Some(Rat::from_int(60000)));
}

#[test]
fn test_create_quantity() {
    let kilometer = Unit::new_linear("kilometer", length(), Rat::from_int(1000), Rat::from_int(0));
    let quantity = Quantity::new(Rat::from_int(1), kilometer.clone()).unwrap();
    assert_eq!(quantity.dimensionality(), &length());
    assert_eq!(quantity.unit().name(), "kilometer");
    assert_eq!(quantity.base_magnitude(), Rat::from_int(1000));
}

#[test]
fn test_magnitude_as() {
    let meter = Unit::new_base("meter", length());
    let quantity = Quantity::new(Rat::from_int(1000), meter.clone()).unwrap();
    let kilometer = Unit::new_linear("kilometer", length(), Rat::from_int(1000), Rat::from_int(0));
    assert_eq!(quantity.magnitude_as(&kilometer), Ok(Rat::from_int(1)));

    let quantity = Quantity::new(Rat::from_int(1), kilometer.clone()).unwrap();
    assert_eq!(quantity.m_as(&meter), Ok(Rat::from_int(1000)));
}

#[test]
fn scalar_operations() {
    let meter = Unit::new_base("meter", length());
    let kilometer = Unit::new_linear("kilometer", length(), Rat::from_int(1000), Rat::from_int(0));
    let quantity = Quantity::new(Rat::from_int(1000), meter.clone()).unwrap();
    assert_eq!(
        quantity.scalar_mul(&Rat::from_int(2)).magnitude_as(&kilometer),
        Ok(Rat::from_int(2))
    );
    assert_eq!(quantity.scalar_div(&Rat::from_int(2)).magnitude_as(&kilometer), Ok(Rat::new(1, 2)));
}

#[test]
fn test_arithmetic_operations() {
    let meter = Unit::new_base("meter", length());
    let kilometer = Unit::new_linear("kilometer", length(), Rat::from_int(1000), Rat::from_int(0));
    let quantity1 = Quantity::new(Rat::from_int(1000), meter.clone()).unwrap();
    let quantity2 = Quantity::new(Rat::from_int(2), kilometer.clone()).unwrap();
    assert_eq!(
        quantity1.add(&quantity2).unwrap().magnitude_as(&meter),
        Ok(Rat::from_int(3000))
    );
    assert_eq!(
        quantity1.sub(&quantity2).unwrap().magnitude_as(&kilometer),
        Ok(Rat::from_int(-1))
    );

    let centimeter = Unit::new_linear("centimeter", length(), Rat::new(1, 100), Rat::from_int(0));
    let cube_meter = meter.pow(3);
    let cube_centimeter = centimeter.pow(3);
    let ratio = Quantity::new(Rat::from_int(1), cube_meter)
        .unwrap()
        .div(&Quantity::new(Rat::from_int(1), cube_centimeter).unwrap());
    assert_eq!(ratio.base_magnitude(), Rat::from_int(1000000));
}

#[test]
fn incompatible_addition_is_rejected() {
    // Adding quantities of different dimensions yields no numeric result,
    // only a structured error naming both dimensions.
    let meter = Unit::new_base("meter", length());
    let second = Unit::new_base("second", time());
    let a = Quantity::new(Rat::from_int(1), meter).unwrap();
    let b = Quantity::new(Rat::from_int(1), second).unwrap();
    match a.add(&b) {
        Err(ArshinError::IncompatibleDimensions { a: da, b: db }) => {
            assert_eq!(da, length());
            assert_eq!(db, time());
        }
        _ => panic!("expected an incompatible-dimensions error"),
    }
    assert!(a.sub(&b).is_err());
}

#[test]
fn test_multiplication_of_quantities() {
    let gram = Unit::new_linear("gram", mass(), Rat::new(1, 1000), Rat::from_int(0));
    let meter = Unit::new_base("meter", length());
    let second = Unit::new_base("second", time());

    let joule = Unit::new_base("joule", mass().mul(length().pow(2)).div(time().pow(2)));

    assert_eq!(
        Quantity::new(Rat::from_int(1000), gram)
            .unwrap()
            .mul(&Quantity::new(Rat::from_int(4), meter).unwrap().pow(2))
            .div(&Quantity::new(Rat::from_int(1), second).unwrap().pow(2))
            .magnitude_as(&joule),
        Ok(Rat::from_int(16))
    );
}

#[test]
fn quantities_from_registry() {
    let registry = parse_units_file(
        "unit meter { dimension: length; transformation: identity; prefixes: standard }",
    )
    .unwrap();
    let meter = registry.get("meter").unwrap().clone();
    let kilometer = registry.get("kilometer").unwrap().clone();

    let meters = Quantity::new_from_registry(&registry, Rat::from_int(5000), "meter").unwrap();
    let kilometers = Quantity::new_from_registry(&registry, Rat::from_int(5), "kilometer").unwrap();
    assert_eq!(meters.magnitude_as(&kilometer), Ok(Rat::from_int(5)));
    assert_eq!(kilometers.magnitude_as(&meter), Ok(Rat::from_int(5000)));

    match Quantity::new_from_registry(&registry, Rat::from_int(1), "furlong") {
        Err(ArshinError::UnknownUnitName { name }) => assert_eq!(name, "furlong"),
        _ => panic!("expected an unknown-name error"),
    }
}

#[test]
fn conversion_errors() {
    let meter = Unit::new_base("meter", length());
    let second = Unit::new_base("second", time());
    let q = Quantity::new(Rat::from_int(1), meter).unwrap();
    match q.magnitude_as(&second) {
        Err(ArshinError::UnitConversionError { expected, got }) => {
            assert_eq!(expected, length());
            assert_eq!(got, time());
        }
        _ => panic!("expected a conversion error"),
    }

    // A decibel magnitude off the exact powers of ten is not representable.
    let decibel = Unit::new(
        "decibel",
        count(),
        UnitTransformation::Decibel(DecibelTransformation::new(Rat::from_int(1))),
    );
    assert!(matches!(
        Quantity::new(Rat::from_int(5), decibel),
        Err(ArshinError::NotRepresentable)
    ));
}

#[test]
fn decibel_quantity_scalar_division() {
    // Dividing a decibel quantity by a plain scalar is legal: only the
    // stored base magnitude is scaled, the unit is untouched.
    let decibel = Unit::new(
        "decibel",
        count(),
        UnitTransformation::Decibel(DecibelTransformation::new(Rat::from_int(1))),
    );
    let q = Quantity::new(Rat::from_int(20), decibel).unwrap();
    assert_eq!(q.base_magnitude(), Rat::from_int(100));
    let half = q.scalar_div(&Rat::from_int(2));
    assert_eq!(half.base_magnitude(), Rat::from_int(50));
    assert_eq!(half.unit().name(), "decibel");
}

#[test]
fn quantity_power_on_biased_units() {
    // Raising a kilometre quantity to a power updates dimension and
    // magnitude together.
    let kilometer = Unit::new_linear("kilometer", length(), Rat::from_int(1000), Rat::from_int(0));
    let q = Quantity::new(Rat::from_int(2), kilometer).unwrap();
    let sq = q.pow(2);
    assert_eq!(sq.base_magnitude(), Rat::from_int(4000000));
    assert_eq!(sq.dimensionality(), &length().pow(2));
}

#[test]
fn registry_lookup_and_names() {
    let mut registry = UnitRegistry::new();
    assert!(!registry.contains("meter"));
    assert!(registry.get("meter").is_none());
    registry.register(Unit::new_base("meter", length())).unwrap();
    registry.register(Unit::new_base("second", time())).unwrap();
    assert!(registry.contains("meter"));
    assert!(registry.contains("second"));
    assert!(!registry.contains("metre"));
    let names: Vec<String> = registry.unit_names();
    assert_eq!(names, vec!["meter".to_string(), "second".to_string()]);
}
