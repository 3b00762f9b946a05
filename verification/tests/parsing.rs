use arshin::errors::ArshinError;
use arshin::fundamentals::{Dimension, Fundamentals};
use arshin::parser::parse_units_file;
use arshin::rational::Rat;
use arshin::registry::UnitRegistry;
use arshin::transformations::UnitTransformation;
use arshin::units::Unit;

fn length() -> Dimension {
    Dimension::new_from_fundamental(Fundamentals::Length)
}

fn mass() -> Dimension {
    Dimension::new_from_fundamental(Fundamentals::Mass)
}

fn count() -> Dimension {
    Dimension::new_from_fundamental(Fundamentals::Count)
}

fn temperature() -> Dimension {
    Dimension::new_from_fundamental(Fundamentals::Temperature)
}

fn parse_registry() -> UnitRegistry {
    let file_content = r#"
    unit meter {
        dimension: length
        transformation: identity
        prefixes: standard
    }
    unit gram {
        dimension: mass
        transformation: identity
        prefixes: standard
    }
    unit newton {
        dimension: mass * length / time^2
        transformation: linear(scale: 1.0, offset: 0.0)
        prefixes: standard
    }
    unit light_year {
        dimension: length
        transformation: linear(scale: 9.4607304725808e15)
        prefixes: no
    }
    unit degree_celsius {
        dimension: temperature
        transformation: linear(scale: 1, offset: 273.15)
        prefixes: no
    }
    unit degree_kelvin {
        dimension: temperature
        transformation: identity
        prefixes: standard
    }
    unit decibel {
        dimension: count
        transformation: decibel(p0: 1)
        prefixes: no
    }
    "#;

    parse_units_file(file_content).unwrap()
}

#[test]
fn test_content() {
    let registry = parse_registry();

    let expected_names = vec!["meter", "kilogram", "decibel"];
    for name in &expected_names {
        assert!(registry.get(name).is_some(), "Unit {} not found", name);
    }
}

#[test]
fn test_meter_dimensionality() {
    let registry = parse_registry();

    let meter = registry.get("meter").expect("Meter unit not found");
    assert_eq!(meter.name(), "meter", "Meter unit has incorrect name");

    assert_eq!(meter.dimensionality(), &length(), "Meter unit has incorrect dimensionality");
}

#[test]
fn test_kilogram_dimensionality() {
    let registry = parse_registry();

    let kilogram = registry.get("kilogram").expect("Kilogram unit not found");
    assert_eq!(kilogram.name(), "kilogram", "Kilogram unit has incorrect name");

    assert_eq!(kilogram.dimensionality(), &mass(), "Kilogram unit has incorrect dimensionality");
}

#[test]
fn parser_test_linear_transformation() {
    let registry = parse_registry();

    let kilogram = registry.get("kilogram").unwrap();
    if let UnitTransformation::Linear(transformation) = kilogram.transformation() {
        assert_eq!(
            transformation.scale,
            Rat::from_int(1000),
            "Kilogram scale coefficient incorrect"
        );
        assert_eq!(
            transformation.offset,
            Rat::from_int(0),
            "Kilogram offset coefficient incorrect"
        );
    } else {
        unreachable!();
    }

    assert_eq!(
        kilogram.to_base(&Rat::from_int(1)),
        Some(Rat::from_int(1000)),
        "Kilogram transformation incorrect"
    );
}

#[test]
fn test_decibel_dimensionality() {
    let registry = parse_registry();

    let decibel = registry.get("decibel").expect("Decibel unit not found");
    assert_eq!(decibel.name(), "decibel", "Decibel unit has incorrect name");

    assert_eq!(decibel.dimensionality(), &count(), "Decibel unit has incorrect dimensionality");
}

#[test]
fn parser_test_decibel_transformation() {
    let registry = parse_registry();

    let decibel = registry.get("decibel").expect("Decibel unit not found");
    if let UnitTransformation::Decibel(transformation) = decibel.transformation() {
        assert_eq!(transformation.p0, Rat::from_int(1), "Decibel p0 coefficient incorrect");
    } else {
        unreachable!();
    }

    assert_eq!(
        decibel.to_base(&Rat::from_int(10)),
        Some(Rat::from_int(10)),
        "Decibel transformation incorrect"
    );
}

#[test]
fn parse_with_semicolon_separators() {
    let registry = parse_units_file(
        "unit meter { dimension: length; transformation: identity; prefixes: standard }",
    )
    .unwrap();
    assert!(registry.contains("meter"));
    let kilometer = registry.get("kilometer").expect("kilometer not expanded");
    if let UnitTransformation::Linear(t) = kilometer.transformation() {
        assert_eq!(t.scale, Rat::from_int(1000));
        assert_eq!(t.offset, Rat::from_int(0));
    } else {
        unreachable!();
    }
    // The base unit and exactly the 24 fixed prefixes, nothing else.
    assert_eq!(registry.unit_names().len(), 25);
    assert!(registry.contains("Quettameter"));
    assert!(registry.contains("quectometer"));
    assert!(!registry.contains("foometer"));
}

#[test]
fn parse_decibel_with_prefixes_fails() {
    let result = parse_units_file(
        "unit bel { dimension: count; transformation: decibel(p0: 1); prefixes: standard }",
    );
    match result {
        Err(ArshinError::ParseError { message }) => {
            assert_eq!(message, "Decibel transformation is not compatible with standard prefixes");
        }
        _ => panic!("expected a parse error"),
    }
}

#[test]
fn parse_biased_with_prefixes_fails() {
    let result = parse_units_file(
        "unit celsius { dimension: temperature; transformation: linear(scale: 1, offset: 273.15); prefixes: standard }",
    );
    match result {
        Err(ArshinError::ParseError { message }) => {
            assert_eq!(
                message,
                "Linear transformation with offset is not compatible with standard prefixes"
            );
        }
        _ => panic!("expected a parse error"),
    }
}

#[test]
fn parse_duplicate_definition_fails() {
    let result = parse_units_file(
        "unit meter { dimension: length } unit meter { dimension: length }",
    );
    match result {
        Err(ArshinError::DuplicateUnitName { name }) => {
            assert_eq!(name, "meter");
        }
        _ => panic!("expected a duplicate-name error"),
    }
}

#[test]
fn parse_malformed_document_fails() {
    assert!(matches!(
        parse_units_file("unit meter { dimension: furlong }"),
        Err(ArshinError::ParseError { .. })
    ));
    assert!(matches!(
        parse_units_file("unit { dimension: length }"),
        Err(ArshinError::ParseError { .. })
    ));
    assert!(matches!(
        parse_units_file("unit meter { dimension: length "),
        Err(ArshinError::ParseError { .. })
    ));
}

#[test]
fn parse_unrepresentable_number_fails() {
    // 10^40 exceeds the exact rational range, as does a 39-digit mantissa.
    assert!(matches!(
        parse_units_file("unit a { dimension: length; transformation: linear(scale: 1e40) }"),
        Err(ArshinError::ParseError { .. })
    ));
    assert!(matches!(
        parse_units_file(
            "unit a { dimension: length; transformation: linear(scale: 200141183460469231731687303715884105728) }",
        ),
        Err(ArshinError::ParseError { .. })
    ));
}

#[test]
fn parse_empty_document() {
    let registry = parse_units_file("   \n  ").unwrap();
    assert!(registry.units.is_empty());
}

#[test]
fn parse_exact_numbers() {
    let registry = parse_units_file(
        "unit a { dimension: length; transformation: linear(scale: 1.5e3) }\n         unit b { dimension: length; transformation: linear(scale: 2.5e-1, offset: -0.125) }",
    )
    .unwrap();
    let a = registry.get("a").unwrap();
    if let UnitTransformation::Linear(t) = a.transformation() {
        assert_eq!(t.scale, Rat::from_int(1500));
    } else {
        unreachable!();
    }
    let b = registry.get("b").unwrap();
    if let UnitTransformation::Linear(t) = b.transformation() {
        assert_eq!(t.scale, Rat::new(1, 4));
        assert_eq!(t.offset, Rat::new(-1, 8));
    } else {
        unreachable!();
    }
}

#[test]
fn test_registry_create() {
    let registry = UnitRegistry::new();
    assert!(registry.units.is_empty());
}

#[test]
fn test_registry_register() {
    let mut registry = UnitRegistry::new();

    let meter = Unit::new_base("meter", length());
    let kilometer = Unit::new_linear("kilometer", length(), Rat::from_int(1000), Rat::from_int(0));
    let celsius = Unit::new_linear("celsius", temperature(), Rat::from_int(1), Rat::new(27315, 100));

    registry.register(meter).unwrap();
    registry.register(kilometer).unwrap();
    registry.register(celsius).unwrap();

    if let Some(unit) = registry.get("kilometer") {
        println!("Found: {}", unit.name());
        let base = unit.to_base(&Rat::from_int(5));
        println!("5 km = {:?} in base units", base);
    }
}

#[test]
fn test_failed_double_register() {
    let mut registry = UnitRegistry::new();
    let meter = Unit::new_base("meter", length());
    assert!(registry.register(meter.clone()).is_ok());
    assert!(registry.register(meter.clone()).is_err());
}

#[test]
fn double_register_keeps_single_entry() {
    // The failed second registration reports the duplicate name and leaves
    // the registry with exactly one entry for it.
    let mut registry = UnitRegistry::new();
    let meter = Unit::new_base("meter", length());
    assert!(registry.register(meter.clone()).is_ok());
    match registry.register(meter.clone()) {
        Err(ArshinError::DuplicateUnitName { name }) => assert_eq!(name, "meter"),
        _ => panic!("expected a duplicate-name error"),
    }
    let names: Vec<String> = registry.unit_names();
    assert_eq!(names, vec!["meter".to_string()]);
    assert!(registry.contains("meter"));
}
