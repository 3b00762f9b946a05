use arshin::fundamentals::{Dimension, Fundamentals, FUNDAMENTALS_NUMBER};

fn length() -> Dimension {
    Dimension::new_from_fundamental(Fundamentals::Length)
}

fn mass() -> Dimension {
    Dimension::new_from_fundamental(Fundamentals::Mass)
}

fn time() -> Dimension {
    Dimension::new_from_fundamental(Fundamentals::Time)
}

fn count() -> Dimension {
    Dimension::new_from_fundamental(Fundamentals::Count)
}

#[test]
fn test_create_dimensionality() {
    let powers = [1, 0, 0, 0, 0, 0, 0, 0, 0, 0];
    let dimensionality = Dimension::new(powers);
    assert_eq!(dimensionality.powers(), powers);

    let powers = [0, 1, 0, 0, 0, 0, 0, 0, 0, 0];
    let dimensionality = Dimension::new_from_fundamental(Fundamentals::Length);
    assert_eq!(dimensionality.powers(), powers);
}

#[test]
fn test_multiplication_of_dimensionalities() {
    let powers = [1, 1, -2, 0, 0, 0, 0, 0, 0, 0];
    let force = length().mul(mass()).mul(time().pow(-2));
    println!("{}", force.display_string());

    assert_eq!(force.powers(), powers);
}

#[test]
fn test_multiplication_of_dimensionalities_2() {
    let powers = [1, 1, 0, 0, 0, 0, 0, 0, 0, 0];

    let collapsed = Dimension::new(powers).div(length().mul(mass()));
    println!("{}", collapsed.display_string());
    assert_eq!(collapsed, Dimension::new_from_fundamental(Fundamentals::Count));

    let uncollapsed = collapsed.mul(length());
    assert_eq!(uncollapsed, Dimension::new_from_fundamental(Fundamentals::Length));

    assert_eq!(length().mul(Dimension::new_from_fundamental(Fundamentals::Count)), length());
}

#[test]
fn test_fundamentals_display() {
    assert_eq!(Fundamentals::Length.label(), "length");
    assert_eq!(Fundamentals::Mass.label(), "mass");
    assert_eq!(Fundamentals::Time.label(), "time");
    assert_eq!(Fundamentals::Current.label(), "current");
    assert_eq!(Fundamentals::Temperature.label(), "temperature");
    assert_eq!(Fundamentals::AmountOfSubstance.label(), "amount of substance");
    assert_eq!(Fundamentals::LuminousIntensity.label(), "luminous intensity");
    assert_eq!(Fundamentals::Angle.label(), "angle");
    assert_eq!(Fundamentals::Bit.label(), "bit");
    assert_eq!(Fundamentals::Count.label(), "count");
}

#[test]
fn test_fundamentals_to_index() {
    assert_eq!(Fundamentals::Mass.to_index(), 0);
    assert_eq!(Fundamentals::Length.to_index(), 1);
    assert_eq!(Fundamentals::Time.to_index(), 2);
    assert_eq!(Fundamentals::Current.to_index(), 3);
    assert_eq!(Fundamentals::Temperature.to_index(), 4);
    assert_eq!(Fundamentals::AmountOfSubstance.to_index(), 5);
    assert_eq!(Fundamentals::LuminousIntensity.to_index(), 6);
    assert_eq!(Fundamentals::Angle.to_index(), 7);
    assert_eq!(Fundamentals::Bit.to_index(), 8);
    assert_eq!(Fundamentals::Count.to_index(), 9);
}

#[test]
fn test_fundamentals_from_index() {
    assert_eq!(Fundamentals::from_index(0), Ok(Fundamentals::Mass));
    assert_eq!(Fundamentals::from_index(1), Ok(Fundamentals::Length));
    assert_eq!(Fundamentals::from_index(2), Ok(Fundamentals::Time));
    assert_eq!(Fundamentals::from_index(3), Ok(Fundamentals::Current));
    assert_eq!(Fundamentals::from_index(4), Ok(Fundamentals::Temperature));
    assert_eq!(Fundamentals::from_index(5), Ok(Fundamentals::AmountOfSubstance));
    assert_eq!(Fundamentals::from_index(6), Ok(Fundamentals::LuminousIntensity));
    assert_eq!(Fundamentals::from_index(7), Ok(Fundamentals::Angle));
    assert_eq!(Fundamentals::from_index(8), Ok(Fundamentals::Bit));
    assert_eq!(Fundamentals::from_index(9), Ok(Fundamentals::Count));
    assert!(Fundamentals::from_index(10).is_err());
}

#[test]
fn test_fundamentals_iter() {
    let fundamentals: Vec<Fundamentals> = Fundamentals::iter();
    assert_eq!(fundamentals.len(), FUNDAMENTALS_NUMBER);
    assert_eq!(fundamentals[0], Fundamentals::Mass);
    assert_eq!(fundamentals[1], Fundamentals::Length);
    assert_eq!(fundamentals[9], Fundamentals::Count);
}

#[test]
fn test_dimensionality_new() {
    let powers = [1, 0, 0, 0, 0, 0, 0, 0, 0, 0];
    let dim = Dimension::new(powers);
    assert_eq!(dim.powers(), powers);

    let powers_with_count = [0, 0, 0, 0, 0, 0, 0, 0, 0, 1];
    let dim = Dimension::new([0; 10]);
    assert_eq!(dim.powers(), powers_with_count);
}

#[test]
fn test_dimensionality_new_from_fundamental() {
    let dim = Dimension::new_from_fundamental(Fundamentals::Mass);
    assert_eq!(dim.powers(), [1, 0, 0, 0, 0, 0, 0, 0, 0, 0]);

    let dim = Dimension::new_from_fundamental(Fundamentals::Length);
    assert_eq!(dim.powers(), [0, 1, 0, 0, 0, 0, 0, 0, 0, 0]);

    let dim = Dimension::new_from_fundamental(Fundamentals::Count);
    assert_eq!(dim.powers(), [0, 0, 0, 0, 0, 0, 0, 0, 0, 1]);
}

#[test]
fn test_dimensionality_mul() {
    let result = length().mul(mass());
    assert_eq!(result.powers(), [1, 1, 0, 0, 0, 0, 0, 0, 0, 0]);

    let result = length().mul(time());
    assert_eq!(result.powers(), [0, 1, 1, 0, 0, 0, 0, 0, 0, 0]);
}

#[test]
fn test_dimensionality_div() {
    let result = length().div(time());
    assert_eq!(result.powers(), [0, 1, -1, 0, 0, 0, 0, 0, 0, 0]);

    let result = mass().div(mass());
    assert_eq!(result.powers(), [0, 0, 0, 0, 0, 0, 0, 0, 0, 1]);
}

#[test]
fn test_dimensionality_pow() {
    let result = length().pow(2);
    assert_eq!(result.powers(), [0, 2, 0, 0, 0, 0, 0, 0, 0, 0]);

    let result = length().pow(-1);
    assert_eq!(result.powers(), [0, -1, 0, 0, 0, 0, 0, 0, 0, 0]);

    let result = length().pow(0);
    assert_eq!(result.powers(), [0, 0, 0, 0, 0, 0, 0, 0, 0, 1]);

    let result = count().pow(2);
    assert_eq!(result.powers(), [0, 0, 0, 0, 0, 0, 0, 0, 0, 1]);
}

#[test]
fn test_dimensionality_display() {
    let dim = Dimension::new([1, 2, -2, 0, 0, 0, 0, 0, 0, 0]);
    assert_eq!(dim.display_string(), "mass * [length]^2 * [time]^-2");

    let dim = Dimension::new_from_fundamental(Fundamentals::Count);
    assert_eq!(dim.display_string(), "count");

    let dim = Dimension::new([0; 10]);
    assert_eq!(dim.display_string(), "count");
}

#[test]
fn test_dimensionality_ops() {
    let result = length().mul(mass()).div(time());
    assert_eq!(result.powers(), [1, 1, -1, 0, 0, 0, 0, 0, 0, 0]);

    let result = length().mul(mass()).div(length().mul(mass()));
    assert_eq!(result.powers(), [0, 0, 0, 0, 0, 0, 0, 0, 0, 1]);
}

#[test]
fn dimension_algebra_cancellation() {
    // Multiplying and then dividing by the same dimension returns the
    // original, and the zeroth and first powers behave as the identity.
    let a = Dimension::new([2, -1, 3, 0, 0, 1, 0, 0, 0, 0]);
    let b = Dimension::new([0, 4, -2, 1, 0, 0, 0, 0, 5, 0]);
    assert_eq!(a.mul(b).div(b), a);
    assert_eq!(a.pow(0), Dimension::new([0; 10]));
    assert_eq!(a.pow(1), a);
    assert_eq!(count().pow(0), count());
}
