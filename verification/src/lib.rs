//! Arshin: a dimensional-analysis and units-of-measure library.
//!
//! Physical units are points in a ten-axis dimensional space.  A unit pairs
//! such a dimension vector with a numeric transformation into a canonical
//! base representation; quantities couple a base-representation magnitude
//! with a unit and combine under automatic dimensional-consistency checks.
//! Unit catalogs can be loaded from a small textual definition language,
//! including standard SI-prefix expansion.
//!
//! All numeric state is held in exact rational arithmetic, so every
//! conversion and every algebraic law is exact; an application layer may
//! map rationals to floating point at its own boundary.

pub mod errors;
pub mod fundamentals;
pub mod parser;
pub mod quantities;
pub mod rational;
pub mod registry;
pub mod strings;
pub mod transformations;
pub mod units;

pub use errors::ArshinError;
pub use fundamentals::Dimension;
pub use fundamentals::Fundamentals;
pub use fundamentals::FUNDAMENTALS_NUMBER;
pub use parser::parse_units_file;
pub use quantities::Quantity;
pub use quantities::QuantityModel;
pub use rational::Rat;
pub use rational::Ratio;
pub use transformations::DecibelTransformation;
pub use transformations::IdentityTransformation;
pub use transformations::LinearTransformation;
pub use transformations::UnitTransformation;
pub use units::Unit;
pub use units::UnitModel;
pub use registry::UnitRegistry;
