//! Definition and resolution engine for command-line arguments.
//!
//! A declarative list of argument specifications (boolean, integer, float,
//! string and choice kinds, with flags, defaults, ordinals and constraints)
//! is parsed from a flat stream of definition tokens.  A second stream of
//! runtime tokens is then resolved against those specifications in three
//! passes per token (flag match, ordinal match, catch-all match), values are
//! accumulated in arrival order, and multiplicity and required constraints
//! are enforced afterwards.

pub mod common;
pub mod errors;
pub mod kinds;
pub mod laws;
pub mod numbers;
pub mod resolve;
pub mod settings;
pub mod text;
