//! Conversion of vector-graphics shapes into the drawing operations of a
//! procedural sketch API, with the vertical axis inverted.
//!
//! The heart of the crate is [`path::interpret`], a verified interpreter for
//! the path mini-language (`M 0,0 L 10,10 Z`). Coordinates are exact decimals
//! ([`decimal::Decimal`]), so every result is stated and proved over plain
//! integers.

pub mod command;
pub mod convert;
pub mod cursor;
pub mod decimal;
pub mod geometry;
pub mod path;
pub mod shapes;
