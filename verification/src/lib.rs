//! Aerodynamic unit conversions on exact fixed-point decimal values.
//!
//! Quantities (Mach number, velocity in m/s, dynamic pressure in Pa) are held
//! as signed decimal fixed-point numbers with seven fractional digits, which
//! represents every physical constant of the converter exactly.

use vstd::prelude::*;

pub mod cli;
pub mod convert;
pub mod fixed;
pub mod text;

verus! {

/// Everything that can go wrong in a conversion request.
#[derive(Clone, Copy, PartialEq, Eq, Structural, Debug)]
pub enum UconvError {
    /// The value token is not a decimal number.
    InvalidNumber,
    /// The value does not fit the fixed-point representation.
    TooLarge,
    /// A dynamic pressure below zero has no real velocity.
    NegativePressure,
}

} // verus!
