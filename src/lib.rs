//! Validation of Polish national identification numbers (PESEL).
//!
//! A PESEL is eleven decimal digits: a birth date whose month field also
//! selects the century, a serial number with the holder's sex, and a check
//! digit. [`pesel::Pesel::validate`] decides whether a string is such a
//! number, and [`pesel::Pesel::parse`] wraps the strings that are.

pub mod calendar;
pub mod pesel;

pub use pesel::{ParseError, Pesel};
