//! Arbitrary-precision integers and exact rationals.
//!
//! The crate provides two value types. [`Integer`] is a signed
//! arbitrary-precision integer stored as a sign together with a canonical
//! little-endian sequence of 64-bit limbs. [`Rational`] is an exact fraction
//! of two [`Integer`] values kept in lowest terms with a positive
//! denominator. Every arithmetic, comparison, bit-manipulation and text
//! conversion operation carries a contract that pins down its result as a
//! mathematical function of the operands' values.

use vstd::prelude::*;

pub mod limbs;
pub mod integer;
pub mod bitwise;
pub mod text;
pub mod gcd;
pub mod rational;
pub mod laws;
pub mod ops;
pub mod structures;

pub use integer::Integer;
pub use rational::Rational;

verus! {

/// Everything that can go wrong in the fallible operations of this crate.
#[derive(Clone, Copy, Debug, PartialEq, Eq, Structural)]
pub enum Error {
    /// Textual input that is not a number in the requested radix.
    ParseError,
    /// Division or remainder by zero, or a fraction with a zero denominator.
    DivisionByZero,
    /// An argument outside the operation's domain, such as a negative exponent.
    DomainError,
    /// A narrowing conversion whose input does not fit the target shape.
    ConversionError,
}

} // verus!
