//! Binary floating point over integers.
//!
//! Pointer coordinates, output scales and pixel distances are IEEE 754
//! numbers. Here such a number is an integer significand with a scale, every
//! operation is defined as the exact result rounded once, and the executable
//! operations are proved to compute exactly that.

pub mod format;
pub mod rounding;
pub mod cell;
pub mod arith;
pub mod convert;
pub mod order;
pub mod root;
pub mod bits;
pub mod exact;
