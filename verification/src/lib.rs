//! An arithmetic expression engine: a finite-state tokenizer that turns raw
//! text into a sequence of tokens, and a priority-climbing evaluator that
//! reduces a token sequence to a single IEEE single-precision value under a
//! variable-binding context.
//!
//! Numeric values travel through the library as `u32` bit patterns of the
//! IEEE 754 single-precision floats they denote; the float operations
//! themselves stand behind the trusted wrappers of [`float32`].

pub mod float32;
pub mod parsing;
pub mod tokening;

use vstd::prelude::*;

verus! {

/// The bit pattern of the single-precision value `1.0`, produced by the
/// comparison operators for a true outcome.
pub const F32_ONE_BITS: u32 = 0x3F80_0000;

/// The bit pattern of the single-precision value `0.0`, produced by the
/// comparison operators for a false outcome.
pub const F32_ZERO_BITS: u32 = 0;

} // verus!
