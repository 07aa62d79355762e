//! The values that the bridge reads from the inverter and publishes.

use vstd::prelude::*;

verus! {

/// A number that a scale factor can be applied to.
#[derive(Debug, PartialEq, Eq)]
pub enum Number {
    Int(i64),
    /// A single-precision float, by its IEEE-754 bit pattern.
    Float(u32),
    /// A number scaled before: `raw × 10^exponent`, rounded to six decimal
    /// places.
    Scaled(Box<Number>, i32),
}

/// A copy of a number.
pub fn copy_number(n: &Number) -> (r: Number)
    ensures
        r == *n,
    decreases n,
{
    match n {
        Number::Int(i) => Number::Int(*i),
        Number::Float(bits) => Number::Float(*bits),
        Number::Scaled(raw, exponent) => Number::Scaled(Box::new(copy_number(raw)), *exponent),
    }
}

impl Clone for Number {
    fn clone(&self) -> (r: Self)
        ensures
            r == *self,
    {
        copy_number(self)
    }
}

/// A value read from the inverter.
///
/// Floating-point values are held by what determines them: a register pair's
/// IEEE-754 single-precision bits, or an integer or such a float together with
/// the power of ten that scales it. Turning them into `f64` numbers and text is
/// left to the caller.
#[derive(Debug, Clone, PartialEq)]
pub enum Value {
    Str(String),
    Int(i64),
    /// The single-precision float with these bits, widened to double precision.
    Float(u32),
    /// `raw × 10^exponent`, rounded to six decimal places.
    Scaled { raw: Number, exponent: i32 },
}

} // verus!
