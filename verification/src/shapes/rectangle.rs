use vstd::prelude::*;

use super::primitive::UntransformedPrimitive;

verus! {

/// The unit square in the plane `z = 0`, centred on the origin.
#[derive(Debug, Clone, Copy, PartialEq, Eq, Structural)]
pub struct UnitXyRectangle;

impl UnitXyRectangle {
    pub fn new() -> (r: Self)
        ensures
            r == UnitXyRectangle,
    {
        Self
    }
}

impl UntransformedPrimitive for UnitXyRectangle {}

} // verus!
