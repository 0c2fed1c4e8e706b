use vstd::prelude::*;

verus! {

/// Utility methods for calculating contrast given two colors, or calculating a color given one
/// color and a contrast ratio.
pub struct Contrast;

} // verus!
