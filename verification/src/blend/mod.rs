use vstd::prelude::*;

verus! {

/// Functions for blending in HCT and CAM16.
pub struct Blend;

} // verus!
