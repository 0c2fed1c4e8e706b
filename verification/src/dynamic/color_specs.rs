use vstd::prelude::*;

verus! {

/// A utility struct to get the correct color spec for a given spec version.
pub struct ColorSpecs;

} // verus!
