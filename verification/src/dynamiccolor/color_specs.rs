use vstd::prelude::*;

verus! {

/// A utility struct to get the correct foundation color spec for a given spec version.
pub struct ColorSpecs;

} // verus!
