use vstd::prelude::*;

verus! {

/// Provides conversions needed for K-Means quantization. Converting input to points, and
/// converting the final state of the K-Means algorithm to colors.
pub struct PointProviderLab;

} // verus!
