use vstd::prelude::*;

verus! {

/// Checks and fixes universally disliked colors.
pub struct DislikeAnalyzer;

} // verus!
