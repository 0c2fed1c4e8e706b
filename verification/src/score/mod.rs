use vstd::prelude::*;

verus! {

/// Given a large set of colors, removes colors that are unsuitable for a UI theme and ranks the
/// rest by suitability.
pub struct Score;

} // verus!
