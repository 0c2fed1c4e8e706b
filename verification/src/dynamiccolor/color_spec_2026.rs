use vstd::prelude::*;

verus! {

/// The foundation form of the 2026 color specification, which carries no settings.
pub struct ColorSpec2026;

impl ColorSpec2026 {
    /// The foundation 2026 spec.
    pub fn new() -> (s: Self)
        ensures
            s == ColorSpec2026,
    {
        Self
    }
}

} // verus!
