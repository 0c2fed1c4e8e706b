use vstd::prelude::*;

verus! {

/// The foundation form of the 2021 color specification, which carries no settings.
pub struct ColorSpec2021;

impl ColorSpec2021 {
    /// The foundation 2021 spec.
    pub fn new() -> (s: Self)
        ensures
            s == ColorSpec2021,
    {
        Self
    }
}

} // verus!
