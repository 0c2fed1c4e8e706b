use vstd::prelude::*;
use crate::dynamic::color_spec::SpecVersion;

verus! {

/// The 2021 Material Design color specification.
pub struct ColorSpec2021 {
    /// The spec version that the colors of this spec are resolved against.
    pub override_spec: SpecVersion,
}

impl ColorSpec2021 {
    /// The 2021 spec, resolving its colors against the given spec version.
    pub fn with_override_spec(override_spec: SpecVersion) -> (s: Self)
        ensures
            s.override_spec == override_spec,
    {
        Self { override_spec }
    }

    /// The 2021 spec, resolving its colors against the 2021 spec version.
    pub fn new() -> (s: Self)
        ensures
            s.override_spec == SpecVersion::Spec2021,
    {
        Self { override_spec: SpecVersion::Spec2021 }
    }
}

impl Default for ColorSpec2021 {
    /// The 2021 spec, as `new` makes it.
    fn default() -> (s: Self)
        ensures
            s.override_spec == SpecVersion::Spec2021,
    {
        Self::new()
    }
}

} // verus!
