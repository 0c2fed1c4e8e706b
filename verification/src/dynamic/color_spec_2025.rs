use vstd::prelude::*;
use crate::dynamic::color_spec::SpecVersion;
use crate::dynamic::color_spec_2021::ColorSpec2021;

verus! {

/// The 2025 Material Design color specification, built on the 2021 one.
pub struct ColorSpec2025 {
    /// The 2021 spec that the colors this spec does not redefine come from.
    pub base: ColorSpec2021,
}

impl ColorSpec2025 {
    /// The 2025 spec, whose base resolves against the 2021 spec version.
    pub fn new() -> (s: Self)
        ensures
            s.base.override_spec == SpecVersion::Spec2021,
    {
        Self { base: ColorSpec2021::new() }
    }

    /// The 2025 spec, whose base resolves against the given spec version.
    pub fn with_override_spec(override_spec: SpecVersion) -> (s: Self)
        ensures
            s.base.override_spec == override_spec,
    {
        Self { base: ColorSpec2021::with_override_spec(override_spec) }
    }
}

impl Default for ColorSpec2025 {
    /// The 2025 spec, as `new` makes it.
    fn default() -> (s: Self)
        ensures
            s.base.override_spec == SpecVersion::Spec2021,
    {
        Self::new()
    }
}

} // verus!
