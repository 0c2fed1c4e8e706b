use vstd::prelude::*;
use crate::dynamic::color_spec::SpecVersion;
use crate::dynamic::color_spec_2025::ColorSpec2025;

verus! {

/// The 2026 Material Design color specification, built on the 2025 one.
pub struct ColorSpec2026 {
    /// The 2025 spec that the colors this spec does not redefine come from.
    pub base: ColorSpec2025,
    /// The spec version that the colors of this spec are resolved against.
    pub override_spec: SpecVersion,
}

impl ColorSpec2026 {
    /// The 2026 spec: it and its bases all resolve against the 2026 spec version.
    pub fn new() -> (s: Self)
        ensures
            s.override_spec == SpecVersion::Spec2026,
            s.base.base.override_spec == SpecVersion::Spec2026,
    {
        Self {
            base: ColorSpec2025::with_override_spec(SpecVersion::Spec2026),
            override_spec: SpecVersion::Spec2026,
        }
    }
}

impl Default for ColorSpec2026 {
    /// The 2026 spec, as `new` makes it.
    fn default() -> (s: Self)
        ensures
            s.override_spec == SpecVersion::Spec2026,
            s.base.base.override_spec == SpecVersion::Spec2026,
    {
        Self::new()
    }
}

} // verus!
