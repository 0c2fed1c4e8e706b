use vstd::prelude::*;
use crate::dynamic::color_spec::SpecVersion;
use crate::dynamic::variant::Variant;

verus! {

/// The place of a spec version in time: 2021, then 2025, then 2026.
pub open spec fn spec_version_rank(v: SpecVersion) -> int {
    match v {
        SpecVersion::Spec2021 => 0,
        SpecVersion::Spec2025 => 1,
        SpecVersion::Spec2026 => 2,
    }
}

/// The spec version that a scheme of `variant` is built with when `spec_version` is asked for.
/// A CMF scheme keeps the requested version; the Expressive, Vibrant, Tonal Spot and Neutral
/// variants have no 2026 colors and fall back from 2026 to 2025; every other variant is
/// defined by the 2021 spec only. The version used is never later than the one asked for.
pub fn maybe_fallback_spec_version(spec_version: SpecVersion, variant: Variant) -> (r: SpecVersion)
    ensures
        variant == Variant::Cmf ==> r == spec_version,
        (variant == Variant::Expressive || variant == Variant::Vibrant || variant
            == Variant::TonalSpot || variant == Variant::Neutral) ==> r == (if spec_version
            == SpecVersion::Spec2026 {
            SpecVersion::Spec2025
        } else {
            spec_version
        }),
        !(variant == Variant::Cmf || variant == Variant::Expressive || variant == Variant::Vibrant
            || variant == Variant::TonalSpot || variant == Variant::Neutral) ==> r
            == SpecVersion::Spec2021,
        spec_version_rank(r) <= spec_version_rank(spec_version),
{
    if variant == Variant::Cmf {
        return spec_version;
    }
    if variant == Variant::Expressive || variant == Variant::Vibrant || variant == Variant::TonalSpot
        || variant == Variant::Neutral {
        if spec_version == SpecVersion::Spec2026 {
            return SpecVersion::Spec2025;
        } else {
            return spec_version;
        }
    }
    SpecVersion::Spec2021
}

} // verus!
