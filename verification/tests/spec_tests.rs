use material_color_utils::dynamic::color_spec::{Platform, SpecVersion};
use material_color_utils::dynamic::color_spec_2021::ColorSpec2021;
use material_color_utils::dynamic::color_spec_2025::ColorSpec2025;
use material_color_utils::dynamic::color_spec_2026::ColorSpec2026;
use material_color_utils::dynamic::tone_delta_pair::{DeltaConstraint, TonePolarity};
use material_color_utils::dynamic::variant::Variant;
use material_color_utils::dynamiccolor::dynamic_scheme::maybe_fallback_spec_version;
use material_color_utils::helpers::error::ThemeGenerationError;

#[test]
fn color_spec_2021_resolves_against_its_version() {
    assert_eq!(ColorSpec2021::new().override_spec, SpecVersion::Spec2021);
    assert_eq!(
        ColorSpec2021::with_override_spec(SpecVersion::Spec2025).override_spec,
        SpecVersion::Spec2025
    );
}

#[test]
fn color_spec_2025_base_is_2021() {
    assert_eq!(ColorSpec2025::new().base.override_spec, SpecVersion::Spec2021);
    assert_eq!(
        ColorSpec2025::with_override_spec(SpecVersion::Spec2026).base.override_spec,
        SpecVersion::Spec2026
    );
}

#[test]
fn color_spec_2026_resolves_all_bases_against_2026() {
    let spec = ColorSpec2026::new();
    assert_eq!(spec.override_spec, SpecVersion::Spec2026);
    assert_eq!(spec.base.base.override_spec, SpecVersion::Spec2026);
}

#[test]
fn spec_versions_are_ordered_oldest_first() {
    assert!(SpecVersion::Spec2021 < SpecVersion::Spec2025);
    assert!(SpecVersion::Spec2025 < SpecVersion::Spec2026);
    assert_ne!(Platform::Phone, Platform::Watch);
}

#[test]
fn enums_compare_by_variant() {
    assert_eq!(Variant::TonalSpot, Variant::TonalSpot);
    assert_ne!(Variant::Vibrant, Variant::Expressive);
    assert_ne!(DeltaConstraint::Exact, DeltaConstraint::Farther);
    assert_ne!(TonePolarity::RelativeDarker, TonePolarity::RelativeLighter);
    assert_eq!(
        ThemeGenerationError::CouldNotExtractColorFromImage,
        ThemeGenerationError::CouldNotExtractColorFromImage
    );
}

#[test]
fn test_maybe_fallback_spec_version() {
    assert_eq!(maybe_fallback_spec_version(SpecVersion::Spec2026, Variant::Cmf), SpecVersion::Spec2026);
    assert_eq!(maybe_fallback_spec_version(SpecVersion::Spec2026, Variant::TonalSpot), SpecVersion::Spec2025);
    assert_eq!(maybe_fallback_spec_version(SpecVersion::Spec2025, Variant::Vibrant), SpecVersion::Spec2025);
    assert_eq!(maybe_fallback_spec_version(SpecVersion::Spec2021, Variant::Expressive), SpecVersion::Spec2021);
    assert_eq!(maybe_fallback_spec_version(SpecVersion::Spec2026, Variant::Fidelity), SpecVersion::Spec2021);
    assert_eq!(maybe_fallback_spec_version(SpecVersion::Spec2025, Variant::Monochrome), SpecVersion::Spec2021);
}

#[test]
fn color_spec_defaults_match_new() {
    assert_eq!(ColorSpec2021::default().override_spec, SpecVersion::Spec2021);
    assert_eq!(ColorSpec2025::default().base.override_spec, SpecVersion::Spec2021);
    let spec = ColorSpec2026::default();
    assert_eq!(spec.override_spec, SpecVersion::Spec2026);
    assert_eq!(spec.base.base.override_spec, SpecVersion::Spec2026);
}
