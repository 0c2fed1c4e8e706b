pub mod color_spec;
pub mod color_spec_2021;
pub mod color_spec_2025;
pub mod color_spec_2026;
pub mod color_specs;
pub mod tone_delta_pair;
pub mod variant;
