pub mod color_spec;
pub mod color_spec_2021;
pub mod color_spec_2026;
pub mod color_specs;
pub mod dynamic_scheme;
