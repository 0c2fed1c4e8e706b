pub use crate::dynamic::color_spec::{Platform, SpecVersion};
