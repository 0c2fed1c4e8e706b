pub mod color_utils;
pub mod math_utils;
pub mod string_utils;
pub mod error;
