pub mod error;
pub mod image_extraction_helpers;
