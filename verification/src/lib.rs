//! Material color utilities: packed ARGB colors, hue arithmetic, hex formatting,
//! the integer machinery of the image quantizers, and the enumerations that
//! describe dynamic color schemes.
pub mod blend;
pub mod contrast;
pub mod dislike;
pub mod dynamic;
pub mod dynamiccolor;
pub mod helpers;
pub mod quantize;
pub mod score;
pub mod scheme;
pub mod utils;
