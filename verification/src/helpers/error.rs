use vstd::prelude::*;

verus! {

/// Why a theme could not be generated.
#[derive(Debug, Clone, Copy, PartialEq, Eq, Structural)]
pub enum ThemeGenerationError {
    /// No color could be extracted from the image.
    CouldNotExtractColorFromImage,
}

} // verus!
