use vstd::prelude::*;

verus! {

/// Describes how to fulfill a tone delta pair constraint.
///
/// Determines if the delta is a minimum, maximum, or exact tonal distance that must be maintained.
#[derive(Debug, Clone, Copy, PartialEq, Eq, Structural)]
pub enum DeltaConstraint {
    /// The tone of roleA must be an exact delta away from the tone of roleB.
    Exact,
    /// The tonal distance of roleA and roleB must be at most delta.
    Nearer,
    /// The tonal distance of roleA and roleB must be at least delta.
    Farther,
}

/// Describes the relationship in lightness between two colors.
///
/// `RelativeDarker` and `RelativeLighter` describe the tone adjustment relative to the surface
/// color trend (white in light mode; black in dark mode).
#[derive(Debug, Clone, Copy, PartialEq, Eq, Structural)]
pub enum TonePolarity {
    /// The tone of roleA is always darker than the tone of roleB.
    Darker,
    /// The tone of roleA is always lighter than the tone of roleB.
    Lighter,
    /// The tone of roleA is darker than the tone of roleB in light mode, and lighter than the tone
    /// of roleB in dark mode.
    RelativeDarker,
    /// The tone of roleA is lighter than the tone of roleB in light mode, and darker than the tone
    /// of roleB in dark mode.
    RelativeLighter,
}

} // verus!
