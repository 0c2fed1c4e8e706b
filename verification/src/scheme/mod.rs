use vstd::prelude::*;

verus! {

/// A Dynamic Color theme with 2 source colors.
pub struct SchemeCmf;

/// A playful theme - the source color's hue does not appear in the theme.
pub struct SchemeExpressive;

/// A calm theme, sedated colors that aren't particularly chromatic.
pub struct SchemeTonalSpot;

} // verus!
