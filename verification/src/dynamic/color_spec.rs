use vstd::prelude::*;

verus! {

/// All available spec versions, ordered oldest to newest.
#[derive(Debug, Clone, Copy, PartialEq, Eq, Structural, PartialOrd, Ord, Hash)]
pub enum SpecVersion {
    Spec2021,
    Spec2025,
    Spec2026,
}

/// The device platform that the scheme is being generated for.
#[derive(Debug, Clone, Copy, PartialEq, Eq, Structural, Hash)]
pub enum Platform {
    Phone,
    Watch,
}

} // verus!
