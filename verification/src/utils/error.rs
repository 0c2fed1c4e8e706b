use vstd::prelude::*;

verus! {

/// `std::num::ParseIntError`, carried as the cause of an invalid hex string.
#[verifier::external_type_specification]
#[verifier::external_body]
pub struct ExParseIntError(std::num::ParseIntError);

/// Why a hex color string could not be read.
#[derive(Debug)]
pub enum ColorParseError {
    /// Hex string must be 6 or 8 characters (plus optional #).
    InvalidLength,
    /// Invalid hex characters.
    InvalidHex(std::num::ParseIntError),
}

} // verus!
