use vstd::prelude::*;

verus! {

/// Utility methods for mathematical operations.
pub struct MathUtils;

/// The measure of `degrees` within one turn: the unique value in `[0, 360)` that differs
/// from `degrees` by a whole number of turns.
pub open spec fn spec_sanitize_degrees(degrees: int) -> int {
    degrees % 360
}

impl MathUtils {
    /// Sanitizes a degree measure as an integer.
    ///
    /// Returns a degree measure between 0 (inclusive) and 360 (exclusive).
    pub fn sanitize_degrees_int(degrees: i32) -> (r: i32)
        ensures
            r == spec_sanitize_degrees(degrees as int),
    {
        let mut d: i32 = degrees % 360;
        if d < 0 {
            d += 360;
        }
        d
    }
}

/// A sanitized degree measure lies in `[0, 360)` and differs from the input by a whole
/// number of turns.
pub proof fn lemma_sanitize_degrees_range(degrees: int)
    ensures
        0 <= spec_sanitize_degrees(degrees) < 360,
        (degrees - spec_sanitize_degrees(degrees)) % 360 == 0,
{
    let r = spec_sanitize_degrees(degrees);
    let k = degrees / 360;
    vstd::arithmetic::div_mod::lemma_fundamental_div_mod(degrees, 360);
    assert(degrees - r == 360 * k);
    vstd::arithmetic::div_mod::lemma_mod_multiples_basic(k, 360);
    assert(k * 360 == 360 * k) by (nonlinear_arith);
}

/// Sanitizing twice is the same as sanitizing once.
pub proof fn lemma_sanitize_degrees_idempotent(degrees: int)
    ensures
        spec_sanitize_degrees(spec_sanitize_degrees(degrees)) == spec_sanitize_degrees(degrees),
{
    lemma_sanitize_degrees_range(degrees);
}

/// Adding whole turns does not change the sanitized measure.
pub proof fn lemma_sanitize_degrees_periodic(degrees: int, turns: int)
    ensures
        spec_sanitize_degrees(degrees + 360 * turns) == spec_sanitize_degrees(degrees),
{
    vstd::arithmetic::div_mod::lemma_mod_multiples_vanish(turns, degrees, 360);
    assert(360 * turns + degrees == degrees + 360 * turns);
}

} // verus!
