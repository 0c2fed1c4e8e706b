use vstd::prelude::*;

verus! {

/// An image quantizer that improves on the speed of a standard K-Means algorithm by implementing
/// several optimizations, including deduping identical pixels and a triangle inequality rule that
/// reduces the number of comparisons needed to identify which cluster a point should be moved to.
///
/// Wsmeans stands for Weighted Square Means.
pub struct QuantizerWsmeans;

/// The multiplier of the 48-bit linear congruential generator.
pub open spec fn lcg_multiplier() -> int {
    0x5DEECE66D
}

/// `2^48`, the modulus of the generator.
pub open spec fn lcg_modulus() -> int {
    0x1_0000_0000_0000
}

/// The state that a seed is scrambled into.
pub open spec fn lcg_scramble(seed: u64) -> u64 {
    (seed ^ 0x5DEECE66Du64) & 0xFFFF_FFFF_FFFFu64
}

/// One step of the generator: `(a * s + 11) mod 2^48`.
pub open spec fn lcg_step(s: u64) -> u64 {
    ((s as int * lcg_multiplier() + 0xB) % lcg_modulus()) as u64
}

/// The `bits` high bits of a 48-bit state, as an `i32`.
pub open spec fn lcg_output(s: u64, bits: u32) -> i32 {
    (s >> ((48 - bits) as u32)) as i32
}

/// Whether `n` is a power of two, in the two's complement test `n & -n == n`.
pub open spec fn is_power_of_two(n: i32) -> bool {
    n & ((-n) as i32) == n
}

/// The outcome of one draw of `next_int` from 31 fresh bits: a value in `[0, n)`, or
/// `None` when the draw falls in the biased tail and must be repeated.
pub open spec fn draw_outcome(bits: i32, n: i32) -> Option<i32> {
    if is_power_of_two(n) {
        Some(((((n as u64) * (bits as u64)) as u64) >> 31u64) as i32)
    } else {
        let val = bits as int % n as int;
        if 0 <= bits - val + (n - 1) <= i32::MAX {
            Some(val as i32)
        } else {
            None
        }
    }
}

proof fn lemma_step_is_masked_wrapping(s: u64, t: u64)
    requires
        t as int == ((s as int * lcg_multiplier()) % 0x1_0000_0000_0000_0000 + 0xB)
            % 0x1_0000_0000_0000_0000,
    ensures
        t & 0xFFFF_FFFF_FFFFu64 == lcg_step(s),
        lcg_step(s) < lcg_modulus(),
{
    assert(t & 0xFFFF_FFFF_FFFFu64 == t % 0x1_0000_0000_0000u64) by (bit_vector);
    let x = s as int * lcg_multiplier();
    let big = 0x1_0000_0000_0000_0000int;
    vstd::arithmetic::div_mod::lemma_add_mod_noop(x, 0xB, big);
    vstd::arithmetic::div_mod::lemma_mod_twice(0xB, big);
    assert(t as int == (x + 0xB) % big);
    assert(0x1_0000_0000_0000int * 0x1_0000int == big);
    vstd::arithmetic::div_mod::lemma_mod_mod(x + 0xB, 0x1_0000_0000_0000, 0x1_0000);
    vstd::arithmetic::div_mod::lemma_mod_bound(x + 0xB, 0x1_0000_0000_0000);
}

/// Every accepted draw lies in `[0, n)`, for a positive bound `n` and 31 bits of state.
pub proof fn lemma_draw_outcome_in_range(bits: i32, n: i32)
    requires
        0 <= bits,
        0 < n,
    ensures
        draw_outcome(bits, n) matches Some(v) ==> 0 <= v < n,
{
    if is_power_of_two(n) {
        let p = ((n as u64) * (bits as u64)) as u64;
        assert((n as u64) * (bits as u64) < (n as u64) * 0x8000_0000u64) by (nonlinear_arith)
            requires 0 < n, 0 <= bits <= i32::MAX;
        vstd::bits::lemma_u64_shr_is_div(p, 31u64);
        vstd::arithmetic::power2::lemma2_to64();
        assert((p as int) / 0x8000_0000 < n as int) by (nonlinear_arith)
            requires (p as int) < (n as int) * 0x8000_0000, p >= 0;
    } else {
        vstd::arithmetic::div_mod::lemma_mod_bound(bits as int, n as int);
    }
}

/// A 48-bit linear congruential generator, the same sequence as `java.util.Random`, so that
/// quantization is reproducible.
pub struct Random(pub u64);

impl Random {
    /// A generator whose state is the scrambled seed.
    pub fn new(seed: u64) -> (r: Self)
        ensures
            r.0 == lcg_scramble(seed),
            r.0 < lcg_modulus(),
    {
        let s = (seed ^ 0x5DEECE66Du64) & 0xFFFF_FFFF_FFFFu64;
        assert((seed ^ 0x5DEECE66Du64) & 0xFFFF_FFFF_FFFFu64 < 0x1_0000_0000_0000u64)
            by (bit_vector);
        Self(s)
    }

    /// Advances the state one step and returns its `bits` high bits.
    pub fn next(&mut self, bits: u32) -> (r: i32)
        requires
            bits <= 48,
        ensures
            final(self).0 == lcg_step(old(self).0),
            final(self).0 < lcg_modulus(),
            r == lcg_output(final(self).0, bits),
    {
        let s = self.0;
        let t = s.wrapping_mul(0x5DEECE66Du64).wrapping_add(0xBu64);
        let ns = t & 0xFFFF_FFFF_FFFFu64;
        proof {
            lemma_step_is_masked_wrapping(s, t);
        }
        self.0 = ns;
        (ns >> (48 - bits)) as i32
    }

    /// One draw of `next_int`: takes 31 fresh bits and returns a value in `[0, n)`, or
    /// `None` when the bits fall in the tail that would bias the result and the draw must be
    /// repeated.
    pub fn draw_below(&mut self, n: i32) -> (r: Option<i32>)
        requires
            n != i32::MIN,
        ensures
            final(self).0 == lcg_step(old(self).0),
            r == draw_outcome(lcg_output(final(self).0, 31), n),
    {
        let bits = self.next(31);
        proof {
            let s = self.0;
            assert(s < 0x1_0000_0000_0000u64 ==> (s >> 17u32) <= 0x7FFF_FFFFu64) by (bit_vector);
            assert(s >> 17u32 == s >> ((48 - 31) as u32));
        }
        assert(0 <= bits);
        let neg: i32 = -n;
        if (n & neg) == n {
            assert(n & ((-n) as i32) == n ==> n >= 0) by (bit_vector)
                requires n != i32::MIN;
            assert((n as u64) * (bits as u64) <= 0x7FFF_FFFFu64 * 0x7FFF_FFFFu64) by (nonlinear_arith)
                requires 0 <= n, 0 <= bits;
            let p: u64 = n as u64 * bits as u64;
            assert(p >> 31u64 <= 0xFFFF_FFFF_FFFF_FFFFu64 >> 31u64) by (bit_vector);
            let q: u64 = p >> 31u64;
            assert(q <= 0x7FFF_FFFFu64) by (bit_vector)
                requires q == p >> 31u64, p <= 0x7FFF_FFFFu64 * 0x7FFF_FFFFu64;
            return Some(q as i32);
        }
        assert(n == 0 ==> n & ((-n) as i32) == n) by (bit_vector);
        let val: i32 = bits % n;
        assert(0 <= val <= bits) by (nonlinear_arith)
            requires val == bits as int % n as int, bits >= 0, n != 0;
        if (bits - val).wrapping_add(n - 1) >= 0 {
            Some(val)
        } else {
            None
        }
    }
}

} // verus!
