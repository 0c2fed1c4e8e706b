use vstd::prelude::*;
use crate::utils::color_utils::{Argb, pack_rgb};

verus! {

/// The pixels of an image whose samples are laid out as `r, g, b` bytes, row after row: pixel
/// `i` is the opaque color of bytes `3i`, `3i + 1` and `3i + 2`. Bytes after the last whole
/// pixel are ignored.
pub fn pixels_from_rgb8(samples: &[u8]) -> (pixels: Vec<Argb>)
    ensures
        pixels@.len() == samples@.len() / 3,
        forall|i: int|
            0 <= i < pixels@.len() ==> #[trigger] pixels@[i].0 == pack_rgb(
                samples@[3 * i],
                samples@[3 * i + 1],
                samples@[3 * i + 2],
            ),
{
    let n = samples.len();
    let count = n / 3;
    let mut pixels: Vec<Argb> = Vec::with_capacity(count);
    let mut i: usize = 0;
    while i < count
        invariant
            n == samples@.len(),
            count == samples@.len() / 3,
            i <= count,
            pixels@.len() == i,
            forall|j: int|
                0 <= j < i ==> #[trigger] pixels@[j].0 == pack_rgb(
                    samples@[3 * j],
                    samples@[3 * j + 1],
                    samples@[3 * j + 2],
                ),
        decreases count - i,
    {
        assert(3 * i + 2 < samples@.len()) by (nonlinear_arith)
            requires
                i < count,
                count == samples@.len() / 3,
        ;
        let base = 3 * i;
        pixels.push(Argb::from_rgb(samples[base], samples[base + 1], samples[base + 2]));
        i += 1;
    }
    pixels
}

} // verus!
