use vstd::prelude::*;

verus! {

/// A color in the ARGB color space, packed as `0xAARRGGBB`.
#[derive(Clone, Copy, PartialEq, Eq, Structural, Hash, Debug)]
pub struct Argb(pub u32);

/// The 8-bit channel of `v` whose lowest bit is bit `shift`.
pub open spec fn channel(v: u32, shift: u32) -> u8 {
    ((v >> shift) & 0xFFu32) as u8
}

/// The packed value of an opaque color with the given red, green and blue channels.
pub open spec fn pack_rgb(red: u8, green: u8, blue: u8) -> u32 {
    0xFF000000u32 | ((red as u32) << 16u32) | ((green as u32) << 8u32) | (blue as u32)
}

/// The packed value of a color with the given four channels.
pub open spec fn pack_argb(alpha: u8, red: u8, green: u8, blue: u8) -> u32 {
    ((alpha as u32) << 24u32) | ((red as u32) << 16u32) | ((green as u32) << 8u32) | (blue as u32)
}

impl Argb {
    /// The alpha channel, bits 24..32.
    pub open spec fn spec_alpha(self) -> u8 {
        channel(self.0, 24)
    }

    /// The red channel, bits 16..24.
    pub open spec fn spec_red(self) -> u8 {
        channel(self.0, 16)
    }

    /// The green channel, bits 8..16.
    pub open spec fn spec_green(self) -> u8 {
        channel(self.0, 8)
    }

    /// The blue channel, bits 0..8.
    pub open spec fn spec_blue(self) -> u8 {
        channel(self.0, 0)
    }

    /// Converts a color from RGB components to ARGB format; the result is opaque.
    pub fn from_rgb(red: u8, green: u8, blue: u8) -> (c: Self)
        ensures
            c.0 == pack_rgb(red, green, blue),
    {
        Argb(0xFF000000u32 | ((red as u32) << 16u32) | ((green as u32) << 8u32) | (blue as u32))
    }

    /// Returns the alpha component of a color.
    pub fn alpha(&self) -> (a: u8)
        ensures
            a == self.spec_alpha(),
    {
        ((self.0 >> 24u32) & 0xFFu32) as u8
    }

    /// Returns the red component of a color.
    pub fn red(&self) -> (r: u8)
        ensures
            r == self.spec_red(),
    {
        ((self.0 >> 16u32) & 0xFFu32) as u8
    }

    /// Returns the green component of a color.
    pub fn green(&self) -> (g: u8)
        ensures
            g == self.spec_green(),
    {
        ((self.0 >> 8u32) & 0xFFu32) as u8
    }

    /// Returns the blue component of a color.
    pub fn blue(&self) -> (b: u8)
        ensures
            b == self.spec_blue(),
    {
        let v = self.0;
        assert(v >> 0u32 == v) by (bit_vector);
        (v & 0xFFu32) as u8
    }

    /// Returns whether a color is opaque, that is whether its alpha channel is 255.
    pub fn is_opaque(&self) -> (o: bool)
        ensures
            o == (self.spec_alpha() == 255),
    {
        self.alpha() == 255
    }
}

/// Reading the channels of a color built by `from_rgb` gives back its arguments, and the
/// color is opaque.
pub proof fn lemma_from_rgb_channels(red: u8, green: u8, blue: u8)
    ensures
        Argb(pack_rgb(red, green, blue)).spec_red() == red,
        Argb(pack_rgb(red, green, blue)).spec_green() == green,
        Argb(pack_rgb(red, green, blue)).spec_blue() == blue,
        Argb(pack_rgb(red, green, blue)).spec_alpha() == 255,
{
    assert(((0xFF000000u32 | ((red as u32) << 16u32) | ((green as u32) << 8u32) | (blue as u32))
        >> 16u32) & 0xFFu32 == red as u32) by (bit_vector);
    assert(((0xFF000000u32 | ((red as u32) << 16u32) | ((green as u32) << 8u32) | (blue as u32))
        >> 8u32) & 0xFFu32 == green as u32) by (bit_vector);
    assert(((0xFF000000u32 | ((red as u32) << 16u32) | ((green as u32) << 8u32) | (blue as u32))
        >> 0u32) & 0xFFu32 == blue as u32) by (bit_vector);
    assert(((0xFF000000u32 | ((red as u32) << 16u32) | ((green as u32) << 8u32) | (blue as u32))
        >> 24u32) & 0xFFu32 == 0xFFu32) by (bit_vector);
}

/// A color is determined by its four channels: packing them back yields the same value.
pub proof fn lemma_channels_determine_color(c: Argb)
    ensures
        pack_argb(c.spec_alpha(), c.spec_red(), c.spec_green(), c.spec_blue()) == c.0,
{
    let v = c.0;
    assert(((((v >> 24u32) & 0xFFu32) as u8) as u32) << 24u32 | ((((v >> 16u32) & 0xFFu32) as u8)
        as u32) << 16u32 | ((((v >> 8u32) & 0xFFu32) as u8) as u32) << 8u32 | ((((v >> 0u32)
        & 0xFFu32) as u8) as u32) == v) by (bit_vector);
}

/// An opaque color is rebuilt exactly by `from_rgb` from its red, green and blue channels.
pub proof fn lemma_opaque_from_rgb_round_trip(c: Argb)
    requires
        c.spec_alpha() == 255,
    ensures
        pack_rgb(c.spec_red(), c.spec_green(), c.spec_blue()) == c.0,
{
    let v = c.0;
    assert(((v >> 24u32) & 0xFFu32) as u8 == 255u8 ==> 0xFF000000u32 | ((((v >> 16u32) & 0xFFu32)
        as u8) as u32) << 16u32 | ((((v >> 8u32) & 0xFFu32) as u8) as u32) << 8u32 | ((((v
        >> 0u32) & 0xFFu32) as u8) as u32) == v) by (bit_vector);
}

impl From<u32> for Argb {
    /// The color packed in `value`.
    fn from(value: u32) -> (c: Self) {
        Self(value)
    }
}

impl vstd::std_specs::convert::FromSpecImpl<u32> for Argb {
    open spec fn obeys_from_spec() -> bool {
        true
    }

    open spec fn from_spec(value: u32) -> Argb {
        Argb(value)
    }
}

impl From<Argb> for u32 {
    /// The packed value of a color.
    fn from(argb: Argb) -> (v: Self) {
        argb.0
    }
}

impl vstd::std_specs::convert::FromSpecImpl<Argb> for u32 {
    open spec fn obeys_from_spec() -> bool {
        true
    }

    open spec fn from_spec(argb: Argb) -> u32 {
        argb.0
    }
}

/// Color science utilities.
pub struct ColorUtils;

} // verus!
