//! The pixel model: four 8-bit channels and the hash that selects a cache bucket.

use vstd::prelude::*;
use vstd::std_specs::convert::FromSpecImpl;

verus! {

/// One pixel: red, green, blue and alpha, eight bits each.
#[derive(Debug, Clone, Copy, PartialEq, Eq, Structural)]
pub struct RGBA {
    pub r: u8,
    pub g: u8,
    pub b: u8,
    pub a: u8,
}

/// The cache bucket of a pixel: `(r*3 + g*5 + b*7 + a*11) mod 64`.
pub open spec fn spec_hash(p: RGBA) -> int {
    (p.r * 3 + p.g * 5 + p.b * 7 + p.a * 11) % 64
}

/// Opaque black, the pixel every pass starts from.
pub open spec fn default_pixel() -> RGBA {
    RGBA { r: 0, g: 0, b: 0, a: 255 }
}

/// The pixel packed in a 32-bit word, red in the lowest byte and alpha in the highest.
pub open spec fn pixel_of_word(value: u32) -> RGBA {
    RGBA {
        r: (value % 256) as u8,
        g: (value / 0x100 % 256) as u8,
        b: (value / 0x1_0000 % 256) as u8,
        a: (value / 0x100_0000) as u8,
    }
}

impl RGBA {
    /// The default pixel: opaque black.
    pub fn new() -> (p: Self)
        ensures
            p == default_pixel(),
    {
        Self { r: 0, g: 0, b: 0, a: 0xFF }
    }

    /// The bucket of the color cache that this pixel falls into.
    pub fn hash(&self) -> (h: u8)
        ensures
            h == spec_hash(*self),
            h < 64,
    {
        let index: u32 = self.r as u32 * 3 + self.g as u32 * 5 + self.b as u32 * 7 + self.a as u32
            * 11;
        (index % 64) as u8
    }
}

impl From<u32> for RGBA {
    /// Unpacks a pixel from a 32-bit word (`0xAABBGGRR`).
    fn from(value: u32) -> (p: Self) {
        assert(value & 0xFF == value % 256) by (bit_vector);
        assert((value >> 8) & 0xFF == value / 0x100 % 256) by (bit_vector);
        assert((value >> 16) & 0xFF == value / 0x1_0000 % 256) by (bit_vector);
        assert((value >> 24) & 0xFF == value / 0x100_0000) by (bit_vector);
        let r = (value & 0xFF) as u8;
        let g = ((value >> 8) & 0xFF) as u8;
        let b = ((value >> 16) & 0xFF) as u8;
        let a = ((value >> 24) & 0xFF) as u8;
        Self { r, g, b, a }
    }
}

impl FromSpecImpl<u32> for RGBA {
    open spec fn obeys_from_spec() -> bool {
        true
    }

    open spec fn from_spec(value: u32) -> Self {
        pixel_of_word(value)
    }
}

impl From<&u32> for RGBA {
    /// Unpacks a pixel from a 32-bit word (`0xAABBGGRR`).
    fn from(value: &u32) -> (p: Self) {
        RGBA::from(*value)
    }
}

impl FromSpecImpl<&u32> for RGBA {
    open spec fn obeys_from_spec() -> bool {
        true
    }

    open spec fn from_spec(value: &u32) -> Self {
        pixel_of_word(*value)
    }
}

} // verus!
