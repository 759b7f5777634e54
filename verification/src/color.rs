//! Pixel colors: an exact triple of 8-bit channels (red, green, blue).
//!
//! Canvas colors are always fully opaque RGB; an alpha channel may be
//! accepted on the wire but is never stored.

use vstd::prelude::*;

verus! {

/// One pixel color: red, green and blue channels, in that order.
#[derive(Debug, Clone, Copy, PartialEq, Eq, Structural)]
pub struct Color(pub u8, pub u8, pub u8);

impl Color {
    /// The color every canvas pixel starts out as, and the one reported for
    /// out-of-range reads.
    pub fn black() -> (r: Color)
        ensures
            r == (Color(0, 0, 0)),
    {
        Color(0, 0, 0)
    }

    /// Unpacks a color from a 32-bit value laid out as little-endian bytes:
    /// red in the lowest byte, then green, then blue; the highest byte is
    /// ignored.
    pub fn from_u32(src: u32) -> (r: Color)
        ensures
            r.0 == src % 256,
            r.1 == (src / 0x100) % 256,
            r.2 == (src / 0x10000) % 256,
    {
        let red: u8 = (src & 0xff) as u8;
        let green: u8 = ((src >> 8) & 0xff) as u8;
        let blue: u8 = ((src >> 16) & 0xff) as u8;
        proof {
            assert(
                (src & 0xff) == src % 256
                && ((src >> 8) & 0xff) == (src / 0x100) % 256
                && ((src >> 16) & 0xff) == (src / 0x10000) % 256
            ) by (bit_vector);
        }
        Color(red, green, blue)
    }

    /// Packs the three channels back into a 32-bit value, red in the lowest
    /// byte; the highest byte is zero.
    pub fn to_u32(self) -> (r: u32)
        ensures
            r == self.0 + self.1 * 0x100 + self.2 * 0x10000,
    {
        let packed: u32 = (self.0 as u32) | ((self.1 as u32) << 8) | ((self.2 as u32) << 16);
        proof {
            let a = self.0;
            let b = self.1;
            let c = self.2;
            assert(
                ((a as u32) | ((b as u32) << 8) | ((c as u32) << 16))
                    == a + b * 0x100 + c * 0x10000
            ) by (bit_vector);
        }
        packed
    }
}

} // verus!
