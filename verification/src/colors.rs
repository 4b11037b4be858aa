//! Colors given as `0xRRGGBB` numbers: their red, green and blue bytes.

use vstd::prelude::*;

verus! {

/// The red, green and blue bytes of `0xRRGGBB` (higher bits ignored).
pub open spec fn channels_of(hex: u32) -> (u8, u8, u8) {
    (((hex / 65536) % 256) as u8, ((hex / 256) % 256) as u8, (hex % 256) as u8)
}

/// The red, green and blue bytes of a hex color.
pub fn hex_channels(hex: u32) -> (c: (u8, u8, u8))
    ensures
        c == channels_of(hex),
{
    (((hex / 65536) % 256) as u8, ((hex / 256) % 256) as u8, (hex % 256) as u8)
}

} // verus!
