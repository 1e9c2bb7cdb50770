//! Pixel packing.

use vstd::prelude::*;

verus! {

/// Pack 8-bit RGB into RGB565: the five, six and five most significant bits of the channels.
pub fn rgb565(r: u8, g: u8, b: u8) -> (v: u16)
    ensures
        v == 2048 * (r / 8) + 32 * (g / 4) + b / 8,
{
    2048 * (r as u16 / 8) + 32 * (g as u16 / 4) + b as u16 / 8
}

} // verus!
