//! Protocol and presentation constants: the frame geometry the source
//! hardware emits and the default 16-entry color palette.

use vstd::prelude::*;

verus! {

/// Pixels per scan line of a decoded frame.
pub const WIDTH: usize = 384;

/// Scan lines of a decoded frame.
pub const HEIGHT: usize = 272;

/// The packed value of an ARGB color: one byte per component, alpha in
/// the highest byte.
pub open spec fn spec_colors_to_u32(color: [u8; 4]) -> u32 {
    (color[0] * 0x1000000 + color[1] * 0x10000 + color[2] * 0x100 + color[3]) as u32
}

/// Packs an `[alpha, red, green, blue]` color into one `u32` pixel value.
pub fn colors_to_u32(color: [u8; 4]) -> (pixel: u32)
    ensures
        pixel == spec_colors_to_u32(color),
{
    color[0] as u32 * 0x1000000 + color[1] as u32 * 0x10000 + color[2] as u32 * 0x100
        + color[3] as u32
}

/// The default palette: 16 ARGB colors (alpha zero), one per 4-bit pixel
/// index, matching the source hardware's color set.
pub const COLORS: [[u8; 4]; 16] = [
    [0x00, 0x00, 0x00, 0x00],
    [0x00, 0xFF, 0xFF, 0xFF],
    [0x00, 0x68, 0x37, 0x2B],
    [0x00, 0x70, 0xA4, 0xB2],
    [0x00, 0x6F, 0x3D, 0x86],
    [0x00, 0x58, 0x8D, 0x43],
    [0x00, 0x35, 0x28, 0x79],
    [0x00, 0xB8, 0xC7, 0x6F],
    [0x00, 0x6F, 0x4F, 0x25],
    [0x00, 0x43, 0x39, 0x00],
    [0x00, 0x9A, 0x67, 0x59],
    [0x00, 0x44, 0x44, 0x44],
    [0x00, 0x6C, 0x6C, 0x6C],
    [0x00, 0x9A, 0xD2, 0x84],
    [0x00, 0x6C, 0x5E, 0xB5],
    [0x00, 0x95, 0x95, 0x95],
];

} // verus!
