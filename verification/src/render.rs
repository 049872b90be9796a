//! Decoding a reassembled frame into presentable pixels.
//!
//! A frame buffer carries two 4-bit pixels per byte: the low nibble is the
//! earlier pixel, the high nibble the later one. Each nibble selects one
//! of 16 palette colors, and every decoded pixel is written at twice the
//! byte's offset in the destination; destination positions beyond either
//! buffer are left untouched rather than treated as an error.

use crate::constants::spec_colors_to_u32;
use crate::constants::colors_to_u32;
use vstd::prelude::*;

verus! {

/// Presentation surface dimensions handed over by the window layer.
pub struct Window {
    pub width: usize,
    pub height: usize,
}

/// The palette index of pixel `j`: the low nibble of byte `j / 2` for even
/// `j`, its high nibble for odd `j`.
pub open spec fn pixel_palette_index(data: Seq<u8>, j: int) -> u8
    recommends
        0 <= j,
        j / 2 < data.len(),
{
    if j % 2 == 0 {
        data[j / 2] & 0x0f
    } else {
        data[j / 2] >> 4
    }
}

/// The packed color of pixel `j` under the given palette.
pub open spec fn decoded_pixel(data: Seq<u8>, colors: [[u8; 4]; 16], j: int) -> u32
    recommends
        0 <= j,
        j / 2 < data.len(),
{
    spec_colors_to_u32(colors[pixel_palette_index(data, j) as int])
}

/// Expands a frame's nibble-packed bytes through a 16-entry palette into a
/// flat pixel buffer. Pixel `j` of the destination is written from byte
/// `j / 2` of the frame; positions past either buffer's end are skipped.
pub fn decode_frame(data: &[u8], colors: &[[u8; 4]; 16], frame: &mut Vec<u32>)
    ensures
        final(frame)@.len() == old(frame)@.len(),
        forall|j: int|
            0 <= j < final(frame)@.len() ==> final(frame)@[j] == if j < 2 * data@.len() {
                decoded_pixel(data@, *colors, j)
            } else {
                old(frame)@[j]
            },
{
    let n: usize = frame.len();
    for j in 0..n
        invariant
            n == frame@.len(),
            frame@.len() == old(frame)@.len(),
            forall|i: int|
                0 <= i < j ==> frame@[i] == if i < 2 * data@.len() {
                    decoded_pixel(data@, *colors, i)
                } else {
                    old(frame)@[i]
                },
            forall|i: int| j <= i < frame@.len() ==> frame@[i] == old(frame)@[i],
    {
        let pos = j / 2;
        if pos < data.len() {
            let byte = data[pos];
            let idx: u8 = if j % 2 == 0 {
                byte & 0x0f
            } else {
                byte >> 4
            };
            proof {
                assert((byte & 0x0f) < 16 && (byte >> 4) < 16) by (bit_vector);
            }
            frame.set(j, colors_to_u32(colors[idx as usize]));
        }
    }
}


/// The red, green and blue bytes of a 24-bit `0xRRGGBB` color value.
pub open spec fn rgb_bytes(color: u32) -> (u8, u8, u8) {
    (((color >> 16) & 0xFF) as u8, ((color >> 8) & 0xFF) as u8, (color & 0xFF) as u8)
}

/// Expands sixteen 24-bit `0xRRGGBB` values into the `[alpha, red, green,
/// blue]` palette form the pixel decoder consumes, with alpha zero.
pub fn palette_from_rgb(palette: &Vec<u32>) -> (colors: [[u8; 4]; 16])
    requires
        palette@.len() == 16,
    ensures
        forall|i: int| 0 <= i < 16 ==> #[trigger] colors[i][0] == 0u8,
        forall|i: int| 0 <= i < 16 ==> #[trigger] colors[i][1] == rgb_bytes(palette@[i]).0,
        forall|i: int| 0 <= i < 16 ==> #[trigger] colors[i][2] == rgb_bytes(palette@[i]).1,
        forall|i: int| 0 <= i < 16 ==> #[trigger] colors[i][3] == rgb_bytes(palette@[i]).2,
{
    let mut colors: [[u8; 4]; 16] = [[0u8; 4]; 16];
    for i in 0..16usize
        invariant
            palette@.len() == 16,
            forall|j: int| 0 <= j < i ==> #[trigger] colors[j][0] == 0u8,
            forall|j: int| 0 <= j < i ==> #[trigger] colors[j][1] == rgb_bytes(palette@[j]).0,
            forall|j: int| 0 <= j < i ==> #[trigger] colors[j][2] == rgb_bytes(palette@[j]).1,
            forall|j: int| 0 <= j < i ==> #[trigger] colors[j][3] == rgb_bytes(palette@[j]).2,
    {
        let color = palette[i];
        proof {
            assert((color >> 16) & 0xFF < 256 && (color >> 8) & 0xFF < 256 && color & 0xFF < 256)
                by (bit_vector);
        }
        let mut entry: [u8; 4] = [0u8; 4];
        entry[1] = ((color >> 16) & 0xFF) as u8;
        entry[2] = ((color >> 8) & 0xFF) as u8;
        entry[3] = (color & 0xFF) as u8;
        colors[i] = entry;
    }
    colors
}

} // verus!
