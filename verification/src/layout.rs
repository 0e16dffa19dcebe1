//! Byte layouts exchanged with an accelerated backend: rows padded to the
//! device's alignment, the palette as a one-row RGBA8 texture, and the
//! unpadding of pixels read back from the device.

use vstd::prelude::*;
use vstd::arithmetic::div_mod::*;
use crate::tiling::lemma_grid_position;

verus! {

/// The least multiple of `alignment` that is not below `value`.
pub open spec fn round_up(value: int, alignment: int) -> int {
    ((value + alignment - 1) / alignment) * alignment
}

/// `round_up` gives a multiple of the alignment, not below the value and
/// less than one alignment above it.
pub proof fn lemma_round_up(value: int, alignment: int)
    requires
        0 <= value,
        0 < alignment,
    ensures
        round_up(value, alignment) % alignment == 0,
        value <= round_up(value, alignment) < value + alignment,
{
    let q = (value + alignment - 1) / alignment;
    lemma_fundamental_div_mod(value + alignment - 1, alignment);
    lemma_mod_bound(value + alignment - 1, alignment);
    assert(alignment * q == q * alignment) by (nonlinear_arith);
    lemma_mod_multiples_basic(q, alignment);
}

/// Rounds `value` up to a multiple of `alignment`.
pub fn align_to(value: u32, alignment: u32) -> (aligned: u32)
    requires
        alignment > 0,
        round_up(value as int, alignment as int) <= u32::MAX,
    ensures
        aligned == round_up(value as int, alignment as int),
        aligned % alignment == 0,
        value <= aligned < value + alignment,
{
    proof {
        lemma_round_up(value as int, alignment as int);
    }
    let steps: u64 = (value as u64 + alignment as u64 - 1) / (alignment as u64);
    let aligned: u64 = steps * (alignment as u64);
    aligned as u32
}

/// The palette as the bytes of a texture row of `stride` bytes: four bytes
/// per entry, red, green, blue and an opaque alpha, then zeros.
pub open spec fn palette_row(palette: Seq<[u8; 3]>, stride: int) -> Seq<u8> {
    Seq::new(
        stride as nat,
        |j: int|
            if j / 4 < palette.len() {
                if j % 4 == 3 {
                    255u8
                } else {
                    palette[j / 4][j % 4]
                }
            } else {
                0u8
            },
    )
}

/// Packs the palette into one texture row whose length is the palette's
/// four bytes per entry, rounded up to the device's row alignment.
pub fn pack_palette_row(palette: &[[u8; 3]], alignment: u32) -> (row: Vec<u8>)
    requires
        alignment > 0,
        round_up(palette.len() * 4, alignment as int) <= u32::MAX,
    ensures
        row@ == palette_row(palette@, round_up(palette.len() * 4, alignment as int)),
{
    proof {
        lemma_round_up(palette.len() * 4, alignment as int);
    }
    let count: usize = palette.len();
    let stride: usize = align_to((count * 4) as u32, alignment) as usize;
    let mut row: Vec<u8> = Vec::new();
    let mut j: usize = 0;
    while j < stride
        invariant
            count == palette.len(),
            count * 4 <= stride,
            j <= stride,
            row@ == palette_row(palette@, j as int),
        decreases stride - j,
    {
        let entry: usize = j / 4;
        let channel: usize = j % 4;
        let byte: u8 = if entry < count {
            if channel == 3 {
                255u8
            } else {
                palette[entry][channel]
            }
        } else {
            0u8
        };
        row.push(byte);
        j = j + 1;
        assert(row@ =~= palette_row(palette@, j as int));
    }
    row
}

/// The pixels of a tile of `tile_w` by `tile_h` pixels, taken from rows that
/// are `bytes_per_row` bytes apart in `data`.
pub open spec fn unpadded(data: Seq<u8>, tile_w: u32, tile_h: u32, bytes_per_row: u32) -> Seq<u8> {
    Seq::new(
        (tile_w * tile_h * 4) as nat,
        |j: int| data[(j / (tile_w * 4)) * bytes_per_row + j % (tile_w * 4)],
    )
}

/// Strips the padding from the rows of a tile read back from the device.
pub fn unpad_rows(data: &[u8], tile_w: u32, tile_h: u32, bytes_per_row: u32) -> (pixels: Vec<u8>)
    requires
        tile_w * 4 <= bytes_per_row,
        tile_h * bytes_per_row <= data.len(),
    ensures
        pixels@ == unpadded(data@, tile_w, tile_h, bytes_per_row),
{
    let row_bytes: usize = (tile_w as usize) * 4;
    let padded: usize = bytes_per_row as usize;
    let rows: usize = tile_h as usize;
    let mut pixels: Vec<u8> = Vec::new();
    proof {
        assert(data@.len() == data.len() <= usize::MAX);
    }
    if row_bytes == 0 {
        assert(tile_w * tile_h * 4 == 0) by (nonlinear_arith)
            requires
                tile_w == 0,
        ;
        assert(pixels@ =~= unpadded(data@, tile_w, tile_h, bytes_per_row));
        return pixels;
    }
    let mut r: usize = 0;
    while r < rows
        invariant
            row_bytes == tile_w * 4,
            0 < row_bytes <= padded,
            padded == bytes_per_row,
            rows == tile_h,
            rows * padded <= data.len() <= usize::MAX,
            r <= rows,
            pixels@.len() == r * row_bytes,
            forall|j: int|
                0 <= j < pixels@.len() ==> #[trigger] pixels@[j] == data@[(j / (row_bytes as int))
                    * padded + j % (row_bytes as int)],
        decreases rows - r,
    {
        proof {
            assert((r + 1) * padded <= rows * padded) by (nonlinear_arith)
                requires
                    r + 1 <= rows,
                    0 <= padded,
            ;
            assert((r + 1) * padded == r * padded + padded) by (nonlinear_arith);
            assert(0 <= r * padded) by (nonlinear_arith)
                requires
                    0 <= r,
                    0 <= padded,
            ;
            assert((r + 1) * row_bytes == r * row_bytes + row_bytes) by (nonlinear_arith);
        }
        let start: usize = r * padded;
        let mut k: usize = 0;
        while k < row_bytes
            invariant
                0 < row_bytes <= padded,
                start == r * padded,
                start + padded <= data.len() <= usize::MAX,
                k <= row_bytes,
                pixels@.len() == r * row_bytes + k,
                forall|j: int|
                    0 <= j < pixels@.len() ==> #[trigger] pixels@[j] == data@[(j / (
                    row_bytes as int)) * padded + j % (row_bytes as int)],
            decreases row_bytes - k,
        {
            proof {
                lemma_grid_position(r as int, k as int, row_bytes as int);
            }
            pixels.push(data[start + k]);
            k = k + 1;
        }
        r = r + 1;
    }
    proof {
        assert(rows * row_bytes == tile_w * tile_h * 4) by (nonlinear_arith)
            requires
                rows == tile_h,
                row_bytes == tile_w * 4,
        ;
        assert(pixels@ =~= unpadded(data@, tile_w, tile_h, bytes_per_row));
    }
    pixels
}

} // verus!
