//! Rendering a frame pixel by pixel.
//!
//! What a pixel looks like is the caller's business: a function from the
//! pixel's frame coordinates to a colour. This module calls it for each
//! pixel of each tile and assembles the frame. The function never learns
//! which tile a pixel belongs to, so the frame cannot depend on the tiling.
//!
//! The pixels of a tile are gathered in an image buffer of the `image`
//! crate. What this module takes for granted about that buffer is stated at
//! `grid_new`, `grid_put` and `grid_into_raw`.

use vstd::prelude::*;
use vstd::arithmetic::div_mod::*;
use crate::compose::{
    blank_frame, compose, lemma_byte_index, lemma_compose_len, lemma_compose_pixel,
    lemma_tile_within_frame_bytes, FrameAssembler,
};
use crate::tiling::{
    lemma_grid_position, lemma_plan_partitions_frame, lemma_plan_within_frame, tile_index_of,
    tile_plan, TileInfo,
};

verus! {

/// An opaque colour, eight bits per channel.
#[derive(Clone, Copy, Debug, PartialEq, Eq, Structural)]
pub struct Rgb {
    pub r: u8,
    pub g: u8,
    pub b: u8,
}

/// The colour of the `p`-th pixel of an RGBA8 buffer.
pub open spec fn rgb_at(pixels: Seq<u8>, p: int) -> Rgb {
    Rgb { r: pixels[4 * p], g: pixels[4 * p + 1], b: pixels[4 * p + 2] }
}

/// Whether `pixels` is a rendering of the tile by `shade`: row-major RGBA8,
/// every pixel opaque and of a colour that `shade` returns for the pixel's
/// frame coordinates.
pub open spec fn shaded<F: Fn(u32, u32) -> Rgb>(shade: F, tile: TileInfo, pixels: Seq<u8>) -> bool {
    &&& pixels.len() == tile.byte_len()
    &&& forall|p: int|
        0 <= p < tile.tile_w * tile.tile_h ==> {
            &&& call_ensures(
                shade,
                (
                    (tile.offset_x + p % (tile.tile_w as int)) as u32,
                    (tile.offset_y + p / (tile.tile_w as int)) as u32,
                ),
                #[trigger] rgb_at(pixels, p),
            )
            &&& pixels[4 * p + 3] == 255
        }
}

/// The pixels of one tile while they are rendered: an RGBA8 image buffer of
/// the `image` crate.
#[verifier::external_body]
pub struct PixelGrid {
    buffer: image::ImageBuffer<image::Rgba<u8>, Vec<u8>>,
}

/// The bytes that the buffer of a grid holds, in the buffer's own order.
pub uninterp spec fn grid_bytes(grid: PixelGrid) -> Seq<u8>;

/// The width and the height in pixels with which the buffer of a grid was
/// made.
pub uninterp spec fn grid_size(grid: PixelGrid) -> (u32, u32);

/// `image::ImageBuffer::new` for RGBA8 pixels. The new buffer has the given
/// size and four bytes per pixel, all of them zero. The outside function
/// multiplies four by the width and then by the height and panics where one
/// of the two products overflows a `usize`, which the precondition rules
/// out.
#[verifier::external_body]
fn grid_new(width: u32, height: u32) -> (grid: PixelGrid)
    requires
        4 * width <= usize::MAX,
        4 * width * height <= usize::MAX,
    ensures
        grid_size(grid) == (width, height),
        grid_bytes(grid) == Seq::new((width * height * 4) as nat, |i: int| 0u8),
{
    PixelGrid { buffer: image::ImageBuffer::new(width, height) }
}

/// `image::ImageBuffer::put_pixel` with an `image::Rgba` pixel. The buffer
/// is row-major with four bytes per pixel, and the call writes the four
/// channels of pixel `(x, y)` in the order red, green, blue, alpha and
/// nothing else. The outside function panics on a pixel outside the buffer,
/// which the precondition rules out.
#[verifier::external_body]
fn grid_put(grid: &mut PixelGrid, x: u32, y: u32, r: u8, g: u8, b: u8, a: u8)
    requires
        x < grid_size(*old(grid)).0,
        y < grid_size(*old(grid)).1,
    ensures
        grid_size(*final(grid)) == grid_size(*old(grid)),
        grid_bytes(*final(grid)) == grid_bytes(*old(grid)).update(
            (y * grid_size(*old(grid)).0 + x) * 4,
            r,
        ).update((y * grid_size(*old(grid)).0 + x) * 4 + 1, g).update(
            (y * grid_size(*old(grid)).0 + x) * 4 + 2,
            b,
        ).update((y * grid_size(*old(grid)).0 + x) * 4 + 3, a),
{
    grid.buffer.put_pixel(x, y, image::Rgba([r, g, b, a]));
}

/// `image::ImageBuffer::into_raw`: hands over the buffer's bytes as they
/// are.
#[verifier::external_body]
fn grid_into_raw(grid: PixelGrid) -> (bytes: Vec<u8>)
    ensures
        bytes@ == grid_bytes(grid),
{
    grid.buffer.into_raw()
}

/// Renders one tile: asks `shade` for the colour of each pixel of the tile,
/// row by row, by the pixel's coordinates in the frame.
pub fn render_tile_with<F: Fn(u32, u32) -> Rgb>(tile: &TileInfo, shade: &F) -> (pixels: Vec<u8>)
    requires
        tile.offset_x + tile.tile_w <= u32::MAX,
        tile.offset_y + tile.tile_h <= u32::MAX,
        tile.byte_len() <= usize::MAX,
        forall|x: u32, y: u32|
            tile.contains(x as int, y as int) ==> #[trigger] call_requires(shade, (x, y)),
    ensures
        shaded(shade, *tile, pixels@),
{
    let tw: u32 = tile.tile_w;
    let th: u32 = tile.tile_h;
    if tw == 0 || th == 0 {
        assert(tw * th == 0) by (nonlinear_arith)
            requires
                tw == 0 || th == 0,
        ;
        return Vec::new();
    }
    proof {
        assert(4 * tw <= 4 * tw * th) by (nonlinear_arith)
            requires
                0 <= tw,
                1 <= th,
        ;
        assert(4 * tw * th == tw * th * 4) by (nonlinear_arith);
    }
    let mut grid = grid_new(tw, th);
    let mut y: u32 = 0;
    while y < th
        invariant
            tw == tile.tile_w,
            th == tile.tile_h,
            tile.offset_x + tw <= u32::MAX,
            tile.offset_y + th <= u32::MAX,
            forall|x: u32, y: u32|
                tile.contains(x as int, y as int) ==> #[trigger] call_requires(shade, (x, y)),
            y <= th,
            grid_size(grid) == (tw, th),
            grid_bytes(grid).len() == tw * th * 4,
            forall|p: int|
                0 <= p < y * tw ==> {
                    &&& call_ensures(
                        shade,
                        (
                            (tile.offset_x + p % (tw as int)) as u32,
                            (tile.offset_y + p / (tw as int)) as u32,
                        ),
                        #[trigger] rgb_at(grid_bytes(grid), p),
                    )
                    &&& grid_bytes(grid)[4 * p + 3] == 255
                },
        decreases th - y,
    {
        let mut x: u32 = 0;
        while x < tw
            invariant
                tw == tile.tile_w,
                th == tile.tile_h,
                tile.offset_x + tw <= u32::MAX,
                tile.offset_y + th <= u32::MAX,
                forall|x: u32, y: u32|
                    tile.contains(x as int, y as int) ==> #[trigger] call_requires(shade, (x, y)),
                y < th,
                x <= tw,
                grid_size(grid) == (tw, th),
                grid_bytes(grid).len() == tw * th * 4,
                forall|p: int|
                    0 <= p < y * tw + x ==> {
                        &&& call_ensures(
                            shade,
                            (
                                (tile.offset_x + p % (tw as int)) as u32,
                                (tile.offset_y + p / (tw as int)) as u32,
                            ),
                            #[trigger] rgb_at(grid_bytes(grid), p),
                        )
                        &&& grid_bytes(grid)[4 * p + 3] == 255
                    },
            decreases tw - x,
        {
            let ghost before = grid_bytes(grid);
            let ghost here = y * tw + x;
            let colour = shade(tile.offset_x + x, tile.offset_y + y);
            proof {
                assert(0 <= here < tw * th) by (nonlinear_arith)
                    requires
                        here == y * tw + x,
                        0 <= x < tw,
                        0 <= y < th,
                ;
            }
            grid_put(&mut grid, x, y, colour.r, colour.g, colour.b, 255u8);
            proof {
                let after = grid_bytes(grid);
                lemma_grid_position(y as int, x as int, tw as int);
                assert forall|p: int| 0 <= p < here + 1 implies {
                    &&& call_ensures(
                        shade,
                        (
                            (tile.offset_x + p % (tw as int)) as u32,
                            (tile.offset_y + p / (tw as int)) as u32,
                        ),
                        #[trigger] rgb_at(after, p),
                    )
                    &&& after[4 * p + 3] == 255
                } by {
                    if p < here {
                        assert(rgb_at(after, p) == rgb_at(before, p));
                        assert(after[4 * p + 3] == before[4 * p + 3]);
                    } else {
                        assert(rgb_at(after, p) == colour);
                    }
                }
            }
            x = x + 1;
        }
        proof {
            assert((y + 1) * tw == y * tw + tw) by (nonlinear_arith);
        }
        y = y + 1;
    }
    proof {
        assert(th * tw == tile.tile_w * tile.tile_h) by (nonlinear_arith)
            requires
                tw == tile.tile_w,
                th == tile.tile_h,
        ;
    }
    grid_into_raw(grid)
}

/// Tiles rendered by one `shade` compose to what `shade` renders for the
/// whole frame: in the composited frame every pixel is opaque and of a
/// colour that `shade` returns for its coordinates, whatever the tile size.
pub proof fn lemma_compose_shaded<F: Fn(u32, u32) -> Rgb>(
    width: u32,
    height: u32,
    tile_size: u32,
    shade: F,
    buffers: Seq<Seq<u8>>,
)
    requires
        buffers.len() == tile_plan(width, height, tile_size).len(),
        forall|k: int|
            0 <= k < buffers.len() ==> shaded(
                shade,
                #[trigger] tile_plan(width, height, tile_size)[k],
                buffers[k],
            ),
    ensures
        shaded(
            shade,
            TileInfo::spec_full(width, height),
            compose(
                blank_frame(width, height),
                width as int,
                tile_plan(width, height, tile_size),
                buffers,
            ),
        ),
{
    let plan = tile_plan(width, height, tile_size);
    let blank = blank_frame(width, height);
    let frame = compose(blank, width as int, plan, buffers);
    let w = width as int;
    lemma_compose_len(blank, w, plan, buffers);
    assert forall|p: int| 0 <= p < width * height implies {
        &&& call_ensures(shade, ((p % w) as u32, (p / w) as u32), #[trigger] rgb_at(frame, p))
        &&& frame[4 * p + 3] == 255
    } by {
        if w == 0 {
            assert(width * height == 0) by (nonlinear_arith)
                requires
                    width == 0,
            ;
        }
        lemma_fundamental_div_mod(p, w);
        lemma_mod_bound(p, w);
        lemma_div_pos_is_pos(p, w);
        let x = p % w;
        let y = p / w;
        if y >= height {
            assert(w * y >= w * height) by (nonlinear_arith)
                requires
                    y >= height,
                    0 < w,
            ;
        }
        lemma_plan_partitions_frame(width, height, tile_size, x, y);
        let k = tile_index_of(width, height, tile_size, x, y);
        let t = plan[k];
        lemma_plan_within_frame(width, height, tile_size, k);
        let tw = t.tile_w as int;
        let lx = x - t.offset_x;
        let ly = y - t.offset_y;
        let q = ly * tw + lx;
        lemma_grid_position(ly, lx, tw);
        assert(0 <= q < t.tile_w * t.tile_h) by (nonlinear_arith)
            requires
                q == ly * tw + lx,
                0 <= lx < tw,
                0 <= ly < t.tile_h,
                tw == t.tile_w,
        ;
        assert(shaded(shade, t, buffers[k]));
        assert(call_ensures(
            shade,
            ((t.offset_x + q % tw) as u32, (t.offset_y + q / tw) as u32),
            rgb_at(buffers[k], q),
        ));
        assert(w * y == y * w) by (nonlinear_arith);
        assert(4 * p + 3 < width * height * 4) by (nonlinear_arith)
            requires
                0 <= p < width * height,
        ;
        lemma_byte_index(w, x, y, 0);
        lemma_compose_pixel(blank, w, plan, buffers, 4 * p, k);
        lemma_byte_index(w, x, y, 1);
        lemma_compose_pixel(blank, w, plan, buffers, 4 * p + 1, k);
        lemma_byte_index(w, x, y, 2);
        lemma_compose_pixel(blank, w, plan, buffers, 4 * p + 2, k);
        lemma_byte_index(w, x, y, 3);
        lemma_compose_pixel(blank, w, plan, buffers, 4 * p + 3, k);
        assert(frame[4 * p] == buffers[k][4 * q]);
        assert(frame[4 * p + 1] == buffers[k][4 * q + 1]);
        assert(frame[4 * p + 2] == buffers[k][4 * q + 2]);
        assert(frame[4 * p + 3] == buffers[k][4 * q + 3]);
        assert(rgb_at(frame, p) == rgb_at(buffers[k], q));
    }
}

/// Two renderings of one tile by a `shade` that returns one colour for each
/// pixel are the same bytes. With `render_frame_with`, whose result is a
/// rendering of the whole frame as one tile whatever the tile size, this
/// makes the frames of two tile sizes equal byte for byte.
pub proof fn lemma_shaded_unique<F: Fn(u32, u32) -> Rgb>(
    shade: F,
    tile: TileInfo,
    one: Seq<u8>,
    other: Seq<u8>,
)
    requires
        shaded(shade, tile, one),
        shaded(shade, tile, other),
        forall|x: u32, y: u32, a: Rgb, b: Rgb|
            #[trigger] call_ensures(shade, (x, y), a) && #[trigger] call_ensures(shade, (x, y), b)
                ==> a == b,
    ensures
        one == other,
{
    assert forall|i: int| 0 <= i < one.len() implies one[i] == other[i] by {
        let p = i / 4;
        lemma_fundamental_div_mod(i, 4);
        lemma_div_pos_is_pos(i, 4);
        assert(p < tile.tile_w * tile.tile_h);
        let a = rgb_at(one, p);
        let b = rgb_at(other, p);
        assert(a == b);
        assert(one[4 * p + 3] == other[4 * p + 3]);
    }
    assert(one =~= other);
}

/// Renders a frame of `width` by `height` pixels, tile by tile for the
/// requested tile size (zero leaves the choice to the tile plan).
///
/// The result does not depend on the tile size: every pixel is opaque and of
/// a colour that `shade` returns for its coordinates, which is what a single
/// tile spanning the frame would hold. There is no frame where its bytes
/// cannot be counted in a `usize`.
pub fn render_frame_with<F: Fn(u32, u32) -> Rgb>(
    width: u32,
    height: u32,
    tile_size: u32,
    shade: &F,
) -> (frame: Option<Vec<u8>>)
    requires
        forall|x: u32, y: u32| x < width && y < height ==> #[trigger] call_requires(shade, (x, y)),
    ensures
        frame.is_some() <==> width * height * 4 <= usize::MAX,
        frame.is_some() ==> shaded(shade, TileInfo::spec_full(width, height), frame.unwrap()@),
{
    let mut assembler = match FrameAssembler::new(width, height, tile_size) {
        Some(assembler) => assembler,
        None => {
            return None;
        },
    };
    loop
        invariant
            width * height * 4 <= usize::MAX,
            assembler.wf(),
            assembler.frame_width() == width,
            assembler.frame_height() == height,
            assembler.plan() == tile_plan(width, height, tile_size),
            assembler.received().len() <= assembler.plan().len(),
            forall|x: u32, y: u32| x < width && y < height ==> #[trigger] call_requires(shade, (x, y)),
            forall|k: int|
                0 <= k < assembler.received().len() ==> shaded(
                    shade,
                    #[trigger] tile_plan(width, height, tile_size)[k],
                    assembler.received()[k],
                ),
        ensures
            assembler.wf(),
            assembler.frame_width() == width,
            assembler.frame_height() == height,
            assembler.plan() == tile_plan(width, height, tile_size),
            assembler.received().len() == assembler.plan().len(),
            forall|k: int|
                0 <= k < assembler.received().len() ==> shaded(
                    shade,
                    #[trigger] tile_plan(width, height, tile_size)[k],
                    assembler.received()[k],
                ),
        decreases assembler.plan().len() - assembler.received().len(),
    {
        let tile = match assembler.next_tile() {
            Some(tile) => tile,
            None => {
                break ;
            },
        };
        proof {
            lemma_plan_within_frame(width, height, tile_size, assembler.received().len() as int);
            lemma_tile_within_frame_bytes(tile, width, height);
        }
        let pixels = render_tile_with(&tile, shade);
        let accepted = assembler.place(pixels.as_slice());
        assert(accepted);
    }
    proof {
        let plan = tile_plan(width, height, tile_size);
        assert(plan.take(plan.len() as int) =~= plan);
        lemma_compose_shaded(width, height, tile_size, shade, assembler.received());
    }
    Some(assembler.finish())
}

} // verus!
