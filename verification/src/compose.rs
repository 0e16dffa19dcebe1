//! Compositing of tile pixels into one frame buffer.
//!
//! Frames and tiles are row-major RGBA8: four bytes per pixel, rows from top
//! to bottom. The laws at the end of the file show that cutting a frame into
//! tiles leaves no trace in the composited bytes.

use vstd::prelude::*;
use vstd::arithmetic::div_mod::*;
use crate::tiling::{
    lemma_plan_partitions_frame, lemma_plan_within_frame, tile_index_of, tile_iterator, tile_plan,
    TileInfo,
};

verus! {

/// Position of channel `channel` of pixel `(x, y)` in a row-major RGBA8
/// buffer whose rows hold `row_width` pixels.
pub open spec fn byte_index(row_width: int, x: int, y: int, channel: int) -> int {
    (y * row_width + x) * 4 + channel
}

/// The target after the tile's pixels have been copied over its rectangle.
pub open spec fn blit(target: Seq<u8>, full_width: int, tile: TileInfo, pixels: Seq<u8>) -> Seq<u8> {
    Seq::new(
        target.len(),
        |i: int|
            {
                let x = (i / 4) % full_width;
                let y = (i / 4) / full_width;
                if tile.contains(x, y) {
                    pixels[byte_index(
                        tile.tile_w as int,
                        x - tile.offset_x,
                        y - tile.offset_y,
                        i % 4,
                    )]
                } else {
                    target[i]
                }
            },
    )
}

/// The target after the given tiles have been blitted in order, the `k`-th
/// tile with the `k`-th buffer.
pub open spec fn compose(
    target: Seq<u8>,
    full_width: int,
    tiles: Seq<TileInfo>,
    buffers: Seq<Seq<u8>>,
) -> Seq<u8>
    decreases tiles.len(),
{
    if tiles.len() == 0 {
        target
    } else {
        blit(
            compose(target, full_width, tiles.drop_last(), buffers.drop_last()),
            full_width,
            tiles.last(),
            buffers.last(),
        )
    }
}

/// A frame of `width` by `height` pixels with every byte zero.
pub open spec fn blank_frame(width: u32, height: u32) -> Seq<u8> {
    Seq::new((width * height * 4) as nat, |i: int| 0u8)
}

/// What a renderer that colours each pixel by its frame coordinates alone
/// writes for a tile: byte `channel` of pixel `(x, y)` is
/// `shade(x, y, channel)`.
pub open spec fn rendered(shade: spec_fn(int, int, int) -> u8, tile: TileInfo) -> Seq<u8> {
    Seq::new(
        tile.byte_len() as nat,
        |j: int|
            shade(
                tile.offset_x + (j / 4) % (tile.tile_w as int),
                tile.offset_y + (j / 4) / (tile.tile_w as int),
                j % 4,
            ),
    )
}

/// The buffers of such a renderer for each tile of a list.
pub open spec fn rendered_all(shade: spec_fn(int, int, int) -> u8, tiles: Seq<TileInfo>) -> Seq<
    Seq<u8>,
> {
    Seq::new(tiles.len(), |k: int| rendered(shade, tiles[k]))
}

/// Splits a byte position into pixel and channel, and the pixel into row and
/// column.
pub proof fn lemma_byte_position(row_width: int, i: int)
    requires
        0 < row_width,
        0 <= i,
    ensures
        0 <= (i / 4) % row_width < row_width,
        0 <= (i / 4) / row_width,
        0 <= i % 4 < 4,
        byte_index(row_width, (i / 4) % row_width, (i / 4) / row_width, i % 4) == i,
{
    lemma_fundamental_div_mod(i, 4);
    lemma_div_pos_is_pos(i, 4);
    lemma_fundamental_div_mod(i / 4, row_width);
    lemma_mod_bound(i / 4, row_width);
    lemma_div_pos_is_pos(i / 4, row_width);
    let y = (i / 4) / row_width;
    assert(row_width * y == y * row_width) by (nonlinear_arith);
}

/// The pixel and channel at the position that `byte_index` gives.
pub proof fn lemma_byte_index(row_width: int, x: int, y: int, channel: int)
    requires
        0 <= x < row_width,
        0 <= y,
        0 <= channel < 4,
    ensures
        0 <= byte_index(row_width, x, y, channel),
        (byte_index(row_width, x, y, channel) / 4) % row_width == x,
        (byte_index(row_width, x, y, channel) / 4) / row_width == y,
        byte_index(row_width, x, y, channel) % 4 == channel,
{
    let p = y * row_width + x;
    assert(0 <= y * row_width) by (nonlinear_arith)
        requires
            0 <= y,
            0 < row_width,
    ;
    lemma_fundamental_div_mod_converse(p * 4 + channel, 4, p, channel);
    assert(row_width * y == y * row_width) by (nonlinear_arith);
    lemma_fundamental_div_mod_converse(p, row_width, y, x);
}

/// The bytes of one row of a tile are contiguous in the frame, and in the
/// tile's own buffer they come in the same order.
proof fn lemma_tile_row(full_width: int, tile: TileInfo, row: int, i: int)
    requires
        tile.offset_x + tile.tile_w <= full_width,
        0 <= row,
        0 <= i,
        0 < tile.tile_w,
    ensures
        ({
            let x = (i / 4) % full_width;
            let y = (i / 4) / full_width;
            let start = byte_index(full_width, tile.offset_x as int, tile.offset_y + row, 0);
            &&& (y == tile.offset_y + row && tile.offset_x <= x < tile.offset_x + tile.tile_w) <==> (
            start <= i < start + tile.tile_w * 4)
            &&& start <= i < start + tile.tile_w * 4 ==> byte_index(
                tile.tile_w as int,
                x - tile.offset_x,
                row,
                i % 4,
            ) == row * tile.tile_w * 4 + (i - start)
        }),
{
    let x = (i / 4) % full_width;
    let y = (i / 4) / full_width;
    let ox = tile.offset_x as int;
    let tw = tile.tile_w as int;
    let line = tile.offset_y + row;
    let start = byte_index(full_width, ox, line, 0);
    lemma_byte_position(full_width, i);
    if start <= i < start + tw * 4 {
        let d = i - start;
        lemma_fundamental_div_mod(d, 4);
        lemma_div_pos_is_pos(d, 4);
        lemma_mod_bound(d, 4);
        let lx = d / 4;
        assert(lx < tw);
        lemma_byte_index(full_width, ox + lx, line, d % 4);
        assert(byte_index(full_width, ox + lx, line, d % 4) == i);
        assert(row * tw * 4 == (row * tw) * 4) by (nonlinear_arith);
    }
    if y == line && ox <= x < ox + tw {
        assert(i == (line * full_width + x) * 4 + i % 4);
    }
}

/// Bounds on where row `row` of a tile starts and ends, in the frame and in
/// the tile's own buffer.
proof fn lemma_row_bounds(fw: int, ox: int, oy: int, tw: int, th: int, row: int)
    requires
        0 <= ox,
        0 <= oy,
        0 < tw,
        ox + tw <= fw,
        0 <= row < th,
    ensures
        0 <= oy + row <= (oy + row) * fw,
        0 <= (oy + row) * fw + ox <= ((oy + row) * fw + ox) * 4,
        ((oy + row) * fw + ox) * 4 + tw * 4 <= (oy + th) * fw * 4,
        0 <= row * tw <= row * tw * 4,
        row * tw * 4 + tw * 4 <= tw * th * 4,
{
    assert(oy + row <= (oy + row) * fw) by (nonlinear_arith)
        requires
            0 <= oy + row,
            1 <= fw,
    ;
    assert((oy + row + 1) * fw <= (oy + th) * fw) by (nonlinear_arith)
        requires
            oy + row + 1 <= oy + th,
            0 <= fw,
    ;
    assert((oy + row + 1) * fw == (oy + row) * fw + fw) by (nonlinear_arith);
    assert(0 <= row * tw) by (nonlinear_arith)
        requires
            0 <= row,
            0 <= tw,
    ;
    assert((row + 1) * tw <= th * tw) by (nonlinear_arith)
        requires
            row + 1 <= th,
            0 <= tw,
    ;
    assert((row + 1) * tw == row * tw + tw) by (nonlinear_arith);
    assert(th * tw == tw * th) by (nonlinear_arith);
}

/// Copies the tile's pixels into its rectangle of the target frame, whose
/// rows hold `full_width` pixels, and leaves every other byte as it was.
///
/// An empty tile changes nothing. A tile with pixels has to lie within the
/// rows of the target, and `tile_pixels` has to hold all of its bytes.
pub fn blit_tile(target: &mut Vec<u8>, full_width: u32, tile: &TileInfo, tile_pixels: &[u8])
    requires
        tile.tile_w > 0 && tile.tile_h > 0 ==> {
            &&& tile.offset_x + tile.tile_w <= full_width
            &&& (tile.offset_y + tile.tile_h) * full_width * 4 <= old(target).len()
            &&& tile.byte_len() <= tile_pixels.len()
        },
    ensures
        final(target)@ == blit(old(target)@, full_width as int, *tile, tile_pixels@),
{
    if tile.tile_w == 0 || tile.tile_h == 0 {
        assert(target@ =~= blit(target@, full_width as int, *tile, tile_pixels@));
        return ;
    }
    let fw: usize = full_width as usize;
    let ox: usize = tile.offset_x as usize;
    let oy: usize = tile.offset_y as usize;
    let tw: usize = tile.tile_w as usize;
    let th: usize = tile.tile_h as usize;
    let ghost before = target@;
    let ghost pixels = tile_pixels@;
    proof {
        assert(before.len() == target.len() <= usize::MAX);
        assert(pixels.len() == tile_pixels.len() <= usize::MAX);
        assert((oy + th) * fw * 4 >= fw * 4) by (nonlinear_arith)
            requires
                oy + th >= 1,
                fw >= 0,
        ;
    }
    let row_len: usize = tw * 4;
    let mut ty: usize = 0;
    while ty < th
        invariant
            fw == full_width,
            ox == tile.offset_x,
            oy == tile.offset_y,
            tw == tile.tile_w,
            th == tile.tile_h,
            0 < tw,
            0 < th,
            ox + tw <= fw,
            (oy + th) * fw * 4 <= before.len() <= usize::MAX,
            tw * th * 4 <= pixels.len() <= usize::MAX,
            pixels == tile_pixels@,
            row_len == tw * 4,
            ty <= th,
            target@.len() == before.len(),
            forall|i: int|
                0 <= i < before.len() ==> #[trigger] target@[i] == ({
                    let x = (i / 4) % (fw as int);
                    let y = (i / 4) / (fw as int);
                    if tile.contains(x, y) && y < oy + ty {
                        pixels[byte_index(tw as int, x - ox, y - oy, i % 4)]
                    } else {
                        before[i]
                    }
                }),
        decreases th - ty,
    {
        proof {
            lemma_row_bounds(fw as int, ox as int, oy as int, tw as int, th as int, ty as int);
            assert forall|i: int| 0 <= i < before.len() implies #[trigger] target@[i] == ({
                let x = (i / 4) % (fw as int);
                let y = (i / 4) / (fw as int);
                if tile.contains(x, y) && (y < oy + ty || (y == oy + ty && i < ((oy + ty) * fw
                    + ox) * 4)) {
                    pixels[byte_index(tw as int, x - ox, y - oy, i % 4)]
                } else {
                    before[i]
                }
            }) by {
                lemma_tile_row(fw as int, *tile, ty as int, i);
            }
        }
        let dst: usize = ((oy + ty) * fw + ox) * 4;
        let src: usize = ty * tw * 4;
        let mut k: usize = 0;
        while k < row_len
            invariant
                fw == full_width,
                ox == tile.offset_x,
                oy == tile.offset_y,
                tw == tile.tile_w,
                th == tile.tile_h,
                0 < tw,
                ox + tw <= fw,
                pixels == tile_pixels@,
                row_len == tw * 4,
                ty < th,
                k <= row_len,
                dst == ((oy + ty) * fw + ox) * 4,
                src == ty * tw * 4,
                dst + row_len <= before.len() <= usize::MAX,
                src + row_len <= pixels.len() <= usize::MAX,
                target@.len() == before.len(),
                forall|i: int|
                    0 <= i < before.len() ==> #[trigger] target@[i] == ({
                        let x = (i / 4) % (fw as int);
                        let y = (i / 4) / (fw as int);
                        if tile.contains(x, y) && (y < oy + ty || (y == oy + ty && i < dst + k)) {
                            pixels[byte_index(tw as int, x - ox, y - oy, i % 4)]
                        } else {
                            before[i]
                        }
                    }),
            decreases row_len - k,
        {
            let ghost prior = target@;
            let value: u8 = tile_pixels[src + k];
            target.set(dst + k, value);
            proof {
                assert forall|i: int| 0 <= i < before.len() implies #[trigger] target@[i] == ({
                    let x = (i / 4) % (fw as int);
                    let y = (i / 4) / (fw as int);
                    if tile.contains(x, y) && (y < oy + ty || (y == oy + ty && i < dst + k + 1)) {
                        pixels[byte_index(tw as int, x - ox, y - oy, i % 4)]
                    } else {
                        before[i]
                    }
                }) by {
                    lemma_tile_row(fw as int, *tile, ty as int, i);
                    assert(prior[i] == ({
                        let x = (i / 4) % (fw as int);
                        let y = (i / 4) / (fw as int);
                        if tile.contains(x, y) && (y < oy + ty || (y == oy + ty && i < dst + k)) {
                            pixels[byte_index(tw as int, x - ox, y - oy, i % 4)]
                        } else {
                            before[i]
                        }
                    }));
                }
            }
            k = k + 1;
        }
        proof {
            assert forall|i: int| 0 <= i < before.len() implies #[trigger] target@[i] == ({
                let x = (i / 4) % (fw as int);
                let y = (i / 4) / (fw as int);
                if tile.contains(x, y) && y < oy + ty + 1 {
                    pixels[byte_index(tw as int, x - ox, y - oy, i % 4)]
                } else {
                    before[i]
                }
            }) by {
                lemma_tile_row(fw as int, *tile, ty as int, i);
            }
        }
        ty = ty + 1;
    }
    assert(target@ =~= blit(before, full_width as int, *tile, tile_pixels@));
}

/// Assembles a frame from the pixels of its tiles, taken one tile at a time
/// in plan order, so that only one tile's pixels need to exist beside the
/// frame itself.
pub struct FrameAssembler {
    width: u32,
    height: u32,
    tile_size: u32,
    tiles: Vec<TileInfo>,
    placed: usize,
    frame: Vec<u8>,
    received: Ghost<Seq<Seq<u8>>>,
}

impl FrameAssembler {
    /// Width of the frame in pixels.
    pub closed spec fn frame_width(&self) -> u32 {
        self.width
    }

    /// Height of the frame in pixels.
    pub closed spec fn frame_height(&self) -> u32 {
        self.height
    }

    /// The tiles of the frame, in the order in which their pixels are taken.
    pub closed spec fn plan(&self) -> Seq<TileInfo> {
        self.tiles@
    }

    /// The buffers placed so far, in the order of their tiles.
    pub closed spec fn received(&self) -> Seq<Seq<u8>> {
        self.received@
    }

    /// The frame as composited so far.
    pub closed spec fn pixels(&self) -> Seq<u8> {
        self.frame@
    }

    /// The invariant of an assembler: its plan is the tile plan of its frame,
    /// and its frame is a blank frame with the buffers received so far
    /// blitted over the first tiles of the plan.
    pub closed spec fn wf(&self) -> bool {
        &&& self.tiles@ == tile_plan(self.width, self.height, self.tile_size)
        &&& self.placed <= self.tiles@.len()
        &&& self.received@.len() == self.placed
        &&& self.width * self.height * 4 <= usize::MAX
        &&& self.frame@.len() == self.width * self.height * 4
        &&& self.frame@ == compose(
            blank_frame(self.width, self.height),
            self.width as int,
            self.tiles@.take(self.placed as int),
            self.received@,
        )
    }

    /// Starts a blank frame of `width` by `height` pixels, cut into tiles
    /// for the requested tile size. There is no assembler for a frame whose
    /// bytes cannot be counted in a `usize`.
    pub fn new(width: u32, height: u32, tile_size: u32) -> (started: Option<FrameAssembler>)
        ensures
            started.is_some() <==> width * height * 4 <= usize::MAX,
            started.is_some() ==> {
                let a = started.unwrap();
                &&& a.wf()
                &&& a.frame_width() == width
                &&& a.frame_height() == height
                &&& a.plan() == tile_plan(width, height, tile_size)
                &&& a.received() == Seq::<Seq<u8>>::empty()
                &&& a.pixels() == blank_frame(width, height)
            },
    {
        assert(width * height <= 0xffff_ffff * 0xffff_ffff) by (nonlinear_arith)
            requires
                0 <= width <= 0xffff_ffff,
                0 <= height <= 0xffff_ffff,
        ;
        let area: u64 = (width as u64) * (height as u64);
        let limit: usize = usize::MAX / 4;
        if area > limit as u64 {
            return None;
        }
        let len: usize = (area as usize) * 4;
        let frame: Vec<u8> = vec![0u8; len];
        let tiles = tile_iterator(width, height, tile_size);
        proof {
            assert(frame@ =~= blank_frame(width, height));
            assert(tiles@.take(0) =~= Seq::<TileInfo>::empty());
        }
        Some(
            FrameAssembler {
                width,
                height,
                tile_size,
                tiles,
                placed: 0,
                frame,
                received: Ghost(Seq::empty()),
            },
        )
    }

    /// The tile whose pixels are wanted next, if any is left.
    pub fn next_tile(&self) -> (tile: Option<TileInfo>)
        requires
            self.wf(),
        ensures
            tile == if self.received().len() < self.plan().len() {
                Some(self.plan()[self.received().len() as int])
            } else {
                None
            },
    {
        if self.placed < self.tiles.len() {
            Some(self.tiles[self.placed])
        } else {
            None
        }
    }

    /// Whether every tile of the plan has been placed.
    pub fn is_complete(&self) -> (complete: bool)
        requires
            self.wf(),
        ensures
            complete == (self.received().len() == self.plan().len()),
    {
        self.placed == self.tiles.len()
    }

    /// Blits the pixels of the next tile into the frame.
    ///
    /// The buffer is refused, and the assembler left as it was, when no tile
    /// is left or when the buffer is too short for the tile.
    pub fn place(&mut self, tile_pixels: &[u8]) -> (accepted: bool)
        requires
            old(self).wf(),
        ensures
            final(self).wf(),
            final(self).frame_width() == old(self).frame_width(),
            final(self).frame_height() == old(self).frame_height(),
            final(self).plan() == old(self).plan(),
            accepted <==> old(self).received().len() < old(self).plan().len() && old(
                self,
            ).plan()[old(self).received().len() as int].byte_len() <= tile_pixels.len(),
            accepted ==> final(self).received() == old(self).received().push(tile_pixels@),
            accepted ==> final(self).pixels() == blit(
                old(self).pixels(),
                old(self).frame_width() as int,
                old(self).plan()[old(self).received().len() as int],
                tile_pixels@,
            ),
            !accepted ==> final(self).received() == old(self).received(),
            !accepted ==> final(self).pixels() == old(self).pixels(),
    {
        if self.placed >= self.tiles.len() {
            return false;
        }
        let tile: TileInfo = self.tiles[self.placed];
        proof {
            lemma_plan_within_frame(self.width, self.height, self.tile_size, self.placed as int);
            lemma_tile_within_frame_bytes(tile, self.width, self.height);
        }
        let needed: usize = (tile.tile_w as usize) * (tile.tile_h as usize) * 4;
        if tile_pixels.len() < needed {
            return false;
        }
        let ghost before = self.frame@;
        blit_tile(&mut self.frame, self.width, &tile, tile_pixels);
        proof {
            let grown = self.tiles@.take(self.placed + 1);
            let buffers = self.received@.push(tile_pixels@);
            assert(grown.drop_last() =~= self.tiles@.take(self.placed as int));
            assert(buffers.drop_last() =~= self.received@);
            assert(grown.last() == tile);
            assert(buffers.last() == tile_pixels@);
            self.received@ = buffers;
        }
        self.placed = self.placed + 1;
        true
    }

    /// Hands over the frame as composited so far.
    pub fn finish(self) -> (frame: Vec<u8>)
        requires
            self.wf(),
        ensures
            frame@ == self.pixels(),
            frame@ == compose(
                blank_frame(self.frame_width(), self.frame_height()),
                self.frame_width() as int,
                self.plan().take(self.received().len() as int),
                self.received(),
            ),
    {
        self.frame
    }
}

/// A tile inside a frame has no more bytes than the rows of the frame down
/// to its last row.
pub proof fn lemma_tile_within_frame_bytes(tile: TileInfo, width: u32, height: u32)
    requires
        tile.within(width, height),
    ensures
        0 <= tile.tile_w * tile.tile_h <= tile.byte_len() <= width * height * 4,
        (tile.offset_y + tile.tile_h) * width * 4 <= width * height * 4,
{
    let tw = tile.tile_w as int;
    let th = tile.tile_h as int;
    let w = width as int;
    let h = height as int;
    assert(0 <= tw * th <= w * th) by (nonlinear_arith)
        requires
            0 <= tw <= w,
            0 <= th,
    ;
    assert(w * th <= w * h) by (nonlinear_arith)
        requires
            0 <= th <= h,
            0 <= w,
    ;
    assert((tile.offset_y + th) * w <= h * w) by (nonlinear_arith)
        requires
            0 <= tile.offset_y + th <= h,
            0 <= w,
    ;
    assert(h * w == w * h) by (nonlinear_arith);
}

/// Composing keeps the length of the target.
pub proof fn lemma_compose_len(
    target: Seq<u8>,
    full_width: int,
    tiles: Seq<TileInfo>,
    buffers: Seq<Seq<u8>>,
)
    ensures
        compose(target, full_width, tiles, buffers).len() == target.len(),
    decreases tiles.len(),
{
    if tiles.len() > 0 {
        lemma_compose_len(target, full_width, tiles.drop_last(), buffers.drop_last());
    }
}

/// A byte whose pixel lies in exactly one of the composed tiles holds the
/// byte of that pixel and channel in that tile's buffer.
pub proof fn lemma_compose_pixel(
    target: Seq<u8>,
    full_width: int,
    tiles: Seq<TileInfo>,
    buffers: Seq<Seq<u8>>,
    i: int,
    k: int,
)
    requires
        0 <= i < target.len(),
        0 <= k < tiles.len(),
        tiles[k].contains((i / 4) % full_width, (i / 4) / full_width),
        forall|j: int|
            0 <= j < tiles.len() && #[trigger] tiles[j].contains(
                (i / 4) % full_width,
                (i / 4) / full_width,
            ) ==> j == k,
        buffers.len() == tiles.len(),
    ensures
        compose(target, full_width, tiles, buffers)[i] == buffers[k][byte_index(
            tiles[k].tile_w as int,
            (i / 4) % full_width - tiles[k].offset_x,
            (i / 4) / full_width - tiles[k].offset_y,
            i % 4,
        )],
    decreases tiles.len(),
{
    let rest = tiles.drop_last();
    lemma_compose_len(target, full_width, rest, buffers.drop_last());
    if k < tiles.len() - 1 {
        assert(!tiles[tiles.len() - 1].contains((i / 4) % full_width, (i / 4) / full_width));
        assert forall|j: int|
            0 <= j < rest.len() && #[trigger] rest[j].contains(
                (i / 4) % full_width,
                (i / 4) / full_width,
            ) implies j == k by {
            assert(rest[j] == tiles[j]);
        }
        lemma_compose_pixel(target, full_width, rest, buffers.drop_last(), i, k);
    }
}

/// A byte whose pixel lies in one of the composed tiles holds what the
/// renderer wrote for that pixel and channel.
pub proof fn lemma_compose_rendered(
    target: Seq<u8>,
    full_width: int,
    tiles: Seq<TileInfo>,
    shade: spec_fn(int, int, int) -> u8,
    i: int,
)
    requires
        0 < full_width,
        0 <= i < target.len(),
        exists|k: int|
            0 <= k < tiles.len() && #[trigger] tiles[k].contains(
                (i / 4) % full_width,
                (i / 4) / full_width,
            ),
    ensures
        compose(target, full_width, tiles, rendered_all(shade, tiles))[i] == shade(
            (i / 4) % full_width,
            (i / 4) / full_width,
            i % 4,
        ),
    decreases tiles.len(),
{
    let x = (i / 4) % full_width;
    let y = (i / 4) / full_width;
    let k = choose|k: int| 0 <= k < tiles.len() && #[trigger] tiles[k].contains(x, y);
    let last = tiles.last();
    let rest = tiles.drop_last();
    assert(rendered_all(shade, tiles).drop_last() =~= rendered_all(shade, rest));
    lemma_compose_len(target, full_width, rest, rendered_all(shade, rest));
    lemma_byte_position(full_width, i);
    if last.contains(x, y) {
        let tw = last.tile_w as int;
        let lx = x - last.offset_x;
        let ly = y - last.offset_y;
        let j = byte_index(tw, lx, ly, i % 4);
        lemma_byte_index(tw, lx, ly, i % 4);
        assert(ly * tw + lx < last.tile_w * last.tile_h) by (nonlinear_arith)
            requires
                0 <= lx < tw,
                0 <= ly < last.tile_h,
                tw == last.tile_w,
        ;
        assert(rendered(shade, last)[j] == shade(x, y, i % 4));
    } else {
        assert(rest[k] == tiles[k]);
        lemma_compose_rendered(target, full_width, rest, shade, i);
    }
}

/// Tiling leaves no trace in the frame. For a renderer that colours each
/// pixel by its frame coordinates alone, the tiles of any plan, rendered one
/// by one and composited over a blank frame, give byte for byte what the
/// renderer writes for the whole frame as a single tile.
pub proof fn lemma_tiling_is_invisible(
    width: u32,
    height: u32,
    tile_size: u32,
    shade: spec_fn(int, int, int) -> u8,
)
    ensures
        compose(
            blank_frame(width, height),
            width as int,
            tile_plan(width, height, tile_size),
            rendered_all(shade, tile_plan(width, height, tile_size)),
        ) == rendered(shade, TileInfo::spec_full(width, height)),
{
    let plan = tile_plan(width, height, tile_size);
    let blank = blank_frame(width, height);
    let tiled = compose(blank, width as int, plan, rendered_all(shade, plan));
    let whole = rendered(shade, TileInfo::spec_full(width, height));
    lemma_compose_len(blank, width as int, plan, rendered_all(shade, plan));
    assert forall|i: int| 0 <= i < whole.len() implies tiled[i] == whole[i] by {
        let w = width as int;
        if w == 0 {
            assert(width * height * 4 == 0) by (nonlinear_arith)
                requires
                    width == 0,
            ;
        }
        lemma_byte_position(w, i);
        let x = (i / 4) % w;
        let y = (i / 4) / w;
        if y >= height {
            assert(y * w >= height * w) by (nonlinear_arith)
                requires
                    y >= height,
                    0 < w,
            ;
            assert(height * w * 4 == width * height * 4) by (nonlinear_arith)
                requires
                    w == width,
            ;
        }
        lemma_plan_partitions_frame(width, height, tile_size, x, y);
        let k = tile_index_of(width, height, tile_size, x, y);
        assert(plan[k].contains(x, y));
        lemma_compose_rendered(blank, w, plan, shade, i);
    }
    assert(tiled =~= whole);
}

} // verus!
