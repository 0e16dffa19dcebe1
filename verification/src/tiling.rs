//! Decomposition of a frame into independently renderable tiles.
//!
//! A plan is a row-major grid of rectangles. Every tile carries the size of
//! the whole frame next to its own offset and size, so a renderer can map a
//! tile-local pixel to the same plane coordinate whatever the tiling.

use vstd::prelude::*;
use vstd::arithmetic::div_mod::*;

verus! {

/// Largest side for which a frame is rendered in one piece when the caller
/// asks for no particular tile size.
pub const SINGLE_BUFFER_LIMIT: u32 = 8192;

/// Tile size used for frames above the single-buffer limit when the caller
/// asks for no particular tile size.
pub const FALLBACK_TILE: u32 = 4096;

/// Smallest stride of a tile grid.
pub const MIN_STRIDE: u32 = 256;

/// One rectangular region of a frame.
#[derive(Clone, Copy, Debug, PartialEq, Eq, Structural)]
pub struct TileInfo {
    pub full_w: u32,
    pub full_h: u32,
    pub offset_x: u32,
    pub offset_y: u32,
    pub tile_w: u32,
    pub tile_h: u32,
}

impl TileInfo {
    /// The tile that is the whole frame.
    pub open spec fn spec_full(width: u32, height: u32) -> TileInfo {
        TileInfo {
            full_w: width,
            full_h: height,
            offset_x: 0,
            offset_y: 0,
            tile_w: width,
            tile_h: height,
        }
    }

    /// Whether the frame pixel `(x, y)` lies in this tile.
    pub open spec fn contains(self, x: int, y: int) -> bool {
        &&& self.offset_x <= x < self.offset_x + self.tile_w
        &&& self.offset_y <= y < self.offset_y + self.tile_h
    }

    /// Whether the tile lies inside a frame of the given size and records
    /// that size as its own.
    pub open spec fn within(self, width: u32, height: u32) -> bool {
        &&& self.full_w == width
        &&& self.full_h == height
        &&& self.offset_x + self.tile_w <= width
        &&& self.offset_y + self.tile_h <= height
    }

    /// Number of bytes of the tile's RGBA8 pixels.
    pub open spec fn byte_len(self) -> int {
        self.tile_w * self.tile_h * 4
    }

    /// The tile that spans a frame of `width` by `height` pixels.
    #[verifier::when_used_as_spec(spec_full)]
    pub fn full(width: u32, height: u32) -> (tile: TileInfo)
        ensures
            tile == Self::spec_full(width, height),
    {
        TileInfo {
            full_w: width,
            full_h: height,
            offset_x: 0,
            offset_y: 0,
            tile_w: width,
            tile_h: height,
        }
    }
}

/// Whether a frame is rendered as one tile for the requested tile size
/// (zero asks for the built-in policy).
pub open spec fn fits_single_tile(width: u32, height: u32, tile: u32) -> bool {
    if tile == 0 {
        width <= SINGLE_BUFFER_LIMIT && height <= SINGLE_BUFFER_LIMIT
    } else {
        width <= tile && height <= tile
    }
}

/// Distance between the origins of neighbouring tiles of the grid.
pub open spec fn grid_stride(tile: u32) -> int {
    let wanted = if tile == 0 { FALLBACK_TILE } else { tile };
    if wanted < MIN_STRIDE { MIN_STRIDE as int } else { wanted as int }
}

/// Number of strides needed to span `extent`.
pub open spec fn spans(extent: int, stride: int) -> int {
    (extent + stride - 1) / stride
}

/// The tile in row `row` and column `col` of the grid.
pub open spec fn grid_tile(width: u32, height: u32, stride: int, row: int, col: int) -> TileInfo {
    let x = col * stride;
    let y = row * stride;
    TileInfo {
        full_w: width,
        full_h: height,
        offset_x: x as u32,
        offset_y: y as u32,
        tile_w: (if width - x < stride { width - x } else { stride }) as u32,
        tile_h: (if height - y < stride { height - y } else { stride }) as u32,
    }
}

/// The row-major grid of tiles of the given stride, the last tile of each
/// row and column clipped to what is left of the frame.
pub open spec fn grid(width: u32, height: u32, stride: int) -> Seq<TileInfo> {
    let cols = spans(width as int, stride);
    let rows = spans(height as int, stride);
    Seq::new(
        (rows * cols) as nat,
        |k: int| grid_tile(width, height, stride, k / cols, k % cols),
    )
}

/// The tiles of a frame, in the order in which they are rendered.
pub open spec fn tile_plan(width: u32, height: u32, tile: u32) -> Seq<TileInfo> {
    if fits_single_tile(width, height, tile) {
        seq![TileInfo::spec_full(width, height)]
    } else {
        grid(width, height, grid_stride(tile))
    }
}

/// Position in the plan of the tile that holds the frame pixel `(x, y)`.
pub open spec fn tile_index_of(width: u32, height: u32, tile: u32, x: int, y: int) -> int {
    if fits_single_tile(width, height, tile) {
        0
    } else {
        let stride = grid_stride(tile);
        (y / stride) * spans(width as int, stride) + x / stride
    }
}

/// `spans` counts exactly the multiples of the stride below the extent.
pub proof fn lemma_spans(extent: int, stride: int, n: int)
    requires
        0 <= extent,
        0 < stride,
        0 <= n,
    ensures
        0 <= spans(extent, stride),
        n < spans(extent, stride) <==> n * stride < extent,
{
    let s = spans(extent, stride);
    lemma_fundamental_div_mod(extent + stride - 1, stride);
    lemma_mod_bound(extent + stride - 1, stride);
    lemma_div_pos_is_pos(extent + stride - 1, stride);
    assert(stride * s == s * stride) by (nonlinear_arith);
    if n < s {
        assert(n * stride <= (s - 1) * stride) by (nonlinear_arith)
            requires
                n <= s - 1,
                0 < stride,
        ;
        assert((s - 1) * stride == s * stride - stride) by (nonlinear_arith);
    } else {
        assert(n * stride >= s * stride) by (nonlinear_arith)
            requires
                n >= s,
                0 < stride,
        ;
    }
}

/// Row and column of the `k`-th tile of a grid with `cols` columns.
pub proof fn lemma_grid_position(row: int, col: int, cols: int)
    requires
        0 <= row,
        0 <= col < cols,
    ensures
        (row * cols + col) / cols == row,
        (row * cols + col) % cols == col,
{
    assert(row * cols == cols * row) by (nonlinear_arith);
    lemma_fundamental_div_mod_converse(row * cols + col, cols, row, col);
}

/// Row and column of a position in a grid of `rows` by `cols` tiles.
pub proof fn lemma_grid_cell(k: int, rows: int, cols: int)
    requires
        0 <= k < rows * cols,
        0 <= rows,
        0 <= cols,
    ensures
        0 < cols,
        0 <= k / cols < rows,
        0 <= k % cols < cols,
        k == (k / cols) * cols + k % cols,
{
    if cols == 0 {
        assert(rows * cols == 0) by (nonlinear_arith)
            requires
                cols == 0,
        ;
    }
    lemma_fundamental_div_mod(k, cols);
    lemma_mod_bound(k, cols);
    lemma_div_pos_is_pos(k, cols);
    let q = k / cols;
    assert(cols * q == q * cols) by (nonlinear_arith);
    if q >= rows {
        assert(q * cols >= rows * cols) by (nonlinear_arith)
            requires
                q >= rows,
                0 < cols,
        ;
    }
}

/// The tile of a grid cell starts at a multiple of the stride inside the
/// frame and is clipped to the frame.
pub proof fn lemma_grid_tile_bounds(width: u32, height: u32, stride: int, row: int, col: int)
    requires
        0 < stride <= u32::MAX,
        0 <= row < spans(height as int, stride),
        0 <= col < spans(width as int, stride),
    ensures
        ({
            let t = grid_tile(width, height, stride, row, col);
            &&& t.within(width, height)
            &&& t.offset_x == col * stride
            &&& t.offset_y == row * stride
            &&& 0 < t.tile_w <= stride
            &&& 0 < t.tile_h <= stride
            &&& t.tile_w == stride || t.offset_x + t.tile_w == width
            &&& t.tile_h == stride || t.offset_y + t.tile_h == height
        }),
{
    lemma_spans(width as int, stride, col);
    lemma_spans(height as int, stride, row);
    assert(0 <= col * stride) by (nonlinear_arith)
        requires
            0 <= col,
            0 < stride,
    ;
    assert(0 <= row * stride) by (nonlinear_arith)
        requires
            0 <= row,
            0 < stride,
    ;
}

/// Every tile of a plan lies inside the frame and carries the dimensions of
/// the whole frame.
pub proof fn lemma_plan_within_frame(width: u32, height: u32, tile: u32, k: int)
    requires
        0 <= k < tile_plan(width, height, tile).len(),
    ensures
        tile_plan(width, height, tile)[k].within(width, height),
{
    if !fits_single_tile(width, height, tile) {
        let stride = grid_stride(tile);
        let cols = spans(width as int, stride);
        let rows = spans(height as int, stride);
        lemma_spans(width as int, stride, 0);
        lemma_spans(height as int, stride, 0);
        lemma_grid_cell(k, rows, cols);
        lemma_grid_tile_bounds(width, height, stride, k / cols, k % cols);
    }
}

/// The tiles of a plan cover the frame exactly and without overlap: each
/// pixel of the frame lies in the tile at `tile_index_of` and in no other.
pub proof fn lemma_plan_partitions_frame(width: u32, height: u32, tile: u32, x: int, y: int)
    requires
        0 <= x < width,
        0 <= y < height,
    ensures
        0 <= tile_index_of(width, height, tile, x, y) < tile_plan(width, height, tile).len(),
        tile_plan(width, height, tile)[tile_index_of(width, height, tile, x, y)].contains(x, y),
        forall|k: int|
            0 <= k < tile_plan(width, height, tile).len() && #[trigger] tile_plan(
                width,
                height,
                tile,
            )[k].contains(x, y) ==> k == tile_index_of(width, height, tile, x, y),
{
    if !fits_single_tile(width, height, tile) {
        let stride = grid_stride(tile);
        let cols = spans(width as int, stride);
        let rows = spans(height as int, stride);
        let plan = tile_plan(width, height, tile);
        let row = y / stride;
        let col = x / stride;
        lemma_fundamental_div_mod(x, stride);
        lemma_fundamental_div_mod(y, stride);
        lemma_mod_bound(x, stride);
        lemma_mod_bound(y, stride);
        lemma_div_pos_is_pos(x, stride);
        lemma_div_pos_is_pos(y, stride);
        assert(stride * col == col * stride) by (nonlinear_arith);
        assert(stride * row == row * stride) by (nonlinear_arith);
        lemma_spans(width as int, stride, col);
        lemma_spans(height as int, stride, row);
        lemma_grid_position(row, col, cols);
        assert(row * cols + col < rows * cols) by (nonlinear_arith)
            requires
                0 <= row < rows,
                0 <= col < cols,
        ;
        assert(0 <= row * cols + col) by (nonlinear_arith)
            requires
                0 <= row,
                0 <= col < cols,
        ;
        lemma_grid_tile_bounds(width, height, stride, row, col);
        assert forall|k: int| 0 <= k < plan.len() && #[trigger] plan[k].contains(x, y) implies k
            == row * cols + col by {
            lemma_grid_cell(k, rows, cols);
            let r = k / cols;
            let c = k % cols;
            lemma_grid_tile_bounds(width, height, stride, r, c);
            assert(stride * c == c * stride) by (nonlinear_arith);
            assert(stride * r == r * stride) by (nonlinear_arith);
            lemma_fundamental_div_mod_converse(x, stride, c, x - c * stride);
            lemma_fundamental_div_mod_converse(y, stride, r, y - r * stride);
        }
    }
}

/// Plans the tiles of a `width` by `height` frame.
///
/// With `tile == 0` a frame whose sides are both within
/// `SINGLE_BUFFER_LIMIT` is one tile, and a larger one is cut with
/// `FALLBACK_TILE`. A frame that fits the requested tile is one tile as
/// well. Every other frame is cut into a row-major grid whose stride is the
/// requested size, raised to `MIN_STRIDE` where it is smaller.
pub fn tile_iterator(width: u32, height: u32, tile: u32) -> (tiles: Vec<TileInfo>)
    ensures
        tiles@ == tile_plan(width, height, tile),
{
    if tile == 0 {
        if width <= SINGLE_BUFFER_LIMIT && height <= SINGLE_BUFFER_LIMIT {
            let mut single: Vec<TileInfo> = Vec::new();
            single.push(TileInfo::full(width, height));
            assert(single@ =~= tile_plan(width, height, tile));
            return single;
        }
    } else if width <= tile && height <= tile {
        let mut single: Vec<TileInfo> = Vec::new();
        single.push(TileInfo::full(width, height));
        assert(single@ =~= tile_plan(width, height, tile));
        return single;
    }
    let wanted: u32 = if tile == 0 { FALLBACK_TILE } else { tile };
    let stride: u32 = if wanted < MIN_STRIDE { MIN_STRIDE } else { wanted };
    let ghost cols = spans(width as int, stride as int);
    let ghost rows = spans(height as int, stride as int);
    proof {
        lemma_spans(width as int, stride as int, 0);
        lemma_spans(height as int, stride as int, 0);
    }
    let mut tiles: Vec<TileInfo> = Vec::new();
    let mut y: u32 = 0;
    let mut more_rows: bool = y < height;
    let ghost mut row: int = 0;
    while more_rows
        invariant
            stride as int == grid_stride(tile),
            cols == spans(width as int, stride as int),
            rows == spans(height as int, stride as int),
            0 <= cols,
            0 <= row <= rows,
            more_rows <==> row < rows,
            more_rows ==> y == row * stride && y < height,
            tiles@.len() == row * cols,
            forall|k: int|
                0 <= k < tiles@.len() ==> #[trigger] tiles@[k] == grid_tile(
                    width,
                    height,
                    stride as int,
                    k / cols,
                    k % cols,
                ),
        decreases rows - row,
    {
        let h: u32 = if height - y < stride { height - y } else { stride };
        let mut x: u32 = 0;
        let mut more_cols: bool = x < width;
        let ghost mut col: int = 0;
        proof {
            lemma_spans(width as int, stride as int, 0);
        }
        while more_cols
            invariant
                stride as int == grid_stride(tile),
                cols == spans(width as int, stride as int),
                0 <= row,
                0 <= col <= cols,
                y == row * stride,
                y < height,
                h == (if height - y < stride { height - y } else { stride as int }),
                more_cols <==> col < cols,
                more_cols ==> x == col * stride && x < width,
                tiles@.len() == row * cols + col,
                forall|k: int|
                    0 <= k < tiles@.len() ==> #[trigger] tiles@[k] == grid_tile(
                        width,
                        height,
                        stride as int,
                        k / cols,
                        k % cols,
                    ),
            decreases cols - col,
        {
            let w: u32 = if width - x < stride { width - x } else { stride };
            proof {
                lemma_grid_position(row, col, cols);
            }
            tiles.push(
                TileInfo {
                    full_w: width,
                    full_h: height,
                    offset_x: x,
                    offset_y: y,
                    tile_w: w,
                    tile_h: h,
                },
            );
            proof {
                col = col + 1;
                lemma_spans(width as int, stride as int, col);
                assert(col * stride == (col - 1) * stride + stride) by (nonlinear_arith);
            }
            if width - x > stride {
                x = x + stride;
            } else {
                more_cols = false;
            }
        }
        proof {
            row = row + 1;
            lemma_spans(height as int, stride as int, row);
            assert(row * stride == (row - 1) * stride + stride) by (nonlinear_arith);
            assert(row * cols == (row - 1) * cols + cols) by (nonlinear_arith);
        }
        if height - y > stride {
            y = y + stride;
        } else {
            more_rows = false;
        }
    }
    proof {
        assert(row == rows);
        assert(tiles@ =~= grid(width, height, stride as int));
    }
    tiles
}

} // verus!
