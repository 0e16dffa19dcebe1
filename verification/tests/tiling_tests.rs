use matterhorn::tiling::{tile_iterator, TileInfo};

fn tile(full_w: u32, full_h: u32, offset_x: u32, offset_y: u32, tile_w: u32, tile_h: u32) -> TileInfo {
    TileInfo { full_w, full_h, offset_x, offset_y, tile_w, tile_h }
}

/// Counts, for every pixel of the frame, the tiles that hold it.
fn coverage(width: u32, height: u32, tiles: &[TileInfo]) -> Vec<u32> {
    let mut seen = vec![0u32; (width as usize) * (height as usize)];
    for t in tiles {
        assert_eq!(t.full_w, width);
        assert_eq!(t.full_h, height);
        for y in t.offset_y..t.offset_y + t.tile_h {
            for x in t.offset_x..t.offset_x + t.tile_w {
                seen[(y as usize) * (width as usize) + x as usize] += 1;
            }
        }
    }
    seen
}

#[test]
fn full_tile_spans_the_frame() {
    assert_eq!(TileInfo::full(640, 480), tile(640, 480, 0, 0, 640, 480));
    assert_eq!(TileInfo::full(0, 0), tile(0, 0, 0, 0, 0, 0));
}

#[test]
fn no_tile_size_and_small_frame_is_one_tile() {
    assert_eq!(tile_iterator(1280, 840, 0), vec![tile(1280, 840, 0, 0, 1280, 840)]);
    assert_eq!(tile_iterator(8192, 8192, 0), vec![tile(8192, 8192, 0, 0, 8192, 8192)]);
}

#[test]
fn no_tile_size_and_large_frame_uses_the_fallback_tile() {
    let tiles = tile_iterator(8193, 100, 0);
    assert_eq!(
        tiles,
        vec![
            tile(8193, 100, 0, 0, 4096, 100),
            tile(8193, 100, 4096, 0, 4096, 100),
            tile(8193, 100, 8192, 0, 1, 100),
        ]
    );
}

#[test]
fn frame_within_the_requested_tile_is_one_tile() {
    assert_eq!(tile_iterator(1920, 1080, 2048), vec![tile(1920, 1080, 0, 0, 1920, 1080)]);
    assert_eq!(tile_iterator(64, 64, 64), vec![tile(64, 64, 0, 0, 64, 64)]);
}

#[test]
fn small_tile_sizes_are_raised_to_the_minimum_stride() {
    let tiles = tile_iterator(600, 300, 64);
    assert_eq!(
        tiles,
        vec![
            tile(600, 300, 0, 0, 256, 256),
            tile(600, 300, 256, 0, 256, 256),
            tile(600, 300, 512, 0, 88, 256),
            tile(600, 300, 0, 256, 256, 44),
            tile(600, 300, 256, 256, 256, 44),
            tile(600, 300, 512, 256, 88, 44),
        ]
    );
}

#[test]
fn grid_of_one_cell_is_the_full_frame() {
    assert_eq!(tile_iterator(100, 100, 64), vec![tile(100, 100, 0, 0, 100, 100)]);
}

#[test]
fn odd_stride_clips_the_last_row_and_column() {
    let tiles = tile_iterator(515, 258, 257);
    assert_eq!(
        tiles,
        vec![
            tile(515, 258, 0, 0, 257, 257),
            tile(515, 258, 257, 0, 257, 257),
            tile(515, 258, 514, 0, 1, 257),
            tile(515, 258, 0, 257, 257, 1),
            tile(515, 258, 257, 257, 257, 1),
            tile(515, 258, 514, 257, 1, 1),
        ]
    );
}

#[test]
fn exact_multiple_has_no_clipped_tiles() {
    let tiles = tile_iterator(1024, 512, 512);
    assert_eq!(tiles.len(), 2);
    assert_eq!(tiles[0], tile(1024, 512, 0, 0, 512, 512));
    assert_eq!(tiles[1], tile(1024, 512, 512, 0, 512, 512));
}

#[test]
fn empty_frames_have_one_empty_tile_or_none() {
    assert_eq!(tile_iterator(0, 0, 0), vec![tile(0, 0, 0, 0, 0, 0)]);
    assert_eq!(tile_iterator(0, 100, 256), vec![tile(0, 100, 0, 0, 0, 100)]);
    assert_eq!(tile_iterator(0, 1000, 256), vec![]);
    assert_eq!(tile_iterator(1000, 0, 256), vec![]);
}

#[test]
fn widest_frame_is_planned_without_wrapping() {
    let tiles = tile_iterator(u32::MAX, 1, 0x8000_0000);
    assert_eq!(
        tiles,
        vec![
            tile(u32::MAX, 1, 0, 0, 0x8000_0000, 1),
            tile(u32::MAX, 1, 0x8000_0000, 0, 0x7fff_ffff, 1),
        ]
    );
    let tall = tile_iterator(1, u32::MAX, u32::MAX - 1);
    assert_eq!(
        tall,
        vec![tile(1, u32::MAX, 0, 0, 1, u32::MAX - 1), tile(1, u32::MAX, 0, u32::MAX - 1, 1, 1)]
    );
}

#[test]
fn every_pixel_lies_in_exactly_one_tile() {
    let frames: [(u32, u32); 5] = [(600, 300), (257, 257), (1, 700), (1030, 515), (300, 270)];
    for (width, height) in frames {
        for size in [0u32, 64, 257, width.min(height), 256, 1000] {
            let tiles = tile_iterator(width, height, size);
            let seen = coverage(width, height, &tiles);
            assert!(seen.iter().all(|&n| n == 1), "{}x{} tile {}", width, height, size);
        }
    }
}

#[test]
fn tiles_come_in_row_major_order() {
    let tiles = tile_iterator(700, 700, 256);
    assert_eq!(tiles.len(), 9);
    for (k, t) in tiles.iter().enumerate() {
        assert_eq!(t.offset_x, (k as u32 % 3) * 256);
        assert_eq!(t.offset_y, (k as u32 / 3) * 256);
    }
}
