use matterhorn::render::{render_frame_with, render_tile_with, Rgb};
use matterhorn::tiling::TileInfo;
use std::cell::Cell;

fn colour_of(x: u32, y: u32) -> Rgb {
    Rgb {
        r: (x.wrapping_mul(7).wrapping_add(y) % 256) as u8,
        g: (y.wrapping_mul(13) % 256) as u8,
        b: ((x ^ y) % 256) as u8,
    }
}

#[test]
fn tile_pixels_are_shaded_by_their_frame_coordinates() {
    let tile = TileInfo { full_w: 10, full_h: 10, offset_x: 4, offset_y: 7, tile_w: 2, tile_h: 2 };
    let pixels = render_tile_with(&tile, &|x: u32, y: u32| Rgb { r: x as u8, g: y as u8, b: 9 });
    assert_eq!(
        pixels,
        vec![
            4, 7, 9, 255, 5, 7, 9, 255, //
            4, 8, 9, 255, 5, 8, 9, 255,
        ]
    );
}

#[test]
fn empty_tile_has_no_pixels_and_asks_for_none() {
    let calls = Cell::new(0u32);
    let shade = |_x: u32, _y: u32| {
        calls.set(calls.get() + 1);
        Rgb { r: 0, g: 0, b: 0 }
    };
    let flat = TileInfo { full_w: 8, full_h: 8, offset_x: 0, offset_y: 0, tile_w: 8, tile_h: 0 };
    assert_eq!(render_tile_with(&flat, &shade), Vec::<u8>::new());
    let thin = TileInfo { full_w: 8, full_h: 8, offset_x: 0, offset_y: 0, tile_w: 0, tile_h: 8 };
    assert_eq!(render_tile_with(&thin, &shade), Vec::<u8>::new());
    assert_eq!(calls.get(), 0);
}

#[test]
fn every_pixel_is_shaded_once() {
    let calls = Cell::new(0u32);
    let shade = |x: u32, y: u32| {
        calls.set(calls.get() + 1);
        colour_of(x, y)
    };
    let frame = render_frame_with(300, 270, 256, &shade).unwrap();
    assert_eq!(frame.len(), 300 * 270 * 4);
    assert_eq!(calls.get(), 300 * 270);
}

#[test]
fn frame_does_not_depend_on_the_tile_size() {
    let frames: [(u32, u32); 4] = [(300, 270), (515, 258), (2, 700), (64, 64)];
    for (width, height) in frames {
        let whole = render_tile_with(&TileInfo::full(width, height), &colour_of);
        for size in [0u32, 64, 257, width.min(height)] {
            let tiled = render_frame_with(width, height, size, &colour_of).unwrap();
            assert_eq!(tiled, whole, "{}x{} tile {}", width, height, size);
        }
    }
}

#[test]
fn frame_pixels_are_opaque_and_row_major() {
    let frame = render_frame_with(260, 3, 256, &colour_of).unwrap();
    for y in 0..3u32 {
        for x in 0..260u32 {
            let at = ((y * 260 + x) * 4) as usize;
            let c = colour_of(x, y);
            assert_eq!(&frame[at..at + 4], &[c.r, c.g, c.b, 255]);
        }
    }
}

#[test]
fn frame_without_pixels_is_empty() {
    assert_eq!(render_frame_with(0, 0, 0, &colour_of), Some(Vec::new()));
    assert_eq!(render_frame_with(0, 500, 256, &colour_of), Some(Vec::new()));
    assert_eq!(render_frame_with(500, 0, 64, &colour_of), Some(Vec::new()));
}

#[test]
fn frame_too_large_to_count_is_not_rendered() {
    let calls = Cell::new(0u32);
    let shade = |x: u32, y: u32| {
        calls.set(calls.get() + 1);
        colour_of(x, y)
    };
    assert_eq!(render_frame_with(u32::MAX, u32::MAX, 0, &shade), None);
    assert_eq!(calls.get(), 0);
}
