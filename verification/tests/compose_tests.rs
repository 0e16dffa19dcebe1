use matterhorn::compose::{blit_tile, FrameAssembler};
use matterhorn::tiling::{tile_iterator, TileInfo};

/// A renderer that colours a pixel by its frame coordinates alone.
fn shade(x: u32, y: u32, channel: u32) -> u8 {
    if channel == 3 {
        255
    } else {
        ((x.wrapping_mul(31) ^ y.wrapping_mul(17)).wrapping_add(channel * 83) % 251) as u8
    }
}

fn render(tile: &TileInfo) -> Vec<u8> {
    let mut out = Vec::with_capacity((tile.tile_w as usize) * (tile.tile_h as usize) * 4);
    for y in 0..tile.tile_h {
        for x in 0..tile.tile_w {
            for channel in 0..4 {
                out.push(shade(tile.offset_x + x, tile.offset_y + y, channel));
            }
        }
    }
    out
}

fn render_frame(width: u32, height: u32, tile_size: u32) -> Vec<u8> {
    let mut assembler = FrameAssembler::new(width, height, tile_size).unwrap();
    while let Some(tile) = assembler.next_tile() {
        assert!(assembler.place(&render(&tile)));
    }
    assert!(assembler.is_complete());
    assembler.finish()
}

#[test]
fn blit_copies_the_tile_and_nothing_else() {
    let mut target = vec![9u8; 3 * 2 * 4];
    let tile = TileInfo { full_w: 3, full_h: 2, offset_x: 1, offset_y: 0, tile_w: 2, tile_h: 2 };
    let pixels: Vec<u8> = (1..=16).collect();
    blit_tile(&mut target, 3, &tile, &pixels);
    assert_eq!(
        target,
        vec![
            9, 9, 9, 9, 1, 2, 3, 4, 5, 6, 7, 8, //
            9, 9, 9, 9, 9, 10, 11, 12, 13, 14, 15, 16,
        ]
    );
}

#[test]
fn blit_of_an_empty_tile_changes_nothing() {
    let mut target = vec![7u8; 16];
    let flat = TileInfo { full_w: 2, full_h: 2, offset_x: 5, offset_y: 9, tile_w: 0, tile_h: 3 };
    blit_tile(&mut target, 2, &flat, &[]);
    assert_eq!(target, vec![7u8; 16]);
    let thin = TileInfo { full_w: 2, full_h: 2, offset_x: 0, offset_y: 0, tile_w: 2, tile_h: 0 };
    blit_tile(&mut target, 2, &thin, &[]);
    assert_eq!(target, vec![7u8; 16]);
}

#[test]
fn blit_reads_only_the_bytes_of_the_tile() {
    let mut target = vec![0u8; 2 * 2 * 4];
    let tile = TileInfo { full_w: 2, full_h: 2, offset_x: 0, offset_y: 1, tile_w: 1, tile_h: 1 };
    blit_tile(&mut target, 2, &tile, &[1, 2, 3, 4, 5, 6]);
    assert_eq!(target, vec![0, 0, 0, 0, 0, 0, 0, 0, 1, 2, 3, 4, 0, 0, 0, 0]);
}

#[test]
fn blit_in_the_last_row_and_column() {
    let mut target = vec![0u8; 4 * 3 * 4];
    let tile = TileInfo { full_w: 4, full_h: 3, offset_x: 3, offset_y: 2, tile_w: 1, tile_h: 1 };
    blit_tile(&mut target, 4, &tile, &[200, 201, 202, 203]);
    let mut expected = vec![0u8; 48];
    expected[44..48].copy_from_slice(&[200, 201, 202, 203]);
    assert_eq!(target, expected);
}

#[test]
fn new_frame_is_blank() {
    let assembler = FrameAssembler::new(5, 3, 0).unwrap();
    assert!(!assembler.is_complete());
    assert_eq!(assembler.next_tile(), Some(TileInfo::full(5, 3)));
    assert_eq!(assembler.finish(), vec![0u8; 60]);
}

#[test]
fn frame_too_large_to_count_has_no_assembler() {
    assert!(FrameAssembler::new(u32::MAX, u32::MAX, 0).is_none());
}

#[test]
fn empty_frame_is_assembled_from_nothing() {
    let mut assembler = FrameAssembler::new(0, 0, 0).unwrap();
    assert_eq!(assembler.next_tile(), Some(TileInfo::full(0, 0)));
    assert!(assembler.place(&[]));
    assert!(assembler.is_complete());
    assert_eq!(assembler.finish(), Vec::<u8>::new());
    let none = FrameAssembler::new(1000, 0, 256).unwrap();
    assert!(none.is_complete());
    assert_eq!(none.next_tile(), None);
}

#[test]
fn assembler_hands_out_the_plan_in_order() {
    let plan = tile_iterator(600, 300, 256);
    let mut assembler = FrameAssembler::new(600, 300, 256).unwrap();
    for tile in &plan {
        assert_eq!(assembler.next_tile(), Some(*tile));
        assert!(assembler.place(&render(tile)));
    }
    assert_eq!(assembler.next_tile(), None);
    assert!(assembler.is_complete());
}

#[test]
fn short_buffer_is_refused_and_changes_nothing() {
    let mut assembler = FrameAssembler::new(4, 4, 0).unwrap();
    assert!(!assembler.place(&[1u8; 63]));
    assert_eq!(assembler.next_tile(), Some(TileInfo::full(4, 4)));
    assert!(assembler.place(&[1u8; 64]));
    assert!(assembler.is_complete());
    assert_eq!(assembler.finish(), vec![1u8; 64]);
}

#[test]
fn buffer_after_the_last_tile_is_refused() {
    let mut assembler = FrameAssembler::new(2, 1, 0).unwrap();
    assert!(assembler.place(&[1, 2, 3, 4, 5, 6, 7, 8]));
    assert!(!assembler.place(&[9, 9, 9, 9, 9, 9, 9, 9]));
    assert_eq!(assembler.finish(), vec![1, 2, 3, 4, 5, 6, 7, 8]);
}

#[test]
fn unfinished_frame_keeps_blank_pixels() {
    let mut assembler = FrameAssembler::new(512, 1, 256).unwrap();
    let first = assembler.next_tile().unwrap();
    assert!(assembler.place(&vec![5u8; (first.tile_w * first.tile_h * 4) as usize]));
    let frame = assembler.finish();
    assert_eq!(&frame[..1024], &vec![5u8; 1024][..]);
    assert_eq!(&frame[1024..], &vec![0u8; 1024][..]);
}

#[test]
fn tiled_frame_equals_single_tile_frame() {
    let frames: [(u32, u32); 4] = [(300, 270), (515, 258), (1, 600), (64, 64)];
    for (width, height) in frames {
        let whole = render(&TileInfo::full(width, height));
        assert_eq!(render_frame(width, height, 0), whole);
        for size in [0u32, 64, 257, width.min(height)] {
            assert_eq!(render_frame(width, height, size), whole, "{}x{} tile {}", width, height, size);
        }
    }
}

#[test]
fn single_pixel_values_land_at_their_coordinates() {
    let frame = render_frame(520, 260, 256);
    for (x, y) in [(0u32, 0u32), (255, 255), (256, 0), (519, 259), (511, 256), (512, 255)] {
        let at = ((y as usize) * 520 + x as usize) * 4;
        for channel in 0..4u32 {
            assert_eq!(frame[at + channel as usize], shade(x, y, channel));
        }
    }
}
