use crab_grab::frame::Frame;
use crab_grab::geometry::PixelRect;
use crab_grab::tiles::{load_image_as_tiles, tile_grid, tile_image, MAX_TILE_SIZE};

/// A frame whose pixel (x, y) holds bytes [x, y, x ^ y, 255].
fn pattern(width: u32, height: u32) -> Frame {
    let mut pixels = Vec::new();
    for y in 0..height {
        for x in 0..width {
            pixels.extend_from_slice(&[x as u8, y as u8, (x ^ y) as u8, 255]);
        }
    }
    Frame::new(width, height, pixels).unwrap()
}

fn pixel(f: &Frame, x: u32, y: u32) -> [u8; 4] {
    let i = ((y * f.width + x) * 4) as usize;
    [f.pixels[i], f.pixels[i + 1], f.pixels[i + 2], f.pixels[i + 3]]
}

#[test]
fn tile_count_for_wide_image() {
    let rects = tile_grid(4500, 1200, 2048);
    assert_eq!(rects.len(), 3);
    let widths: Vec<u32> = rects.iter().map(|r| r.width).collect();
    assert_eq!(widths, vec![2048, 2048, 404]);
    let xs: Vec<u32> = rects.iter().map(|r| r.x).collect();
    assert_eq!(xs, vec![0, 2048, 4096]);
    assert!(rects.iter().all(|r| r.y == 0 && r.height == 1200));
}

#[test]
fn tile_grid_is_row_major() {
    let rects = tile_grid(5, 3, 2);
    assert_eq!(
        rects,
        vec![
            PixelRect { x: 0, y: 0, width: 2, height: 2 },
            PixelRect { x: 2, y: 0, width: 2, height: 2 },
            PixelRect { x: 4, y: 0, width: 1, height: 2 },
            PixelRect { x: 0, y: 2, width: 2, height: 1 },
            PixelRect { x: 2, y: 2, width: 2, height: 1 },
            PixelRect { x: 4, y: 2, width: 1, height: 1 },
        ]
    );
}

#[test]
fn tiles_cover_every_pixel_once() {
    let (w, h, l) = (37u32, 23u32, 8u32);
    let rects = tile_grid(w, h, l);
    assert_eq!(rects.len(), 5 * 3);
    let area: u32 = rects.iter().map(|r| r.width * r.height).sum();
    assert_eq!(area, w * h);
    for py in 0..h {
        for px in 0..w {
            let n = rects
                .iter()
                .filter(|r| r.x <= px && px < r.x + r.width && r.y <= py && py < r.y + r.height)
                .count();
            assert_eq!(n, 1, "pixel ({}, {})", px, py);
        }
    }
}

#[test]
fn exact_multiple_gives_full_tiles() {
    let rects = tile_grid(4096, 2048, 2048);
    assert_eq!(rects.len(), 2);
    assert!(rects.iter().all(|r| r.width == 2048 && r.height == 2048));
}

#[test]
fn empty_image_has_no_tiles() {
    assert!(tile_grid(0, 100, 16).is_empty());
    assert!(tile_grid(100, 0, 16).is_empty());
}

#[test]
fn tiles_carry_their_pixels() {
    let img = pattern(5, 3);
    let tiles = tile_image(&img, 2);
    assert_eq!(tiles.len(), 6);
    for t in &tiles {
        assert_eq!(t.image.width, t.width);
        assert_eq!(t.image.height, t.height);
        for y in 0..t.height {
            for x in 0..t.width {
                assert_eq!(pixel(&t.image, x, y), pixel(&img, t.x + x, t.y + y));
            }
        }
    }
    assert_eq!((tiles[5].x, tiles[5].y), (4, 2));
    assert_eq!(pixel(&tiles[5].image, 0, 0), [4, 2, 6, 255]);
}

#[test]
fn small_image_is_one_tile() {
    let img = pattern(10, 10);
    let tiles = load_image_as_tiles(&img);
    assert_eq!(MAX_TILE_SIZE, 2048);
    assert_eq!(tiles.len(), 1);
    assert_eq!(tiles[0].image.pixels, img.pixels);
}

#[test]
fn frame_needs_exact_buffer() {
    assert!(Frame::new(2, 2, vec![0; 16]).is_some());
    assert!(Frame::new(2, 2, vec![0; 15]).is_none());
    assert!(Frame::new(2, 2, vec![0; 17]).is_none());
    assert!(Frame::new(0, 7, Vec::new()).is_some());
}

#[test]
fn blank_frame_is_zero() {
    let f = Frame::blank(3, 2);
    assert_eq!(f.pixels, vec![0; 24]);
}

#[test]
fn crop_copies_the_rectangle() {
    let img = pattern(6, 4);
    let c = img.crop(PixelRect { x: 2, y: 1, width: 3, height: 2 });
    assert_eq!((c.width, c.height), (3, 2));
    assert_eq!(pixel(&c, 0, 0), [2, 1, 3, 255]);
    assert_eq!(pixel(&c, 2, 1), [4, 2, 6, 255]);
    let empty = img.crop(PixelRect { x: 6, y: 0, width: 0, height: 4 });
    assert!(empty.pixels.is_empty());
}

#[test]
fn paste_overwrites_only_the_target() {
    let mut canvas = Frame::blank(4, 3);
    let src = pattern(2, 2);
    canvas.paste(&src, 1, 1);
    assert_eq!(pixel(&canvas, 1, 1), [0, 0, 0, 255]);
    assert_eq!(pixel(&canvas, 2, 2), [1, 1, 0, 255]);
    assert_eq!(pixel(&canvas, 0, 0), [0, 0, 0, 0]);
    assert_eq!(pixel(&canvas, 3, 1), [0, 0, 0, 0]);
    assert_eq!(pixel(&canvas, 1, 0), [0, 0, 0, 0]);
}
