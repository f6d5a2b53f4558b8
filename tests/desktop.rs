use crab_grab::capture::{capture_all_screens, CaptureError, Grabbed};
use crab_grab::frame::Frame;
use crab_grab::layout::{find_overlap, resolve_layout, MonitorData};
use crab_grab::placement::{load_screens_as_tiles, monitor_rects};
use crab_grab::stitch::stitch;
use rayon::iter::{IntoParallelRefIterator, ParallelIterator};

fn solid(width: u32, height: u32, rgba: [u8; 4]) -> Frame {
    let mut pixels = Vec::with_capacity((width * height * 4) as usize);
    for _ in 0..width * height {
        pixels.extend_from_slice(&rgba);
    }
    Frame::new(width, height, pixels).unwrap()
}

fn monitor(x: i32, y: i32, width: u32, height: u32, scale_permille: u32, rgba: [u8; 4]) -> MonitorData {
    MonitorData { x, y, width, height, scale_permille, image: solid(width, height, rgba) }
}

fn pixel(f: &Frame, x: u32, y: u32) -> [u8; 4] {
    let i = ((y * f.width + x) * 4) as usize;
    [f.pixels[i], f.pixels[i + 1], f.pixels[i + 2], f.pixels[i + 3]]
}

fn grabbed(id: u32, m: MonitorData) -> Grabbed {
    Grabbed { display_id: id, data: Some(m) }
}

#[test]
fn mixed_scale_layout_bounding_boxes() {
    let ms = vec![
        monitor(0, 0, 1920, 1080, 1000, [1, 1, 1, 255]),
        monitor(1920, 0, 3840, 2160, 2000, [2, 2, 2, 255]),
    ];
    let l = resolve_layout(&ms);
    assert_eq!((l.physical_x, l.physical_y), (0, 0));
    assert_eq!((l.physical_width, l.physical_height), (5760, 2160));
    assert_eq!(l.origin_index, Some(0));
    assert_eq!(l.origin_scale_permille, 1000);
    assert_eq!((l.logical_x, l.logical_y), (0, 0));
    // the second monitor spans 960..2880 logical px at its own scale
    assert_eq!(l.logical_width, 2_880_000);
    assert_eq!(l.logical_height, 1_080_000);
}

#[test]
fn layout_with_negative_origin() {
    let ms = vec![
        monitor(-1280, 0, 1280, 1024, 1250, [1, 0, 0, 255]),
        monitor(0, 0, 1920, 1080, 1000, [0, 1, 0, 255]),
    ];
    let l = resolve_layout(&ms);
    assert_eq!((l.physical_x, l.physical_y), (-1280, 0));
    assert_eq!((l.physical_width, l.physical_height), (3200, 1080));
    assert_eq!(l.origin_index, Some(0));
    assert_eq!(l.origin_scale_permille, 1250);
    assert_eq!((l.logical_x, l.logical_y), (-1_024_000, 0));
    assert_eq!(l.logical_width, 2_944_000);
    assert_eq!(l.logical_height, 1_080_000);
}

#[test]
fn single_monitor_layout_is_identity() {
    let ms = vec![monitor(0, 0, 800, 600, 1500, [0, 0, 0, 255])];
    let l = resolve_layout(&ms);
    assert_eq!((l.physical_width, l.physical_height), (800, 600));
    assert_eq!(l.origin_index, Some(0));
    assert_eq!(l.origin_scale_permille, 1500);
    assert_eq!(l.logical_width, 533_333);
    assert_eq!(l.logical_height, 400_000);
}

#[test]
fn layout_without_monitor_at_the_corner_uses_unit_scale() {
    let ms = vec![
        monitor(0, 100, 100, 100, 2000, [0, 0, 0, 255]),
        monitor(100, 0, 100, 100, 1500, [0, 0, 0, 255]),
    ];
    let l = resolve_layout(&ms);
    assert_eq!((l.physical_x, l.physical_y), (0, 0));
    assert_eq!(l.origin_index, None);
    assert_eq!(l.origin_scale_permille, 1000);
}

#[test]
fn first_monitor_at_the_corner_wins() {
    let ms = vec![
        monitor(10, 0, 4, 4, 1000, [0, 0, 0, 255]),
        monitor(0, 0, 4, 4, 1250, [0, 0, 0, 255]),
        monitor(0, 0, 4, 4, 1750, [0, 0, 0, 255]),
    ];
    let l = resolve_layout(&ms);
    assert_eq!(l.origin_index, Some(1));
    assert_eq!(l.origin_scale_permille, 1250);
}

#[test]
fn stitch_places_monitors_at_their_offsets() {
    let ms = vec![
        monitor(-2, 0, 2, 2, 1000, [10, 0, 0, 255]),
        monitor(0, 1, 2, 2, 1000, [0, 20, 0, 255]),
    ];
    let l = resolve_layout(&ms);
    let canvas = stitch(&ms, &l);
    assert_eq!((canvas.width, canvas.height), (4, 3));
    assert_eq!(pixel(&canvas, 0, 0), [10, 0, 0, 255]);
    assert_eq!(pixel(&canvas, 1, 1), [10, 0, 0, 255]);
    assert_eq!(pixel(&canvas, 2, 1), [0, 20, 0, 255]);
    assert_eq!(pixel(&canvas, 3, 2), [0, 20, 0, 255]);
    assert_eq!(pixel(&canvas, 2, 0), [0, 0, 0, 0]);
    assert_eq!(pixel(&canvas, 0, 2), [0, 0, 0, 0]);
}

#[test]
fn overlapping_monitors_last_one_wins() {
    let ms = vec![
        monitor(0, 0, 3, 3, 1000, [1, 1, 1, 255]),
        monitor(2, 2, 3, 3, 1000, [2, 2, 2, 255]),
    ];
    assert_eq!(find_overlap(&ms), Some((0, 1)));
    let l = resolve_layout(&ms);
    let canvas = stitch(&ms, &l);
    assert_eq!(pixel(&canvas, 2, 2), [2, 2, 2, 255]);
    assert_eq!(pixel(&canvas, 1, 1), [1, 1, 1, 255]);
    assert_eq!(pixel(&canvas, 4, 0), [0, 0, 0, 0]);
}

#[test]
fn side_by_side_monitors_do_not_overlap() {
    let ms = vec![
        monitor(0, 0, 3, 3, 1000, [1, 1, 1, 255]),
        monitor(3, 0, 3, 3, 1000, [2, 2, 2, 255]),
        monitor(0, 3, 6, 1, 1000, [3, 3, 3, 255]),
    ];
    assert_eq!(find_overlap(&ms), None);
}

#[test]
fn capture_without_displays_fails() {
    assert_eq!(capture_all_screens(Vec::new()).err(), Some(CaptureError::NoDisplaysFound));
}

#[test]
fn capture_reports_the_first_failed_display() {
    let grabs = vec![
        grabbed(3, monitor(0, 0, 2, 2, 1000, [0, 0, 0, 255])),
        Grabbed { display_id: 7, data: None },
        Grabbed { display_id: 9, data: None },
    ];
    assert_eq!(capture_all_screens(grabs).err(), Some(CaptureError::CaptureFailed(7)));
}

#[test]
fn capture_rejects_mismatched_buffers() {
    let mut bad = monitor(0, 0, 2, 2, 1000, [0, 0, 0, 255]);
    bad.width = 3;
    let grabs = vec![grabbed(1, monitor(2, 0, 2, 2, 1000, [0, 0, 0, 255])), grabbed(4, bad)];
    assert_eq!(capture_all_screens(grabs).err(), Some(CaptureError::CaptureFailed(4)));
    let zero_scale = monitor(0, 0, 2, 2, 0, [0, 0, 0, 255]);
    assert_eq!(
        capture_all_screens(vec![grabbed(5, zero_scale)]).err(),
        Some(CaptureError::CaptureFailed(5))
    );
}

#[test]
fn capture_composes_layout_and_canvas() {
    let grabs = vec![
        grabbed(1, monitor(0, 0, 2, 2, 1000, [5, 5, 5, 255])),
        grabbed(2, monitor(2, 0, 2, 2, 2000, [6, 6, 6, 255])),
    ];
    let cd = capture_all_screens(grabs).unwrap();
    assert_eq!(cd.monitors.len(), 2);
    assert_eq!((cd.layout.physical_width, cd.layout.physical_height), (4, 2));
    assert_eq!(cd.layout.origin_scale_permille, 1000);
    assert_eq!((cd.full_image.width, cd.full_image.height), (4, 2));
    assert_eq!(pixel(&cd.full_image, 1, 1), [5, 5, 5, 255]);
    assert_eq!(pixel(&cd.full_image, 3, 0), [6, 6, 6, 255]);
}

#[test]
fn placement_uses_the_origin_scale() {
    let ms = vec![
        monitor(0, 0, 4, 2, 2000, [1, 1, 1, 255]),
        monitor(4, 0, 2, 2, 1000, [2, 2, 2, 255]),
    ];
    let l = resolve_layout(&ms);
    assert_eq!(l.origin_scale_permille, 2000);
    let placed = load_screens_as_tiles(&ms, &l);
    assert_eq!(placed.len(), 2);
    assert_eq!(placed[0].monitor, 0);
    assert_eq!((placed[0].rect.x, placed[0].rect.y), (0, 0));
    assert_eq!((placed[0].rect.width, placed[0].rect.height), (2000, 1000));
    assert_eq!(placed[1].monitor, 1);
    assert_eq!((placed[1].rect.x, placed[1].rect.y), (2000, 0));
    assert_eq!((placed[1].rect.width, placed[1].rect.height), (1000, 1000));
    assert_eq!(placed[1].tile.image.pixels, ms[1].image.pixels);
}

#[test]
fn placement_of_a_large_monitor_is_tiled() {
    let ms = vec![monitor(0, 0, 4500, 10, 1000, [9, 9, 9, 255])];
    let l = resolve_layout(&ms);
    let placed = load_screens_as_tiles(&ms, &l);
    assert_eq!(placed.len(), 3);
    let xs: Vec<i64> = placed.iter().map(|p| p.rect.x).collect();
    assert_eq!(xs, vec![0, 2_048_000, 4_096_000]);
    assert_eq!(placed[2].rect.width, 404_000);
    assert_eq!(placed[2].tile.width, 404);
}

#[test]
fn monitor_rects_follow_the_origin_scale() {
    let ms = vec![
        monitor(-100, 0, 100, 50, 1250, [1, 1, 1, 255]),
        monitor(0, 0, 300, 200, 1000, [2, 2, 2, 255]),
    ];
    let l = resolve_layout(&ms);
    let rects = monitor_rects(&ms, &l);
    assert_eq!(rects.len(), 2);
    assert_eq!((rects[0].x, rects[0].y, rects[0].width, rects[0].height), (0, 0, 80_000, 40_000));
    assert_eq!((rects[1].x, rects[1].y, rects[1].width, rects[1].height), (80_000, 0, 240_000, 160_000));
}

/// A deterministic source of pixels for a display: a linear congruential
/// sequence seeded by the display id.
fn synthetic_grab(id: u32) -> Grabbed {
    let (width, height) = (16 + id * 3, 9 + id);
    let mut state: u64 = 0x9E37_79B9_7F4A_7C15 ^ id as u64;
    let mut pixels = Vec::new();
    for _ in 0..width * height * 4 {
        state = state.wrapping_mul(6364136223846793005).wrapping_add(1442695040888963407);
        pixels.push((state >> 56) as u8);
    }
    let image = Frame::new(width, height, pixels).unwrap();
    let x = (id as i32) * 40 - 60;
    Grabbed {
        display_id: id,
        data: Some(MonitorData { x, y: (id as i32) * 5, width, height, scale_permille: 1000 + id * 250, image }),
    }
}

#[test]
fn parallel_and_sequential_grabs_agree() {
    let ids: Vec<u32> = vec![0, 1, 2, 3];
    let parallel: Vec<Grabbed> = ids.par_iter().map(|&id| synthetic_grab(id)).collect();
    let sequential: Vec<Grabbed> = ids.iter().map(|&id| synthetic_grab(id)).collect();
    let a = capture_all_screens(parallel).unwrap();
    let b = capture_all_screens(sequential).unwrap();
    assert_eq!(a.monitors.len(), 4);
    for (ma, mb) in a.monitors.iter().zip(b.monitors.iter()) {
        assert_eq!((ma.x, ma.y, ma.width, ma.height), (mb.x, mb.y, mb.width, mb.height));
        assert_eq!(ma.image.pixels, mb.image.pixels);
    }
    for (i, m) in a.monitors.iter().enumerate() {
        let expected = synthetic_grab(i as u32).data.unwrap();
        assert_eq!(m.image.pixels, expected.image.pixels);
    }
    assert_eq!(a.layout, b.layout);
    assert_eq!(a.full_image.pixels, b.full_image.pixels);
}
