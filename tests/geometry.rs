use crab_grab::geometry::{
    clamp_crop, floor_div, map_selection_to_crop, LogicalRect, LogicalSize, PixelRect, PixelSize,
};
use crab_grab::layout::logical_milli;

fn sel(x: i64, y: i64, width: i64, height: i64) -> LogicalRect {
    LogicalRect { x, y, width, height }
}

#[test]
fn full_window_selection_maps_to_full_image() {
    let window = LogicalSize { width: 1_280_000, height: 720_000 };
    let image = PixelSize { width: 1920, height: 1080 };
    let r = map_selection_to_crop(sel(0, 0, 1_280_000, 720_000), window, image);
    assert_eq!(r, Some(PixelRect { x: 0, y: 0, width: 1920, height: 1080 }));
}

#[test]
fn full_window_selection_with_uneven_ratio() {
    let window = LogicalSize { width: 1_000_000, height: 1_000_000 };
    let image = PixelSize { width: 333, height: 777 };
    let r = map_selection_to_crop(sel(0, 0, 1_000_000, 1_000_000), window, image);
    assert_eq!(r, Some(PixelRect { x: 0, y: 0, width: 333, height: 777 }));
}

#[test]
fn half_pixel_selection_is_rejected() {
    let window = LogicalSize { width: 1_920_000, height: 1_080_000 };
    let image = PixelSize { width: 3840, height: 2160 };
    assert_eq!(map_selection_to_crop(sel(100_000, 100_000, 500, 500), window, image), None);
}

#[test]
fn selection_of_one_logical_pixel_is_rejected_even_when_scaled_up() {
    let window = LogicalSize { width: 100_000, height: 100_000 };
    let image = PixelSize { width: 1000, height: 1000 };
    assert_eq!(map_selection_to_crop(sel(0, 0, 1000, 5000), window, image), None);
    assert!(map_selection_to_crop(sel(0, 0, 1001, 5000), window, image).is_some());
}

#[test]
fn selection_is_scaled_per_axis() {
    let window = LogicalSize { width: 1_000_000, height: 500_000 };
    let image = PixelSize { width: 2000, height: 1500 };
    let r = map_selection_to_crop(sel(100_000, 50_000, 200_000, 100_000), window, image);
    assert_eq!(r, Some(PixelRect { x: 200, y: 150, width: 400, height: 300 }));
}

#[test]
fn selection_coordinates_round_down() {
    let window = LogicalSize { width: 3_000_000, height: 3_000_000 };
    let image = PixelSize { width: 1000, height: 1000 };
    // 1000 / 3000 = 0.333...: 10 logical px -> 3.33 px, 20 -> 6.66 px
    let r = map_selection_to_crop(sel(10_000, 10_000, 20_000, 20_000), window, image);
    assert_eq!(r, Some(PixelRect { x: 3, y: 3, width: 6, height: 6 }));
}

#[test]
fn selection_dragged_past_the_edges_is_clamped() {
    let window = LogicalSize { width: 1_000_000, height: 1_000_000 };
    let image = PixelSize { width: 1000, height: 1000 };
    let r = map_selection_to_crop(sel(-50_000, 900_000, 300_000, 300_000), window, image);
    assert_eq!(r, Some(PixelRect { x: 0, y: 900, width: 300, height: 100 }));
}

#[test]
fn selection_starting_outside_the_image_is_rejected() {
    let window = LogicalSize { width: 1_000_000, height: 1_000_000 };
    let image = PixelSize { width: 1000, height: 1000 };
    assert_eq!(map_selection_to_crop(sel(1_200_000, 0, 300_000, 300_000), window, image), None);
}

#[test]
fn empty_window_or_image_gives_no_crop() {
    let s = sel(0, 0, 10_000, 10_000);
    let image = PixelSize { width: 100, height: 100 };
    assert_eq!(map_selection_to_crop(s, LogicalSize { width: 0, height: 100_000 }, image), None);
    let window = LogicalSize { width: 100_000, height: 100_000 };
    assert_eq!(map_selection_to_crop(s, window, PixelSize { width: 1, height: 100 }), None);
}

#[test]
fn clamping_twice_changes_nothing() {
    let image = PixelSize { width: 1920, height: 1080 };
    let once = clamp_crop(PixelRect { x: 1900, y: 1000, width: 100, height: 100 }, image);
    assert_eq!(once, PixelRect { x: 1900, y: 1000, width: 20, height: 80 });
    assert_eq!(clamp_crop(once, image), once);
}

#[test]
fn clamping_moves_corner_inside() {
    let image = PixelSize { width: 10, height: 10 };
    let c = clamp_crop(PixelRect { x: 50, y: 3, width: 4, height: 20 }, image);
    assert_eq!(c, PixelRect { x: 9, y: 3, width: 1, height: 7 });
}

#[test]
fn floor_division_rounds_toward_negative_infinity() {
    assert_eq!(floor_div(7, 2), 3);
    assert_eq!(floor_div(-7, 2), -4);
    assert_eq!(floor_div(-8, 2), -4);
    assert_eq!(floor_div(0, 5), 0);
}

#[test]
fn logical_conversion_divides_by_scale() {
    assert_eq!(logical_milli(1920, 2000), 960_000);
    assert_eq!(logical_milli(1920, 1500), 1_280_000);
    assert_eq!(logical_milli(-1, 3000), -334);
    assert_eq!(logical_milli(100, 1000), 100_000);
}
