//! Coordinate spaces and the inverse mapping from a drawn selection to a crop.
//!
//! Physical coordinates are device pixels. Logical coordinates are kept in
//! fixed point: one unit is a thousandth of a logical pixel ("milli"), so a
//! logical size of 0.5 is written `500`. Display-scale factors are kept in
//! thousandths as well (`1500` is 150 % scaling).
use vstd::prelude::*;

verus! {

/// Milli-units in one logical pixel, and per-mille in a scale factor of 1.0.
pub const MILLI: i64 = 1000;

/// A rectangle in physical pixels of a source image.
#[derive(Clone, Copy, Debug, PartialEq, Eq, Structural)]
pub struct PixelRect {
    pub x: u32,
    pub y: u32,
    pub width: u32,
    pub height: u32,
}

/// The size of a source image in physical pixels.
#[derive(Clone, Copy, Debug, PartialEq, Eq, Structural)]
pub struct PixelSize {
    pub width: u32,
    pub height: u32,
}

/// A rectangle in window-logical milli-units (origin at the window's top-left).
#[derive(Clone, Copy, Debug, PartialEq, Eq, Structural)]
pub struct LogicalRect {
    pub x: i64,
    pub y: i64,
    pub width: i64,
    pub height: i64,
}

/// The observed logical size of the window, in milli-units.
#[derive(Clone, Copy, Debug, PartialEq, Eq, Structural)]
pub struct LogicalSize {
    pub width: i64,
    pub height: i64,
}

pub open spec fn min_int(a: int, b: int) -> int {
    if a <= b { a } else { b }
}

pub open spec fn max_int(a: int, b: int) -> int {
    if a >= b { a } else { b }
}

/// `floor(v * num / den)` for a positive `den`: a length or coordinate `v`
/// carried through the ratio `num / den`.
pub open spec fn scale_floor(v: int, num: int, den: int) -> int {
    (v * num) / den
}

/// A physical length or coordinate `p` shown at scale factor `permille`,
/// in logical milli-units (rounded down).
pub open spec fn to_logical_milli(p: int, permille: int) -> int {
    scale_floor(p, MILLI * MILLI, permille)
}

/// `floor(n / d)` for a positive divisor.
pub fn floor_div(n: i128, d: i128) -> (r: i128)
    requires
        d > 0,
        n > i128::MIN,
    ensures
        r == n / d,
{
    if n >= 0 {
        n / d
    } else {
        let m: i128 = -n;
        let q: i128 = (m - 1) / d;
        proof {
            lemma_floor_of_negative(n as int, d as int, q as int);
        }
        -q - 1
    }
}

proof fn lemma_floor_of_negative(n: int, d: int, q: int)
    requires
        n < 0,
        d > 0,
        q == (-n - 1) / d,
    ensures
        n / d == -q - 1,
{
    let m = -n - 1;
    vstd::arithmetic::div_mod::lemma_fundamental_div_mod(m, d);
    let r = m % d;
    assert(0 <= r < d) by {
        vstd::arithmetic::div_mod::lemma_mod_bound(m, d);
    }
    assert(n == (-q - 1) * d + (d - 1 - r)) by (nonlinear_arith)
        requires
            m == d * q + r,
            n == -m - 1,
    ;
    vstd::arithmetic::div_mod::lemma_fundamental_div_mod_converse(n, d, -q - 1, d - 1 - r);
}

/// Keeps a crop rectangle inside an image: the corner is moved to the last
/// row and column at most, and the extent is cut so that
/// `x + width <= image.width` and `y + height <= image.height`.
pub open spec fn clamp_spec(r: PixelRect, image: PixelSize) -> PixelRect
    recommends
        image.width >= 1,
        image.height >= 1,
{
    let x = min_int(r.x as int, image.width - 1);
    let y = min_int(r.y as int, image.height - 1);
    PixelRect {
        x: x as u32,
        y: y as u32,
        width: min_int(r.width as int, image.width - x) as u32,
        height: min_int(r.height as int, image.height - y) as u32,
    }
}

/// Clamps a crop rectangle to the bounds of a non-empty image.
pub fn clamp_crop(r: PixelRect, image: PixelSize) -> (c: PixelRect)
    requires
        image.width >= 1,
        image.height >= 1,
    ensures
        c == clamp_spec(r, image),
        c.x < image.width,
        c.y < image.height,
        c.x + c.width <= image.width,
        c.y + c.height <= image.height,
{
    let x = if r.x <= image.width - 1 { r.x } else { image.width - 1 };
    let y = if r.y <= image.height - 1 { r.y } else { image.height - 1 };
    let width = if r.width <= image.width - x { r.width } else { image.width - x };
    let height = if r.height <= image.height - y { r.height } else { image.height - y };
    PixelRect { x, y, width, height }
}

/// A coordinate or extent carried from the window onto the image: scaled by
/// `image / window`, rounded down, negative values saturated to zero.
pub open spec fn to_pixels(v: int, image: int, window: int) -> int {
    max_int(0, scale_floor(v, image, window))
}

/// The crop rectangle that a selection maps to, before clamping.
pub open spec fn unclamped_crop(sel: LogicalRect, window: LogicalSize, image: PixelSize) -> PixelRect {
    PixelRect {
        x: min_int(to_pixels(sel.x as int, image.width as int, window.width as int), u32::MAX as int) as u32,
        y: min_int(to_pixels(sel.y as int, image.height as int, window.height as int), u32::MAX as int) as u32,
        width: min_int(to_pixels(sel.width as int, image.width as int, window.width as int), u32::MAX as int) as u32,
        height: min_int(to_pixels(sel.height as int, image.height as int, window.height as int), u32::MAX as int) as u32,
    }
}

/// A selection is degenerate when it spans at most one logical pixel on
/// an axis, or when its clamped crop spans at most one physical pixel.
pub open spec fn is_degenerate(sel: LogicalRect, window: LogicalSize, image: PixelSize) -> bool {
    ||| window.width <= 0
    ||| window.height <= 0
    ||| image.width < 2
    ||| image.height < 2
    ||| sel.width <= MILLI
    ||| sel.height <= MILLI
    ||| clamp_spec(unclamped_crop(sel, window, image), image).width <= 1
    ||| clamp_spec(unclamped_crop(sel, window, image), image).height <= 1
}

/// The crop that a selection maps to, or `None` for a degenerate selection.
pub open spec fn crop_of_selection(sel: LogicalRect, window: LogicalSize, image: PixelSize) -> Option<
    PixelRect,
> {
    if is_degenerate(sel, window, image) {
        None
    } else {
        Some(clamp_spec(unclamped_crop(sel, window, image), image))
    }
}

/// Carries one coordinate or extent from window units onto image pixels.
fn axis_to_pixels(v: i64, image: u32, window: i64) -> (r: u32)
    requires
        window > 0,
    ensures
        r == min_int(to_pixels(v as int, image as int, window as int), u32::MAX as int),
{
    assert((v as int) * (image as int) <= i64::MAX * u32::MAX) by (nonlinear_arith)
        requires
            v <= i64::MAX,
            0 <= image <= u32::MAX,
    ;
    assert((v as int) * (image as int) >= i64::MIN * u32::MAX) by (nonlinear_arith)
        requires
            v >= i64::MIN,
            0 <= image <= u32::MAX,
    ;
    let prod: i128 = (v as i128) * (image as i128);
    let q = floor_div(prod, window as i128);
    if q <= 0 {
        0
    } else if q >= u32::MAX as i128 {
        u32::MAX
    } else {
        q as u32
    }
}

/// Maps a rectangle drawn in window-logical coordinates to the matching
/// rectangle of the captured image: each axis is scaled by
/// `image size / window size`, rounded down, saturated at zero and clamped to
/// the image. A degenerate selection maps to `None`.
pub fn map_selection_to_crop(sel: LogicalRect, window: LogicalSize, image: PixelSize) -> (r: Option<
    PixelRect,
>)
    ensures
        r == crop_of_selection(sel, window, image),
        r is Some <==> !is_degenerate(sel, window, image),
        r matches Some(c) ==> {
            &&& c.width >= 2
            &&& c.height >= 2
            &&& c.x + c.width <= image.width
            &&& c.y + c.height <= image.height
        },
{
    if window.width <= 0 || window.height <= 0 || image.width < 2 || image.height < 2 {
        return None;
    }
    if sel.width <= MILLI || sel.height <= MILLI {
        return None;
    }
    let raw = PixelRect {
        x: axis_to_pixels(sel.x, image.width, window.width),
        y: axis_to_pixels(sel.y, image.height, window.height),
        width: axis_to_pixels(sel.width, image.width, window.width),
        height: axis_to_pixels(sel.height, image.height, window.height),
    };
    let c = clamp_crop(raw, image);
    if c.width <= 1 || c.height <= 1 {
        None
    } else {
        Some(c)
    }
}

/// Clamping is idempotent: a rectangle that was clamped to an image is left
/// as it is by clamping it again.
pub proof fn lemma_clamp_idempotent(r: PixelRect, image: PixelSize)
    requires
        image.width >= 1,
        image.height >= 1,
    ensures
        clamp_spec(clamp_spec(r, image), image) == clamp_spec(r, image),
{
}

/// A selection that covers the whole window maps to the whole image, for any
/// ratio between window and image size, when both span more than one pixel.
pub proof fn lemma_full_selection_maps_to_full_image(window: LogicalSize, image: PixelSize)
    requires
        window.width > MILLI,
        window.height > MILLI,
        image.width >= 2,
        image.height >= 2,
    ensures
        crop_of_selection(
            LogicalRect { x: 0, y: 0, width: window.width, height: window.height },
            window,
            image,
        ) == Some(PixelRect { x: 0, y: 0, width: image.width, height: image.height }),
{
    let sel = LogicalRect { x: 0, y: 0, width: window.width, height: window.height };
    lemma_scale_back(window.width as int, image.width as int);
    lemma_scale_back(window.height as int, image.height as int);
    assert(scale_floor(0, image.width as int, window.width as int) == 0);
    assert(scale_floor(0, image.height as int, window.height as int) == 0);
    assert(unclamped_crop(sel, window, image) == PixelRect {
        x: 0,
        y: 0,
        width: image.width,
        height: image.height,
    });
}

proof fn lemma_scale_back(w: int, n: int)
    requires
        w > 0,
        n >= 0,
    ensures
        scale_floor(w, n, w) == n,
{
    assert(w * n == n * w) by (nonlinear_arith);
    vstd::arithmetic::div_mod::lemma_div_by_multiple(n, w);
}

/// A selection no wider or no taller than one logical pixel is rejected.
pub proof fn lemma_small_selection_rejected(sel: LogicalRect, window: LogicalSize, image: PixelSize)
    requires
        sel.width <= MILLI || sel.height <= MILLI,
    ensures
        crop_of_selection(sel, window, image) is None,
{
}

} // verus!
