//! Slicing an image into tiles no larger than a texture-size ceiling, by a
//! row-major sweep: rows top to bottom, tiles left to right within a row.
use vstd::prelude::*;
use crate::frame::{lemma_index_in_bounds, lemma_mul_succ, Frame};
use crate::geometry::{min_int, PixelRect};

verus! {

/// Longest tile edge that every graphics device accepts as a texture.
pub const MAX_TILE_SIZE: u32 = 2048;

/// A piece of a source image and where it sits in that image.
#[derive(Clone, Debug)]
pub struct Tile {
    pub x: u32,
    pub y: u32,
    pub width: u32,
    pub height: u32,
    pub image: Frame,
}

impl Tile {
    pub open spec fn rect(&self) -> PixelRect {
        PixelRect { x: self.x, y: self.y, width: self.width, height: self.height }
    }
}

/// `ceil(n / d)` for a positive `d`.
pub open spec fn ceil_div(n: int, d: int) -> int {
    (n + d - 1) / d
}

/// The number of tiles that an image of `width` x `height` is cut into.
pub open spec fn tile_count(width: int, height: int, max_edge: int) -> int {
    ceil_div(width, max_edge) * ceil_div(height, max_edge)
}

/// The tile in grid row `row` and column `col`: it starts at a multiple of
/// `max_edge` and is cut short at the image's right and bottom edges.
pub open spec fn grid_rect(width: int, height: int, max_edge: int, row: int, col: int) -> PixelRect {
    PixelRect {
        x: (col * max_edge) as u32,
        y: (row * max_edge) as u32,
        width: min_int(max_edge, width - col * max_edge) as u32,
        height: min_int(max_edge, height - row * max_edge) as u32,
    }
}

/// The entry for grid row `row`, column `col` of a row-major list of tiles
/// with `cols` tiles per row.
pub open spec fn grid_entry<T>(s: Seq<T>, cols: int, row: int, col: int) -> T {
    s[row * cols + col]
}

/// Total area of a list of rectangles.
pub open spec fn area_sum(s: Seq<PixelRect>) -> int
    decreases s.len(),
{
    if s.len() == 0 {
        0
    } else {
        area_sum(s.drop_last()) + s.last().width * s.last().height
    }
}

/// Whether the rectangle covers pixel (`px`, `py`).
pub open spec fn covers(r: PixelRect, px: int, py: int) -> bool {
    r.x <= px < r.x + r.width && r.y <= py < r.y + r.height
}

proof fn lemma_ceil_div(a: int, d: int, k: int)
    requires
        d > 0,
        k >= 1,
        (k - 1) * d < a <= k * d,
    ensures
        ceil_div(a, d) == k,
{
    lemma_mul_succ(k - 1, d);
    vstd::arithmetic::div_mod::lemma_fundamental_div_mod_converse(a + d - 1, d, k, a + d - 1 - k * d);
}

proof fn lemma_ceil_div_zero(d: int)
    requires
        d > 0,
    ensures
        ceil_div(0, d) == 0,
{
    vstd::arithmetic::div_mod::lemma_fundamental_div_mod_converse(d - 1, d, 0, d - 1);
}

/// The rectangles of the tile grid of a `width` x `height` image, row by row.
pub fn tile_grid(width: u32, height: u32, max_edge: u32) -> (r: Vec<PixelRect>)
    requires
        max_edge > 0,
    ensures
        r@.len() == tile_count(width as int, height as int, max_edge as int),
        forall|row: int, col: int|
            0 <= row < ceil_div(height as int, max_edge as int) && 0 <= col < ceil_div(
                width as int,
                max_edge as int,
            ) ==> #[trigger] grid_entry(r@, ceil_div(width as int, max_edge as int), row, col)
                == grid_rect(width as int, height as int, max_edge as int, row, col),
        area_sum(r@) == width * height,
{
    let ghost cols = ceil_div(width as int, max_edge as int);
    let ghost l = max_edge as int;
    proof {
        lemma_ceil_div_zero(l);
    }
    let mut r: Vec<PixelRect> = Vec::new();
    let mut cur_y: u32 = 0;
    let ghost mut row: int = 0;
    while cur_y < height
        invariant
            max_edge > 0,
            l == max_edge,
            cols == ceil_div(width as int, l),
            cur_y <= height,
            row >= 0,
            row == ceil_div(cur_y as int, l),
            cur_y == height || cur_y == row * l,
            r@.len() == row * cols,
            forall|rr: int, c: int|
                0 <= rr < row && 0 <= c < cols ==> #[trigger] grid_entry(r@, cols, rr, c)
                    == grid_rect(width as int, height as int, l, rr, c),
            area_sum(r@) == cur_y * width,
        decreases height - cur_y,
    {
        let th: u32 = if max_edge <= height - cur_y { max_edge } else { height - cur_y };
        let mut cur_x: u32 = 0;
        let ghost mut col: int = 0;
        proof {
            lemma_ceil_div_zero(l);
        }
        while cur_x < width
            invariant
                max_edge > 0,
                l == max_edge,
                cols == ceil_div(width as int, l),
                cur_y < height,
                cur_y == row * l,
                row >= 0,
                th == min_int(l, height - row * l),
                cur_x <= width,
                col >= 0,
                col == ceil_div(cur_x as int, l),
                cur_x == width || cur_x == col * l,
                r@.len() == row * cols + col,
                forall|rr: int, c: int|
                    0 <= rr < row && 0 <= c < cols ==> #[trigger] grid_entry(r@, cols, rr, c)
                        == grid_rect(width as int, height as int, l, rr, c),
                forall|c: int|
                    0 <= c < col ==> #[trigger] grid_entry(r@, cols, row, c) == grid_rect(
                        width as int,
                        height as int,
                        l,
                        row,
                        c,
                    ),
                area_sum(r@) == cur_y * width + cur_x * th,
            decreases width - cur_x,
        {
            let tw: u32 = if max_edge <= width - cur_x { max_edge } else { width - cur_x };
            let ghost prev = r@;
            r.push(PixelRect { x: cur_x, y: cur_y, width: tw, height: th });
            proof {
                assert(r@.drop_last() == prev);
                assert(cur_x * th + tw * th == (cur_x + tw) * th) by (nonlinear_arith);
                lemma_mul_succ(col, l);
                lemma_ceil_div(cur_x + tw, l, col + 1);
                assert forall|rr: int, c: int|
                    0 <= rr < row && 0 <= c < cols implies #[trigger] grid_entry(r@, cols, rr, c)
                    == grid_rect(width as int, height as int, l, rr, c) by {
                    lemma_index_in_bounds(cols, row, rr, c);
                    assert(grid_entry(prev, cols, rr, c) == grid_rect(
                        width as int,
                        height as int,
                        l,
                        rr,
                        c,
                    ));
                }
                assert forall|c: int|
                    0 <= c < col + 1 implies #[trigger] grid_entry(r@, cols, row, c) == grid_rect(
                    width as int,
                    height as int,
                    l,
                    row,
                    c,
                ) by {
                    if c < col {
                        assert(grid_entry(prev, cols, row, c) == grid_rect(
                            width as int,
                            height as int,
                            l,
                            row,
                            c,
                        ));
                    }
                }
            }
            cur_x = cur_x + tw;
            proof {
                col = col + 1;
            }
        }
        proof {
            assert(cur_y * width + width * th == (cur_y + th) * width) by (nonlinear_arith);
            lemma_mul_succ(row, cols);
            lemma_mul_succ(row, l);
            lemma_ceil_div(cur_y + th, l, row + 1);
        }
        cur_y = cur_y + th;
        proof {
            row = row + 1;
        }
    }
    r
}

/// `tiles` is the tiling of `image` with tiles of at most `max_edge` pixels a
/// side: `ceil(width / max_edge) * ceil(height / max_edge)` tiles in
/// row-major order, tile `t` at grid row `t / cols` and column `t % cols`
/// (`cols` tiles per row), each holding a copy of its pixels.
#[verifier::opaque]
pub open spec fn is_tiling(image: Frame, max_edge: int, tiles: Seq<Tile>) -> bool {
    let cols = ceil_div(image.width as int, max_edge);
    &&& tiles.len() == tile_count(image.width as int, image.height as int, max_edge)
    &&& forall|t: int|
        0 <= t < tiles.len() ==> (#[trigger] tiles[t]).rect() == grid_rect(
            image.width as int,
            image.height as int,
            max_edge,
            t / cols,
            t % cols,
        )
    &&& forall|t: int|
        0 <= t < tiles.len() ==> (#[trigger] tiles[t]).x + tiles[t].width <= image.width
            && tiles[t].y + tiles[t].height <= image.height
    &&& forall|t: int|
        0 <= t < tiles.len() ==> (#[trigger] tiles[t]).image.wf() && tiles[t].image.width
            == tiles[t].width && tiles[t].image.height == tiles[t].height
    &&& forall|t: int, x: int, y: int, c: int|
        0 <= t < tiles.len() && 0 <= x < tiles[t].width && 0 <= y < tiles[t].height && 0 <= c
            < 4 ==> #[trigger] tiles[t].image.pixel_byte(x, y, c) == image.pixel_byte(
            tiles[t].x + x,
            tiles[t].y + y,
            c,
        )
}

/// Cuts an image into tiles of at most `max_edge` pixels on each side, each
/// carrying its offset and size in the image and a copy of its pixels.
pub fn tile_image(image: &Frame, max_edge: u32) -> (tiles: Vec<Tile>)
    requires
        image.wf(),
        max_edge > 0,
    ensures
        is_tiling(*image, max_edge as int, tiles@),
{
    reveal(is_tiling);
    let rects = tile_grid(image.width, image.height, max_edge);
    let ghost cols = ceil_div(image.width as int, max_edge as int);
    let ghost rows = ceil_div(image.height as int, max_edge as int);
    assert forall|k: int| 0 <= k < rects@.len() implies #[trigger] rects@[k].x + rects@[k].width
        <= image.width && rects@[k].y + rects@[k].height <= image.height by {
        let row = k / cols;
        let col = k % cols;
        vstd::arithmetic::div_mod::lemma_div_pos_is_pos(image.height + max_edge - 1, max_edge as int);
        lemma_grid_position(k, rows, cols);
        assert(grid_entry(rects@, cols, row, col) == grid_rect(
            image.width as int,
            image.height as int,
            max_edge as int,
            row,
            col,
        ));
        lemma_grid_rect_inside(image.width as int, image.height as int, max_edge as int, row, col);
    }
    let mut tiles: Vec<Tile> = Vec::new();
    let mut k: usize = 0;
    while k < rects.len()
        invariant
            image.wf(),
            k <= rects@.len(),
            tiles@.len() == k,
            forall|k: int| 0 <= k < rects@.len() ==> #[trigger] rects@[k].x + rects@[k].width
                <= image.width && rects@[k].y + rects@[k].height <= image.height,
            forall|i: int| 0 <= i < k ==> (#[trigger] tiles@[i]).rect() == rects@[i],
            forall|i: int| 0 <= i < k ==> #[trigger] tiles@[i].image.wf(),
            forall|i: int|
                0 <= i < k ==> (#[trigger] tiles@[i]).image.width == tiles@[i].width
                    && tiles@[i].image.height == tiles@[i].height,
            forall|i: int, x: int, y: int, c: int|
                0 <= i < k && 0 <= x < tiles@[i].width && 0 <= y < tiles@[i].height && 0 <= c < 4
                    ==> #[trigger] tiles@[i].image.pixel_byte(x, y, c) == image.pixel_byte(
                    tiles@[i].x + x,
                    tiles@[i].y + y,
                    c,
                ),
        decreases rects@.len() - k,
    {
        let r = rects[k];
        let part = image.crop(r);
        tiles.push(Tile { x: r.x, y: r.y, width: r.width, height: r.height, image: part });
        k = k + 1;
    }
    assert forall|t: int| 0 <= t < tiles@.len() implies (#[trigger] tiles@[t]).rect() == grid_rect(
        image.width as int,
        image.height as int,
        max_edge as int,
        t / cols,
        t % cols,
    ) by {
        assert(cols * rows == rows * cols) by (nonlinear_arith);
        lemma_grid_position(t, rows, cols);
        assert(grid_entry(rects@, cols, t / cols, t % cols) == grid_rect(
            image.width as int,
            image.height as int,
            max_edge as int,
            t / cols,
            t % cols,
        ));
    }
    assert forall|t: int| 0 <= t < tiles@.len() implies (#[trigger] tiles@[t]).x + tiles@[t].width
        <= image.width && tiles@[t].y + tiles@[t].height <= image.height by {
        assert(tiles@[t].rect() == rects@[t]);
        assert(rects@[t].x + rects@[t].width <= image.width);
    }
    tiles
}

/// Cuts an image into tiles of at most [`MAX_TILE_SIZE`] pixels a side.
pub fn load_image_as_tiles(image: &Frame) -> (tiles: Vec<Tile>)
    requires
        image.wf(),
    ensures
        is_tiling(*image, MAX_TILE_SIZE as int, tiles@),
{
    tile_image(image, MAX_TILE_SIZE)
}

/// An index below `rows * cols` is row `k / cols`, column `k % cols` of the grid.
proof fn lemma_grid_position(k: int, rows: int, cols: int)
    requires
        rows >= 0,
        0 <= k < rows * cols,
    ensures
        cols > 0,
        0 <= k / cols < rows,
        0 <= k % cols < cols,
        k == (k / cols) * cols + k % cols,
{
    if cols <= 0 {
        assert(rows * cols <= 0) by (nonlinear_arith)
            requires
                cols <= 0,
                rows >= 0,
                rows * cols > k,
                k >= 0,
        ;
    }
    vstd::arithmetic::div_mod::lemma_fundamental_div_mod(k, cols);
    vstd::arithmetic::div_mod::lemma_mod_bound(k, cols);
    vstd::arithmetic::div_mod::lemma_div_pos_is_pos(k, cols);
    if k / cols >= rows {
        crate::frame::lemma_mul_le(rows, k / cols, cols);
    }
    assert((k / cols) * cols == cols * (k / cols)) by (nonlinear_arith);
}

/// A grid cell that lies in the grid lies inside the image.
proof fn lemma_grid_rect_inside(width: int, height: int, l: int, row: int, col: int)
    requires
        0 <= width <= u32::MAX,
        0 <= height <= u32::MAX,
        l > 0,
        0 <= row < ceil_div(height, l),
        0 <= col < ceil_div(width, l),
    ensures
        grid_rect(width, height, l, row, col).x + grid_rect(width, height, l, row, col).width
            <= width,
        grid_rect(width, height, l, row, col).y + grid_rect(width, height, l, row, col).height
            <= height,
{
    lemma_cell_start_inside(width, l, col);
    lemma_cell_start_inside(height, l, row);
}

/// Cell `i` of a sweep of `n` pixels in steps of `l` starts inside the sweep.
proof fn lemma_cell_start_inside(n: int, l: int, i: int)
    requires
        n >= 0,
        l > 0,
        0 <= i < ceil_div(n, l),
    ensures
        0 <= i * l < n,
{
    vstd::arithmetic::div_mod::lemma_fundamental_div_mod(n + l - 1, l);
    vstd::arithmetic::div_mod::lemma_mod_bound(n + l - 1, l);
    let q = ceil_div(n, l);
    crate::frame::lemma_mul_le(i + 1, q, l);
    lemma_mul_succ(i, l);
    vstd::arithmetic::mul::lemma_mul_nonnegative(i, l);
    assert(l * q == q * l) by (nonlinear_arith);
}

/// Along one axis of `n` pixels swept in steps of `l`, pixel `p` lies in
/// cell `p / l` and in no other cell.
proof fn lemma_axis_cell(n: int, l: int, p: int)
    requires
        l > 0,
        0 <= p < n,
        n <= u32::MAX,
    ensures
        0 <= p / l < ceil_div(n, l),
        (p / l) * l <= p < (p / l) * l + min_int(l, n - (p / l) * l),
        0 <= (p / l) * l <= u32::MAX,
        forall|i: int|
            0 <= i < ceil_div(n, l) && i * l <= p < i * l + #[trigger] min_int(l, n - i * l) ==> i
                == p / l,
{
    let q = p / l;
    vstd::arithmetic::div_mod::lemma_fundamental_div_mod(p, l);
    vstd::arithmetic::div_mod::lemma_mod_bound(p, l);
    vstd::arithmetic::div_mod::lemma_div_pos_is_pos(p, l);
    assert(l * q == q * l) by (nonlinear_arith);
    vstd::arithmetic::mul::lemma_mul_nonnegative(q, l);
    lemma_mul_succ(q, l);
    lemma_ceil_div_bound(n, l, q);
    assert forall|i: int|
        0 <= i < ceil_div(n, l) && i * l <= p < i * l + #[trigger] min_int(l, n - i * l) implies i
            == p / l by {
        vstd::arithmetic::div_mod::lemma_fundamental_div_mod_converse(p, l, i, p - i * l);
    }
}

/// A cell that starts before `n` has an index below `ceil(n / l)`.
proof fn lemma_ceil_div_bound(n: int, l: int, q: int)
    requires
        l > 0,
        q >= 0,
        q * l < n,
    ensures
        q < ceil_div(n, l),
{
    lemma_mul_succ(q, l);
    vstd::arithmetic::div_mod::lemma_div_is_ordered(q * l + l, n + l - 1, l);
    vstd::arithmetic::div_mod::lemma_div_multiples_vanish(q + 1, l);
    assert((q + 1) * l == l * (q + 1)) by (nonlinear_arith);
}

/// The tiles of an image cover every pixel exactly once: pixel (`px`, `py`)
/// lies in the tile at row `py / max_edge`, column `px / max_edge`, and in no
/// other tile of the grid.
pub proof fn lemma_tiles_partition_image(width: u32, height: u32, max_edge: u32, px: int, py: int)
    requires
        max_edge > 0,
        0 <= px < width,
        0 <= py < height,
    ensures
        0 <= py / (max_edge as int) < ceil_div(height as int, max_edge as int),
        0 <= px / (max_edge as int) < ceil_div(width as int, max_edge as int),
        covers(
            grid_rect(
                width as int,
                height as int,
                max_edge as int,
                py / (max_edge as int),
                px / (max_edge as int),
            ),
            px,
            py,
        ),
        forall|row: int, col: int|
            0 <= row < ceil_div(height as int, max_edge as int) && 0 <= col < ceil_div(
                width as int,
                max_edge as int,
            ) && #[trigger] covers(
                grid_rect(width as int, height as int, max_edge as int, row, col),
                px,
                py,
            ) ==> row == py / (max_edge as int) && col == px / (max_edge as int),
{
    let l = max_edge as int;
    lemma_axis_cell(width as int, l, px);
    lemma_axis_cell(height as int, l, py);
    assert forall|row: int, col: int|
        0 <= row < ceil_div(height as int, l) && 0 <= col < ceil_div(width as int, l)
            && #[trigger] covers(grid_rect(width as int, height as int, l, row, col), px, py)
        implies row == py / l && col == px / l by {
        lemma_grid_rect_inside(width as int, height as int, l, row, col);
        lemma_cell_start_inside(width as int, l, col);
        lemma_cell_start_inside(height as int, l, row);
    }
}

/// Two distinct cells of the tile grid share no pixel.
pub proof fn lemma_tiles_disjoint(
    width: u32,
    height: u32,
    max_edge: u32,
    row1: int,
    col1: int,
    row2: int,
    col2: int,
    px: int,
    py: int,
)
    requires
        max_edge > 0,
        0 <= row1 < ceil_div(height as int, max_edge as int),
        0 <= col1 < ceil_div(width as int, max_edge as int),
        0 <= row2 < ceil_div(height as int, max_edge as int),
        0 <= col2 < ceil_div(width as int, max_edge as int),
        covers(grid_rect(width as int, height as int, max_edge as int, row1, col1), px, py),
        covers(grid_rect(width as int, height as int, max_edge as int, row2, col2), px, py),
    ensures
        row1 == row2,
        col1 == col2,
{
    let l = max_edge as int;
    lemma_grid_rect_inside(width as int, height as int, l, row1, col1);
    lemma_cell_start_inside(width as int, l, col1);
    lemma_cell_start_inside(height as int, l, row1);
    lemma_tiles_partition_image(width, height, max_edge, px, py);
}

} // verus!
