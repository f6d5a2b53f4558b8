//! Forward mapping: where each monitor's tiles are drawn in the window.
//!
//! The window has one scale factor, the origin monitor's, so every tile is
//! placed at its physical offset from the desktop's top-left corner divided
//! by that factor, whatever the scale of the monitor it came from.
use vstd::prelude::*;
use crate::geometry::{to_logical_milli, LogicalRect, PixelRect};
use crate::layout::{all_wf, logical_milli, Edge, Layout, MonitorData};
use crate::tiles::{is_tiling, load_image_as_tiles, tile_count, Tile, MAX_TILE_SIZE};

verus! {

/// A tile of one monitor and the window-logical rectangle it is drawn in.
#[derive(Clone, Debug)]
pub struct PlacedTile {
    /// Index of the monitor the tile was cut from.
    pub monitor: usize,
    pub rect: LogicalRect,
    pub tile: Tile,
}

/// The window-logical rectangle for the part `t` of monitor `m`: its corners'
/// physical offsets from the desktop's top-left corner, at the origin
/// monitor's scale factor.
#[verifier::opaque]
pub open spec fn placement_rect(m: MonitorData, l: Layout, t: PixelRect) -> LogicalRect {
    let left = m.x - l.physical_x + t.x;
    let top = m.y - l.physical_y + t.y;
    let s = l.origin_scale_permille as int;
    LogicalRect {
        x: to_logical_milli(left, s) as i64,
        y: to_logical_milli(top, s) as i64,
        width: (to_logical_milli(left + t.width, s) - to_logical_milli(left, s)) as i64,
        height: (to_logical_milli(top + t.height, s) - to_logical_milli(top, s)) as i64,
    }
}

/// The number of tiles of the first `n` monitors.
pub open spec fn tiles_before(ms: Seq<MonitorData>, n: int) -> int
    decreases n,
{
    if n <= 0 {
        0
    } else {
        tiles_before(ms, n - 1) + tile_count(
            ms[n - 1].width as int,
            ms[n - 1].height as int,
            MAX_TILE_SIZE as int,
        )
    }
}

/// The tiles that the placed list holds for monitor `i`.
pub open spec fn monitor_tiles(r: Seq<PlacedTile>, ms: Seq<MonitorData>, i: int) -> Seq<Tile> {
    r.subrange(tiles_before(ms, i), tiles_before(ms, i + 1)).map_values(|p: PlacedTile| p.tile)
}

proof fn lemma_tile_count_nonneg(w: int, h: int, l: int)
    requires
        w >= 0,
        h >= 0,
        l > 0,
    ensures
        tile_count(w, h, l) >= 0,
{
    vstd::arithmetic::div_mod::lemma_div_pos_is_pos(w + l - 1, l);
    vstd::arithmetic::div_mod::lemma_div_pos_is_pos(h + l - 1, l);
    vstd::arithmetic::mul::lemma_mul_nonnegative((w + l - 1) / l, (h + l - 1) / l);
}

/// Appends the placed tiles of monitor `i` to `out`, in the row-major order
/// of its tiling.
fn place_monitor_tiles(monitors: &Vec<MonitorData>, i: usize, layout: &Layout, out: &mut Vec<PlacedTile>)
    requires
        i < monitors@.len(),
        all_wf(monitors@),
        layout.describes(monitors@),
        layout.origin_scale_permille > 0,
    ensures
        final(out)@.len() == old(out)@.len() + tile_count(
            monitors@[i as int].width as int,
            monitors@[i as int].height as int,
            MAX_TILE_SIZE as int,
        ),
        forall|k: int| 0 <= k < old(out)@.len() ==> #[trigger] final(out)@[k] == old(out)@[k],
        forall|k: int|
            old(out)@.len() <= k < final(out)@.len() ==> (#[trigger] final(out)@[k]).monitor == i
                && final(out)@[k].rect == placement_rect(
                monitors@[i as int],
                *layout,
                final(out)@[k].tile.rect(),
            ),
        is_tiling(
            monitors@[i as int].image,
            MAX_TILE_SIZE as int,
            final(out)@.subrange(old(out)@.len() as int, final(out)@.len() as int).map_values(
                |p: PlacedTile| p.tile,
            ),
        ),
{
    reveal(is_tiling);
    let m = &monitors[i];
    assert(m.wf());
    assert(layout.physical_x <= monitors@[i as int].edge(Edge::PhysLeft));
    assert(layout.physical_y <= monitors@[i as int].edge(Edge::PhysTop));
    let s = layout.origin_scale_permille;
    let mut tiles = load_image_as_tiles(&m.image);
    let ghost all_tiles = tiles@;
    let n_tiles: usize = tiles.len();
    let ghost start = out@.len() as int;
    let ghost before = out@;
    let base_x: i64 = m.x as i64 - layout.physical_x as i64;
    let base_y: i64 = m.y as i64 - layout.physical_y as i64;
    let mut t: usize = 0;
    while tiles.len() > 0
        invariant
            m.wf(),
            s == layout.origin_scale_permille,
            s > 0,
            base_x == m.x - layout.physical_x,
            base_y == m.y - layout.physical_y,
            0 <= base_x,
            0 <= base_y,
            is_tiling(m.image, MAX_TILE_SIZE as int, all_tiles),
            n_tiles == all_tiles.len(),
            t + tiles@.len() == all_tiles.len(),
            forall|q: int| 0 <= q < tiles@.len() ==> #[trigger] tiles@[q] == all_tiles[t + q],
            start == before.len(),
            out@.len() == start + t,
            forall|k: int| 0 <= k < start ==> #[trigger] out@[k] == before[k],
            forall|q: int| 0 <= q < t ==> (#[trigger] out@[start + q]).tile == all_tiles[q],
            forall|k: int|
                start <= k < out@.len() ==> (#[trigger] out@[k]).monitor == i && out@[k].rect
                    == placement_rect(*m, *layout, out@[k].tile.rect()),
        decreases tiles@.len(),
    {
        let tile = tiles.remove(0);
        proof {
            reveal(is_tiling);
        }
        assert(tile == all_tiles[t as int]);
        assert(tile.x + tile.width <= m.width && tile.y + tile.height <= m.height);
        let left: i64 = base_x + tile.x as i64;
        let top: i64 = base_y + tile.y as i64;
        let lx = logical_milli(left, s);
        let ly = logical_milli(top, s);
        let rx = logical_milli(left + tile.width as i64, s);
        let ry = logical_milli(top + tile.height as i64, s);
        let rect = LogicalRect { x: lx, y: ly, width: rx - lx, height: ry - ly };
        proof {
            reveal(placement_rect);
        }
        out.push(PlacedTile { monitor: i, rect, tile });
        t = t + 1;
    }
    let ghost placed = out@.subrange(start, out@.len() as int).map_values(|p: PlacedTile| p.tile);
    assert forall|q: int| 0 <= q < all_tiles.len() implies #[trigger] placed[q] == all_tiles[q] by {
        assert(out@[start + q].tile == all_tiles[q]);
    }
    assert(placed =~= all_tiles);
}

/// Cuts every monitor's image into tiles and places each tile in the window:
/// the tiles of monitor `i` follow those of the monitors before it, in the
/// row-major order of its own tiling.
pub fn load_screens_as_tiles(monitors: &Vec<MonitorData>, layout: &Layout) -> (r: Vec<PlacedTile>)
    requires
        monitors@.len() >= 1,
        all_wf(monitors@),
        layout.describes(monitors@),
        layout.origin_scale_permille > 0,
    ensures
        r@.len() == tiles_before(monitors@, monitors@.len() as int),
        forall|k: int|
            0 <= k < r@.len() ==> tiles_before(monitors@, (#[trigger] r@[k]).monitor as int) <= k
                < tiles_before(monitors@, r@[k].monitor + 1),
        forall|k: int|
            0 <= k < r@.len() ==> (#[trigger] r@[k]).monitor < monitors@.len() && r@[k].rect
                == placement_rect(monitors@[r@[k].monitor as int], *layout, r@[k].tile.rect()),
        forall|i: int|
            0 <= i < monitors@.len() ==> is_tiling(
                monitors@[i].image,
                MAX_TILE_SIZE as int,
                #[trigger] monitor_tiles(r@, monitors@, i),
            ),
{
    let ms = monitors;
    let mut r: Vec<PlacedTile> = Vec::new();
    let mut i: usize = 0;
    while i < ms.len()
        invariant
            i <= ms@.len(),
            all_wf(ms@),
            layout.describes(ms@),
            layout.origin_scale_permille > 0,
            r@.len() == tiles_before(ms@, i as int),
            forall|k: int|
                0 <= k < r@.len() ==> tiles_before(ms@, (#[trigger] r@[k]).monitor as int) <= k
                    < tiles_before(ms@, r@[k].monitor + 1),
            forall|k: int|
                0 <= k < r@.len() ==> (#[trigger] r@[k]).monitor < ms@.len() && r@[k].rect
                    == placement_rect(ms@[r@[k].monitor as int], *layout, r@[k].tile.rect()),
            forall|j: int|
                0 <= j < i ==> is_tiling(
                    ms@[j].image,
                    MAX_TILE_SIZE as int,
                    #[trigger] monitor_tiles(r@, ms@, j),
                ),
        decreases ms@.len() - i,
    {
        let ghost r_before = r@;
        place_monitor_tiles(ms, i, layout, &mut r);
        proof {
            lemma_tiles_before_nonneg(ms@, i as int);
            assert forall|j: int| 0 <= j < i + 1 implies is_tiling(
                ms@[j].image,
                MAX_TILE_SIZE as int,
                #[trigger] monitor_tiles(r@, ms@, j),
            ) by {
                if j < i {
                    lemma_tiles_before_mono(ms@, j + 1, i as int);
                    lemma_tiles_before_mono(ms@, j, j + 1);
                    lemma_tiles_before_nonneg(ms@, j);
                    assert(r@.subrange(tiles_before(ms@, j), tiles_before(ms@, j + 1))
                        =~= r_before.subrange(tiles_before(ms@, j), tiles_before(ms@, j + 1)));
                    assert(monitor_tiles(r@, ms@, j) == monitor_tiles(r_before, ms@, j));
                    assert(is_tiling(ms@[j].image, MAX_TILE_SIZE as int, monitor_tiles(r_before, ms@, j)));
                } else {
                    assert(tiles_before(ms@, i + 1) == r@.len());
                }
            }
            assert forall|k: int| 0 <= k < r@.len() implies (#[trigger] r@[k]).monitor < ms@.len()
                && r@[k].rect == placement_rect(ms@[r@[k].monitor as int], *layout, r@[k].tile.rect()) by {
                if k < r_before.len() {
                    assert(r@[k] == r_before[k]);
                }
            }
            assert forall|k: int| 0 <= k < r@.len() implies tiles_before(
                ms@,
                (#[trigger] r@[k]).monitor as int,
            ) <= k < tiles_before(ms@, r@[k].monitor + 1) by {
                if k < r_before.len() {
                    assert(r@[k] == r_before[k]);
                }
            }
        }
        i = i + 1;
    }
    r
}

/// The window-logical rectangle of each whole monitor, in monitor order.
pub fn monitor_rects(monitors: &Vec<MonitorData>, layout: &Layout) -> (r: Vec<LogicalRect>)
    requires
        all_wf(monitors@),
        layout.describes(monitors@),
        layout.origin_scale_permille > 0,
    ensures
        r@.len() == monitors@.len(),
        forall|i: int|
            0 <= i < monitors@.len() ==> #[trigger] r@[i] == placement_rect(
                monitors@[i],
                *layout,
                PixelRect { x: 0, y: 0, width: monitors@[i].width, height: monitors@[i].height },
            ),
{
    let mut r: Vec<LogicalRect> = Vec::new();
    let mut i: usize = 0;
    while i < monitors.len()
        invariant
            i <= monitors@.len(),
            all_wf(monitors@),
            layout.describes(monitors@),
            layout.origin_scale_permille > 0,
            r@.len() == i,
            forall|k: int|
                0 <= k < i ==> #[trigger] r@[k] == placement_rect(
                    monitors@[k],
                    *layout,
                    PixelRect { x: 0, y: 0, width: monitors@[k].width, height: monitors@[k].height },
                ),
        decreases monitors@.len() - i,
    {
        let m = &monitors[i];
        assert(m.wf());
        assert(layout.physical_x <= monitors@[i as int].edge(Edge::PhysLeft));
        assert(layout.physical_y <= monitors@[i as int].edge(Edge::PhysTop));
        let s = layout.origin_scale_permille;
        let left: i64 = m.x as i64 - layout.physical_x as i64;
        let top: i64 = m.y as i64 - layout.physical_y as i64;
        let lx = logical_milli(left, s);
        let ly = logical_milli(top, s);
        let rx = logical_milli(left + m.width as i64, s);
        let ry = logical_milli(top + m.height as i64, s);
        proof {
            reveal(placement_rect);
        }
        r.push(LogicalRect { x: lx, y: ly, width: rx - lx, height: ry - ly });
        i = i + 1;
    }
    r
}

proof fn lemma_tiles_before_nonneg(ms: Seq<MonitorData>, n: int)
    requires
        all_wf(ms),
        n <= ms.len(),
    ensures
        tiles_before(ms, n) >= 0,
    decreases n,
{
    if n > 0 {
        lemma_tiles_before_nonneg(ms, n - 1);
        lemma_tile_count_nonneg(ms[n - 1].width as int, ms[n - 1].height as int, MAX_TILE_SIZE as int);
    }
}

proof fn lemma_tiles_before_mono(ms: Seq<MonitorData>, a: int, b: int)
    requires
        all_wf(ms),
        0 <= a <= b <= ms.len(),
    ensures
        tiles_before(ms, a) <= tiles_before(ms, b),
    decreases b - a,
{
    if a < b {
        lemma_tiles_before_mono(ms, a, b - 1);
        lemma_tile_count_nonneg(ms[b - 1].width as int, ms[b - 1].height as int, MAX_TILE_SIZE as int);
    }
}

} // verus!
