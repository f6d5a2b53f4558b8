//! The virtual desktop: monitors, their bounding boxes in physical and
//! logical coordinates, and the origin monitor.
use vstd::prelude::*;
use crate::frame::Frame;
use crate::geometry::{floor_div, to_logical_milli, MILLI};

verus! {

/// One captured display: its rectangle in device pixels (the origin may be
/// negative), its scale factor in per-mille, and its pixels.
#[derive(Clone, Debug)]
pub struct MonitorData {
    pub x: i32,
    pub y: i32,
    pub width: u32,
    pub height: u32,
    pub scale_permille: u32,
    pub image: Frame,
}

/// A side of a monitor's rectangle, in physical pixels or in logical
/// milli-units.
#[derive(Clone, Copy, Debug, PartialEq, Eq, Structural)]
pub enum Edge {
    PhysLeft,
    PhysTop,
    PhysRight,
    PhysBottom,
    LogLeft,
    LogTop,
    LogRight,
    LogBottom,
}

impl MonitorData {
    /// The rectangle ends inside the `i32` range, the scale factor is
    /// positive and the image has the rectangle's size.
    pub open spec fn wf(&self) -> bool {
        &&& self.x + self.width <= i32::MAX
        &&& self.y + self.height <= i32::MAX
        &&& self.scale_permille > 0
        &&& self.image.wf()
        &&& self.image.width == self.width
        &&& self.image.height == self.height
    }

    /// The coordinate of one side: a logical side is the physical one divided
    /// by this monitor's own scale factor.
    pub open spec fn edge(&self, e: Edge) -> int {
        match e {
            Edge::PhysLeft => self.x as int,
            Edge::PhysTop => self.y as int,
            Edge::PhysRight => self.x + self.width,
            Edge::PhysBottom => self.y + self.height,
            Edge::LogLeft => to_logical_milli(self.x as int, self.scale_permille as int),
            Edge::LogTop => to_logical_milli(self.y as int, self.scale_permille as int),
            Edge::LogRight => to_logical_milli(self.x as int, self.scale_permille as int)
                + to_logical_milli(self.width as int, self.scale_permille as int),
            Edge::LogBottom => to_logical_milli(self.y as int, self.scale_permille as int)
                + to_logical_milli(self.height as int, self.scale_permille as int),
        }
    }
}

pub open spec fn all_wf(ms: Seq<MonitorData>) -> bool {
    forall|i: int| 0 <= i < ms.len() ==> (#[trigger] ms[i]).wf()
}

/// `v` is the least value of edge `e` over the monitors.
pub open spec fn is_least(ms: Seq<MonitorData>, e: Edge, v: int) -> bool {
    &&& forall|i: int| 0 <= i < ms.len() ==> v <= (#[trigger] ms[i]).edge(e)
    &&& exists|i: int| 0 <= i < ms.len() && v == (#[trigger] ms[i]).edge(e)
}

/// `v` is the greatest value of edge `e` over the monitors.
pub open spec fn is_greatest(ms: Seq<MonitorData>, e: Edge, v: int) -> bool {
    &&& forall|i: int| 0 <= i < ms.len() ==> (#[trigger] ms[i]).edge(e) <= v
    &&& exists|i: int| 0 <= i < ms.len() && v == (#[trigger] ms[i]).edge(e)
}

/// Whether monitor `i` has its top-left corner at (`x`, `y`).
pub open spec fn starts_at(ms: Seq<MonitorData>, i: int, x: int, y: int) -> bool {
    ms[i].x == x && ms[i].y == y
}

/// The bounding boxes of a set of monitors and the scale used to place the
/// window that shows them.
#[derive(Clone, Copy, Debug, PartialEq, Eq)]
pub struct Layout {
    /// Top-left corner of the physical bounding box.
    pub physical_x: i32,
    pub physical_y: i32,
    pub physical_width: u32,
    pub physical_height: u32,
    /// The first monitor whose top-left corner is the bounding box's.
    pub origin_index: Option<usize>,
    /// The origin monitor's scale factor, or 1.0 when there is none.
    pub origin_scale_permille: u32,
    /// Top-left corner of the logical bounding box, in milli-units.
    pub logical_x: i64,
    pub logical_y: i64,
    pub logical_width: i64,
    pub logical_height: i64,
}

impl Layout {
    /// This layout is the one that the monitors determine.
    pub open spec fn describes(&self, ms: Seq<MonitorData>) -> bool {
        let ox = self.physical_x as int;
        let oy = self.physical_y as int;
        &&& is_least(ms, Edge::PhysLeft, ox)
        &&& is_least(ms, Edge::PhysTop, oy)
        &&& is_greatest(ms, Edge::PhysRight, ox + self.physical_width)
        &&& is_greatest(ms, Edge::PhysBottom, oy + self.physical_height)
        &&& match self.origin_index {
            Some(i) => {
                &&& 0 <= i < ms.len()
                &&& starts_at(ms, i as int, ox, oy)
                &&& forall|j: int| 0 <= j < i ==> !#[trigger] starts_at(ms, j, ox, oy)
                &&& self.origin_scale_permille == ms[i as int].scale_permille
            },
            None => {
                &&& forall|j: int| 0 <= j < ms.len() ==> !#[trigger] starts_at(ms, j, ox, oy)
                &&& self.origin_scale_permille == MILLI
            },
        }
        &&& is_least(ms, Edge::LogLeft, self.logical_x as int)
        &&& is_least(ms, Edge::LogTop, self.logical_y as int)
        &&& is_greatest(ms, Edge::LogRight, self.logical_x + self.logical_width)
        &&& is_greatest(ms, Edge::LogBottom, self.logical_y + self.logical_height)
    }
}

/// A physical length or coordinate in logical milli-units at a scale factor.
pub fn logical_milli(p: i64, scale_permille: u32) -> (r: i64)
    requires
        scale_permille > 0,
        i32::MIN <= p <= u32::MAX,
    ensures
        r == to_logical_milli(p as int, scale_permille as int),
        -0x1_0000_0000 * 1_000_000 <= r <= 0x1_0000_0000 * 1_000_000,
{
    assert(-0x1_0000_0000 * 1_000_000 <= p * 1_000_000 <= 0x1_0000_0000 * 1_000_000) by (nonlinear_arith)
        requires
            i32::MIN <= p <= u32::MAX,
    ;
    let n: i128 = (p as i128) * 1_000_000i128;
    let q = floor_div(n, scale_permille as i128);
    proof {
        lemma_div_within(n as int, scale_permille as int, 0x1_0000_0000int * 1_000_000int);
    }
    q as i64
}

/// Dividing by a positive integer keeps a value within `[-b, b]`.
proof fn lemma_div_within(n: int, d: int, b: int)
    requires
        -b <= n <= b,
        d >= 1,
    ensures
        -b <= n / d <= b,
{
    vstd::arithmetic::div_mod::lemma_fundamental_div_mod(n, d);
    vstd::arithmetic::div_mod::lemma_mod_bound(n, d);
    let q = n / d;
    let r = n % d;
    assert(-b <= q <= b) by (nonlinear_arith)
        requires
            n == d * q + r,
            0 <= r < d,
            d >= 1,
            -b <= n <= b,
    ;
}

/// Computes the physical and logical bounding boxes of the monitors and
/// picks the origin monitor (the first one at the physical top-left corner).
pub fn resolve_layout(monitors: &Vec<MonitorData>) -> (l: Layout)
    requires
        monitors@.len() >= 1,
        all_wf(monitors@),
    ensures
        l.describes(monitors@),
{
    let ms = monitors;
    let m0 = &ms[0];
    let mut min_x: i32 = m0.x;
    let mut min_y: i32 = m0.y;
    let mut max_x: i64 = m0.x as i64 + m0.width as i64;
    let mut max_y: i64 = m0.y as i64 + m0.height as i64;
    let mut lmin_x: i64 = logical_milli(m0.x as i64, m0.scale_permille);
    let mut lmin_y: i64 = logical_milli(m0.y as i64, m0.scale_permille);
    let mut lmax_x: i64 = lmin_x + logical_milli(m0.width as i64, m0.scale_permille);
    let mut lmax_y: i64 = lmin_y + logical_milli(m0.height as i64, m0.scale_permille);
    let ghost first = ms@.take(1);
    assert(first[0] == ms@[0]);
    assert(first[0].edge(Edge::PhysLeft) == min_x);
    assert(first[0].edge(Edge::PhysTop) == min_y);
    assert(first[0].edge(Edge::PhysRight) == max_x);
    assert(first[0].edge(Edge::PhysBottom) == max_y);
    assert(first[0].edge(Edge::LogLeft) == lmin_x);
    assert(first[0].edge(Edge::LogTop) == lmin_y);
    assert(first[0].edge(Edge::LogRight) == lmax_x);
    assert(first[0].edge(Edge::LogBottom) == lmax_y);
    let mut i: usize = 1;
    while i < ms.len()
        invariant
            1 <= i <= ms@.len(),
            all_wf(ms@),
            is_least(ms@.take(i as int), Edge::PhysLeft, min_x as int),
            is_least(ms@.take(i as int), Edge::PhysTop, min_y as int),
            is_greatest(ms@.take(i as int), Edge::PhysRight, max_x as int),
            is_greatest(ms@.take(i as int), Edge::PhysBottom, max_y as int),
            is_least(ms@.take(i as int), Edge::LogLeft, lmin_x as int),
            is_least(ms@.take(i as int), Edge::LogTop, lmin_y as int),
            is_greatest(ms@.take(i as int), Edge::LogRight, lmax_x as int),
            is_greatest(ms@.take(i as int), Edge::LogBottom, lmax_y as int),
            -0x1_0000_0000 * 1_000_000 <= lmin_x <= 0x1_0000_0000 * 1_000_000,
            -0x1_0000_0000 * 1_000_000 <= lmin_y <= 0x1_0000_0000 * 1_000_000,
            -0x2_0000_0000 * 1_000_000 <= lmax_x <= 0x2_0000_0000 * 1_000_000,
            -0x2_0000_0000 * 1_000_000 <= lmax_y <= 0x2_0000_0000 * 1_000_000,
        decreases ms@.len() - i,
    {
        let m = &ms[i];
        let lx = logical_milli(m.x as i64, m.scale_permille);
        let ly = logical_milli(m.y as i64, m.scale_permille);
        let lr = lx + logical_milli(m.width as i64, m.scale_permille);
        let lb = ly + logical_milli(m.height as i64, m.scale_permille);
        let ghost prev = ms@.take(i as int);
        let ghost next = ms@.take(i + 1);
        assert(next == prev.push(ms@[i as int]));
        assert(next[i as int] == ms@[i as int]);
        assert forall|k: int| 0 <= k < i implies #[trigger] next[k] == prev[k] by {}
        let ghost before = (min_x, min_y, max_x, max_y, lmin_x, lmin_y, lmax_x, lmax_y);
        if m.x < min_x {
            min_x = m.x;
        }
        if m.y < min_y {
            min_y = m.y;
        }
        if m.x as i64 + m.width as i64 > max_x {
            max_x = m.x as i64 + m.width as i64;
        }
        if m.y as i64 + m.height as i64 > max_y {
            max_y = m.y as i64 + m.height as i64;
        }
        if lx < lmin_x {
            lmin_x = lx;
        }
        if ly < lmin_y {
            lmin_y = ly;
        }
        if lr > lmax_x {
            lmax_x = lr;
        }
        if lb > lmax_y {
            lmax_y = lb;
        }
        proof {
            lemma_extend_least(prev, next, Edge::PhysLeft, before.0 as int, min_x as int);
            lemma_extend_least(prev, next, Edge::PhysTop, before.1 as int, min_y as int);
            lemma_extend_greatest(prev, next, Edge::PhysRight, before.2 as int, max_x as int);
            lemma_extend_greatest(prev, next, Edge::PhysBottom, before.3 as int, max_y as int);
            lemma_extend_least(prev, next, Edge::LogLeft, before.4 as int, lmin_x as int);
            lemma_extend_least(prev, next, Edge::LogTop, before.5 as int, lmin_y as int);
            lemma_extend_greatest(prev, next, Edge::LogRight, before.6 as int, lmax_x as int);
            lemma_extend_greatest(prev, next, Edge::LogBottom, before.7 as int, lmax_y as int);
        }
        i = i + 1;
    }
    assert(ms@.take(ms@.len() as int) == ms@);
    let origin_index = first_starting_at(ms, min_x, min_y);
    let origin_scale_permille: u32 = match origin_index {
        Some(k) => ms[k].scale_permille,
        None => MILLI as u32,
    };
    Layout {
        physical_x: min_x,
        physical_y: min_y,
        physical_width: (max_x - min_x as i64) as u32,
        physical_height: (max_y - min_y as i64) as u32,
        origin_index,
        origin_scale_permille,
        logical_x: lmin_x,
        logical_y: lmin_y,
        logical_width: lmax_x - lmin_x,
        logical_height: lmax_y - lmin_y,
    }
}

/// The monitors determine their layout: two layouts that both describe
/// them are equal.
pub proof fn lemma_layout_unique(ms: Seq<MonitorData>, a: Layout, b: Layout)
    requires
        a.describes(ms),
        b.describes(ms),
    ensures
        a == b,
{
    lemma_least_unique(ms, Edge::PhysLeft, a.physical_x as int, b.physical_x as int);
    lemma_least_unique(ms, Edge::PhysTop, a.physical_y as int, b.physical_y as int);
    lemma_greatest_unique(ms, Edge::PhysRight, a.physical_x + a.physical_width, b.physical_x + b.physical_width);
    lemma_greatest_unique(ms, Edge::PhysBottom, a.physical_y + a.physical_height, b.physical_y + b.physical_height);
    lemma_least_unique(ms, Edge::LogLeft, a.logical_x as int, b.logical_x as int);
    lemma_least_unique(ms, Edge::LogTop, a.logical_y as int, b.logical_y as int);
    lemma_greatest_unique(ms, Edge::LogRight, a.logical_x + a.logical_width, b.logical_x + b.logical_width);
    lemma_greatest_unique(ms, Edge::LogBottom, a.logical_y + a.logical_height, b.logical_y + b.logical_height);
    match (a.origin_index, b.origin_index) {
        (Some(i), Some(j)) => {
            if i < j {
                assert(starts_at(ms, i as int, a.physical_x as int, a.physical_y as int));
            } else if j < i {
                assert(starts_at(ms, j as int, b.physical_x as int, b.physical_y as int));
            }
        },
        (Some(i), None) => {
            assert(starts_at(ms, i as int, a.physical_x as int, a.physical_y as int));
        },
        (None, Some(j)) => {
            assert(starts_at(ms, j as int, b.physical_x as int, b.physical_y as int));
        },
        (None, None) => {},
    }
}

proof fn lemma_least_unique(ms: Seq<MonitorData>, e: Edge, v: int, w: int)
    requires
        is_least(ms, e, v),
        is_least(ms, e, w),
    ensures
        v == w,
{
    let i = choose|i: int| 0 <= i < ms.len() && v == (#[trigger] ms[i]).edge(e);
    let j = choose|j: int| 0 <= j < ms.len() && w == (#[trigger] ms[j]).edge(e);
}

proof fn lemma_greatest_unique(ms: Seq<MonitorData>, e: Edge, v: int, w: int)
    requires
        is_greatest(ms, e, v),
        is_greatest(ms, e, w),
    ensures
        v == w,
{
    let i = choose|i: int| 0 <= i < ms.len() && v == (#[trigger] ms[i]).edge(e);
    let j = choose|j: int| 0 <= j < ms.len() && w == (#[trigger] ms[j]).edge(e);
}

/// The first monitor whose top-left corner is (`x`, `y`), if any.
pub fn first_starting_at(ms: &Vec<MonitorData>, x: i32, y: i32) -> (r: Option<usize>)
    ensures
        match r {
            Some(i) => {
                &&& i < ms@.len()
                &&& starts_at(ms@, i as int, x as int, y as int)
                &&& forall|j: int| 0 <= j < i ==> !#[trigger] starts_at(ms@, j, x as int, y as int)
            },
            None => forall|j: int|
                0 <= j < ms@.len() ==> !#[trigger] starts_at(ms@, j, x as int, y as int),
        },
{
    let mut k: usize = 0;
    while k < ms.len()
        invariant
            k <= ms@.len(),
            forall|j: int| 0 <= j < k ==> !#[trigger] starts_at(ms@, j, x as int, y as int),
        decreases ms@.len() - k,
    {
        if ms[k].x == x && ms[k].y == y {
            return Some(k);
        }
        k = k + 1;
    }
    None
}

/// Whether two monitors' rectangles share a pixel.
pub open spec fn monitors_overlap(a: MonitorData, b: MonitorData) -> bool {
    &&& a.x < b.x + b.width
    &&& b.x < a.x + a.width
    &&& a.y < b.y + b.height
    &&& b.y < a.y + a.height
}

/// Finds two monitors whose rectangles overlap: the first such pair `(i, j)`
/// with `i < j`, ordered by `j` and then by `i`. Such a layout is malformed;
/// stitching it still works, with the later monitor drawn on top.
pub fn find_overlap(monitors: &Vec<MonitorData>) -> (r: Option<(usize, usize)>)
    ensures
        r matches Some(p) ==> p.0 < p.1 < monitors@.len() && monitors_overlap(
            monitors@[p.0 as int],
            monitors@[p.1 as int],
        ),
        r is None ==> forall|i: int, j: int|
            0 <= i < j < monitors@.len() ==> !monitors_overlap(
                #[trigger] monitors@[i],
                #[trigger] monitors@[j],
            ),
{
    let mut j: usize = 0;
    while j < monitors.len()
        invariant
            j <= monitors@.len(),
            forall|a: int, b: int|
                0 <= a < b < j ==> !monitors_overlap(#[trigger] monitors@[a], #[trigger] monitors@[b]),
        decreases monitors@.len() - j,
    {
        let mut i: usize = 0;
        while i < j
            invariant
                i <= j < monitors@.len(),
                forall|a: int, b: int|
                    0 <= a < b < j ==> !monitors_overlap(#[trigger] monitors@[a], #[trigger] monitors@[b]),
                forall|a: int| 0 <= a < i ==> !monitors_overlap(#[trigger] monitors@[a], monitors@[j as int]),
            decreases j - i,
        {
            let a = &monitors[i];
            let b = &monitors[j];
            if (a.x as i64) < b.x as i64 + b.width as i64 && (b.x as i64) < a.x as i64
                + a.width as i64 && (a.y as i64) < b.y as i64 + b.height as i64 && (b.y as i64)
                < a.y as i64 + a.height as i64 {
                return Some((i, j));
            }
            i = i + 1;
        }
        j = j + 1;
    }
    None
}

/// Extending a prefix by one monitor keeps `v` the least edge value when
/// `v` is the smaller of the old least value and the new monitor's.
proof fn lemma_extend_least(prev: Seq<MonitorData>, next: Seq<MonitorData>, e: Edge, w: int, v: int)
    requires
        next.len() == prev.len() + 1,
        forall|k: int| 0 <= k < prev.len() ==> #[trigger] next[k] == prev[k],
        is_least(prev, e, w),
        v == if next.last().edge(e) < w {
            next.last().edge(e)
        } else {
            w
        },
    ensures
        is_least(next, e, v),
{
    let j = choose|j: int| 0 <= j < prev.len() && w == (#[trigger] prev[j]).edge(e);
    assert forall|i: int| 0 <= i < next.len() implies v <= (#[trigger] next[i]).edge(e) by {
        if i < prev.len() {
            assert(prev[i] == next[i]);
        }
    }
    if v == next.last().edge(e) {
        assert(0 <= next.len() - 1 < next.len() && v == next[next.len() - 1].edge(e));
    } else {
        assert(next[j] == prev[j]);
    }
}

proof fn lemma_extend_greatest(prev: Seq<MonitorData>, next: Seq<MonitorData>, e: Edge, w: int, v: int)
    requires
        next.len() == prev.len() + 1,
        forall|k: int| 0 <= k < prev.len() ==> #[trigger] next[k] == prev[k],
        is_greatest(prev, e, w),
        v == if next.last().edge(e) > w {
            next.last().edge(e)
        } else {
            w
        },
    ensures
        is_greatest(next, e, v),
{
    let j = choose|j: int| 0 <= j < prev.len() && w == (#[trigger] prev[j]).edge(e);
    assert forall|i: int| 0 <= i < next.len() implies (#[trigger] next[i]).edge(e) <= v by {
        if i < prev.len() {
            assert(prev[i] == next[i]);
        }
    }
    if v == next.last().edge(e) {
        assert(0 <= next.len() - 1 < next.len() && v == next[next.len() - 1].edge(e));
    } else {
        assert(next[j] == prev[j]);
    }
}

} // verus!
