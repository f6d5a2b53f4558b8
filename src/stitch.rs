//! Compositing the monitors' pixels onto one canvas that spans the
//! physical bounding box.
use vstd::prelude::*;
use crate::frame::Frame;
use crate::layout::{all_wf, Edge, Layout, MonitorData};

verus! {

/// Whether the monitor's rectangle holds the desktop pixel (`gx`, `gy`).
pub open spec fn monitor_covers(m: MonitorData, gx: int, gy: int) -> bool {
    m.x <= gx < m.x + m.width && m.y <= gy < m.y + m.height
}

/// The last of the first `n` monitors whose rectangle holds the desktop
/// pixel (`gx`, `gy`), or -1 when none does.
pub open spec fn last_covering(ms: Seq<MonitorData>, n: int, gx: int, gy: int) -> int
    decreases n,
{
    if n <= 0 {
        -1
    } else if monitor_covers(ms[n - 1], gx, gy) {
        n - 1
    } else {
        last_covering(ms, n - 1, gx, gy)
    }
}

/// Channel `c` of canvas pixel (`px`, `py`) once the first `n` monitors
/// are drawn, in order, onto a zeroed canvas whose top-left corner is the
/// desktop pixel (`ox`, `oy`): the pixel of the last monitor that covers
/// it, or zero.
pub open spec fn stitched_byte(
    ms: Seq<MonitorData>,
    n: int,
    ox: int,
    oy: int,
    px: int,
    py: int,
    c: int,
) -> u8 {
    let k = last_covering(ms, n, ox + px, oy + py);
    if k >= 0 {
        ms[k].image.pixel_byte(ox + px - ms[k].x, oy + py - ms[k].y, c)
    } else {
        0
    }
}

proof fn lemma_last_covering_range(ms: Seq<MonitorData>, n: int, gx: int, gy: int)
    ensures
        -1 <= last_covering(ms, n, gx, gy) < if n > 0 { n } else { 0 },
    decreases n,
{
    if n > 0 {
        lemma_last_covering_range(ms, n - 1, gx, gy);
    }
}

/// Draws every monitor's pixels onto a zeroed canvas the size of the
/// physical bounding box, at the monitor's offset from its top-left corner.
/// Where monitors overlap, the later one in the list wins.
pub fn stitch(monitors: &Vec<MonitorData>, layout: &Layout) -> (canvas: Frame)
    requires
        monitors@.len() >= 1,
        all_wf(monitors@),
        layout.describes(monitors@),
        layout.physical_width * layout.physical_height * 4 <= usize::MAX,
    ensures
        canvas.wf(),
        canvas.width == layout.physical_width,
        canvas.height == layout.physical_height,
        forall|px: int, py: int, c: int|
            0 <= px < canvas.width && 0 <= py < canvas.height && 0 <= c < 4
                ==> #[trigger] canvas.pixel_byte(px, py, c) == stitched_byte(
                monitors@,
                monitors@.len() as int,
                layout.physical_x as int,
                layout.physical_y as int,
                px,
                py,
                c,
            ),
{
    let ms = monitors;
    let ox = layout.physical_x;
    let oy = layout.physical_y;
    let mut canvas = Frame::blank(layout.physical_width, layout.physical_height);
    let mut k: usize = 0;
    while k < ms.len()
        invariant
            k <= ms@.len(),
            all_wf(ms@),
            layout.describes(ms@),
            ox == layout.physical_x,
            oy == layout.physical_y,
            canvas.wf(),
            canvas.width == layout.physical_width,
            canvas.height == layout.physical_height,
            forall|px: int, py: int, c: int|
                0 <= px < canvas.width && 0 <= py < canvas.height && 0 <= c < 4
                    ==> #[trigger] canvas.pixel_byte(px, py, c) == stitched_byte(
                    ms@,
                    k as int,
                    ox as int,
                    oy as int,
                    px,
                    py,
                    c,
                ),
        decreases ms@.len() - k,
    {
        let m = &ms[k];
        assert(m.wf());
        assert(ox <= ms@[k as int].edge(Edge::PhysLeft));
        assert(oy <= ms@[k as int].edge(Edge::PhysTop));
        assert(ms@[k as int].edge(Edge::PhysRight) <= ox + layout.physical_width);
        assert(ms@[k as int].edge(Edge::PhysBottom) <= oy + layout.physical_height);
        let dx: u32 = (m.x as i64 - ox as i64) as u32;
        let dy: u32 = (m.y as i64 - oy as i64) as u32;
        let ghost before = canvas;
        canvas.paste(&m.image, dx, dy);
        proof {
            assert forall|px: int, py: int, c: int|
                0 <= px < canvas.width && 0 <= py < canvas.height && 0 <= c < 4
                    implies #[trigger] canvas.pixel_byte(px, py, c) == stitched_byte(
                    ms@,
                    k + 1,
                    ox as int,
                    oy as int,
                    px,
                    py,
                    c,
                ) by {
                assert(before.pixel_byte(px, py, c) == stitched_byte(
                    ms@,
                    k as int,
                    ox as int,
                    oy as int,
                    px,
                    py,
                    c,
                ));
                lemma_last_covering_range(ms@, k as int, ox + px, oy + py);
            }
        }
        k = k + 1;
    }
    canvas
}

} // verus!
