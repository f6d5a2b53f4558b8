//! A capture session: the grabbed displays, checked and composed into one
//! virtual desktop.
use vstd::prelude::*;
use crate::frame::Frame;
use crate::layout::{all_wf, resolve_layout, Layout, MonitorData};
use crate::stitch::{stitch, stitched_byte};

verus! {

/// Why a capture attempt produced nothing.
#[derive(Clone, Copy, Debug, PartialEq, Eq, Structural)]
pub enum CaptureError {
    /// The system reported no active display.
    NoDisplaysFound,
    /// The grab of this display failed, or returned pixels that do not
    /// match the display's rectangle.
    CaptureFailed(u32),
    /// The bounding box holds more pixels than one buffer can address.
    CanvasTooLarge,
}

/// What grabbing one display gave: its data, or `None` when the grab failed.
#[derive(Clone, Debug)]
pub struct Grabbed {
    pub display_id: u32,
    pub data: Option<MonitorData>,
}

/// All displays of one capture, the stitched canvas and the layout.
#[derive(Clone, Debug)]
pub struct CaptureData {
    pub monitors: Vec<MonitorData>,
    pub full_image: Frame,
    pub layout: Layout,
}

pub open spec fn grab_ok(g: Grabbed) -> bool {
    g.data matches Some(m) && m.wf()
}

/// The data of every grab, in order (meaningful when every grab succeeded).
pub open spec fn grabbed_monitors(grabs: Seq<Grabbed>) -> Seq<MonitorData> {
    grabs.map_values(|g: Grabbed| g.data->Some_0)
}

/// Every layout of these monitors has a bounding box of more pixels than
/// one buffer can address.
pub open spec fn canvas_too_large(ms: Seq<MonitorData>) -> bool {
    forall|l: Layout| #[trigger] l.describes(ms) ==> l.physical_width * l.physical_height * 4 > usize::MAX
}

impl MonitorData {
    /// Checks [`MonitorData::wf`].
    pub fn is_valid(&self) -> (b: bool)
        ensures
            b == self.wf(),
    {
        let w: u64 = self.width as u64;
        let h: u64 = self.height as u64;
        assert(w * h * 4 <= u32::MAX * u32::MAX * 4) by (nonlinear_arith)
            requires
                w <= u32::MAX,
                h <= u32::MAX,
        ;
        assert(self.height * (self.width * 4) == w * h * 4) by (nonlinear_arith)
            requires
                w == self.width,
                h == self.height,
        ;
        let len: u128 = self.image.pixels.len() as u128;
        self.x as i64 + self.width as i64 <= i32::MAX as i64 && self.y as i64 + self.height as i64
            <= i32::MAX as i64 && self.scale_permille > 0 && self.image.width == self.width
            && self.image.height == self.height && len == (w as u128) * (h as u128) * 4
    }
}

impl CaptureData {
    /// The monitors are valid, the layout is theirs and the canvas is their
    /// stitched image.
    pub open spec fn wf(&self) -> bool {
        let ms = self.monitors@;
        &&& ms.len() >= 1
        &&& all_wf(ms)
        &&& self.layout.describes(ms)
        &&& self.full_image.wf()
        &&& self.full_image.width == self.layout.physical_width
        &&& self.full_image.height == self.layout.physical_height
        &&& forall|px: int, py: int, c: int|
            0 <= px < self.full_image.width && 0 <= py < self.full_image.height && 0 <= c < 4
                ==> #[trigger] self.full_image.pixel_byte(px, py, c) == stitched_byte(
                ms,
                ms.len() as int,
                self.layout.physical_x as int,
                self.layout.physical_y as int,
                px,
                py,
                c,
            )
    }
}

/// The first grab that failed, if any.
fn first_failed(grabs: &Vec<Grabbed>) -> (r: Option<usize>)
    ensures
        match r {
            Some(i) => i < grabs@.len() && !grab_ok(grabs@[i as int]) && forall|j: int|
                0 <= j < i ==> #[trigger] grab_ok(grabs@[j]),
            None => forall|j: int| 0 <= j < grabs@.len() ==> #[trigger] grab_ok(grabs@[j]),
        },
{
    let mut i: usize = 0;
    while i < grabs.len()
        invariant
            i <= grabs@.len(),
            forall|j: int| 0 <= j < i ==> #[trigger] grab_ok(grabs@[j]),
        decreases grabs@.len() - i,
    {
        let ok = match &grabs[i].data {
            Some(m) => m.is_valid(),
            None => false,
        };
        if !ok {
            return Some(i);
        }
        i = i + 1;
    }
    None
}

/// Composes the grabbed displays into one capture: fails when there is no
/// display, at the first failed or malformed grab (in enumeration order), or
/// when the canvas would not fit in memory; otherwise resolves the layout
/// and stitches the canvas.
pub fn capture_all_screens(grabs: Vec<Grabbed>) -> (r: Result<CaptureData, CaptureError>)
    ensures
        grabs@.len() == 0 ==> r == Err::<CaptureData, CaptureError>(CaptureError::NoDisplaysFound),
        forall|i: int|
            0 <= i < grabs@.len() && !grab_ok(grabs@[i]) && (forall|j: int|
                0 <= j < i ==> #[trigger] grab_ok(grabs@[j])) ==> r == Err::<
                CaptureData,
                CaptureError,
            >(CaptureError::CaptureFailed(#[trigger] grabs@[i].display_id)),
        r == Err::<CaptureData, CaptureError>(CaptureError::CanvasTooLarge) <==> grabs@.len() >= 1
            && (forall|i: int| 0 <= i < grabs@.len() ==> #[trigger] grab_ok(grabs@[i]))
            && canvas_too_large(grabbed_monitors(grabs@)),
        r is Ok <==> grabs@.len() >= 1 && (forall|i: int|
            0 <= i < grabs@.len() ==> #[trigger] grab_ok(grabs@[i])) && !canvas_too_large(
            grabbed_monitors(grabs@),
        ),
        r matches Ok(cd) ==> {
            &&& cd.wf()
            &&& cd.monitors@ == grabbed_monitors(grabs@)
        },
{
    if grabs.len() == 0 {
        return Err(CaptureError::NoDisplaysFound);
    }
    match first_failed(&grabs) {
        Some(i) => {
            return Err(CaptureError::CaptureFailed(grabs[i].display_id));
        },
        None => {},
    }
    let ghost all = grabs@;
    let mut rest = grabs;
    let mut monitors: Vec<MonitorData> = Vec::new();
    while rest.len() > 0
        invariant
            monitors@.len() + rest@.len() == all.len(),
            forall|j: int| 0 <= j < all.len() ==> #[trigger] grab_ok(all[j]),
            forall|j: int| 0 <= j < rest@.len() ==> #[trigger] rest@[j] == all[monitors@.len() + j],
            forall|j: int| 0 <= j < monitors@.len() ==> all[j].data == Some(#[trigger] monitors@[j]),
        decreases rest@.len(),
    {
        let g = rest.remove(0);
        assert(g == all[monitors@.len() as int]);
        assert(grab_ok(all[monitors@.len() as int]));
        match g.data {
            Some(m) => {
                monitors.push(m);
            },
            None => {},
        }
    }
    assert forall|j: int| 0 <= j < monitors@.len() implies (#[trigger] monitors@[j]).wf() by {
        assert(grab_ok(all[j]));
    }
    assert(monitors@ =~= grabbed_monitors(all));
    let layout = resolve_layout(&monitors);
    proof {
        assert forall|l: Layout| #[trigger] l.describes(monitors@) implies l == layout by {
            crate::layout::lemma_layout_unique(monitors@, l, layout);
        }
    }
    assert(layout.physical_width * layout.physical_height <= u32::MAX * u32::MAX) by (nonlinear_arith)
        requires
            layout.physical_width <= u32::MAX,
            layout.physical_height <= u32::MAX,
    ;
    let area: u128 = (layout.physical_width as u128) * (layout.physical_height as u128);
    if area > (usize::MAX / 4) as u128 {
        return Err(CaptureError::CanvasTooLarge);
    }
    let full_image = stitch(&monitors, &layout);
    Ok(CaptureData { monitors, full_image, layout })
}

} // verus!
