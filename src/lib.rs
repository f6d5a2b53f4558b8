//! Screen-capture compositing and coordinate mapping: monitor layout,
//! canvas stitching, tile partitioning and the mapping of a drawn selection
//! back onto the captured pixels.
pub mod capture;
pub mod frame;
pub mod geometry;
pub mod layout;
pub mod placement;
pub mod session;
pub mod stitch;
pub mod tiles;
