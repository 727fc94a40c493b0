//! A 2D polar range-scan renderer.
//!
//! Given a fixed-size pixel buffer and a set of (angle, distance) range
//! readings, the library rasterizes a top-down view of the scan: a polar
//! reference grid (concentric range rings and angular spokes) plus one
//! filled dot per in-range reading.  All drawing clips silently to the
//! buffer bounds, and every frame is a total function of that frame's
//! inputs: the buffer is fully cleared and redrawn on each composition.
//!
//! The integer rasterization primitives (filled circle, mid-point circle
//! outline, Bresenham line) are exposed on their own, together with the
//! polar-to-pixel coordinate transform and the frame composer.

pub mod circle;
pub mod compose;
pub mod flip;
pub mod line;
pub mod outline;
pub mod pixel;
pub mod transform;
pub mod trig;
