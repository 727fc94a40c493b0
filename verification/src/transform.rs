//! The polar-to-pixel coordinate transform and the scan configuration.
//!
//! A reading `(angle_degrees, distance)` maps to the pixel
//! `(cx + distance * scale * cos(angle), cy + distance * scale * sin(angle))`
//! where the centre is `(width / 2, height / 2)` and the scale is
//! `(width / 2 - margin)` pixels over the maximum range.  Zero degrees
//! points along +x and growing angles rotate toward +y in screen space.
//! Distances are integer millimetres, angles whole degrees, and the
//! real-valued products are carried out in integer milli-units with
//! round-half-away-from-zero division, as a `round()` of the real value
//! would.

use vstd::prelude::*;
use crate::trig::{
    sin_deg_milli, cos_deg_milli, sin_milli, cos_milli, lemma_sin_bounds, lemma_cos_bounds,
};

verus! {

/// The fixed geometry and palette of one scan window, chosen once at
/// start-up.  `width` and `height` are the buffer geometry in pixels,
/// `margin` the border kept free inside the window edge, `max_range_m`
/// the largest plotted distance in whole metres; the remaining fields are
/// the colours of the cleared background, range rings, angular spokes and
/// sample points, the point radius in pixels, and the angular distance
/// between spokes.
pub struct ScanConfig {
    pub width: usize,
    pub height: usize,
    pub margin: usize,
    pub max_range_m: u32,
    pub bg_color: u32,
    pub ring_color: u32,
    pub spoke_color: u32,
    pub point_color: u32,
    pub point_radius: u32,
    pub spoke_step_deg: u16,
}

impl ScanConfig {
    /// Well-formed geometry: all the bounds the integer arithmetic of the
    /// renderer needs, and a margin that leaves a positive scale.
    pub open spec fn wf(self) -> bool {
        &&& 0 < self.width <= 0x1000_0000
        &&& 0 < self.height <= 0x1000_0000
        &&& self.margin < self.width / 2
        &&& 0 < self.max_range_m <= 4000
        &&& self.point_radius <= 0x1000
        &&& 0 < self.spoke_step_deg < 360
    }

    /// Build a configuration with the stock palette: white background,
    /// dark red rings, black spokes and points of radius three, spokes
    /// every thirty degrees.  Returns nothing when the geometry is out of
    /// range, which is the only configuration error the renderer knows.
    pub fn new(width: usize, height: usize, margin: usize, max_range_m: u32) -> (r: Option<
        ScanConfig,
    >)
        ensures
            r is Some <==> (0 < width <= 0x1000_0000 && 0 < height <= 0x1000_0000 && margin < width
                / 2 && 0 < max_range_m <= 4000),
            r is Some ==> r.unwrap() == (ScanConfig {
                width,
                height,
                margin,
                max_range_m,
                bg_color: 0xFFFFFFFFu32,
                ring_color: 0x800000u32,
                spoke_color: 0xFF000000u32,
                point_color: 0xFF000000u32,
                point_radius: 3u32,
                spoke_step_deg: 30u16,
            }),
            r is Some ==> r.unwrap().wf(),
    {
        if 0 < width && width <= 0x1000_0000 && 0 < height && height <= 0x1000_0000 && margin
            < width / 2 && 0 < max_range_m && max_range_m <= 4000 {
            Some(
                ScanConfig {
                    width,
                    height,
                    margin,
                    max_range_m,
                    bg_color: 0xFFFFFFFFu32,
                    ring_color: 0x800000u32,
                    spoke_color: 0xFF000000u32,
                    point_color: 0xFF000000u32,
                    point_radius: 3u32,
                    spoke_step_deg: 30u16,
                },
            )
        } else {
            None
        }
    }

    /// The centre column of the window.
    pub open spec fn center_x(self) -> int {
        self.width as int / 2
    }

    /// The centre row of the window.
    pub open spec fn center_y(self) -> int {
        self.height as int / 2
    }

    /// The plot radius in pixels: half the width less the margin.  The
    /// scale in pixels per metre is this span over the maximum range.
    pub open spec fn span_px(self) -> int {
        self.width as int / 2 - self.margin as int
    }

    /// The maximum plotted distance in millimetres.
    pub open spec fn max_range_mm(self) -> int {
        self.max_range_m as int * 1000
    }
}

/// Quotient rounded to the nearest integer, halves away from zero, for a
/// positive divisor: what `round()` of the real quotient yields.
pub open spec fn round_div(n: int, d: int) -> int {
    if n >= 0 {
        (2 * n + d) / (2 * d)
    } else {
        -((2 * -n + d) / (2 * d))
    }
}

/// `round_div` computed on machine integers.
pub fn round_div_i64(n: i64, d: i64) -> (r: i64)
    requires
        0 < d,
        -0x1000_0000_0000_0000 < n < 0x1000_0000_0000_0000,
        d < 0x1000_0000_0000_0000,
    ensures
        r == round_div(n as int, d as int),
{
    if n >= 0 {
        (2 * n + d) / (2 * d)
    } else {
        -((2 * -n + d) / (2 * d))
    }
}

/// The rounded quotient of a value no larger than `k` divisors is no
/// larger than `k`.
pub proof fn lemma_round_div_bound(n: int, d: int, k: int)
    requires
        0 < d,
        0 <= k,
        -(k * d) <= n <= k * d,
    ensures
        -k <= round_div(n, d) <= k,
{
    if n >= 0 {
        assert(0 <= (2 * n + d) / (2 * d) <= k) by (nonlinear_arith)
            requires
                0 < d,
                0 <= k,
                0 <= n <= k * d,
        ;
    } else {
        assert(0 <= (2 * -n + d) / (2 * d) <= k) by (nonlinear_arith)
            requires
                0 < d,
                0 <= k,
                0 <= -n <= k * d,
        ;
    }
}

/// The pixel column offset of a reading: `distance * scale * cos(angle)`,
/// in integer milli-arithmetic.
pub open spec fn offset_x(c: ScanConfig, deg: int, dist_mm: int) -> int {
    round_div(dist_mm * c.span_px() * cos_deg_milli(deg), c.max_range_mm() * 1000)
}

/// The pixel row offset of a reading: `distance * scale * sin(angle)`.
pub open spec fn offset_y(c: ScanConfig, deg: int, dist_mm: int) -> int {
    round_div(dist_mm * c.span_px() * sin_deg_milli(deg), c.max_range_mm() * 1000)
}

/// The pixel a reading lands on: the window centre plus its offsets.
pub open spec fn sample_px(c: ScanConfig, deg: int, dist_mm: int) -> (int, int) {
    (c.center_x() + offset_x(c, deg, dist_mm), c.center_y() + offset_y(c, deg, dist_mm))
}

/// A reading's pixel offsets never leave the plot radius: each offset has
/// magnitude at most `span_px`.
pub proof fn lemma_offsets_bounded(c: ScanConfig, deg: int, dist_mm: int)
    requires
        c.wf(),
        0 <= dist_mm <= c.max_range_mm(),
    ensures
        -c.span_px() <= offset_x(c, deg, dist_mm) <= c.span_px(),
        -c.span_px() <= offset_y(c, deg, dist_mm) <= c.span_px(),
{
    let span = c.span_px();
    let den = c.max_range_mm() * 1000;
    lemma_cos_bounds(deg);
    lemma_sin_bounds(deg);
    assert(-(span * den) <= dist_mm * span * cos_deg_milli(deg) <= span * den)
        by (nonlinear_arith)
        requires
            0 <= dist_mm <= c.max_range_mm(),
            0 <= span,
            den == c.max_range_mm() * 1000,
            -1000 <= cos_deg_milli(deg) <= 1000,
    ;
    assert(-(span * den) <= dist_mm * span * sin_deg_milli(deg) <= span * den)
        by (nonlinear_arith)
        requires
            0 <= dist_mm <= c.max_range_mm(),
            0 <= span,
            den == c.max_range_mm() * 1000,
            -1000 <= sin_deg_milli(deg) <= 1000,
    ;
    lemma_round_div_bound(dist_mm * span * cos_deg_milli(deg), den, span);
    lemma_round_div_bound(dist_mm * span * sin_deg_milli(deg), den, span);
}

/// Every in-range reading lands inside the buffer, provided at least one
/// pixel of margin is kept and the window is at least as tall as it is
/// wide.
pub proof fn lemma_sample_px_in_bounds(c: ScanConfig, deg: int, dist_mm: int)
    requires
        c.wf(),
        0 <= dist_mm <= c.max_range_mm(),
        1 <= c.margin,
        c.width <= c.height,
    ensures
        0 <= sample_px(c, deg, dist_mm).0 < c.width,
        0 <= sample_px(c, deg, dist_mm).1 < c.height,
{
    lemma_offsets_bounded(c, deg, dist_mm);
    assert(c.width as int / 2 <= c.height as int / 2) by (nonlinear_arith)
        requires
            0 < c.width <= c.height,
    ;
    assert(2 * (c.width as int / 2) <= c.width as int);
    assert(2 * (c.height as int / 2) <= c.height as int);
}

/// Map a polar reading to its pixel.  The distance must lie in the
/// plotted range `[0, max_range]`; out-of-range readings are dropped by
/// the composer before any pixel is computed for them.
pub fn polar_to_pixel(c: &ScanConfig, angle_deg: u16, distance_mm: i64) -> (p: (i32, i32))
    requires
        c.wf(),
        0 <= distance_mm <= c.max_range_mm(),
    ensures
        p.0 == sample_px(*c, angle_deg as int, distance_mm as int).0,
        p.1 == sample_px(*c, angle_deg as int, distance_mm as int).1,
{
    let span = (c.width / 2 - c.margin) as i64;
    let den = c.max_range_m as i64 * 1000 * 1000;
    let cosv = cos_milli(angle_deg);
    let sinv = sin_milli(angle_deg);
    proof {
        lemma_offsets_bounded(*c, angle_deg as int, distance_mm as int);
        assert(0 <= distance_mm * span < 0x4_0000_0000_0000
            && -0x1000_0000_0000_0000 < distance_mm * span * cosv < 0x1000_0000_0000_0000
            && -0x1000_0000_0000_0000 < distance_mm * span * sinv < 0x1000_0000_0000_0000)
            by (nonlinear_arith)
            requires
                0 <= distance_mm <= 4000 * 1000,
                0 <= span <= 0x800_0000,
                -1000 <= cosv <= 1000,
                -1000 <= sinv <= 1000,
        ;
    }
    let ox = round_div_i64(distance_mm * span * cosv, den);
    let oy = round_div_i64(distance_mm * span * sinv, den);
    let cx = (c.width / 2) as i64;
    let cy = (c.height / 2) as i64;
    (((cx + ox) as i32), ((cy + oy) as i32))
}

} // verus!

