//! The frame composer: one full scan frame per invocation.
//!
//! Each frame is a total function of that frame's inputs: clear the whole
//! buffer to the background colour, draw one range ring per whole metre,
//! draw the angular spokes, then plot a filled dot for every reading whose
//! distance lies in `[0, max_range]`.  Out-of-range and negative distances
//! model "no return" and are dropped without error; nothing of the
//! previous frame survives the clear, so composing twice from the same
//! inputs yields the same buffer.

use vstd::prelude::*;
use crate::pixel::painted;
use crate::circle::{draw_circle, disk_cov};
use crate::outline::{draw_circle_outline, outline_cov};
use crate::line::{draw_line, line_cov};
use crate::transform::{
    ScanConfig, round_div, round_div_i64, sample_px, polar_to_pixel, lemma_round_div_bound,
};
use vstd::arithmetic::div_mod::lemma_fundamental_div_mod_converse_div;

verus! {

/// One range reading: the direction it was taken in, in whole degrees,
/// and the distance it returned, in millimetres.  A negative distance
/// stands for an invalid reading ("no return"), and is dropped by the
/// composer just like one beyond the maximum range.
#[derive(Clone, Copy, PartialEq, Eq, Structural, Debug)]
pub struct Sample {
    pub angle_deg: u16,
    pub distance_mm: i64,
}

/// The buffer fully cleared to the background colour.
pub open spec fn cleared(c: ScanConfig) -> Seq<u32> {
    Seq::new((c.width * c.height) as nat, |k: int| c.bg_color)
}

/// The pixel radius of the range ring for `r_m` whole metres.
pub open spec fn ring_radius_px(c: ScanConfig, r_m: int) -> int {
    round_div(1000 * r_m * c.span_px(), c.max_range_mm())
}

/// The buffer `s` with the first `k` range rings drawn over it.
pub open spec fn rings_painted(c: ScanConfig, s: Seq<u32>, k: int) -> Seq<u32>
    decreases k,
{
    if k <= 0 {
        s
    } else {
        painted(
            rings_painted(c, s, k - 1),
            c.width as int,
            outline_cov(c.center_x(), c.center_y(), ring_radius_px(c, k)),
            c.ring_color,
        )
    }
}

/// The buffer `s` with the first `k` spokes drawn over it: spoke number
/// `k` runs from the centre to the point at maximum range in direction
/// `k * spoke_step_deg`.
pub open spec fn spokes_painted(c: ScanConfig, s: Seq<u32>, k: int) -> Seq<u32>
    decreases k,
{
    if k <= 0 {
        s
    } else {
        painted(
            spokes_painted(c, s, k - 1),
            c.width as int,
            line_cov(
                c.center_x(),
                c.center_y(),
                sample_px(c, (k - 1) * c.spoke_step_deg, c.max_range_mm()).0,
                sample_px(c, (k - 1) * c.spoke_step_deg, c.max_range_mm()).1,
            ),
            c.spoke_color,
        )
    }
}

/// How many spokes a frame holds: one per step below 360 degrees.
pub open spec fn spoke_count(c: ScanConfig) -> int {
    (360 + c.spoke_step_deg - 1) / (c.spoke_step_deg as int)
}

/// The buffer `s` with a filled dot for every in-range reading, in
/// reading order.  A reading outside `[0, max_range]` paints nothing.
pub open spec fn points_painted(c: ScanConfig, s: Seq<u32>, samples: Seq<Sample>) -> Seq<u32>
    decreases samples.len(),
{
    if samples.len() == 0 {
        s
    } else {
        let prev = points_painted(c, s, samples.drop_last());
        let smp = samples.last();
        if 0 <= smp.distance_mm <= c.max_range_mm() {
            painted(
                prev,
                c.width as int,
                disk_cov(
                    sample_px(c, smp.angle_deg as int, smp.distance_mm as int).0,
                    sample_px(c, smp.angle_deg as int, smp.distance_mm as int).1,
                    c.point_radius as int,
                ),
                c.point_color,
            )
        } else {
            prev
        }
    }
}

/// One composed frame: clear, rings, spokes, then the in-range points.
/// The result depends on the configuration and the readings alone, never
/// on what the buffer held before.
pub open spec fn frame_spec(c: ScanConfig, samples: Seq<Sample>) -> Seq<u32> {
    points_painted(
        c,
        spokes_painted(c, rings_painted(c, cleared(c), c.max_range_m as int), spoke_count(c)),
        samples,
    )
}


/// Painting preserves length, so each stage of the frame does too.
proof fn lemma_rings_painted_len(c: ScanConfig, s: Seq<u32>, k: int)
    ensures
        rings_painted(c, s, k).len() == s.len(),
    decreases k,
{
    if k <= 0 {
    } else {
        lemma_rings_painted_len(c, s, k - 1);
    }
}

proof fn lemma_spokes_painted_len(c: ScanConfig, s: Seq<u32>, k: int)
    ensures
        spokes_painted(c, s, k).len() == s.len(),
    decreases k,
{
    if k <= 0 {
    } else {
        lemma_spokes_painted_len(c, s, k - 1);
    }
}

proof fn lemma_points_painted_len(c: ScanConfig, s: Seq<u32>, samples: Seq<Sample>)
    ensures
        points_painted(c, s, samples).len() == s.len(),
    decreases samples.len(),
{
    if samples.len() == 0 {
    } else {
        lemma_points_painted_len(c, s, samples.drop_last());
    }
}

/// A composed frame always holds exactly `width * height` pixels,
/// whatever the readings were.
pub proof fn lemma_frame_spec_len(c: ScanConfig, samples: Seq<Sample>)
    ensures
        frame_spec(c, samples).len() == c.width * c.height,
{
    lemma_rings_painted_len(c, cleared(c), c.max_range_m as int);
    lemma_spokes_painted_len(
        c,
        rings_painted(c, cleared(c), c.max_range_m as int),
        spoke_count(c),
    );
    lemma_points_painted_len(
        c,
        spokes_painted(c, rings_painted(c, cleared(c), c.max_range_m as int), spoke_count(c)),
        samples,
    );
}

/// A reading outside the plotted range leaves the frame exactly as it
/// would have been without that reading.
pub proof fn lemma_out_of_range_sample_ignored(c: ScanConfig, samples: Seq<Sample>, smp: Sample)
    requires
        !(0 <= smp.distance_mm <= c.max_range_mm()),
    ensures
        frame_spec(c, samples.push(smp)) == frame_spec(c, samples),
{
    let base = spokes_painted(
        c,
        rings_painted(c, cleared(c), c.max_range_m as int),
        spoke_count(c),
    );
    assert(samples.push(smp).drop_last() =~= samples);
    assert(samples.push(smp).last() == smp);
    assert(points_painted(c, base, samples.push(smp)) == points_painted(c, base, samples));
}

/// Compose one frame into `buffer` from this tick's readings: clear the
/// whole buffer, draw the polar grid, and plot a dot for every reading
/// whose distance lies in `[0, max_range]`.  The resulting contents are
/// exactly `frame_spec(config, readings)`, whatever the buffer held
/// before.
pub fn update_lidar_buffer(c: &ScanConfig, buffer: &mut Vec<u32>, samples: &Vec<Sample>)
    requires
        c.wf(),
        old(buffer)@.len() == c.width * c.height,
    ensures
        final(buffer)@ == frame_spec(*c, samples@),
{
    let n = buffer.len();
    let mut k: usize = 0;
    while k < n
        invariant
            buffer@.len() == n,
            k <= n,
            n == c.width * c.height,
            forall|j: int| 0 <= j < k ==> buffer@[j] == c.bg_color,
        decreases n - k,
    {
        buffer.set(k, c.bg_color);
        k = k + 1;
    }
    proof {
        assert(buffer@ =~= cleared(*c));
    }
    let ghost base = cleared(*c);

    let cx = (c.width / 2) as i32;
    let cy = (c.height / 2) as i32;
    let span = (c.width / 2 - c.margin) as i64;
    let maxr_mm = c.max_range_m as i64 * 1000;

    let mut r: u32 = 1;
    while r <= c.max_range_m
        invariant
            c.wf(),
            buffer@.len() == c.width * c.height,
            buffer@.len() <= usize::MAX,
            cx as int == c.center_x(),
            cy as int == c.center_y(),
            span == c.span_px(),
            maxr_mm == c.max_range_mm(),
            1 <= r <= c.max_range_m + 1,
            base == cleared(*c),
            buffer@ == rings_painted(*c, base, r as int - 1),
        decreases c.max_range_m + 1 - r,
    {
        proof {
            assert(0 <= 1000 * (r as int) * span <= span * maxr_mm && 1000 * (r as int) * span
                < 0x1000_0000_0000_0000) by (nonlinear_arith)
                requires
                    0 < r <= 4000,
                    0 <= span <= 0x800_0000,
                    maxr_mm >= 1000 * (r as int),
            ;
        }
        let num = 1000i64 * (r as i64) * span;
        let rad64 = round_div_i64(num, maxr_mm);
        proof {
            lemma_round_div_bound(num as int, maxr_mm as int, span as int);
        }
        let rad = rad64 as i32;
        draw_circle_outline(buffer, c.width, c.height, cx, cy, rad, c.ring_color);
        proof {
            assert(buffer@ == rings_painted(*c, base, r as int));
        }
        r = r + 1;
    }
    let ghost after_rings = rings_painted(*c, base, c.max_range_m as int);

    let mut theta: u16 = 0;
    let ghost mut ks: int = 0;
    while theta < 360
        invariant
            c.wf(),
            buffer@.len() == c.width * c.height,
            buffer@.len() <= usize::MAX,
            cx as int == c.center_x(),
            cy as int == c.center_y(),
            maxr_mm == c.max_range_mm(),
            0 <= ks,
            theta as int == ks * (c.spoke_step_deg as int),
            theta < 360 + c.spoke_step_deg,
            after_rings == rings_painted(*c, cleared(*c), c.max_range_m as int),
            buffer@ == spokes_painted(*c, after_rings, ks),
        decreases 360 + c.spoke_step_deg - theta,
    {
        let (ex, ey) = polar_to_pixel(c, theta, maxr_mm);
        draw_line(buffer, c.width, c.height, cx, cy, ex, ey, c.spoke_color);
        proof {
            assert(buffer@ == spokes_painted(*c, after_rings, ks + 1));
            assert((ks + 1) * (c.spoke_step_deg as int) == ks * (c.spoke_step_deg as int)
                + c.spoke_step_deg) by (nonlinear_arith);
            ks = ks + 1;
        }
        theta = theta + c.spoke_step_deg;
    }
    proof {
        let step = c.spoke_step_deg as int;
        lemma_fundamental_div_mod_converse_div(
            360 + step - 1,
            step,
            ks,
            360 + step - 1 - theta as int,
        );
        assert(ks == spoke_count(*c));
    }
    let ghost after_spokes = spokes_painted(*c, after_rings, spoke_count(*c));

    let mut i: usize = 0;
    while i < samples.len()
        invariant
            c.wf(),
            buffer@.len() == c.width * c.height,
            buffer@.len() <= usize::MAX,
            maxr_mm == c.max_range_mm(),
            i <= samples@.len(),
            after_spokes == spokes_painted(
                *c,
                rings_painted(*c, cleared(*c), c.max_range_m as int),
                spoke_count(*c),
            ),
            buffer@ == points_painted(*c, after_spokes, samples@.take(i as int)),
        decreases samples@.len() - i,
    {
        let smp = samples[i];
        if 0 <= smp.distance_mm && smp.distance_mm <= maxr_mm {
            let (px, py) = polar_to_pixel(c, smp.angle_deg, smp.distance_mm);
            draw_circle(buffer, c.width, c.height, px, py, c.point_radius as i32, c.point_color);
        }
        proof {
            assert(samples@.take(i as int + 1).drop_last() =~= samples@.take(i as int));
            assert(samples@.take(i as int + 1).last() == samples@[i as int]);
            assert(buffer@ == points_painted(*c, after_spokes, samples@.take(i as int + 1)));
        }
        i = i + 1;
    }
    proof {
        assert(samples@.take(samples@.len() as int) =~= samples@);
        assert(buffer@ == frame_spec(*c, samples@));
    }
}

} // verus!
