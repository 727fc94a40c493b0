//! The frame composer and the frame flip.

use lidar_scan::compose::{Sample, update_lidar_buffer};
use lidar_scan::transform::ScanConfig;
use lidar_scan::flip::flip_vertical_rgb;

fn stock_config() -> ScanConfig {
    ScanConfig::new(800, 800, 20, 10).expect("stock geometry is well formed")
}

fn compose(c: &ScanConfig, fill: u32, samples: &Vec<Sample>) -> Vec<u32> {
    let mut buf = vec![fill; c.width * c.height];
    update_lidar_buffer(c, &mut buf, samples);
    buf
}

#[test]
fn composer_clears_and_draws_the_grid() {
    let c = stock_config();
    let buf = compose(&c, 0, &vec![]);
    // The corners lie outside the plot: pure background.
    assert_eq!(buf[0], 0xFFFF_FFFF);
    assert_eq!(buf[799], 0xFFFF_FFFF);
    assert_eq!(buf[799 * 800], 0xFFFF_FFFF);
    assert_eq!(buf[800 * 800 - 1], 0xFFFF_FFFF);
    // The zero-degree spoke runs from the centre to (780, 400).
    for x in 400..=780usize {
        assert_eq!(buf[400 * 800 + x], 0xFF00_0000, "spoke pixel ({x},400)");
    }
    assert_eq!(buf[400 * 800 + 781], 0xFFFF_FFFF);
    // Ring five crosses the 45-degree diagonal where no spoke runs; its
    // radius is 5 m * 38 px/m = 190 px.  Just outside the outermost ring
    // along the diagonal everything is background again.
    let touched = (0..800 * 800).filter(|&k| buf[k] != 0xFFFF_FFFF).count();
    assert!(touched > 1000);
}

#[test]
fn composer_is_deterministic_and_ignores_old_contents() {
    // Composing twice from identical inputs gives identical buffers, no
    // matter what the buffer held before each call.
    let c = stock_config();
    let samples = vec![
        Sample { angle_deg: 0, distance_mm: 5000 },
        Sample { angle_deg: 45, distance_mm: 2500 },
        Sample { angle_deg: 300, distance_mm: 9999 },
    ];
    let a = compose(&c, 0, &samples);
    let b = compose(&c, 0xDEAD_BEEF, &samples);
    assert_eq!(a, b);
}

#[test]
fn in_range_sample_paints_a_dot() {
    // 5 m at 45 degrees: offset round(190 * 707 / 1000) = 134 on both
    // axes, so the dot is centred at (534, 534).
    let c = stock_config();
    let without = compose(&c, 0, &vec![]);
    let with = compose(&c, 0, &vec![Sample { angle_deg: 45, distance_mm: 5000 }]);
    assert_eq!(with[534 * 800 + 534], 0xFF00_0000);
    let mut changed = 0usize;
    for y in 0..800usize {
        for x in 0..800usize {
            if with[y * 800 + x] != without[y * 800 + x] {
                changed += 1;
                let dx = x as i64 - 534;
                let dy = y as i64 - 534;
                assert!(dx * dx + dy * dy <= 9, "changed pixel ({x},{y}) outside the dot");
            }
        }
    }
    assert!(changed > 0);
}

#[test]
fn out_of_range_sample_leaves_the_frame_unchanged() {
    // 15 m is beyond the 10 m ceiling: no point is drawn for it.
    let c = stock_config();
    let without = compose(&c, 0, &vec![]);
    let with = compose(&c, 0, &vec![Sample { angle_deg: 0, distance_mm: 15_000 }]);
    assert_eq!(with, without);
}

#[test]
fn negative_distance_is_treated_as_no_return() {
    let c = stock_config();
    let without = compose(&c, 0, &vec![]);
    let with = compose(&c, 0, &vec![Sample { angle_deg: 200, distance_mm: -1 }]);
    assert_eq!(with, without);
}

#[test]
fn boundary_distances_are_plotted() {
    let c = stock_config();
    let without = compose(&c, 0, &vec![]);
    let at_max = compose(&c, 0, &vec![Sample { angle_deg: 45, distance_mm: 10_000 }]);
    assert_ne!(at_max, without);
    let at_zero = compose(&c, 0, &vec![Sample { angle_deg: 45, distance_mm: 0 }]);
    // A zero-distance return marks the centre.
    assert_eq!(at_zero[400 * 800 + 400], 0xFF00_0000);
}

#[test]
fn flip_swaps_rows() {
    let (w, h) = (2usize, 3usize);
    let rgb: Vec<u8> = (0..(w * h * 3) as u8).collect();
    let out = flip_vertical_rgb(&rgb, w, h);
    assert_eq!(out.len(), rgb.len());
    for y in 0..h {
        for x in 0..w {
            for ch in 0..3 {
                assert_eq!(
                    out[((h - 1 - y) * w + x) * 3 + ch],
                    rgb[(y * w + x) * 3 + ch],
                    "pixel ({x},{y}) channel {ch}"
                );
            }
        }
    }
    // Row 0 of the output is row 2 of the input.
    assert_eq!(&out[0..6], &rgb[12..18]);
    assert_eq!(&out[12..18], &rgb[0..6]);
}

#[test]
fn flip_twice_is_identity() {
    let (w, h) = (4usize, 5usize);
    let rgb: Vec<u8> = (0..(w * h * 3) as u8).map(|b| b.wrapping_mul(37)).collect();
    let once = flip_vertical_rgb(&rgb, w, h);
    let twice = flip_vertical_rgb(&once, w, h);
    assert_eq!(twice, rgb);
}
