//! The coordinate transform, the configuration, and the trigonometry.

use lidar_scan::transform::{ScanConfig, polar_to_pixel, round_div_i64};
use lidar_scan::trig::{sin_milli, cos_milli};

fn stock_config() -> ScanConfig {
    ScanConfig::new(800, 800, 20, 10).expect("stock geometry is well formed")
}

#[test]
fn stock_scale_is_thirty_eight_pixels_per_metre() {
    // width 800, margin 20, max range 10 m: scale = (400 - 20) / 10.
    let c = stock_config();
    // One metre along zero degrees moves exactly 38 pixels.
    assert_eq!(polar_to_pixel(&c, 0, 1000), (438, 400));
    assert_eq!(polar_to_pixel(&c, 0, 2000), (476, 400));
}

#[test]
fn sample_five_metres_at_zero_degrees() {
    // scale 38 px/m, so 5 m at 0 degrees lands at (400 + 190, 400).
    let c = stock_config();
    assert_eq!(polar_to_pixel(&c, 0, 5000), (590, 400));
}

#[test]
fn sample_at_cardinal_angles() {
    let c = stock_config();
    assert_eq!(polar_to_pixel(&c, 90, 5000), (400, 590));
    assert_eq!(polar_to_pixel(&c, 180, 5000), (210, 400));
    assert_eq!(polar_to_pixel(&c, 270, 5000), (400, 210));
}

#[test]
fn max_range_readings_stay_inside_the_window() {
    let c = stock_config();
    for angle in 0..360u16 {
        let (x, y) = polar_to_pixel(&c, angle, 10_000);
        assert!((0..800).contains(&x), "angle {angle}: x = {x}");
        assert!((0..800).contains(&y), "angle {angle}: y = {y}");
    }
}

#[test]
fn zero_distance_is_the_centre() {
    let c = stock_config();
    for angle in [0u16, 45, 135, 301] {
        assert_eq!(polar_to_pixel(&c, angle, 0), (400, 400));
    }
}

#[test]
fn config_rejects_bad_geometry() {
    assert!(ScanConfig::new(0, 800, 20, 10).is_none());
    assert!(ScanConfig::new(800, 0, 20, 10).is_none());
    assert!(ScanConfig::new(800, 800, 400, 10).is_none());
    assert!(ScanConfig::new(800, 800, 20, 0).is_none());
    assert!(ScanConfig::new(800, 800, 20, 4001).is_none());
    assert!(ScanConfig::new(800, 800, 399, 10).is_some());
}

#[test]
fn config_keeps_its_geometry() {
    let c = stock_config();
    assert_eq!(c.width, 800);
    assert_eq!(c.height, 800);
    assert_eq!(c.margin, 20);
    assert_eq!(c.max_range_m, 10);
    assert_eq!(c.bg_color, 0xFFFF_FFFF);
    assert_eq!(c.ring_color, 0x0080_0000);
    assert_eq!(c.spoke_color, 0xFF00_0000);
    assert_eq!(c.point_color, 0xFF00_0000);
    assert_eq!(c.point_radius, 3);
    assert_eq!(c.spoke_step_deg, 30);
}

#[test]
fn milli_sine_and_cosine_exact_values() {
    assert_eq!(sin_milli(0), 0);
    assert_eq!(sin_milli(30), 500);
    assert_eq!(sin_milli(45), 707);
    assert_eq!(sin_milli(90), 1000);
    assert_eq!(sin_milli(180), 0);
    assert_eq!(sin_milli(270), -1000);
    assert_eq!(cos_milli(0), 1000);
    assert_eq!(cos_milli(60), 500);
    assert_eq!(cos_milli(90), 0);
    assert_eq!(cos_milli(180), -1000);
    assert_eq!(cos_milli(360), 1000);
}

#[test]
fn milli_trig_wraps_whole_turns() {
    assert_eq!(sin_milli(360 + 30), sin_milli(30));
    assert_eq!(cos_milli(720 + 45), cos_milli(45));
}

#[test]
fn rounded_division_rounds_half_away_from_zero() {
    assert_eq!(round_div_i64(19, 2), 10);
    assert_eq!(round_div_i64(-19, 2), -10);
    assert_eq!(round_div_i64(18, 2), 9);
    assert_eq!(round_div_i64(7, 3), 2);
    assert_eq!(round_div_i64(8, 3), 3);
    assert_eq!(round_div_i64(-7, 3), -2);
    assert_eq!(round_div_i64(-8, 3), -3);
    assert_eq!(round_div_i64(0, 5), 0);
}
