//! Pixel-level checks of the rasterization primitives.

use lidar_scan::circle::draw_circle;
use lidar_scan::outline::draw_circle_outline;
use lidar_scan::line::draw_line;

const BG: u32 = 0xFFFF_FFFF;
const INK: u32 = 0xFF00_0000;

fn fresh(width: usize, height: usize) -> Vec<u32> {
    vec![BG; width * height]
}

#[test]
fn filled_circle_is_exactly_the_disk() {
    let (w, h) = (9usize, 9usize);
    let mut buf = fresh(w, h);
    draw_circle(&mut buf, w, h, 4, 4, 2, INK);
    for y in 0..h as i32 {
        for x in 0..w as i32 {
            let dx = x - 4;
            let dy = y - 4;
            let expected = if dx * dx + dy * dy <= 4 { INK } else { BG };
            assert_eq!(buf[(y as usize) * w + (x as usize)], expected, "pixel ({x},{y})");
        }
    }
}

#[test]
fn filled_circle_clips_to_the_buffer() {
    let (w, h) = (5usize, 5usize);
    let mut buf = fresh(w, h);
    draw_circle(&mut buf, w, h, 0, 0, 3, INK);
    assert_eq!(buf.len(), w * h);
    for y in 0..h as i32 {
        for x in 0..w as i32 {
            let expected = if x * x + y * y <= 9 { INK } else { BG };
            assert_eq!(buf[(y as usize) * w + (x as usize)], expected, "pixel ({x},{y})");
        }
    }
}

#[test]
fn filled_circle_negative_radius_draws_nothing() {
    let (w, h) = (4usize, 4usize);
    let mut buf = fresh(w, h);
    draw_circle(&mut buf, w, h, 2, 2, -1, INK);
    assert!(buf.iter().all(|&p| p == BG));
}

#[test]
fn filled_circle_radius_zero_marks_the_centre() {
    let (w, h) = (5usize, 5usize);
    let mut buf = fresh(w, h);
    draw_circle(&mut buf, w, h, 2, 3, 0, INK);
    for y in 0..h {
        for x in 0..w {
            let expected = if (x, y) == (2, 3) { INK } else { BG };
            assert_eq!(buf[y * w + x], expected, "pixel ({x},{y})");
        }
    }
}

#[test]
fn outline_radius_zero_marks_the_centre() {
    let (w, h) = (5usize, 5usize);
    let mut buf = fresh(w, h);
    draw_circle_outline(&mut buf, w, h, 2, 2, 0, INK);
    for y in 0..h {
        for x in 0..w {
            let expected = if (x, y) == (2, 2) { INK } else { BG };
            assert_eq!(buf[y * w + x], expected, "pixel ({x},{y})");
        }
    }
}

#[test]
fn outline_is_eight_way_symmetric() {
    let (w, h) = (41usize, 41usize);
    let (cx, cy) = (20i32, 20i32);
    let mut buf = fresh(w, h);
    draw_circle_outline(&mut buf, w, h, cx, cy, 15, INK);
    let at = |x: i32, y: i32| buf[(y as usize) * w + (x as usize)];
    let mut touched = 0usize;
    for y in 0..h as i32 {
        for x in 0..w as i32 {
            let v = at(x, y);
            if v == INK {
                touched += 1;
            }
            // Mirror across the vertical axis, the horizontal axis, and
            // the main diagonal through the centre.
            assert_eq!(v, at(2 * cx - x, y), "x-mirror of ({x},{y})");
            assert_eq!(v, at(x, 2 * cy - y), "y-mirror of ({x},{y})");
            assert_eq!(v, at(cx + (y - cy), cy + (x - cx)), "diagonal mirror of ({x},{y})");
        }
    }
    assert!(touched > 0);
}

#[test]
fn outline_is_hollow() {
    let (w, h) = (41usize, 41usize);
    let mut buf = fresh(w, h);
    draw_circle_outline(&mut buf, w, h, 20, 20, 15, INK);
    // The centre and its neighbourhood stay background.
    for y in 15..=25usize {
        for x in 15..=25usize {
            assert_eq!(buf[y * w + x], BG, "pixel ({x},{y})");
        }
    }
    // The four axis extremes are on the outline.
    assert_eq!(buf[20 * w + 35], INK);
    assert_eq!(buf[20 * w + 5], INK);
    assert_eq!(buf[35 * w + 20], INK);
    assert_eq!(buf[5 * w + 20], INK);
}

#[test]
fn line_endpoints_and_interior_are_painted() {
    let (w, h) = (10usize, 10usize);
    let mut buf = fresh(w, h);
    draw_line(&mut buf, w, h, 1, 1, 7, 7, INK);
    for k in 1..=7usize {
        assert_eq!(buf[k * w + k], INK, "diagonal pixel ({k},{k})");
    }
    assert_eq!(buf[0], BG);
    assert_eq!(buf[9 * w + 9], BG);
}

#[test]
fn line_single_point() {
    let (w, h) = (5usize, 5usize);
    let mut buf = fresh(w, h);
    draw_line(&mut buf, w, h, 3, 3, 3, 3, INK);
    for y in 0..h {
        for x in 0..w {
            let expected = if (x, y) == (3, 3) { INK } else { BG };
            assert_eq!(buf[y * w + x], expected, "pixel ({x},{y})");
        }
    }
}

#[test]
fn line_clips_outside_the_buffer() {
    let (w, h) = (6usize, 4usize);
    let mut buf = fresh(w, h);
    draw_line(&mut buf, w, h, -3, 1, 8, 1, INK);
    for x in 0..w {
        assert_eq!(buf[w + x], INK, "row-1 pixel {x}");
    }
    for x in 0..w {
        assert_eq!(buf[x], BG);
        assert_eq!(buf[2 * w + x], BG);
    }
}

#[test]
fn vertical_spoke_paints_one_column() {
    // A ninety-degree spoke: from (400,400) straight up to (400,40).
    let (w, h) = (800usize, 800usize);
    let mut buf = fresh(w, h);
    draw_line(&mut buf, w, h, 400, 400, 400, 40, INK);
    for y in 0..h {
        for x in 395..=405usize {
            let expected = if x == 400 && (40..=400).contains(&y) { INK } else { BG };
            assert_eq!(buf[y * w + x], expected, "pixel ({x},{y})");
        }
    }
}
