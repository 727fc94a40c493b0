//! Circle rasterization: the solid disk that marks a detected sample.
//!
//! A filled circle covers exactly the pixels whose squared distance from
//! the centre is at most the squared radius; pixels outside the buffer are
//! skipped, never an error.

use vstd::prelude::*;
use crate::pixel::{painted, pixel_index, lemma_pixel_index, lemma_painted_from_pointwise};

verus! {

/// A pixel of the solid disk of radius `radius` around `(cx, cy)`.
/// A negative radius covers nothing, matching the empty scan of its
/// bounding box.
pub open spec fn disk_covers(cx: int, cy: int, radius: int, x: int, y: int) -> bool {
    radius >= 0 && (x - cx) * (x - cx) + (y - cy) * (y - cy) <= radius * radius
}

/// The disk around `(cx, cy)` as a coverage predicate.
pub open spec fn disk_cov(cx: int, cy: int, radius: int) -> spec_fn(int, int) -> bool {
    |x: int, y: int| disk_covers(cx, cy, radius, x, y)
}

/// Every covered pixel lies in the disk's bounding box.
proof fn lemma_disk_inside_box(cx: int, cy: int, radius: int, x: int, y: int)
    requires
        disk_covers(cx, cy, radius, x, y),
    ensures
        cx - radius <= x <= cx + radius,
        cy - radius <= y <= cy + radius,
{
    assert(cx - radius <= x <= cx + radius && cy - radius <= y <= cy + radius)
        by (nonlinear_arith)
        requires
            radius >= 0,
            (x - cx) * (x - cx) + (y - cy) * (y - cy) <= radius * radius,
    ;
}

/// Squares of 32-bit offsets stay comfortably inside 64 bits.
proof fn lemma_square_bound(a: int, b: int)
    by (nonlinear_arith)
    requires
        -0x7fff_ffff <= a <= 0x7fff_ffff,
        -0x7fff_ffff <= b <= 0x7fff_ffff,
    ensures
        0 <= a * a <= 0x3fff_ffff_0000_0001,
        0 <= b * b <= 0x3fff_ffff_0000_0001,
{
}

/// Draw a solid disk of the given radius around `(cx, cy)`: exactly the
/// in-bounds pixels with `dx*dx + dy*dy <= radius*radius` take `color`,
/// every other entry of the buffer is left as it was.
pub fn draw_circle(
    buffer: &mut Vec<u32>,
    width: usize,
    height: usize,
    cx: i32,
    cy: i32,
    radius: i32,
    color: u32,
)
    requires
        old(buffer)@.len() == width * height,
        width < 0x8000_0000,
        height < 0x8000_0000,
    ensures
        final(buffer)@ == painted(
            old(buffer)@,
            width as int,
            disk_cov(cx as int, cy as int, radius as int),
            color,
        ),
{
    let ghost s0 = buffer@;
    let ghost cov = disk_cov(cx as int, cy as int, radius as int);
    // A vector's length fits the machine word; the index arithmetic
    // below leans on that bound.
    let _n = buffer.len();
    let w = width as i64;
    let h = height as i64;
    let cxl = cx as i64;
    let cyl = cy as i64;
    let rl = radius as i64;
    if rl < 0 {
        proof {
            assert(buffer@ =~= painted(s0, width as int, cov, color));
        }
        return;
    }
    let mut y: i64 = if cyl - rl > 0 {
        cyl - rl
    } else {
        0
    };
    proof {
        assert forall|xx: int, yy: int| 0 <= xx < w && 0 <= yy < h && #[trigger] cov(xx, yy)
            implies yy >= y by {
            lemma_disk_inside_box(cxl as int, cyl as int, rl as int, xx, yy);
        }
    }
    while y < h && y <= cyl + rl
        invariant
            buffer@.len() == s0.len(),
            s0.len() == width * height,
            s0.len() <= usize::MAX,
            width < 0x8000_0000,
            height < 0x8000_0000,
            w == width as int,
            h == height as int,
            cxl == cx as int,
            cyl == cy as int,
            rl == radius as int,
            rl >= 0,
            cov == disk_cov(cx as int, cy as int, radius as int),
            0 <= y,
            cyl - rl <= y,
            forall|xx: int, yy: int|
                0 <= xx < w && 0 <= yy < h ==> buffer@[pixel_index(w as int, xx, yy)] == if cov(
                    xx,
                    yy,
                ) && yy < y {
                    color
                } else {
                    s0[pixel_index(w as int, xx, yy)]
                },
        decreases h - y,
    {
        let mut x: i64 = if cxl - rl > 0 {
            cxl - rl
        } else {
            0
        };
        proof {
            assert forall|xx: int, yy: int| 0 <= xx < w && 0 <= yy < h && #[trigger] cov(xx, yy) && yy == y
                implies xx >= x by {
                lemma_disk_inside_box(cxl as int, cyl as int, rl as int, xx, yy);
            }
        }
        while x < w && x <= cxl + rl
            invariant
                buffer@.len() == s0.len(),
                s0.len() == width * height,
                s0.len() <= usize::MAX,
                width < 0x8000_0000,
                height < 0x8000_0000,
                w == width as int,
                h == height as int,
                cxl == cx as int,
                cyl == cy as int,
                rl == radius as int,
                rl >= 0,
                cov == disk_cov(cx as int, cy as int, radius as int),
                0 <= y < h,
                cyl - rl <= y <= cyl + rl,
                0 <= x,
                cxl - rl <= x,
                forall|xx: int, yy: int|
                    0 <= xx < w && 0 <= yy < h ==> buffer@[pixel_index(w as int, xx, yy)]
                        == if cov(xx, yy) && (yy < y || (yy == y && xx < x)) {
                        color
                    } else {
                        s0[pixel_index(w as int, xx, yy)]
                    },
            decreases w - x,
        {
            let dx = x - cxl;
            let dy = y - cyl;
            proof {
                lemma_square_bound(dx as int, dy as int);
                lemma_square_bound(rl as int, rl as int);
            }
            if dx * dx + dy * dy <= rl * rl {
                proof {
                    lemma_pixel_index(w as int, h as int, x as int, y as int);
                    assert((y as int) * (width as int) + (x as int) == pixel_index(
                        w as int,
                        x as int,
                        y as int,
                    ));
                    assert(0 <= (y as int) * (width as int) + (x as int) < width * height);
                }
                let idx = (y as usize) * width + (x as usize);
                buffer.set(idx, color);
                proof {
                    assert forall|xx: int, yy: int|
                        0 <= xx < w && 0 <= yy < h && pixel_index(w as int, xx, yy) == idx
                        implies xx == x && yy == y by {
                        lemma_pixel_index(w as int, h as int, xx, yy);
                        lemma_pixel_index(w as int, h as int, x as int, y as int);
                    }
                }
            } else {
                proof {
                    assert(!cov(x as int, y as int));
                }
            }
            x = x + 1;
            proof {
                assert forall|xx: int, yy: int|
                    0 <= xx < w && 0 <= yy < h implies buffer@[pixel_index(w as int, xx, yy)]
                    == if cov(xx, yy) && (yy < y || (yy == y && xx < x)) {
                    color
                } else {
                    s0[pixel_index(w as int, xx, yy)]
                } by {
                    lemma_pixel_index(w as int, h as int, xx, yy);
                    if cov(xx, yy) {
                        lemma_disk_inside_box(cxl as int, cyl as int, rl as int, xx, yy);
                    }
                }
            }
        }
        proof {
            assert forall|xx: int, yy: int| 0 <= xx < w && 0 <= yy < h && #[trigger] cov(xx, yy) && yy == y
                implies xx < x by {
                lemma_disk_inside_box(cxl as int, cyl as int, rl as int, xx, yy);
            }
        }
        y = y + 1;
    }
    proof {
        assert forall|xx: int, yy: int| 0 <= xx < w && 0 <= yy < h && #[trigger] cov(xx, yy)
            implies yy < y by {
            lemma_disk_inside_box(cxl as int, cyl as int, rl as int, xx, yy);
        }
        lemma_painted_from_pointwise(s0, buffer@, width as int, height as int, cov, color);
    }
}

} // verus!
