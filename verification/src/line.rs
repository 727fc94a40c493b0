//! Line rasterization with the integer Bresenham algorithm.
//!
//! The algorithm keeps an error accumulator and, at each step, moves one
//! column toward the end point, one row, or both.  The walk is phrased
//! over nonnegative offsets `(i, j)` from the start point (`i` columns and
//! `j` rows travelled); the coverage predicate maps those offsets back to
//! pixels through the step direction of each axis.

use vstd::prelude::*;
use crate::pixel::{
    painted, pixel_index, plot, lemma_pixel_index, lemma_collision,
    lemma_painted_from_pointwise,
};

verus! {

/// The number of steps the walk takes along one axis: `|to - from|`.
pub open spec fn span(from: int, to: int) -> int {
    if to >= from {
        to - from
    } else {
        from - to
    }
}

/// The coordinate reached after travelling `a` steps from `from` toward
/// `to` (away from it when `from == to`; the walk then never moves on this
/// axis, matching a step direction fixed at start-up).
pub open spec fn offset_coord(a: int, from: int, to: int) -> int {
    if from < to {
        from + a
    } else {
        from - a
    }
}

/// The Bresenham error term after `i` column steps and `j` row steps on a
/// line with axis spans `dx` and `dy`.
pub open spec fn bres_err(dx: int, dy: int, i: int, j: int) -> int {
    dx - dy - i * dy + j * dx
}

/// The offsets after one step from `(i, j)`: the column advances when the
/// doubled error clears `-dy`, the row advances when it is under `dx`.
pub open spec fn bres_step(dx: int, dy: int, i: int, j: int) -> (int, int) {
    let e2 = 2 * bres_err(dx, dy, i, j);
    ((if e2 > -dy { i + 1 } else { i }), (if e2 < dx { j + 1 } else { j }))
}

/// The offsets the walk visits from `(i, j)` to the end point `(dx, dy)`.
pub open spec fn bres_offsets(dx: int, dy: int, i: int, j: int) -> Set<(int, int)>
    decreases dx + dy - i - j when 0 <= i <= dx && 0 <= j <= dy via bres_offsets_decreases
{
    if i == dx && j == dy {
        Set::empty().insert((i, j))
    } else {
        let n = bres_step(dx, dy, i, j);
        bres_offsets(dx, dy, n.0, n.1).insert((i, j))
    }
}

#[via_fn]
proof fn bres_offsets_decreases(dx: int, dy: int, i: int, j: int) {
    if 0 <= i <= dx && 0 <= j <= dy && !(i == dx && j == dy) {
        lemma_bres_step_bounds(dx, dy, i, j);
    }
}

/// One step from a state short of the end point makes progress and never
/// overshoots either axis.
proof fn lemma_bres_step_bounds(dx: int, dy: int, i: int, j: int)
    requires
        0 <= i <= dx,
        0 <= j <= dy,
        !(i == dx && j == dy),
    ensures
        i <= bres_step(dx, dy, i, j).0 <= i + 1,
        j <= bres_step(dx, dy, i, j).1 <= j + 1,
        bres_step(dx, dy, i, j).0 <= dx,
        bres_step(dx, dy, i, j).1 <= dy,
        i + j < bres_step(dx, dy, i, j).0 + bres_step(dx, dy, i, j).1,
{
    let e2 = 2 * bres_err(dx, dy, i, j);
    if i == dx {
        assert(bres_err(dx, dy, i, j) <= -dy) by (nonlinear_arith)
            requires
                0 <= dx,
                i == dx,
                0 <= j < dy,
        ;
    }
    if j == dy {
        assert(bres_err(dx, dy, i, j) >= dx) by (nonlinear_arith)
            requires
                0 <= dy,
                j == dy,
                0 <= i < dx,
        ;
    }
    if !(e2 > -dy) && !(e2 < dx) {
        assert(dx <= e2 <= -dy);
        assert(dx == 0 && dy == 0);
        assert(bres_err(dx, dy, i, j) == 0) by (nonlinear_arith)
            requires
                dx == 0,
                dy == 0,
        ;
        assert(false);
    }
}

/// Every offset the walk visits from `(i, j)` stays inside the rectangle
/// `[i, dx] x [j, dy]` and no closer to the start than `(i, j)`.
pub proof fn lemma_bres_offsets_bounds(dx: int, dy: int, i: int, j: int)
    requires
        0 <= i <= dx,
        0 <= j <= dy,
    ensures
        forall|p: (int, int)| #[trigger] bres_offsets(dx, dy, i, j).contains(p) ==> i <= p.0 <= dx
            && j <= p.1 <= dy && i + j <= p.0 + p.1,
    decreases dx + dy - i - j,
{
    if i == dx && j == dy {
    } else {
        let n = bres_step(dx, dy, i, j);
        lemma_bres_step_bounds(dx, dy, i, j);
        lemma_bres_offsets_bounds(dx, dy, n.0, n.1);
        assert(bres_offsets(dx, dy, i, j) == bres_offsets(dx, dy, n.0, n.1).insert((i, j)));
        assert forall|p: (int, int)| #[trigger] bres_offsets(dx, dy, i, j).contains(p) implies i
            <= p.0 <= dx && j <= p.1 <= dy && i + j <= p.0 + p.1 by {
            if p != (i, j) {
                assert(bres_offsets(dx, dy, n.0, n.1).contains(p));
            }
        }
    }
}

/// A pixel of the Bresenham line from `(x1, y1)` to `(x2, y2)`: the image
/// of some visited offset pair.
pub open spec fn line_covers(x1: int, y1: int, x2: int, y2: int, x: int, y: int) -> bool {
    exists|p: (int, int)|
        #[trigger] bres_offsets(span(x1, x2), span(y1, y2), 0, 0).contains(p) && x == offset_coord(
            p.0,
            x1,
            x2,
        ) && y == offset_coord(p.1, y1, y2)
}

/// The part of the line already painted once the walk has advanced
/// `bound` combined steps: offsets with `i + j < bound`.
pub open spec fn line_covers_upto(
    x1: int,
    y1: int,
    x2: int,
    y2: int,
    bound: int,
    x: int,
    y: int,
) -> bool {
    exists|p: (int, int)|
        #[trigger] bres_offsets(span(x1, x2), span(y1, y2), 0, 0).contains(p) && p.0 + p.1 < bound
            && x == offset_coord(p.0, x1, x2) && y == offset_coord(p.1, y1, y2)
}

/// The line as a coverage predicate.
pub open spec fn line_cov(x1: int, y1: int, x2: int, y2: int) -> spec_fn(int, int) -> bool {
    |x: int, y: int| line_covers(x1, y1, x2, y2, x, y)
}

/// Draw the line from `(x1, y1)` to `(x2, y2)` with the Bresenham
/// algorithm: exactly the pixels of the walk take `color`, clipped to the
/// buffer, and every other entry is left as it was.
pub fn draw_line(
    buffer: &mut Vec<u32>,
    width: usize,
    height: usize,
    x1: i32,
    y1: i32,
    x2: i32,
    y2: i32,
    color: u32,
)
    requires
        old(buffer)@.len() == width * height,
        width < 0x8000_0000,
        height < 0x8000_0000,
    ensures
        final(buffer)@ == painted(
            old(buffer)@,
            width as int,
            line_cov(x1 as int, y1 as int, x2 as int, y2 as int),
            color,
        ),
{
    let ghost s0 = buffer@;
    let ghost cov = line_cov(x1 as int, y1 as int, x2 as int, y2 as int);
    // A vector's length fits the machine word; the index arithmetic
    // below leans on that bound.
    let _n = buffer.len();
    let w = width as i64;
    let h = height as i64;
    let xs = x1 as i64;
    let ys = y1 as i64;
    let xe = x2 as i64;
    let ye = y2 as i64;
    let dx = if xe >= xs {
        xe - xs
    } else {
        xs - xe
    };
    let dy = if ye >= ys {
        ye - ys
    } else {
        ys - ye
    };
    let sx: i64 = if xs < xe {
        1
    } else {
        -1
    };
    let sy: i64 = if ys < ye {
        1
    } else {
        -1
    };
    let mut cx = xs;
    let mut cy = ys;
    let mut err = dx - dy;
    let ghost mut gi: int = 0;
    let ghost mut gj: int = 0;
    proof {
        lemma_bres_offsets_bounds(dx as int, dy as int, 0, 0);
    }
    loop
        invariant_except_break
            buffer@.len() == s0.len(),
            s0.len() == width * height,
            s0.len() <= usize::MAX,
            width < 0x8000_0000,
            height < 0x8000_0000,
            w == width as int,
            h == height as int,
            xs == x1 as int,
            ys == y1 as int,
            xe == x2 as int,
            ye == y2 as int,
            dx == span(x1 as int, x2 as int),
            dy == span(y1 as int, y2 as int),
            sx == (if (x1 as int) < (x2 as int) { 1int } else { -1int }),
            sy == (if (y1 as int) < (y2 as int) { 1int } else { -1int }),
            cov == line_cov(x1 as int, y1 as int, x2 as int, y2 as int),
            0 <= gi <= dx,
            0 <= gj <= dy,
            cx == offset_coord(gi, x1 as int, x2 as int),
            cy == offset_coord(gj, y1 as int, y2 as int),
            err == bres_err(dx as int, dy as int, gi, gj),
            -3 * dy <= 2 * err <= 3 * dx,
            forall|p: (int, int)| #[trigger]
                bres_offsets(dx as int, dy as int, gi, gj).contains(p) <==> bres_offsets(
                    dx as int,
                    dy as int,
                    0,
                    0,
                ).contains(p) && gi + gj <= p.0 + p.1,
            forall|xx: int, yy: int|
                0 <= xx < w && 0 <= yy < h ==> buffer@[pixel_index(w as int, xx, yy)]
                    == if line_covers_upto(x1 as int, y1 as int, x2 as int, y2 as int, gi + gj, xx, yy) {
                    color
                } else {
                    s0[pixel_index(w as int, xx, yy)]
                },
        ensures
            buffer@.len() == s0.len(),
            forall|xx: int, yy: int|
                0 <= xx < w && 0 <= yy < h ==> buffer@[pixel_index(w as int, xx, yy)] == if cov(
                    xx,
                    yy,
                ) {
                    color
                } else {
                    s0[pixel_index(w as int, xx, yy)]
                },
        decreases dx + dy - gi - gj,
    {
        let ghost gip = gi;
        let ghost gjp = gj;
        let ghost cxp = cx as int;
        let ghost cyp = cy as int;
        let ghost sb = buffer@;
        plot(buffer, width, height, cx, cy, color);
        proof {
            assert(bres_offsets(dx as int, dy as int, gi, gj).contains((gi, gj)));
            if !(gi == dx && gj == dy) {
                lemma_bres_step_bounds(dx as int, dy as int, gi, gj);
                let np = bres_step(dx as int, dy as int, gi, gj);
                lemma_bres_offsets_bounds(dx as int, dy as int, np.0, np.1);
                assert(bres_offsets(dx as int, dy as int, gi, gj) == bres_offsets(
                    dx as int,
                    dy as int,
                    np.0,
                    np.1,
                ).insert((gi, gj)));
            }
        }
        if cx == xe && cy == ye {
            proof {
                assert(gi == dx && gj == dy);
                assert(bres_offsets(dx as int, dy as int, dx as int, dy as int) =~= Set::empty().insert((dx as int, dy as int)));
                assert forall|xx: int, yy: int| 0 <= xx < w && 0 <= yy < h implies buffer@[pixel_index(
                    w as int,
                    xx,
                    yy,
                )] == if cov(xx, yy) {
                    color
                } else {
                    s0[pixel_index(w as int, xx, yy)]
                } by {
                    lemma_pixel_index(w as int, h as int, xx, yy);
                    let k = pixel_index(w as int, xx, yy);
                    lemma_collision(w as int, h as int, cxp, cyp, xx, yy);
                    if cov(xx, yy) {
                        let p = choose|p: (int, int)|
                            #[trigger] bres_offsets(dx as int, dy as int, 0, 0).contains(p) && xx
                                == offset_coord(p.0, x1 as int, x2 as int) && yy == offset_coord(
                                p.1,
                                y1 as int,
                                y2 as int,
                            );
                        if p.0 + p.1 < gi + gj {
                            assert(line_covers_upto(x1 as int, y1 as int, x2 as int, y2 as int,
                                gi + gj, xx, yy));
                            assert(sb[k] == color);
                        } else {
                            assert(bres_offsets(dx as int, dy as int, gi, gj).contains(p));
                            assert(p == (gi, gj));
                            assert(xx == cx && yy == cy);
                            assert(buffer@[k] == color);
                        }
                    } else {
                        assert(!line_covers_upto(x1 as int, y1 as int, x2 as int, y2 as int,
                            gi + gj, xx, yy));
                        assert(!(xx == cx && yy == cy));
                        assert(buffer@[k] == sb[k]);
                    }
                }
            }
            break;
        }
        let e2 = 2 * err;
        if e2 > -dy {
            err = err - dy;
            cx = cx + sx;
            proof {
                gi = gi + 1;
                assert((gip + 1) * (dy as int) == gip * (dy as int) + dy) by (nonlinear_arith);
            }
        }
        if e2 < dx {
            err = err + dx;
            cy = cy + sy;
            proof {
                gj = gj + 1;
                assert((gjp + 1) * (dx as int) == gjp * (dx as int) + dx) by (nonlinear_arith);
            }
        }
        proof {
            assert((gi, gj) == bres_step(dx as int, dy as int, gip, gjp));
            lemma_bres_offsets_bounds(dx as int, dy as int, gi, gj);
            assert forall|p: (int, int)| #[trigger]
                bres_offsets(dx as int, dy as int, gi, gj).contains(p) <==> bres_offsets(
                    dx as int,
                    dy as int,
                    0,
                    0,
                ).contains(p) && gi + gj <= p.0 + p.1 by {
                if bres_offsets(dx as int, dy as int, gi, gj).contains(p) {
                    assert(bres_offsets(dx as int, dy as int, gip, gjp).contains(p));
                }
                if bres_offsets(dx as int, dy as int, 0, 0).contains(p) && gi + gj <= p.0 + p.1 {
                    assert(bres_offsets(dx as int, dy as int, gip, gjp).contains(p));
                    assert(p != (gip, gjp));
                }
            }
            assert forall|xx: int, yy: int| 0 <= xx < w && 0 <= yy < h implies buffer@[pixel_index(
                w as int,
                xx,
                yy,
            )] == if line_covers_upto(x1 as int, y1 as int, x2 as int, y2 as int, gi + gj, xx, yy) {
                color
            } else {
                s0[pixel_index(w as int, xx, yy)]
            } by {
                lemma_pixel_index(w as int, h as int, xx, yy);
                let k = pixel_index(w as int, xx, yy);
                lemma_collision(w as int, h as int, cxp, cyp, xx, yy);
                if line_covers_upto(x1 as int, y1 as int, x2 as int, y2 as int, gi + gj, xx, yy) {
                    let p = choose|p: (int, int)|
                        #[trigger] bres_offsets(dx as int, dy as int, 0, 0).contains(p) && p.0
                            + p.1 < gi + gj && xx == offset_coord(p.0, x1 as int, x2 as int) && yy
                            == offset_coord(p.1, y1 as int, y2 as int);
                    if p.0 + p.1 < gip + gjp {
                        assert(line_covers_upto(x1 as int, y1 as int, x2 as int, y2 as int,
                            gip + gjp, xx, yy));
                        assert(sb[k] == color);
                        assert(buffer@[k] == color);
                    } else {
                        assert(bres_offsets(dx as int, dy as int, gip, gjp).contains(p));
                        assert(p != (gip, gjp) ==> bres_offsets(dx as int, dy as int, gi,
                            gj).contains(p) && gi + gj <= p.0 + p.1);
                        assert(p == (gip, gjp));
                        assert(xx == offset_coord(gip, x1 as int, x2 as int));
                        assert(yy == offset_coord(gjp, y1 as int, y2 as int));
                        assert(buffer@[k] == color);
                    }
                } else {
                    assert(!line_covers_upto(x1 as int, y1 as int, x2 as int, y2 as int,
                        gip + gjp, xx, yy));
                    assert(!(xx == offset_coord(gip, x1 as int, x2 as int) && yy == offset_coord(
                        gjp,
                        y1 as int,
                        y2 as int,
                    )));
                    assert(sb[k] == s0[k]);
                    assert(buffer@[k] == sb[k]);
                }
            }
        }
    }
    proof {
        lemma_painted_from_pointwise(s0, buffer@, width as int, height as int, cov, color);
    }
}

/// On a column-aligned walk the offsets are exactly `(0, j)` for every
/// row count `j` up to the span: the error term stays at `-dy`, so the
/// column never advances and the row advances every step.
proof fn lemma_bres_offsets_vertical(dy: int, j: int)
    requires
        0 <= j <= dy,
    ensures
        forall|p: (int, int)| #[trigger] bres_offsets(0, dy, 0, j).contains(p) <==> (p.0 == 0 && j
            <= p.1 <= dy),
    decreases dy - j,
{
    if j == dy {
    } else {
        lemma_bres_step_bounds(0, dy, 0, j);
        let n = bres_step(0, dy, 0, j);
        assert(bres_err(0, dy, 0, j) == -dy) by (nonlinear_arith);
        assert(n == (0int, j + 1));
        lemma_bres_offsets_vertical(dy, j + 1);
        assert(bres_offsets(0, dy, 0, j) == bres_offsets(0, dy, 0, j + 1).insert((0int, j)));
    }
}

/// A line whose endpoints share their column paints exactly that column
/// between the two rows: every pixel has `x == x1` and `y` runs over the
/// whole closed interval from `y1` to `y2`.
pub proof fn lemma_vertical_line(x1: int, y1: int, x2: int, y2: int, x: int, y: int)
    requires
        x1 == x2,
    ensures
        line_covers(x1, y1, x2, y2, x, y) <==> (x == x1 && (y1 <= y <= y2 || y2 <= y <= y1)),
{
    lemma_bres_offsets_vertical(span(y1, y2), 0);
    if line_covers(x1, y1, x2, y2, x, y) {
        let p = choose|p: (int, int)|
            #[trigger] bres_offsets(span(x1, x2), span(y1, y2), 0, 0).contains(p) && x
                == offset_coord(p.0, x1, x2) && y == offset_coord(p.1, y1, y2);
        assert(p.0 == 0 && 0 <= p.1 <= span(y1, y2));
    }
    if x == x1 && (y1 <= y <= y2 || y2 <= y <= y1) {
        let b = span(y1, y);
        assert(bres_offsets(span(x1, x2), span(y1, y2), 0, 0).contains((0int, b)) && x
            == offset_coord(0, x1, x2) && y == offset_coord(b, y1, y2));
    }
}

} // verus!
