//! Circle-outline rasterization with the mid-point circle algorithm.
//!
//! The algorithm walks one octant of the circle with an incremental error
//! term and mirrors every visited point eight ways.  The walk itself is the
//! most direct statement of which pixels form the outline, so the coverage
//! predicate is defined from the same octant recursion, and the drawing
//! routine is proved to paint exactly the mirrored, clipped walk.

use vstd::prelude::*;
use crate::pixel::{
    painted, pixel_index, plot, lemma_pixel_index, lemma_collision,
    lemma_painted_from_pointwise,
};

verus! {

/// The successor of an octant-walk state `(x, y, err)`: step one row up,
/// and step one column in when the accumulated error calls for it.
pub open spec fn octant_next(x: int, y: int, err: int) -> (int, int, int) {
    let y2 = y + 1;
    let e2 = err + 1 + 2 * y2;
    if 2 * (e2 - x) + 1 > 0 {
        (x - 1, y2, e2 + 1 - 2 * (x - 1))
    } else {
        (x, y2, e2)
    }
}

/// The set of octant points the walk visits from state `(x, y, err)` on,
/// as offsets from the circle's centre.
pub open spec fn octant_set(x: int, y: int, err: int) -> Set<(int, int)>
    decreases x + 2 - y,
{
    if x < y {
        Set::empty()
    } else {
        let n = octant_next(x, y, err);
        octant_set(n.0, n.1, n.2).insert((x, y))
    }
}

/// Every point the walk visits from `(x, y, err)` keeps `y <= b <= a <= x`.
pub proof fn lemma_octant_set_bounds(x: int, y: int, err: int)
    ensures
        forall|p: (int, int)| #[trigger] octant_set(x, y, err).contains(p) ==> y <= p.1 && p.1
            <= p.0 && p.0 <= x,
    decreases x + 2 - y,
{
    if x < y {
    } else {
        let n = octant_next(x, y, err);
        lemma_octant_set_bounds(n.0, n.1, n.2);
        assert(octant_set(x, y, err) == octant_set(n.0, n.1, n.2).insert((x, y)));
        assert forall|p: (int, int)| #[trigger] octant_set(x, y, err).contains(p) implies y <= p.1
            && p.1 <= p.0 && p.0 <= x by {
            if p != (x, y) {
                assert(octant_set(n.0, n.1, n.2).contains(p));
            }
        }
    }
}

/// The eight mirror images of the octant offset `(a, b)` around `(cx, cy)`.
pub open spec fn reflections(cx: int, cy: int, a: int, b: int, x: int, y: int) -> bool {
    ||| (x == cx + a && y == cy + b)
    ||| (x == cx + b && y == cy + a)
    ||| (x == cx - b && y == cy + a)
    ||| (x == cx - a && y == cy + b)
    ||| (x == cx - a && y == cy - b)
    ||| (x == cx - b && y == cy - a)
    ||| (x == cx + b && y == cy - a)
    ||| (x == cx + a && y == cy - b)
}

/// A pixel of the circle outline of radius `radius` around `(cx, cy)`:
/// a mirror image of some point of the full octant walk.
pub open spec fn outline_covers(cx: int, cy: int, radius: int, x: int, y: int) -> bool {
    exists|a: int, b: int|
        #[trigger] octant_set(radius, 0, 0).contains((a, b)) && reflections(cx, cy, a, b, x, y)
}

/// The outline restricted to octant points below row `bound`: the part
/// already painted once the walk has reached row `bound`.
pub open spec fn outline_covers_below(
    cx: int,
    cy: int,
    radius: int,
    bound: int,
    x: int,
    y: int,
) -> bool {
    exists|a: int, b: int|
        #[trigger] octant_set(radius, 0, 0).contains((a, b)) && b < bound && reflections(
            cx,
            cy,
            a,
            b,
            x,
            y,
        )
}

/// The outline as a coverage predicate.
pub open spec fn outline_cov(cx: int, cy: int, radius: int) -> spec_fn(int, int) -> bool {
    |x: int, y: int| outline_covers(cx, cy, radius, x, y)
}

/// Draw the circle outline of the given radius around `(cx, cy)` with the
/// mid-point circle algorithm: exactly the eight-way mirror images of the
/// octant walk take `color`, clipped to the buffer, and every other entry
/// is left as it was.
pub fn draw_circle_outline(
    buffer: &mut Vec<u32>,
    width: usize,
    height: usize,
    cx: i32,
    cy: i32,
    radius: i32,
    color: u32,
)
    requires
        old(buffer)@.len() == width * height,
        width < 0x8000_0000,
        height < 0x8000_0000,
    ensures
        final(buffer)@ == painted(
            old(buffer)@,
            width as int,
            outline_cov(cx as int, cy as int, radius as int),
            color,
        ),
{
    let ghost s0 = buffer@;
    let ghost cov = outline_cov(cx as int, cy as int, radius as int);
    // A vector's length fits the machine word; the index arithmetic
    // below leans on that bound.
    let _n = buffer.len();
    let w = width as i64;
    let h = height as i64;
    let cxl = cx as i64;
    let cyl = cy as i64;
    let rl = radius as i64;
    if rl < 0 {
        proof {
            assert(octant_set(rl as int, 0, 0) =~= Set::empty());
            assert(buffer@ =~= painted(s0, width as int, cov, color));
        }
        return;
    }
    let mut ox: i64 = rl;
    let mut oy: i64 = 0;
    let mut oerr: i64 = 0;
    proof {
        lemma_octant_set_bounds(rl as int, 0, 0);
    }
    while ox >= oy
        invariant
            buffer@.len() == s0.len(),
            s0.len() == width * height,
            s0.len() <= usize::MAX,
            width < 0x8000_0000,
            height < 0x8000_0000,
            w == width as int,
            h == height as int,
            cxl == cx as int,
            cyl == cy as int,
            rl == radius as int,
            rl >= 0,
            cov == outline_cov(cx as int, cy as int, radius as int),
            0 <= oy,
            ox <= rl,
            oy <= rl + 1,
            -(rl + 3) <= oerr,
            oerr <= ox || oerr <= 4 * oy + 13 || (oy > ox && oerr <= 4 * oy + 19),
            forall|p: (int, int)| #[trigger]
                octant_set(ox as int, oy as int, oerr as int).contains(p) <==> octant_set(
                    rl as int,
                    0,
                    0,
                ).contains(p) && p.1 >= oy,
            forall|xx: int, yy: int|
                0 <= xx < w && 0 <= yy < h ==> buffer@[pixel_index(w as int, xx, yy)]
                    == if outline_covers_below(cxl as int, cyl as int, rl as int, oy as int, xx, yy) {
                    color
                } else {
                    s0[pixel_index(w as int, xx, yy)]
                },
        decreases rl + 2 - oy,
    {
        let ghost oxp = ox as int;
        let ghost oyp = oy as int;
        let ghost errp = oerr as int;
        let ghost sb = buffer@;
        plot(buffer, width, height, cxl + ox, cyl + oy, color);
        let ghost t1 = buffer@;
        plot(buffer, width, height, cxl + oy, cyl + ox, color);
        let ghost t2 = buffer@;
        plot(buffer, width, height, cxl - oy, cyl + ox, color);
        let ghost t3 = buffer@;
        plot(buffer, width, height, cxl - ox, cyl + oy, color);
        let ghost t4 = buffer@;
        plot(buffer, width, height, cxl - ox, cyl - oy, color);
        let ghost t5 = buffer@;
        plot(buffer, width, height, cxl - oy, cyl - ox, color);
        let ghost t6 = buffer@;
        plot(buffer, width, height, cxl + oy, cyl - ox, color);
        let ghost t7 = buffer@;
        plot(buffer, width, height, cxl + ox, cyl - oy, color);
        let ghost t8 = buffer@;
        proof {
            let np = octant_next(oxp, oyp, errp);
            lemma_octant_set_bounds(np.0, np.1, np.2);
            assert(octant_set(oxp, oyp, errp) == octant_set(np.0, np.1, np.2).insert((oxp, oyp)));
            assert(octant_set(oxp, oyp, errp).contains((oxp, oyp)));
            assert forall|xx: int, yy: int| 0 <= xx < w && 0 <= yy < h implies buffer@[pixel_index(
                w as int,
                xx,
                yy,
            )] == if outline_covers_below(cxl as int, cyl as int, rl as int, oyp + 1, xx, yy) {
                color
            } else {
                s0[pixel_index(w as int, xx, yy)]
            } by {
                lemma_pixel_index(w as int, h as int, xx, yy);
                let k = pixel_index(w as int, xx, yy);
                // The eight mirror points of this iteration; a plotted entry
                // can only collide with (xx, yy) if it is that very pixel.
                lemma_collision(w as int, h as int, cxl + oxp, cyl + oyp, xx, yy);
                lemma_collision(w as int, h as int, cxl + oyp, cyl + oxp, xx, yy);
                lemma_collision(w as int, h as int, cxl - oyp, cyl + oxp, xx, yy);
                lemma_collision(w as int, h as int, cxl - oxp, cyl + oyp, xx, yy);
                lemma_collision(w as int, h as int, cxl - oxp, cyl - oyp, xx, yy);
                lemma_collision(w as int, h as int, cxl - oyp, cyl - oxp, xx, yy);
                lemma_collision(w as int, h as int, cxl + oyp, cyl - oxp, xx, yy);
                lemma_collision(w as int, h as int, cxl + oxp, cyl - oyp, xx, yy);
                assert(t1[k] == color || t1[k] == sb[k]);
                assert(t2[k] == color || t2[k] == t1[k]);
                assert(t3[k] == color || t3[k] == t2[k]);
                assert(t4[k] == color || t4[k] == t3[k]);
                assert(t5[k] == color || t5[k] == t4[k]);
                assert(t6[k] == color || t6[k] == t5[k]);
                assert(t7[k] == color || t7[k] == t6[k]);
                assert(t8[k] == color || t8[k] == t7[k]);
                if outline_covers_below(cxl as int, cyl as int, rl as int, oyp + 1, xx, yy) {
                    let (a, b) = choose|a: int, b: int|
                        #[trigger] octant_set(rl as int, 0, 0).contains((a, b)) && b < oyp + 1
                            && reflections(cxl as int, cyl as int, a, b, xx, yy);
                    if b < oyp {
                        assert(outline_covers_below(cxl as int, cyl as int, rl as int, oyp, xx, yy));
                        assert(sb[k] == color);
                        assert(t1[k] == color);
                        assert(t2[k] == color);
                        assert(t3[k] == color);
                        assert(t4[k] == color);
                        assert(t5[k] == color);
                        assert(t6[k] == color);
                        assert(t7[k] == color);
                        assert(t8[k] == color);
                    } else {
                        // b == oyp: the only octant point on this row is (oxp, oyp).
                        assert(octant_set(oxp, oyp, errp).contains((a, b)));
                        assert(a == oxp && b == oyp);
                        assert(reflections(cxl as int, cyl as int, oxp, oyp, xx, yy));
                        assert((xx == cxl + oxp && yy == cyl + oyp) ==> t1[k] == color);
                        assert((xx == cxl + oyp && yy == cyl + oxp) ==> t2[k] == color);
                        assert((xx == cxl - oyp && yy == cyl + oxp) ==> t3[k] == color);
                        assert((xx == cxl - oxp && yy == cyl + oyp) ==> t4[k] == color);
                        assert((xx == cxl - oxp && yy == cyl - oyp) ==> t5[k] == color);
                        assert((xx == cxl - oyp && yy == cyl - oxp) ==> t6[k] == color);
                        assert((xx == cxl + oyp && yy == cyl - oxp) ==> t7[k] == color);
                        assert((xx == cxl + oxp && yy == cyl - oyp) ==> t8[k] == color);
                        assert(t8[k] == color);
                    }
                } else {
                    assert(!outline_covers_below(cxl as int, cyl as int, rl as int, oyp, xx, yy));
                    assert(!reflections(cxl as int, cyl as int, oxp, oyp, xx, yy));
                    assert(sb[k] == s0[k]);
                    assert(t1[k] == sb[k]);
                    assert(t2[k] == t1[k]);
                    assert(t3[k] == t2[k]);
                    assert(t4[k] == t3[k]);
                    assert(t5[k] == t4[k]);
                    assert(t6[k] == t5[k]);
                    assert(t7[k] == t6[k]);
                    assert(t8[k] == t7[k]);
                }
            }
        }
        oy = oy + 1;
        oerr = oerr + 1 + 2 * oy;
        if 2 * (oerr - ox) + 1 > 0 {
            ox = ox - 1;
            oerr = oerr + 1 - 2 * ox;
        }
        proof {
            assert((ox as int, oy as int, oerr as int) == octant_next(oxp, oyp, errp));
            lemma_octant_set_bounds(ox as int, oy as int, oerr as int);
            assert forall|p: (int, int)| #[trigger]
                octant_set(ox as int, oy as int, oerr as int).contains(p) <==> octant_set(
                    rl as int,
                    0,
                    0,
                ).contains(p) && p.1 >= oy by {
                assert(octant_set(oxp, oyp, errp) == octant_set(ox as int, oy as int,
                    oerr as int).insert((oxp, oyp)));
                assert(p.1 >= oyp ==> octant_set(oxp, oyp, errp).contains(p) == (
                    octant_set(rl as int, 0, 0).contains(p) && p.1 >= oyp));
                if octant_set(ox as int, oy as int, oerr as int).contains(p) {
                    assert(octant_set(oxp, oyp, errp).contains(p));
                }
                if octant_set(rl as int, 0, 0).contains(p) && p.1 >= oy {
                    assert(octant_set(oxp, oyp, errp).contains(p));
                    assert(p != (oxp, oyp));
                }
            }
        }
    }
    proof {
        assert(octant_set(ox as int, oy as int, oerr as int) =~= Set::empty());
        assert forall|xx: int, yy: int| 0 <= xx < w && 0 <= yy < h implies buffer@[pixel_index(
            w as int,
            xx,
            yy,
        )] == if cov(xx, yy) {
            color
        } else {
            s0[pixel_index(w as int, xx, yy)]
        } by {
            if outline_covers_below(cxl as int, cyl as int, rl as int, oy as int, xx, yy) {
                assert(outline_covers(cxl as int, cyl as int, rl as int, xx, yy));
            }
            if outline_covers(cxl as int, cyl as int, rl as int, xx, yy) {
                let (a, b) = choose|a: int, b: int|
                    #[trigger] octant_set(rl as int, 0, 0).contains((a, b)) && reflections(
                        cxl as int,
                        cyl as int,
                        a,
                        b,
                        xx,
                        yy,
                    );
                assert(!octant_set(ox as int, oy as int, oerr as int).contains((a, b)));
                assert(b < oy);
                assert(outline_covers_below(cxl as int, cyl as int, rl as int, oy as int, xx, yy));
            }
        }
        lemma_painted_from_pointwise(s0, buffer@, width as int, height as int, cov, color);
    }
}


/// Applying any of the eight mirror maps to an octant witness keeps it a
/// witness for the mirrored pixel.
proof fn lemma_reflections_mirror(cx: int, cy: int, a: int, b: int, x: int, y: int)
    requires
        reflections(cx, cy, a, b, x, y),
    ensures
        reflections(cx, cy, a, b, 2 * cx - x, y),
        reflections(cx, cy, a, b, x, 2 * cy - y),
        reflections(cx, cy, a, b, cx + (y - cy), cy + (x - cx)),
{
}

/// The circle outline is eight-way symmetric: its pixel set is invariant
/// under reflection across the vertical axis through the centre, across
/// the horizontal axis, and across the main diagonal -- the three maps
/// that generate all eight symmetries the mid-point walk mirrors by.
pub proof fn lemma_outline_symmetric(cx: int, cy: int, radius: int, x: int, y: int)
    ensures
        outline_covers(cx, cy, radius, x, y) <==> outline_covers(cx, cy, radius, 2 * cx - x, y),
        outline_covers(cx, cy, radius, x, y) <==> outline_covers(cx, cy, radius, x, 2 * cy - y),
        outline_covers(cx, cy, radius, x, y) <==> outline_covers(
            cx,
            cy,
            radius,
            cx + (y - cy),
            cy + (x - cx),
        ),
{
    assert forall|px: int, py: int| #[trigger] outline_covers(cx, cy, radius, px, py) implies outline_covers(
        cx,
        cy,
        radius,
        2 * cx - px,
        py,
    ) && outline_covers(cx, cy, radius, px, 2 * cy - py) && outline_covers(
        cx,
        cy,
        radius,
        cx + (py - cy),
        cy + (px - cx),
    ) by {
        let (a, b) = choose|a: int, b: int|
            #[trigger] octant_set(radius, 0, 0).contains((a, b)) && reflections(
                cx,
                cy,
                a,
                b,
                px,
                py,
            );
        lemma_reflections_mirror(cx, cy, a, b, px, py);
    }
    // Each mirror map is an involution, so applying it to the mirrored
    // pixel gives the starting pixel back.
    assert(2 * cx - (2 * cx - x) == x);
    assert(2 * cy - (2 * cy - y) == y);
    assert(cx + ((cy + (x - cx)) - cy) == x && cy + ((cx + (y - cy)) - cx) == y);
}

} // verus!
