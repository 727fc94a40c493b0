//! The buffer model shared by all rasterization primitives.
//!
//! A scan buffer is a row-major grid: the pixel at column `x`, row `y` of a
//! grid `width` pixels wide lives at index `y * width + x`, and a buffer of
//! geometry `width * height` has exactly that many entries.  The primitives
//! all produce buffers of the shape `painted(old, width, cov, color)`: the
//! pixels whose coordinates satisfy the coverage predicate `cov` take the
//! colour `color`, every other entry is untouched.

use vstd::prelude::*;
use vstd::arithmetic::div_mod::{
    lemma_fundamental_div_mod_converse_div, lemma_fundamental_div_mod_converse_mod,
};

verus! {

/// The buffer entry that holds the pixel at column `x`, row `y`.
pub open spec fn pixel_index(width: int, x: int, y: int) -> int {
    y * width + x
}

/// The buffer `s` with colour `color` given to every pixel whose
/// coordinates satisfy `cov`, all other entries unchanged.
pub open spec fn painted(s: Seq<u32>, width: int, cov: spec_fn(int, int) -> bool, color: u32) -> Seq<u32> {
    Seq::new(s.len(), |k: int| if cov(k % width, k / width) { color } else { s[k] })
}

/// Row-major indexing is a bijection between in-range coordinates and
/// in-range buffer entries: `y * width + x` lands inside the buffer and
/// decodes back to `(x, y)`.
pub proof fn lemma_pixel_index(width: int, height: int, x: int, y: int)
    requires
        0 <= x < width,
        0 <= y < height,
    ensures
        0 <= pixel_index(width, x, y) < width * height,
        pixel_index(width, x, y) % width == x,
        pixel_index(width, x, y) / width == y,
{
    assert(0 <= y * width + x < width * height) by (nonlinear_arith)
        requires
            0 <= x < width,
            0 <= y < height,
    ;
    lemma_fundamental_div_mod_converse_mod(y * width + x, width, y, x);
    lemma_fundamental_div_mod_converse_div(y * width + x, width, y, x);
}

/// Every in-range buffer entry `k` decodes to the in-range coordinates
/// `(k % width, k / width)`, and encodes back to `k`.
pub proof fn lemma_entry_decode(width: int, height: int, k: int)
    requires
        0 < width,
        0 <= k < width * height,
    ensures
        0 <= k % width < width,
        0 <= k / width < height,
        pixel_index(width, k % width, k / width) == k,
{
    assert(0 <= k % width < width && 0 <= k / width < height && (k / width) * width + k % width
        == k) by (nonlinear_arith)
        requires
            0 < width,
            0 <= k < width * height,
    ;
}

/// Two in-range coordinate pairs share a buffer entry exactly when they are
/// the same pixel.
pub proof fn lemma_pixel_index_injective(width: int, height: int, x1: int, y1: int, x2: int, y2: int)
    requires
        0 <= x1 < width,
        0 <= y1 < height,
        0 <= x2 < width,
        0 <= y2 < height,
    ensures
        pixel_index(width, x1, y1) == pixel_index(width, x2, y2) <==> (x1 == x2 && y1 == y2),
{
    lemma_pixel_index(width, height, x1, y1);
    lemma_pixel_index(width, height, x2, y2);
}

/// Set one pixel, skipping coordinates that fall outside the buffer: the
/// clipping step shared by the outline and line rasterizers.
pub fn plot(buffer: &mut Vec<u32>, width: usize, height: usize, px: i64, py: i64, color: u32)
    requires
        old(buffer)@.len() == width * height,
        width < 0x8000_0000,
        height < 0x8000_0000,
    ensures
        final(buffer)@.len() == old(buffer)@.len(),
        0 <= px < width && 0 <= py < height ==> 0 <= pixel_index(
            width as int,
            px as int,
            py as int,
        ) < old(buffer)@.len() && final(buffer)@ == old(buffer)@.update(
            pixel_index(width as int, px as int, py as int),
            color,
        ),
        !(0 <= px < width && 0 <= py < height) ==> final(buffer)@ == old(buffer)@,
{
    // A vector's length fits the machine word; the index arithmetic
    // below leans on that bound.
    let _n = buffer.len();
    if 0 <= px && px < width as i64 && 0 <= py && py < height as i64 {
        proof {
            lemma_pixel_index(width as int, height as int, px as int, py as int);
            assert((py as int) * (width as int) + (px as int) == pixel_index(
                width as int,
                px as int,
                py as int,
            ));
            assert(0 <= (py as int) * (width as int) + (px as int) < width * height);
        }
        let idx = (py as usize) * width + (px as usize);
        buffer.set(idx, color);
    }
}

/// If the pixel `(px, py)` is in bounds, its buffer entry collides with
/// that of the in-range pixel `(xx, yy)` exactly when they are the same
/// pixel.
pub proof fn lemma_collision(w: int, h: int, px: int, py: int, xx: int, yy: int)
    requires
        0 <= xx < w,
        0 <= yy < h,
    ensures
        0 <= px < w && 0 <= py < h ==> (pixel_index(w, px, py) == pixel_index(w, xx, yy) <==> (px
            == xx && py == yy)),
{
    if 0 <= px < w && 0 <= py < h {
        lemma_pixel_index_injective(w, h, px, py, xx, yy);
    }
}

/// A buffer equals `painted(s, width, cov, color)` as soon as it has the
/// right length and matches it pixel by pixel.
pub proof fn lemma_painted_from_pointwise(
    s: Seq<u32>,
    t: Seq<u32>,
    width: int,
    height: int,
    cov: spec_fn(int, int) -> bool,
    color: u32,
)
    requires
        0 <= width,
        0 <= height,
        s.len() == width * height,
        t.len() == width * height,
        forall|x: int, y: int|
            0 <= x < width && 0 <= y < height ==> t[pixel_index(width, x, y)] == if cov(x, y) {
                color
            } else {
                s[pixel_index(width, x, y)]
            },
    ensures
        t == painted(s, width, cov, color),
{
    let p = painted(s, width, cov, color);
    assert forall|k: int| 0 <= k < t.len() implies t[k] == p[k] by {
        assert(0 < width) by (nonlinear_arith)
            requires
                0 <= width,
                0 <= height,
                0 <= k < width * height,
        ;
        lemma_entry_decode(width, height, k);
        assert(t[pixel_index(width, k % width, k / width)] == if cov(k % width, k / width) {
            color
        } else {
            s[pixel_index(width, k % width, k / width)]
        });
    }
    assert(t =~= p);
}

} // verus!
