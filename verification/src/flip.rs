//! Vertical flip of a packed RGB frame.
//!
//! A rendered frame read back from the 3D view arrives bottom-up; before
//! it is handed to an encoder it is flipped row by row.  The frame is a
//! row-major grid of three-byte pixels: channel `ch` of the pixel at
//! column `x`, row `y` lives at byte `(y * width + x) * 3 + ch`.

use vstd::prelude::*;
use crate::pixel::{pixel_index, lemma_pixel_index, lemma_pixel_index_injective};
use vstd::arithmetic::div_mod::{
    lemma_fundamental_div_mod_converse_div, lemma_fundamental_div_mod_converse_mod,
};

verus! {

/// The byte that holds channel `ch` of the pixel at column `x`, row `y`.
pub open spec fn rgb_index(width: int, x: int, y: int, ch: int) -> int {
    pixel_index(width, x, y) * 3 + ch
}

/// Byte addressing is a bijection: every in-range triple lands inside the
/// frame, and two triples share a byte only when they are equal.
pub proof fn lemma_rgb_index(width: int, height: int, x: int, y: int, ch: int)
    requires
        0 <= x < width,
        0 <= y < height,
        0 <= ch < 3,
    ensures
        0 <= rgb_index(width, x, y, ch) < width * height * 3,
        rgb_index(width, x, y, ch) / 3 == pixel_index(width, x, y),
        rgb_index(width, x, y, ch) % 3 == ch,
{
    lemma_pixel_index(width, height, x, y);
    assert(0 <= pixel_index(width, x, y) * 3 + ch < width * height * 3) by (nonlinear_arith)
        requires
            0 <= pixel_index(width, x, y) < width * height,
            0 <= ch < 3,
    ;
    lemma_fundamental_div_mod_converse_div(
        pixel_index(width, x, y) * 3 + ch,
        3,
        pixel_index(width, x, y),
        ch,
    );
    lemma_fundamental_div_mod_converse_mod(
        pixel_index(width, x, y) * 3 + ch,
        3,
        pixel_index(width, x, y),
        ch,
    );
}

/// Two in-range byte addresses collide exactly when their triples agree.
pub proof fn lemma_rgb_index_injective(
    width: int,
    height: int,
    x1: int,
    y1: int,
    ch1: int,
    x2: int,
    y2: int,
    ch2: int,
)
    requires
        0 <= x1 < width,
        0 <= y1 < height,
        0 <= ch1 < 3,
        0 <= x2 < width,
        0 <= y2 < height,
        0 <= ch2 < 3,
    ensures
        rgb_index(width, x1, y1, ch1) == rgb_index(width, x2, y2, ch2) <==> (x1 == x2 && y1 == y2
            && ch1 == ch2),
{
    lemma_rgb_index(width, height, x1, y1, ch1);
    lemma_rgb_index(width, height, x2, y2, ch2);
    lemma_pixel_index_injective(width, height, x1, y1, x2, y2);
}

/// Flip a packed RGB frame upside down: row `y` of the result is row
/// `height - 1 - y` of the input, channel by channel.
pub fn flip_vertical_rgb(rgb: &Vec<u8>, width: usize, height: usize) -> (out: Vec<u8>)
    requires
        rgb@.len() == width * height * 3,
    ensures
        out@.len() == rgb@.len(),
        forall|x: int, y: int, ch: int|
            0 <= x < width && 0 <= y < height && 0 <= ch < 3 ==> out@[rgb_index(
                width as int,
                x,
                (height - 1 - y),
                ch,
            )] == rgb@[rgb_index(width as int, x, y, ch)],
{
    let n = rgb.len();
    let mut out: Vec<u8> = vec![0u8; n];
    let mut y: usize = 0;
    while y < height
        invariant
            out@.len() == n,
            rgb@.len() == n,
            n == width * height * 3,
            y <= height,
            forall|xx: int, yy: int, cc: int|
                0 <= xx < width && 0 <= yy < y && 0 <= cc < 3 ==> out@[rgb_index(
                    width as int,
                    xx,
                    (height - 1 - yy),
                    cc,
                )] == rgb@[rgb_index(width as int, xx, yy, cc)],
        decreases height - y,
    {
        let mut x: usize = 0;
        while x < width
            invariant
                out@.len() == n,
                rgb@.len() == n,
                n == width * height * 3,
                y < height,
                x <= width,
                forall|xx: int, yy: int, cc: int|
                    0 <= xx < width && 0 <= yy < y && 0 <= cc < 3 ==> out@[rgb_index(
                        width as int,
                        xx,
                        (height - 1 - yy),
                        cc,
                    )] == rgb@[rgb_index(width as int, xx, yy, cc)],
                forall|xx: int, cc: int|
                    0 <= xx < x && 0 <= cc < 3 ==> out@[rgb_index(
                        width as int,
                        xx,
                        (height - 1 - y),
                        cc,
                    )] == rgb@[rgb_index(width as int, xx, y as int, cc)],
            decreases width - x,
        {
            let mut ch: usize = 0;
            while ch < 3
                invariant
                    out@.len() == n,
                    rgb@.len() == n,
                    n == width * height * 3,
                    y < height,
                    x < width,
                    ch <= 3,
                    forall|xx: int, yy: int, cc: int|
                        0 <= xx < width && 0 <= yy < y && 0 <= cc < 3 ==> out@[rgb_index(
                            width as int,
                            xx,
                            (height - 1 - yy),
                            cc,
                        )] == rgb@[rgb_index(width as int, xx, yy, cc)],
                    forall|xx: int, cc: int|
                        0 <= xx < x && 0 <= cc < 3 ==> out@[rgb_index(
                            width as int,
                            xx,
                            (height - 1 - y),
                            cc,
                        )] == rgb@[rgb_index(width as int, xx, y as int, cc)],
                    forall|cc: int|
                        0 <= cc < ch ==> out@[rgb_index(width as int, x as int, (height - 1
                            - y), cc)] == rgb@[rgb_index(width as int, x as int, y as int, cc)],
                decreases 3 - ch,
            {
                proof {
                    lemma_rgb_index(width as int, height as int, x as int, y as int, ch as int);
                    lemma_rgb_index(
                        width as int,
                        height as int,
                        x as int,
                        (height - 1 - y) as int,
                        ch as int,
                    );
                    lemma_pixel_index(width as int, height as int, x as int, y as int);
                    lemma_pixel_index(
                        width as int,
                        height as int,
                        x as int,
                        (height - 1 - y) as int,
                    );
                }
                let src = (y * width + x) * 3 + ch;
                let dst = ((height - 1 - y) * width + x) * 3 + ch;
                let v = rgb[src];
                out.set(dst, v);
                ch = ch + 1;
                proof {
                    assert forall|xx: int, yy: int, cc: int|
                        0 <= xx < width && 0 <= yy < y && 0 <= cc < 3 implies out@[rgb_index(
                        width as int,
                        xx,
                        (height - 1 - yy),
                        cc,
                    )] == rgb@[rgb_index(width as int, xx, yy, cc)] by {
                        lemma_rgb_index(width as int, height as int, xx, yy, cc);
                        lemma_rgb_index(width as int, height as int, xx, height - 1 - yy, cc);
                        lemma_rgb_index_injective(
                            width as int,
                            height as int,
                            xx,
                            height - 1 - yy,
                            cc,
                            x as int,
                            (height - 1 - y) as int,
                            (ch - 1) as int,
                        );
                    }
                    assert forall|xx: int, cc: int| 0 <= xx < x && 0 <= cc < 3 implies out@[
                    rgb_index(width as int, xx, (height - 1 - y), cc)] == rgb@[rgb_index(
                        width as int,
                        xx,
                        y as int,
                        cc,
                    )] by {
                        lemma_rgb_index(width as int, height as int, xx, y as int, cc);
                        lemma_rgb_index(width as int, height as int, xx, (height - 1 - y) as int, cc);
                        lemma_rgb_index_injective(
                            width as int,
                            height as int,
                            xx,
                            (height - 1 - y) as int,
                            cc,
                            x as int,
                            (height - 1 - y) as int,
                            (ch - 1) as int,
                        );
                    }
                    assert forall|cc: int| 0 <= cc < ch implies out@[rgb_index(
                        width as int,
                        x as int,
                        (height - 1 - y),
                        cc,
                    )] == rgb@[rgb_index(width as int, x as int, y as int, cc)] by {
                        lemma_rgb_index(width as int, height as int, x as int, y as int, cc);
                        lemma_rgb_index(width as int, height as int, x as int, (height - 1 - y) as int, cc);
                        lemma_rgb_index_injective(
                            width as int,
                            height as int,
                            x as int,
                            (height - 1 - y) as int,
                            cc,
                            x as int,
                            (height - 1 - y) as int,
                            (ch - 1) as int,
                        );
                    }
                }
            }
            x = x + 1;
        }
        y = y + 1;
    }
    out
}

} // verus!
