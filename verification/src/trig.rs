//! Fixed-point trigonometry for the polar transform.
//!
//! Sine and cosine of whole degrees, scaled by 1000 (milli-units), from a
//! quarter-wave table and the usual symmetries.  The table entry for `d`
//! degrees is the nearest integer to `1000 * sin(d * pi / 180)`, so the
//! plotted positions track the real-valued transform to within one pixel
//! part in a thousand.

use vstd::prelude::*;

verus! {

/// The quarter-wave table: the nearest integer to `1000 * sin(d degrees)`
/// for `0 <= d <= 90`, clamped to the table's ends outside that range.
pub open spec fn sin_quarter_milli(d: int) -> int {
    if d <= 0 {
        0
    } else if d == 1 {
        17
    } else if d == 2 {
        35
    } else if d == 3 {
        52
    } else if d == 4 {
        70
    } else if d == 5 {
        87
    } else if d == 6 {
        105
    } else if d == 7 {
        122
    } else if d == 8 {
        139
    } else if d == 9 {
        156
    } else if d == 10 {
        174
    } else if d == 11 {
        191
    } else if d == 12 {
        208
    } else if d == 13 {
        225
    } else if d == 14 {
        242
    } else if d == 15 {
        259
    } else if d == 16 {
        276
    } else if d == 17 {
        292
    } else if d == 18 {
        309
    } else if d == 19 {
        326
    } else if d == 20 {
        342
    } else if d == 21 {
        358
    } else if d == 22 {
        375
    } else if d == 23 {
        391
    } else if d == 24 {
        407
    } else if d == 25 {
        423
    } else if d == 26 {
        438
    } else if d == 27 {
        454
    } else if d == 28 {
        469
    } else if d == 29 {
        485
    } else if d == 30 {
        500
    } else if d == 31 {
        515
    } else if d == 32 {
        530
    } else if d == 33 {
        545
    } else if d == 34 {
        559
    } else if d == 35 {
        574
    } else if d == 36 {
        588
    } else if d == 37 {
        602
    } else if d == 38 {
        616
    } else if d == 39 {
        629
    } else if d == 40 {
        643
    } else if d == 41 {
        656
    } else if d == 42 {
        669
    } else if d == 43 {
        682
    } else if d == 44 {
        695
    } else if d == 45 {
        707
    } else if d == 46 {
        719
    } else if d == 47 {
        731
    } else if d == 48 {
        743
    } else if d == 49 {
        755
    } else if d == 50 {
        766
    } else if d == 51 {
        777
    } else if d == 52 {
        788
    } else if d == 53 {
        799
    } else if d == 54 {
        809
    } else if d == 55 {
        819
    } else if d == 56 {
        829
    } else if d == 57 {
        839
    } else if d == 58 {
        848
    } else if d == 59 {
        857
    } else if d == 60 {
        866
    } else if d == 61 {
        875
    } else if d == 62 {
        883
    } else if d == 63 {
        891
    } else if d == 64 {
        899
    } else if d == 65 {
        906
    } else if d == 66 {
        914
    } else if d == 67 {
        921
    } else if d == 68 {
        927
    } else if d == 69 {
        934
    } else if d == 70 {
        940
    } else if d == 71 {
        946
    } else if d == 72 {
        951
    } else if d == 73 {
        956
    } else if d == 74 {
        961
    } else if d == 75 {
        966
    } else if d == 76 {
        970
    } else if d == 77 {
        974
    } else if d == 78 {
        978
    } else if d == 79 {
        982
    } else if d == 80 {
        985
    } else if d == 81 {
        988
    } else if d == 82 {
        990
    } else if d == 83 {
        993
    } else if d == 84 {
        995
    } else if d == 85 {
        996
    } else if d == 86 {
        998
    } else if d == 87 {
        999
    } else if d == 88 {
        999
    } else if d == 89 {
        1000
    } else if d == 90 {
        1000
    } else {
        1000
    }
}

/// Milli-sine of `deg` degrees, for any integer angle, by quadrant
/// reduction to the quarter-wave table.
pub open spec fn sin_deg_milli(deg: int) -> int {
    let d = deg % 360;
    if d <= 90 {
        sin_quarter_milli(d)
    } else if d <= 180 {
        sin_quarter_milli(180 - d)
    } else if d <= 270 {
        -sin_quarter_milli(d - 180)
    } else {
        -sin_quarter_milli(360 - d)
    }
}

/// Milli-cosine of `deg` degrees: the sine a quarter turn ahead.
pub open spec fn cos_deg_milli(deg: int) -> int {
    sin_deg_milli(deg + 90)
}

/// The quarter-wave table never leaves `[0, 1000]`.
pub proof fn lemma_sin_quarter_bounds(d: int)
    ensures
        0 <= sin_quarter_milli(d) <= 1000,
{
}

/// Milli-sine never leaves `[-1000, 1000]`.
pub proof fn lemma_sin_bounds(deg: int)
    ensures
        -1000 <= sin_deg_milli(deg) <= 1000,
{
    let d = deg % 360;
    lemma_sin_quarter_bounds(d);
    lemma_sin_quarter_bounds(180 - d);
    lemma_sin_quarter_bounds(d - 180);
    lemma_sin_quarter_bounds(360 - d);
}

/// Milli-cosine never leaves `[-1000, 1000]`.
pub proof fn lemma_cos_bounds(deg: int)
    ensures
        -1000 <= cos_deg_milli(deg) <= 1000,
{
    lemma_sin_bounds(deg + 90);
}

/// The quarter-wave table lookup.
fn sin_quarter(d: u16) -> (r: i64)
    requires
        d <= 90,
    ensures
        r == sin_quarter_milli(d as int),
        0 <= r <= 1000,
{
    if d == 0 {
        0
    } else if d == 1 {
        17
    } else if d == 2 {
        35
    } else if d == 3 {
        52
    } else if d == 4 {
        70
    } else if d == 5 {
        87
    } else if d == 6 {
        105
    } else if d == 7 {
        122
    } else if d == 8 {
        139
    } else if d == 9 {
        156
    } else if d == 10 {
        174
    } else if d == 11 {
        191
    } else if d == 12 {
        208
    } else if d == 13 {
        225
    } else if d == 14 {
        242
    } else if d == 15 {
        259
    } else if d == 16 {
        276
    } else if d == 17 {
        292
    } else if d == 18 {
        309
    } else if d == 19 {
        326
    } else if d == 20 {
        342
    } else if d == 21 {
        358
    } else if d == 22 {
        375
    } else if d == 23 {
        391
    } else if d == 24 {
        407
    } else if d == 25 {
        423
    } else if d == 26 {
        438
    } else if d == 27 {
        454
    } else if d == 28 {
        469
    } else if d == 29 {
        485
    } else if d == 30 {
        500
    } else if d == 31 {
        515
    } else if d == 32 {
        530
    } else if d == 33 {
        545
    } else if d == 34 {
        559
    } else if d == 35 {
        574
    } else if d == 36 {
        588
    } else if d == 37 {
        602
    } else if d == 38 {
        616
    } else if d == 39 {
        629
    } else if d == 40 {
        643
    } else if d == 41 {
        656
    } else if d == 42 {
        669
    } else if d == 43 {
        682
    } else if d == 44 {
        695
    } else if d == 45 {
        707
    } else if d == 46 {
        719
    } else if d == 47 {
        731
    } else if d == 48 {
        743
    } else if d == 49 {
        755
    } else if d == 50 {
        766
    } else if d == 51 {
        777
    } else if d == 52 {
        788
    } else if d == 53 {
        799
    } else if d == 54 {
        809
    } else if d == 55 {
        819
    } else if d == 56 {
        829
    } else if d == 57 {
        839
    } else if d == 58 {
        848
    } else if d == 59 {
        857
    } else if d == 60 {
        866
    } else if d == 61 {
        875
    } else if d == 62 {
        883
    } else if d == 63 {
        891
    } else if d == 64 {
        899
    } else if d == 65 {
        906
    } else if d == 66 {
        914
    } else if d == 67 {
        921
    } else if d == 68 {
        927
    } else if d == 69 {
        934
    } else if d == 70 {
        940
    } else if d == 71 {
        946
    } else if d == 72 {
        951
    } else if d == 73 {
        956
    } else if d == 74 {
        961
    } else if d == 75 {
        966
    } else if d == 76 {
        970
    } else if d == 77 {
        974
    } else if d == 78 {
        978
    } else if d == 79 {
        982
    } else if d == 80 {
        985
    } else if d == 81 {
        988
    } else if d == 82 {
        990
    } else if d == 83 {
        993
    } else if d == 84 {
        995
    } else if d == 85 {
        996
    } else if d == 86 {
        998
    } else if d == 87 {
        999
    } else if d == 88 {
        999
    } else if d == 89 {
        1000
    } else {
        1000
    }
}

/// Milli-sine of `deg` degrees.
pub fn sin_milli(deg: u16) -> (r: i64)
    ensures
        r == sin_deg_milli(deg as int),
        -1000 <= r <= 1000,
{
    let d = deg % 360;
    if d <= 90 {
        sin_quarter(d)
    } else if d <= 180 {
        sin_quarter(180 - d)
    } else if d <= 270 {
        -sin_quarter(d - 180)
    } else {
        -sin_quarter(360 - d)
    }
}

/// Milli-cosine of `deg` degrees.
pub fn cos_milli(deg: u16) -> (r: i64)
    ensures
        r == cos_deg_milli(deg as int),
        -1000 <= r <= 1000,
{
    let d = deg % 360;
    proof {
        assert((deg as int + 90) % 360 == (d as int + 90) % 360) by (nonlinear_arith)
            requires
                d == deg as int % 360,
        ;
    }
    sin_milli(d + 90)
}

} // verus!
