//! The column projector: from a ray's hit distance to a vertical strip.
use vstd::prelude::*;
use vstd::arithmetic::div_mod::lemma_div_is_ordered_by_denominator;
use crate::ray::UNITS_PER_CELL;

verus! {

/// Cosines are fixed-point values: this stands for 1.
pub const COS_ONE: i64 = 10_000;

/// `raw * cos`, with `cos` read as a fixed-point cosine, rounded toward zero.
pub open spec fn corrected_spec(raw: int, cos: int) -> int {
    if cos >= 0 {
        (raw * cos) / (COS_ONE as int)
    } else {
        -((raw * -cos) / (COS_ONE as int))
    }
}

/// The height in pixels of a wall at perpendicular distance `corrected`
/// (position units) in a viewport `viewport_h` pixels tall: the viewport
/// height divided by the distance in cells, rounded down and clamped to the
/// viewport; a distance of zero or less gives the whole viewport.
pub open spec fn height_spec(corrected: int, viewport_h: int) -> int {
    if corrected <= 0 {
        viewport_h
    } else {
        let h = (viewport_h * UNITS_PER_CELL) / corrected;
        if h > viewport_h {
            viewport_h
        } else {
            h
        }
    }
}

/// The first row of a column `height` pixels tall, centered vertically.
pub open spec fn top_spec(height: int, viewport_h: int) -> int {
    viewport_h / 2 - height / 2
}

/// A vertical strip of the 3D view: its first row and its height.
#[derive(Clone, Copy, Debug, PartialEq, Eq, Structural)]
pub struct Column {
    pub top: usize,
    pub height: usize,
}

/// The perpendicular distance of a hit `raw` position units away along a ray
/// whose angle to the facing direction has fixed-point cosine `cos`.
pub fn corrected_distance(raw: i64, cos: i64) -> (r: i64)
    requires
        0 <= raw,
        -COS_ONE <= cos <= COS_ONE,
    ensures
        r == corrected_spec(raw as int, cos as int),
        cos == COS_ONE ==> r == raw,
        cos >= 0 ==> 0 <= r <= raw,
{
    let wide: i128 = raw as i128;
    if cos >= 0 {
        assert(0 <= wide * (cos as i128) <= wide * (COS_ONE as i128)) by (nonlinear_arith)
            requires
                0 <= wide,
                0 <= cos <= COS_ONE,
        ;
        proof {
            let w = wide as int;
            assert((w * COS_ONE) / (COS_ONE as int) == w) by (nonlinear_arith);
            lemma_div_is_ordered_le(w * cos, w * COS_ONE);
        }
        ((wide * (cos as i128)) / (COS_ONE as i128)) as i64
    } else {
        let neg: i128 = -(cos as i128);
        assert(0 <= wide * neg <= wide * (COS_ONE as i128)) by (nonlinear_arith)
            requires
                0 <= wide,
                0 < neg <= COS_ONE,
        ;
        proof {
            let w = wide as int;
            assert((w * COS_ONE) / (COS_ONE as int) == w) by (nonlinear_arith);
            lemma_div_is_ordered_le(w * neg, w * COS_ONE);
        }
        (-((wide * neg) / (COS_ONE as i128))) as i64
    }
}

proof fn lemma_div_is_ordered_le(a: int, b: int)
    requires
        0 <= a <= b,
    ensures
        a / (COS_ONE as int) <= b / (COS_ONE as int),
{
    vstd::arithmetic::div_mod::lemma_div_is_ordered(a, b, COS_ONE as int);
}

/// The height in pixels of a wall at perpendicular distance `corrected`.
pub fn column_height(corrected: i64, viewport_h: usize) -> (h: usize)
    ensures
        h == height_spec(corrected as int, viewport_h as int),
        h <= viewport_h,
{
    if corrected <= 0 {
        return viewport_h;
    }
    let vh: u128 = viewport_h as u128;
    assert(vh * (UNITS_PER_CELL as u128) <= 0x1_0000_0000_0000_0000 * 1_000_000) by (
    nonlinear_arith)
        requires
            vh < 0x1_0000_0000_0000_0000,
    ;
    let h: u128 = (vh * (UNITS_PER_CELL as u128)) / (corrected as u128);
    if h > vh {
        viewport_h
    } else {
        h as usize
    }
}

/// The strip for a hit `raw` position units away, `cos` being the
/// fixed-point cosine of the ray's angle to the facing direction, in a
/// viewport `viewport_h` pixels tall: clamped to the viewport and centered.
pub fn project_column(raw: i64, cos: i64, viewport_h: usize) -> (c: Column)
    requires
        0 <= raw,
        -COS_ONE <= cos <= COS_ONE,
    ensures
        c.height == height_spec(corrected_spec(raw as int, cos as int), viewport_h as int),
        c.top == top_spec(c.height as int, viewport_h as int),
        c.top + c.height <= viewport_h,
{
    let corrected = corrected_distance(raw, cos);
    let height = column_height(corrected, viewport_h);
    Column { top: viewport_h / 2 - height / 2, height }
}

/// Nearer walls are drawn no shorter: the column height does not grow as
/// the perpendicular distance grows.
pub proof fn lemma_height_monotone(near: int, far: int, viewport_h: nat)
    requires
        near <= far,
    ensures
        height_spec(far, viewport_h as int) <= height_spec(near, viewport_h as int),
{
    if near > 0 {
        lemma_div_is_ordered_by_denominator(viewport_h * UNITS_PER_CELL, near, far);
    }
}

/// A ray along the facing direction is not corrected, and its column is
/// centered: as far above the middle row as it reaches below it.
pub proof fn lemma_straight_ray_centered(raw: int, viewport_h: nat)
    requires
        0 <= raw,
    ensures
        corrected_spec(raw, COS_ONE as int) == raw,
        ({
            let h = height_spec(raw, viewport_h as int);
            let top = top_spec(h, viewport_h as int);
            &&& 0 <= top
            &&& top + h / 2 == viewport_h / 2
        }),
{
    assert((raw * COS_ONE) / (COS_ONE as int) == raw) by (nonlinear_arith);
    if raw > 0 {
        assert(0 <= (viewport_h * UNITS_PER_CELL) / raw) by (nonlinear_arith)
            requires
                raw > 0,
                viewport_h >= 0,
        ;
    }
}

} // verus!
