//! Fixed-point points, range rescaling and the point-to-pixel mapping.

use vstd::prelude::*;

verus! {

/// The fixed-point value that stands for 1.0.
pub const UNIT: i32 = 16777216;

/// A point in the plane; each coordinate counts `UNIT`ths.
#[derive(Clone, Copy, PartialEq, Eq, Debug, Structural)]
pub struct Point {
    pub x: i32,
    pub y: i32,
}

/// `v` saturated into `[lo, hi]`.
pub open spec fn clamped(v: int, lo: int, hi: int) -> int {
    if v < lo {
        lo
    } else if v > hi {
        hi
    } else {
        v
    }
}

/// `v`, saturated into `[old_min, old_max]` and carried linearly onto
/// `[new_min, new_max]`, rounded down.
pub open spec fn rescaled(v: int, old_min: int, old_max: int, new_min: int, new_max: int) -> int
    recommends
        old_min < old_max,
        new_min <= new_max,
{
    new_min + (clamped(v, old_min, old_max) - old_min) * (new_max - new_min) / (old_max - old_min)
}

/// A rescaled value never leaves the new range.
pub proof fn lemma_rescaled_bounds(v: int, old_min: int, old_max: int, new_min: int, new_max: int)
    requires
        old_min < old_max,
        new_min <= new_max,
    ensures
        new_min <= rescaled(v, old_min, old_max, new_min, new_max) <= new_max,
{
    let d = clamped(v, old_min, old_max) - old_min;
    let ol = old_max - old_min;
    let nl = new_max - new_min;
    assert(0 <= d * nl / ol <= nl) by (nonlinear_arith)
        requires
            0 <= d <= ol,
            0 < ol,
            0 <= nl,
    {
        assert(d * nl <= ol * nl);
        assert(ol * nl / ol == nl);
    }
}

/// Saturates `value` into `[old_min, old_max]` and carries it linearly onto
/// `[new_min, new_max]`, rounding down.
pub fn to_range(value: i32, old_min: i32, old_max: i32, new_min: i32, new_max: i32) -> (r: i32)
    requires
        old_min < old_max,
        new_min <= new_max,
    ensures
        r == rescaled(value as int, old_min as int, old_max as int, new_min as int, new_max as int),
        new_min <= r <= new_max,
{
    proof {
        lemma_rescaled_bounds(value as int, old_min as int, old_max as int, new_min as int, new_max as int);
    }
    let v: i32 = if value < old_min {
        old_min
    } else if value > old_max {
        old_max
    } else {
        value
    };
    let offset: u128 = (v as i64 - old_min as i64) as u128;
    let old_len: u128 = (old_max as i64 - old_min as i64) as u128;
    let new_len: u128 = (new_max as i64 - new_min as i64) as u128;
    assert(offset * new_len <= u64::MAX * u64::MAX) by (nonlinear_arith)
        requires
            offset <= u64::MAX,
            new_len <= u64::MAX,
    ;
    let step: u128 = offset * new_len / old_len;
    (new_min as i128 + step as i128) as i32
}

/// Pixel column or row of a coordinate on an axis of `len` pixels.
pub open spec fn axis_pixel(c: int, len: int) -> int {
    rescaled(c, 0, UNIT as int, 0, len - 1)
}

/// Row-major index of the pixel under `p` in a `width` by `height` buffer.
pub open spec fn pixel_index(p: Point, width: int, height: int) -> int {
    axis_pixel(p.y as int, height) * width + axis_pixel(p.x as int, width)
}

/// Maps a point of the unit square onto the row-major index of its pixel in a
/// `width` by `height` buffer; coordinates outside `[0, 1]` are saturated.
pub fn point_to_linear_index(point: &Point, width: u16, height: u16) -> (r: usize)
    requires
        width > 0,
        height > 0,
    ensures
        r == pixel_index(*point, width as int, height as int),
        r < width * height,
{
    let x = to_range(point.x, 0, UNIT, 0, width as i32 - 1);
    let y = to_range(point.y, 0, UNIT, 0, height as i32 - 1);
    let w = width as u64;
    let h = height as u64;
    assert(y * w + x < w * h) by (nonlinear_arith)
        requires
            0 <= x < w,
            0 <= y < h,
    {
        assert(y * w <= (h - 1) * w);
    }
    assert(w * h <= 65535 * 65535) by (nonlinear_arith)
        requires
            w <= 65535,
            h <= 65535,
    ;
    (y as u64 * w + x as u64) as usize
}

} // verus!
