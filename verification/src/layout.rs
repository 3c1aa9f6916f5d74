//! Window placement: where a window goes so that it is centered in a work area.
use vstd::prelude::*;

verus! {

/// Half of `v`, rounded toward zero (as `/ 2` does on Rust integers).
pub open spec fn half_toward_zero(v: int) -> int {
    if v >= 0 {
        v / 2
    } else {
        -((-v) / 2)
    }
}

/// The coordinate that centers an extent `size` in `[low, high)`.
pub open spec fn centered(low: int, high: int, size: int) -> int {
    low + half_toward_zero(high - low - size)
}

/// `i32` arithmetic of centering an extent in `[low, high)` does not overflow.
pub open spec fn centering_within_i32(low: i32, high: i32, size: u32) -> bool {
    let span = high - low;
    &&& i32::MIN <= span <= i32::MAX
    &&& i32::MIN <= span - (size as i32) <= i32::MAX
    &&& i32::MIN <= centered(low as int, high as int, (size as i32) as int) <= i32::MAX
}

/// Whether centering an extent of `size` in `[low, high)` stays within `i32`.
pub fn centering_fits(low: i32, high: i32, size: u32) -> (b: bool)
    ensures
        b == centering_within_i32(low, high, size),
{
    let span: i64 = high as i64 - low as i64;
    if span < i32::MIN as i64 || span > i32::MAX as i64 {
        return false;
    }
    let free: i64 = span - (size as i32) as i64;
    if free < i32::MIN as i64 || free > i32::MAX as i64 {
        return false;
    }
    let half: i64 = if free >= 0 {
        free / 2
    } else {
        -((-free) / 2)
    };
    let center: i64 = low as i64 + half;
    center >= i32::MIN as i64 && center <= i32::MAX as i64
}

fn center_in(low: i32, high: i32, size: u32) -> (r: i32)
    requires
        centering_within_i32(low, high, size),
    ensures
        r == centered(low as int, high as int, (size as i32) as int),
{
    let span: i32 = high - low;
    let d: i32 = span - size as i32;
    let h: i32 = if d >= 0 {
        d / 2
    } else {
        -((-(d as i64)) / 2) as i32
    };
    low + h
}

/// The top-left corner that centers a `width` by `height` window in the work
/// area with the given edges; the window's size is read as `i32`, and halves
/// are rounded toward zero.
pub fn centered_origin(left: i32, top: i32, right: i32, bottom: i32, width: u32, height: u32) -> (r: (i32, i32))
    requires
        centering_within_i32(left, right, width),
        centering_within_i32(top, bottom, height),
    ensures
        r.0 == centered(left as int, right as int, (width as i32) as int),
        r.1 == centered(top as int, bottom as int, (height as i32) as int),
{
    (center_in(left, right, width), center_in(top, bottom, height))
}

} // verus!
