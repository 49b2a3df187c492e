//! Sizes of the raster derived from the window size and the supersampling
//! factor: the raster has `aliasing_factor` pixels per window pixel in each
//! direction, four bytes per pixel and no row padding.
//!
//! All three quantities are 32-bit. Each function answers `None` exactly
//! where its result would not fit.

use crate::pixel::{Point32, Size32};
use vstd::prelude::*;

verus! {

/// Size of the raster: the window size times the supersampling factor.
pub open spec fn raster_size(window_size: Size32, aliasing_factor: u32) -> (int, int) {
    (window_size.w * aliasing_factor, window_size.h * aliasing_factor)
}

/// Bytes per raster row.
pub open spec fn raster_pitch(window_size: Size32, aliasing_factor: u32) -> int {
    window_size.w * aliasing_factor * 4
}

/// Bytes in the whole raster.
pub open spec fn raster_length(window_size: Size32, aliasing_factor: u32) -> int {
    window_size.w * window_size.h * aliasing_factor * aliasing_factor * 4
}

/// Size of the raster in pixels, if both sides fit 32 bits.
pub fn buffer_size(window_size: Size32, aliasing_factor: u32) -> (size: Option<Size32>)
    ensures
        size is Some <==> raster_size(window_size, aliasing_factor).0 <= u32::MAX && raster_size(
            window_size,
            aliasing_factor,
        ).1 <= u32::MAX,
        size matches Some(s) ==> (s.w as int, s.h as int) == raster_size(
            window_size,
            aliasing_factor,
        ),
{
    let w = window_size.w.checked_mul(aliasing_factor);
    let h = window_size.h.checked_mul(aliasing_factor);
    match (w, h) {
        (Some(w), Some(h)) => Some(Size32 { w, h }),
        _ => None,
    }
}

/// Bytes per raster row, if that fits 32 bits.
pub fn buffer_pitch(window_size: Size32, aliasing_factor: u32) -> (pitch: Option<u32>)
    ensures
        pitch is Some <==> raster_pitch(window_size, aliasing_factor) <= u32::MAX,
        pitch matches Some(p) ==> p == raster_pitch(window_size, aliasing_factor),
{
    assert(window_size.w * aliasing_factor <= u64::MAX) by (nonlinear_arith)
        requires
            window_size.w <= u32::MAX,
            aliasing_factor <= u32::MAX,
    ;
    let wide: u64 = window_size.w as u64 * aliasing_factor as u64;
    if wide > (u32::MAX / 4) as u64 {
        None
    } else {
        Some((wide * 4) as u32)
    }
}

/// Bytes in the whole raster, if that fits 32 bits.
pub fn buffer_length(window_size: Size32, aliasing_factor: u32) -> (length: Option<u32>)
    ensures
        length is Some <==> raster_length(window_size, aliasing_factor) <= u32::MAX,
        length matches Some(n) ==> n == raster_length(window_size, aliasing_factor),
{
    let w: u64 = window_size.w as u64;
    let h: u64 = window_size.h as u64;
    let a: u64 = aliasing_factor as u64;
    let limit: u64 = u32::MAX as u64;
    if w == 0 || h == 0 || a == 0 {
        assert(w * h * a * a * 4 == 0) by (nonlinear_arith)
            requires
                w == 0 || h == 0 || a == 0,
        ;
        return Some(0);
    }
    assert(w * h <= u64::MAX) by (nonlinear_arith)
        requires
            w <= u32::MAX,
            h <= u32::MAX,
    ;
    let area: u64 = w * h;
    if area > limit {
        assert(w * h * a * a * 4 > limit) by (nonlinear_arith)
            requires
                w * h > limit,
                a >= 1,
        ;
        return None;
    }
    assert(area * a <= u64::MAX) by (nonlinear_arith)
        requires
            area <= u32::MAX,
            a <= u32::MAX,
    ;
    let once: u64 = area * a;
    if once > limit {
        assert(w * h * a * a * 4 > limit) by (nonlinear_arith)
            requires
                w * h * a > limit,
                a >= 1,
        ;
        return None;
    }
    assert(once * a <= u64::MAX) by (nonlinear_arith)
        requires
            once <= u32::MAX,
            a <= u32::MAX,
    ;
    let twice: u64 = once * a;
    if twice > limit / 4 {
        return None;
    }
    Some((twice * 4) as u32)
}

/// Where the raster's pixel `(0, 0)` lies, in raster pixels, when the view
/// is centred on the origin of the plane: half the raster's size back from
/// the centre, each half rounded towards zero.
pub open spec fn centred_origin(size: Size32) -> (int, int) {
    (-(size.w as int / 2), -(size.h as int / 2))
}

/// The offset that centres a raster of `size` pixels on the origin of the
/// plane.
pub fn centre_offset(size: Size32) -> (offset: Point32)
    ensures
        (offset.x as int, offset.y as int) == centred_origin(size),
{
    Point32 { x: -((size.w / 2) as i32), y: -((size.h / 2) as i32) }
}

} // verus!
