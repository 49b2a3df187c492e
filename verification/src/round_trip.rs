//! What survives when a transform is undone by its opposite.
//!
//! Each transform drops what leaves the raster and fills what enters with
//! zero, so undoing it restores a pixel only where nothing was dropped on
//! the way. The lemmas here say exactly where that is.

use crate::pixel::{
    extended, is_raster, lemma_extended_byte, lemma_raster_of, lemma_scaled_byte,
    lemma_translated_byte, raster_byte, scaled, translated, Point32, ScaleDirection, Size32,
};
use vstd::prelude::*;

verus! {

/// Resizing to `other` and back to the first size keeps every pixel that
/// both sizes hold and zeroes the rest: the overlap comes back unchanged.
pub proof fn lemma_extend_round_trip(
    buf: Seq<u8>,
    size: Size32,
    pitch: u32,
    other: Size32,
    other_pitch: u32,
)
    requires
        is_raster(buf, size, pitch),
        4 * other.w <= other_pitch,
    ensures
        ({
            let there = extended(buf, size, pitch, other, other_pitch);
            let back = extended(there, other, other_pitch, size, pitch);
            &&& is_raster(there, other, other_pitch)
            &&& is_raster(back, size, pitch)
            &&& forall|y: int, b: int|
                0 <= y < size.h && 0 <= b < pitch ==> #[trigger] raster_byte(back, pitch as int, y, b)
                    == (if b / 4 < size.w && b / 4 < other.w && y < other.h {
                    raster_byte(buf, pitch as int, y, b)
                } else {
                    0u8
                })
        }),
{
    let there = extended(buf, size, pitch, other, other_pitch);
    let back = extended(there, other, other_pitch, size, pitch);
    assert forall|y: int, b: int| 0 <= y < size.h && 0 <= b < pitch implies #[trigger] raster_byte(
        back,
        pitch as int,
        y,
        b,
    ) == (if b / 4 < size.w && b / 4 < other.w && y < other.h {
        raster_byte(buf, pitch as int, y, b)
    } else {
        0u8
    }) by {
        lemma_extended_byte(there, other, other_pitch, size, pitch, y, b);
        if b / 4 < size.w && b / 4 < other.w && y < other.h {
            lemma_extended_byte(buf, size, pitch, other, other_pitch, y, b);
        }
    }
}

/// Panning by `delta` and then by its opposite restores the raster, except
/// in the border strips that the first pan pushed out of it: `|delta.x|`
/// columns and `|delta.y|` rows on the sides the content moved towards.
/// Those strips are zero.
pub proof fn lemma_translate_inverse(
    buf: Seq<u8>,
    size: Size32,
    pitch: u32,
    delta: Point32,
    opposite: Point32,
)
    requires
        is_raster(buf, size, pitch),
        opposite.x == -delta.x,
        opposite.y == -delta.y,
    ensures
        ({
            let there = translated(buf, size, pitch, delta);
            let back = translated(there, size, pitch, opposite);
            &&& is_raster(there, size, pitch)
            &&& is_raster(back, size, pitch)
            &&& forall|y: int, b: int|
                0 <= y < size.h && 0 <= b < pitch ==> #[trigger] raster_byte(back, pitch as int, y, b)
                    == (if b / 4 < size.w && 0 <= b / 4 - delta.x < size.w && 0 <= y - delta.y
                    < size.h {
                    raster_byte(buf, pitch as int, y, b)
                } else {
                    0u8
                })
        }),
{
    let there = translated(buf, size, pitch, delta);
    let back = translated(there, size, pitch, opposite);
    assert forall|y: int, b: int| 0 <= y < size.h && 0 <= b < pitch implies #[trigger] raster_byte(
        back,
        pitch as int,
        y,
        b,
    ) == (if b / 4 < size.w && 0 <= b / 4 - delta.x < size.w && 0 <= y - delta.y < size.h {
        raster_byte(buf, pitch as int, y, b)
    } else {
        0u8
    }) by {
        lemma_translated_byte(there, size, pitch, opposite, y, b);
        if b / 4 < size.w && 0 <= b / 4 - delta.x < size.w && 0 <= y - delta.y < size.h {
            let y1 = y - delta.y;
            let b1 = b - 4 * delta.x;
            lemma_translated_byte(buf, size, pitch, delta, y1, b1);
        }
    }
}

/// A zoom-in step anchored at `delta`, followed by the zoom-out step with the
/// matching anchor (twice the opposite of `delta`), restores the raster on
/// the window that the zoom-in step magnified: half the width and half the
/// height, from pixel `delta` on. Outside that window the result is zero.
pub proof fn lemma_scale_round_trip(
    buf: Seq<u8>,
    size: Size32,
    pitch: u32,
    delta: Point32,
    matching: Point32,
)
    requires
        is_raster(buf, size, pitch),
        matching.x == -2 * delta.x,
        matching.y == -2 * delta.y,
    ensures
        ({
            let up = scaled(buf, size, pitch, delta, ScaleDirection::Up);
            let back = scaled(up, size, pitch, matching, ScaleDirection::Down);
            &&& is_raster(up, size, pitch)
            &&& is_raster(back, size, pitch)
            &&& forall|y: int, b: int|
                0 <= y < size.h && 0 <= b < pitch ==> #[trigger] raster_byte(back, pitch as int, y, b)
                    == (if b / 4 < size.w && 0 <= b / 4 - delta.x < size.w / 2 && 0 <= y - delta.y
                    < size.h / 2 {
                    raster_byte(buf, pitch as int, y, b)
                } else {
                    0u8
                })
        }),
{
    let up = scaled(buf, size, pitch, delta, ScaleDirection::Up);
    let back = scaled(up, size, pitch, matching, ScaleDirection::Down);
    assert forall|y: int, b: int| 0 <= y < size.h && 0 <= b < pitch implies #[trigger] raster_byte(
        back,
        pitch as int,
        y,
        b,
    ) == (if b / 4 < size.w && 0 <= b / 4 - delta.x < size.w / 2 && 0 <= y - delta.y < size.h / 2 {
        raster_byte(buf, pitch as int, y, b)
    } else {
        0u8
    }) by {
        lemma_scaled_byte(up, size, pitch, matching, ScaleDirection::Down, y, b);
        let x = b / 4;
        let i = x - delta.x;
        let j = y - delta.y;
        if x < size.w && 0 <= i < size.w / 2 && 0 <= j < size.h / 2 {
            let y1 = 2 * j;
            let b1 = 8 * i + b % 4;
            lemma_scaled_byte(buf, size, pitch, delta, ScaleDirection::Up, y1, b1);
            assert(2 * j * pitch == y1 * pitch);
            assert(b1 / 4 == 2 * i);
            assert(b1 % 4 == b % 4);
        }
    }
}

/// A pan by nothing leaves a raster without row padding as it is.
pub proof fn lemma_pan_by_nothing(buf: Seq<u8>, size: Size32, pitch: u32)
    requires
        is_raster(buf, size, pitch),
        pitch == 4 * size.w,
    ensures
        translated(buf, size, pitch, Point32 { x: 0, y: 0 }) == buf,
{
    let zero = Point32 { x: 0, y: 0 };
    assert forall|y: int, b: int| 0 <= y < size.h && 0 <= b < pitch implies #[trigger] raster_byte(
        buf,
        pitch as int,
        y,
        b,
    ) == raster_byte(translated(buf, size, pitch, zero), pitch as int, y, b) by {
        lemma_translated_byte(buf, size, pitch, zero, y, b);
    }
    lemma_same_raster(buf, translated(buf, size, pitch, zero), size.h as int, pitch as int);
}

/// A resize to the size it already has leaves a raster without row padding
/// as it is.
pub proof fn lemma_resize_to_same_size(buf: Seq<u8>, size: Size32, pitch: u32)
    requires
        is_raster(buf, size, pitch),
        pitch == 4 * size.w,
    ensures
        extended(buf, size, pitch, size, pitch) == buf,
{
    assert forall|y: int, b: int| 0 <= y < size.h && 0 <= b < pitch implies #[trigger] raster_byte(
        buf,
        pitch as int,
        y,
        b,
    ) == raster_byte(extended(buf, size, pitch, size, pitch), pitch as int, y, b) by {
        lemma_extended_byte(buf, size, pitch, size, pitch, y, b);
    }
    lemma_same_raster(buf, extended(buf, size, pitch, size, pitch), size.h as int, pitch as int);
}

/// Two rasters of one shape that agree on every byte of every row are equal.
proof fn lemma_same_raster(a: Seq<u8>, b: Seq<u8>, rows: int, pitch: int)
    requires
        0 <= rows,
        0 <= pitch,
        a.len() == rows * pitch,
        b.len() == rows * pitch,
        forall|y: int, k: int|
            0 <= y < rows && 0 <= k < pitch ==> #[trigger] raster_byte(a, pitch, y, k)
                == raster_byte(b, pitch, y, k),
    ensures
        a == b,
{
    let f = |y: int, k: int| raster_byte(b, pitch, y, k);
    lemma_raster_of(a, rows, pitch, f);
    lemma_raster_of(b, rows, pitch, f);
}

} // verus!
