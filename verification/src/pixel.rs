//! Pixel-buffer geometry and the transforms that reuse computed pixels
//! across pan, zoom and resize.
//!
//! A raster is a row-major byte sequence. Row `y` starts at byte `y * pitch`,
//! pixel `x` of a row occupies the four bytes from `4 * x`, and bytes of a row
//! beyond `4 * w` are padding.

use vstd::arithmetic::div_mod::lemma_fundamental_div_mod;
use vstd::arithmetic::div_mod::lemma_fundamental_div_mod_converse;
use vstd::arithmetic::div_mod::lemma_mod_bound;
use vstd::prelude::*;

verus! {

/// A two-dimensional size in pixels.
#[derive(Debug, Clone, Copy, PartialEq, Eq, Hash, Structural)]
pub struct Size32 {
    pub w: u32,
    pub h: u32,
}

/// A two-dimensional point or offset in pixels.
#[derive(Debug, Clone, Copy, PartialEq, Eq, Hash, Structural)]
pub struct Point32 {
    pub x: i32,
    pub y: i32,
}

/// Direction of a zoom step: doubling or halving the magnification.
#[derive(Debug, Clone, Copy, PartialEq, Eq, Structural)]
pub enum ScaleDirection {
    /// Every source pixel becomes a 2x2 block.
    Up,
    /// Every other source pixel is kept, in both axes.
    Down,
}

/// `buf` is a raster of `size` pixels whose rows are `pitch` bytes apart.
pub open spec fn is_raster(buf: Seq<u8>, size: Size32, pitch: u32) -> bool {
    &&& 4 * size.w <= pitch
    &&& buf.len() == size.h * pitch
}

/// Byte `b` of row `y` in a raster with the given pitch.
pub open spec fn raster_byte(buf: Seq<u8>, pitch: int, y: int, b: int) -> u8 {
    buf[y * pitch + b]
}

/// The raster of `rows` rows whose byte `b` of row `y` is `f(y, b)`.
pub open spec fn raster_of(rows: int, pitch: int, f: spec_fn(int, int) -> u8) -> Seq<u8> {
    Seq::new((rows * pitch) as nat, |i: int| f(i / pitch, i % pitch))
}

/// Every byte of `buf` is zero.
pub open spec fn is_blank(buf: Seq<u8>) -> bool {
    forall|k: int| 0 <= k < buf.len() ==> buf[k] == 0u8
}

/// Byte `b` of row `y` after a pan by `delta`: the byte that lay `delta`
/// pixels further on in the source, or zero where that falls outside.
pub open spec fn translate_byte(
    src: Seq<u8>,
    size: Size32,
    pitch: u32,
    delta: Point32,
    y: int,
    b: int,
) -> u8 {
    let x = b / 4;
    if x < size.w && 0 <= x + delta.x < size.w && 0 <= y + delta.y < size.h {
        src[(y + delta.y) * pitch + b + 4 * delta.x]
    } else {
        0u8
    }
}

/// The raster `src` panned by `delta`.
pub open spec fn translated(src: Seq<u8>, size: Size32, pitch: u32, delta: Point32) -> Seq<u8> {
    raster_of(
        size.h as int,
        pitch as int,
        |y: int, b: int| translate_byte(src, size, pitch, delta, y, b),
    )
}

/// Byte `b` of row `y` after a resize to `dst_size`: the source byte at the
/// same place where both rasters have that pixel, zero elsewhere.
pub open spec fn extend_byte(
    src: Seq<u8>,
    src_size: Size32,
    src_pitch: u32,
    dst_size: Size32,
    y: int,
    b: int,
) -> u8 {
    let x = b / 4;
    if x < src_size.w && x < dst_size.w && y < src_size.h {
        src[y * src_pitch + b]
    } else {
        0u8
    }
}

/// The raster `src` cropped or grown to `dst_size`, with rows `dst_pitch` apart.
pub open spec fn extended(
    src: Seq<u8>,
    src_size: Size32,
    src_pitch: u32,
    dst_size: Size32,
    dst_pitch: u32,
) -> Seq<u8> {
    raster_of(
        dst_size.h as int,
        dst_pitch as int,
        |y: int, b: int| extend_byte(src, src_size, src_pitch, dst_size, y, b),
    )
}

/// Byte `b` of row `y` after a zoom-in step anchored at `delta`: destination
/// pixel `(x, y)` shows source pixel `(delta.x + x / 2, delta.y + y / 2)`, so
/// every source pixel fills a 2x2 block. A last odd column or row, and pixels
/// whose source lies outside the raster, are zero.
pub open spec fn scale_up_byte(
    src: Seq<u8>,
    size: Size32,
    pitch: u32,
    delta: Point32,
    y: int,
    b: int,
) -> u8 {
    let x = b / 4;
    let sx = delta.x + x / 2;
    let sy = delta.y + y / 2;
    if x < 2 * (size.w / 2) && y < 2 * (size.h / 2) && 0 <= sx < size.w && 0 <= sy < size.h {
        src[sy * pitch + 4 * sx + b % 4]
    } else {
        0u8
    }
}

/// Where source pixel 0 lands, along one axis, in a zoom-out step with that
/// axis' component `d` of the delta: half of the negated delta, rounded down.
pub open spec fn down_origin(d: int) -> int {
    (0 - d) / 2
}

/// Byte `b` of row `y` after a zoom-out step anchored at `delta`: source pixel
/// `(2 * i, 2 * j)`, for `i` below half the width and `j` below half the
/// height, lands on destination pixel `(down_origin(delta.x) + i,
/// down_origin(delta.y) + j)`. Every other destination pixel is zero.
pub open spec fn scale_down_byte(
    src: Seq<u8>,
    size: Size32,
    pitch: u32,
    delta: Point32,
    y: int,
    b: int,
) -> u8 {
    let x = b / 4;
    let i = x - down_origin(delta.x as int);
    let j = y - down_origin(delta.y as int);
    if x < size.w && 0 <= i < size.w / 2 && 0 <= j < size.h / 2 {
        src[2 * j * pitch + 8 * i + b % 4]
    } else {
        0u8
    }
}

/// The raster `src` after one zoom step in `direction`, anchored at `delta`.
pub open spec fn scaled(
    src: Seq<u8>,
    size: Size32,
    pitch: u32,
    delta: Point32,
    direction: ScaleDirection,
) -> Seq<u8> {
    raster_of(
        size.h as int,
        pitch as int,
        |y: int, b: int|
            match direction {
                ScaleDirection::Up => scale_up_byte(src, size, pitch, delta, y, b),
                ScaleDirection::Down => scale_down_byte(src, size, pitch, delta, y, b),
            },
    )
}

/// Pans a raster by `delta` pixels.
///
/// Pixel `(x, y)` of the result is pixel `(x + delta.x, y + delta.y)` of the
/// source. Pixels whose source lies outside the raster, and row padding, are
/// zero.
pub fn translate_rect(
    src_buffer: &[u8],
    size: Size32,
    pitch: u32,
    delta: Point32,
) -> (dst_buffer: Vec<u8>)
    requires
        is_raster(src_buffer@, size, pitch),
    ensures
        dst_buffer@ == translated(src_buffer@, size, pitch, delta),
{
    let len: usize = src_buffer.len();
    let mut dst_buffer: Vec<u8> = vec![0u8; len];
    assert(is_blank(dst_buffer@));
    let w: i64 = size.w as i64;
    let h: i64 = size.h as i64;
    let dx: i64 = delta.x as i64;
    let dy: i64 = delta.y as i64;
    let adx: i64 = if dx < 0 { -dx } else { dx };
    let ady: i64 = if dy < 0 { -dy } else { dy };
    if adx < w && ady < h {
        let width: usize = (w - adx) as usize;
        let height: usize = (h - ady) as usize;
        let src_x: usize = if dx > 0 { dx as usize } else { 0 };
        let src_y: usize = if dy > 0 { dy as usize } else { 0 };
        let dst_x: usize = if dx < 0 { (-dx) as usize } else { 0 };
        let dst_y: usize = if dy < 0 { (-dy) as usize } else { 0 };
        let row: usize = pitch as usize;
        proof {
            lemma_row_span((src_y + height - 1) as int, size.h as int, pitch as int, pitch as int);
            lemma_row_span((dst_y + height - 1) as int, size.h as int, pitch as int, pitch as int);
        }
        copy_rows(
            src_buffer,
            &mut dst_buffer,
            src_y,
            4 * src_x,
            dst_y,
            4 * dst_x,
            4 * width,
            height,
            row,
            row,
        );
    }
    proof {
        let f = |y: int, b: int| translate_byte(src_buffer@, size, pitch, delta, y, b);
        assert forall|y: int, b: int| 0 <= y < size.h && 0 <= b < pitch implies #[trigger] raster_byte(
            dst_buffer@,
            pitch as int,
            y,
            b,
        ) == f(y, b) by {
            lemma_row_span(y, size.h as int, pitch as int, b + 1);
        }
        lemma_raster_of(dst_buffer@, size.h as int, pitch as int, f);
    }
    dst_buffer
}

/// Resizes a raster to `dst_size`.
///
/// The rectangle that both sizes share keeps its pixels, anchored at the
/// top-left corner. What the new size adds is zero; what it lacks is dropped.
pub fn extend_buffer(
    src_buffer: &[u8],
    src_size: Size32,
    src_pitch: u32,
    dst_size: Size32,
    dst_pitch: u32,
) -> (dst_buffer: Vec<u8>)
    requires
        is_raster(src_buffer@, src_size, src_pitch),
        4 * dst_size.w <= dst_pitch,
        dst_size.h * dst_pitch <= usize::MAX,
    ensures
        dst_buffer@ == extended(src_buffer@, src_size, src_pitch, dst_size, dst_pitch),
{
    let len: usize = dst_size.h as usize * dst_pitch as usize;
    let mut dst_buffer: Vec<u8> = vec![0u8; len];
    assert(is_blank(dst_buffer@));
    let width: usize = if dst_size.w < src_size.w {
        dst_size.w as usize
    } else {
        src_size.w as usize
    };
    let height: usize = if dst_size.h < src_size.h {
        dst_size.h as usize
    } else {
        src_size.h as usize
    };
    if height > 0 {
        proof {
            lemma_row_span(height - 1, src_size.h as int, src_pitch as int, src_pitch as int);
            lemma_row_span(height - 1, dst_size.h as int, dst_pitch as int, dst_pitch as int);
        }
        copy_rows(
            src_buffer,
            &mut dst_buffer,
            0,
            0,
            0,
            0,
            4 * width,
            height,
            src_pitch as usize,
            dst_pitch as usize,
        );
    }
    proof {
        let f = |y: int, b: int| extend_byte(src_buffer@, src_size, src_pitch, dst_size, y, b);
        assert forall|y: int, b: int|
            0 <= y < dst_size.h && 0 <= b < dst_pitch implies #[trigger] raster_byte(
            dst_buffer@,
            dst_pitch as int,
            y,
            b,
        ) == f(y, b) by {
            lemma_row_span(y, dst_size.h as int, dst_pitch as int, b + 1);
        }
        lemma_raster_of(dst_buffer@, dst_size.h as int, dst_pitch as int, f);
    }
    dst_buffer
}

/// Resamples a raster by one zoom step, anchored at the pixel offset `delta`.
///
/// `Up` doubles every source pixel from `delta` on into a 2x2 block. `Down`
/// keeps every other source pixel and places the result so that source pixel
/// `(0, 0)` lands half of the negated `delta` away from the corner. What the
/// step does not cover is zero, and so is whatever would come from outside
/// the source.
pub fn scale_rect(
    src_buffer: &[u8],
    size: Size32,
    pitch: u32,
    delta: Point32,
    direction: ScaleDirection,
) -> (dst_buffer: Vec<u8>)
    requires
        is_raster(src_buffer@, size, pitch),
    ensures
        dst_buffer@ == scaled(src_buffer@, size, pitch, delta, direction),
{
    let len: usize = src_buffer.len();
    let mut dst_buffer: Vec<u8> = vec![0u8; len];
    assert(is_blank(dst_buffer@));
    match direction {
        ScaleDirection::Up => scale_up_into(src_buffer, &mut dst_buffer, size, pitch, delta),
        ScaleDirection::Down => scale_down_into(src_buffer, &mut dst_buffer, size, pitch, delta),
    }
    proof {
        let f = |y: int, b: int|
            match direction {
                ScaleDirection::Up => scale_up_byte(src_buffer@, size, pitch, delta, y, b),
                ScaleDirection::Down => scale_down_byte(src_buffer@, size, pitch, delta, y, b),
            };
        lemma_raster_of(dst_buffer@, size.h as int, pitch as int, f);
    }
    dst_buffer
}

/// Writes the zoom-in step of `src_buffer` into the blank raster `dst_buffer`.
fn scale_up_into(
    src_buffer: &[u8],
    dst_buffer: &mut Vec<u8>,
    size: Size32,
    pitch: u32,
    delta: Point32,
)
    requires
        is_raster(src_buffer@, size, pitch),
        is_raster(old(dst_buffer)@, size, pitch),
        is_blank(old(dst_buffer)@),
    ensures
        final(dst_buffer)@.len() == old(dst_buffer)@.len(),
        forall|y: int, b: int|
            0 <= y < size.h && 0 <= b < pitch ==> #[trigger] raster_byte(
                final(dst_buffer)@,
                pitch as int,
                y,
                b,
            ) == scale_up_byte(src_buffer@, size, pitch, delta, y, b),
{
    let w: i64 = size.w as i64;
    let h: i64 = size.h as i64;
    let dx: i64 = delta.x as i64;
    let dy: i64 = delta.y as i64;
    let i0: i64 = if dx < 0 { -dx } else { 0 };
    let j0: i64 = if dy < 0 { -dy } else { 0 };
    let i1: i64 = if w - dx < w / 2 { w - dx } else { w / 2 };
    let j1: i64 = if h - dy < h / 2 { h - dy } else { h / 2 };
    if i0 < i1 && j0 < j1 {
        let src_x: usize = (dx + i0) as usize;
        let src_y: usize = (dy + j0) as usize;
        let dst_x: usize = (2 * i0) as usize;
        let dst_y: usize = (2 * j0) as usize;
        let width: usize = (i1 - i0) as usize;
        let height: usize = (j1 - j0) as usize;
        proof {
            lemma_rows_fit(src_y + height, size.h as int, pitch as int);
            lemma_rows_fit(dst_y + 2 * height, size.h as int, pitch as int);
        }
        copy_rows_up(
            src_buffer,
            dst_buffer,
            src_x,
            src_y,
            dst_x,
            dst_y,
            width,
            height,
            pitch as usize,
            pitch as usize,
        );
        proof {
            assert forall|y: int, b: int| 0 <= y < size.h && 0 <= b < pitch implies #[trigger] raster_byte(
                dst_buffer@,
                pitch as int,
                y,
                b,
            ) == scale_up_byte(src_buffer@, size, pitch, delta, y, b) by {
                lemma_row_span(y, size.h as int, pitch as int, b + 1);
                assert(raster_byte(old(dst_buffer)@, pitch as int, y, b) == 0u8);
                lemma_up_window(src_buffer@, size, pitch, delta, y, b);
            }
        }
    } else {
        proof {
            assert forall|y: int, b: int| 0 <= y < size.h && 0 <= b < pitch implies #[trigger] raster_byte(
                dst_buffer@,
                pitch as int,
                y,
                b,
            ) == scale_up_byte(src_buffer@, size, pitch, delta, y, b) by {
                lemma_row_span(y, size.h as int, pitch as int, b + 1);
                lemma_up_window(src_buffer@, size, pitch, delta, y, b);
            }
        }
    }
}

/// Writes the zoom-out step of `src_buffer` into the blank raster `dst_buffer`.
fn scale_down_into(
    src_buffer: &[u8],
    dst_buffer: &mut Vec<u8>,
    size: Size32,
    pitch: u32,
    delta: Point32,
)
    requires
        is_raster(src_buffer@, size, pitch),
        is_raster(old(dst_buffer)@, size, pitch),
        is_blank(old(dst_buffer)@),
    ensures
        final(dst_buffer)@.len() == old(dst_buffer)@.len(),
        forall|y: int, b: int|
            0 <= y < size.h && 0 <= b < pitch ==> #[trigger] raster_byte(
                final(dst_buffer)@,
                pitch as int,
                y,
                b,
            ) == scale_down_byte(src_buffer@, size, pitch, delta, y, b),
{
    let w: i64 = size.w as i64;
    let h: i64 = size.h as i64;
    let ox: i64 = down_origin_of(delta.x);
    let oy: i64 = down_origin_of(delta.y);
    let i0: i64 = if ox < 0 { -ox } else { 0 };
    let j0: i64 = if oy < 0 { -oy } else { 0 };
    let i1: i64 = if w - ox < w / 2 { w - ox } else { w / 2 };
    let j1: i64 = if h - oy < h / 2 { h - oy } else { h / 2 };
    if i0 < i1 && j0 < j1 {
        let src_x: usize = (2 * i0) as usize;
        let src_y: usize = (2 * j0) as usize;
        let dst_x: usize = (ox + i0) as usize;
        let dst_y: usize = (oy + j0) as usize;
        let width: usize = (i1 - i0) as usize;
        let height: usize = (j1 - j0) as usize;
        proof {
            lemma_rows_fit(src_y + 2 * height - 1, size.h as int, pitch as int);
            lemma_rows_fit(dst_y + height, size.h as int, pitch as int);
        }
        copy_rows_down(
            src_buffer,
            dst_buffer,
            src_x,
            src_y,
            dst_x,
            dst_y,
            width,
            height,
            pitch as usize,
            pitch as usize,
        );
        proof {
            assert forall|y: int, b: int| 0 <= y < size.h && 0 <= b < pitch implies #[trigger] raster_byte(
                dst_buffer@,
                pitch as int,
                y,
                b,
            ) == scale_down_byte(src_buffer@, size, pitch, delta, y, b) by {
                lemma_row_span(y, size.h as int, pitch as int, b + 1);
                assert(raster_byte(old(dst_buffer)@, pitch as int, y, b) == 0u8);
                lemma_down_window(src_buffer@, size, pitch, delta, y, b);
            }
        }
    } else {
        proof {
            assert forall|y: int, b: int| 0 <= y < size.h && 0 <= b < pitch implies #[trigger] raster_byte(
                dst_buffer@,
                pitch as int,
                y,
                b,
            ) == scale_down_byte(src_buffer@, size, pitch, delta, y, b) by {
                lemma_row_span(y, size.h as int, pitch as int, b + 1);
                lemma_down_window(src_buffer@, size, pitch, delta, y, b);
            }
        }
    }
}

/// Half of the negated `d`, rounded down.
fn down_origin_of(d: i32) -> (o: i64)
    ensures
        o == down_origin(d as int),
{
    let d: i64 = d as i64;
    if d <= 0 {
        (-d) / 2
    } else {
        -((d + 1) / 2)
    }
}

/// Doubles a rectangle of `width` by `height` source pixels, from pixel
/// `(src_x, src_y)` on, into the rectangle of twice that size that starts at
/// destination pixel `(dst_x, dst_y)`. Every other byte of `dst` is left as
/// it was.
fn copy_rows_up(
    src_buffer: &[u8],
    dst_buffer: &mut Vec<u8>,
    src_x: usize,
    src_y: usize,
    dst_x: usize,
    dst_y: usize,
    width: usize,
    height: usize,
    src_pitch: usize,
    dst_pitch: usize,
)
    requires
        4 * (src_x + width) <= src_pitch,
        src_y + height <= usize::MAX,
        (src_y + height) * src_pitch <= src_buffer.len(),
        4 * dst_x + 8 * width <= dst_pitch,
        dst_y + 2 * height <= usize::MAX,
        (dst_y + 2 * height) * dst_pitch <= old(dst_buffer).len(),
    ensures
        final(dst_buffer)@.len() == old(dst_buffer)@.len(),
        forall|y: int, b: int|
            0 <= y && 0 <= b < dst_pitch && y * dst_pitch + b < old(dst_buffer)@.len()
                ==> #[trigger] raster_byte(final(dst_buffer)@, dst_pitch as int, y, b) == (if dst_y
                <= y < dst_y + 2 * height && 4 * dst_x <= b < 4 * dst_x + 8 * width {
                raster_byte(
                    src_buffer@,
                    src_pitch as int,
                    src_y + (y - dst_y) / 2,
                    4 * src_x + 4 * ((b - 4 * dst_x) / 8) + (b - 4 * dst_x) % 4,
                )
            } else {
                raster_byte(old(dst_buffer)@, dst_pitch as int, y, b)
            }),
{
    let mut j: usize = 0;
    while j < height
        invariant
            j <= height,
            4 * (src_x + width) <= src_pitch,
            src_y + height <= usize::MAX,
            (src_y + height) * src_pitch <= src_buffer.len(),
            4 * dst_x + 8 * width <= dst_pitch,
            dst_y + 2 * height <= usize::MAX,
            (dst_y + 2 * height) * dst_pitch <= dst_buffer.len(),
            dst_buffer@.len() == old(dst_buffer)@.len(),
            forall|y: int, b: int|
                0 <= y && 0 <= b < dst_pitch && y * dst_pitch + b < dst_buffer@.len()
                    ==> #[trigger] raster_byte(dst_buffer@, dst_pitch as int, y, b) == (if dst_y
                    <= y < dst_y + 2 * j && 4 * dst_x <= b < 4 * dst_x + 8 * width {
                    raster_byte(
                        src_buffer@,
                        src_pitch as int,
                        src_y + (y - dst_y) / 2,
                        4 * src_x + 4 * ((b - 4 * dst_x) / 8) + (b - 4 * dst_x) % 4,
                    )
                } else {
                    raster_byte(old(dst_buffer)@, dst_pitch as int, y, b)
                }),
        decreases height - j,
    {
        proof {
            lemma_row_span(
                (src_y + j) as int,
                (src_y + height) as int,
                src_pitch as int,
                src_pitch as int,
            );
            lemma_row_span(
                (dst_y + 2 * j) as int,
                (dst_y + 2 * height) as int,
                dst_pitch as int,
                dst_pitch as int,
            );
            lemma_row_span(
                (dst_y + 2 * j + 1) as int,
                (dst_y + 2 * height) as int,
                dst_pitch as int,
                dst_pitch as int,
            );
        }
        let src_lower: usize = (src_y + j) * src_pitch + 4 * src_x;
        let dst_lower: usize = (dst_y + 2 * j) * dst_pitch + 4 * dst_x;
        let ghost before = dst_buffer@;
        copy_row_up(src_buffer, dst_buffer, src_lower, dst_lower, width);
        let ghost between = dst_buffer@;
        copy_row_up(src_buffer, dst_buffer, src_lower, dst_lower + dst_pitch, width);
        proof {
            assert forall|y: int, b: int|
                0 <= y && 0 <= b < dst_pitch && y * dst_pitch + b
                    < dst_buffer@.len() implies #[trigger] raster_byte(
                dst_buffer@,
                dst_pitch as int,
                y,
                b,
            ) == (if dst_y <= y < dst_y + 2 * (j + 1) && 4 * dst_x <= b < 4 * dst_x + 8 * width {
                raster_byte(
                    src_buffer@,
                    src_pitch as int,
                    src_y + (y - dst_y) / 2,
                    4 * src_x + 4 * ((b - 4 * dst_x) / 8) + (b - 4 * dst_x) % 4,
                )
            } else {
                raster_byte(old(dst_buffer)@, dst_pitch as int, y, b)
            }) by {
                let k = y * dst_pitch + b;
                assert(raster_byte(before, dst_pitch as int, y, b) == before[k]);
                assert(raster_byte(between, dst_pitch as int, y, b) == between[k]);
                if y != dst_y + 2 * j {
                    lemma_rows_apart(
                        y,
                        (dst_y + 2 * j) as int,
                        dst_pitch as int,
                        b,
                        4 * dst_x as int,
                        8 * width as int,
                    );
                }
                if y != dst_y + 2 * j + 1 {
                    lemma_rows_apart(
                        y,
                        (dst_y + 2 * j + 1) as int,
                        dst_pitch as int,
                        b,
                        4 * dst_x as int,
                        8 * width as int,
                    );
                }
            }
        }
        j += 1;
    }
}

/// Doubles one row of `width` source pixels, read from byte `src_lower` on,
/// into `2 * width` destination pixels written from byte `dst_lower` on.
fn copy_row_up(
    src_buffer: &[u8],
    dst_buffer: &mut Vec<u8>,
    src_lower: usize,
    dst_lower: usize,
    width: usize,
)
    requires
        src_lower + 4 * width <= src_buffer.len(),
        dst_lower + 8 * width <= old(dst_buffer).len(),
    ensures
        final(dst_buffer)@.len() == old(dst_buffer)@.len(),
        forall|k: int|
            0 <= k < old(dst_buffer)@.len() ==> #[trigger] final(dst_buffer)@[k] == (if dst_lower
                <= k < dst_lower + 8 * width {
                src_buffer@[src_lower + 4 * ((k - dst_lower) / 8) + (k - dst_lower) % 4]
            } else {
                old(dst_buffer)@[k]
            }),
{
    let mut i: usize = 0;
    while i < width
        invariant
            i <= width,
            src_lower + 4 * width <= src_buffer.len(),
            dst_lower + 8 * width <= dst_buffer.len(),
            dst_buffer@.len() == old(dst_buffer)@.len(),
            forall|k: int|
                0 <= k < dst_buffer@.len() ==> #[trigger] dst_buffer@[k] == (if dst_lower <= k
                    < dst_lower + 8 * i {
                    src_buffer@[src_lower + 4 * ((k - dst_lower) / 8) + (k - dst_lower) % 4]
                } else {
                    old(dst_buffer)@[k]
                }),
        decreases width - i,
    {
        let src: usize = src_lower + 4 * i;
        let dst: usize = dst_lower + 8 * i;
        copy_span(dst_buffer, dst, src_buffer, src, 4);
        copy_span(dst_buffer, dst + 4, src_buffer, src, 4);
        i += 1;
    }
}

/// Halves a rectangle of source pixels: every other pixel, from pixel
/// `(src_x, src_y)` on, goes to the rectangle of `width` by `height` pixels
/// that starts at destination pixel `(dst_x, dst_y)`. Every other byte of
/// `dst` is left as it was.
fn copy_rows_down(
    src_buffer: &[u8],
    dst_buffer: &mut Vec<u8>,
    src_x: usize,
    src_y: usize,
    dst_x: usize,
    dst_y: usize,
    width: usize,
    height: usize,
    src_pitch: usize,
    dst_pitch: usize,
)
    requires
        0 < width,
        0 < height,
        4 * (src_x + 2 * width - 1) <= src_pitch,
        src_y + 2 * height <= usize::MAX,
        (src_y + 2 * height - 1) * src_pitch <= src_buffer.len(),
        4 * (dst_x + width) <= dst_pitch,
        dst_y + height <= usize::MAX,
        (dst_y + height) * dst_pitch <= old(dst_buffer).len(),
    ensures
        final(dst_buffer)@.len() == old(dst_buffer)@.len(),
        forall|y: int, b: int|
            0 <= y && 0 <= b < dst_pitch && y * dst_pitch + b < old(dst_buffer)@.len()
                ==> #[trigger] raster_byte(final(dst_buffer)@, dst_pitch as int, y, b) == (if dst_y
                <= y < dst_y + height && 4 * dst_x <= b < 4 * (dst_x + width) {
                raster_byte(
                    src_buffer@,
                    src_pitch as int,
                    src_y + 2 * (y - dst_y),
                    4 * src_x + 8 * ((b - 4 * dst_x) / 4) + (b - 4 * dst_x) % 4,
                )
            } else {
                raster_byte(old(dst_buffer)@, dst_pitch as int, y, b)
            }),
{
    let mut j: usize = 0;
    while j < height
        invariant
            j <= height,
            0 < width,
            4 * (src_x + 2 * width - 1) <= src_pitch,
            src_y + 2 * height <= usize::MAX,
            (src_y + 2 * height - 1) * src_pitch <= src_buffer.len(),
            4 * (dst_x + width) <= dst_pitch,
            dst_y + height <= usize::MAX,
            (dst_y + height) * dst_pitch <= dst_buffer.len(),
            dst_buffer@.len() == old(dst_buffer)@.len(),
            forall|y: int, b: int|
                0 <= y && 0 <= b < dst_pitch && y * dst_pitch + b < dst_buffer@.len()
                    ==> #[trigger] raster_byte(dst_buffer@, dst_pitch as int, y, b) == (if dst_y
                    <= y < dst_y + j && 4 * dst_x <= b < 4 * (dst_x + width) {
                    raster_byte(
                        src_buffer@,
                        src_pitch as int,
                        src_y + 2 * (y - dst_y),
                        4 * src_x + 8 * ((b - 4 * dst_x) / 4) + (b - 4 * dst_x) % 4,
                    )
                } else {
                    raster_byte(old(dst_buffer)@, dst_pitch as int, y, b)
                }),
        decreases height - j,
    {
        proof {
            lemma_row_span(
                (src_y + 2 * j) as int,
                (src_y + 2 * height - 1) as int,
                src_pitch as int,
                src_pitch as int,
            );
            lemma_row_span(
                (dst_y + j) as int,
                (dst_y + height) as int,
                dst_pitch as int,
                dst_pitch as int,
            );
        }
        let src_lower: usize = (src_y + 2 * j) * src_pitch + 4 * src_x;
        let dst_lower: usize = (dst_y + j) * dst_pitch + 4 * dst_x;
        let ghost before = dst_buffer@;
        copy_row_down(src_buffer, dst_buffer, src_lower, dst_lower, width);
        proof {
            assert forall|y: int, b: int|
                0 <= y && 0 <= b < dst_pitch && y * dst_pitch + b
                    < dst_buffer@.len() implies #[trigger] raster_byte(
                dst_buffer@,
                dst_pitch as int,
                y,
                b,
            ) == (if dst_y <= y < dst_y + j + 1 && 4 * dst_x <= b < 4 * (dst_x + width) {
                raster_byte(
                    src_buffer@,
                    src_pitch as int,
                    src_y + 2 * (y - dst_y),
                    4 * src_x + 8 * ((b - 4 * dst_x) / 4) + (b - 4 * dst_x) % 4,
                )
            } else {
                raster_byte(old(dst_buffer)@, dst_pitch as int, y, b)
            }) by {
                let k = y * dst_pitch + b;
                assert(raster_byte(before, dst_pitch as int, y, b) == before[k]);
                if y != dst_y + j {
                    lemma_rows_apart(
                        y,
                        (dst_y + j) as int,
                        dst_pitch as int,
                        b,
                        4 * dst_x as int,
                        4 * width as int,
                    );
                }
            }
        }
        j += 1;
    }
}

/// Halves one row: every other source pixel, read from byte `src_lower` on,
/// goes to the `width` destination pixels written from byte `dst_lower` on.
fn copy_row_down(
    src_buffer: &[u8],
    dst_buffer: &mut Vec<u8>,
    src_lower: usize,
    dst_lower: usize,
    width: usize,
)
    requires
        0 < width,
        src_lower + 8 * width - 4 <= src_buffer.len(),
        dst_lower + 4 * width <= old(dst_buffer).len(),
    ensures
        final(dst_buffer)@.len() == old(dst_buffer)@.len(),
        forall|k: int|
            0 <= k < old(dst_buffer)@.len() ==> #[trigger] final(dst_buffer)@[k] == (if dst_lower
                <= k < dst_lower + 4 * width {
                src_buffer@[src_lower + 8 * ((k - dst_lower) / 4) + (k - dst_lower) % 4]
            } else {
                old(dst_buffer)@[k]
            }),
{
    let mut i: usize = 0;
    while i < width
        invariant
            i <= width,
            src_lower + 8 * width - 4 <= src_buffer.len(),
            dst_lower + 4 * width <= dst_buffer.len(),
            dst_buffer@.len() == old(dst_buffer)@.len(),
            forall|k: int|
                0 <= k < dst_buffer@.len() ==> #[trigger] dst_buffer@[k] == (if dst_lower <= k
                    < dst_lower + 4 * i {
                    src_buffer@[src_lower + 8 * ((k - dst_lower) / 4) + (k - dst_lower) % 4]
                } else {
                    old(dst_buffer)@[k]
                }),
        decreases width - i,
    {
        copy_span(dst_buffer, dst_lower + 4 * i, src_buffer, src_lower + 8 * i, 4);
        i += 1;
    }
}

/// Copies a rectangle of `height` rows of `span` bytes each: the rows of
/// `src` from row `src_y`, offset `src_b`, go to the rows of `dst` from row
/// `dst_y`, offset `dst_b`. Every other byte of `dst` is left as it was.
fn copy_rows(
    src: &[u8],
    dst: &mut Vec<u8>,
    src_y: usize,
    src_b: usize,
    dst_y: usize,
    dst_b: usize,
    span: usize,
    height: usize,
    src_pitch: usize,
    dst_pitch: usize,
)
    requires
        src_b + span <= src_pitch,
        src_y + height <= usize::MAX,
        (src_y + height) * src_pitch <= src.len(),
        dst_b + span <= dst_pitch,
        dst_y + height <= usize::MAX,
        (dst_y + height) * dst_pitch <= old(dst).len(),
    ensures
        final(dst)@.len() == old(dst)@.len(),
        forall|y: int, b: int|
            0 <= y && 0 <= b < dst_pitch && y * dst_pitch + b < old(dst)@.len()
                ==> #[trigger] raster_byte(final(dst)@, dst_pitch as int, y, b) == (if dst_y <= y
                < dst_y + height && dst_b <= b < dst_b + span {
                raster_byte(src@, src_pitch as int, src_y + (y - dst_y), src_b + (b - dst_b))
            } else {
                raster_byte(old(dst)@, dst_pitch as int, y, b)
            }),
{
    let mut j: usize = 0;
    while j < height
        invariant
            j <= height,
            src_b + span <= src_pitch,
            src_y + height <= usize::MAX,
            (src_y + height) * src_pitch <= src.len(),
            dst_b + span <= dst_pitch,
            dst_y + height <= usize::MAX,
            (dst_y + height) * dst_pitch <= dst.len(),
            dst@.len() == old(dst)@.len(),
            forall|y: int, b: int|
                0 <= y && 0 <= b < dst_pitch && y * dst_pitch + b < dst@.len()
                    ==> #[trigger] raster_byte(dst@, dst_pitch as int, y, b) == (if dst_y <= y
                    < dst_y + j && dst_b <= b < dst_b + span {
                    raster_byte(src@, src_pitch as int, src_y + (y - dst_y), src_b + (b - dst_b))
                } else {
                    raster_byte(old(dst)@, dst_pitch as int, y, b)
                }),
        decreases height - j,
    {
        proof {
            lemma_row_span(
                (src_y + j) as int,
                (src_y + height) as int,
                src_pitch as int,
                src_pitch as int,
            );
            lemma_row_span(
                (dst_y + j) as int,
                (dst_y + height) as int,
                dst_pitch as int,
                dst_pitch as int,
            );
        }
        let src_at: usize = (src_y + j) * src_pitch + src_b;
        let dst_at: usize = (dst_y + j) * dst_pitch + dst_b;
        let ghost before = dst@;
        copy_span(dst, dst_at, src, src_at, span);
        proof {
            assert forall|y: int, b: int|
                0 <= y && 0 <= b < dst_pitch && y * dst_pitch + b < dst@.len() implies #[trigger] raster_byte(
                dst@,
                dst_pitch as int,
                y,
                b,
            ) == (if dst_y <= y < dst_y + j + 1 && dst_b <= b < dst_b + span {
                raster_byte(src@, src_pitch as int, src_y + (y - dst_y), src_b + (b - dst_b))
            } else {
                raster_byte(old(dst)@, dst_pitch as int, y, b)
            }) by {
                assert(raster_byte(before, dst_pitch as int, y, b) == before[y * dst_pitch + b]);
                if y != dst_y + j {
                    lemma_rows_apart(
                        y,
                        (dst_y + j) as int,
                        dst_pitch as int,
                        b,
                        dst_b as int,
                        span as int,
                    );
                }
            }
        }
        j += 1;
    }
}

/// Copies `n` bytes of `src` from `src_at` over the bytes of `dst` from `dst_at`.
pub(crate) fn copy_span(dst: &mut Vec<u8>, dst_at: usize, src: &[u8], src_at: usize, n: usize)
    requires
        dst_at + n <= old(dst).len(),
        src_at + n <= src.len(),
    ensures
        final(dst)@.len() == old(dst)@.len(),
        forall|k: int|
            0 <= k < old(dst)@.len() ==> #[trigger] final(dst)@[k] == (if dst_at <= k < dst_at + n {
                src@[src_at + (k - dst_at)]
            } else {
                old(dst)@[k]
            }),
    no_unwind
{
    let mut i: usize = 0;
    while i < n
        invariant
            i <= n,
            dst_at + n <= dst.len(),
            src_at + n <= src.len(),
            dst@.len() == old(dst)@.len(),
            forall|k: int|
                0 <= k < dst@.len() ==> #[trigger] dst@[k] == (if dst_at <= k < dst_at + i {
                    src@[src_at + (k - dst_at)]
                } else {
                    old(dst)@[k]
                }),
        decreases n - i,
    {
        dst[dst_at + i] = src[src_at + i];
        i += 1;
    }
}

/// A panned raster has the size of its source, and its byte `b` of row `y`
/// is `translate_byte` there.
pub proof fn lemma_translated_byte(
    src: Seq<u8>,
    size: Size32,
    pitch: u32,
    delta: Point32,
    y: int,
    b: int,
)
    requires
        0 <= y < size.h,
        0 <= b < pitch,
    ensures
        translated(src, size, pitch, delta).len() == size.h * pitch,
        raster_byte(translated(src, size, pitch, delta), pitch as int, y, b) == translate_byte(
            src,
            size,
            pitch,
            delta,
            y,
            b,
        ),
{
    lemma_raster_of_byte(
        size.h as int,
        pitch as int,
        |y: int, b: int| translate_byte(src, size, pitch, delta, y, b),
        y,
        b,
    );
}

/// A resized raster has `dst_size.h` rows of `dst_pitch` bytes, and its byte
/// `b` of row `y` is `extend_byte` there.
pub proof fn lemma_extended_byte(
    src: Seq<u8>,
    src_size: Size32,
    src_pitch: u32,
    dst_size: Size32,
    dst_pitch: u32,
    y: int,
    b: int,
)
    requires
        0 <= y < dst_size.h,
        0 <= b < dst_pitch,
    ensures
        extended(src, src_size, src_pitch, dst_size, dst_pitch).len() == dst_size.h * dst_pitch,
        raster_byte(
            extended(src, src_size, src_pitch, dst_size, dst_pitch),
            dst_pitch as int,
            y,
            b,
        ) == extend_byte(src, src_size, src_pitch, dst_size, y, b),
{
    lemma_raster_of_byte(
        dst_size.h as int,
        dst_pitch as int,
        |y: int, b: int| extend_byte(src, src_size, src_pitch, dst_size, y, b),
        y,
        b,
    );
}

/// A rescaled raster has the size of its source, and its byte `b` of row `y`
/// is `scale_up_byte` or `scale_down_byte` there, by the direction.
pub proof fn lemma_scaled_byte(
    src: Seq<u8>,
    size: Size32,
    pitch: u32,
    delta: Point32,
    direction: ScaleDirection,
    y: int,
    b: int,
)
    requires
        0 <= y < size.h,
        0 <= b < pitch,
    ensures
        scaled(src, size, pitch, delta, direction).len() == size.h * pitch,
        raster_byte(scaled(src, size, pitch, delta, direction), pitch as int, y, b) == (match direction {
            ScaleDirection::Up => scale_up_byte(src, size, pitch, delta, y, b),
            ScaleDirection::Down => scale_down_byte(src, size, pitch, delta, y, b),
        }),
{
    lemma_raster_of_byte(
        size.h as int,
        pitch as int,
        |y: int, b: int|
            match direction {
                ScaleDirection::Up => scale_up_byte(src, size, pitch, delta, y, b),
                ScaleDirection::Down => scale_down_byte(src, size, pitch, delta, y, b),
            },
        y,
        b,
    );
}

/// A byte sequence that agrees with `f` on every row and offset is the
/// raster built from `f`.
pub proof fn lemma_raster_of(buf: Seq<u8>, rows: int, pitch: int, f: spec_fn(int, int) -> u8)
    requires
        0 <= rows,
        0 <= pitch,
        buf.len() == rows * pitch,
        forall|y: int, b: int|
            0 <= y < rows && 0 <= b < pitch ==> #[trigger] raster_byte(buf, pitch, y, b) == f(y, b),
    ensures
        buf == raster_of(rows, pitch, f),
{
    let r = raster_of(rows, pitch, f);
    assert forall|i: int| 0 <= i < buf.len() implies buf[i] == r[i] by {
        lemma_index_split(i, rows, pitch);
        assert(raster_byte(buf, pitch, i / pitch, i % pitch) == f(i / pitch, i % pitch));
    }
    assert(buf =~= r);
}

/// Reading the raster built from `f` at row `y`, offset `b`, gives `f(y, b)`.
pub proof fn lemma_raster_of_byte(
    rows: int,
    pitch: int,
    f: spec_fn(int, int) -> u8,
    y: int,
    b: int,
)
    requires
        0 <= y < rows,
        0 <= b < pitch,
    ensures
        raster_of(rows, pitch, f).len() == rows * pitch,
        0 <= y * pitch + b < rows * pitch,
        raster_byte(raster_of(rows, pitch, f), pitch, y, b) == f(y, b),
{
    lemma_row_span(y, rows, pitch, b + 1);
    lemma_index_join(y, b, pitch);
}

/// Every index of a raster is byte `b` of row `y` for exactly one `(y, b)`.
pub proof fn lemma_index_split(i: int, rows: int, pitch: int)
    requires
        0 <= i < rows * pitch,
        0 <= rows,
        0 <= pitch,
    ensures
        0 < pitch,
        0 <= i / pitch < rows,
        0 <= i % pitch < pitch,
        i == (i / pitch) * pitch + i % pitch,
{
    assert(pitch != 0) by (nonlinear_arith)
        requires
            0 <= i < rows * pitch,
    ;
    lemma_fundamental_div_mod(i, pitch);
    lemma_mod_bound(i, pitch);
    let q = i / pitch;
    assert(pitch * q == q * pitch) by (nonlinear_arith);
    assert(0 <= q < rows) by (nonlinear_arith)
        requires
            0 <= i < rows * pitch,
            0 < pitch,
            i == q * pitch + i % pitch,
            0 <= i % pitch < pitch,
    ;
}

/// Byte `b` of row `y` sits at index `y * pitch + b`, and nowhere else.
pub proof fn lemma_index_join(y: int, b: int, pitch: int)
    requires
        0 <= y,
        0 <= b < pitch,
    ensures
        (y * pitch + b) / pitch == y,
        (y * pitch + b) % pitch == b,
{
    assert(y * pitch == pitch * y) by (nonlinear_arith);
    lemma_fundamental_div_mod_converse(y * pitch + b, pitch, y, b);
}

/// Rows of a raster lie inside it: offset `b` of row `y` is below the total length.
pub proof fn lemma_row_span(y: int, rows: int, pitch: int, b: int)
    by (nonlinear_arith)
    requires
        0 <= y < rows,
        0 <= b <= pitch,
    ensures
        0 <= y * pitch,
        y * pitch + b <= rows * pitch,
        (y + 1) * pitch == y * pitch + pitch,
{
}

/// The first `y` rows of a raster end within it.
pub proof fn lemma_rows_fit(y: int, rows: int, pitch: int)
    by (nonlinear_arith)
    requires
        0 <= y <= rows,
        0 <= pitch,
    ensures
        0 <= y * pitch <= rows * pitch,
{
}

/// Offsets inside two different rows never name the same byte.
pub proof fn lemma_rows_apart(y: int, r: int, pitch: int, b: int, at: int, n: int)
    by (nonlinear_arith)
    requires
        y != r,
        0 <= b < pitch,
        0 <= at,
        0 <= n,
        at + n <= pitch,
    ensures
        !(r * pitch + at <= y * pitch + b < r * pitch + at + n),
{
}

/// The destination rectangle that a zoom-in step fills, and what it fills it
/// with: the blocks of the source pixels that lie inside the raster.
proof fn lemma_up_window(src: Seq<u8>, size: Size32, pitch: u32, delta: Point32, y: int, b: int)
    requires
        0 <= y < size.h,
        0 <= b < pitch,
        4 * size.w <= pitch,
    ensures
        ({
            let i0 = if delta.x < 0 { -delta.x } else { 0 };
            let j0 = if delta.y < 0 { -delta.y } else { 0 };
            let i1 = if size.w - delta.x < size.w / 2 {
                size.w - delta.x
            } else {
                (size.w / 2) as int
            };
            let j1 = if size.h - delta.y < size.h / 2 {
                size.h - delta.y
            } else {
                (size.h / 2) as int
            };
            scale_up_byte(src, size, pitch, delta, y, b) == (if i0 < i1 && j0 < j1 && 2 * j0 <= y
                < 2 * j0 + 2 * (j1 - j0) && 4 * (2 * i0) <= b < 4 * (2 * i0) + 8 * (i1 - i0) {
                raster_byte(
                    src,
                    pitch as int,
                    delta.y + j0 + (y - 2 * j0) / 2,
                    4 * (delta.x + i0) + 4 * ((b - 4 * (2 * i0)) / 8) + (b - 4 * (2 * i0)) % 4,
                )
            } else {
                0u8
            })
        }),
{
    let i0 = if delta.x < 0 { -delta.x } else { 0 };
    let j0 = if delta.y < 0 { -delta.y } else { 0 };
    let i1 = if size.w - delta.x < size.w / 2 { size.w - delta.x } else { (size.w / 2) as int };
    let j1 = if size.h - delta.y < size.h / 2 { size.h - delta.y } else { (size.h / 2) as int };
    let x = b / 4;
    if i0 < i1 && j0 < j1 && 2 * j0 <= y < 2 * j0 + 2 * (j1 - j0) && 4 * (2 * i0) <= b < 4 * (2
        * i0) + 8 * (i1 - i0) {
        let row = delta.y + j0 + (y - 2 * j0) / 2;
        let at = 4 * (delta.x + i0) + 4 * ((b - 4 * (2 * i0)) / 8) + (b - 4 * (2 * i0)) % 4;
        assert(row == delta.y + y / 2);
        assert(at == 4 * (delta.x + x / 2) + b % 4);
    }
}

/// The destination rectangle that a zoom-out step fills, and what it fills
/// it with: the clipped range of kept source pixels, shifted by the origin.
proof fn lemma_down_window(src: Seq<u8>, size: Size32, pitch: u32, delta: Point32, y: int, b: int)
    requires
        0 <= y < size.h,
        0 <= b < pitch,
        4 * size.w <= pitch,
    ensures
        ({
            let ox = down_origin(delta.x as int);
            let oy = down_origin(delta.y as int);
            let i0 = if ox < 0 { -ox } else { 0 };
            let j0 = if oy < 0 { -oy } else { 0 };
            let i1 = if size.w - ox < size.w / 2 { size.w - ox } else { (size.w / 2) as int };
            let j1 = if size.h - oy < size.h / 2 { size.h - oy } else { (size.h / 2) as int };
            scale_down_byte(src, size, pitch, delta, y, b) == (if i0 < i1 && j0 < j1 && oy + j0 <= y
                < oy + j1 && 4 * (ox + i0) <= b < 4 * (ox + i1) {
                raster_byte(
                    src,
                    pitch as int,
                    2 * j0 + 2 * (y - (oy + j0)),
                    4 * (2 * i0) + 8 * ((b - 4 * (ox + i0)) / 4) + (b - 4 * (ox + i0)) % 4,
                )
            } else {
                0u8
            })
        }),
{
    let ox = down_origin(delta.x as int);
    let oy = down_origin(delta.y as int);
    let i0 = if ox < 0 { -ox } else { 0 };
    let j0 = if oy < 0 { -oy } else { 0 };
    let i1 = if size.w - ox < size.w / 2 { size.w - ox } else { (size.w / 2) as int };
    let j1 = if size.h - oy < size.h / 2 { size.h - oy } else { (size.h / 2) as int };
    let x = b / 4;
    if i0 < i1 && j0 < j1 && oy + j0 <= y < oy + j1 && 4 * (ox + i0) <= b < 4 * (ox + i1) {
        let row = 2 * j0 + 2 * (y - (oy + j0));
        let at = 4 * (2 * i0) + 8 * ((b - 4 * (ox + i0)) / 4) + (b - 4 * (ox + i0)) % 4;
        assert(row == 2 * (y - oy));
        assert(at == 8 * (x - ox) + b % 4);
        assert(2 * (y - oy) * pitch == row * pitch);
    }
}

} // verus!
