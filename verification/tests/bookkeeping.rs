use fractal_raster::layout::{buffer_length, buffer_pitch, buffer_size, centre_offset};
use fractal_raster::pixel::{Point32, Size32};
use fractal_raster::precision::{high_precision, precision};
use fractal_raster::precision::{EXTRA_PRECISION_BITS, FIXED_MANTISSA_BITS, MIN_PRECISION_BITS};
use fractal_raster::row::{pack_row, OPAQUE};

#[test]
fn precision_adds_the_extra_bits_above_the_floor() {
    assert_eq!(EXTRA_PRECISION_BITS, 16);
    assert_eq!(MIN_PRECISION_BITS, 64);
    assert_eq!(precision(49), 65);
    assert_eq!(precision(100), 116);
    assert_eq!(precision(1000), 1016);
    assert_eq!(precision(i32::MAX), 2147483663);
}

#[test]
fn precision_keeps_to_the_floor_at_shallow_zoom() {
    assert_eq!(precision(0), 64);
    assert_eq!(precision(11), 64);
    assert_eq!(precision(47), 64);
    assert_eq!(precision(48), 64);
    assert_eq!(precision(-5), 64);
    assert_eq!(precision(i32::MIN), 64);
}

#[test]
fn high_precision_starts_above_the_mantissa_width() {
    assert_eq!(FIXED_MANTISSA_BITS, 52);
    assert!(!high_precision(-1));
    assert!(!high_precision(0));
    assert!(!high_precision(52));
    assert!(high_precision(53));
    assert!(high_precision(i32::MAX));
}

#[test]
fn precision_never_falls_while_zooming_in() {
    let mut exponent = 11;
    let mut bits = precision(exponent);
    let mut high = high_precision(exponent);
    for _ in 0..200 {
        exponent += 1;
        assert!(precision(exponent) >= bits);
        assert!(!high || high_precision(exponent));
        bits = precision(exponent);
        high = high_precision(exponent);
    }
    assert!(high);
    assert_eq!(bits, 227);
}

#[test]
fn buffer_sizes_for_the_default_window() {
    let window = Size32 { w: 800, h: 600 };
    assert_eq!(buffer_size(window, 2), Some(Size32 { w: 1600, h: 1200 }));
    assert_eq!(buffer_pitch(window, 2), Some(6400));
    assert_eq!(buffer_length(window, 2), Some(7_680_000));
    assert_eq!(buffer_size(window, 1), Some(window));
    assert_eq!(buffer_size(window, 0), Some(Size32 { w: 0, h: 0 }));
    assert_eq!(buffer_pitch(window, 0), Some(0));
    assert_eq!(buffer_length(window, 0), Some(0));
}

#[test]
fn buffer_sizes_that_do_not_fit() {
    let wide = Size32 { w: 1 << 31, h: 1 };
    assert_eq!(buffer_size(wide, 2), None);
    assert_eq!(buffer_size(Size32 { w: 1, h: 1 << 31 }, 2), None);
    assert_eq!(buffer_size(wide, 1), Some(wide));
    assert_eq!(buffer_pitch(wide, 1), None);
    assert_eq!(buffer_pitch(Size32 { w: 1 << 30, h: 1 }, 1), None);
    assert_eq!(buffer_pitch(Size32 { w: (1 << 30) - 1, h: 1 }, 1), Some(u32::MAX - 3));
    assert_eq!(buffer_length(Size32 { w: 1 << 15, h: 1 << 15 }, 1), None);
    assert_eq!(buffer_length(Size32 { w: (1 << 15) - 1, h: 1 << 15 }, 1), Some(4_294_836_224));
    assert_eq!(buffer_length(Size32 { w: 1 << 16, h: 1 << 16 }, 1), None);
    assert_eq!(buffer_length(Size32 { w: 1 << 10, h: 1 << 10 }, 1 << 10), None);
    assert_eq!(buffer_length(Size32 { w: 16, h: 16 }, 1 << 11), None);
    assert_eq!(buffer_length(Size32 { w: u32::MAX, h: u32::MAX }, u32::MAX), None);
    assert_eq!(buffer_length(Size32 { w: u32::MAX, h: 0 }, u32::MAX), Some(0));
}

#[test]
fn centre_offset_is_half_the_size_back() {
    assert_eq!(centre_offset(Size32 { w: 1600, h: 1200 }), Point32 { x: -800, y: -600 });
    assert_eq!(centre_offset(Size32 { w: 5, h: 1 }), Point32 { x: -2, y: 0 });
    assert_eq!(centre_offset(Size32 { w: 0, h: 0 }), Point32 { x: 0, y: 0 });
    assert_eq!(
        centre_offset(Size32 { w: u32::MAX, h: u32::MAX }),
        Point32 { x: -i32::MAX, y: -i32::MAX }
    );
}

#[test]
fn pack_row_writes_opaque_pixels() {
    assert_eq!(OPAQUE, 255);
    let row = pack_row(&[(1, 2, 3), (0, 0, 0), (255, 254, 253)]);
    assert_eq!(row, vec![1, 2, 3, 255, 0, 0, 0, 255, 255, 254, 253, 255]);
    assert!(pack_row(&[]).is_empty());
}
