use grim_rs::checked_buffer_size;
use grim_rs::scale_image_data;
use grim_rs::scale_image_integer_fast;
use grim_rs::CaptureResult;
use grim_rs::Error;
use grim_rs::Scale;
use grim_rs::MAX_PIXELS;

fn px(r: u8, g: u8, b: u8) -> [u8; 4] {
    [r, g, b, 255]
}

fn image_from_pixels(pixels: &[[u8; 4]]) -> Vec<u8> {
    let mut data = Vec::new();
    for p in pixels {
        data.extend_from_slice(p);
    }
    data
}

fn pixel_at(c: &CaptureResult, x: u32, y: u32) -> [u8; 4] {
    let i = ((y * c.width + x) * 4) as usize;
    [c.data[i], c.data[i + 1], c.data[i + 2], c.data[i + 3]]
}

fn rgb_cmy_3x2() -> CaptureResult {
    CaptureResult::new(
        image_from_pixels(&[
            px(255, 0, 0),
            px(0, 255, 0),
            px(0, 0, 255),
            px(0, 255, 255),
            px(255, 0, 255),
            px(255, 255, 0),
        ]),
        3,
        2,
    )
}

#[test]
fn checked_buffer_size_is_exact() {
    assert_eq!(checked_buffer_size(4, 4, 4, None).unwrap(), 64);
    assert_eq!(checked_buffer_size(1920, 1080, 4, None).unwrap(), 1920 * 1080 * 4);
    assert_eq!(checked_buffer_size(10, 7, 4, Some(64)).unwrap(), 64 * 7);
}

#[test]
fn checked_buffer_size_rejects_excessive_pixel_counts() {
    // 16384 * 16384 > MAX_PIXELS
    assert!((16384u64 * 16384u64) > MAX_PIXELS);
    match checked_buffer_size(16384, 16384, 4, None) {
        Err(Error::InvalidRegion(_)) => {},
        other => panic!("expected InvalidRegion, got {other:?}"),
    }
    match checked_buffer_size(u32::MAX, u32::MAX, 4, None) {
        Err(Error::InvalidRegion(_)) => {},
        other => panic!("expected InvalidRegion, got {other:?}"),
    }
}

#[test]
fn fast_upscale_duplicates_each_pixel_into_blocks() {
    // For every supported factor, every destination block repeats its
    // source pixel.
    let src = rgb_cmy_3x2();
    for factor in [2u32, 3, 4] {
        let out = scale_image_integer_fast(src.clone(), factor).unwrap();
        assert_eq!(out.width, 3 * factor);
        assert_eq!(out.height, 2 * factor);
        for y in 0..out.height {
            for x in 0..out.width {
                assert_eq!(
                    pixel_at(&out, x, y),
                    pixel_at(&src, x / factor, y / factor),
                    "factor {factor} at ({x},{y})"
                );
            }
        }
    }
}

#[test]
fn upscale_3x2_by_two_duplicates_rows_and_columns() {
    let src = rgb_cmy_3x2();
    let out = scale_image_data(src.clone(), Scale { num: 2, den: 1 }).unwrap();
    assert_eq!((out.width, out.height), (6, 4));
    for y in 0..4u32 {
        for x in 0..6u32 {
            assert_eq!(pixel_at(&out, x, y), pixel_at(&src, x / 2, y / 2), "at ({x},{y})");
        }
    }
}

#[test]
fn scale_of_one_returns_the_capture_unchanged() {
    let src = rgb_cmy_3x2();
    let out = scale_image_data(src.clone(), Scale { num: 7, den: 7 }).unwrap();
    assert_eq!(out, src);
}

#[test]
fn near_integer_scale_takes_the_fast_path() {
    // 2.004 is within 0.01 of 2, so the result is the exact 2x block copy.
    let src = rgb_cmy_3x2();
    let out = scale_image_data(src.clone(), Scale { num: 2004, den: 1000 }).unwrap();
    let fast = scale_image_integer_fast(src, 2).unwrap();
    assert_eq!(out, fast);
}

#[test]
fn downscale_by_half_keeps_a_uniform_color() {
    let data = vec![
        [10u8, 200u8, 30u8, 255u8];
        16
    ]
    .concat();
    let src = CaptureResult::new(data, 4, 4);
    let out = scale_image_data(src, Scale { num: 1, den: 2 }).unwrap();
    assert_eq!((out.width, out.height), (2, 2));
    assert_eq!(out.data.len(), 2 * 2 * 4);
    for y in 0..2u32 {
        for x in 0..2u32 {
            assert_eq!(pixel_at(&out, x, y), [10, 200, 30, 255]);
        }
    }
}

#[test]
fn zero_target_dimensions_fail_with_invalid_region() {
    let src = rgb_cmy_3x2();
    match scale_image_data(src, Scale { num: 1, den: 10 }) {
        Err(Error::InvalidRegion(m)) => {
            assert!(m.contains("Scaled dimensions must be positive"));
        },
        other => panic!("expected InvalidRegion, got {other:?}"),
    }
}

#[test]
fn oversized_fast_upscale_fails_with_invalid_region() {
    // 8192 * 8192 fits the pixel bound, but the 4x upscale exceeds it.
    let src = CaptureResult::new(vec![0u8; 8192 * 2048 * 4], 8192, 2048);
    match scale_image_integer_fast(src, 4) {
        Err(Error::InvalidRegion(_)) => {},
        other => panic!("expected InvalidRegion, got {other:?}"),
    }
}
