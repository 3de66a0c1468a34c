use grim_rs::apply_image_transform;
use grim_rs::apply_output_transform;
use grim_rs::flip_horizontal;
use grim_rs::flip_vertical;
use grim_rs::rotate_180;
use grim_rs::rotate_270;
use grim_rs::rotate_90;
use grim_rs::Transform;

fn px(r: u8, g: u8, b: u8) -> [u8; 4] {
    [r, g, b, 255]
}

fn image_from_pixels(pixels: &[[u8; 4]]) -> Vec<u8> {
    let mut data = Vec::new();
    for p in pixels {
        data.extend_from_slice(p);
    }
    data
}

#[test]
fn rotate_90_of_two_by_one_image() {
    // Two pixels side by side become two pixels stacked, left pixel on top.
    let data = image_from_pixels(&[px(1, 0, 0), px(0, 1, 0)]);
    let (rotated, w, h) = rotate_90(&data, 2, 1);
    assert_eq!((w, h), (1, 2));
    assert_eq!(rotated, image_from_pixels(&[px(1, 0, 0), px(0, 1, 0)]));
}

#[test]
fn rotate_90_of_two_by_two_image() {
    let data = image_from_pixels(&[px(1, 0, 0), px(2, 0, 0), px(3, 0, 0), px(4, 0, 0)]);
    let (rotated, w, h) = rotate_90(&data, 2, 2);
    assert_eq!((w, h), (2, 2));
    // Top row becomes right column.
    assert_eq!(
        rotated,
        image_from_pixels(&[px(3, 0, 0), px(1, 0, 0), px(4, 0, 0), px(2, 0, 0)])
    );
}

#[test]
fn rotate_180_reverses_pixels() {
    let data = image_from_pixels(&[px(1, 0, 0), px(2, 0, 0), px(3, 0, 0), px(4, 0, 0)]);
    let (rotated, w, h) = rotate_180(&data, 2, 2);
    assert_eq!((w, h), (2, 2));
    assert_eq!(
        rotated,
        image_from_pixels(&[px(4, 0, 0), px(3, 0, 0), px(2, 0, 0), px(1, 0, 0)])
    );
}

#[test]
fn rotate_270_of_two_by_two_image() {
    let data = image_from_pixels(&[px(1, 0, 0), px(2, 0, 0), px(3, 0, 0), px(4, 0, 0)]);
    let (rotated, w, h) = rotate_270(&data, 2, 2);
    assert_eq!((w, h), (2, 2));
    // Top row becomes left column, bottom to top.
    assert_eq!(
        rotated,
        image_from_pixels(&[px(2, 0, 0), px(4, 0, 0), px(1, 0, 0), px(3, 0, 0)])
    );
}

#[test]
fn flips_mirror_rows_and_columns() {
    let data = image_from_pixels(&[px(1, 0, 0), px(2, 0, 0), px(3, 0, 0), px(4, 0, 0)]);
    let (h_flipped, _, _) = flip_horizontal(&data, 2, 2);
    assert_eq!(
        h_flipped,
        image_from_pixels(&[px(2, 0, 0), px(1, 0, 0), px(4, 0, 0), px(3, 0, 0)])
    );
    let (v_flipped, _, _) = flip_vertical(&data, 2, 2);
    assert_eq!(
        v_flipped,
        image_from_pixels(&[px(3, 0, 0), px(4, 0, 0), px(1, 0, 0), px(2, 0, 0)])
    );
}

fn test_image_3x2() -> Vec<u8> {
    image_from_pixels(&[
        px(255, 0, 0),
        px(0, 255, 0),
        px(0, 0, 255),
        px(0, 255, 255),
        px(255, 0, 255),
        px(255, 255, 0),
    ])
}

#[test]
fn every_transform_round_trips_through_its_inverse() {
    let data = test_image_3x2();
    let transforms = [
        Transform::Normal,
        Transform::R90,
        Transform::R180,
        Transform::R270,
        Transform::Flipped,
        Transform::FlippedR90,
        Transform::FlippedR180,
        Transform::FlippedR270,
    ];
    for t in transforms {
        let (forward, w, h) = apply_image_transform(&data, 3, 2, t);
        let (back, bw, bh) = apply_image_transform(&forward, w, h, t.inverse());
        assert_eq!((bw, bh), (3, 2), "{t:?}");
        assert_eq!(back, data, "{t:?}");
    }
}

#[test]
fn rotations_swap_dimensions_and_flips_keep_them() {
    let data = test_image_3x2();
    let swapping = [Transform::R90, Transform::R270, Transform::FlippedR90, Transform::FlippedR270];
    for t in swapping {
        let (_, w, h) = apply_image_transform(&data, 3, 2, t);
        assert_eq!((w, h), (2, 3), "{t:?}");
    }
    let keeping = [Transform::Normal, Transform::R180, Transform::Flipped, Transform::FlippedR180];
    for t in keeping {
        let (_, w, h) = apply_image_transform(&data, 3, 2, t);
        assert_eq!((w, h), (3, 2), "{t:?}");
    }
}

#[test]
fn flipped_180_equals_vertical_flip() {
    let data = test_image_3x2();
    let (transformed, w, h) = apply_image_transform(&data, 3, 2, Transform::FlippedR180);
    let (flipped, fw, fh) = flip_vertical(&data, 3, 2);
    assert_eq!((w, h), (fw, fh));
    assert_eq!(transformed, flipped);
}

#[test]
fn output_transform_swaps_dimensions_in_place() {
    let mut w = 1920;
    let mut h = 1080;
    apply_output_transform(Transform::R90, &mut w, &mut h);
    assert_eq!((w, h), (1080, 1920));
    apply_output_transform(Transform::R180, &mut w, &mut h);
    assert_eq!((w, h), (1080, 1920));
}
