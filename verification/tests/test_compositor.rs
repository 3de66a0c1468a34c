use grim_rs::assemble_composite;
use grim_rs::blit_capture;
use grim_rs::bounding_region;
use grim_rs::greatest_scale_for_region;
use grim_rs::plan_composite;
use grim_rs::plan_output_capture;
use grim_rs::validate_capture_region;
use grim_rs::Box;
use grim_rs::CaptureParameters;
use grim_rs::CaptureResult;
use grim_rs::Error;
use grim_rs::OutputEntry;
use grim_rs::OutputInfo;
use grim_rs::OutputRegistry;
use grim_rs::Scale;
use grim_rs::Transform;

fn output_info(
    name: &str,
    physical: (i32, i32, i32, i32),
    logical: (i32, i32, i32, i32),
    scale_num: u32,
    scale_den: u32,
) -> OutputInfo {
    OutputInfo {
        name: name.to_string(),
        x: physical.0,
        y: physical.1,
        width: physical.2,
        height: physical.3,
        scale: 1,
        transform: Transform::Normal,
        logical_x: logical.0,
        logical_y: logical.1,
        logical_width: logical.2,
        logical_height: logical.3,
        logical_scale_known: true,
        logical_scale: Scale { num: scale_num, den: scale_den },
        description: None,
    }
}

fn two_output_registry() -> OutputRegistry {
    // Output A: logical (0,0) 1920x1080 at scale 1; output B: logical
    // (1920,0) 1920x1080 at scale 2 (physical 3840x2160).
    let mut registry = OutputRegistry::new();
    registry.entries.push(OutputEntry {
        id: 1,
        info: output_info("A", (0, 0, 1920, 1080), (0, 0, 1920, 1080), 1, 1),
    });
    registry.entries.push(OutputEntry {
        id: 2,
        info: output_info("B", (3840, 0, 3840, 2160), (1920, 0, 1920, 1080), 2, 1),
    });
    registry
}

fn solid_capture(width: u32, height: u32, color: [u8; 4]) -> CaptureResult {
    let mut data = Vec::with_capacity((width * height * 4) as usize);
    for _ in 0..(width * height) {
        data.extend_from_slice(&color);
    }
    CaptureResult::new(data, width, height)
}

fn pixel_at(c: &CaptureResult, x: u32, y: u32) -> [u8; 4] {
    let i = ((y * c.width + x) * 4) as usize;
    [c.data[i], c.data[i + 1], c.data[i + 2], c.data[i + 3]]
}

#[test]
fn composite_spanning_two_outputs_mixes_both_sides() {
    // Region (1800,0) 240x1080 takes 120 columns from A and, after the
    // 2-to-1 downsample, 120 columns from B.
    let registry = two_output_registry();
    let region = Box::new(1800, 0, 240, 1080);
    let plan = plan_composite(&region, &registry).unwrap();
    assert_eq!((plan.width, plan.height), (240, 1080));
    assert_eq!(plan.steps.len(), 2);

    let step_a = &plan.steps[0];
    assert_eq!(step_a.output_index, 0);
    assert_eq!(step_a.physical_region, Box::new(1800, 0, 120, 1080));
    assert_eq!(step_a.scale, Scale { num: 1, den: 1 });
    assert_eq!((step_a.offset_x, step_a.offset_y), (0, 0));

    let step_b = &plan.steps[1];
    assert_eq!(step_b.output_index, 1);
    assert_eq!(step_b.physical_region, Box::new(0, 0, 240, 2160));
    assert_eq!(step_b.scale, Scale { num: 2, den: 1 });
    assert_eq!((step_b.offset_x, step_b.offset_y), (120, 0));

    let red = [200u8, 10, 10, 255];
    let blue = [10u8, 10, 200, 255];
    let captures = vec![solid_capture(120, 1080, red), solid_capture(240, 2160, blue)];
    let out = assemble_composite(plan.width, plan.height, &plan.steps, captures).unwrap();
    assert_eq!((out.width, out.height), (240, 1080));
    for y in [0u32, 500, 1079] {
        for x in [0u32, 60, 119] {
            assert_eq!(pixel_at(&out, x, y), red, "left at ({x},{y})");
        }
        for x in [120u32, 180, 239] {
            assert_eq!(pixel_at(&out, x, y), blue, "right at ({x},{y})");
        }
    }
}

#[test]
fn plan_fails_for_region_outside_every_output() {
    let registry = two_output_registry();
    let region = Box::new(50000, 50000, 10, 10);
    match plan_composite(&region, &registry) {
        Err(Error::InvalidRegion(m)) => assert!(m.contains("does not intersect")),
        other => panic!("expected InvalidRegion, got {other:?}"),
    }
}

#[test]
fn plan_fails_for_empty_region() {
    let registry = two_output_registry();
    match plan_composite(&Box::new(0, 0, 0, 10), &registry) {
        Err(Error::InvalidRegion(_)) => {},
        other => panic!("expected InvalidRegion, got {other:?}"),
    }
}

#[test]
fn bounding_region_spans_all_outputs() {
    let registry = two_output_registry();
    let bounds = bounding_region(&registry).unwrap();
    assert_eq!(bounds, Box::new(0, 0, 3840, 1080));
}

#[test]
fn bounding_region_of_empty_registry_is_no_outputs() {
    let registry = OutputRegistry::new();
    match bounding_region(&registry) {
        Err(Error::NoOutputs) => {},
        other => panic!("expected NoOutputs, got {other:?}"),
    }
}

#[test]
fn greatest_scale_picks_the_maximum_intersecting_output() {
    let registry = two_output_registry();

    // A region only on output A sees scale 1.
    let only_a = greatest_scale_for_region(&registry, Some(Box::new(10, 10, 20, 20))).unwrap();
    assert_eq!(only_a, Scale { num: 1, den: 1 });

    // A region touching both outputs sees output B's scale 2.
    let both = greatest_scale_for_region(&registry, Some(Box::new(1800, 0, 240, 1080))).unwrap();
    assert_eq!(both, Scale { num: 2, den: 1 });

    // No region considers every output.
    let all = greatest_scale_for_region(&registry, None).unwrap();
    assert_eq!(all, Scale { num: 2, den: 1 });
}

#[test]
fn greatest_scale_fails_for_disjoint_regions() {
    let registry = two_output_registry();
    match greatest_scale_for_region(&registry, Some(Box::new(90000, 90000, 10, 10))) {
        Err(Error::InvalidRegion(m)) => assert!(m.contains("does not intersect")),
        other => panic!("expected InvalidRegion, got {other:?}"),
    }
}

#[test]
fn capture_region_validation_rejects_bad_regions() {
    assert!(validate_capture_region(&Box::new(0, 0, 10, 10)).is_ok());
    match validate_capture_region(&Box::new(0, 0, 0, 10)) {
        Err(Error::InvalidRegion(m)) => assert!(m.contains("positive width and height")),
        other => panic!("expected InvalidRegion, got {other:?}"),
    }
    match validate_capture_region(&Box::new(-1, 0, 10, 10)) {
        Err(Error::InvalidRegion(m)) => assert!(m.contains("non-negative")),
        other => panic!("expected InvalidRegion, got {other:?}"),
    }
}

#[test]
fn batch_capture_region_must_stay_inside_the_output() {
    let info = output_info("A", (0, 0, 1920, 1080), (0, 0, 1920, 1080), 1, 1);
    let full = CaptureParameters::new("A".to_string());
    assert_eq!(plan_output_capture(&full, &info).unwrap(), Box::new(0, 0, 1920, 1080));

    let inside = CaptureParameters::new("A".to_string()).with_region(Box::new(10, 10, 100, 100));
    assert_eq!(plan_output_capture(&inside, &info).unwrap(), Box::new(10, 10, 100, 100));

    let outside = CaptureParameters::new("A".to_string()).with_region(Box::new(1900, 10, 100,
        100));
    match plan_output_capture(&outside, &info) {
        Err(Error::InvalidRegion(m)) => assert!(m.contains("outside output boundaries")),
        other => panic!("expected InvalidRegion, got {other:?}"),
    }
}

#[test]
fn blit_clips_at_the_destination_edges() {
    let mut dest = vec![0u8; 2 * 2 * 4];
    let capture = solid_capture(2, 2, [9, 9, 9, 255]);
    blit_capture(&mut dest, 2, 2, &capture, 1, 1);
    // Only the bottom-right destination pixel is painted.
    assert_eq!(&dest[0..4], &[0, 0, 0, 0]);
    assert_eq!(&dest[4..8], &[0, 0, 0, 0]);
    assert_eq!(&dest[8..12], &[0, 0, 0, 0]);
    assert_eq!(&dest[12..16], &[9, 9, 9, 255]);
}

#[test]
fn bounding_region_rejects_spans_beyond_the_rectangle_type() {
    let mut registry = OutputRegistry::new();
    registry.entries.push(OutputEntry {
        id: 1,
        info: output_info("A", (0, 0, 10, 10), (-2000000000, 0, 10, 10), 1, 1),
    });
    registry.entries.push(OutputEntry {
        id: 2,
        info: output_info("B", (0, 0, 10, 10), (2000000000, 0, 1000000000, 10), 1, 1),
    });
    match bounding_region(&registry) {
        Err(Error::InvalidRegion(m)) => assert!(m.contains("exceeds supported range")),
        other => panic!("expected InvalidRegion, got {other:?}"),
    }
}
