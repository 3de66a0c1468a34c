use grim_rs::Error;
use grim_rs::MultiOutputCaptureResult;
use grim_rs::CaptureResult;
use grim_rs::OutputRegistry;
use grim_rs::Scale;
use grim_rs::Transform;

#[test]
fn new_outputs_get_placeholder_records() {
    let mut registry = OutputRegistry::new();
    registry.add_output(7, 42);
    assert_eq!(registry.entries.len(), 1);
    let info = &registry.entries[0].info;
    assert_eq!(info.name, "output-42");
    assert_eq!(info.scale, 1);
    assert_eq!(info.transform, Transform::Normal);
    assert!(!info.logical_scale_known);
}

#[test]
fn geometry_and_mode_events_mirror_into_logical_fields() {
    let mut registry = OutputRegistry::new();
    registry.add_output(7, 42);
    registry.apply_geometry_event(7, 100, 200, Some(Transform::Normal));
    registry.apply_mode_event(7, 1920, 1080);
    let info = &registry.entries[0].info;
    assert_eq!((info.x, info.y), (100, 200));
    assert_eq!((info.width, info.height), (1920, 1080));
    // No logical geometry is known yet, so the physical data is mirrored.
    assert_eq!((info.logical_x, info.logical_y), (100, 200));
    assert_eq!((info.logical_width, info.logical_height), (1920, 1080));
    assert_eq!(info.logical_scale, Scale { num: 1920, den: 1920 });
}

#[test]
fn xdg_logical_size_derives_a_fractional_scale() {
    let mut registry = OutputRegistry::new();
    registry.add_output(7, 42);
    registry.apply_mode_event(7, 3000, 2000);
    registry.register_xdg(7, 99);
    registry.apply_xdg_logical_position_event(99, 0, 0);
    registry.apply_xdg_logical_size_event(99, 2000, 1333);
    let info = &registry.entries[0].info;
    assert!(info.logical_scale_known);
    // Effective scale is 3000/2000, a fractional 1.5.
    assert_eq!(info.logical_scale, Scale { num: 3000, den: 2000 });
}

#[test]
fn xdg_name_replaces_only_the_placeholder() {
    let mut registry = OutputRegistry::new();
    registry.add_output(7, 42);
    registry.register_xdg(7, 99);
    registry.apply_xdg_name_event(99, "eDP-1".to_string());
    assert_eq!(registry.entries[0].info.name, "eDP-1");
    // A real name is kept even if another xdg name event arrives.
    registry.apply_xdg_name_event(99, "DP-2".to_string());
    assert_eq!(registry.entries[0].info.name, "eDP-1");
}

#[test]
fn scale_event_updates_the_integer_scale() {
    let mut registry = OutputRegistry::new();
    registry.add_output(7, 42);
    registry.apply_mode_event(7, 3840, 2160);
    registry.apply_scale_event(7, 2);
    assert_eq!(registry.entries[0].info.scale, 2);
}

#[test]
fn guessed_logical_geometry_divides_by_scale_and_swaps() {
    // A rotated 3840x2160 output at integer scale 2 guesses a logical
    // 1080x1920 size.
    let mut registry = OutputRegistry::new();
    registry.add_output(7, 42);
    registry.apply_geometry_event(7, 0, 0, Some(Transform::R90));
    registry.apply_mode_event(7, 3840, 2160);
    registry.apply_scale_event(7, 2);
    registry.fill_missing_logical_geometry();
    let info = &registry.entries[0].info;
    assert!(info.logical_scale_known);
    assert_eq!((info.logical_width, info.logical_height), (1080, 1920));
    // The effective scale compares transformed physical major (2160) with
    // the logical width (1080).
    assert_eq!(info.logical_scale, Scale { num: 2160, den: 1080 });
}

#[test]
fn get_outputs_prefers_logical_geometry() {
    let mut registry = OutputRegistry::new();
    registry.add_output(7, 42);
    registry.apply_geometry_event(7, 10, 20, Some(Transform::Normal));
    registry.apply_mode_event(7, 1000, 500);
    let records = registry.get_outputs().unwrap();
    assert_eq!(records.len(), 1);
    // Logical geometry is not known: physical geometry is reported.
    assert_eq!(records[0].geometry(), &grim_rs::Box::new(10, 20, 1000, 500));

    registry.register_xdg(7, 99);
    registry.apply_xdg_logical_position_event(99, 0, 0);
    registry.apply_xdg_logical_size_event(99, 500, 250);
    let records = registry.get_outputs().unwrap();
    assert_eq!(records[0].geometry(), &grim_rs::Box::new(0, 0, 500, 250));
}

#[test]
fn get_outputs_of_empty_registry_fails() {
    let registry = OutputRegistry::new();
    match registry.get_outputs() {
        Err(Error::NoOutputs) => {},
        other => panic!("expected NoOutputs, got {other:?}"),
    }
}

#[test]
fn outputs_are_found_by_name() {
    let mut registry = OutputRegistry::new();
    registry.add_output(7, 42);
    registry.add_output(8, 43);
    registry.apply_name_event(8, "HDMI-1".to_string());
    assert_eq!(registry.find_output_by_name("HDMI-1").unwrap(), 1);
    match registry.find_output_by_name("DP-9") {
        Err(Error::OutputNotFound(name)) => assert_eq!(name, "DP-9"),
        other => panic!("expected OutputNotFound, got {other:?}"),
    }
}

#[test]
fn clearing_the_registry_empties_it() {
    let mut registry = OutputRegistry::new();
    registry.add_output(7, 42);
    registry.register_xdg(7, 99);
    registry.clear();
    assert!(registry.is_empty());
    assert_eq!(registry.xdg_links.len(), 0);
}

#[test]
fn multi_output_results_map_names_to_captures() {
    let mut results = MultiOutputCaptureResult::new();
    results.insert("A".to_string(), CaptureResult::new(vec![1, 2, 3, 4], 1, 1));
    results.insert("B".to_string(), CaptureResult::new(vec![5, 6, 7, 8], 1, 1));
    assert_eq!(results.len(), 2);
    assert_eq!(results.get("A").unwrap().data, vec![1, 2, 3, 4]);
    assert_eq!(results.get("B").unwrap().data, vec![5, 6, 7, 8]);
    assert!(results.get("C").is_none());
    let entries = results.into_outputs();
    assert_eq!(entries.len(), 2);
}

#[test]
fn geometry_validation_demands_positive_sizes() {
    let mut registry = OutputRegistry::new();
    registry.add_output(7, 42);
    // No mode event yet: the refresh invariant does not hold.
    match registry.validate_geometry() {
        Err(Error::WaylandConnection(m)) => assert!(m.contains("incomplete")),
        other => panic!("expected WaylandConnection, got {other:?}"),
    }
    registry.apply_mode_event(7, 1920, 1080);
    registry.fill_missing_logical_geometry();
    assert!(registry.validate_geometry().is_ok());
}
