use grim_rs::Box;

#[test]
fn test_box_parsing() {
    let box_str = "10,20 300x400";
    let parsed: Box = match box_str.parse() {
        Ok(value) => value,
        Err(err) => panic!("unexpected parse error: {err:?}"),
    };
    assert_eq!(parsed.x(), 10);
    assert_eq!(parsed.y(), 20);
    assert_eq!(parsed.width(), 300);
    assert_eq!(parsed.height(), 400);
}

#[test]
fn test_box_intersection() {
    let box1 = Box::new(0, 0, 100, 100);
    let box2 = Box::new(50, 50, 100, 100);

    assert!(box1.intersects(&box2));

    let intersection = match box1.intersection(&box2) {
        Some(value) => value,
        None => panic!("expected intersection, got none"),
    };
    assert_eq!(intersection.x(), 50);
    assert_eq!(intersection.y(), 50);
    assert_eq!(intersection.width(), 50);
    assert_eq!(intersection.height(), 50);
}

#[test]
fn test_geometry_parsing() {
    let geometry: Box = "100,200 800x600".parse().unwrap();
    assert_eq!(geometry.x(), 100);
    assert_eq!(geometry.y(), 200);
    assert_eq!(geometry.width(), 800);
    assert_eq!(geometry.height(), 600);
}

#[test]
fn box_parse_rejects_space_separated_components() {
    assert!("10 20 300x400".parse::<Box>().is_err());
}

#[test]
fn box_parse_rejects_all_comma_form() {
    assert!("10,20,300x400".parse::<Box>().is_err());
}

#[test]
fn box_parse_rejects_empty_and_partial_texts() {
    assert!("".parse::<Box>().is_err());
    assert!("10,20".parse::<Box>().is_err());
    assert!("10,20 300".parse::<Box>().is_err());
    assert!("a,b cxd".parse::<Box>().is_err());
    assert!("10,20  300x400".parse::<Box>().is_err());
}

#[test]
fn box_parse_accepts_negative_coordinates() {
    let b: Box = "-5,-7 30x40".parse().unwrap();
    assert_eq!(b.x(), -5);
    assert_eq!(b.y(), -7);
    assert_eq!(b.width(), 30);
    assert_eq!(b.height(), 40);
}

#[test]
fn box_text_round_trips_through_parse() {
    let cases = [
        Box::new(10, 20, 300, 400),
        Box::new(-5, -7, 30, 40),
        Box::new(0, 0, 1, 1),
        Box::new(-2147483648, 2147483647, 0, -1),
    ];
    for b in cases {
        let text = b.to_text();
        let parsed: Box = text.parse().unwrap();
        assert_eq!(parsed, b);
    }
    assert_eq!(Box::new(10, 20, 300, 400).to_text(), "10,20 300x400");
}

#[test]
fn box_intersection_of_disjoint_boxes_is_none() {
    let a = Box::new(0, 0, 10, 10);
    let b = Box::new(20, 20, 5, 5);
    assert!(!a.intersects(&b));
    assert!(a.intersection(&b).is_none());
}

#[test]
fn box_intersection_with_empty_operand_is_none() {
    let a = Box::new(0, 0, 0, 10);
    let b = Box::new(0, 0, 10, 10);
    assert!(a.intersection(&b).is_none());
    assert!(b.intersection(&a).is_none());
    let c = Box::new(0, 0, 10, -3);
    assert!(b.intersection(&c).is_none());
}

#[test]
fn box_intersection_concrete_small_boxes() {
    let a = Box::new(0, 0, 4, 4);
    let inter = a.intersection(&Box::new(2, 2, 4, 4)).unwrap();
    assert_eq!(inter, Box::new(2, 2, 2, 2));
}
