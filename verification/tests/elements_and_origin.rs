use rust_o_mapper::map::elements::{read_points, Element, ElementsBag, PointNode};
use rust_o_mapper::map_file::reading::Node;

fn attrs(list: &[(&str, &str)]) -> Vec<(String, String)> {
    list.iter().map(|(k, v)| (k.to_string(), v.to_string())).collect()
}

fn node(name: &str, list: &[(&str, &str)], children: Vec<Node>) -> Node {
    let mut n = Node::new(name.to_string(), attrs(list), 0);
    n.children = children;
    n
}

fn coords(text: &str) -> Node {
    let mut c = node("coords", &[], vec![]);
    c.set_inner_text(text.to_string());
    c
}

fn object(symbol: &str, points: &str) -> Node {
    node("object", &[("type", "1"), ("symbol", symbol)], vec![coords(points)])
}

fn point(x: i64, y: i64) -> PointNode {
    PointNode { x, y, bayesian: false, back_to_start: false }
}

#[test]
fn reads_a_point_and_its_flag() {
    assert_eq!(PointNode::new_from_string("12 -3"), point(12, -3));
    let p = PointNode::new_from_string(" 1\t2 1 ");
    assert!(p.bayesian && !p.back_to_start);
    let p = PointNode::new_from_string("1 2 2");
    assert!(!p.bayesian && p.back_to_start);
    let p = PointNode::new_from_string("1 2 0");
    assert!(!p.bayesian && p.back_to_start);
}

#[test]
fn reads_the_points_of_a_coords_text() {
    let pts = read_points(&"10 20;30 -5 1;;40 50;".to_string());
    assert_eq!(pts.len(), 3);
    assert_eq!((pts[0].x, pts[0].y), (10, 20));
    assert!(pts[1].bayesian);
    assert_eq!((pts[2].x, pts[2].y), (40, 50));
}

#[test]
fn reads_an_object_with_its_bounding_box() {
    let e = Element::elements_from_object_node(&object("5", "10 20;30 -5 1;40 50;"));
    assert_eq!(e.element_type, 1);
    assert_eq!(e.symbol, 5);
    assert_eq!(e.coordinates.len(), 3);
    assert_eq!((e.min_x, e.max_x, e.min_y, e.max_y), (Some(10), Some(40), Some(-5), Some(50)));
    assert_eq!(e.pattern_rotation, "0");
    assert_eq!((e.pattern_rotation_x, e.pattern_rotation_y), (0, 0));
}

#[test]
fn reads_the_pattern_of_an_object() {
    let pattern = node("pattern", &[("rotation", "0.5")], vec![node("coord", &[("x", "3"), ("y", "-4")], vec![])]);
    let mut o = object("2", "1 1;");
    o.children.push(pattern);
    let e = Element::elements_from_object_node(&o);
    assert_eq!(e.pattern_rotation, "0.5");
    assert_eq!((e.pattern_rotation_x, e.pattern_rotation_y), (3, -4));
}

fn parts() -> Node {
    node(
        "parts",
        &[],
        vec![
            node("part", &[], vec![node("objects", &[], vec![object("1", "10 20;30 40;"), object("2", "-5 100;")])]),
            node("part", &[], vec![node("objects", &[], vec![object("3", "7 -8;")])]),
        ],
    )
}

#[test]
fn reads_every_object_of_every_part() {
    let bag = ElementsBag::elements_from_parts(&parts());
    let symbols: Vec<i32> = bag.bag.iter().map(|e| e.symbol).collect();
    assert_eq!(symbols, vec![1, 2, 3]);
    assert_eq!((bag.min_x, bag.max_x, bag.min_y, bag.max_y), (Some(-5), Some(30), Some(-8), Some(100)));
    // Every point lies inside the bounding box.
    for e in &bag.bag {
        for p in &e.coordinates {
            assert!(bag.min_x.unwrap() <= p.x && p.x <= bag.max_x.unwrap());
            assert!(bag.min_y.unwrap() <= p.y && p.y <= bag.max_y.unwrap());
        }
    }
}

#[test]
fn an_empty_parts_element_gives_no_bounds() {
    let bag = ElementsBag::elements_from_parts(&node("parts", &[], vec![]));
    assert_eq!(bag.bag.len(), 0);
    assert_eq!(bag.min_x, None);
}

#[test]
fn moving_the_origin_shifts_every_coordinate() {
    let mut e = Element::elements_from_object_node(&object("5", "10 20;30 -5;"));
    e.change_origin(10, -5);
    assert_eq!((e.coordinates[0].x, e.coordinates[0].y), (0, 25));
    assert_eq!((e.coordinates[1].x, e.coordinates[1].y), (20, 0));
    assert_eq!((e.min_x, e.max_x, e.min_y, e.max_y), (Some(0), Some(20), Some(0), Some(25)));
    assert_eq!((e.pattern_rotation_x, e.pattern_rotation_y), (-10, 5));
}

#[test]
fn moving_the_origin_there_and_back_changes_nothing() {
    let before = ElementsBag::elements_from_parts(&parts());
    let mut bag = ElementsBag::elements_from_parts(&parts());
    bag.change_origin(17, -3);
    bag.change_origin(-17, 3);
    assert_eq!(bag.bag.len(), before.bag.len());
    for (a, b) in bag.bag.iter().zip(before.bag.iter()) {
        assert_eq!(a.coordinates, b.coordinates);
        assert_eq!((a.min_x, a.max_x, a.min_y, a.max_y), (b.min_x, b.max_x, b.min_y, b.max_y));
        assert_eq!((a.pattern_rotation_x, a.pattern_rotation_y), (b.pattern_rotation_x, b.pattern_rotation_y));
    }
    assert_eq!((bag.min_x, bag.max_x, bag.min_y, bag.max_y), (before.min_x, before.max_x, before.min_y, before.max_y));
}

#[test]
fn normalizing_puts_the_lower_corner_at_the_origin() {
    let mut bag = ElementsBag::elements_from_parts(&parts());
    bag.normalize_origin();
    assert_eq!((bag.min_x, bag.min_y), (Some(0), Some(0)));
    assert_eq!((bag.max_x, bag.max_y), (Some(35), Some(108)));
    for e in &bag.bag {
        for p in &e.coordinates {
            assert!(p.x >= 0 && p.y >= 0);
        }
    }
    assert_eq!((bag.bag[2].coordinates[0].x, bag.bag[2].coordinates[0].y), (12, 0));
}

#[test]
fn the_last_coords_and_pattern_of_an_object_are_read() {
    let mut o = object("4", "1 1;");
    o.children.push(coords("7 8;9 10;"));
    o.children.push(node("pattern", &[("rotation", "1")], vec![node("coord", &[("x", "1"), ("y", "1")], vec![])]));
    o.children.push(node(
        "pattern",
        &[("rotation", "2")],
        vec![node("coord", &[("x", "5"), ("y", "6")], vec![]), node("coord", &[("x", "7"), ("y", "-8")], vec![])],
    ));
    let e = Element::elements_from_object_node(&o);
    assert_eq!(e.coordinates.len(), 2);
    assert_eq!((e.min_x, e.max_x, e.min_y, e.max_y), (Some(7), Some(9), Some(8), Some(10)));
    assert_eq!(e.pattern_rotation, "2");
    assert_eq!((e.pattern_rotation_x, e.pattern_rotation_y), (7, -8));
}
