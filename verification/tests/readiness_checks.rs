use rust_o_mapper::map::elements::{object_readable, parts_readable, points_text_readable, Element, ElementsBag, PointNode};
use rust_o_mapper::map::symbols::geometric_shape::{
    nodes_readable, shape_can_move, shapes_placeable, Circle, Line, Node as PathNode, Point, Ring, Shape,
};
use rust_o_mapper::map::symbols::punctual::PunctualSymbol;
use rust_o_mapper::map::symbols::svg::paths_drawable;
use rust_o_mapper::map::symbols::{common_is_readable, Outcome, SymbolCommon, SymbolsBag};
use rust_o_mapper::map_file::reading::{Node, XmlEvent};
use rust_o_mapper::xml_objects::{Object, ObjectBuilder};

fn attrs(list: &[(&str, &str)]) -> Vec<(String, String)> {
    list.iter().map(|(k, v)| (k.to_string(), v.to_string())).collect()
}

fn node(name: &str, list: &[(&str, &str)], children: Vec<Node>) -> Node {
    let mut n = Node::new(name.to_string(), attrs(list), 0);
    n.children = children;
    n
}

fn coords(text: &str) -> Node {
    let mut c = node("coords", &[], vec![]);
    c.set_inner_text(text.to_string());
    c
}

fn object(symbol: &str, points: &str) -> Node {
    node("object", &[("type", "1"), ("symbol", symbol)], vec![coords(points)])
}

fn p(x: i64, y: i64, bayesian: bool) -> PointNode {
    PointNode { x, y, bayesian, back_to_start: false }
}

#[test]
fn checks_the_text_of_points() {
    assert!(points_text_readable(&"1 2;3 4 1;".to_string()));
    assert!(points_text_readable(&"".to_string()));
    assert!(!points_text_readable(&"1;".to_string()));
    assert!(!points_text_readable(&"1 x;".to_string()));
    assert!(!points_text_readable(&"1 99999999999999999999;".to_string()));
}

#[test]
fn checks_that_objects_can_be_read() {
    assert!(object_readable(&object("3", "1 2;")));
    assert!(!object_readable(&object("3", ";;")));
    assert!(!object_readable(&object("x", "1 2;")));
    assert!(!object_readable(&node("object", &[("type", "1"), ("symbol", "3")], vec![])));
    let mut with_bad_pattern = object("3", "1 2;");
    with_bad_pattern.children.push(node("pattern", &[("rotation", "a")], vec![node("coord", &[("x", "1"), ("y", "1")], vec![])]));
    assert!(!object_readable(&with_bad_pattern));
    let parts = node("parts", &[], vec![node("part", &[], vec![node("objects", &[], vec![object("1", "0 0;")])])]);
    assert!(parts_readable(&parts));
    let parts = node("parts", &[], vec![node("part", &[], vec![])]);
    assert!(!parts_readable(&parts));
}

#[test]
fn checks_that_the_origin_can_move() {
    let e = Element::elements_from_object_node(&object("3", "9223372036854775807 0;"));
    assert!(e.can_change_origin(1, 0));
    assert!(!e.can_change_origin(-1, 0));
    let bag = ElementsBag::elements_from_parts(&node("parts", &[], vec![]));
    assert!(!bag.can_normalize_origin());
    let bag = ElementsBag::elements_from_parts(&node(
        "parts",
        &[],
        vec![node("part", &[], vec![node("objects", &[], vec![object("1", "-9223372036854775808 5;9223372036854775807 5;")])])],
    ));
    assert!(!bag.can_normalize_origin());
    assert!(bag.can_change_origin(0, 0));
}

#[test]
fn checks_paths_and_moves() {
    assert!(nodes_readable(&vec![p(0, 0, true), p(1, 1, false), p(2, 2, false)]));
    assert!(!nodes_readable(&vec![p(0, 0, true), p(1, 1, false)]));
    assert!(nodes_readable(&vec![]));
    assert!(shape_can_move(&Shape::Ring(Ring { x: i64::MAX, y: 0, inner_radius: 1, outer_width: 1, color: 1 }), 0, 5));
    assert!(!shape_can_move(&Shape::Circle(Circle { x: i64::MAX, y: 0, radius: 1, color: 1 }), 1, 0));
    let line = Line {
        color: 1,
        line_width: 1,
        nodes: vec![PathNode { point: Point { x: 0, y: 0 }, left_branch: Some(Point { x: 0, y: i64::MIN }), right_branch: None }],
    };
    assert!(!shape_can_move(&Shape::Line(line), 0, -1));
}

fn symbols_node(point_children: Vec<Node>) -> Node {
    node(
        "symbols",
        &[],
        vec![
            node("symbol", &[("type", "4"), ("id", "11"), ("code", "401")], vec![node("area_symbol", &[("inner_color", "7")], vec![])]),
            node(
                "symbol",
                &[("type", "1"), ("id", "15"), ("code", "101")],
                vec![node("point_symbol", &[("inner_radius", "10"), ("inner_color", "3"), ("outer_width", "5"), ("outer_color", "4")], point_children)],
            ),
        ],
    )
}

#[test]
fn tells_where_the_symbols_cannot_be_read() {
    assert!(matches!(SymbolsBag::read_symbols(&symbols_node(vec![])), Outcome::Gives(Some(_))));
    let bad_width = node(
        "element",
        &[],
        vec![
            node("symbol", &[("type", "2"), ("code", "l")], vec![node("line_symbol", &[("color", "5"), ("line_width", "wide")], vec![])]),
            node("object", &[], vec![coords("0 0;1 1;")]),
        ],
    );
    assert!(matches!(SymbolsBag::read_symbols(&symbols_node(vec![bad_width])), Outcome::Aborts));
    let no_object = node("element", &[], vec![node("symbol", &[("type", "2"), ("code", "l")], vec![])]);
    assert!(matches!(SymbolsBag::read_symbols(&symbols_node(vec![no_object])), Outcome::Aborts));
    let no_line_symbol = node("element", &[], vec![node("symbol", &[("type", "2"), ("code", "l")], vec![]), node("object", &[], vec![coords("0 0;")])]);
    assert!(matches!(SymbolsBag::read_symbols(&symbols_node(vec![no_line_symbol])), Outcome::Gives(None)));
    let two_points = node(
        "element",
        &[],
        vec![node("symbol", &[("type", "1"), ("code", "p")], vec![]), node("object", &[], vec![coords("0 0;1 1;")])],
    );
    assert!(matches!(SymbolsBag::read_symbols(&symbols_node(vec![two_points])), Outcome::Aborts));
    let bad_id = node("symbols", &[], vec![node("symbol", &[("type", "2"), ("id", "x"), ("code", "c")], vec![])]);
    assert!(matches!(SymbolsBag::read_symbols(&bad_id), Outcome::Aborts));
    assert!(!common_is_readable(&node("symbol", &[("type", "2"), ("id", "x")], vec![])));
    assert!(common_is_readable(&node("symbol", &[("id", "x")], vec![])));
    let common = SymbolCommon { symbol_type: "1".to_string(), id: 1, code: "c".to_string(), name: String::new(), description: String::new() };
    let bad_radius = node("symbol", &[], vec![node("point_symbol", &[("inner_radius", "-1"), ("inner_color", "1"), ("outer_width", "1"), ("outer_color", "1")], vec![])]);
    assert!(matches!(PunctualSymbol::read_from_a_node(&common, &bad_radius), Outcome::Aborts));
}

#[test]
fn checks_that_the_map_can_be_drawn() {
    let symbols = SymbolsBag::symbols_from_a_node(&symbols_node(vec![])).unwrap();
    let parts = node("parts", &[], vec![node("part", &[], vec![node("objects", &[], vec![object("11", "0 0 1;")])])]);
    let elements = ElementsBag::elements_from_parts(&parts);
    assert!(!paths_drawable(&elements, &symbols));
    assert!(shapes_placeable(&elements, &symbols));
    let parts = node("parts", &[], vec![node("part", &[], vec![node("objects", &[], vec![object("11", "0 0;"), object("15", "9223372036854775807 0;")])])]);
    let elements = ElementsBag::elements_from_parts(&parts);
    assert!(paths_drawable(&elements, &symbols));
    // The ring and the disc sit at the point itself: they can be placed.
    assert!(shapes_placeable(&elements, &symbols));
    let line = node(
        "element",
        &[],
        vec![
            node("symbol", &[("type", "2"), ("code", "l")], vec![node("line_symbol", &[("color", "5"), ("line_width", "1")], vec![])]),
            node("object", &[], vec![coords("1 1;2 2;")]),
        ],
    );
    let symbols = SymbolsBag::symbols_from_a_node(&symbols_node(vec![line])).unwrap();
    // A line of the symbol would leave the range of an i64.
    assert!(!shapes_placeable(&elements, &symbols));
    let empty = ElementsBag::elements_from_parts(&node("parts", &[], vec![]));
    assert!(!paths_drawable(&empty, &symbols));
}

#[test]
fn checks_the_levels_and_the_ends_of_elements() {
    let mut n = node("a", &[], vec![node("b", &[], vec![])]);
    assert!(n.levels_are_nonnegative());
    n.children[0].indentation_level = -1;
    assert!(!n.levels_are_nonnegative());
    let b = ObjectBuilder::new(Object::new("r".to_string(), Some(vec![]), 0));
    assert!(b.accepts(&XmlEvent::End("r".to_string())));
    assert!(!b.accepts(&XmlEvent::End("q".to_string())));
    assert!(!b.accepts(&XmlEvent::Error));
    assert!(b.accepts(&XmlEvent::Eof));
}
