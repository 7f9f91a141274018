use rust_o_mapper::map::elements::{ElementsBag, PointNode};
use rust_o_mapper::map::symbols::area::AreaSymbol;
use rust_o_mapper::map::symbols::geometric_shape::{
    from_number_to_vec_of_nodes, Circle, GeometricShape, GeometricShapesBag, Line, Node as PathNode, Point,
    Ring, Shape,
};
use rust_o_mapper::map::symbols::linear::LinearSymbol;
use rust_o_mapper::map::symbols::text::TextSymbol;
use rust_o_mapper::map::symbols::{AnySymbol, Symbol, SymbolCommon, SymbolsBag};
use rust_o_mapper::map_file::reading::Node;

fn attrs(list: &[(&str, &str)]) -> Vec<(String, String)> {
    list.iter().map(|(k, v)| (k.to_string(), v.to_string())).collect()
}

fn node(name: &str, list: &[(&str, &str)], children: Vec<Node>) -> Node {
    let mut n = Node::new(name.to_string(), attrs(list), 0);
    n.children = children;
    n
}

fn coords(text: &str) -> Node {
    let mut c = node("coords", &[], vec![]);
    c.set_inner_text(text.to_string());
    c
}

fn point_symbol(inner_radius: &str, inner_color: &str, outer_width: &str, outer_color: &str, children: Vec<Node>) -> Node {
    node(
        "point_symbol",
        &[
            ("inner_radius", inner_radius),
            ("inner_color", inner_color),
            ("outer_width", outer_width),
            ("outer_color", outer_color),
        ],
        children,
    )
}

fn element(symbol: Node, points: &str) -> Node {
    node("element", &[], vec![symbol, node("object", &[], vec![coords(points)])])
}

fn symbols_node() -> Node {
    node(
        "symbols",
        &[],
        vec![
            node("symbol", &[("type", "2"), ("id", "10"), ("code", "501"), ("name", "Road")], vec![]),
            node("symbol", &[("type", "4"), ("id", "11"), ("code", "401"), ("name", "Field")], vec![node("area_symbol", &[("inner_color", "7")], vec![])]),
            node("symbol", &[("type", "4"), ("id", "12"), ("code", "402")], vec![node("area_symbol", &[("inner_color", "-1")], vec![])]),
            node("symbol", &[("type", "8"), ("id", "13"), ("code", "T")], vec![]),
            node("symbol", &[("type", "16"), ("id", "14"), ("code", "X")], vec![]),
            node(
                "symbol",
                &[("type", "1"), ("id", "15"), ("code", "101"), ("description", "A knoll")],
                vec![point_symbol(
                    "100",
                    "3",
                    "50",
                    "4",
                    vec![
                        element(
                            node("symbol", &[("type", "2"), ("code", "l")], vec![node("line_symbol", &[("color", "5"), ("line_width", "30")], vec![])]),
                            "0 0;10 0;",
                        ),
                        element(
                            node("symbol", &[("type", "4"), ("code", "a")], vec![node("area_symbol", &[("inner_color", "-1")], vec![])]),
                            "0 0;1 1;",
                        ),
                        element(
                            node("symbol", &[("type", "1"), ("code", "p")], vec![point_symbol("0", "-1", "20", "6", vec![])]),
                            "5 5;",
                        ),
                    ],
                )],
            ),
            node("not_a_symbol", &[], vec![]),
        ],
    )
}

#[test]
fn reads_the_common_part_of_a_symbol() {
    let c = SymbolCommon::new_from_node(&node("symbol", &[("type", "2"), ("id", "-4"), ("code", "x")], vec![])).unwrap();
    assert_eq!((c.symbol_type.as_str(), c.id, c.code.as_str(), c.name.as_str(), c.description.as_str()), ("2", -4, "x", "", ""));
    let c = SymbolCommon::new_from_node(&node("symbol", &[("type", "2"), ("code", "x")], vec![])).unwrap();
    assert_eq!(c.id, 0);
    assert!(SymbolCommon::new_from_node(&node("symbol", &[("type", "2")], vec![])).is_none());
    assert!(SymbolCommon::new_from_node(&node("symbol", &[("code", "2")], vec![])).is_none());
}

#[test]
fn reads_every_kind_of_symbol() {
    let bag = SymbolsBag::symbols_from_a_node(&symbols_node()).unwrap();
    assert_eq!(bag.len(), 5);
    assert!(bag.symbol_by_id(14).is_none());
    assert_eq!(bag.symbol_by_id(10).unwrap().get_symbol_type(), "linear");
    assert_eq!(bag.symbol_by_id(11).unwrap().get_symbol_type(), "area");
    assert_eq!(bag.symbol_by_id(13).unwrap().get_symbol_type(), "test");
    assert_eq!(bag.symbol_by_id(15).unwrap().get_symbol_type(), "punctual");
    assert_eq!(bag.symbol_by_id(15).unwrap().get_id(), 15);
    match bag.symbol_by_id(11).unwrap() {
        AnySymbol::Area(a) => {
            assert_eq!(a.inner_color, Some(7));
            assert_eq!(a.name, "Field");
            assert_eq!(a.geometric_shapes.len(), 1);
            assert_eq!(a.geometric_shapes[0].get_color(), 7);
        },
        _ => panic!("not an area symbol"),
    }
    match bag.symbol_by_id(12).unwrap() {
        AnySymbol::Area(a) => {
            assert_eq!(a.inner_color, None);
            assert_eq!(a.geometric_shapes.len(), 0);
        },
        _ => panic!("not an area symbol"),
    }
}

#[test]
fn reads_the_shapes_of_a_punctual_symbol() {
    let bag = SymbolsBag::symbols_from_a_node(&symbols_node()).unwrap();
    let shapes = bag.symbol_by_id(15).unwrap().get_geometric_shapes();
    assert_eq!(shapes.len(), 4);
    match &shapes[0] {
        Shape::Ring(r) => assert_eq!(*r, Ring { x: 0, y: 0, inner_radius: 100, outer_width: 50, color: 4 }),
        s => panic!("expected a ring, got {:?}", s),
    }
    match &shapes[1] {
        Shape::Circle(c) => assert_eq!(*c, Circle { x: 0, y: 0, radius: 100, color: 3 }),
        s => panic!("expected a circle, got {:?}", s),
    }
    match &shapes[2] {
        Shape::Line(l) => {
            assert_eq!((l.color, l.line_width), (5, 30));
            assert_eq!(l.nodes.len(), 2);
            assert_eq!(l.nodes[1].point, Point { x: 10, y: 0 });
        },
        s => panic!("expected a line, got {:?}", s),
    }
    match &shapes[3] {
        Shape::Circle(c) => assert_eq!(*c, Circle { x: 5, y: 5, radius: 20, color: 6 }),
        s => panic!("expected a circle, got {:?}", s),
    }
}

#[test]
fn a_symbol_that_lacks_a_part_ends_the_reading() {
    let n = node("symbols", &[], vec![node("symbol", &[("type", "4"), ("id", "1"), ("code", "c")], vec![])]);
    assert!(SymbolsBag::symbols_from_a_node(&n).is_none());
    let n = node("symbols", &[], vec![node("symbol", &[("type", "1"), ("id", "1"), ("code", "c")], vec![])]);
    assert!(SymbolsBag::symbols_from_a_node(&n).is_none());
}

#[test]
fn a_later_symbol_replaces_one_with_the_same_id() {
    let n = node(
        "symbols",
        &[],
        vec![
            node("symbol", &[("type", "2"), ("id", "1"), ("code", "a")], vec![]),
            node("symbol", &[("type", "8"), ("id", "1"), ("code", "b")], vec![]),
        ],
    );
    let bag = SymbolsBag::symbols_from_a_node(&n).unwrap();
    assert_eq!(bag.len(), 1);
    assert_eq!(bag.symbol_by_id(1).unwrap().get_symbol_type(), "test");
}

#[test]
fn builds_symbols_directly() {
    let a = AreaSymbol::new(3, "c".to_string(), "n".to_string(), "d".to_string());
    assert_eq!((a.get_id(), a.inner_color, a.geometric_shapes.len()), (3, None, 0));
    let common = SymbolCommon { symbol_type: "2".to_string(), id: 9, code: "c".to_string(), name: "n".to_string(), description: "d".to_string() };
    let l = LinearSymbol::symbol_from_a_node(&common, &node("symbol", &[], vec![])).unwrap();
    assert_eq!((l.get_id(), l.get_symbol_type().as_str(), l.geometric_shapes.len()), (9, "linear", 0));
    let t = TextSymbol::symbol_from_a_node(&common, &node("symbol", &[], vec![])).unwrap();
    assert_eq!((t.get_id(), t.get_symbol_type().as_str()), (9, "test"));
}

fn p(x: i64, y: i64, bayesian: bool) -> PointNode {
    PointNode { x, y, bayesian, back_to_start: false }
}

#[test]
fn turns_points_into_path_nodes() {
    let nodes = from_number_to_vec_of_nodes(vec![p(0, 0, false), p(10, 0, true), p(10, 5, false), p(0, 5, false), p(0, 10, false)]);
    assert_eq!(nodes.len(), 3);
    assert_eq!(nodes[0], PathNode { point: Point { x: 0, y: 0 }, left_branch: None, right_branch: None });
    assert_eq!(nodes[1], PathNode { point: Point { x: 10, y: 0 }, left_branch: None, right_branch: Some(Point { x: 10, y: 5 }) });
    assert_eq!(nodes[2], PathNode { point: Point { x: 0, y: 10 }, left_branch: Some(Point { x: 0, y: 5 }), right_branch: None });
}

#[test]
fn moving_a_shape_there_and_back_changes_nothing() {
    let r = Ring { x: 1, y: 2, inner_radius: 3, outer_width: 4, color: 5 };
    assert_eq!(r.move_by(10, -20).move_by(-10, 20), r);
    assert_eq!(r.move_by(10, -20), Ring { x: 11, y: -18, ..r });
    let c = Circle { x: 1, y: 2, radius: 3, color: 5 };
    assert_eq!(c.move_by(1, 1).move_by(2, 3), c.move_by(3, 4));
    let l = Line { color: 1, line_width: 2, nodes: from_number_to_vec_of_nodes(vec![p(0, 0, true), p(1, 1, false), p(2, 2, false), p(3, 3, false)]) };
    let moved = l.move_by(5, 6);
    assert_eq!(moved.nodes[0].right_branch, Some(Point { x: 6, y: 7 }));
    assert_eq!(moved.nodes[1].left_branch, Some(Point { x: 7, y: 8 }));
    assert_eq!(moved.nodes[1].point, Point { x: 8, y: 9 });
    assert_eq!(moved.move_by(-5, -6).nodes, l.nodes);
}

#[test]
fn places_punctual_shapes_and_orders_them_by_color() {
    let symbols = SymbolsBag::symbols_from_a_node(&symbols_node()).unwrap();
    let mut o1 = node("object", &[("type", "0"), ("symbol", "15")], vec![coords("100 200;")]);
    o1.indentation_level = 3;
    let o2 = node("object", &[("type", "1"), ("symbol", "11")], vec![coords("0 0;5 5;")]);
    let parts = node("parts", &[], vec![node("part", &[], vec![node("objects", &[], vec![o1, o2])])]);
    let elements = ElementsBag::elements_from_parts(&parts);
    let bag = GeometricShapesBag::from_elements_bag(&elements, &symbols);
    let colors: Vec<u32> = bag.bag.iter().map(|s| s.get_color()).collect();
    assert_eq!(colors, vec![6, 5, 4, 3]);
    match &bag.bag[3] {
        Shape::Circle(c) => assert_eq!((c.x, c.y, c.radius), (100, 200, 100)),
        s => panic!("expected a circle, got {:?}", s),
    }
    match &bag.bag[0] {
        Shape::Circle(c) => assert_eq!((c.x, c.y, c.radius), (105, 205, 20)),
        s => panic!("expected a circle, got {:?}", s),
    }
    match &bag.bag[1] {
        Shape::Line(l) => assert_eq!(l.nodes[1].point, Point { x: 110, y: 200 }),
        s => panic!("expected a line, got {:?}", s),
    }
}
