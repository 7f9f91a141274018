use rust_o_mapper::map::elements::{Element, ElementsBag, PointNode};
use rust_o_mapper::map::symbols::geometric_shape::{
    from_number_to_vec_of_nodes, Area, Circle, GeometricShapesBag, Line, Point, Ring, Shape,
};
use rust_o_mapper::map::symbols::svg::{area_path_commands, MapSVG, PathCommand};
use rust_o_mapper::map::symbols::SymbolsBag;
use rust_o_mapper::map::yaml_encoding::{
    elements_to_yaml, geometric_shapes_to_yaml, symbols_to_yaml, ElementYaml, GeometricShapeBox,
};
use rust_o_mapper::map_file::reading::Node;

fn attrs(list: &[(&str, &str)]) -> Vec<(String, String)> {
    list.iter().map(|(k, v)| (k.to_string(), v.to_string())).collect()
}

fn node(name: &str, list: &[(&str, &str)], children: Vec<Node>) -> Node {
    let mut n = Node::new(name.to_string(), attrs(list), 0);
    n.children = children;
    n
}

fn coords(text: &str) -> Node {
    let mut c = node("coords", &[], vec![]);
    c.set_inner_text(text.to_string());
    c
}

fn symbols() -> SymbolsBag {
    let n = node(
        "symbols",
        &[],
        vec![
            node("symbol", &[("type", "4"), ("id", "11"), ("code", "401"), ("name", "Field")], vec![node("area_symbol", &[("inner_color", "7")], vec![])]),
            node("symbol", &[("type", "2"), ("id", "10"), ("code", "501"), ("name", "Road")], vec![]),
            node(
                "symbol",
                &[("type", "1"), ("id", "15"), ("code", "101")],
                vec![node("point_symbol", &[("inner_radius", "10"), ("inner_color", "3"), ("outer_width", "5"), ("outer_color", "4")], vec![])],
            ),
            node("symbol", &[("type", "8"), ("id", "13"), ("code", "T"), ("description", "label")], vec![]),
        ],
    );
    SymbolsBag::symbols_from_a_node(&n).unwrap()
}

fn elements() -> ElementsBag {
    let mut with_pattern = node("object", &[("type", "1"), ("symbol", "10")], vec![coords("1 1;2 2;")]);
    with_pattern.children.push(node("pattern", &[("rotation", "1.5")], vec![node("coord", &[("x", "3"), ("y", "4")], vec![])]));
    let objects = vec![
        node("object", &[("type", "1"), ("symbol", "11")], vec![coords("0 0;10 0 1;10 5;0 5;0 10;")]),
        with_pattern,
        node("object", &[("type", "0"), ("symbol", "15")], vec![coords("20 30;")]),
        node("object", &[("type", "0"), ("symbol", "99")], vec![coords("-1 -1;")]),
    ];
    ElementsBag::elements_from_parts(&node("parts", &[], vec![node("part", &[], vec![node("objects", &[], objects)])]))
}

fn p(x: i64, y: i64) -> Point {
    Point { x, y }
}

#[test]
fn draws_a_path_through_the_nodes() {
    let nodes = from_number_to_vec_of_nodes(vec![
        PointNode { x: 0, y: 0, bayesian: false, back_to_start: false },
        PointNode { x: 10, y: 0, bayesian: true, back_to_start: false },
        PointNode { x: 10, y: 5, bayesian: false, back_to_start: false },
        PointNode { x: 0, y: 5, bayesian: false, back_to_start: false },
        PointNode { x: 0, y: 10, bayesian: false, back_to_start: false },
    ]);
    let commands = area_path_commands(&nodes);
    assert_eq!(commands, vec![PathCommand::MoveTo(p(0, 0)), PathCommand::LineTo(p(10, 0)), PathCommand::CubicTo(p(10, 5), p(0, 5), p(0, 10))]);
    assert_eq!(area_path_commands(&vec![]), vec![]);
}

#[test]
fn pictures_the_elements_drawn_with_area_symbols() {
    let svg = MapSVG::from_elements_and_symbols(&elements(), &symbols());
    assert_eq!(svg.view_box, (-1, -1, 20, 30));
    assert_eq!(svg.paths.len(), 1);
    assert_eq!(svg.paths[0].color, 7);
    assert_eq!(svg.paths[0].commands.len(), 3);
    assert_eq!(svg.paths[0].commands[2], PathCommand::CubicTo(p(10, 5), p(0, 5), p(0, 10)));
}

#[test]
fn sorts_the_symbols_by_kind_for_the_viewer() {
    let y = symbols_to_yaml(&symbols());
    assert_eq!(y.num, 4);
    assert_eq!(y.punctual_symbols.len(), 1);
    assert_eq!(y.linear_symbols.len(), 1);
    assert_eq!(y.area_symbols.len(), 1);
    assert_eq!(y.text_symbols.len(), 1);
    let punctual = &y.punctual_symbols[&15];
    assert_eq!(punctual.rings, vec![Ring { x: 0, y: 0, inner_radius: 10, outer_width: 5, color: 4 }]);
    assert_eq!(punctual.circles, vec![Circle { x: 0, y: 0, radius: 10, color: 3 }]);
    assert!(punctual.lines.is_empty() && punctual.areas.is_empty() && punctual.texts.is_empty());
    assert_eq!(y.area_symbols[&11].name, "Field");
    assert_eq!(y.linear_symbols[&10].code, "501");
    assert_eq!(y.text_symbols[&13].description, "label");
}

#[test]
fn describes_the_elements_whose_symbol_is_known() {
    let bag = elements();
    let y = elements_to_yaml(&bag, &symbols());
    assert_eq!(y.num, 3);
    let families: Vec<&str> = y.elements.iter().map(|e| e.element_family.as_str()).collect();
    assert_eq!(families, vec!["area", "linear", "punctual"]);
    // The pattern's x and y go out swapped.
    assert_eq!((y.elements[1].pattern_rotation_x, y.elements[1].pattern_rotation_y), (4, 3));
    assert_eq!(y.elements[1].pattern_rotation, "1.5");
    let e: &Element = &bag.bag[3];
    assert!(ElementYaml::from_element(e, &symbols()).is_none());
}

#[test]
fn boxes_each_shape_by_its_kind() {
    let ring = GeometricShapeBox::new(&Shape::Ring(Ring { x: 1, y: 2, inner_radius: 3, outer_width: 4, color: 5 }));
    assert!(ring.ring.is_some() && ring.circle.is_none() && ring.line.is_none() && ring.area.is_none() && ring.text.is_none());
    let area = GeometricShapeBox::new(&Shape::Area(Area { color: 8, nodes: vec![] }));
    assert_eq!(area.area.as_ref().unwrap().color, 8);
    assert!(area.ring.is_none());
    let line = GeometricShapeBox::new(&Shape::Line(Line { color: 2, line_width: 9, nodes: vec![] }));
    assert_eq!(line.line.as_ref().unwrap().line_width, 9);
    let bag = GeometricShapesBag::from_elements_bag(&elements(), &symbols());
    let y = geometric_shapes_to_yaml(&bag);
    assert_eq!(y.num, 2);
    assert_eq!(y.g_shapes[0].ring, Some(Ring { x: 20, y: 30, inner_radius: 10, outer_width: 5, color: 4 }));
    assert_eq!(y.g_shapes[1].circle, Some(Circle { x: 20, y: 30, radius: 10, color: 3 }));
}
