use rust_o_mapper::map::colors::{
    color_plans, float_attribute_text, get_string_rgb, parse_cmyk, parse_cmyk_method, parse_color_attributes,
    parse_knockout, parse_method_str, parse_rgb, parse_rgb_method, parse_spotcolor_definition, CmykMethod,
    ColorPlan, ColorSource, RgbMethod,
};
use rust_o_mapper::map_file::reading::Node;

fn attrs(list: &[(&str, &str)]) -> Vec<(String, String)> {
    list.iter().map(|(k, v)| (k.to_string(), v.to_string())).collect()
}

fn node(name: &str, list: &[(&str, &str)], children: Vec<Node>) -> Node {
    let mut n = Node::new(name.to_string(), attrs(list), 0);
    n.children = children;
    n
}

fn color(priority: &str, name: &str, children: Vec<Node>) -> Node {
    node(
        "color",
        &[("priority", priority), ("name", name), ("c", "0.1"), ("m", "0.2"), ("y", "0"), ("k", "1"), ("opacity", "0.5")],
        children,
    )
}

fn cmyk(method: &str) -> Node {
    node("cmyk", &[("method", method)], vec![])
}

fn rgb(method: &str) -> Node {
    node("rgb", &[("method", method), ("r", "1"), ("g", "0.5"), ("b", "0")], vec![])
}

fn component(factor: &str, spotcolor: &str) -> Node {
    node("component", &[("factor", factor), ("spotcolor", spotcolor)], vec![])
}

fn colors_node() -> Node {
    node(
        "colors",
        &[],
        vec![
            color("1", "Black", vec![cmyk("custom"), rgb("cmyk")]),
            color(
                "9",
                "Purple ink",
                vec![node("spotcolors", &[("knockout", "true")], vec![node("namedcolor", &[], vec![])]), cmyk("custom"), rgb("custom")],
            ),
            color("2", "Purple 50%", vec![node("spotcolors", &[], vec![component("0.5", "9")]), cmyk("spotcolor"), rgb("spotcolor")]),
            color(
                "3",
                "Rgb tint",
                vec![
                    node("spotcolors", &[("knockout", "false")], vec![component(".25", "9"), component("x", "9"), node("other", &[], vec![])]),
                    cmyk("rgb"),
                    rgb("spotcolor"),
                ],
            ),
            color("4", "From rgb", vec![cmyk("rgb"), rgb("custom")]),
            node("color", &[("priority", "5"), ("name", "No c"), ("m", "0"), ("y", "0"), ("k", "0")], vec![cmyk("custom")]),
            color("6", "Bad method", vec![cmyk("bogus"), rgb("custom")]),
            color("7", "Tint without parts", vec![cmyk("spotcolor"), rgb("custom")]),
        ],
    )
}

fn priorities(plans: &[ColorPlan]) -> Vec<u32> {
    plans.iter().map(|p| p.attributes.priority).collect()
}

#[test]
fn writes_a_color_for_css() {
    assert_eq!(get_string_rgb(12, 0, 255), "rgb(12, 0, 255)");
    assert_eq!(get_string_rgb(0, 0, 0), "rgb(0, 0, 0)");
}

#[test]
fn reads_the_methods_of_the_two_sides() {
    assert_eq!(parse_cmyk_method(&cmyk("custom")), Some(CmykMethod::Custom));
    assert_eq!(parse_cmyk_method(&cmyk("spotcolor")), Some(CmykMethod::SpotColor));
    assert_eq!(parse_cmyk(&cmyk("rgb")), Some(CmykMethod::Rgb));
    assert_eq!(parse_cmyk(&cmyk("cmyk")), None);
    assert_eq!(parse_rgb_method(&rgb("custom")), Some(RgbMethod::Custom));
    assert_eq!(parse_rgb_method(&rgb("spotcolor")), Some(RgbMethod::SpotColor));
    assert_eq!(parse_rgb_method(&rgb("cmyk")), Some(RgbMethod::Cmyk));
    assert_eq!(parse_rgb_method(&rgb("rgb")), None);
    assert_eq!(parse_method_str(&node("cmyk", &[], vec![])), None);
    assert_eq!(parse_method_str(&cmyk("x")), Some("x".to_string()));
}

#[test]
fn reads_the_knockout_flag() {
    assert!(parse_knockout(&node("spotcolors", &[("knockout", "true")], vec![])));
    assert!(!parse_knockout(&node("spotcolors", &[("knockout", "false")], vec![])));
    assert!(!parse_knockout(&node("spotcolors", &[("knockout", "yes")], vec![])));
    assert!(!parse_knockout(&node("spotcolors", &[], vec![])));
}

#[test]
fn reads_the_attributes_of_a_color() {
    let a = parse_color_attributes(&color("34", "Yellow", vec![])).unwrap();
    assert_eq!((a.priority, a.name.as_str(), a.c.as_str(), a.k.as_str()), (34, "Yellow", "0.1", "1"));
    assert_eq!(a.opacity, Some("0.5".to_string()));
    let n = node("color", &[("priority", "1"), ("name", "x"), ("c", "0"), ("m", "0"), ("y", "0"), ("k", "0"), ("opacity", "half")], vec![]);
    assert_eq!(parse_color_attributes(&n).unwrap().opacity, None);
    let n = node("color", &[("priority", "-1"), ("name", "x"), ("c", "0"), ("m", "0"), ("y", "0"), ("k", "0")], vec![]);
    assert!(parse_color_attributes(&n).is_none());
    let n = node("color", &[("priority", "1"), ("name", "x"), ("c", "0"), ("m", "zero"), ("y", "0"), ("k", "0")], vec![]);
    assert!(parse_color_attributes(&n).is_none());
    assert_eq!(float_attribute_text(&n, "c"), Some("0".to_string()));
    assert_eq!(float_attribute_text(&n, "m"), None);
}

#[test]
fn reads_the_channels_of_an_rgb_element() {
    let (method, channels) = parse_rgb(&rgb("custom")).unwrap();
    assert_eq!(method, RgbMethod::Custom);
    assert_eq!((channels.r.as_str(), channels.g.as_str(), channels.b.as_str()), ("1", "0.5", "0"));
    assert!(parse_rgb(&node("rgb", &[("method", "custom"), ("r", "1"), ("g", "1")], vec![])).is_none());
    assert!(parse_rgb(&node("rgb", &[("method", "hsv"), ("r", "1"), ("g", "1"), ("b", "1")], vec![])).is_none());
}

#[test]
fn reads_the_parts_of_a_tint() {
    let spot = node("spotcolors", &[], vec![component("0.5", "9"), component("x", "9"), component("1", "-2"), component("1e-1", "+3")]);
    let parts = parse_spotcolor_definition(&spot).unwrap();
    let read: Vec<(&str, u32)> = parts.iter().map(|c| (c.factor.as_str(), c.spotcolor)).collect();
    assert_eq!(read, vec![("0.5", 9), ("1e-1", 3)]);
    assert!(parse_spotcolor_definition(&node("spotcolors", &[], vec![node("namedcolor", &[], vec![])])).is_none());
}

#[test]
fn plans_the_colors_in_the_order_they_are_settled() {
    let plans = color_plans(&colors_node()).unwrap();
    assert_eq!(priorities(&plans), vec![1, 9, 4, 2, 3]);
    // Given directly.
    assert!(matches!(plans[0].source, ColorSource::OwnCmyk));
    assert!(!plans[0].knockout && !plans[0].base_ink);
    assert!(matches!(plans[1].source, ColorSource::OwnCmyk));
    assert!(plans[1].knockout && plans[1].base_ink);
    match &plans[2].source {
        ColorSource::Rgb(t) => assert_eq!((t.r.as_str(), t.g.as_str(), t.b.as_str()), ("1", "0.5", "0")),
        _ => panic!("expected the rgb channels"),
    }
    // Composed in CMYK space.
    match &plans[3].source {
        ColorSource::CmykSpotColors(parts) => {
            assert_eq!(parts.len(), 1);
            assert_eq!((parts[0].factor.as_str(), parts[0].spotcolor), ("0.5", 9));
        },
        _ => panic!("expected a CMYK tint"),
    }
    assert!(!plans[3].knockout && !plans[3].base_ink);
    // Composed in RGB space.
    match &plans[4].source {
        ColorSource::RgbSpotColors(parts) => {
            assert_eq!(parts.len(), 1);
            assert_eq!((parts[0].factor.as_str(), parts[0].spotcolor), (".25", 9));
        },
        _ => panic!("expected an RGB tint"),
    }
    assert_eq!(plans[4].attributes.name, "Rgb tint");
}

#[test]
fn only_a_colors_element_is_planned() {
    assert!(color_plans(&node("symbols", &[], vec![])).is_none());
    assert_eq!(color_plans(&node("colors", &[], vec![])).unwrap().len(), 0);
}
