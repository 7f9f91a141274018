use rust_o_mapper::map_file::reading::{
    update_or_create_new_struct_type, Node, NodeBuilder, StructTypes, XmlEvent,
};

fn attrs(list: &[(&str, &str)]) -> Vec<(String, String)> {
    list.iter().map(|(k, v)| (k.to_string(), v.to_string())).collect()
}

fn node(name: &str, list: &[(&str, &str)], children: Vec<Node>) -> Node {
    let mut n = Node::new(name.to_string(), attrs(list), 0);
    n.children = children;
    n
}

fn start(name: &str, list: &[(&str, &str)]) -> XmlEvent {
    XmlEvent::Start { name: name.to_string(), attributes: attrs(list) }
}

fn empty(name: &str, list: &[(&str, &str)]) -> XmlEvent {
    XmlEvent::Empty { name: name.to_string(), attributes: attrs(list) }
}

#[test]
fn a_new_node_has_no_children_and_no_text() {
    let n = Node::new("map".to_string(), attrs(&[("alpha", "300")]), 3);
    assert_eq!(n.get_name(), "map");
    assert_eq!(n.children.len(), 0);
    assert_eq!(n.indentation_level, 3);
    assert!(n.inner_text.is_none());
    assert_eq!(n.attributes, attrs(&[("alpha", "300")]));
}

#[test]
fn set_inner_text_replaces_the_text() {
    let mut n = node("coords", &[], vec![]);
    n.set_inner_text("1 2;".to_string());
    n.set_inner_text("3 4;".to_string());
    assert_eq!(n.inner_text, Some("3 4;".to_string()));
}

#[test]
fn finds_the_first_attribute_with_a_name() {
    let n = node("map", &[("alpha", "300"), ("beta", "rucola"), ("alpha", "1")], vec![]);
    assert_eq!(n.search_attribute_by_name("alpha"), Some("300".to_string()));
    assert_eq!(n.search_attribute_by_name("beta"), Some("rucola".to_string()));
    assert_eq!(n.search_attribute_by_name("gamma"), None);
}

#[test]
fn finds_children_through_barriers() {
    let root = node(
        "map",
        &[],
        vec![
            node("a", &[("x", "1")], vec![]),
            node(
                "barrier",
                &[],
                vec![node("b", &[], vec![]), node("barrier", &[], vec![node("c", &[("x", "2")], vec![])])],
            ),
            node("c", &[("x", "3")], vec![]),
        ],
    );
    let c = root.search_child_by_name("c").unwrap();
    assert_eq!(c.search_attribute_by_name("x"), Some("2".to_string()));
    assert_eq!(root.search_child_by_name("b").unwrap().get_name(), "b");
    assert_eq!(root.search_child_by_name("a").unwrap().search_attribute_by_name("x"), Some("1".to_string()));
    assert!(root.search_child_by_name("d").is_none());
    assert_eq!(root.search_child_by_name("barrier").unwrap().children.len(), 2);
}

#[test]
fn builds_the_tree_from_reader_events() {
    let events = vec![
        start("map", &[("version", "9")]),
        start("colors", &[]),
        empty("color", &[("priority", "1")]),
        XmlEvent::End("colors".to_string()),
        XmlEvent::Text("hi".to_string()),
        XmlEvent::End("map".to_string()),
        XmlEvent::Eof,
    ];
    let root = Node::node_from_events("Maps/a.omap", events);
    assert_eq!(root.get_name(), "map_node");
    assert_eq!(root.search_attribute_by_name("path"), Some("Maps/a.omap".to_string()));
    assert_eq!(root.indentation_level, 0);
    assert_eq!(root.children.len(), 1);
    let map = &root.children[0];
    assert_eq!(map.get_name(), "map");
    assert_eq!(map.indentation_level, 1);
    assert_eq!(map.inner_text, Some("hi".to_string()));
    assert_eq!(map.search_attribute_by_name("version"), Some("9".to_string()));
    let colors = map.search_child_by_name("colors").unwrap();
    assert_eq!(colors.indentation_level, 2);
    assert_eq!(colors.children.len(), 1);
    assert_eq!(colors.children[0].get_name(), "color");
    assert_eq!(colors.children[0].indentation_level, 3);
    assert!(root.levels_are_nonnegative());
    assert!(root.display_string().starts_with("map_node (path:\"Maps/a.omap\", ) {}\n  map (version:\"9\", ) {hi}\n    colors () {}\n"));
}

#[test]
fn reading_stops_at_the_end_of_the_file() {
    let events = vec![start("a", &[]), XmlEvent::Eof, start("b", &[])];
    let root = Node::node_from_events("f", events);
    assert_eq!(root.children.len(), 1);
    assert_eq!(root.children[0].get_name(), "a");
    assert_eq!(root.children[0].children.len(), 0);
}

#[test]
fn elements_left_open_are_closed_in_place() {
    let events = vec![start("a", &[]), start("b", &[]), start("c", &[])];
    let root = Node::node_from_events("f", events);
    assert_eq!(root.children.len(), 1);
    assert_eq!(root.children[0].children[0].get_name(), "b");
    assert_eq!(root.children[0].children[0].children[0].get_name(), "c");
}

#[test]
fn a_builder_ends_at_the_end_of_its_outermost_element() {
    let mut b = NodeBuilder::new("f");
    assert!(!b.is_done());
    let ev = start("a", &[]);
    assert!(b.accepts(&ev));
    b.step(ev);
    b.step(XmlEvent::End("a".to_string()));
    assert!(!b.is_done());
    b.step(XmlEvent::End("map_node".to_string()));
    assert!(b.is_done());
    let root = b.finish();
    assert_eq!(root.children.len(), 1);
}

#[test]
fn writes_the_text_form_of_a_tree() {
    let mut a = Node::new("a".to_string(), attrs(&[("k", "v")]), 0);
    a.set_inner_text("t".to_string());
    a.children.push(Node::new("b".to_string(), vec![], 1));
    assert_eq!(a.display_string(), "a (k:\"v\", ) {t}\n  b () {}\n");
}

#[test]
fn surveys_every_kind_of_element() {
    let tree = node(
        "r",
        &[("x", "1")],
        vec![
            node("p", &[("a", "1")], vec![]),
            node("p", &[("a", "2"), ("b", "3")], vec![node("q", &[], vec![])]),
            node("p", &[("a", "1")], vec![]),
        ],
    );
    let kinds = tree.get_struct_types();
    let texts: Vec<String> = kinds.iter().map(|k| k.display_string()).collect();
    assert_eq!(texts, vec!["r\n\tx : [1; ]\n", "p\n\ta : [1; 2; ]\n\tb : [3; ]\n", "q\n"]);
    // Every attribute value of every element is recorded under its kind.
    for child in &tree.children {
        let text = texts.iter().find(|t| t.starts_with(&format!("{}\n", child.name))).unwrap();
        for (key, value) in &child.attributes {
            let line = text.lines().find(|l| l.starts_with(&format!("\t{} : [", key))).unwrap();
            assert!(line.contains(&format!(" {}; ", value)) || line.contains(&format!("[{}; ", value)));
        }
    }
}

#[test]
fn a_survey_can_be_continued() {
    let mut kinds: Vec<StructTypes> = Vec::new();
    update_or_create_new_struct_type(&node("p", &[("a", "1")], vec![]), &mut kinds);
    update_or_create_new_struct_type(&node("p", &[("a", "1"), ("c", "5")], vec![]), &mut kinds);
    assert_eq!(kinds.len(), 1);
    assert_eq!(kinds[0].display_string(), "p\n\ta : [1; ]\n\tc : [5; ]\n");
}

#[test]
fn the_last_match_wins_through_barriers() {
    let root = node(
        "map",
        &[],
        vec![
            node("a", &[("x", "1")], vec![]),
            node(
                "barrier",
                &[],
                vec![node("b", &[], vec![]), node("barrier", &[], vec![node("c", &[("x", "2")], vec![])])],
            ),
            node("c", &[("x", "3")], vec![]),
        ],
    );
    let c = root.search_last_child_by_name("c").unwrap();
    assert_eq!(c.search_attribute_by_name("x"), Some("3".to_string()));
    assert_eq!(root.search_last_child_by_name("b").unwrap().get_name(), "b");
    assert!(root.search_last_child_by_name("d").is_none());
    assert_eq!(root.search_last_child_by_name("barrier").unwrap().children.len(), 2);
}

#[test]
fn a_match_inside_a_later_barrier_replaces_an_earlier_sibling() {
    let root = node(
        "object",
        &[],
        vec![
            node("coords", &[("n", "first")], vec![]),
            node("barrier", &[], vec![node("coords", &[("n", "second")], vec![])]),
            node("barrier", &[], vec![node("pattern", &[], vec![])]),
        ],
    );
    let found = root.search_last_child_by_name("coords").unwrap();
    assert_eq!(found.search_attribute_by_name("n"), Some("second".to_string()));
    let first = root.search_child_by_name("coords").unwrap();
    assert_eq!(first.search_attribute_by_name("n"), Some("first".to_string()));
}

#[test]
fn a_survey_from_earlier_kinds_keeps_them_first() {
    let mut kinds: Vec<StructTypes> = Vec::new();
    update_or_create_new_struct_type(&node("p", &[("a", "1"), ("b", "2")], vec![]), &mut kinds);
    update_or_create_new_struct_type(&node("q", &[("z", "0")], vec![]), &mut kinds);
    assert_eq!(kinds[0].display_string(), "p\n\ta : [1; ]\n\tb : [2; ]\n");
    let tree = node(
        "root",
        &[],
        vec![node("p", &[("b", "3"), ("c", "4"), ("a", "1")], vec![]), node("q", &[("z", "9")], vec![])],
    );
    update_or_create_new_struct_type(&tree, &mut kinds);
    let texts: Vec<String> = kinds.iter().map(|k| k.display_string()).collect();
    assert_eq!(
        texts,
        vec!["p\n\ta : [1; ]\n\tb : [2; 3; ]\n\tc : [4; ]\n", "q\n\tz : [0; 9; ]\n", "root\n"]
    );
}
