use rust_o_mapper::map_file::reading::{StructTypes, XmlEvent};
use rust_o_mapper::xml_objects::{explore_a_start, update_or_create_new_struct_type, Object, ObjectBuilder};

fn attrs(list: &[(&str, &str)]) -> Vec<(String, String)> {
    list.iter().map(|(k, v)| (k.to_string(), v.to_string())).collect()
}

fn start(name: &str, list: &[(&str, &str)]) -> XmlEvent {
    XmlEvent::Start { name: name.to_string(), attributes: attrs(list) }
}

fn end(name: &str) -> XmlEvent {
    XmlEvent::End(name.to_string())
}

#[test]
fn an_object_starts_without_children_or_text() {
    let mut o = Object::new("map".to_string(), Some(attrs(&[("a", "1")])), 2);
    assert_eq!(o.get_name(), "map");
    assert!(o.get_child().is_empty());
    assert!(o.inner_text.is_none());
    o.set_inner_text("x".to_string());
    assert_eq!(o.inner_text, Some("x".to_string()));
    let root = explore_a_start("r".to_string(), attrs(&[("k", "v")]), -1);
    assert_eq!(root.indentation_level, 0);
    assert_eq!(root.attributes, Some(attrs(&[("k", "v")])));
}

#[test]
fn reads_the_tree_of_the_first_element() {
    let events = vec![
        XmlEvent::Text("prolog".to_string()),
        start("map", &[("v", "9")]),
        start("colors", &[]),
        XmlEvent::Empty { name: "ignored".to_string(), attributes: vec![] },
        XmlEvent::Text("c".to_string()),
        end("colors"),
        start("parts", &[]),
        end("parts"),
        XmlEvent::Text("m".to_string()),
        end("map"),
        start("after", &[]),
        XmlEvent::Eof,
    ];
    let root = Object::from_events(events);
    assert_eq!(root.get_name(), "map");
    assert_eq!(root.indentation_level, 0);
    assert_eq!(root.inner_text, Some("m".to_string()));
    let names: Vec<String> = root.get_child().iter().map(|c| c.get_name()).collect();
    assert_eq!(names, vec!["colors", "parts"]);
    assert_eq!(root.get_child()[0].inner_text, Some("c".to_string()));
    assert_eq!(root.get_child()[0].indentation_level, 1);
    assert!(root.get_child()[0].get_child().is_empty());
}

#[test]
fn the_end_of_the_file_closes_what_is_open() {
    let root = Object::from_events(vec![start("a", &[]), start("b", &[]), start("c", &[]), XmlEvent::Eof, start("d", &[])]);
    assert_eq!(root.get_child()[0].get_name(), "b");
    assert_eq!(root.get_child()[0].get_child()[0].get_name(), "c");
    assert_eq!(root.get_child()[0].get_child()[0].indentation_level, 2);
}

#[test]
fn builds_objects_one_event_at_a_time() {
    let mut b = ObjectBuilder::new(Object::new("r".to_string(), Some(vec![]), 0));
    b.step(start("x", &[]));
    b.step(end("x"));
    assert!(!b.is_done());
    b.step(end("r"));
    assert!(b.is_done());
    let r = b.finish();
    assert_eq!(r.get_child().len(), 1);
}

#[test]
fn writes_the_text_form_of_objects() {
    let mut a = Object::new("a".to_string(), Some(attrs(&[("k", "v")])), 0);
    a.set_inner_text("t".to_string());
    let mut b = Object::new("b".to_string(), Some(vec![]), 1);
    b.set_inner_text(String::new());
    a.children.push(b);
    assert_eq!(a.display_string(), "a (k:\"v\", ) {t}\n  b () {}\n");
    let mut n = Object::new("n".to_string(), Some(vec![]), -3);
    n.set_inner_text("x".to_string());
    assert_eq!(n.display_string(), "n () {x}\n");
}

#[test]
fn surveys_the_kinds_of_objects() {
    let mut root = Object::new("r".to_string(), Some(attrs(&[("x", "1")])), 0);
    root.children.push(Object::new("p".to_string(), Some(attrs(&[("a", "1")])), 1));
    root.children.push(Object::new("p".to_string(), None, 1));
    root.children.push(Object::new("p".to_string(), Some(attrs(&[("a", "2")])), 1));
    let mut kinds: Vec<StructTypes> = Vec::new();
    update_or_create_new_struct_type(&root, &mut kinds);
    assert_eq!(kinds.len(), 2);
    assert_eq!(kinds[0].display_string(), "r\n\tx : [1; ]\n");
    assert_eq!(kinds[1].display_string(), "p\n\ta : [1; 2; ]\n");
    let node = root.to_node();
    assert_eq!(node.children.len(), 3);
    assert_eq!(node.children[1].attributes.len(), 0);
}
