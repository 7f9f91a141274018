use rust_o_mapper::map_file::reading::{Node, XmlEvent};
use rust_o_mapper::map_file::xml_source::{decode_events, map_events_of, RawXmlEvent};
use rust_o_mapper::xml_objects::Object;

fn pairs(list: &[(&str, &str)]) -> Vec<(String, String)> {
    list.iter().map(|(k, v)| (k.to_string(), v.to_string())).collect()
}

#[test]
fn reads_a_tree_from_the_bytes_of_a_file() {
    let bytes = b"<?xml version=\"1.0\"?>\n<!-- a map -->\n<map v=\"1\">\n  <colors>  a &amp; b  </colors>\n  <x k=\"y\"/>\n</map>\n";
    let root = Node::node_from_bytes("some/file.omap", bytes).unwrap();
    assert_eq!(root.get_name(), "map_node");
    assert_eq!(root.attributes, pairs(&[("path", "some/file.omap")]));
    assert_eq!(root.children.len(), 1);
    let map = &root.children[0];
    assert_eq!(map.get_name(), "map");
    assert_eq!(map.attributes, pairs(&[("v", "1")]));
    assert_eq!(map.indentation_level, 1);
    assert_eq!(map.children.len(), 2);
    let colors = &map.children[0];
    assert_eq!(colors.inner_text, Some("a & b".to_string()));
    assert_eq!(colors.indentation_level, 2);
    let x = &map.children[1];
    assert_eq!(x.get_name(), "x");
    assert_eq!(x.attributes, pairs(&[("k", "y")]));
    assert!(x.children.is_empty());
}

#[test]
fn bytes_that_are_not_utf8_get_markers() {
    let bytes = b"<m\xff a=\"\xfe\"><t>\xff\xfe</t></m\xff>";
    let root = Node::node_from_bytes("f", bytes).unwrap();
    let m = &root.children[0];
    assert_eq!(m.get_name(), "Non UTF8 Name");
    assert_eq!(m.attributes, pairs(&[("a", "Non UTF8 Name")]));
    assert_eq!(m.children[0].inner_text, Some("Non UTF8 Text".to_string()));
}

#[test]
fn a_text_that_does_not_unescape_is_kept_as_it_stands() {
    let root = Node::node_from_bytes("f", b"<t>a &bogus; b</t>").unwrap();
    assert_eq!(root.children[0].inner_text, Some("a &bogus; b".to_string()));
}

#[test]
fn a_broken_end_tag_closes_the_element_open_and_reading_goes_on() {
    let root = Node::node_from_bytes("f", b"<a><b><c/></x><d/></a>").unwrap();
    let a = &root.children[0];
    assert_eq!(a.children.len(), 2);
    let b = &a.children[0];
    assert_eq!(b.get_name(), "b");
    assert_eq!(b.children.len(), 1);
    assert_eq!(b.children[0].get_name(), "c");
    assert_eq!(a.children[1].get_name(), "d");
    assert_eq!(a.children[1].indentation_level, 2);
}

#[test]
fn a_broken_end_tag_outside_every_element_ends_the_reading() {
    let root = Node::node_from_bytes("f", b"<a></a></x><z/>").unwrap();
    assert_eq!(root.children.len(), 1);
    assert_eq!(root.children[0].get_name(), "a");
    assert!(root.children[0].children.is_empty());
}

#[test]
fn the_reader_goes_on_after_an_ill_formed_end_tag() {
    // `</x>` closes `a` in the reader too, so `</a>` closes nothing.
    let events = map_events_of(b"<a></x><b/></a>");
    assert_eq!(events.len(), 5);
    assert!(matches!(&events[0], XmlEvent::Start { name, .. } if name == "a"));
    assert!(matches!(&events[1], XmlEvent::Error));
    assert!(matches!(&events[2], XmlEvent::Empty { name, .. } if name == "b"));
    assert!(matches!(&events[3], XmlEvent::Error));
    assert!(matches!(&events[4], XmlEvent::Eof));
    let root = Node::node_from_bytes("f", b"<a></x><b/></a>").unwrap();
    assert_eq!(root.children.len(), 2);
    assert_eq!(root.children[0].get_name(), "a");
    assert_eq!(root.children[1].get_name(), "b");
}

#[test]
fn empty_bytes_give_the_root_alone() {
    let root = Node::node_from_bytes("f", b"").unwrap();
    assert_eq!(root.get_name(), "map_node");
    assert!(root.children.is_empty());
}

#[test]
fn the_events_of_the_bytes_skip_comments_and_end_with_eof() {
    let events = map_events_of(b"<!-- c --><a>x</a>");
    assert_eq!(events.len(), 4);
    assert!(matches!(&events[0], XmlEvent::Start { name, attributes } if name == "a" && attributes.is_empty()));
    assert!(matches!(&events[1], XmlEvent::Text(t) if t == "x"));
    assert!(matches!(&events[2], XmlEvent::End(n) if n == "a"));
    assert!(matches!(&events[3], XmlEvent::Eof));
}

#[test]
fn raw_events_are_decoded_with_the_attributes_of_their_tags() {
    let raws = vec![
        RawXmlEvent::Start(b"sym".to_vec()),
        RawXmlEvent::Other,
        RawXmlEvent::Text(b"1 &lt; 2".to_vec()),
        RawXmlEvent::Empty(b"p".to_vec()),
        RawXmlEvent::End(vec![0xc3]),
        RawXmlEvent::Empty(b"q".to_vec()),
        RawXmlEvent::Eof,
    ];
    let lists = vec![
        vec![Some((b"id".to_vec(), b"3".to_vec())), None, Some((b"k".to_vec(), vec![0xff]))],
        vec![Some((b"x".to_vec(), b"1".to_vec()))],
    ];
    let events = decode_events(&raws, &lists);
    assert_eq!(events.len(), 6);
    assert!(matches!(&events[0], XmlEvent::Start { name, attributes }
        if name == "sym" && *attributes == pairs(&[("id", "3"), ("k", "Non UTF8 Name")])));
    assert!(matches!(&events[1], XmlEvent::Text(t) if t == "1 < 2"));
    assert!(matches!(&events[2], XmlEvent::Empty { name, attributes } if name == "p" && *attributes == pairs(&[("x", "1")])));
    assert!(matches!(&events[3], XmlEvent::End(n) if n == "Non UTF8 Name"));
    assert!(matches!(&events[4], XmlEvent::Empty { name, attributes } if name == "q" && attributes.is_empty()));
    assert!(matches!(&events[5], XmlEvent::Eof));
}

#[test]
fn reads_a_plain_tree_of_objects_from_bytes() {
    let bytes = b"<?xml version=\"1.0\"?><!-- x --><map a=\"1\"><p k=\"v\">t &amp; u</p><e/><q/></map><after/>";
    let root = Object::read_from_bytes(bytes).unwrap();
    assert_eq!(root.get_name(), "map");
    assert_eq!(root.indentation_level, 0);
    assert_eq!(root.attributes, Some(pairs(&[("a", "1")])));
    assert_eq!(root.children.len(), 1);
    let p = &root.children[0];
    assert_eq!(p.get_name(), "p");
    assert_eq!(p.indentation_level, 1);
    assert_eq!(p.attributes, Some(pairs(&[("k", "v")])));
    assert_eq!(p.inner_text, Some("t & u".to_string()));
}

#[test]
fn a_plain_tree_needs_strictly_decodable_input() {
    assert!(Object::read_from_bytes(b"<a><b>\xff</b></a>").is_none());
    assert!(Object::read_from_bytes(b"<a><b x=\"\xff\"/></a>").is_some());
    assert!(Object::read_from_bytes(b"<a><b x=\"\xff\"></b></a>").is_none());
    assert!(Object::read_from_bytes(b"<a>&bogus;</a>").is_none());
    assert!(Object::read_from_bytes(b"<a><b></c></a>").is_none());
    assert!(Object::read_from_bytes(b"<!-- nothing -->").is_none());
    assert!(Object::read_from_bytes(b"").is_none());
    assert!(Object::read_from_bytes(b"\xff<a/>").is_none());
}

#[test]
fn what_comes_before_the_root_is_passed_over() {
    let root = Object::read_from_bytes(b"junk \xff text <first x=\"\xfe\"/><root>in</root>").unwrap();
    assert_eq!(root.get_name(), "root");
    assert_eq!(root.inner_text, Some("in".to_string()));
    assert!(root.children.is_empty());
}
