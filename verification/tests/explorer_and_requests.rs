use rust_o_mapper::map_file::explorer::{explore_children, node_at_path, parse_selection, Selection};
use rust_o_mapper::map_file::reading::Node;
use rust_o_mapper::map_file::{entry_action, is_map_file, EntryAction};
use rust_o_mapper::web_requests::{route_request, RequestRoute};

fn node(name: &str, children: Vec<Node>) -> Node {
    let mut n = Node::new(name.to_string(), vec![], 0);
    n.children = children;
    n
}

fn tree() -> Node {
    node("map_node", vec![node("map", vec![node("colors", vec![]), node("symbols", vec![node("symbol", vec![])])])])
}

#[test]
fn reads_the_choice_of_the_reader() {
    assert_eq!(parse_selection("-1"), Selection::Back);
    assert_eq!(parse_selection("  -1\n"), Selection::Back);
    assert_eq!(parse_selection("2\n"), Selection::Child(2));
    assert_eq!(parse_selection("+0"), Selection::Child(0));
    assert_eq!(parse_selection("-2"), Selection::Invalid);
    assert_eq!(parse_selection("two"), Selection::Invalid);
    assert_eq!(parse_selection(""), Selection::Invalid);
}

#[test]
fn walks_down_and_back_up_the_tree() {
    let root = tree();
    let path = explore_children(&root, &vec![], Selection::Child(0));
    assert_eq!(path, vec![0]);
    assert_eq!(node_at_path(&root, &path).get_name(), "map");
    let path = explore_children(&root, &path, Selection::Child(1));
    assert_eq!(node_at_path(&root, &path).get_name(), "symbols");
    let path = explore_children(&root, &path, Selection::Invalid);
    assert_eq!(path, vec![0, 1]);
    let down = explore_children(&root, &path, Selection::Child(0));
    assert_eq!(node_at_path(&root, &down).get_name(), "symbol");
    // Down to a child and back leaves the reader where it was.
    assert_eq!(explore_children(&root, &down, Selection::Back), path);
    let path = explore_children(&root, &path, Selection::Back);
    let path = explore_children(&root, &path, Selection::Back);
    assert_eq!(path, Vec::<usize>::new());
    // At the root, going back stays at the root.
    assert_eq!(explore_children(&root, &path, Selection::Back), Vec::<usize>::new());
}

#[test]
fn recognizes_map_files() {
    assert!(is_map_file("Maps/PiccoloParadiso.omap"));
    assert!(is_map_file(".omap"));
    assert!(!is_map_file("omap"));
    assert!(!is_map_file("Maps/a.omap.bak"));
    assert!(!is_map_file("Maps/a.OMAP"));
    assert_eq!(entry_action(true, false, false, "Maps/sub.omap"), EntryAction::Descend);
    assert_eq!(entry_action(false, true, false, "Maps/a.omap"), EntryAction::TakeMap);
    assert_eq!(entry_action(false, false, true, "Maps/link.omap"), EntryAction::TakeMap);
    assert_eq!(entry_action(false, true, false, "Maps/a.txt"), EntryAction::Skip);
    assert_eq!(entry_action(false, false, false, "Maps/pipe.omap"), EntryAction::Skip);
}

#[test]
fn routes_the_requests_of_the_viewer() {
    let paths = vec!["Maps/a.omap".to_string(), "Maps/b.omap".to_string(), "Maps/a.omap".to_string()];
    assert_eq!(route_request("get_maps_path", "", &paths), RequestRoute::MapPaths);
    assert_eq!(route_request("get_map", "Maps/b.omap", &paths), RequestRoute::Maps(vec![1]));
    assert_eq!(route_request("get_map", "Maps/a.omap", &paths), RequestRoute::Maps(vec![0, 2]));
    assert_eq!(route_request("get_map", "Maps//b.omap", &paths), RequestRoute::Maps(vec![1]));
    assert_eq!(route_request("get_map", "Maps/c.omap", &paths), RequestRoute::MapNotFound);
    assert_eq!(route_request("get_map", "Maps/a.omap", &vec![]), RequestRoute::MapNotFound);
    assert_eq!(route_request("delete_map", "Maps/a.omap", &paths), RequestRoute::Unknown);
    assert_eq!(route_request("GET_MAP", "Maps/a.omap", &paths), RequestRoute::Unknown);
}
