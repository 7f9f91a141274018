//! The in-memory form of an `.omap` (XML) file: a tree of `Node`s, one per XML
//! element, the lookups that the rest of the library does on it, and the
//! building of the tree from the stream of XML events that a reader hands out.

use vstd::prelude::*;
use crate::text::{push_char, same_text, string_is};

verus! {

/// A Node is the atomic part of the in-memory form of an `.omap` file: one XML
/// element. The common ancestor of all nodes read from a file is a node named
/// `map_node` whose only attribute is the file's path.
pub struct Node {
    /// The name of the element.
    pub name: String,
    /// The attributes of the element, in the order in which they were written:
    /// `<map alpha="300" beta="rucola">` gives `[("alpha", "300"), ("beta", "rucola")]`.
    pub attributes: Vec<(String, String)>,
    /// The child elements, in document order.
    pub children: Vec<Node>,
    /// How deep the element stands in the hierarchy.
    pub indentation_level: i16,
    /// The text inside the element that is not part of a child element.
    pub inner_text: Option<String>,
}

/// The mathematical value of a `Node`.
pub struct NodeView {
    pub name: Seq<char>,
    pub attributes: Seq<(Seq<char>, Seq<char>)>,
    pub children: Seq<NodeView>,
    pub indentation_level: i16,
    pub inner_text: Option<Seq<char>>,
}

pub open spec fn attributes_view(attrs: Seq<(String, String)>) -> Seq<(Seq<char>, Seq<char>)> {
    attrs.map_values(|a: (String, String)| (a.0@, a.1@))
}

pub open spec fn text_view(t: Option<String>) -> Option<Seq<char>> {
    match t {
        Some(s) => Some(s@),
        None => None,
    }
}

/// The views of the children of `n` from the `i`-th on.
pub open spec fn children_view_from(n: Node, i: int) -> Seq<NodeView>
    decreases n, n.children@.len() - i,
{
    if 0 <= i < n.children@.len() {
        seq![node_view(n.children@[i])] + children_view_from(n, i + 1)
    } else {
        Seq::empty()
    }
}

pub open spec fn node_view(n: Node) -> NodeView
    decreases n, n.children@.len() + 1,
{
    NodeView {
        name: n.name@,
        attributes: attributes_view(n.attributes@),
        children: children_view_from(n, 0),
        indentation_level: n.indentation_level,
        inner_text: text_view(n.inner_text),
    }
}

impl View for Node {
    type V = NodeView;

    open spec fn view(&self) -> NodeView {
        node_view(*self)
    }
}

pub proof fn lemma_children_view_from(n: Node, i: int)
    requires
        0 <= i <= n.children@.len(),
    ensures
        children_view_from(n, i).len() == n.children@.len() - i,
        forall|j: int|
            0 <= j < n.children@.len() - i ==> #[trigger] children_view_from(n, i)[j]
                == node_view(n.children@[i + j]),
    decreases n.children@.len() - i,
{
    if i < n.children@.len() {
        lemma_children_view_from(n, i + 1);
        assert forall|j: int| 0 <= j < n.children@.len() - i implies #[trigger] children_view_from(
            n,
            i,
        )[j] == node_view(n.children@[i + j]) by {
            if j > 0 {
                assert(children_view_from(n, i)[j] == children_view_from(n, i + 1)[j - 1]);
            }
        }
    }
}

/// The view of each child of `n` is the child of the view of `n`.
pub proof fn lemma_view_children(n: Node)
    ensures
        n@.children.len() == n.children@.len(),
        forall|j: int| 0 <= j < n.children@.len() ==> #[trigger] n@.children[j] == n.children@[j]@,
{
    lemma_children_view_from(n, 0);
}

/// Two nodes with equal fields apart from the children have the same view when
/// their children have the same views.
pub proof fn lemma_view_from_children(n: Node, children: Seq<NodeView>)
    requires
        n.children@.len() == children.len(),
        forall|j: int| 0 <= j < children.len() ==> #[trigger] n.children@[j]@ == children[j],
    ensures
        n@ == (NodeView {
            name: n.name@,
            attributes: attributes_view(n.attributes@),
            children,
            indentation_level: n.indentation_level,
            inner_text: text_view(n.inner_text),
        }),
{
    lemma_view_children(n);
    assert(n@.children =~= children);
}

/// The value of the first attribute called `key`, if there is one.
pub open spec fn attribute_value(attrs: Seq<(Seq<char>, Seq<char>)>, key: Seq<char>) -> Option<
    Seq<char>,
>
    decreases attrs.len(),
{
    if attrs.len() == 0 {
        None
    } else if attrs[0].0 == key {
        Some(attrs[0].1)
    } else {
        attribute_value(attrs.drop_first(), key)
    }
}

/// The first child of `n` called `key` from the `i`-th child on, looking through
/// children called `barrier` as if their own children stood in their place.
pub open spec fn child_named_from(n: NodeView, i: int, key: Seq<char>) -> Option<NodeView>
    decreases n, n.children.len() - i,
{
    if 0 <= i < n.children.len() {
        let c = n.children[i];
        if c.name == key {
            Some(c)
        } else if c.name == "barrier"@ {
            match child_named_from(c, 0, key) {
                Some(found) => Some(found),
                None => child_named_from(n, i + 1, key),
            }
        } else {
            child_named_from(n, i + 1, key)
        }
    } else {
        None
    }
}

/// The child of `n` that `search_child_by_name(key)` finds.
pub open spec fn child_named(n: NodeView, key: Seq<char>) -> Option<NodeView> {
    child_named_from(n, 0, key)
}

/// The value found for an attribute is the value of an attribute of that
/// name, the first one.
pub proof fn lemma_attribute_value_found(attrs: Seq<(Seq<char>, Seq<char>)>, key: Seq<char>)
    requires
        attribute_value(attrs, key) is Some,
    ensures
        exists|i: int|
            0 <= i < attrs.len() && #[trigger] attrs[i] == (key, attribute_value(attrs, key)->0)
                && forall|j: int| 0 <= j < i ==> (#[trigger] attrs[j]).0 != key,
    decreases attrs.len(),
{
    if attrs[0].0 == key {
        assert(attrs[0] == (key, attribute_value(attrs, key)->0));
    } else {
        let rest = attrs.drop_first();
        lemma_attribute_value_found(rest, key);
        let i = choose|i: int|
            0 <= i < rest.len() && #[trigger] rest[i] == (key, attribute_value(rest, key)->0)
                && forall|j: int| 0 <= j < i ==> (#[trigger] rest[j]).0 != key;
        assert(attrs[i + 1] == rest[i]);
        assert forall|j: int| 0 <= j < i + 1 implies (#[trigger] attrs[j]).0 != key by {
            if j > 0 {
                assert(attrs[j] == rest[j - 1]);
            }
        }
    }
}

/// The child found by the last-match search has the name searched for.
pub proof fn lemma_last_child_named_has_name(n: NodeView, i: int, key: Seq<char>)
    requires
        last_child_named_upto(n, i, key) is Some,
    ensures
        last_child_named_upto(n, i, key)->0.name == key,
    decreases n, i,
{
    let c = n.children[i - 1];
    if c.name == key {
    } else if c.name == "barrier"@ && last_child_named_upto(c, c.children.len() as int, key) is Some {
        lemma_last_child_named_has_name(c, c.children.len() as int, key);
    } else {
        lemma_last_child_named_has_name(n, i - 1, key);
    }
}

/// A child found by name, looking through barriers, has that name.
pub proof fn lemma_child_named_has_name(n: NodeView, i: int, key: Seq<char>)
    requires
        child_named_from(n, i, key) is Some,
    ensures
        child_named_from(n, i, key)->0.name == key,
    decreases n, n.children.len() - i,
{
    let c = n.children[i];
    if c.name == key {
    } else if c.name == "barrier"@ {
        if child_named_from(c, 0, key) is Some {
            lemma_child_named_has_name(c, 0, key);
        } else {
            lemma_child_named_has_name(n, i + 1, key);
        }
    } else {
        lemma_child_named_has_name(n, i + 1, key);
    }
}

/// The last child of `n` called `key` among its first `i` children, looking
/// through children called `barrier` in place: a barrier's own last match
/// stands where the barrier stands, and a later match replaces an earlier one.
pub open spec fn last_child_named_upto(n: NodeView, i: int, key: Seq<char>) -> Option<NodeView>
    decreases n, i,
{
    if 0 < i <= n.children.len() {
        let c = n.children[i - 1];
        let here = if c.name == key {
            Some(c)
        } else if c.name == "barrier"@ {
            last_child_named_upto(c, c.children.len() as int, key)
        } else {
            None
        };
        if here is Some {
            here
        } else {
            last_child_named_upto(n, i - 1, key)
        }
    } else {
        None
    }
}

/// The child of `n` that `search_last_child_by_name(key)` finds: the last
/// one called `key`, looking through barriers.
pub open spec fn last_child_named(n: NodeView, key: Seq<char>) -> Option<NodeView> {
    last_child_named_upto(n, n.children.len() as int, key)
}

impl Node {
    /// A node with no children and no inner text.
    pub fn new(name: String, attributes: Vec<(String, String)>, indentation_level: i16) -> (r: Node)
        ensures
            r.name == name,
            r.attributes == attributes,
            r.children@.len() == 0,
            r.indentation_level == indentation_level,
            r.inner_text.is_none(),
            r@ == (NodeView {
                name: name@,
                attributes: attributes_view(attributes@),
                children: Seq::empty(),
                indentation_level,
                inner_text: None,
            }),
    {
        let r = Node { name, attributes, children: Vec::new(), indentation_level, inner_text: None };
        proof {
            lemma_view_from_children(r, Seq::empty());
        }
        r
    }

    /// Replaces the inner text of the node.
    pub fn set_inner_text(&mut self, inner_text: String)
        ensures
            final(self).inner_text == Some(inner_text),
            final(self).name == old(self).name,
            final(self).attributes == old(self).attributes,
            final(self).children == old(self).children,
            final(self).indentation_level == old(self).indentation_level,
            final(self)@ == (NodeView { inner_text: Some(inner_text@), ..old(self)@ }),
    {
        proof {
            lemma_view_children(*self);
        }
        self.inner_text = Some(inner_text);
        proof {
            lemma_view_from_children(*self, old(self)@.children);
        }
    }

    /// The name of the node.
    pub fn get_name(&self) -> (r: String)
        ensures
            r@ == self@.name,
    {
        self.name.clone()
    }

    /// The value of the first attribute called `name_to_search`.
    pub fn search_attribute_by_name(&self, name_to_search: &str) -> (r: Option<String>)
        ensures
            r matches Some(v) ==> attribute_value(self@.attributes, name_to_search@) == Some(v@),
            r is None ==> attribute_value(self@.attributes, name_to_search@) is None,
    {
        let ghost attrs = self@.attributes;
        assert(attrs.skip(0) == attrs);
        for i in 0..self.attributes.len()
            invariant
                attrs == attributes_view(self.attributes@),
                attribute_value(attrs, name_to_search@) == attribute_value(
                    attrs.skip(i as int),
                    name_to_search@,
                ),
        {
            assert(attrs.skip(i as int)[0] == attrs[i as int]);
            assert(attrs.skip(i as int).drop_first() == attrs.skip(i + 1));
            if string_is(&self.attributes[i].0, name_to_search) {
                return Some(self.attributes[i].1.clone());
            }
        }
        assert(attrs.skip(self.attributes.len() as int).len() == 0);
        None
    }

    /// The last child called `name_to_search`: every child is looked at in
    /// order, a child called `barrier` is searched in its place, and each
    /// match replaces the one found before it.
    pub fn search_last_child_by_name(&self, name_to_search: &str) -> (r: Option<&Node>)
        ensures
            r matches Some(c) ==> last_child_named(self@, name_to_search@) == Some(c@),
            r is None ==> last_child_named(self@, name_to_search@) is None,
        decreases self,
    {
        proof {
            lemma_view_children(*self);
        }
        let ghost v = self@;
        let mut result: Option<&Node> = None;
        for i in 0..self.children.len()
            invariant
                v == self@,
                v.children.len() == self.children@.len(),
                forall|j: int| 0 <= j < self.children@.len() ==> #[trigger] v.children[j] == self.children@[j]@,
                result matches Some(c) ==> last_child_named_upto(v, i as int, name_to_search@) == Some(c@),
                result is None ==> last_child_named_upto(v, i as int, name_to_search@) is None,
        {
            let child = &self.children[i];
            assert(v.children[i as int] == child@);
            if string_is(&child.name, name_to_search) {
                result = Some(child);
            } else if string_is(&child.name, "barrier") {
                assert(decreases_to!(*self => self.children));
                assert(decreases_to!(self.children => self.children@));
                assert(decreases_to!(self.children@ => self.children@[i as int]));
                match child.search_last_child_by_name(name_to_search) {
                    Some(found) => {
                        result = Some(found);
                    },
                    None => {},
                }
            }
        }
        result
    }

    /// The first child called `name_to_search`. A child called `barrier` is
    /// transparent: its own children are searched in its place, before the
    /// children that follow it.
    pub fn search_child_by_name(&self, name_to_search: &str) -> (r: Option<&Node>)
        ensures
            r matches Some(c) ==> child_named(self@, name_to_search@) == Some(c@),
            r is None ==> child_named(self@, name_to_search@) is None,
        decreases self,
    {
        proof {
            lemma_view_children(*self);
        }
        let ghost v = self@;
        for i in 0..self.children.len()
            invariant
                v == self@,
                v.children.len() == self.children@.len(),
                forall|j: int| 0 <= j < self.children@.len() ==> #[trigger] v.children[j] == self.children@[j]@,
                child_named(v, name_to_search@) == child_named_from(v, i as int, name_to_search@),
        {
            let child = &self.children[i];
            assert(v.children[i as int] == child@);
            if string_is(&child.name, name_to_search) {
                return Some(child);
            } else if string_is(&child.name, "barrier") {
                assert(decreases_to!(*self => self.children));
                assert(decreases_to!(self.children => self.children@));
                assert(decreases_to!(self.children@ => self.children@[i as int]));
                match child.search_child_by_name(name_to_search) {
                    Some(found) => {
                        return Some(found);
                    },
                    None => {},
                }
            }
        }
        None
    }
}

// ---------------------------------------------------------------------------
// Building the tree from the events of an XML reader
// ---------------------------------------------------------------------------

/// One event of an XML reader, as it reads a file from the start.
pub enum XmlEvent {
    /// `<tag attr="value">`
    Start { name: String, attributes: Vec<(String, String)> },
    /// `<tag attr="value" />`
    Empty { name: String, attributes: Vec<(String, String)> },
    /// The text between tags, already unescaped and trimmed.
    Text(String),
    /// `</tag>`
    End(String),
    /// The end of the file.
    Eof,
    /// The reader could not read the next event.
    Error,
}

pub enum XmlEventView {
    Start { name: Seq<char>, attributes: Seq<(Seq<char>, Seq<char>)> },
    Empty { name: Seq<char>, attributes: Seq<(Seq<char>, Seq<char>)> },
    Text(Seq<char>),
    End(Seq<char>),
    Eof,
    Error,
}

impl View for XmlEvent {
    type V = XmlEventView;

    open spec fn view(&self) -> XmlEventView {
        match self {
            XmlEvent::Start { name, attributes } => XmlEventView::Start {
                name: name@,
                attributes: attributes_view(attributes@),
            },
            XmlEvent::Empty { name, attributes } => XmlEventView::Empty {
                name: name@,
                attributes: attributes_view(attributes@),
            },
            XmlEvent::Text(t) => XmlEventView::Text(t@),
            XmlEvent::End(n) => XmlEventView::End(n@),
            XmlEvent::Eof => XmlEventView::Eof,
            XmlEvent::Error => XmlEventView::Error,
        }
    }
}

pub open spec fn events_view(events: Seq<XmlEvent>) -> Seq<XmlEventView> {
    events.map_values(|e: XmlEvent| e@)
}

/// The node that stands for the whole file: `map_node`, with the file's path
/// as its `path` attribute.
pub open spec fn root_view(file_path: Seq<char>) -> NodeView {
    NodeView {
        name: "map_node"@,
        attributes: seq![("path"@, file_path)],
        children: Seq::empty(),
        indentation_level: 0,
        inner_text: None,
    }
}

/// The node of an element that opens inside `parent`.
pub open spec fn opened_child(
    parent: NodeView,
    name: Seq<char>,
    attributes: Seq<(Seq<char>, Seq<char>)>,
) -> NodeView {
    NodeView {
        name,
        attributes,
        children: Seq::empty(),
        indentation_level: (parent.indentation_level + 1) as i16,
        inner_text: None,
    }
}

pub open spec fn with_child(n: NodeView, child: NodeView) -> NodeView {
    NodeView { children: n.children.push(child), ..n }
}

/// The open elements once the innermost one (at least two are open) is closed
/// and hung under its parent.
pub open spec fn close_top(open: Seq<NodeView>) -> Seq<NodeView> {
    let k = open.len();
    open.take(k - 2).push(with_child(open[k - 2], open[k - 1]))
}

/// The tree once every open element is closed.
pub open spec fn close_all(open: Seq<NodeView>) -> NodeView
    decreases open.len(),
{
    if open.len() <= 1 {
        open[0]
    } else {
        close_all(close_top(open))
    }
}

/// Whether the event ends the reading: the end of the file, or the end (or a
/// failure) of the outermost element.
pub open spec fn ends_reading(open: Seq<NodeView>, ev: XmlEventView) -> bool {
    match ev {
        XmlEventView::Eof => true,
        XmlEventView::End(_) => open.len() <= 1,
        XmlEventView::Error => open.len() <= 1,
        _ => false,
    }
}

/// Whether the event can be taken without the depth overflowing an `i16`.
pub open spec fn accepts_event(open: Seq<NodeView>, ev: XmlEventView) -> bool {
    match ev {
        XmlEventView::Start { .. } => open.last().indentation_level < i16::MAX,
        XmlEventView::Empty { .. } => open.last().indentation_level < i16::MAX,
        _ => true,
    }
}

/// The open elements after an event that does not end the reading.
pub open spec fn after_event(open: Seq<NodeView>, ev: XmlEventView) -> Seq<NodeView> {
    let k = open.len();
    let top = open[k - 1];
    match ev {
        XmlEventView::Start { name, attributes } => open.push(opened_child(top, name, attributes)),
        XmlEventView::Empty { name, attributes } => open.update(
            k - 1,
            with_child(top, opened_child(top, name, attributes)),
        ),
        XmlEventView::Text(t) => open.update(k - 1, NodeView { inner_text: Some(t), ..top }),
        XmlEventView::End(_) => close_top(open),
        XmlEventView::Error => close_top(open),
        XmlEventView::Eof => open,
    }
}

/// The tree read from `events` when `open` are the elements open so far.
pub open spec fn read_tree(open: Seq<NodeView>, events: Seq<XmlEventView>) -> NodeView
    decreases events.len(),
{
    if events.len() == 0 || ends_reading(open, events[0]) {
        close_all(open)
    } else {
        read_tree(after_event(open, events[0]), events.drop_first())
    }
}

/// Whether no event before the end of the reading would nest elements deeper
/// than an `i16` counts.
pub open spec fn reads_within_depth(open: Seq<NodeView>, events: Seq<XmlEventView>) -> bool
    decreases events.len(),
{
    if events.len() == 0 || ends_reading(open, events[0]) {
        true
    } else {
        accepts_event(open, events[0]) && reads_within_depth(
            after_event(open, events[0]),
            events.drop_first(),
        )
    }
}

/// Builds the tree of a file one reader event at a time.
pub struct NodeBuilder {
    open: Vec<Node>,
    done: bool,
}

impl NodeBuilder {
    /// The elements open so far, outermost first.
    pub closed spec fn open_nodes(&self) -> Seq<NodeView> {
        self.open@.map_values(|n: Node| n@)
    }

    /// Whether the reading has ended.
    pub closed spec fn has_ended(&self) -> bool {
        self.done
    }

    pub closed spec fn wf(&self) -> bool {
        self.open@.len() >= 1
    }

    /// A builder for the file at `file_path`, holding only its root node.
    pub fn new(file_path: &str) -> (r: NodeBuilder)
        ensures
            r.wf(),
            !r.has_ended(),
            r.open_nodes() == seq![root_view(file_path@)],
    {
        let mut attributes: Vec<(String, String)> = Vec::new();
        attributes.push((String::from_str("path"), String::from_str(file_path)));
        let root = Node::new(String::from_str("map_node"), attributes, 0);
        let mut open: Vec<Node> = Vec::new();
        open.push(root);
        let r = NodeBuilder { open, done: false };
        assert(attributes_view(attributes@) =~= seq![("path"@, file_path@)]);
        assert(r.open_nodes() =~= seq![root_view(file_path@)]);
        r
    }

    /// Whether the reading has ended.
    pub fn is_done(&self) -> (r: bool)
        ensures
            r == self.has_ended(),
    {
        self.done
    }

    /// Whether the event can be taken without the depth overflowing.
    pub fn accepts(&self, ev: &XmlEvent) -> (r: bool)
        requires
            self.wf(),
        ensures
            r == accepts_event(self.open_nodes(), ev@),
    {
        let k = self.open.len();
        let top = &self.open[k - 1];
        assert(self.open_nodes().last() == top@);
        match ev {
            XmlEvent::Start { .. } => top.indentation_level < i16::MAX,
            XmlEvent::Empty { .. } => top.indentation_level < i16::MAX,
            _ => true,
        }
    }

    /// Takes the next event of the reader.
    pub fn step(&mut self, ev: XmlEvent)
        requires
            old(self).wf(),
            !old(self).has_ended(),
            accepts_event(old(self).open_nodes(), ev@),
        ensures
            final(self).wf(),
            final(self).has_ended() == ends_reading(old(self).open_nodes(), ev@),
            final(self).has_ended() ==> final(self).open_nodes() == old(self).open_nodes(),
            !final(self).has_ended() ==> final(self).open_nodes() == after_event(
                old(self).open_nodes(),
                ev@,
            ),
    {
        let ghost before = self.open_nodes();
        let k = self.open.len();
        match ev {
            XmlEvent::Start { name, attributes } => {
                let level = self.open[k - 1].indentation_level + 1;
                let child = Node::new(name, attributes, level);
                self.open.push(child);
                assert(self.open_nodes() =~= after_event(before, ev@));
            },
            XmlEvent::Empty { name, attributes } => {
                let mut top = self.open.pop().unwrap();
                let level = top.indentation_level + 1;
                let child = Node::new(name, attributes, level);
                let ghost top_before = top;
                top.children.push(child);
                proof {
                    lemma_view_children(top_before);
                    lemma_view_from_children(top, top_before@.children.push(child@));
                }
                self.open.push(top);
                assert(self.open_nodes() =~= after_event(before, ev@));
            },
            XmlEvent::Text(t) => {
                let mut top = self.open.pop().unwrap();
                top.set_inner_text(t);
                self.open.push(top);
                assert(self.open_nodes() =~= after_event(before, ev@));
            },
            XmlEvent::End(_) | XmlEvent::Error => {
                if k <= 1 {
                    self.done = true;
                } else {
                    self.close_innermost();
                    assert(self.open_nodes() =~= after_event(before, ev@));
                }
            },
            XmlEvent::Eof => {
                self.done = true;
            },
        }
    }

    /// Closes the innermost open element and hangs it under its parent.
    fn close_innermost(&mut self)
        requires
            old(self).open@.len() >= 2,
        ensures
            final(self).open_nodes() == close_top(old(self).open_nodes()),
            final(self).done == old(self).done,
            final(self).open@.len() == old(self).open@.len() - 1,
    {
        let ghost before = self.open_nodes();
        let child = self.open.pop().unwrap();
        let mut parent = self.open.pop().unwrap();
        let ghost parent_before = parent;
        parent.children.push(child);
        proof {
            lemma_view_children(parent_before);
            lemma_view_from_children(parent, parent_before@.children.push(child@));
        }
        self.open.push(parent);
        assert(self.open_nodes() =~= close_top(before));
    }

    /// The tree, once every element still open is closed.
    pub fn finish(self) -> (r: Node)
        requires
            self.wf(),
        ensures
            r@ == close_all(self.open_nodes()),
    {
        let mut b = self;
        while b.open.len() > 1
            invariant
                b.wf(),
                close_all(b.open_nodes()) == close_all(self.open_nodes()),
            decreases b.open@.len(),
        {
            b.close_innermost();
        }
        let mut open = b.open;
        let r = open.pop().unwrap();
        r
    }
}

impl Node {
    /// The tree of the file at `file_path` from the events that an XML reader
    /// gives for it, in order. Reading stops at the end of the file or at the
    /// end of the outermost element; what the events left open is closed.
    pub fn node_from_events(file_path: &str, events: Vec<XmlEvent>) -> (r: Node)
        requires
            reads_within_depth(seq![root_view(file_path@)], events_view(events@)),
        ensures
            r@ == read_tree(seq![root_view(file_path@)], events_view(events@)),
            levels_nonnegative(r@),
    {
        proof {
            lemma_read_tree_levels(file_path@, events_view(events@));
        }
        let ghost all = events_view(events@);
        let ghost root = seq![root_view(file_path@)];
        let mut b = NodeBuilder::new(file_path);
        assert(all.skip(0) == all);
        for ev in it: events
            invariant
                b.wf(),
                all == events_view(it.seq()),
                b.has_ended() ==> read_tree(root, all) == close_all(b.open_nodes()),
                !b.has_ended() ==> read_tree(root, all) == read_tree(
                    b.open_nodes(),
                    all.skip(it.index() as int),
                ),
                !b.has_ended() ==> reads_within_depth(b.open_nodes(), all.skip(it.index() as int)),
        {
            let ghost i = it.index() as int;
            assert(all.skip(i)[0] == ev@);
            assert(all.skip(i).drop_first() == all.skip(i + 1));
            if !b.is_done() {
                b.step(ev);
            }
        }
        b.finish()
    }

    /// The tree of `node_from_events`, or `None` where an event before the end
    /// of the reading would nest elements deeper than an `i16` counts.
    pub fn try_node_from_events(file_path: &str, events: Vec<XmlEvent>) -> (r: Option<Node>)
        ensures
            r matches Some(n) ==> reads_within_depth(seq![root_view(file_path@)], events_view(events@))
                && n@ == read_tree(seq![root_view(file_path@)], events_view(events@)),
            r is None ==> !reads_within_depth(seq![root_view(file_path@)], events_view(events@)),
    {
        let ghost all = events_view(events@);
        let ghost root = seq![root_view(file_path@)];
        let ghost evs = events@;
        let mut b = NodeBuilder::new(file_path);
        assert(all.skip(0) == all);
        for ev in it: events
            invariant
                b.wf(),
                all == events_view(it.seq()),
                all == events_view(evs),
                evs == events@,
                root == seq![root_view(file_path@)],
                b.has_ended() ==> read_tree(root, all) == close_all(b.open_nodes()),
                b.has_ended() ==> reads_within_depth(root, all),
                !b.has_ended() ==> read_tree(root, all) == read_tree(
                    b.open_nodes(),
                    all.skip(it.index() as int),
                ),
                !b.has_ended() ==> (reads_within_depth(root, all) == reads_within_depth(
                    b.open_nodes(),
                    all.skip(it.index() as int),
                )),
        {
            let ghost i = it.index() as int;
            assert(all.skip(i)[0] == ev@);
            assert(all.skip(i).drop_first() == all.skip(i + 1));
            if !b.is_done() {
                if !b.accepts(&ev) {
                    assert(!ends_reading(b.open_nodes(), ev@));
                    assert(!reads_within_depth(b.open_nodes(), all.skip(i)));
                    return None;
                }
                b.step(ev);
            }
        }
        Some(b.finish())
    }
}

// ---------------------------------------------------------------------------
// The levels of a tree read from a file
// ---------------------------------------------------------------------------

/// Whether each child stands one level below its parent, all through the tree.
pub open spec fn levels_follow(n: NodeView) -> bool
    decreases n, n.children.len() + 1,
{
    children_levels_follow_from(n, 0)
}

pub open spec fn children_levels_follow_from(n: NodeView, i: int) -> bool
    decreases n, n.children.len() - i,
{
    if 0 <= i < n.children.len() {
        &&& n.children[i].indentation_level == n.indentation_level + 1
        &&& levels_follow(n.children[i])
        &&& children_levels_follow_from(n, i + 1)
    } else {
        true
    }
}

/// Whether the open elements stand one level below each other, from level 0,
/// and each of their trees so far keeps to the levels.
pub open spec fn open_levels_ok(open: Seq<NodeView>) -> bool {
    &&& open.len() >= 1
    &&& open[0].indentation_level == 0
    &&& forall|i: int| 0 <= i < open.len() ==> levels_follow(#[trigger] open[i])
    &&& forall|i: int|
        0 < i < open.len() ==> (#[trigger] open[i]).indentation_level == open[i - 1].indentation_level + 1
}

proof fn lemma_children_levels_same(n: NodeView, m: NodeView, i: int)
    requires
        n.children == m.children,
        n.indentation_level == m.indentation_level,
    ensures
        children_levels_follow_from(n, i) == children_levels_follow_from(m, i),
    decreases n.children.len() - i,
{
    if 0 <= i < n.children.len() {
        lemma_children_levels_same(n, m, i + 1);
    }
}

proof fn lemma_children_levels_push(n: NodeView, c: NodeView, i: int)
    requires
        0 <= i <= n.children.len(),
        children_levels_follow_from(n, i),
        levels_follow(c),
        c.indentation_level == n.indentation_level + 1,
    ensures
        children_levels_follow_from(with_child(n, c), i),
    decreases n.children.len() - i,
{
    let m = with_child(n, c);
    if i < n.children.len() {
        assert(m.children[i] == n.children[i]);
        lemma_children_levels_push(n, c, i + 1);
    } else {
        assert(m.children[i] == c);
        assert(children_levels_follow_from(m, i + 1));
    }
}

proof fn lemma_after_event_levels(open: Seq<NodeView>, ev: XmlEventView)
    requires
        open_levels_ok(open),
        accepts_event(open, ev),
        !ends_reading(open, ev),
    ensures
        open_levels_ok(after_event(open, ev)),
{
    let k = open.len();
    let top = open[k - 1];
    let next = after_event(open, ev);
    assert(levels_follow(top));
    match ev {
        XmlEventView::Start { name, attributes } => {
            let c = opened_child(top, name, attributes);
            assert(levels_follow(c));
            assert(next[k as int] == c);
            assert forall|i: int| 0 <= i < next.len() implies levels_follow(#[trigger] next[i]) by {
                if i < k {
                    assert(next[i] == open[i]);
                }
            }
            assert forall|i: int| 0 < i < next.len() implies (#[trigger] next[i]).indentation_level
                == next[i - 1].indentation_level + 1 by {
                if i < k {
                    assert(next[i] == open[i]);
                    assert(next[i - 1] == open[i - 1]);
                }
            }
        },
        XmlEventView::Empty { name, attributes } => {
            let c = opened_child(top, name, attributes);
            assert(levels_follow(c));
            lemma_children_levels_push(top, c, 0);
            assert forall|i: int| 0 <= i < next.len() implies levels_follow(#[trigger] next[i]) by {
                if i < k - 1 {
                    assert(next[i] == open[i]);
                }
            }
            assert forall|i: int| 0 < i < next.len() implies (#[trigger] next[i]).indentation_level
                == next[i - 1].indentation_level + 1 by {
                assert(next[i - 1].indentation_level == open[i - 1].indentation_level);
                assert(next[i].indentation_level == open[i].indentation_level);
            }
        },
        XmlEventView::Text(t) => {
            let top2 = NodeView { inner_text: Some(t), ..top };
            lemma_children_levels_same(top, top2, 0);
            assert forall|i: int| 0 <= i < next.len() implies levels_follow(#[trigger] next[i]) by {
                if i < k - 1 {
                    assert(next[i] == open[i]);
                }
            }
            assert forall|i: int| 0 < i < next.len() implies (#[trigger] next[i]).indentation_level
                == next[i - 1].indentation_level + 1 by {
                assert(next[i - 1].indentation_level == open[i - 1].indentation_level);
                assert(next[i].indentation_level == open[i].indentation_level);
            }
        },
        XmlEventView::Eof => {},
        _ => {
            lemma_close_top_levels(open);
        },
    }
}

proof fn lemma_close_top_levels(open: Seq<NodeView>)
    requires
        open_levels_ok(open),
        open.len() >= 2,
    ensures
        open_levels_ok(close_top(open)),
{
    let k = open.len();
    let next = close_top(open);
    let parent = open[k - 2];
    let child = open[k - 1];
    assert(levels_follow(parent));
    assert(levels_follow(child));
    assert(child.indentation_level == parent.indentation_level + 1);
    lemma_children_levels_push(parent, child, 0);
    assert(next[k - 2] == with_child(parent, child));
    assert forall|i: int| 0 <= i < next.len() implies levels_follow(#[trigger] next[i]) by {
        if i < k - 2 {
            assert(next[i] == open[i]);
        }
    }
    assert forall|i: int| 0 < i < next.len() implies (#[trigger] next[i]).indentation_level
        == next[i - 1].indentation_level + 1 by {
        assert(next[i - 1].indentation_level == open[i - 1].indentation_level);
        assert(next[i].indentation_level == open[i].indentation_level);
    }
}

proof fn lemma_close_all_levels(open: Seq<NodeView>)
    requires
        open_levels_ok(open),
    ensures
        close_all(open).indentation_level == 0,
        levels_follow(close_all(open)),
    decreases open.len(),
{
    if open.len() > 1 {
        lemma_close_top_levels(open);
        lemma_close_all_levels(close_top(open));
    }
}

proof fn lemma_read_tree_levels_from(open: Seq<NodeView>, events: Seq<XmlEventView>)
    requires
        open_levels_ok(open),
        reads_within_depth(open, events),
    ensures
        read_tree(open, events).indentation_level == 0,
        levels_follow(read_tree(open, events)),
    decreases events.len(),
{
    if events.len() == 0 || ends_reading(open, events[0]) {
        lemma_close_all_levels(open);
    } else {
        lemma_after_event_levels(open, events[0]);
        lemma_read_tree_levels_from(after_event(open, events[0]), events.drop_first());
    }
}

proof fn lemma_levels_follow_nonnegative(n: NodeView)
    requires
        levels_follow(n),
        n.indentation_level >= 0,
    ensures
        levels_nonnegative(n),
    decreases n, n.children.len() + 1,
{
    lemma_children_follow_nonnegative(n, 0);
}

proof fn lemma_children_follow_nonnegative(n: NodeView, i: int)
    requires
        children_levels_follow_from(n, i),
        n.indentation_level >= 0,
    ensures
        children_levels_nonnegative_from(n, i),
    decreases n, n.children.len() - i,
{
    if 0 <= i < n.children.len() {
        lemma_levels_follow_nonnegative(n.children[i]);
        lemma_children_follow_nonnegative(n, i + 1);
    }
}

/// In the tree read from the events of a file, the root stands at level 0
/// and every element one level below its parent; so no level is negative.
pub proof fn lemma_read_tree_levels(file_path: Seq<char>, events: Seq<XmlEventView>)
    requires
        reads_within_depth(seq![root_view(file_path)], events),
    ensures
        read_tree(seq![root_view(file_path)], events).indentation_level == 0,
        levels_follow(read_tree(seq![root_view(file_path)], events)),
        levels_nonnegative(read_tree(seq![root_view(file_path)], events)),
{
    let root = seq![root_view(file_path)];
    assert(levels_follow(root[0]));
    assert(open_levels_ok(root));
    lemma_read_tree_levels_from(root, events);
    lemma_levels_follow_nonnegative(read_tree(root, events));
}

// ---------------------------------------------------------------------------
// The kinds of element found in a tree
// ---------------------------------------------------------------------------

/// One kind of element found in a tree: its name, every attribute name met on
/// elements of that name, and for each attribute every value met. Only the
/// survey of kinds makes and changes one; it keeps one list of values per
/// attribute.
#[derive(Debug)]
pub struct StructTypes {
    name: String,
    attributes: Vec<String>,
    attribute_values: Vec<Vec<String>>,
}

pub struct StructTypesView {
    pub name: Seq<char>,
    pub attributes: Seq<Seq<char>>,
    pub attribute_values: Seq<Seq<Seq<char>>>,
}

pub open spec fn strings_view(v: Seq<String>) -> Seq<Seq<char>> {
    v.map_values(|s: String| s@)
}

impl StructTypes {
    /// One list of values per attribute.
    #[verifier::type_invariant]
    spec fn one_list_per_attribute(self) -> bool {
        self.attributes@.len() == self.attribute_values@.len()
    }
}

impl View for StructTypes {
    type V = StructTypesView;

    closed spec fn view(&self) -> StructTypesView {
        StructTypesView {
            name: self.name@,
            attributes: strings_view(self.attributes@),
            attribute_values: self.attribute_values@.map_values(|v: Vec<String>| strings_view(v@)),
        }
    }
}

pub open spec fn types_view(t: Seq<StructTypes>) -> Seq<StructTypesView> {
    t.map_values(|x: StructTypes| x@)
}

/// The index of the first text equal to `key` from the `i`-th on, or -1.
pub open spec fn index_of_text_from(texts: Seq<Seq<char>>, key: Seq<char>, i: int) -> int
    decreases texts.len() - i,
{
    if i < 0 || i >= texts.len() {
        -1
    } else if texts[i] == key {
        i
    } else {
        index_of_text_from(texts, key, i + 1)
    }
}

/// The index of the first kind called `name`, or -1.
pub open spec fn index_of_type_from(types: Seq<StructTypesView>, name: Seq<char>, i: int) -> int
    decreases types.len() - i,
{
    if i < 0 || i >= types.len() {
        -1
    } else if types[i].name == name {
        i
    } else {
        index_of_type_from(types, name, i + 1)
    }
}

/// A kind after one more attribute of an element of that kind was seen.
pub open spec fn with_attribute(t: StructTypesView, key: Seq<char>, value: Seq<char>) -> StructTypesView {
    let ii = index_of_text_from(t.attributes, key, 0);
    if ii >= 0 {
        if t.attribute_values[ii].contains(value) {
            t
        } else {
            StructTypesView {
                attribute_values: t.attribute_values.update(ii, t.attribute_values[ii].push(value)),
                ..t
            }
        }
    } else {
        StructTypesView {
            attributes: t.attributes.push(key),
            attribute_values: t.attribute_values.push(seq![value]),
            ..t
        }
    }
}

/// A kind after the attributes `attrs` of one more element were seen, in order.
pub open spec fn with_attributes(t: StructTypesView, attrs: Seq<(Seq<char>, Seq<char>)>) -> StructTypesView
    decreases attrs.len(),
{
    if attrs.len() == 0 {
        t
    } else {
        with_attributes(with_attribute(t, attrs[0].0, attrs[0].1), attrs.drop_first())
    }
}

/// The kind first met in element `n`.
pub open spec fn new_type(n: NodeView) -> StructTypesView {
    StructTypesView {
        name: n.name,
        attributes: n.attributes.map_values(|a: (Seq<char>, Seq<char>)| a.0),
        attribute_values: n.attributes.map_values(|a: (Seq<char>, Seq<char>)| seq![a.1]),
    }
}

/// The kinds after element `n` (without its children) was seen.
pub open spec fn with_node(types: Seq<StructTypesView>, n: NodeView) -> Seq<StructTypesView> {
    let i = index_of_type_from(types, n.name, 0);
    if i >= 0 {
        types.update(i, with_attributes(types[i], n.attributes))
    } else {
        types.push(new_type(n))
    }
}

/// The kinds after the whole tree `n` was seen, each element before its
/// children and the children in order.
pub open spec fn with_tree(types: Seq<StructTypesView>, n: NodeView) -> Seq<StructTypesView>
    decreases n, n.children.len() + 1,
{
    with_subtrees_from(with_node(types, n), n, 0)
}

/// The kinds after the children of `n` from the `i`-th on were seen.
pub open spec fn with_subtrees_from(types: Seq<StructTypesView>, n: NodeView, i: int) -> Seq<
    StructTypesView,
>
    decreases n, n.children.len() - i,
{
    if 0 <= i < n.children.len() {
        with_subtrees_from(with_tree(types, n.children[i]), n, i + 1)
    } else {
        types
    }
}

impl Node {
    /// Every kind of element in the tree rooted here, in the order in which
    /// each kind is first met.
    pub fn get_struct_types(&self) -> (r: Vec<StructTypes>)
        ensures
            types_view(r@) == with_tree(Seq::empty(), self@),
    {
        let mut struct_types: Vec<StructTypes> = Vec::new();
        assert(types_view(struct_types@) =~= Seq::<StructTypesView>::empty());
        update_or_create_new_struct_type(self, &mut struct_types);
        struct_types
    }
}

/// The kind `t` after one more attribute of an element of that kind was seen.
fn with_noted_attribute(t: StructTypes, key: &String, value: &String) -> (r: StructTypes)
    ensures
        r@ == with_attribute(t@, key@, value@),
{
    proof {
        use_type_invariant(&t);
    }
    let ghost tv = t@;
    let StructTypes { name, mut attributes, mut attribute_values } = t;
    let mut ii: usize = 0;
    let mut found = false;
    while ii < attributes.len() && !found
        invariant
            tv.attributes == strings_view(attributes@),
            tv.attribute_values == attribute_values@.map_values(|v: Vec<String>| strings_view(v@)),
            attributes@.len() == attribute_values@.len(),
            0 <= ii <= attributes@.len(),
            found ==> ii < attributes@.len() && index_of_text_from(tv.attributes, key@, 0) == ii,
            !found ==> index_of_text_from(tv.attributes, key@, 0) == index_of_text_from(
                tv.attributes,
                key@,
                ii as int,
            ),
        decreases attributes@.len() - ii + (if found { 0int } else { 1int }),
    {
        assert(tv.attributes[ii as int] == attributes@[ii as int]@);
        if same_text(&attributes[ii], key) {
            found = true;
        } else {
            ii = ii + 1;
        }
    }
    if found {
        let ghost old_av = attribute_values@;
        let mut values = attribute_values.remove(ii);
        let ghost vals = strings_view(values@);
        assert(vals == tv.attribute_values[ii as int]);
        let mut present = false;
        for j in 0..values.len()
            invariant
                vals == strings_view(values@),
                present == (exists|k: int| 0 <= k < j && #[trigger] vals[k] == value@),
        {
            assert(vals[j as int] == values@[j as int]@);
            if same_text(&values[j], value) {
                present = true;
            }
        }
        if !present {
            assert(!vals.contains(value@));
            values.push(value.clone());
        } else {
            proof {
                let k = choose|k: int| 0 <= k < values@.len() && vals[k] == value@;
                assert(vals[k] == value@);
                assert(vals.contains(value@));
            }
        }
        let ghost new_vals = strings_view(values@);
        attribute_values.insert(ii, values);
        assert(attribute_values@ =~= old_av.update(ii as int, values));
        assert(new_vals == with_attribute(tv, key@, value@).attribute_values[ii as int]);
        let r = StructTypes { name, attributes, attribute_values };
        assert(r@.attributes == tv.attributes);
        assert(r@.attribute_values =~= with_attribute(tv, key@, value@).attribute_values);
        r
    } else {
        attributes.push(key.clone());
        let mut values: Vec<String> = Vec::new();
        values.push(value.clone());
        let ghost av0 = attribute_values@;
        attribute_values.push(values);
        let r = StructTypes { name, attributes, attribute_values };
        assert(r@.attributes =~= tv.attributes.push(key@));
        assert(strings_view(values@) =~= seq![value@]);
        assert(r@.attribute_values =~= tv.attribute_values.push(seq![value@]));
        r
    }
}

/// Notes the element `an_object` and then, in order, every element below it.
pub fn update_or_create_new_struct_type(an_object: &Node, all_struct_types: &mut Vec<StructTypes>)
    ensures
        types_view(final(all_struct_types)@) == with_tree(
            types_view(old(all_struct_types)@),
            an_object@,
        ),
    decreases an_object,
{
    let ghost before = types_view(all_struct_types@);
    let ghost nv = an_object@;
    // (1) Search for the kind of `an_object`.
    let mut i: usize = 0;
    let mut found = false;
    while i < all_struct_types.len() && !found
        invariant
            before == types_view(all_struct_types@),
            nv == an_object@,
            0 <= i <= all_struct_types@.len(),
            found ==> i < all_struct_types@.len() && index_of_type_from(before, nv.name, 0) == i,
            !found ==> index_of_type_from(before, nv.name, 0) == index_of_type_from(
                before,
                nv.name,
                i as int,
            ),
        decreases all_struct_types@.len() - i + (if found { 0int } else { 1int }),
    {
        assert(before[i as int] == all_struct_types@[i as int]@);
        if same_text(&all_struct_types[i].name, &an_object.name) {
            found = true;
        } else {
            i = i + 1;
        }
    }
    if found {
        // (2) The kind is known: note every attribute of `an_object`.
        let mut t = all_struct_types.remove(i);
        let ghost t0 = t@;
        let ghost attrs = nv.attributes;
        assert(attrs.skip(0) == attrs);
        for a in 0..an_object.attributes.len()
            invariant
                attrs == attributes_view(an_object.attributes@),
                with_attributes(t0, attrs) == with_attributes(t@, attrs.skip(a as int)),
        {
            t = with_noted_attribute(t, &an_object.attributes[a].0, &an_object.attributes[a].1);
            assert(attrs.skip(a as int)[0] == attrs[a as int]);
            assert(attrs.skip(a as int).drop_first() == attrs.skip(a + 1));
        }
        assert(attrs.skip(an_object.attributes.len() as int).len() == 0);
        all_struct_types.insert(i, t);
        assert(types_view(all_struct_types@) =~= with_node(before, nv));
    } else {
        // (3) A new kind.
        let mut attributes: Vec<String> = Vec::new();
        let mut attribute_values: Vec<Vec<String>> = Vec::new();
        let ghost attrs = nv.attributes;
        for a in 0..an_object.attributes.len()
            invariant
                attrs == attributes_view(an_object.attributes@),
                attributes@.len() == a,
                attribute_values@.len() == a,
                strings_view(attributes@) =~= attrs.take(a as int).map_values(
                    |x: (Seq<char>, Seq<char>)| x.0,
                ),
                attribute_values@.map_values(|v: Vec<String>| strings_view(v@)) =~= attrs.take(
                    a as int,
                ).map_values(|x: (Seq<char>, Seq<char>)| seq![x.1]),
        {
            assert(attrs[a as int] == (an_object.attributes@[a as int].0@, an_object.attributes@[a as int].1@));
            let ghost names0 = strings_view(attributes@);
            let ghost vals0 = attribute_values@.map_values(|v: Vec<String>| strings_view(v@));
            attributes.push(an_object.attributes[a].0.clone());
            assert(strings_view(attributes@) =~= names0.push(attrs[a as int].0));
            let mut values: Vec<String> = Vec::new();
            values.push(an_object.attributes[a].1.clone());
            assert(strings_view(values@) =~= seq![attrs[a as int].1]);
            attribute_values.push(values);
            assert(attribute_values@.map_values(|v: Vec<String>| strings_view(v@)) =~= vals0.push(seq![attrs[a as int].1]));
            assert(attrs.take(a + 1) =~= attrs.take(a as int).push(attrs[a as int]));
        }
        assert(attrs.take(an_object.attributes.len() as int) == attrs);
        let t = StructTypes { name: an_object.get_name(), attributes, attribute_values };
        all_struct_types.push(t);
        assert(types_view(all_struct_types@) =~= with_node(before, nv));
    }
    // (4) Then every child, in order.
    let ghost after_node = types_view(all_struct_types@);
    proof {
        lemma_view_children(*an_object);
    }
    for c in 0..an_object.children.len()
        invariant
            nv == an_object@,
            nv.children.len() == an_object.children@.len(),
            forall|j: int| 0 <= j < an_object.children@.len() ==> #[trigger] nv.children[j] == an_object.children@[j]@,
            with_subtrees_from(after_node, nv, 0) == with_subtrees_from(
                types_view(all_struct_types@),
                nv,
                c as int,
            ),
    {
        assert(decreases_to!(*an_object => an_object.children));
        assert(decreases_to!(an_object.children => an_object.children@));
        assert(decreases_to!(an_object.children@ => an_object.children@[c as int]));
        update_or_create_new_struct_type(&an_object.children[c], all_struct_types);
    }
}

// ---------------------------------------------------------------------------
// What the survey of kinds records
// ---------------------------------------------------------------------------

/// Whether each kind has one list of values per attribute.
pub open spec fn kinds_wf(ts: Seq<StructTypesView>) -> bool {
    forall|k: int| 0 <= k < ts.len() ==> (#[trigger] ts[k]).attributes.len() == ts[k].attribute_values.len()
}

/// Whether no two kinds have the same name.
pub open spec fn names_distinct(ts: Seq<StructTypesView>) -> bool {
    forall|i: int, j: int| 0 <= i < j < ts.len() ==> (#[trigger] ts[i]).name != (#[trigger] ts[j]).name
}

/// Whether the kind records the attribute `key` with the value `value`.
pub open spec fn kind_records(t: StructTypesView, key: Seq<char>, value: Seq<char>) -> bool {
    exists|ii: int|
        0 <= ii < t.attributes.len() && #[trigger] t.attributes[ii] == key
            && t.attribute_values[ii].contains(value)
}

/// Whether a kind named like the element records each of its attributes with
/// its value.
pub open spec fn records_element(ts: Seq<StructTypesView>, n: NodeView) -> bool {
    exists|k: int|
        0 <= k < ts.len() && #[trigger] ts[k].name == n.name && forall|a: int|
            0 <= a < n.attributes.len() ==> kind_records(ts[k], (#[trigger] n.attributes[a]).0, n.attributes[a].1)
}

/// Whether the kinds record every element of the tree.
pub open spec fn records_tree(ts: Seq<StructTypesView>, n: NodeView) -> bool
    decreases n, n.children.len() + 1,
{
    records_element(ts, n) && records_subtrees_from(ts, n, 0)
}

pub open spec fn records_subtrees_from(ts: Seq<StructTypesView>, n: NodeView, i: int) -> bool
    decreases n, n.children.len() - i,
{
    if 0 <= i < n.children.len() {
        records_tree(ts, n.children[i]) && records_subtrees_from(ts, n, i + 1)
    } else {
        true
    }
}

/// Whether `t2` is `t` with, at most, more attributes and more values.
pub open spec fn kind_extends(t: StructTypesView, t2: StructTypesView) -> bool {
    &&& t2.name == t.name
    &&& t.attributes.len() <= t2.attributes.len()
    &&& forall|ii: int|
        0 <= ii < t.attributes.len() ==> #[trigger] t2.attributes[ii] == t.attributes[ii] && forall|
            v: Seq<char>,
        | #[trigger] t.attribute_values[ii].contains(v) ==> t2.attribute_values[ii].contains(v)
}

/// Whether `ts2` is `ts` with, at most, more kinds, more attributes and more
/// values.
pub open spec fn kinds_extend(ts: Seq<StructTypesView>, ts2: Seq<StructTypesView>) -> bool {
    &&& ts.len() <= ts2.len()
    &&& forall|k: int| 0 <= k < ts.len() ==> kind_extends(#[trigger] ts[k], ts2[k])
}

proof fn lemma_kinds_extend_trans(a: Seq<StructTypesView>, b: Seq<StructTypesView>, c: Seq<StructTypesView>)
    requires
        kinds_extend(a, b),
        kinds_extend(b, c),
    ensures
        kinds_extend(a, c),
{
    assert forall|k: int| 0 <= k < a.len() implies kind_extends(#[trigger] a[k], c[k]) by {
        assert(kind_extends(a[k], b[k]));
        assert(kind_extends(b[k], c[k]));
        assert forall|ii: int| 0 <= ii < a[k].attributes.len() implies #[trigger] c[k].attributes[ii]
            == a[k].attributes[ii] && forall|v: Seq<char>|
            #[trigger] a[k].attribute_values[ii].contains(v) ==> c[k].attribute_values[ii].contains(v) by {
            assert(b[k].attributes[ii] == a[k].attributes[ii]);
            assert(c[k].attributes[ii] == b[k].attributes[ii]);
            assert forall|v: Seq<char>| #[trigger] a[k].attribute_values[ii].contains(v) implies c[k].attribute_values[ii].contains(v) by {
                assert(b[k].attribute_values[ii].contains(v));
            }
        }
    }
}

proof fn lemma_kinds_extend_refl(a: Seq<StructTypesView>)
    ensures
        kinds_extend(a, a),
{
}

proof fn lemma_records_element_mono(ts: Seq<StructTypesView>, ts2: Seq<StructTypesView>, n: NodeView)
    requires
        records_element(ts, n),
        kinds_extend(ts, ts2),
    ensures
        records_element(ts2, n),
{
    let k = choose|k: int|
        0 <= k < ts.len() && #[trigger] ts[k].name == n.name && forall|a: int|
            0 <= a < n.attributes.len() ==> kind_records(ts[k], (#[trigger] n.attributes[a]).0, n.attributes[a].1);
    assert(kind_extends(ts[k], ts2[k]));
    assert forall|a: int| 0 <= a < n.attributes.len() implies kind_records(
        ts2[k],
        (#[trigger] n.attributes[a]).0,
        n.attributes[a].1,
    ) by {
        assert(kind_records(ts[k], n.attributes[a].0, n.attributes[a].1));
        let ii = choose|ii: int|
            0 <= ii < ts[k].attributes.len() && #[trigger] ts[k].attributes[ii] == n.attributes[a].0
                && ts[k].attribute_values[ii].contains(n.attributes[a].1);
        assert(ts2[k].attributes[ii] == ts[k].attributes[ii]);
        assert(ts2[k].attribute_values[ii].contains(n.attributes[a].1));
    }
    assert(ts2[k].name == n.name);
}

proof fn lemma_records_tree_mono(ts: Seq<StructTypesView>, ts2: Seq<StructTypesView>, n: NodeView)
    requires
        records_tree(ts, n),
        kinds_extend(ts, ts2),
    ensures
        records_tree(ts2, n),
    decreases n, n.children.len() + 1,
{
    lemma_records_element_mono(ts, ts2, n);
    lemma_records_subtrees_mono(ts, ts2, n, 0);
}

proof fn lemma_records_subtrees_mono(ts: Seq<StructTypesView>, ts2: Seq<StructTypesView>, n: NodeView, i: int)
    requires
        records_subtrees_from(ts, n, i),
        kinds_extend(ts, ts2),
    ensures
        records_subtrees_from(ts2, n, i),
    decreases n, n.children.len() - i,
{
    if 0 <= i < n.children.len() {
        lemma_records_tree_mono(ts, ts2, n.children[i]);
        lemma_records_subtrees_mono(ts, ts2, n, i + 1);
    }
}

proof fn lemma_index_of_text(texts: Seq<Seq<char>>, key: Seq<char>, i: int)
    requires
        0 <= i,
    ensures
        index_of_text_from(texts, key, i) == -1 || (i <= index_of_text_from(texts, key, i) < texts.len()
            && texts[index_of_text_from(texts, key, i)] == key),
    decreases texts.len() - i,
{
    if i < texts.len() && texts[i] != key {
        lemma_index_of_text(texts, key, i + 1);
    }
}

proof fn lemma_index_of_type(types: Seq<StructTypesView>, name: Seq<char>, i: int)
    requires
        0 <= i,
    ensures
        index_of_type_from(types, name, i) == -1 ==> forall|j: int| i <= j < types.len() ==> (#[trigger] types[j]).name != name,
        index_of_type_from(types, name, i) != -1 ==> i <= index_of_type_from(types, name, i) < types.len()
            && types[index_of_type_from(types, name, i)].name == name,
    decreases types.len() - i,
{
    if i < types.len() && types[i].name != name {
        lemma_index_of_type(types, name, i + 1);
    }
}

proof fn lemma_with_attribute(t: StructTypesView, key: Seq<char>, value: Seq<char>)
    requires
        t.attributes.len() == t.attribute_values.len(),
    ensures
        with_attribute(t, key, value).attributes.len() == with_attribute(t, key, value).attribute_values.len(),
        kind_extends(t, with_attribute(t, key, value)),
        kind_records(with_attribute(t, key, value), key, value),
{
    let r = with_attribute(t, key, value);
    let ii = index_of_text_from(t.attributes, key, 0);
    lemma_index_of_text(t.attributes, key, 0);
    if ii >= 0 {
        if t.attribute_values[ii].contains(value) {
            assert(r.attributes[ii] == key);
        } else {
            assert(r.attribute_values[ii] == t.attribute_values[ii].push(value));
            assert(r.attribute_values[ii][t.attribute_values[ii].len() as int] == value);
            assert(r.attributes[ii] == key);
            assert forall|jj: int| 0 <= jj < t.attributes.len() implies #[trigger] r.attributes[jj]
                == t.attributes[jj] && forall|v: Seq<char>|
                #[trigger] t.attribute_values[jj].contains(v) ==> r.attribute_values[jj].contains(v) by {
                assert forall|v: Seq<char>| #[trigger] t.attribute_values[jj].contains(v) implies r.attribute_values[jj].contains(v) by {
                    if jj == ii {
                        let w = choose|w: int| 0 <= w < t.attribute_values[jj].len() && t.attribute_values[jj][w] == v;
                        assert(r.attribute_values[jj][w] == v);
                    }
                }
            }
        }
    } else {
        let n = t.attributes.len() as int;
        assert(r.attributes[n] == key);
        assert(r.attribute_values[n] == seq![value]);
        assert(r.attribute_values[n][0] == value);
        assert forall|jj: int| 0 <= jj < t.attributes.len() implies #[trigger] r.attributes[jj]
            == t.attributes[jj] && forall|v: Seq<char>|
            #[trigger] t.attribute_values[jj].contains(v) ==> r.attribute_values[jj].contains(v) by {
            assert(r.attribute_values[jj] == t.attribute_values[jj]);
        }
    }
}

proof fn lemma_kind_extends_trans(a: StructTypesView, b: StructTypesView, c: StructTypesView)
    requires
        kind_extends(a, b),
        kind_extends(b, c),
    ensures
        kind_extends(a, c),
{
    lemma_kinds_extend_trans(seq![a], seq![b], seq![c]);
    assert(kinds_extend(seq![a], seq![b]) ==> kind_extends(seq![a][0], seq![b][0]));
    assert(kinds_extend(seq![a], seq![c]) ==> kind_extends(seq![a][0], seq![c][0]));
}

proof fn lemma_kind_records_mono(t: StructTypesView, t2: StructTypesView, key: Seq<char>, value: Seq<char>)
    requires
        kind_records(t, key, value),
        kind_extends(t, t2),
    ensures
        kind_records(t2, key, value),
{
    let ii = choose|ii: int|
        0 <= ii < t.attributes.len() && #[trigger] t.attributes[ii] == key && t.attribute_values[ii].contains(value);
    assert(t2.attributes[ii] == t.attributes[ii]);
    assert(t2.attribute_values[ii].contains(value));
}

proof fn lemma_with_attributes(t: StructTypesView, attrs: Seq<(Seq<char>, Seq<char>)>)
    requires
        t.attributes.len() == t.attribute_values.len(),
    ensures
        with_attributes(t, attrs).attributes.len() == with_attributes(t, attrs).attribute_values.len(),
        kind_extends(t, with_attributes(t, attrs)),
        forall|a: int| 0 <= a < attrs.len() ==> kind_records(with_attributes(t, attrs), (#[trigger] attrs[a]).0, attrs[a].1),
    decreases attrs.len(),
{
    if attrs.len() == 0 {
        assert(kind_extends(t, t));
    } else {
        let t1 = with_attribute(t, attrs[0].0, attrs[0].1);
        lemma_with_attribute(t, attrs[0].0, attrs[0].1);
        let rest = attrs.drop_first();
        lemma_with_attributes(t1, rest);
        let r = with_attributes(t1, rest);
        lemma_kind_extends_trans(t, t1, r);
        assert forall|a: int| 0 <= a < attrs.len() implies kind_records(r, (#[trigger] attrs[a]).0, attrs[a].1) by {
            if a == 0 {
                lemma_kind_records_mono(t1, r, attrs[0].0, attrs[0].1);
            } else {
                assert(attrs[a] == rest[a - 1]);
            }
        }
    }
}

proof fn lemma_with_node(ts: Seq<StructTypesView>, n: NodeView)
    requires
        kinds_wf(ts),
    ensures
        kinds_wf(with_node(ts, n)),
        kinds_extend(ts, with_node(ts, n)),
        records_element(with_node(ts, n), n),
        names_distinct(ts) ==> names_distinct(with_node(ts, n)),
{
    let r = with_node(ts, n);
    let i = index_of_type_from(ts, n.name, 0);
    lemma_index_of_type(ts, n.name, 0);
    if i >= 0 {
        assert(ts[i].attributes.len() == ts[i].attribute_values.len());
        lemma_with_attributes(ts[i], n.attributes);
        assert forall|k: int| 0 <= k < ts.len() implies kind_extends(#[trigger] ts[k], r[k]) by {
            if k != i {
                assert(r[k] == ts[k]);
            }
        }
        assert(r[i].name == n.name);
        assert forall|k: int| 0 <= k < r.len() implies (#[trigger] r[k]).attributes.len() == r[k].attribute_values.len() by {
            if k != i {
                assert(r[k] == ts[k]);
            }
        }
        if names_distinct(ts) {
            assert forall|a: int, b: int| 0 <= a < b < r.len() implies (#[trigger] r[a]).name != (#[trigger] r[b]).name by {
                assert(r[a].name == ts[a].name);
                assert(r[b].name == ts[b].name);
            }
        }
    } else {
        let nt = new_type(n);
        let m = ts.len() as int;
        assert(r[m] == nt);
        assert forall|a: int| 0 <= a < n.attributes.len() implies kind_records(r[m], (#[trigger] n.attributes[a]).0, n.attributes[a].1) by {
            assert(nt.attributes[a] == n.attributes[a].0);
            assert(nt.attribute_values[a] == seq![n.attributes[a].1]);
            assert(nt.attribute_values[a][0] == n.attributes[a].1);
        }
        assert(r[m].name == n.name);
        assert forall|k: int| 0 <= k < ts.len() implies kind_extends(#[trigger] ts[k], r[k]) by {
            assert(r[k] == ts[k]);
        }
        assert forall|k: int| 0 <= k < r.len() implies (#[trigger] r[k]).attributes.len() == r[k].attribute_values.len() by {
            if k < m {
                assert(r[k] == ts[k]);
            }
        }
        if names_distinct(ts) {
            assert forall|a: int, b: int| 0 <= a < b < r.len() implies (#[trigger] r[a]).name != (#[trigger] r[b]).name by {
                assert(r[a] == ts[a]);
                if b < m {
                    assert(r[b] == ts[b]);
                }
            }
        }
    }
}

proof fn lemma_with_tree(ts: Seq<StructTypesView>, n: NodeView)
    requires
        kinds_wf(ts),
    ensures
        kinds_wf(with_tree(ts, n)),
        kinds_extend(ts, with_tree(ts, n)),
        records_tree(with_tree(ts, n), n),
        names_distinct(ts) ==> names_distinct(with_tree(ts, n)),
    decreases n, n.children.len() + 1,
{
    let t1 = with_node(ts, n);
    lemma_with_node(ts, n);
    lemma_with_subtrees(t1, n, 0);
    let r = with_tree(ts, n);
    lemma_kinds_extend_trans(ts, t1, r);
    lemma_records_element_mono(t1, r, n);
}

proof fn lemma_with_subtrees(ts: Seq<StructTypesView>, n: NodeView, i: int)
    requires
        kinds_wf(ts),
    ensures
        kinds_wf(with_subtrees_from(ts, n, i)),
        kinds_extend(ts, with_subtrees_from(ts, n, i)),
        records_subtrees_from(with_subtrees_from(ts, n, i), n, i),
        names_distinct(ts) ==> names_distinct(with_subtrees_from(ts, n, i)),
    decreases n, n.children.len() - i,
{
    if 0 <= i < n.children.len() {
        let t1 = with_tree(ts, n.children[i]);
        lemma_with_tree(ts, n.children[i]);
        lemma_with_subtrees(t1, n, i + 1);
        let r = with_subtrees_from(t1, n, i + 1);
        lemma_kinds_extend_trans(ts, t1, r);
        lemma_records_tree_mono(t1, r, n.children[i]);
    } else {
        lemma_kinds_extend_refl(ts);
    }
}

/// The survey of a tree (`get_struct_types`) has exactly one kind per element
/// name, and for every element of the tree the kind of its name records each
/// of the element's attributes with its value.
pub proof fn lemma_struct_types_survey(n: NodeView)
    ensures
        kinds_wf(with_tree(Seq::empty(), n)),
        names_distinct(with_tree(Seq::empty(), n)),
        records_tree(with_tree(Seq::empty(), n), n),
{
    lemma_with_tree(Seq::empty(), n);
}

/// Whether `a` is a prefix of `b`.
pub open spec fn seq_prefix<A>(a: Seq<A>, b: Seq<A>) -> bool {
    a.len() <= b.len() && forall|j: int| 0 <= j < a.len() ==> #[trigger] b[j] == a[j]
}

/// Whether `t2` is `t` grown at the ends only: same name, the attributes of
/// `t` first and in order, and each list of values of `t` a prefix of the
/// list of the same attribute in `t2`.
pub open spec fn kind_grows(t: StructTypesView, t2: StructTypesView) -> bool {
    &&& t2.name == t.name
    &&& seq_prefix(t.attributes, t2.attributes)
    &&& t.attribute_values.len() <= t2.attribute_values.len()
    &&& forall|ii: int|
        0 <= ii < t.attribute_values.len() ==> seq_prefix(
            #[trigger] t.attribute_values[ii],
            t2.attribute_values[ii],
        )
}

/// Whether `ts2` keeps every kind of `ts` in its place, each grown at the
/// ends only (see `kind_grows`), and may have more kinds after them.
pub open spec fn kinds_grow(ts: Seq<StructTypesView>, ts2: Seq<StructTypesView>) -> bool {
    &&& ts.len() <= ts2.len()
    &&& forall|k: int| 0 <= k < ts.len() ==> kind_grows(#[trigger] ts[k], ts2[k])
}

/// Whether no value occurs twice in the list.
pub open spec fn values_distinct(vals: Seq<Seq<char>>) -> bool {
    forall|i: int, j: int| 0 <= i < j < vals.len() ==> (#[trigger] vals[i]) != (#[trigger] vals[j])
}

/// Whether a kind has one list of values per attribute, no attribute twice,
/// and each list of values non-empty and without repeats.
pub open spec fn kind_sound(t: StructTypesView) -> bool {
    &&& t.attributes.len() == t.attribute_values.len()
    &&& forall|i: int, j: int|
        0 <= i < j < t.attributes.len() ==> (#[trigger] t.attributes[i]) != (#[trigger] t.attributes[j])
    &&& forall|ii: int|
        0 <= ii < t.attribute_values.len() ==> (#[trigger] t.attribute_values[ii]).len() > 0
            && values_distinct(t.attribute_values[ii])
}

/// Whether the names of the kinds are distinct and every kind is sound.
pub open spec fn kinds_sound(ts: Seq<StructTypesView>) -> bool {
    &&& names_distinct(ts)
    &&& forall|k: int| 0 <= k < ts.len() ==> kind_sound(#[trigger] ts[k])
}

/// Whether no two attributes have the same name.
pub open spec fn attribute_names_distinct(attrs: Seq<(Seq<char>, Seq<char>)>) -> bool {
    forall|i: int, j: int| 0 <= i < j < attrs.len() ==> (#[trigger] attrs[i]).0 != (#[trigger] attrs[j]).0
}

/// Whether no element of the tree has two attributes with the same name.
pub open spec fn tree_attribute_names_distinct(n: NodeView) -> bool
    decreases n, n.children.len() + 1,
{
    attribute_names_distinct(n.attributes) && subtrees_attribute_names_distinct_from(n, 0)
}

pub open spec fn subtrees_attribute_names_distinct_from(n: NodeView, i: int) -> bool
    decreases n, n.children.len() - i,
{
    if 0 <= i < n.children.len() {
        tree_attribute_names_distinct(n.children[i]) && subtrees_attribute_names_distinct_from(n, i + 1)
    } else {
        true
    }
}

proof fn lemma_kind_grows_trans(a: StructTypesView, b: StructTypesView, c: StructTypesView)
    requires
        kind_grows(a, b),
        kind_grows(b, c),
    ensures
        kind_grows(a, c),
{
    assert forall|j: int| 0 <= j < a.attributes.len() implies #[trigger] c.attributes[j] == a.attributes[j] by {
        assert(b.attributes[j] == a.attributes[j]);
    }
    assert forall|ii: int| 0 <= ii < a.attribute_values.len() implies seq_prefix(
        #[trigger] a.attribute_values[ii],
        c.attribute_values[ii],
    ) by {
        assert(seq_prefix(a.attribute_values[ii], b.attribute_values[ii]));
        assert(seq_prefix(b.attribute_values[ii], c.attribute_values[ii]));
        assert forall|j: int| 0 <= j < a.attribute_values[ii].len() implies #[trigger] c.attribute_values[ii][j]
            == a.attribute_values[ii][j] by {
            assert(b.attribute_values[ii][j] == a.attribute_values[ii][j]);
        }
    }
}

proof fn lemma_kinds_grow_trans(a: Seq<StructTypesView>, b: Seq<StructTypesView>, c: Seq<StructTypesView>)
    requires
        kinds_grow(a, b),
        kinds_grow(b, c),
    ensures
        kinds_grow(a, c),
{
    assert forall|k: int| 0 <= k < a.len() implies kind_grows(#[trigger] a[k], c[k]) by {
        assert(kind_grows(a[k], b[k]));
        assert(kind_grows(b[k], c[k]));
        lemma_kind_grows_trans(a[k], b[k], c[k]);
    }
}

proof fn lemma_index_of_text_absent(texts: Seq<Seq<char>>, key: Seq<char>, i: int)
    requires
        0 <= i,
        index_of_text_from(texts, key, i) == -1,
    ensures
        forall|j: int| i <= j < texts.len() ==> texts[j] != key,
    decreases texts.len() - i,
{
    if i < texts.len() {
        lemma_index_of_text_absent(texts, key, i + 1);
    }
}

proof fn lemma_with_attribute_grows(t: StructTypesView, key: Seq<char>, value: Seq<char>)
    requires
        t.attributes.len() == t.attribute_values.len(),
    ensures
        kind_grows(t, with_attribute(t, key, value)),
        kind_sound(t) ==> kind_sound(with_attribute(t, key, value)),
{
    let r = with_attribute(t, key, value);
    let ii = index_of_text_from(t.attributes, key, 0);
    lemma_index_of_text(t.attributes, key, 0);
    if ii >= 0 {
        if !t.attribute_values[ii].contains(value) {
            let old_vals = t.attribute_values[ii];
            assert(r.attribute_values[ii] == old_vals.push(value));
            assert forall|jj: int| 0 <= jj < t.attribute_values.len() implies seq_prefix(
                #[trigger] t.attribute_values[jj],
                r.attribute_values[jj],
            ) by {
                if jj == ii {
                    assert forall|j: int| 0 <= j < old_vals.len() implies #[trigger] r.attribute_values[jj][j]
                        == old_vals[j] by {}
                }
            }
            if kind_sound(t) {
                assert forall|kk: int| 0 <= kk < r.attribute_values.len() implies (
                #[trigger] r.attribute_values[kk]).len() > 0 && values_distinct(r.attribute_values[kk]) by {
                    if kk == ii {
                        let vs = r.attribute_values[kk];
                        assert(values_distinct(old_vals));
                        assert forall|a: int, b: int| 0 <= a < b < vs.len() implies (#[trigger] vs[a]) != (
                        #[trigger] vs[b]) by {
                            if b == old_vals.len() {
                                assert(vs[a] == old_vals[a]);
                                assert(!old_vals.contains(value));
                            } else {
                                assert(vs[a] == old_vals[a]);
                                assert(vs[b] == old_vals[b]);
                            }
                        }
                    }
                }
            }
        }
    } else {
        lemma_index_of_text_absent(t.attributes, key, 0);
        let m = t.attributes.len() as int;
        assert forall|jj: int| 0 <= jj < t.attribute_values.len() implies seq_prefix(
            #[trigger] t.attribute_values[jj],
            r.attribute_values[jj],
        ) by {
            assert(r.attribute_values[jj] == t.attribute_values[jj]);
        }
        if kind_sound(t) {
            assert forall|a: int, b: int| 0 <= a < b < r.attributes.len() implies (#[trigger] r.attributes[a]) != (
            #[trigger] r.attributes[b]) by {
                if b == m {
                    assert(r.attributes[a] == t.attributes[a]);
                } else {
                    assert(r.attributes[a] == t.attributes[a]);
                    assert(r.attributes[b] == t.attributes[b]);
                }
            }
            assert forall|kk: int| 0 <= kk < r.attribute_values.len() implies (
            #[trigger] r.attribute_values[kk]).len() > 0 && values_distinct(r.attribute_values[kk]) by {
                if kk < m {
                    assert(r.attribute_values[kk] == t.attribute_values[kk]);
                } else {
                    assert(r.attribute_values[kk] == seq![value]);
                }
            }
        }
    }
}

proof fn lemma_with_attributes_grows(t: StructTypesView, attrs: Seq<(Seq<char>, Seq<char>)>)
    requires
        t.attributes.len() == t.attribute_values.len(),
    ensures
        kind_grows(t, with_attributes(t, attrs)),
        kind_sound(t) ==> kind_sound(with_attributes(t, attrs)),
    decreases attrs.len(),
{
    if attrs.len() == 0 {
        assert(kind_grows(t, t));
    } else {
        let t1 = with_attribute(t, attrs[0].0, attrs[0].1);
        lemma_with_attribute(t, attrs[0].0, attrs[0].1);
        lemma_with_attribute_grows(t, attrs[0].0, attrs[0].1);
        lemma_with_attributes_grows(t1, attrs.drop_first());
        lemma_kind_grows_trans(t, t1, with_attributes(t1, attrs.drop_first()));
    }
}

proof fn lemma_with_node_grows(ts: Seq<StructTypesView>, n: NodeView)
    requires
        kinds_wf(ts),
    ensures
        kinds_grow(ts, with_node(ts, n)),
        kinds_sound(ts) && attribute_names_distinct(n.attributes) ==> kinds_sound(with_node(ts, n)),
{
    let r = with_node(ts, n);
    let i = index_of_type_from(ts, n.name, 0);
    lemma_index_of_type(ts, n.name, 0);
    lemma_with_node(ts, n);
    if i >= 0 {
        assert(ts[i].attributes.len() == ts[i].attribute_values.len());
        lemma_with_attributes_grows(ts[i], n.attributes);
        assert forall|k: int| 0 <= k < ts.len() implies kind_grows(#[trigger] ts[k], r[k]) by {
            if k != i {
                assert(r[k] == ts[k]);
            }
        }
        if kinds_sound(ts) {
            assert forall|k: int| 0 <= k < r.len() implies kind_sound(#[trigger] r[k]) by {
                if k != i {
                    assert(r[k] == ts[k]);
                } else {
                    assert(kind_sound(ts[k]));
                }
            }
        }
    } else {
        let m = ts.len() as int;
        let nt = new_type(n);
        assert(r[m] == nt);
        assert forall|k: int| 0 <= k < ts.len() implies kind_grows(#[trigger] ts[k], r[k]) by {
            assert(r[k] == ts[k]);
        }
        if kinds_sound(ts) && attribute_names_distinct(n.attributes) {
            assert forall|a: int, b: int| 0 <= a < b < nt.attributes.len() implies (#[trigger] nt.attributes[a])
                != (#[trigger] nt.attributes[b]) by {
                assert(nt.attributes[a] == n.attributes[a].0);
                assert(nt.attributes[b] == n.attributes[b].0);
            }
            assert forall|kk: int| 0 <= kk < nt.attribute_values.len() implies (
            #[trigger] nt.attribute_values[kk]).len() > 0 && values_distinct(nt.attribute_values[kk]) by {
                assert(nt.attribute_values[kk] == seq![n.attributes[kk].1]);
            }
            assert(kind_sound(nt));
            assert forall|k: int| 0 <= k < r.len() implies kind_sound(#[trigger] r[k]) by {
                if k < m {
                    assert(r[k] == ts[k]);
                }
            }
        }
    }
}

proof fn lemma_with_tree_grows(ts: Seq<StructTypesView>, n: NodeView)
    requires
        kinds_wf(ts),
    ensures
        kinds_grow(ts, with_tree(ts, n)),
        kinds_sound(ts) && tree_attribute_names_distinct(n) ==> kinds_sound(with_tree(ts, n)),
    decreases n, n.children.len() + 1,
{
    let t1 = with_node(ts, n);
    lemma_with_node(ts, n);
    lemma_with_node_grows(ts, n);
    lemma_with_subtrees_grow(t1, n, 0);
    lemma_kinds_grow_trans(ts, t1, with_tree(ts, n));
}

proof fn lemma_with_subtrees_grow(ts: Seq<StructTypesView>, n: NodeView, i: int)
    requires
        kinds_wf(ts),
    ensures
        kinds_grow(ts, with_subtrees_from(ts, n, i)),
        kinds_sound(ts) && subtrees_attribute_names_distinct_from(n, i) ==> kinds_sound(
            with_subtrees_from(ts, n, i),
        ),
    decreases n, n.children.len() - i,
{
    if 0 <= i < n.children.len() {
        let t1 = with_tree(ts, n.children[i]);
        lemma_with_tree(ts, n.children[i]);
        lemma_with_tree_grows(ts, n.children[i]);
        lemma_with_subtrees_grow(t1, n, i + 1);
        lemma_kinds_grow_trans(ts, t1, with_subtrees_from(t1, n, i + 1));
    } else {
        assert(kinds_grow(ts, ts));
    }
}

/// The survey of a tree, started from any list of kinds with one list of
/// values per attribute (as `update_or_create_new_struct_type` takes it):
/// every kind of the list stays in its place under its name, its attributes
/// first and in order and each list of values a prefix of the new one; new
/// kinds come after them; and for every element of the tree the kind of its
/// name records each of the element's attributes with its value.
pub proof fn lemma_struct_types_survey_from(ts: Seq<StructTypesView>, n: NodeView)
    requires
        kinds_wf(ts),
    ensures
        kinds_wf(with_tree(ts, n)),
        kinds_grow(ts, with_tree(ts, n)),
        records_tree(with_tree(ts, n), n),
{
    lemma_with_tree(ts, n);
    lemma_with_tree_grows(ts, n);
}

/// The survey keeps a sound list of kinds sound: where the kind names are
/// distinct, and each kind has distinct attributes, one non-empty list of
/// distinct values per attribute, and no element of the tree repeats an
/// attribute name, all of that still holds after the survey.
pub proof fn lemma_struct_types_stay_sound(ts: Seq<StructTypesView>, n: NodeView)
    requires
        kinds_sound(ts),
        tree_attribute_names_distinct(n),
    ensures
        kinds_sound(with_tree(ts, n)),
{
    assert(kinds_wf(ts)) by {
        assert forall|k: int| 0 <= k < ts.len() implies (#[trigger] ts[k]).attributes.len()
            == ts[k].attribute_values.len() by {
            assert(kind_sound(ts[k]));
        }
    }
    lemma_with_tree_grows(ts, n);
}

// ---------------------------------------------------------------------------
// Text forms, for diagnostics
// ---------------------------------------------------------------------------

/// Two spaces per level.
pub open spec fn indentation_text(level: i16) -> Seq<char> {
    Seq::new((2 * level) as nat, |i: int| ' ')
}

/// `name:"value", ` for each attribute, in order.
pub open spec fn attributes_text(attrs: Seq<(Seq<char>, Seq<char>)>) -> Seq<char>
    decreases attrs.len(),
{
    if attrs.len() == 0 {
        Seq::empty()
    } else {
        attrs[0].0 + seq![':', '"'] + attrs[0].1 + seq!['"', ',', ' '] + attributes_text(
            attrs.drop_first(),
        )
    }
}

/// The text of no attributes is empty.
pub proof fn lemma_attributes_text_empty()
    ensures
        attributes_text(Seq::empty()) == Seq::<char>::empty(),
{
}

/// The attributes are written in their order: the text of one more attribute
/// at the end is the text of those before it followed by `name:"value", `.
pub proof fn lemma_attributes_text_one_more(attrs: Seq<(Seq<char>, Seq<char>)>, a: (Seq<char>, Seq<char>))
    ensures
        attributes_text(attrs.push(a)) == attributes_text(attrs) + (a.0 + seq![':', '"'] + a.1 + seq![
            '"',
            ',',
            ' ',
        ]),
    decreases attrs.len(),
{
    if attrs.len() == 0 {
        assert(attrs.push(a).drop_first() =~= Seq::<(Seq<char>, Seq<char>)>::empty());
        assert(attrs.push(a)[0] == a);
        assert(attributes_text(attrs.push(a).drop_first()) == Seq::<char>::empty());
        let pa = a.0 + seq![':', '"'] + a.1 + seq!['"', ',', ' '];
        assert(attributes_text(attrs.push(a)) == pa + Seq::<char>::empty());
        assert(pa + Seq::<char>::empty() =~= pa);
        assert(attributes_text(attrs) == Seq::<char>::empty());
        assert(Seq::<char>::empty() + pa =~= pa);
    } else {
        lemma_attributes_text_one_more(attrs.drop_first(), a);
        assert(attrs.push(a).drop_first() =~= attrs.drop_first().push(a));
        assert(attrs.push(a)[0] == attrs[0]);
        let p0 = attrs[0].0 + seq![':', '"'] + attrs[0].1 + seq!['"', ',', ' '];
        let pa = a.0 + seq![':', '"'] + a.1 + seq!['"', ',', ' '];
        assert(attributes_text(attrs.push(a)) == p0 + attributes_text(attrs.drop_first().push(a)));
        assert(attributes_text(attrs) == p0 + attributes_text(attrs.drop_first()));
        assert(p0 + (attributes_text(attrs.drop_first()) + pa) =~= (p0 + attributes_text(attrs.drop_first())) + pa);
    }
}

/// The text form of a tree: one line per element, indented by its level,
/// `name (attributes) {inner text}`, each element followed by its children.
pub open spec fn node_text(n: NodeView) -> Seq<char>
    decreases n, n.children.len() + 1,
{
    node_line_text(n) + children_text_from(n, 0)
}

/// The line of one element: `name (attributes) {inner text}`, indented.
pub open spec fn node_line_text(n: NodeView) -> Seq<char> {
    indentation_text(n.indentation_level) + n.name + seq![' ', '('] + attributes_text(n.attributes)
        + seq![')', ' ', '{'] + match n.inner_text {
        Some(t) => t,
        None => Seq::empty(),
    } + seq!['}', '\n']
}

pub open spec fn children_text_from(n: NodeView, i: int) -> Seq<char>
    decreases n, n.children.len() - i,
{
    if 0 <= i < n.children.len() {
        node_text(n.children[i]) + children_text_from(n, i + 1)
    } else {
        Seq::empty()
    }
}

/// Whether no element of the tree has a negative level.
pub open spec fn levels_nonnegative(n: NodeView) -> bool
    decreases n, n.children.len() + 1,
{
    n.indentation_level >= 0 && children_levels_nonnegative_from(n, 0)
}

pub open spec fn children_levels_nonnegative_from(n: NodeView, i: int) -> bool
    decreases n, n.children.len() - i,
{
    if 0 <= i < n.children.len() {
        levels_nonnegative(n.children[i]) && children_levels_nonnegative_from(n, i + 1)
    } else {
        true
    }
}

/// Appends two spaces per level.
pub(crate) fn write_indentation(out: &mut String, level: i16)
    requires
        level >= 0,
    ensures
        final(out)@ == old(out)@ + indentation_text(level),
{
    let ghost start = out@;
    let mut k: i32 = 0;
    while k < 2 * (level as i32)
        invariant
            level >= 0,
            0 <= k <= 2 * level,
            out@ == start + Seq::new(k as nat, |i: int| ' '),
        decreases 2 * level - k,
    {
        push_char(out, ' ');
        k = k + 1;
        assert(Seq::new((k - 1) as nat, |i: int| ' ').push(' ') =~= Seq::new(k as nat, |i: int| ' '));
    }
    assert(Seq::new(k as nat, |i: int| ' ') =~= indentation_text(level));
}

/// Appends `attributes_text` of the attributes.
pub(crate) fn write_attributes_text(out: &mut String, attributes: &Vec<(String, String)>)
    ensures
        final(out)@ == old(out)@ + attributes_text(attributes_view(attributes@)),
{
    let ghost before_attrs = out@;
    let ghost attrs = attributes_view(attributes@);
    assert(attrs.skip(0) == attrs);
    for a in 0..attributes.len()
        invariant
            attrs == attributes_view(attributes@),
            before_attrs + attributes_text(attrs) == out@ + attributes_text(attrs.skip(a as int)),
    {
        assert(attrs.skip(a as int)[0] == attrs[a as int]);
        assert(attrs.skip(a as int).drop_first() == attrs.skip(a + 1));
        let ghost o = out@;
        out.append(attributes[a].0.as_str());
        push_char(out, ':');
        push_char(out, '"');
        out.append(attributes[a].1.as_str());
        push_char(out, '"');
        push_char(out, ',');
        push_char(out, ' ');
        assert(out@ == o + (attrs[a as int].0 + seq![':', '"'] + attrs[a as int].1 + seq!['"', ',', ' ']));
    }
    assert(attrs.skip(attributes.len() as int) =~= Seq::<(Seq<char>, Seq<char>)>::empty());
}

impl Node {
    /// Whether no element of the tree has a negative level (what
    /// `display_string` needs).
    pub fn levels_are_nonnegative(&self) -> (r: bool)
        ensures
            r == levels_nonnegative(self@),
        decreases self,
    {
        if self.indentation_level < 0 {
            return false;
        }
        proof {
            lemma_view_children(*self);
        }
        let ghost v = self@;
        for c in 0..self.children.len()
            invariant
                v == self@,
                v.children.len() == self.children@.len(),
                forall|j: int| 0 <= j < self.children@.len() ==> #[trigger] v.children[j] == self.children@[j]@,
                children_levels_nonnegative_from(v, 0) == children_levels_nonnegative_from(v, c as int),
        {
            assert(decreases_to!(*self => self.children));
            assert(decreases_to!(self.children => self.children@));
            assert(decreases_to!(self.children@ => self.children@[c as int]));
            if !self.children[c].levels_are_nonnegative() {
                return false;
            }
        }
        true
    }

    /// The text form of the tree rooted here (see `node_text`).
    pub fn display_string(&self) -> (r: String)
        requires
            levels_nonnegative(self@),
        ensures
            r@ == node_text(self@),
    {
        let mut out = String::new();
        self.write_text(&mut out);
        out
    }

    fn write_text(&self, out: &mut String)
        requires
            levels_nonnegative(self@),
        ensures
            final(out)@ == old(out)@ + node_text(self@),
        decreases self,
    {
        let ghost start = out@;
        let ghost v = self@;
        self.write_line(out);
        let ghost before_children = out@;
        proof {
            lemma_view_children(*self);
        }
        for c in 0..self.children.len()
            invariant
                v == self@,
                v.children.len() == self.children@.len(),
                forall|j: int| 0 <= j < self.children@.len() ==> #[trigger] v.children[j] == self.children@[j]@,
                children_levels_nonnegative_from(v, c as int),
                before_children + children_text_from(v, 0) == out@ + children_text_from(v, c as int),
        {
            assert(decreases_to!(*self => self.children));
            assert(decreases_to!(self.children => self.children@));
            assert(decreases_to!(self.children@ => self.children@[c as int]));
            self.children[c].write_text(out);
        }
        assert(out@ =~= start + node_text(v));
    }

    /// Appends `node_line_text` of this node.
    fn write_line(&self, out: &mut String)
        requires
            self.indentation_level >= 0,
        ensures
            final(out)@ == old(out)@ + node_line_text(self@),
    {
        let ghost start = out@;
        write_indentation(out, self.indentation_level);
        out.append(self.name.as_str());
        push_char(out, ' ');
        push_char(out, '(');
        write_attributes_text(out, &self.attributes);
        push_char(out, ')');
        push_char(out, ' ');
        push_char(out, '{');
        match &self.inner_text {
            Some(t) => out.append(t.as_str()),
            None => {},
        }
        push_char(out, '}');
        push_char(out, '\n');
        assert(out@ =~= start + node_line_text(self@));
    }
}

impl StructTypes {
    /// The text form: the name, then one line per attribute,
    /// `\tname : [value; value; ]`.
    pub fn display_string(&self) -> (r: String)
        ensures
            r@ == struct_types_text(self@),
    {
        proof {
            use_type_invariant(self);
        }
        let mut out = String::new();
        out.append(self.name.as_str());
        push_char(&mut out, '\n');
        let ghost v = self@;
        for i in 0..self.attributes.len()
            invariant
                v == self@,
                self.attribute_values@.len() >= self.attributes@.len(),
                out@ == v.name.push('\n') + attribute_lines_text(v.attributes.take(i as int), v.attribute_values),
        {
            let ghost o = out@;
            push_char(&mut out, '\t');
            out.append(self.attributes[i].as_str());
            push_char(&mut out, ' ');
            push_char(&mut out, ':');
            push_char(&mut out, ' ');
            push_char(&mut out, '[');
            let values = &self.attribute_values[i];
            let ghost vals = strings_view(values@);
            assert(vals == v.attribute_values[i as int]);
            let ghost mid = out@;
            for j in 0..values.len()
                invariant
                    vals == strings_view(values@),
                    out@ == mid + values_text(vals.take(j as int)),
            {
                out.append(values[j].as_str());
                push_char(&mut out, ';');
                push_char(&mut out, ' ');
                proof {
                    lemma_values_text_push(vals.take(j as int), vals[j as int]);
                    assert(vals.take(j + 1) =~= vals.take(j as int).push(vals[j as int]));
                }
            }
            assert(vals.take(values.len() as int) == vals);
            push_char(&mut out, ']');
            push_char(&mut out, '\n');
            proof {
                assert(v.attributes.take(i + 1) =~= v.attributes.take(i as int).push(v.attributes[i as int]));
                lemma_attribute_lines_push(v.attributes.take(i as int), v.attribute_values, v.attributes[i as int]);
            }
        }
        assert(v.attributes.take(self.attributes.len() as int) == v.attributes);
        out
    }
}

/// `value; ` for each value, in order.
pub open spec fn values_text(vals: Seq<Seq<char>>) -> Seq<char>
    decreases vals.len(),
{
    if vals.len() == 0 {
        Seq::empty()
    } else {
        values_text(vals.drop_last()) + vals.last() + seq![';', ' ']
    }
}

/// One line per attribute, `\tname : [values]`.
pub open spec fn attribute_lines_text(names: Seq<Seq<char>>, values: Seq<Seq<Seq<char>>>) -> Seq<char>
    decreases names.len(),
{
    if names.len() == 0 {
        Seq::empty()
    } else {
        let i = names.len() - 1;
        attribute_lines_text(names.drop_last(), values) + seq!['\t'] + names[i] + seq![' ', ':', ' ', '[']
            + values_text(values[i]) + seq![']', '\n']
    }
}

pub open spec fn struct_types_text(t: StructTypesView) -> Seq<char> {
    t.name.push('\n') + attribute_lines_text(t.attributes, t.attribute_values)
}

proof fn lemma_values_text_push(vals: Seq<Seq<char>>, x: Seq<char>)
    ensures
        values_text(vals.push(x)) == values_text(vals) + x + seq![';', ' '],
{
    assert(vals.push(x).drop_last() == vals);
}

proof fn lemma_attribute_lines_push(names: Seq<Seq<char>>, values: Seq<Seq<Seq<char>>>, x: Seq<char>)
    ensures
        attribute_lines_text(names.push(x), values) == attribute_lines_text(names, values) + seq!['\t']
            + x + seq![' ', ':', ' ', '['] + values_text(values[names.len() as int]) + seq![']', '\n'],
{
    assert(names.push(x).drop_last() == names);
}

} // verus!
