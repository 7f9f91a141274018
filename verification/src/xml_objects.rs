//! A plain tree of the elements of an XML file, and the survey of the kinds
//! of element that it holds: for each element name, every attribute met on
//! elements of that name and every value met for each attribute.
//!
//! The tree is read from the events of an XML reader: the first element that
//! opens is the root, each element that opens inside another becomes its last
//! child, text sets the inner text of the element that is open, and reading
//! stops at the end of the root or of the file.

use vstd::prelude::*;
use crate::text::{push_char, same_text};
use crate::map_file::reading::{
    attributes_text,
    attributes_view,
    close_all,
    indentation_text,
    write_attributes_text,
    write_indentation,
    close_top,
    lemma_view_children,
    lemma_view_from_children,
    opened_child,
    text_view,
    types_view,
    update_or_create_new_struct_type as note_node_kinds,
    with_tree,
    Node,
    NodeView,
    StructTypes,
    XmlEvent,
    XmlEventView,
    events_view,
};
use crate::map_file::xml_source::{object_events_from_bytes, object_events_of_bytes};

verus! {

/// One element of the tree.
pub struct Object {
    pub name: String,
    /// The attributes in the order in which they were written; `None` where
    /// they were never read.
    pub attributes: Option<Vec<(String, String)>>,
    pub children: Vec<Object>,
    /// How deep the element stands: the root has level 0.
    pub indentation_level: i16,
    pub inner_text: Option<String>,
}

/// The attributes of an element, none where they were never read.
pub open spec fn object_attributes_view(a: Option<Vec<(String, String)>>) -> Seq<(Seq<char>, Seq<char>)> {
    match a {
        Some(v) => attributes_view(v@),
        None => Seq::empty(),
    }
}

pub open spec fn object_children_view_from(o: Object, i: int) -> Seq<NodeView>
    decreases o, o.children@.len() - i,
{
    if 0 <= i < o.children@.len() {
        seq![object_view(o.children@[i])] + object_children_view_from(o, i + 1)
    } else {
        Seq::empty()
    }
}

/// The mathematical value of an element: the same as that of a `Node` with
/// the same fields.
pub open spec fn object_view(o: Object) -> NodeView
    decreases o, o.children@.len() + 1,
{
    NodeView {
        name: o.name@,
        attributes: object_attributes_view(o.attributes),
        children: object_children_view_from(o, 0),
        indentation_level: o.indentation_level,
        inner_text: text_view(o.inner_text),
    }
}

impl View for Object {
    type V = NodeView;

    open spec fn view(&self) -> NodeView {
        object_view(*self)
    }
}

proof fn lemma_object_children_view_from(o: Object, i: int)
    requires
        0 <= i <= o.children@.len(),
    ensures
        object_children_view_from(o, i).len() == o.children@.len() - i,
        forall|j: int|
            0 <= j < o.children@.len() - i ==> #[trigger] object_children_view_from(o, i)[j]
                == object_view(o.children@[i + j]),
    decreases o.children@.len() - i,
{
    if i < o.children@.len() {
        lemma_object_children_view_from(o, i + 1);
        assert forall|j: int|
            0 <= j < o.children@.len() - i implies #[trigger] object_children_view_from(o, i)[j]
            == object_view(o.children@[i + j]) by {
            if j > 0 {
                assert(object_children_view_from(o, i)[j] == object_children_view_from(o, i + 1)[j
                    - 1]);
            }
        }
    }
}

/// The view of each child is the child of the view.
pub proof fn lemma_object_view_children(o: Object)
    ensures
        o@.children.len() == o.children@.len(),
        forall|j: int| 0 <= j < o.children@.len() ==> #[trigger] o@.children[j] == o.children@[j]@,
{
    lemma_object_children_view_from(o, 0);
}

proof fn lemma_object_view_from_children(o: Object, children: Seq<NodeView>)
    requires
        o.children@.len() == children.len(),
        forall|j: int| 0 <= j < children.len() ==> #[trigger] o.children@[j]@ == children[j],
    ensures
        o@ == (NodeView {
            name: o.name@,
            attributes: object_attributes_view(o.attributes),
            children,
            indentation_level: o.indentation_level,
            inner_text: text_view(o.inner_text),
        }),
{
    lemma_object_view_children(o);
    assert(o@.children =~= children);
}

impl Object {
    /// An element with no children and no inner text.
    pub fn new(name: String, attributes: Option<Vec<(String, String)>>, indentation_level: i16) -> (r:
        Object)
        ensures
            r.name == name,
            r.attributes == attributes,
            r.children@.len() == 0,
            r.indentation_level == indentation_level,
            r.inner_text.is_none(),
            r@ == (NodeView {
                name: name@,
                attributes: object_attributes_view(attributes),
                children: Seq::empty(),
                indentation_level,
                inner_text: None,
            }),
    {
        let r = Object { name, attributes, children: Vec::new(), indentation_level, inner_text: None };
        proof {
            lemma_object_view_from_children(r, Seq::empty());
        }
        r
    }

    /// Replaces the inner text.
    pub fn set_inner_text(&mut self, inner_text: String)
        ensures
            final(self).inner_text == Some(inner_text),
            final(self).name == old(self).name,
            final(self).attributes == old(self).attributes,
            final(self).children == old(self).children,
            final(self).indentation_level == old(self).indentation_level,
            final(self)@ == (NodeView { inner_text: Some(inner_text@), ..old(self)@ }),
    {
        proof {
            lemma_object_view_children(*self);
        }
        self.inner_text = Some(inner_text);
        proof {
            lemma_object_view_from_children(*self, old(self)@.children);
        }
    }

    /// The children, in document order.
    pub fn get_child(&self) -> (r: &Vec<Object>)
        ensures
            r == self.children,
    {
        &self.children
    }

    /// The name of the element.
    pub fn get_name(&self) -> (r: String)
        ensures
            r@ == self@.name,
    {
        self.name.clone()
    }

    /// A `Node` with the same fields (no attributes where none were read).
    pub fn to_node(&self) -> (r: Node)
        ensures
            r@ == self@,
        decreases self,
    {
        let attributes = match &self.attributes {
            Some(a) => copy_attributes(a),
            None => {
                let v: Vec<(String, String)> = Vec::new();
                assert(attributes_view(v@) =~= Seq::<(Seq<char>, Seq<char>)>::empty());
                v
            },
        };
        let mut children: Vec<Node> = Vec::new();
        proof {
            lemma_object_view_children(*self);
        }
        for c in 0..self.children.len()
            invariant
                children@.len() == c,
                self@.children.len() == self.children@.len(),
                forall|j: int| 0 <= j < self.children@.len() ==> #[trigger] self@.children[j] == self.children@[j]@,
                forall|j: int| 0 <= j < c ==> #[trigger] children@[j]@ == self@.children[j],
        {
            assert(decreases_to!(*self => self.children));
            assert(decreases_to!(self.children => self.children@));
            assert(decreases_to!(self.children@ => self.children@[c as int]));
            let child = self.children[c].to_node();
            children.push(child);
        }
        let inner_text = match &self.inner_text {
            Some(t) => Some(t.clone()),
            None => None,
        };
        assert(attributes_view(attributes@) == object_attributes_view(self.attributes));
        assert(text_view(inner_text) == text_view(self.inner_text));
        let r = Node {
            name: self.name.clone(),
            attributes,
            children,
            indentation_level: self.indentation_level,
            inner_text,
        };
        proof {
            lemma_view_from_children(r, self@.children);
        }
        r
    }
}

fn copy_attributes(a: &Vec<(String, String)>) -> (r: Vec<(String, String)>)
    ensures
        attributes_view(r@) == attributes_view(a@),
{
    let mut r: Vec<(String, String)> = Vec::new();
    for i in 0..a.len()
        invariant
            attributes_view(r@) == attributes_view(a@).take(i as int),
    {
        let ghost before = attributes_view(r@);
        r.push((a[i].0.clone(), a[i].1.clone()));
        assert(attributes_view(r@) =~= before.push((a@[i as int].0@, a@[i as int].1@)));
        assert(attributes_view(a@).take(i + 1) =~= attributes_view(a@).take(i as int).push(
            attributes_view(a@)[i as int],
        ));
    }
    assert(attributes_view(a@).take(a.len() as int) =~= attributes_view(a@));
    r
}

/// Notes the element `an_object` and then, in order, every element below it,
/// in the survey of kinds (an element whose attributes were never read counts
/// as one with none).
pub fn update_or_create_new_struct_type(an_object: &Object, all_struct_types: &mut Vec<StructTypes>)
    ensures
        types_view(final(all_struct_types)@) == with_tree(
            types_view(old(all_struct_types)@),
            an_object@,
        ),
{
    let node = an_object.to_node();
    note_node_kinds(&node, all_struct_types);
}

// ---------------------------------------------------------------------------
// Reading the tree from the events of an XML reader
// ---------------------------------------------------------------------------

/// Whether the event ends the reading: the end of the file, or the end of the
/// root.
pub open spec fn object_ends_reading(open: Seq<NodeView>, ev: XmlEventView) -> bool {
    match ev {
        XmlEventView::Eof => true,
        XmlEventView::End(_) => open.len() <= 1,
        _ => false,
    }
}

/// Whether the event can be taken: an end must close the element that is
/// open, a reader error is not taken, and the depth must fit an `i16`.
pub open spec fn object_accepts(open: Seq<NodeView>, ev: XmlEventView) -> bool {
    match ev {
        XmlEventView::Start { .. } => open.last().indentation_level < i16::MAX,
        XmlEventView::End(name) => name == open.last().name,
        XmlEventView::Error => false,
        _ => true,
    }
}

/// The open elements after an event that does not end the reading; empty
/// elements and the like are passed over.
pub open spec fn object_after_event(open: Seq<NodeView>, ev: XmlEventView) -> Seq<NodeView> {
    let k = open.len();
    let top = open[k - 1];
    match ev {
        XmlEventView::Start { name, attributes } => open.push(opened_child(top, name, attributes)),
        XmlEventView::Text(t) => open.update(k - 1, NodeView { inner_text: Some(t), ..top }),
        XmlEventView::End(_) => close_top(open),
        _ => open,
    }
}

/// The tree read from `events` when `open` are the elements open so far.
pub open spec fn object_read_tree(open: Seq<NodeView>, events: Seq<XmlEventView>) -> NodeView
    decreases events.len(),
{
    if events.len() == 0 || object_ends_reading(open, events[0]) {
        close_all(open)
    } else {
        object_read_tree(object_after_event(open, events[0]), events.drop_first())
    }
}

/// Whether every event up to the end of the reading can be taken.
pub open spec fn object_reads_ok(open: Seq<NodeView>, events: Seq<XmlEventView>) -> bool
    decreases events.len(),
{
    if events.len() == 0 {
        true
    } else {
        object_accepts(open, events[0]) && (object_ends_reading(open, events[0]) || object_reads_ok(
            object_after_event(open, events[0]),
            events.drop_first(),
        ))
    }
}

/// The index of the first element that opens, from the `i`-th event on, or
/// -1 if the file ends or fails before one does.
pub open spec fn first_start_from(events: Seq<XmlEventView>, i: int) -> int
    decreases events.len() - i,
{
    if i < 0 || i >= events.len() {
        -1
    } else {
        match events[i] {
            XmlEventView::Start { .. } => i,
            XmlEventView::Eof => -1,
            XmlEventView::Error => -1,
            _ => first_start_from(events, i + 1),
        }
    }
}

proof fn lemma_first_start_range(events: Seq<XmlEventView>, i: int)
    ensures
        first_start_from(events, i) == -1 || (i <= first_start_from(events, i) < events.len()),
    decreases events.len() - i,
{
    if 0 <= i < events.len() {
        lemma_first_start_range(events, i + 1);
    }
}

/// The root: the first element that opens, at level 0.
pub open spec fn root_of(events: Seq<XmlEventView>) -> NodeView {
    let k = first_start_from(events, 0);
    match events[k] {
        XmlEventView::Start { name, attributes } => NodeView {
            name,
            attributes,
            children: Seq::empty(),
            indentation_level: 0,
            inner_text: None,
        },
        _ => arbitrary(),
    }
}

/// Whether the events can be read: an element opens before the file ends or
/// fails, and every later event can be taken.
pub open spec fn objects_readable(events: Seq<XmlEventView>) -> bool {
    let k = first_start_from(events, 0);
    k >= 0 && object_reads_ok(seq![root_of(events)], events.skip(k + 1))
}

/// The tree read from the events of a file.
pub open spec fn object_tree(events: Seq<XmlEventView>) -> NodeView {
    let k = first_start_from(events, 0);
    object_read_tree(seq![root_of(events)], events.skip(k + 1))
}

/// Builds the tree one reader event at a time.
pub struct ObjectBuilder {
    open: Vec<Object>,
    done: bool,
}

pub open spec fn objects_view(v: Seq<Object>) -> Seq<NodeView> {
    v.map_values(|o: Object| o@)
}

impl ObjectBuilder {
    /// The elements open so far, outermost first.
    pub closed spec fn open_objects(&self) -> Seq<NodeView> {
        objects_view(self.open@)
    }

    /// Whether the reading has ended.
    pub closed spec fn has_ended(&self) -> bool {
        self.done
    }

    pub closed spec fn wf(&self) -> bool {
        self.open@.len() >= 1
    }

    /// A builder holding only the root.
    pub fn new(root: Object) -> (r: ObjectBuilder)
        ensures
            r.wf(),
            !r.has_ended(),
            r.open_objects() == seq![root@],
    {
        let mut open: Vec<Object> = Vec::new();
        open.push(root);
        let r = ObjectBuilder { open, done: false };
        assert(r.open_objects() =~= seq![root@]);
        r
    }

    /// Whether the reading has ended.
    pub fn is_done(&self) -> (r: bool)
        ensures
            r == self.has_ended(),
    {
        self.done
    }

    /// Whether the event can be taken (see `object_accepts`).
    pub fn accepts(&self, ev: &XmlEvent) -> (r: bool)
        requires
            self.wf(),
        ensures
            r == object_accepts(self.open_objects(), ev@),
    {
        let k = self.open.len();
        let top = &self.open[k - 1];
        assert(self.open_objects().last() == top@);
        match ev {
            XmlEvent::Start { .. } => top.indentation_level < i16::MAX,
            XmlEvent::End(name) => same_text(name, &top.name),
            XmlEvent::Error => false,
            _ => true,
        }
    }

    /// Takes the next event of the reader.
    pub fn step(&mut self, ev: XmlEvent)
        requires
            old(self).wf(),
            !old(self).has_ended(),
            object_accepts(old(self).open_objects(), ev@),
        ensures
            final(self).wf(),
            final(self).has_ended() == object_ends_reading(old(self).open_objects(), ev@),
            final(self).has_ended() ==> final(self).open_objects() == old(self).open_objects(),
            !final(self).has_ended() ==> final(self).open_objects() == object_after_event(
                old(self).open_objects(),
                ev@,
            ),
    {
        let ghost before = self.open_objects();
        let k = self.open.len();
        match ev {
            XmlEvent::Start { name, attributes } => {
                assert(before.last() == self.open@[k - 1]@);
                let level = self.open[k - 1].indentation_level + 1;
                let child = Object::new(name, Some(attributes), level);
                self.open.push(child);
                assert(self.open_objects() =~= object_after_event(before, ev@));
            },
            XmlEvent::Text(t) => {
                let mut top = self.open.pop().unwrap();
                top.set_inner_text(t);
                self.open.push(top);
                assert(self.open_objects() =~= object_after_event(before, ev@));
            },
            XmlEvent::End(_) => {
                if k <= 1 {
                    self.done = true;
                } else {
                    self.close_innermost();
                    assert(self.open_objects() =~= object_after_event(before, ev@));
                }
            },
            XmlEvent::Eof => {
                self.done = true;
            },
            _ => {
                assert(self.open_objects() =~= object_after_event(before, ev@));
            },
        }
    }

    /// Closes the innermost open element and hangs it under its parent.
    fn close_innermost(&mut self)
        requires
            old(self).open@.len() >= 2,
        ensures
            final(self).open_objects() == close_top(old(self).open_objects()),
            final(self).done == old(self).done,
            final(self).open@.len() == old(self).open@.len() - 1,
    {
        let ghost before = self.open_objects();
        let child = self.open.pop().unwrap();
        let mut parent = self.open.pop().unwrap();
        let ghost parent_before = parent;
        parent.children.push(child);
        proof {
            lemma_object_view_children(parent_before);
            lemma_object_view_from_children(parent, parent_before@.children.push(child@));
        }
        self.open.push(parent);
        assert(self.open_objects() =~= close_top(before));
    }

    /// The tree, once every element still open is closed.
    pub fn finish(self) -> (r: Object)
        requires
            self.wf(),
        ensures
            r@ == close_all(self.open_objects()),
    {
        let mut b = self;
        while b.open.len() > 1
            invariant
                b.wf(),
                close_all(b.open_objects()) == close_all(self.open_objects()),
            decreases b.open@.len(),
        {
            b.close_innermost();
        }
        let mut open = b.open;
        let r = open.pop().unwrap();
        r
    }
}

/// The root element of the tree: the element of a start event, at the level
/// after `last_indentation`.
pub fn explore_a_start(name: String, attributes: Vec<(String, String)>, last_indentation: i16) -> (r:
    Object)
    requires
        last_indentation < i16::MAX,
    ensures
        r@ == (NodeView {
            name: name@,
            attributes: attributes_view(attributes@),
            children: Seq::empty(),
            indentation_level: (last_indentation + 1) as i16,
            inner_text: None,
        }),
        r.attributes is Some,
{
    Object::new(name, Some(attributes), last_indentation + 1)
}

impl Object {
    /// The tree of a file from the events that an XML reader gives for it, in
    /// order: what comes before the first element is passed over, and reading
    /// stops at the end of that element or of the file; what the events left
    /// open is closed.
    pub fn from_events(events: Vec<XmlEvent>) -> (r: Object)
        requires
            objects_readable(events_view(events@)),
        ensures
            r@ == object_tree(events_view(events@)),
    {
        let ghost all = events_view(events@);
        let ghost k = first_start_from(all, 0);
        let mut b: Option<ObjectBuilder> = None;
        for ev in it: events
            invariant
                all == events_view(it.seq()),
                k == first_start_from(all, 0),
                k >= 0,
                objects_readable(all),
                b is None ==> it.index() <= k && first_start_from(all, it.index() as int) == k,
                b matches Some(bb) ==> {
                    &&& it.index() > k
                    &&& bb.wf()
                    &&& bb.has_ended() ==> object_tree(all) == close_all(bb.open_objects())
                    &&& !bb.has_ended() ==> object_tree(all) == object_read_tree(
                        bb.open_objects(),
                        all.skip(it.index() as int),
                    )
                    &&& !bb.has_ended() ==> object_reads_ok(
                        bb.open_objects(),
                        all.skip(it.index() as int),
                    )
                },
        {
            let ghost i = it.index() as int;
            assert(all[i] == ev@);
            match b {
                None => {
                    match ev {
                        XmlEvent::Start { name, attributes } => {
                            assert(i == k);
                            let root = explore_a_start(name, attributes, -1);
                            assert(root@ == root_of(all));
                            b = Some(ObjectBuilder::new(root));
                            assert(all.skip(i + 1) == all.skip(k + 1));
                        },
                        _ => {
                            assert(first_start_from(all, i) == first_start_from(all, i + 1));
                            proof {
                                lemma_first_start_range(all, i + 1);
                            }
                        },
                    }
                },
                Some(mut bb) => {
                    assert(all.skip(i)[0] == ev@);
                    assert(all.skip(i).drop_first() == all.skip(i + 1));
                    if !bb.is_done() {
                        bb.step(ev);
                    }
                    b = Some(bb);
                },
            }
        }
        match b {
            Some(bb) => {
                assert(all.skip(all.len() as int).len() == 0);
                bb.finish()
            },
            None => {
                proof {
                    lemma_first_start_range(all, 0);
                }
                assert(false);
                Object::new(String::new(), None, 0)
            },
        }
    }
}

impl Object {
    /// The tree of `from_events`, or `None` where the events cannot be read:
    /// the file ends or fails before an element opens, or an event up to the
    /// end of the root cannot be taken (see `object_accepts`).
    pub fn try_from_events(events: Vec<XmlEvent>) -> (r: Option<Object>)
        ensures
            r matches Some(o) ==> objects_readable(events_view(events@)) && o@ == object_tree(
                events_view(events@),
            ),
            r is None ==> !objects_readable(events_view(events@)),
    {
        let ghost all = events_view(events@);
        let ghost evs = events@;
        let ghost k = first_start_from(all, 0);
        proof {
            lemma_first_start_range(all, 0);
        }
        let mut b: Option<ObjectBuilder> = None;
        for ev in it: events
            invariant
                all == events_view(it.seq()),
                all == events_view(evs),
                evs == events@,
                k == first_start_from(all, 0),
                k == -1 || 0 <= k < all.len(),
                b is None ==> it.index() <= k || k == -1,
                b is None ==> first_start_from(all, it.index() as int) == k,
                b matches Some(bb) ==> {
                    &&& 0 <= k < it.index()
                    &&& bb.wf()
                    &&& bb.has_ended() ==> object_tree(all) == close_all(bb.open_objects())
                    &&& bb.has_ended() ==> objects_readable(all)
                    &&& !bb.has_ended() ==> object_tree(all) == object_read_tree(
                        bb.open_objects(),
                        all.skip(it.index() as int),
                    )
                    &&& !bb.has_ended() ==> (objects_readable(all) == object_reads_ok(
                        bb.open_objects(),
                        all.skip(it.index() as int),
                    ))
                },
        {
            let ghost i = it.index() as int;
            assert(all[i] == ev@);
            match b {
                None => {
                    match ev {
                        XmlEvent::Start { name, attributes } => {
                            assert(i == k);
                            let root = explore_a_start(name, attributes, -1);
                            assert(root@ == root_of(all));
                            b = Some(ObjectBuilder::new(root));
                            assert(all.skip(i + 1) == all.skip(k + 1));
                        },
                        XmlEvent::Eof | XmlEvent::Error => {
                            assert(k == -1);
                            return None;
                        },
                        _ => {
                            assert(first_start_from(all, i) == first_start_from(all, i + 1));
                            proof {
                                lemma_first_start_range(all, i + 1);
                            }
                        },
                    }
                },
                Some(mut bb) => {
                    assert(all.skip(i)[0] == ev@);
                    assert(all.skip(i).drop_first() == all.skip(i + 1));
                    if !bb.is_done() {
                        if !bb.accepts(&ev) {
                            assert(!object_reads_ok(bb.open_objects(), all.skip(i)));
                            return None;
                        }
                        bb.step(ev);
                    }
                    b = Some(bb);
                },
            }
        }
        match b {
            Some(bb) => {
                assert(all.skip(all.len() as int).len() == 0);
                Some(bb.finish())
            },
            None => {
                assert(first_start_from(all, all.len() as int) == -1);
                None
            },
        }
    }

    /// The plain tree of objects read from the bytes of a file: the first
    /// element is the root, and everything the reading takes must decode
    /// strictly (see `object_events_of_bytes`). `None` where it cannot be
    /// read: no element opens before the file ends or fails, an element's
    /// name, attribute or text, or an end tag's name, does not decode, the
    /// reader fails, or an end tag closes another element than the one open.
    pub fn read_from_bytes(bytes: &[u8]) -> (r: Option<Object>)
        ensures
            r matches Some(o) ==> (object_events_of_bytes(bytes@) matches Some(evs) && objects_readable(evs)
                && o@ == object_tree(evs)),
            r is None ==> !(object_events_of_bytes(bytes@) matches Some(evs) && objects_readable(evs)),
    {
        match object_events_from_bytes(bytes) {
            Some(events) => Object::try_from_events(events),
            None => None,
        }
    }
}

// ---------------------------------------------------------------------------
// Text form
// ---------------------------------------------------------------------------

/// Whether every element of the tree has its attributes and its inner text:
/// the text form needs both.
pub open spec fn object_displayable(o: Object) -> bool
    decreases o, o.children@.len() + 1,
{
    o.attributes is Some && o.inner_text is Some && object_children_displayable_from(o, 0)
}

pub open spec fn object_children_displayable_from(o: Object, i: int) -> bool
    decreases o, o.children@.len() - i,
{
    if 0 <= i < o.children@.len() {
        object_displayable(o.children@[i]) && object_children_displayable_from(o, i + 1)
    } else {
        true
    }
}

/// Two spaces per level; none for a negative level.
pub open spec fn object_indentation(level: i16) -> Seq<char> {
    if level >= 0 {
        indentation_text(level)
    } else {
        Seq::empty()
    }
}

/// The line of one element: `name (attributes) {inner text}`, indented.
pub open spec fn object_line_text(n: NodeView) -> Seq<char> {
    object_indentation(n.indentation_level) + n.name + seq![' ', '('] + attributes_text(n.attributes)
        + seq![')', ' ', '{'] + n.inner_text.unwrap() + seq!['}', '\n']
}

/// The text form of a tree: each element's line followed by its children's.
pub open spec fn object_text(n: NodeView) -> Seq<char>
    decreases n, n.children.len() + 1,
{
    object_line_text(n) + object_children_text_from(n, 0)
}

pub open spec fn object_children_text_from(n: NodeView, i: int) -> Seq<char>
    decreases n, n.children.len() - i,
{
    if 0 <= i < n.children.len() {
        object_text(n.children[i]) + object_children_text_from(n, i + 1)
    } else {
        Seq::empty()
    }
}

proof fn lemma_children_displayable(o: Object, i: int)
    requires
        0 <= i <= o.children@.len(),
        object_children_displayable_from(o, i),
    ensures
        forall|j: int| i <= j < o.children@.len() ==> object_displayable(#[trigger] o.children@[j]),
    decreases o.children@.len() - i,
{
    if i < o.children@.len() {
        lemma_children_displayable(o, i + 1);
    }
}

impl Object {
    /// The text form of the tree rooted here (see `object_text`).
    pub fn display_string(&self) -> (r: String)
        requires
            object_displayable(*self),
        ensures
            r@ == object_text(self@),
    {
        let mut out = String::new();
        self.write_text(&mut out);
        out
    }

    fn write_text(&self, out: &mut String)
        requires
            object_displayable(*self),
        ensures
            final(out)@ == old(out)@ + object_text(self@),
        decreases self,
    {
        let ghost start = out@;
        let ghost v = self@;
        self.write_line(out);
        let ghost before_children = out@;
        proof {
            lemma_object_view_children(*self);
            lemma_children_displayable(*self, 0);
        }
        for c in 0..self.children.len()
            invariant
                v == self@,
                v.children.len() == self.children@.len(),
                forall|j: int| 0 <= j < self.children@.len() ==> #[trigger] v.children[j] == self.children@[j]@,
                forall|j: int| 0 <= j < self.children@.len() ==> object_displayable(#[trigger] self.children@[j]),
                before_children + object_children_text_from(v, 0) == out@ + object_children_text_from(v, c as int),
        {
            assert(decreases_to!(*self => self.children));
            assert(decreases_to!(self.children => self.children@));
            assert(decreases_to!(self.children@ => self.children@[c as int]));
            self.children[c].write_text(out);
        }
        assert(out@ =~= start + object_text(v));
    }

    fn write_line(&self, out: &mut String)
        requires
            self.attributes is Some,
            self.inner_text is Some,
        ensures
            final(out)@ == old(out)@ + object_line_text(self@),
    {
        let ghost start = out@;
        if self.indentation_level >= 0 {
            write_indentation(out, self.indentation_level);
        }
        out.append(self.name.as_str());
        push_char(out, ' ');
        push_char(out, '(');
        match &self.attributes {
            Some(a) => write_attributes_text(out, a),
            None => {},
        }
        push_char(out, ')');
        push_char(out, ' ');
        push_char(out, '{');
        match &self.inner_text {
            Some(t) => out.append(t.as_str()),
            None => {},
        }
        push_char(out, '}');
        push_char(out, '\n');
        assert(out@ =~= start + object_line_text(self@));
    }
}

} // verus!
