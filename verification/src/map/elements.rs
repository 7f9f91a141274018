//! The objects drawn on a map (its elements), read from the `<parts>` section
//! of an `.omap` file, and the shifting of their coordinates.

use vstd::prelude::*;
use crate::map_file::reading::{attribute_value, last_child_named, lemma_view_children, Node, NodeView};
use crate::text::{
    chars_of, i32_text_value, i64_text_value, is_float_literal, is_float_text, nonempty_pieces,
    parse_i64, split_pieces, string_is, text_to_i32, text_to_i64, text_to_u32, u32_text_value,
};

verus! {

/// One point of an object: its coordinates and its flags. A point that starts
/// a Bézier curve is flagged `bayesian`; a point that closes a sub-path is
/// flagged `back_to_start`.
#[derive(Debug, Clone, Copy, PartialEq, Eq, Structural)]
pub struct PointNode {
    pub x: i64,
    pub y: i64,
    pub bayesian: bool,
    pub back_to_start: bool,
}

/// Whether every piece of `s` between white space reads as an `i64` and there
/// are at least two.
pub open spec fn point_text_ok(s: Seq<char>) -> bool {
    let t = nonempty_pieces(s, true);
    &&& t.len() >= 2
    &&& forall|i: int| 0 <= i < t.len() ==> (#[trigger] i64_text_value(t[i])) is Some
}

/// The point written `x y` or `x y flag`: a flag of 1 marks a Bézier start,
/// any other flag the end of a sub-path.
pub open spec fn point_from_text(s: Seq<char>) -> PointNode {
    let t = nonempty_pieces(s, true);
    let flagged = t.len() == 3;
    let flag = i64_text_value(t[2])->0;
    PointNode {
        x: i64_text_value(t[0])->0,
        y: i64_text_value(t[1])->0,
        bayesian: flagged && flag == 1,
        back_to_start: flagged && flag != 1,
    }
}

fn point_from_chars(cs: &Vec<char>) -> (r: PointNode)
    requires
        point_text_ok(cs@),
    ensures
        r == point_from_text(cs@),
{
    let tokens = split_pieces(cs, true);
    let ghost t = nonempty_pieces(cs@, true);
    assert(tokens@.len() == t.len());
    let mut numbers: Vec<i64> = Vec::new();
    for i in 0..tokens.len()
        invariant
            t == nonempty_pieces(cs@, true),
            t == tokens@.map_values(|p: Vec<char>| p@),
            t.len() == tokens@.len(),
            forall|j: int| 0 <= j < t.len() ==> (#[trigger] i64_text_value(t[j])) is Some,
            numbers@.len() == i,
            forall|j: int| 0 <= j < i ==> Some(#[trigger] numbers@[j]) == i64_text_value(t[j]),
    {
        assert(t[i as int] == tokens@[i as int]@);
        let n = parse_i64(&tokens[i]);
        assert(i64_text_value(t[i as int]) is Some);
        numbers.push(n.unwrap());
    }
    let x = numbers[0];
    let y = numbers[1];
    let mut bayesian = false;
    let mut back_to_start = false;
    if numbers.len() == 3 {
        if numbers[2] == 1 {
            bayesian = true;
        } else {
            back_to_start = true;
        }
    }
    PointNode { x, y, bayesian, back_to_start }
}

impl PointNode {
    /// Reads a point written `x y` or `x y flag` (numbers apart by white space).
    pub fn new_from_string(s: &str) -> (r: PointNode)
        requires
            point_text_ok(s@),
        ensures
            r == point_from_text(s@),
    {
        let cs = chars_of(s);
        point_from_chars(&cs)
    }
}

/// The points written in `text`, one between each pair of `;`, empty pieces
/// skipped.
pub open spec fn points_from_text(text: Seq<char>) -> Seq<PointNode> {
    nonempty_pieces(text, false).map_values(|p: Seq<char>| point_from_text(p))
}

pub open spec fn points_text_ok(text: Seq<char>) -> bool {
    forall|i: int|
        0 <= i < nonempty_pieces(text, false).len() ==> point_text_ok(
            #[trigger] nonempty_pieces(text, false)[i],
        )
}

/// Reads the points written in `text` (see `points_from_text`).
pub fn read_points(text: &String) -> (r: Vec<PointNode>)
    requires
        points_text_ok(text@),
    ensures
        r@ == points_from_text(text@),
{
    let text_chars = chars_of(text.as_str());
    let pieces = split_pieces(&text_chars, false);
    let ghost ps = nonempty_pieces(text_chars@, false);
    let ghost pts = points_from_text(text_chars@);
    let mut coordinates: Vec<PointNode> = Vec::new();
    for i in 0..pieces.len()
        invariant
            ps == pieces@.map_values(|p: Vec<char>| p@),
            ps.len() == pieces@.len(),
            pts == ps.map_values(|p: Seq<char>| point_from_text(p)),
            forall|j: int| 0 <= j < ps.len() ==> point_text_ok(#[trigger] ps[j]),
            coordinates@ == pts.take(i as int),
    {
        assert(ps[i as int] == pieces@[i as int]@);
        let a_point = point_from_chars(&pieces[i]);
        coordinates.push(a_point);
        assert(coordinates@ =~= pts.take(i + 1));
    }
    assert(pts.take(pieces.len() as int) == pts);
    coordinates
}

/// A copy of the points.
pub fn copy_points(v: &Vec<PointNode>) -> (r: Vec<PointNode>)
    ensures
        r@ == v@,
{
    let mut r: Vec<PointNode> = Vec::new();
    for i in 0..v.len()
        invariant
            r@ == v@.take(i as int),
    {
        r.push(v[i]);
        assert(v@.take(i + 1) =~= v@.take(i as int).push(v@[i as int]));
    }
    assert(v@.take(v.len() as int) == v@);
    r
}

/// The smallest (or, with `largest`, the largest) `x` (or, with `on_y`, `y`)
/// of the points.
pub open spec fn extreme(pts: Seq<PointNode>, on_y: bool, largest: bool) -> i64
    decreases pts.len(),
{
    if pts.len() == 0 {
        0
    } else if pts.len() == 1 {
        if on_y {
            pts[0].y
        } else {
            pts[0].x
        }
    } else {
        let rest = extreme(pts.drop_last(), on_y, largest);
        let last = if on_y {
            pts.last().y
        } else {
            pts.last().x
        };
        if (largest && last > rest) || (!largest && last < rest) {
            last
        } else {
            rest
        }
    }
}

pub open spec fn extreme_of(pts: Seq<PointNode>, on_y: bool, largest: bool) -> Option<i64> {
    if pts.len() == 0 {
        None
    } else {
        Some(extreme(pts, on_y, largest))
    }
}

/// One object of the map, drawn with the symbol `symbol`.
#[derive(Debug)]
pub struct Element {
    pub element_type: u32,
    pub symbol: i32,
    pub coordinates: Vec<PointNode>,
    /// The rotation of the fill pattern, as written in the file (a
    /// floating-point literal; `0` when the object has no pattern).
    pub pattern_rotation: String,
    pub pattern_rotation_x: i64,
    pub pattern_rotation_y: i64,
    pub min_x: Option<i64>,
    pub max_x: Option<i64>,
    pub min_y: Option<i64>,
    pub max_y: Option<i64>,
}

pub struct ElementView {
    pub element_type: u32,
    pub symbol: i32,
    pub coordinates: Seq<PointNode>,
    pub pattern_rotation: Seq<char>,
    pub pattern_rotation_x: i64,
    pub pattern_rotation_y: i64,
    pub min_x: Option<i64>,
    pub max_x: Option<i64>,
    pub min_y: Option<i64>,
    pub max_y: Option<i64>,
}

impl View for Element {
    type V = ElementView;

    open spec fn view(&self) -> ElementView {
        ElementView {
            element_type: self.element_type,
            symbol: self.symbol,
            coordinates: self.coordinates@,
            pattern_rotation: self.pattern_rotation@,
            pattern_rotation_x: self.pattern_rotation_x,
            pattern_rotation_y: self.pattern_rotation_y,
            min_x: self.min_x,
            max_x: self.max_x,
            min_y: self.min_y,
            max_y: self.max_y,
        }
    }
}

/// The text inside the `<coords>` child of an object (the last one, if there
/// are several).
pub open spec fn coords_text(n: NodeView) -> Option<Seq<char>> {
    match last_child_named(n, "coords"@) {
        Some(c) => c.inner_text,
        None => None,
    }
}

/// Whether the `<pattern>` child of an object, if it has one, carries a
/// readable rotation and a `<coord>` child with readable `x` and `y`.
pub open spec fn pattern_ok(n: NodeView) -> bool {
    match last_child_named(n, "pattern"@) {
        None => true,
        Some(p) => {
            &&& attribute_value(p.attributes, "rotation"@) matches Some(r) && is_float_text(r)
            &&& last_child_named(p, "coord"@) matches Some(c) && {
                &&& attribute_value(c.attributes, "x"@) matches Some(x) && i64_text_value(x) is Some
                &&& attribute_value(c.attributes, "y"@) matches Some(y) && i64_text_value(y) is Some
            }
        },
    }
}

/// Whether an `<object>` element can be read: a readable `type` and `symbol`,
/// a `<coords>` child with text whose every point is readable, and a readable
/// pattern if there is one.
pub open spec fn element_node_ok(n: NodeView) -> bool {
    &&& attribute_value(n.attributes, "type"@) matches Some(t) && u32_text_value(t) is Some
    &&& attribute_value(n.attributes, "symbol"@) matches Some(s) && i32_text_value(s) is Some
    &&& coords_text(n) matches Some(text) && points_text_ok(text)
    &&& pattern_ok(n)
}

/// The element read from an `<object>` element.
pub open spec fn element_from_node(n: NodeView) -> ElementView {
    let pts = points_from_text(coords_text(n)->0);
    let pattern = last_child_named(n, "pattern"@);
    let coord = last_child_named(pattern->0, "coord"@)->0;
    ElementView {
        element_type: u32_text_value(attribute_value(n.attributes, "type"@)->0)->0,
        symbol: i32_text_value(attribute_value(n.attributes, "symbol"@)->0)->0,
        coordinates: pts,
        pattern_rotation: if pattern is Some {
            attribute_value(pattern->0.attributes, "rotation"@)->0
        } else {
            "0"@
        },
        pattern_rotation_x: if pattern is Some {
            i64_text_value(attribute_value(coord.attributes, "x"@)->0)->0
        } else {
            0
        },
        pattern_rotation_y: if pattern is Some {
            i64_text_value(attribute_value(coord.attributes, "y"@)->0)->0
        } else {
            0
        },
        min_x: extreme_of(pts, false, false),
        max_x: extreme_of(pts, false, true),
        min_y: extreme_of(pts, true, false),
        max_y: extreme_of(pts, true, true),
    }
}

/// Whether `v - d` fits in an `i64`.
pub open spec fn fits_shift(v: i64, d: int) -> bool {
    i64::MIN <= v - d <= i64::MAX
}

pub open spec fn opt_fits_shift(v: Option<i64>, d: int) -> bool {
    v matches Some(a) ==> fits_shift(a, d)
}

pub open spec fn opt_shifted(v: Option<i64>, d: int) -> Option<i64> {
    match v {
        Some(a) => Some((a - d) as i64),
        None => None,
    }
}

pub open spec fn shifted_point(p: PointNode, x: int, y: int) -> PointNode {
    PointNode { x: (p.x - x) as i64, y: (p.y - y) as i64, ..p }
}

impl ElementView {
    /// Whether moving the origin to `(x, y)` keeps every coordinate in an `i64`.
    pub open spec fn can_shift(self, x: int, y: int) -> bool {
        &&& forall|i: int|
            0 <= i < self.coordinates.len() ==> fits_shift(#[trigger] self.coordinates[i].x, x)
                && fits_shift(self.coordinates[i].y, y)
        &&& self.min_x is Some ==> {
            &&& self.max_x is Some && self.min_y is Some && self.max_y is Some
            &&& opt_fits_shift(self.min_x, x) && opt_fits_shift(self.max_x, x)
            &&& opt_fits_shift(self.min_y, y) && opt_fits_shift(self.max_y, y)
        }
        &&& fits_shift(self.pattern_rotation_x, x) && fits_shift(self.pattern_rotation_y, y)
    }

    /// The element seen from the origin `(x, y)`.
    pub open spec fn shifted(self, x: int, y: int) -> ElementView {
        ElementView {
            coordinates: self.coordinates.map_values(|p: PointNode| shifted_point(p, x, y)),
            pattern_rotation_x: (self.pattern_rotation_x - x) as i64,
            pattern_rotation_y: (self.pattern_rotation_y - y) as i64,
            min_x: if self.min_x is Some { opt_shifted(self.min_x, x) } else { self.min_x },
            max_x: if self.min_x is Some { opt_shifted(self.max_x, x) } else { self.max_x },
            min_y: if self.min_x is Some { opt_shifted(self.min_y, y) } else { self.min_y },
            max_y: if self.min_x is Some { opt_shifted(self.max_y, y) } else { self.max_y },
            ..self
        }
    }
}

proof fn lemma_extreme_step(pts: Seq<PointNode>, on_y: bool, largest: bool)
    requires
        pts.len() >= 2,
    ensures
        ({
            let rest = extreme(pts.drop_last(), on_y, largest);
            let last = if on_y {
                pts.last().y
            } else {
                pts.last().x
            };
            extreme(pts, on_y, largest) == if (largest && last > rest) || (!largest && last < rest) {
                last
            } else {
                rest
            }
        }),
{
}

/// The smallest of the values is no larger than the largest.
proof fn lemma_extreme_order(pts: Seq<PointNode>, on_y: bool)
    requires
        pts.len() >= 1,
    ensures
        extreme(pts, on_y, false) <= extreme(pts, on_y, true),
    decreases pts.len(),
{
    if pts.len() >= 2 {
        lemma_extreme_order(pts.drop_last(), on_y);
    }
}

impl Element {
    /// Reads an `<object>` element: its type, symbol, points (with their
    /// bounding box) and fill pattern.
    pub fn elements_from_object_node(node: &Node) -> (r: Element)
        requires
            element_node_ok(node@),
        ensures
            r@ == element_from_node(node@),
    {
        let element_type = text_to_u32(&node.search_attribute_by_name("type").unwrap()).unwrap();
        let symbol = text_to_i32(&node.search_attribute_by_name("symbol").unwrap()).unwrap();
        let coordinate_str_node = node.search_last_child_by_name("coords").unwrap();
        let inner_text_str = coordinate_str_node.inner_text.as_ref().unwrap();
        let text_chars = chars_of(inner_text_str.as_str());
        let pieces = split_pieces(&text_chars, false);
        let ghost ps = nonempty_pieces(text_chars@, false);
        let ghost pts = points_from_text(text_chars@);
        let mut coordinates: Vec<PointNode> = Vec::new();
        let mut min_x: Option<i64> = None;
        let mut max_x: Option<i64> = None;
        let mut min_y: Option<i64> = None;
        let mut max_y: Option<i64> = None;
        for i in 0..pieces.len()
            invariant
                ps == pieces@.map_values(|p: Vec<char>| p@),
                ps.len() == pieces@.len(),
                pts == ps.map_values(|p: Seq<char>| point_from_text(p)),
                forall|j: int| 0 <= j < ps.len() ==> point_text_ok(#[trigger] ps[j]),
                coordinates@ == pts.take(i as int),
                min_x == extreme_of(pts.take(i as int), false, false),
                max_x == extreme_of(pts.take(i as int), false, true),
                min_y == extreme_of(pts.take(i as int), true, false),
                max_y == extreme_of(pts.take(i as int), true, true),
        {
            assert(ps[i as int] == pieces@[i as int]@);
            let a_point = point_from_chars(&pieces[i]);
            assert(a_point == pts[i as int]);
            let ghost prefix = pts.take(i + 1);
            assert(prefix.drop_last() =~= pts.take(i as int));
            if i > 0 {
                proof {
                    lemma_extreme_step(prefix, false, false);
                    lemma_extreme_step(prefix, false, true);
                    lemma_extreme_step(prefix, true, false);
                    lemma_extreme_step(prefix, true, true);
                    lemma_extreme_order(pts.take(i as int), false);
                    lemma_extreme_order(pts.take(i as int), true);
                }
            }
            if min_x.is_none() {
                min_x = Some(a_point.x);
                max_x = Some(a_point.x);
                min_y = Some(a_point.y);
                max_y = Some(a_point.y);
            } else {
                if a_point.x < min_x.unwrap() {
                    min_x = Some(a_point.x);
                } else if a_point.x > max_x.unwrap() {
                    max_x = Some(a_point.x);
                }
                if a_point.y < min_y.unwrap() {
                    min_y = Some(a_point.y);
                } else if a_point.y > max_y.unwrap() {
                    max_y = Some(a_point.y);
                }
            }
            coordinates.push(a_point);
            assert(coordinates@ =~= pts.take(i + 1));
        }
        assert(pts.take(pieces.len() as int) == pts);
        let mut pattern_rotation = String::from_str("0");
        let mut pattern_rotation_x: i64 = 0;
        let mut pattern_rotation_y: i64 = 0;
        if let Some(pattern_node) = node.search_last_child_by_name("pattern") {
            pattern_rotation = pattern_node.search_attribute_by_name("rotation").unwrap();
            let pattern_coord = pattern_node.search_last_child_by_name("coord").unwrap();
            pattern_rotation_x = text_to_i64(
                &pattern_coord.search_attribute_by_name("x").unwrap(),
            ).unwrap();
            pattern_rotation_y = text_to_i64(
                &pattern_coord.search_attribute_by_name("y").unwrap(),
            ).unwrap();
        }
        Element {
            element_type,
            symbol,
            coordinates,
            pattern_rotation,
            pattern_rotation_x,
            pattern_rotation_y,
            min_x,
            max_x,
            min_y,
            max_y,
        }
    }

    /// Moves the origin to `(x, y)`: every coordinate, the bounding box and
    /// the pattern's position are expressed from there.
    pub fn change_origin(&mut self, x: i64, y: i64)
        requires
            old(self)@.can_shift(x as int, y as int),
        ensures
            final(self)@ == old(self)@.shifted(x as int, y as int),
    {
        let ghost before = self@;
        let n = self.coordinates.len();
        let mut i: usize = 0;
        while i < n
            invariant
                0 <= i <= n,
                n == before.coordinates.len(),
                before.can_shift(x as int, y as int),
                self.coordinates@.len() == before.coordinates.len(),
                forall|j: int|
                    0 <= j < i ==> #[trigger] self.coordinates@[j] == shifted_point(
                        before.coordinates[j],
                        x as int,
                        y as int,
                    ),
                forall|j: int| i <= j < self.coordinates@.len() ==> #[trigger] self.coordinates@[j] == before.coordinates[j],
                self.element_type == before.element_type,
                self.symbol == before.symbol,
                self.pattern_rotation@ == before.pattern_rotation,
                self.pattern_rotation_x == before.pattern_rotation_x,
                self.pattern_rotation_y == before.pattern_rotation_y,
                self.min_x == before.min_x,
                self.max_x == before.max_x,
                self.min_y == before.min_y,
                self.max_y == before.max_y,
            decreases n - i,
        {
            let p = self.coordinates[i];
            assert(fits_shift(before.coordinates[i as int].x, x as int));
            let q = PointNode { x: p.x - x, y: p.y - y, bayesian: p.bayesian, back_to_start: p.back_to_start };
            self.coordinates.set(i, q);
            i = i + 1;
        }
        if self.min_x.is_some() {
            self.min_x = Some(self.min_x.unwrap() - x);
            self.max_x = Some(self.max_x.unwrap() - x);
            self.min_y = Some(self.min_y.unwrap() - y);
            self.max_y = Some(self.max_y.unwrap() - y);
        }
        self.pattern_rotation_x = self.pattern_rotation_x - x;
        self.pattern_rotation_y = self.pattern_rotation_y - y;
        assert(self@.coordinates =~= before.shifted(x as int, y as int).coordinates);
    }
}

/// Every object of the map, with the bounding box of all their points.
pub struct ElementsBag {
    pub bag: Vec<Element>,
    pub min_x: Option<i64>,
    pub max_x: Option<i64>,
    pub min_y: Option<i64>,
    pub max_y: Option<i64>,
}

pub struct ElementsBagView {
    pub bag: Seq<ElementView>,
    pub min_x: Option<i64>,
    pub max_x: Option<i64>,
    pub min_y: Option<i64>,
    pub max_y: Option<i64>,
}

pub open spec fn elements_view(es: Seq<Element>) -> Seq<ElementView> {
    es.map_values(|e: Element| e@)
}

impl View for ElementsBag {
    type V = ElementsBagView;

    open spec fn view(&self) -> ElementsBagView {
        ElementsBagView {
            bag: elements_view(self.bag@),
            min_x: self.min_x,
            max_x: self.max_x,
            min_y: self.min_y,
            max_y: self.max_y,
        }
    }
}

/// One corner value of an element's bounding box.
pub open spec fn element_bound(e: ElementView, on_y: bool, largest: bool) -> i64 {
    if on_y {
        if largest {
            e.max_y->0
        } else {
            e.min_y->0
        }
    } else {
        if largest {
            e.max_x->0
        } else {
            e.min_x->0
        }
    }
}

/// The smallest (or largest) corner value over the elements.
pub open spec fn bag_extreme(es: Seq<ElementView>, on_y: bool, largest: bool) -> i64
    decreases es.len(),
{
    if es.len() == 0 {
        0
    } else if es.len() == 1 {
        element_bound(es[0], on_y, largest)
    } else {
        let rest = bag_extreme(es.drop_last(), on_y, largest);
        let last = element_bound(es.last(), on_y, largest);
        if (largest && last > rest) || (!largest && last < rest) {
            last
        } else {
            rest
        }
    }
}

pub open spec fn bag_extreme_of(es: Seq<ElementView>, on_y: bool, largest: bool) -> Option<i64> {
    if es.len() == 0 {
        None
    } else {
        Some(bag_extreme(es, on_y, largest))
    }
}

/// The `<objects>` element of a part (the last one, if there are several).
pub open spec fn objects_of(part: NodeView) -> Seq<NodeView> {
    last_child_named(part, "objects"@)->0.children
}

/// The objects of the first `p` parts, in order.
pub open spec fn objects_upto(n: NodeView, p: int) -> Seq<NodeView>
    decreases p,
{
    if p <= 0 {
        Seq::empty()
    } else {
        objects_upto(n, p - 1) + objects_of(n.children[p - 1])
    }
}

/// Whether a part has an `<objects>` child whose every object can be read and
/// has at least one point.
pub open spec fn part_ok(part: NodeView) -> bool {
    &&& last_child_named(part, "objects"@) is Some
    &&& forall|j: int|
        0 <= j < objects_of(part).len() ==> element_node_ok(#[trigger] objects_of(part)[j])
            && element_from_node(objects_of(part)[j]).coordinates.len() > 0
}

/// Whether every part of a `<parts>` element can be read.
pub open spec fn parts_ok(n: NodeView) -> bool {
    forall|p: int| 0 <= p < n.children.len() ==> part_ok(#[trigger] n.children[p])
}

/// The objects read from a `<parts>` element, with their common bounding box.
pub open spec fn bag_from_parts(n: NodeView) -> ElementsBagView {
    let es = objects_upto(n, n.children.len() as int).map_values(|o: NodeView| element_from_node(o));
    ElementsBagView {
        bag: es,
        min_x: bag_extreme_of(es, false, false),
        max_x: bag_extreme_of(es, false, true),
        min_y: bag_extreme_of(es, true, false),
        max_y: bag_extreme_of(es, true, true),
    }
}

impl ElementsBagView {
    pub open spec fn can_shift(self, x: int, y: int) -> bool {
        &&& forall|i: int| 0 <= i < self.bag.len() ==> (#[trigger] self.bag[i]).can_shift(x, y)
        &&& self.min_x is Some ==> {
            &&& self.max_x is Some && self.min_y is Some && self.max_y is Some
            &&& opt_fits_shift(self.min_x, x) && opt_fits_shift(self.max_x, x)
            &&& opt_fits_shift(self.min_y, y) && opt_fits_shift(self.max_y, y)
        }
    }

    /// The objects seen from the origin `(x, y)`.
    pub open spec fn shifted(self, x: int, y: int) -> ElementsBagView {
        ElementsBagView {
            bag: self.bag.map_values(|e: ElementView| e.shifted(x, y)),
            min_x: if self.min_x is Some { opt_shifted(self.min_x, x) } else { self.min_x },
            max_x: if self.min_x is Some { opt_shifted(self.max_x, x) } else { self.max_x },
            min_y: if self.min_x is Some { opt_shifted(self.min_y, y) } else { self.min_y },
            max_y: if self.min_x is Some { opt_shifted(self.max_y, y) } else { self.max_y },
        }
    }
}

proof fn lemma_bag_extreme_step(es: Seq<ElementView>, on_y: bool, largest: bool)
    requires
        es.len() >= 2,
    ensures
        ({
            let rest = bag_extreme(es.drop_last(), on_y, largest);
            let last = element_bound(es.last(), on_y, largest);
            bag_extreme(es, on_y, largest) == if (largest && last > rest) || (!largest && last < rest) {
                last
            } else {
                rest
            }
        }),
{
}

impl ElementsBag {
    /// Reads every object of every part of a `<parts>` element, in order, and
    /// their common bounding box.
    pub fn elements_from_parts(node: &Node) -> (r: ElementsBag)
        requires
            parts_ok(node@),
        ensures
            r@ == bag_from_parts(node@),
    {
        let ghost n = node@;
        proof {
            lemma_view_children(*node);
        }
        let mut elements: Vec<Element> = Vec::new();
        let mut min_x: Option<i64> = None;
        let mut max_x: Option<i64> = None;
        let mut min_y: Option<i64> = None;
        let mut max_y: Option<i64> = None;
        for p in 0..node.children.len()
            invariant
                n == node@,
                n.children.len() == node.children@.len(),
                forall|j: int| 0 <= j < node.children@.len() ==> #[trigger] n.children[j] == node.children@[j]@,
                parts_ok(n),
                elements_view(elements@) == objects_upto(n, p as int).map_values(
                    |o: NodeView| element_from_node(o),
                ),
                forall|k: int| 0 <= k < elements@.len() ==> (#[trigger] elements@[k]).min_x is Some
                    && elements@[k].max_x is Some && elements@[k].min_y is Some && elements@[k].max_y is Some,
                min_x == bag_extreme_of(elements_view(elements@), false, false),
                max_x == bag_extreme_of(elements_view(elements@), false, true),
                min_y == bag_extreme_of(elements_view(elements@), true, false),
                max_y == bag_extreme_of(elements_view(elements@), true, true),
        {
            let part = &node.children[p];
            assert(part_ok(n.children[p as int]));
            let objects = part.search_last_child_by_name("objects").unwrap();
            let ghost ov = objects@;
            assert(ov.children == objects_of(n.children[p as int]));
            proof {
                lemma_view_children(*objects);
            }
            let ghost start = objects_upto(n, p as int).map_values(|o: NodeView| element_from_node(o));
            for j in 0..objects.children.len()
                invariant
                    ov == objects@,
                    part_ok(n.children[p as int]),
                    ov.children == objects_of(n.children[p as int]),
                    ov.children.len() == objects.children@.len(),
                    forall|q: int| 0 <= q < objects.children@.len() ==> #[trigger] ov.children[q] == objects.children@[q]@,
                    elements_view(elements@) == start + ov.children.take(j as int).map_values(
                        |o: NodeView| element_from_node(o),
                    ),
                    forall|k: int| 0 <= k < elements@.len() ==> (#[trigger] elements@[k]).min_x is Some
                        && elements@[k].max_x is Some && elements@[k].min_y is Some && elements@[k].max_y is Some,
                    min_x == bag_extreme_of(elements_view(elements@), false, false),
                    max_x == bag_extreme_of(elements_view(elements@), false, true),
                    min_y == bag_extreme_of(elements_view(elements@), true, false),
                    max_y == bag_extreme_of(elements_view(elements@), true, true),
            {
                let object = &objects.children[j];
                assert(element_node_ok(ov.children[j as int]));
                let an_element = Element::elements_from_object_node(object);
                assert(an_element.coordinates@.len() > 0);
                let ghost before = elements_view(elements@);
                let ghost after = before.push(an_element@);
                assert(after.drop_last() == before);
                proof {
                    if before.len() > 0 {
                        lemma_bag_extreme_step(after, false, false);
                        lemma_bag_extreme_step(after, false, true);
                        lemma_bag_extreme_step(after, true, false);
                        lemma_bag_extreme_step(after, true, true);
                    }
                }
                if min_x.is_none() {
                    min_x = Some(an_element.min_x.unwrap());
                    max_x = Some(an_element.max_x.unwrap());
                    min_y = Some(an_element.min_y.unwrap());
                    max_y = Some(an_element.max_y.unwrap());
                } else {
                    if an_element.min_x.unwrap() < min_x.unwrap() {
                        min_x = Some(an_element.min_x.unwrap());
                    }
                    if an_element.max_x.unwrap() > max_x.unwrap() {
                        max_x = Some(an_element.max_x.unwrap());
                    }
                    if an_element.min_y.unwrap() < min_y.unwrap() {
                        min_y = Some(an_element.min_y.unwrap());
                    }
                    if an_element.max_y.unwrap() > max_y.unwrap() {
                        max_y = Some(an_element.max_y.unwrap());
                    }
                }
                elements.push(an_element);
                assert(elements_view(elements@) =~= after);
                assert(ov.children.take(j + 1) =~= ov.children.take(j as int).push(ov.children[j as int]));
                assert(start + ov.children.take(j + 1).map_values(|o: NodeView| element_from_node(o))
                    =~= after);
            }
            assert(ov.children.take(objects.children.len() as int) == ov.children);
            assert(objects_upto(n, p + 1) == objects_upto(n, p as int) + objects_of(n.children[p as int]));
            assert(objects_upto(n, p + 1).map_values(|o: NodeView| element_from_node(o))
                =~= start + ov.children.map_values(|o: NodeView| element_from_node(o)));
        }
        let r = ElementsBag { bag: elements, min_x, max_x, min_y, max_y };
        r
    }

    /// Moves the origin to `(x, y)` for every object and for the bounding box.
    pub fn change_origin(&mut self, x: i64, y: i64)
        requires
            old(self)@.can_shift(x as int, y as int),
        ensures
            final(self)@ == old(self)@.shifted(x as int, y as int),
    {
        let ghost before = self@;
        let mut old_bag: Vec<Element> = Vec::new();
        std::mem::swap(&mut old_bag, &mut self.bag);
        let mut new_bag: Vec<Element> = Vec::new();
        for e in it: old_bag
            invariant
                before.can_shift(x as int, y as int),
                elements_view(it.seq()) == before.bag,
                elements_view(new_bag@) == before.bag.take(it.index() as int).map_values(
                    |e: ElementView| e.shifted(x as int, y as int),
                ),
        {
            let ghost k = it.index() as int;
            assert(before.bag[k] == e@);
            let mut e = e;
            e.change_origin(x, y);
            let ghost nb = elements_view(new_bag@);
            let ghost moved = e@;
            assert(moved == before.bag[k].shifted(x as int, y as int));
            new_bag.push(e);
            assert(elements_view(new_bag@) =~= nb.push(moved));
            assert(before.bag.take(k + 1) =~= before.bag.take(k).push(before.bag[k]));
            assert(elements_view(new_bag@) =~= before.bag.take(k + 1).map_values(
                |e: ElementView| e.shifted(x as int, y as int),
            ));
        }
        assert(before.bag.take(before.bag.len() as int) == before.bag);
        self.bag = new_bag;
        if self.min_x.is_some() {
            self.min_x = Some(self.min_x.unwrap() - x);
            self.max_x = Some(self.max_x.unwrap() - x);
            self.min_y = Some(self.min_y.unwrap() - y);
            self.max_y = Some(self.max_y.unwrap() - y);
        }
        assert(self@.bag =~= before.shifted(x as int, y as int).bag);
    }

    /// Moves the origin to the lower corner of the bounding box.
    pub fn normalize_origin(&mut self)
        requires
            old(self).min_x is Some,
            old(self).min_y is Some,
            old(self)@.can_shift(old(self).min_x->0 as int, old(self).min_y->0 as int),
        ensures
            final(self)@ == old(self)@.shifted(old(self).min_x->0 as int, old(self).min_y->0 as int),
    {
        let x = self.min_x.unwrap();
        let y = self.min_y.unwrap();
        self.change_origin(x, y);
    }
}


// ---------------------------------------------------------------------------
// Checks of what the readings and the shifts above need
// ---------------------------------------------------------------------------

/// Whether a point can be read (see `point_text_ok`).
fn point_chars_readable(cs: &Vec<char>) -> (r: bool)
    ensures
        r == point_text_ok(cs@),
{
    let tokens = split_pieces(cs, true);
    let ghost t = nonempty_pieces(cs@, true);
    assert(tokens@.len() == t.len());
    if tokens.len() < 2 {
        return false;
    }
    for i in 0..tokens.len()
        invariant
            t == nonempty_pieces(cs@, true),
            t == tokens@.map_values(|p: Vec<char>| p@),
            t.len() == tokens@.len(),
            forall|j: int| 0 <= j < i ==> (#[trigger] i64_text_value(t[j])) is Some,
    {
        assert(t[i as int] == tokens@[i as int]@);
        if parse_i64(&tokens[i]).is_none() {
            assert(i64_text_value(t[i as int]) is None);
            return false;
        }
    }
    true
}

/// Whether every point of a `<coords>` text can be read (see
/// `points_text_ok`).
pub fn points_text_readable(text: &String) -> (r: bool)
    ensures
        r == points_text_ok(text@),
{
    let text_chars = chars_of(text.as_str());
    let pieces = split_pieces(&text_chars, false);
    let ghost ps = nonempty_pieces(text@, false);
    for i in 0..pieces.len()
        invariant
            ps == nonempty_pieces(text@, false),
            ps == pieces@.map_values(|p: Vec<char>| p@),
            ps.len() == pieces@.len(),
            forall|j: int| 0 <= j < i ==> point_text_ok(#[trigger] ps[j]),
    {
        assert(ps[i as int] == pieces@[i as int]@);
        if !point_chars_readable(&pieces[i]) {
            return false;
        }
    }
    true
}

/// Whether an `<object>` element can be read and has at least one point.
pub fn object_readable(node: &Node) -> (r: bool)
    ensures
        r == (element_node_ok(node@) && element_from_node(node@).coordinates.len() > 0),
{
    match node.search_attribute_by_name("type") {
        Some(t) => if text_to_u32(&t).is_none() {
            return false;
        },
        None => {
            return false;
        },
    }
    match node.search_attribute_by_name("symbol") {
        Some(t) => if text_to_i32(&t).is_none() {
            return false;
        },
        None => {
            return false;
        },
    }
    let coords = match node.search_last_child_by_name("coords") {
        Some(c) => c,
        None => {
            return false;
        },
    };
    let text = match &coords.inner_text {
        Some(t) => t,
        None => {
            return false;
        },
    };
    assert(coords_text(node@) == Some(text@));
    if !points_text_readable(text) {
        return false;
    }
    let pieces = split_pieces(&chars_of(text.as_str()), false);
    if pieces.len() == 0 {
        assert(points_from_text(text@).len() == 0);
        return false;
    }
    match node.search_last_child_by_name("pattern") {
        None => {},
        Some(p) => {
            match p.search_attribute_by_name("rotation") {
                Some(rotation) => if !is_float_literal(&rotation) {
                    return false;
                },
                None => {
                    return false;
                },
            }
            let c = match p.search_last_child_by_name("coord") {
                Some(c) => c,
                None => {
                    return false;
                },
            };
            match c.search_attribute_by_name("x") {
                Some(x) => if text_to_i64(&x).is_none() {
                    return false;
                },
                None => {
                    return false;
                },
            }
            match c.search_attribute_by_name("y") {
                Some(y) => if text_to_i64(&y).is_none() {
                    return false;
                },
                None => {
                    return false;
                },
            }
        },
    }
    true
}

/// Whether every object under an `<objects>` element can be read and has at
/// least one point.
fn objects_readable(objects: &Node) -> (r: bool)
    ensures
        r == forall|k: int|
            0 <= k < objects@.children.len() ==> element_node_ok(#[trigger] objects@.children[k])
                && element_from_node(objects@.children[k]).coordinates.len() > 0,
{
    proof {
        lemma_view_children(*objects);
    }
    let ghost os = objects@.children;
    for j in 0..objects.children.len()
        invariant
            os == objects@.children,
            os.len() == objects.children@.len(),
            forall|k: int| 0 <= k < objects.children@.len() ==> #[trigger] os[k] == objects.children@[k]@,
            forall|k: int|
                0 <= k < j ==> element_node_ok(#[trigger] os[k]) && element_from_node(os[k]).coordinates.len()
                    > 0,
    {
        assert(os[j as int] == objects.children@[j as int]@);
        if !object_readable(&objects.children[j]) {
            return false;
        }
    }
    true
}

/// Whether every part of a `<parts>` element can be read (see `parts_ok`).
pub fn parts_readable(node: &Node) -> (r: bool)
    ensures
        r == parts_ok(node@),
{
    proof {
        lemma_view_children(*node);
    }
    let ghost n = node@;
    for p in 0..node.children.len()
        invariant
            n == node@,
            n.children.len() == node.children@.len(),
            forall|j: int| 0 <= j < node.children@.len() ==> #[trigger] n.children[j] == node.children@[j]@,
            forall|q: int| 0 <= q < p ==> part_ok(#[trigger] n.children[q]),
    {
        let part = &node.children[p];
        assert(n.children[p as int] == part@);
        let objects = match part.search_last_child_by_name("objects") {
            Some(o) => o,
            None => {
                assert(!part_ok(part@));
                return false;
            },
        };
        if !objects_readable(objects) {
            assert(!part_ok(part@));
            return false;
        }
        assert(part_ok(part@));
    }
    true
}

fn shift_fits(v: i64, d: i64) -> (r: bool)
    ensures
        r == fits_shift(v, d as int),
{
    let diff: i128 = v as i128 - d as i128;
    -0x8000_0000_0000_0000i128 <= diff && diff <= 0x7fff_ffff_ffff_ffffi128
}

fn opt_shift_fits(v: Option<i64>, d: i64) -> (r: bool)
    ensures
        r == opt_fits_shift(v, d as int),
{
    match v {
        Some(a) => shift_fits(a, d),
        None => true,
    }
}

impl Element {
    /// Whether the origin can be moved to `(x, y)` (see `can_shift`).
    pub fn can_change_origin(&self, x: i64, y: i64) -> (r: bool)
        ensures
            r == self@.can_shift(x as int, y as int),
    {
        let mut i: usize = 0;
        while i < self.coordinates.len()
            invariant
                0 <= i <= self.coordinates@.len(),
                forall|j: int|
                    0 <= j < i ==> fits_shift(#[trigger] self.coordinates@[j].x, x as int) && fits_shift(
                        self.coordinates@[j].y,
                        y as int,
                    ),
            decreases self.coordinates@.len() - i,
        {
            let p = self.coordinates[i];
            assert(p == self.coordinates@[i as int]);
            let fits_x = shift_fits(p.x, x);
            let fits_y = shift_fits(p.y, y);
            assert(fits_x == fits_shift(self.coordinates@[i as int].x, x as int));
            if !fits_x || !fits_y {
                assert(!(fits_shift(self.coordinates@[i as int].x, x as int) && fits_shift(
                    self.coordinates@[i as int].y,
                    y as int,
                )));
                assert(self@.coordinates[i as int] == self.coordinates@[i as int]);
                assert(!self@.can_shift(x as int, y as int));
                return false;
            }
            assert(fits_shift(self.coordinates@[i as int].x, x as int) && fits_shift(
                self.coordinates@[i as int].y,
                y as int,
            ));
            let ghost old_i = i;
            i = i + 1;
            assert forall|j: int| 0 <= j < i implies fits_shift(
                #[trigger] self.coordinates@[j].x,
                x as int,
            ) && fits_shift(self.coordinates@[j].y, y as int) by {
                if j < old_i {
                } else {
                    assert(j == old_i);
                }
            }
        }
        if self.min_x.is_some() {
            if self.max_x.is_none() || self.min_y.is_none() || self.max_y.is_none() {
                return false;
            }
            if !opt_shift_fits(self.min_x, x) || !opt_shift_fits(self.max_x, x) || !opt_shift_fits(
                self.min_y,
                y,
            ) || !opt_shift_fits(self.max_y, y) {
                return false;
            }
        }
        shift_fits(self.pattern_rotation_x, x) && shift_fits(self.pattern_rotation_y, y)
    }
}

impl ElementsBag {
    /// Whether the origin of every object and of the bounding box can be
    /// moved to `(x, y)` (see `can_shift`).
    pub fn can_change_origin(&self, x: i64, y: i64) -> (r: bool)
        ensures
            r == self@.can_shift(x as int, y as int),
    {
        let ghost es = elements_view(self.bag@);
        for i in 0..self.bag.len()
            invariant
                es == elements_view(self.bag@),
                forall|j: int| 0 <= j < i ==> (#[trigger] es[j]).can_shift(x as int, y as int),
        {
            assert(es[i as int] == self.bag@[i as int]@);
            if !self.bag[i].can_change_origin(x, y) {
                assert(!es[i as int].can_shift(x as int, y as int));
                assert(self@.bag == es);
                assert(self@.bag[i as int] == es[i as int]);
                assert(!self@.can_shift(x as int, y as int));
                return false;
            }
        }
        if self.min_x.is_some() {
            if self.max_x.is_none() || self.min_y.is_none() || self.max_y.is_none() {
                return false;
            }
            if !opt_shift_fits(self.min_x, x) || !opt_shift_fits(self.max_x, x) || !opt_shift_fits(
                self.min_y,
                y,
            ) || !opt_shift_fits(self.max_y, y) {
                return false;
            }
        }
        true
    }

    /// Whether the origin can be moved to the lower corner of the bounding
    /// box (what `normalize_origin` needs).
    pub fn can_normalize_origin(&self) -> (r: bool)
        ensures
            r == (self.min_x is Some && self.min_y is Some && self@.can_shift(
                self.min_x->0 as int,
                self.min_y->0 as int,
            )),
    {
        match (self.min_x, self.min_y) {
            (Some(x), Some(y)) => self.can_change_origin(x, y),
            _ => false,
        }
    }
}

// ---------------------------------------------------------------------------
// Laws
// ---------------------------------------------------------------------------

/// The `x` (or, with `on_y`, the `y`) of a point.
pub open spec fn coordinate(p: PointNode, on_y: bool) -> i64 {
    if on_y {
        p.y
    } else {
        p.x
    }
}

proof fn lemma_extreme_bounds(pts: Seq<PointNode>, on_y: bool, largest: bool, j: int)
    requires
        0 <= j < pts.len(),
    ensures
        largest ==> coordinate(pts[j], on_y) <= extreme(pts, on_y, largest),
        !largest ==> extreme(pts, on_y, largest) <= coordinate(pts[j], on_y),
    decreases pts.len(),
{
    if pts.len() >= 2 && j < pts.len() - 1 {
        lemma_extreme_bounds(pts.drop_last(), on_y, largest, j);
        assert(pts.drop_last()[j] == pts[j]);
    }
}

proof fn lemma_bag_extreme_bounds(es: Seq<ElementView>, on_y: bool, largest: bool, i: int)
    requires
        0 <= i < es.len(),
    ensures
        largest ==> element_bound(es[i], on_y, largest) <= bag_extreme(es, on_y, largest),
        !largest ==> bag_extreme(es, on_y, largest) <= element_bound(es[i], on_y, largest),
    decreases es.len(),
{
    if es.len() >= 2 && i < es.len() - 1 {
        lemma_bag_extreme_bounds(es.drop_last(), on_y, largest, i);
        assert(es.drop_last()[i] == es[i]);
    }
}

proof fn lemma_objects_upto_ok(n: NodeView, p: int, k: int)
    requires
        parts_ok(n),
        0 <= p <= n.children.len(),
        0 <= k < objects_upto(n, p).len(),
    ensures
        element_node_ok(objects_upto(n, p)[k]),
        element_from_node(objects_upto(n, p)[k]).coordinates.len() > 0,
    decreases p,
{
    if p > 0 {
        let before = objects_upto(n, p - 1);
        let part = n.children[p - 1];
        assert(part_ok(part));
        if k < before.len() {
            lemma_objects_upto_ok(n, p - 1, k);
        } else {
            assert(objects_upto(n, p)[k] == objects_of(part)[k - before.len()]);
        }
    }
}

/// Every point of every object read from a `<parts>` element lies inside the
/// bounding box of the bag.
pub proof fn lemma_points_within_bounds(n: NodeView, i: int, j: int)
    requires
        parts_ok(n),
        0 <= i < bag_from_parts(n).bag.len(),
        0 <= j < bag_from_parts(n).bag[i].coordinates.len(),
    ensures
        ({
            let b = bag_from_parts(n);
            let p = b.bag[i].coordinates[j];
            &&& b.min_x matches Some(lo) && lo <= p.x
            &&& b.max_x matches Some(hi) && p.x <= hi
            &&& b.min_y matches Some(lo) && lo <= p.y
            &&& b.max_y matches Some(hi) && p.y <= hi
        }),
{
    let b = bag_from_parts(n);
    let objs = objects_upto(n, n.children.len() as int);
    let e = b.bag[i];
    lemma_objects_upto_ok(n, n.children.len() as int, i);
    assert(e == element_from_node(objs[i]));
    let pts = e.coordinates;
    lemma_extreme_bounds(pts, false, false, j);
    lemma_extreme_bounds(pts, false, true, j);
    lemma_extreme_bounds(pts, true, false, j);
    lemma_extreme_bounds(pts, true, true, j);
    lemma_bag_extreme_bounds(b.bag, false, false, i);
    lemma_bag_extreme_bounds(b.bag, false, true, i);
    lemma_bag_extreme_bounds(b.bag, true, false, i);
    lemma_bag_extreme_bounds(b.bag, true, true, i);
}

/// Once the origin of the objects read from a `<parts>` element is moved to
/// the lower corner of their bounding box (`normalize_origin`), that corner
/// is `(0, 0)` and every point lies between it and the upper corner: no
/// coordinate is negative.
pub proof fn lemma_normalized_points_nonnegative(n: NodeView, i: int, j: int)
    requires
        parts_ok(n),
        0 <= i < bag_from_parts(n).bag.len(),
        0 <= j < bag_from_parts(n).bag[i].coordinates.len(),
        bag_from_parts(n).can_shift(
            bag_from_parts(n).min_x->0 as int,
            bag_from_parts(n).min_y->0 as int,
        ),
    ensures
        ({
            let b = bag_from_parts(n);
            let s = b.shifted(b.min_x->0 as int, b.min_y->0 as int);
            let p = s.bag[i].coordinates[j];
            &&& s.min_x == Some(0i64)
            &&& s.min_y == Some(0i64)
            &&& 0 <= p.x <= s.max_x->0
            &&& 0 <= p.y <= s.max_y->0
        }),
{
    let b = bag_from_parts(n);
    lemma_points_within_bounds(n, i, j);
    assert(b.bag[i].can_shift(b.min_x->0 as int, b.min_y->0 as int));
}

/// Moving the origin of an object to `(x, y)` and then to `(-x, -y)` gives
/// the object back.
pub proof fn lemma_element_shift_round_trip(e: ElementView, x: int, y: int)
    requires
        e.can_shift(x, y),
    ensures
        e.shifted(x, y).can_shift(-x, -y),
        e.shifted(x, y).shifted(-x, -y) == e,
{
    let s = e.shifted(x, y);
    assert(s.shifted(-x, -y).coordinates =~= e.coordinates);
}

/// Moving the origin of an object twice is moving it once by the sum.
pub proof fn lemma_element_shift_composes(e: ElementView, x1: int, y1: int, x2: int, y2: int)
    requires
        e.can_shift(x1, y1),
        e.shifted(x1, y1).can_shift(x2, y2),
    ensures
        e.can_shift(x1 + x2, y1 + y2),
        e.shifted(x1, y1).shifted(x2, y2) == e.shifted(x1 + x2, y1 + y2),
{
    let s = e.shifted(x1, y1);
    assert(s.coordinates.len() == e.coordinates.len());
    assert forall|i: int| 0 <= i < e.coordinates.len() implies fits_shift(
        #[trigger] e.coordinates[i].x,
        x1 + x2,
    ) && fits_shift(e.coordinates[i].y, y1 + y2) by {
        assert(s.coordinates[i] == shifted_point(e.coordinates[i], x1, y1));
        assert(0 <= i < s.coordinates.len());
        assert(fits_shift(s.coordinates[i].x, x2));
        assert(fits_shift(s.coordinates[i].y, y2));
    }
    assert(s.shifted(x2, y2).coordinates =~= e.shifted(x1 + x2, y1 + y2).coordinates);
}

/// Moving the origin of a bag of objects to `(x, y)` and then to `(-x, -y)`
/// gives the bag back.
pub proof fn lemma_bag_shift_round_trip(b: ElementsBagView, x: int, y: int)
    requires
        b.can_shift(x, y),
    ensures
        b.shifted(x, y).can_shift(-x, -y),
        b.shifted(x, y).shifted(-x, -y) == b,
{
    let s = b.shifted(x, y);
    assert forall|i: int| 0 <= i < s.bag.len() implies (#[trigger] s.bag[i]).can_shift(-x, -y) by {
        lemma_element_shift_round_trip(b.bag[i], x, y);
    }
    assert forall|i: int| 0 <= i < b.bag.len() implies #[trigger] s.shifted(-x, -y).bag[i]
        == b.bag[i] by {
        lemma_element_shift_round_trip(b.bag[i], x, y);
    }
    assert(s.shifted(-x, -y).bag =~= b.bag);
}

} // verus!
