//! The simple geometric shapes that symbols are drawn with, and the turning
//! of an object's points into the nodes of a path.

use vstd::prelude::*;
use crate::map::elements::{elements_view, ElementView, ElementsBag, PointNode};
use crate::map::symbols::{bag_view, kind_name, shapes_view, Symbol, SymbolView, SymbolsBag};
use crate::text::string_is;

verus! {

/// A position on the map.
#[derive(Debug, Clone, Copy, PartialEq, Eq, Structural)]
pub struct Point {
    pub x: i64,
    pub y: i64,
}

/// One node of a path: where it passes, and the control points of the Bézier
/// curves that arrive at it (`left_branch`) and leave it (`right_branch`).
#[derive(Debug, Clone, Copy, PartialEq, Eq, Structural)]
pub struct Node {
    pub point: Point,
    pub left_branch: Option<Point>,
    pub right_branch: Option<Point>,
}

/// A ring around `(x, y)`.
#[derive(Debug, Clone, Copy, PartialEq, Eq, Structural)]
pub struct Ring {
    pub x: i64,
    pub y: i64,
    pub inner_radius: u32,
    pub outer_width: u32,
    pub color: u32,
}

/// A disc around `(x, y)`.
#[derive(Debug, Clone, Copy, PartialEq, Eq, Structural)]
pub struct Circle {
    pub x: i64,
    pub y: i64,
    pub radius: u32,
    pub color: u32,
}

/// A line along a path.
#[derive(Debug)]
pub struct Line {
    pub color: u32,
    pub line_width: u32,
    pub nodes: Vec<Node>,
}

/// A filled area bounded by a path.
#[derive(Debug)]
pub struct Area {
    pub color: u32,
    pub nodes: Vec<Node>,
}

pub struct LineView {
    pub color: u32,
    pub line_width: u32,
    pub nodes: Seq<Node>,
}

pub struct AreaView {
    pub color: u32,
    pub nodes: Seq<Node>,
}

impl View for Line {
    type V = LineView;

    open spec fn view(&self) -> LineView {
        LineView { color: self.color, line_width: self.line_width, nodes: self.nodes@ }
    }
}

impl View for Area {
    type V = AreaView;

    open spec fn view(&self) -> AreaView {
        AreaView { color: self.color, nodes: self.nodes@ }
    }
}

impl View for Ring {
    type V = Ring;

    open spec fn view(&self) -> Ring {
        *self
    }
}

impl View for Circle {
    type V = Circle;

    open spec fn view(&self) -> Circle {
        *self
    }
}

/// Whether `v + d` fits in an `i64`.
pub open spec fn fits_move(v: i64, d: int) -> bool {
    i64::MIN <= v + d <= i64::MAX
}

pub open spec fn point_can_move(p: Point, x: int, y: int) -> bool {
    fits_move(p.x, x) && fits_move(p.y, y)
}

pub open spec fn moved_point(p: Point, x: int, y: int) -> Point {
    Point { x: (p.x + x) as i64, y: (p.y + y) as i64 }
}

pub open spec fn node_can_move(n: Node, x: int, y: int) -> bool {
    &&& point_can_move(n.point, x, y)
    &&& n.left_branch matches Some(l) ==> point_can_move(l, x, y)
    &&& n.right_branch matches Some(r) ==> point_can_move(r, x, y)
}

pub open spec fn moved_node(n: Node, x: int, y: int) -> Node {
    Node {
        point: moved_point(n.point, x, y),
        left_branch: match n.left_branch {
            Some(l) => Some(moved_point(l, x, y)),
            None => None,
        },
        right_branch: match n.right_branch {
            Some(r) => Some(moved_point(r, x, y)),
            None => None,
        },
    }
}

pub open spec fn nodes_can_move(nodes: Seq<Node>, x: int, y: int) -> bool {
    forall|i: int| 0 <= i < nodes.len() ==> node_can_move(#[trigger] nodes[i], x, y)
}

pub open spec fn moved_nodes(nodes: Seq<Node>, x: int, y: int) -> Seq<Node> {
    nodes.map_values(|n: Node| moved_node(n, x, y))
}

/// What every geometric shape offers: its color, and a copy of it moved by
/// an offset.
pub trait GeometricShape: View + Sized {
    /// The color of the shape.
    spec fn color_of(&self) -> u32;

    /// Whether moving the shape by `(x, y)` keeps its coordinates in an `i64`.
    spec fn can_move_by(&self, x: int, y: int) -> bool;

    /// The shape moved by `(x, y)`.
    spec fn moved_by(&self, x: int, y: int) -> Self::V;

    fn get_color(&self) -> (c: u32)
        ensures
            c == self.color_of(),
    ;

    fn move_by(&self, x: i64, y: i64) -> (r: Self)
        requires
            self.can_move_by(x as int, y as int),
        ensures
            r@ == self.moved_by(x as int, y as int),
    ;
}

impl GeometricShape for Ring {
    open spec fn color_of(&self) -> u32 {
        self.color
    }

    open spec fn can_move_by(&self, x: int, y: int) -> bool {
        fits_move(self.x, x) && fits_move(self.y, y)
    }

    open spec fn moved_by(&self, x: int, y: int) -> Ring {
        Ring { x: (self.x + x) as i64, y: (self.y + y) as i64, ..*self }
    }

    fn get_color(&self) -> (c: u32) {
        self.color
    }

    fn move_by(&self, x: i64, y: i64) -> (r: Ring) {
        Ring { x: self.x + x, y: self.y + y, ..*self }
    }
}

impl GeometricShape for Circle {
    open spec fn color_of(&self) -> u32 {
        self.color
    }

    open spec fn can_move_by(&self, x: int, y: int) -> bool {
        fits_move(self.x, x) && fits_move(self.y, y)
    }

    open spec fn moved_by(&self, x: int, y: int) -> Circle {
        Circle { x: (self.x + x) as i64, y: (self.y + y) as i64, ..*self }
    }

    fn get_color(&self) -> (c: u32) {
        self.color
    }

    fn move_by(&self, x: i64, y: i64) -> (r: Circle) {
        Circle { x: self.x + x, y: self.y + y, ..*self }
    }
}

/// The nodes moved by `(x, y)`.
fn move_nodes(nodes: &Vec<Node>, x: i64, y: i64) -> (r: Vec<Node>)
    requires
        nodes_can_move(nodes@, x as int, y as int),
    ensures
        r@ == moved_nodes(nodes@, x as int, y as int),
{
    let mut r: Vec<Node> = Vec::new();
    for i in 0..nodes.len()
        invariant
            nodes_can_move(nodes@, x as int, y as int),
            r@ == moved_nodes(nodes@.take(i as int), x as int, y as int),
    {
        let n = nodes[i];
        assert(node_can_move(nodes@[i as int], x as int, y as int));
        let left_branch = match n.left_branch {
            Some(l) => Some(Point { x: l.x + x, y: l.y + y }),
            None => None,
        };
        let right_branch = match n.right_branch {
            Some(rb) => Some(Point { x: rb.x + x, y: rb.y + y }),
            None => None,
        };
        r.push(Node { point: Point { x: n.point.x + x, y: n.point.y + y }, left_branch, right_branch });
        assert(nodes@.take(i + 1) =~= nodes@.take(i as int).push(nodes@[i as int]));
        assert(r@ =~= moved_nodes(nodes@.take(i + 1), x as int, y as int));
    }
    assert(nodes@.take(nodes.len() as int) == nodes@);
    r
}

/// A copy of the nodes.
pub fn copy_nodes(nodes: &Vec<Node>) -> (r: Vec<Node>)
    ensures
        r@ == nodes@,
{
    let mut r: Vec<Node> = Vec::new();
    for i in 0..nodes.len()
        invariant
            r@ == nodes@.take(i as int),
    {
        r.push(nodes[i]);
        assert(nodes@.take(i + 1) =~= nodes@.take(i as int).push(nodes@[i as int]));
    }
    assert(nodes@.take(nodes.len() as int) == nodes@);
    r
}

impl GeometricShape for Line {
    open spec fn color_of(&self) -> u32 {
        self.color
    }

    open spec fn can_move_by(&self, x: int, y: int) -> bool {
        nodes_can_move(self.nodes@, x, y)
    }

    open spec fn moved_by(&self, x: int, y: int) -> LineView {
        LineView { nodes: moved_nodes(self.nodes@, x, y), ..self@ }
    }

    fn get_color(&self) -> (c: u32) {
        self.color
    }

    fn move_by(&self, x: i64, y: i64) -> (r: Line) {
        Line { color: self.color, line_width: self.line_width, nodes: move_nodes(&self.nodes, x, y) }
    }
}

impl GeometricShape for Area {
    open spec fn color_of(&self) -> u32 {
        self.color
    }

    open spec fn can_move_by(&self, x: int, y: int) -> bool {
        true
    }

    /// An area is not moved: its copy keeps the same nodes.
    open spec fn moved_by(&self, x: int, y: int) -> AreaView {
        self@
    }

    fn get_color(&self) -> (c: u32) {
        self.color
    }

    fn move_by(&self, x: i64, y: i64) -> (r: Area) {
        Area { color: self.color, nodes: copy_nodes(&self.nodes) }
    }
}

/// Any one of the geometric shapes.
#[derive(Debug)]
pub enum Shape {
    Ring(Ring),
    Circle(Circle),
    Line(Line),
    Area(Area),
}

pub enum ShapeView {
    Ring(Ring),
    Circle(Circle),
    Line(LineView),
    Area(AreaView),
}

impl View for Shape {
    type V = ShapeView;

    open spec fn view(&self) -> ShapeView {
        match self {
            Shape::Ring(r) => ShapeView::Ring(*r),
            Shape::Circle(c) => ShapeView::Circle(*c),
            Shape::Line(l) => ShapeView::Line(l@),
            Shape::Area(a) => ShapeView::Area(a@),
        }
    }
}

impl ShapeView {
    pub open spec fn color(self) -> u32 {
        match self {
            ShapeView::Ring(r) => r.color,
            ShapeView::Circle(c) => c.color,
            ShapeView::Line(l) => l.color,
            ShapeView::Area(a) => a.color,
        }
    }

    pub open spec fn can_move(self, x: int, y: int) -> bool {
        match self {
            ShapeView::Ring(r) => fits_move(r.x, x) && fits_move(r.y, y),
            ShapeView::Circle(c) => fits_move(c.x, x) && fits_move(c.y, y),
            ShapeView::Line(l) => nodes_can_move(l.nodes, x, y),
            ShapeView::Area(_) => true,
        }
    }

    /// The shape moved by `(x, y)`; areas stay where they are.
    pub open spec fn moved(self, x: int, y: int) -> ShapeView {
        match self {
            ShapeView::Ring(r) => ShapeView::Ring(
                Ring { x: (r.x + x) as i64, y: (r.y + y) as i64, ..r },
            ),
            ShapeView::Circle(c) => ShapeView::Circle(
                Circle { x: (c.x + x) as i64, y: (c.y + y) as i64, ..c },
            ),
            ShapeView::Line(l) => ShapeView::Line(LineView { nodes: moved_nodes(l.nodes, x, y), ..l }),
            ShapeView::Area(a) => ShapeView::Area(a),
        }
    }
}

impl GeometricShape for Shape {
    open spec fn color_of(&self) -> u32 {
        self@.color()
    }

    open spec fn can_move_by(&self, x: int, y: int) -> bool {
        self@.can_move(x, y)
    }

    open spec fn moved_by(&self, x: int, y: int) -> ShapeView {
        self@.moved(x, y)
    }

    fn get_color(&self) -> (c: u32) {
        match self {
            Shape::Ring(r) => r.get_color(),
            Shape::Circle(c) => c.get_color(),
            Shape::Line(l) => l.get_color(),
            Shape::Area(a) => a.get_color(),
        }
    }

    fn move_by(&self, x: i64, y: i64) -> (r: Shape) {
        match self {
            Shape::Ring(r) => Shape::Ring(r.move_by(x, y)),
            Shape::Circle(c) => Shape::Circle(c.move_by(x, y)),
            Shape::Line(l) => Shape::Line(l.move_by(x, y)),
            Shape::Area(a) => Shape::Area(a.move_by(x, y)),
        }
    }
}

/// Moving a shape by an offset and then by the opposite offset gives the
/// shape back, and moving keeps its color.
pub proof fn lemma_move_by_round_trip(s: ShapeView, x: int, y: int)
    requires
        s.can_move(x, y),
    ensures
        s.moved(x, y).color() == s.color(),
        s.moved(x, y).can_move(-x, -y),
        s.moved(x, y).moved(-x, -y) == s,
{
    match s {
        ShapeView::Line(l) => {
            let m = moved_nodes(l.nodes, x, y);
            assert forall|i: int| 0 <= i < m.len() implies node_can_move(#[trigger] m[i], -x, -y) by {
                assert(node_can_move(l.nodes[i], x, y));
            }
            assert(moved_nodes(m, -x, -y) =~= l.nodes);
        },
        _ => {},
    }
}

/// Moving a shape by one offset and then by another is moving it by their
/// sum, as long as every step stays in range.
pub proof fn lemma_move_by_composes(s: ShapeView, x1: int, y1: int, x2: int, y2: int)
    requires
        s.can_move(x1, y1),
        s.moved(x1, y1).can_move(x2, y2),
    ensures
        s.can_move(x1 + x2, y1 + y2),
        s.moved(x1, y1).moved(x2, y2) == s.moved(x1 + x2, y1 + y2),
{
    match s {
        ShapeView::Line(l) => {
            let m = moved_nodes(l.nodes, x1, y1);
            assert forall|i: int| 0 <= i < l.nodes.len() implies node_can_move(
                #[trigger] l.nodes[i],
                x1 + x2,
                y1 + y2,
            ) by {
                assert(node_can_move(l.nodes[i], x1, y1));
                assert(node_can_move(m[i], x2, y2));
            }
            assert(moved_nodes(m, x2, y2) =~= moved_nodes(l.nodes, x1 + x2, y1 + y2));
        },
        _ => {},
    }
}

// ---------------------------------------------------------------------------
// From the points of an object to the nodes of a path
// ---------------------------------------------------------------------------

pub open spec fn point_of(p: PointNode) -> Point {
    Point { x: p.x, y: p.y }
}

/// Whether the points from the `i`-th on can be turned into nodes: a point
/// flagged as a Bézier start must be followed by its two control points.
pub open spec fn nodes_readable_from(c: Seq<PointNode>, i: int) -> bool
    decreases c.len() - i,
{
    if i < 0 || i >= c.len() {
        true
    } else if !c[i].bayesian {
        nodes_readable_from(c, i + 1)
    } else {
        i + 2 < c.len() && nodes_readable_from(c, i + 3)
    }
}

/// The nodes of the path through the points from the `i`-th on, given the
/// control point that arrives at the next node (`left`). A point flagged as a
/// Bézier start takes the next point as the control point that leaves it and
/// the one after as the control point that arrives at the following node.
pub open spec fn nodes_from(c: Seq<PointNode>, i: int, left: Option<Point>) -> Seq<Node>
    decreases c.len() - i,
{
    if i < 0 || i >= c.len() {
        Seq::empty()
    } else if !c[i].bayesian {
        seq![Node { point: point_of(c[i]), left_branch: left, right_branch: None }] + nodes_from(
            c,
            i + 1,
            None,
        )
    } else if i + 2 < c.len() {
        seq![
            Node {
                point: point_of(c[i]),
                left_branch: left,
                right_branch: Some(point_of(c[i + 1])),
            },
        ] + nodes_from(c, i + 3, Some(point_of(c[i + 2])))
    } else {
        Seq::empty()
    }
}

/// Turns the points of an object into the nodes of its path.
pub fn from_number_to_vec_of_nodes(coordinates: Vec<PointNode>) -> (r: Vec<Node>)
    requires
        coordinates@.len() > 0,
        nodes_readable_from(coordinates@, 0),
    ensures
        r@ == nodes_from(coordinates@, 0, None),
{
    let ghost c = coordinates@;
    let mut nodes: Vec<Node> = Vec::new();
    let mut i: usize = 0;
    let mut a_left_branch: Option<Point> = None;
    loop
        invariant_except_break
            c == coordinates@,
            0 <= i < c.len(),
            nodes_readable_from(c, i as int),
            nodes@ + nodes_from(c, i as int, a_left_branch) == nodes_from(c, 0, None),
        ensures
            nodes@ == nodes_from(c, 0, None),
        decreases c.len() - i,
    {
        let p = coordinates[i];
        let ghost before = nodes@;
        let ghost rest = nodes_from(c, i as int, a_left_branch);
        if !p.bayesian {
            nodes.push(
                Node { point: Point { x: p.x, y: p.y }, left_branch: a_left_branch, right_branch: None },
            );
            a_left_branch = None;
            i = i + 1;
        } else {
            assert(i + 2 < c.len());
            assert(c.len() == coordinates.len());
            let q = coordinates[i + 1];
            let s = coordinates[i + 2];
            nodes.push(
                Node {
                    point: Point { x: p.x, y: p.y },
                    left_branch: a_left_branch,
                    right_branch: Some(Point { x: q.x, y: q.y }),
                },
            );
            a_left_branch = Some(Point { x: s.x, y: s.y });
            i = i + 3;
        }
        assert(nodes@ + nodes_from(c, i as int, a_left_branch) =~= before + rest);
        if i >= coordinates.len() {
            assert(nodes_from(c, i as int, a_left_branch) =~= Seq::<Node>::empty());
            assert(nodes@ =~= nodes_from(c, 0, None));
            break;
        }
    }
    nodes
}


// ---------------------------------------------------------------------------
// Checks of what the readings and placements above need
// ---------------------------------------------------------------------------

/// Whether `v + d` fits in an `i64`.
fn move_fits(v: i64, d: i64) -> (r: bool)
    ensures
        r == fits_move(v, d as int),
{
    let sum: i128 = v as i128 + d as i128;
    -0x8000_0000_0000_0000i128 <= sum && sum <= 0x7fff_ffff_ffff_ffffi128
}

fn point_move_fits(p: Point, x: i64, y: i64) -> (r: bool)
    ensures
        r == point_can_move(p, x as int, y as int),
{
    move_fits(p.x, x) && move_fits(p.y, y)
}

/// Whether the shape can be moved by `(x, y)` (see `ShapeView::can_move`).
pub fn shape_can_move(s: &Shape, x: i64, y: i64) -> (r: bool)
    ensures
        r == s@.can_move(x as int, y as int),
{
    match s {
        Shape::Ring(r) => move_fits(r.x, x) && move_fits(r.y, y),
        Shape::Circle(c) => move_fits(c.x, x) && move_fits(c.y, y),
        Shape::Line(l) => {
            assert(s@.can_move(x as int, y as int) == nodes_can_move(l.nodes@, x as int, y as int));
            for i in 0..l.nodes.len()
                invariant
                    s@.can_move(x as int, y as int) == nodes_can_move(l.nodes@, x as int, y as int),
                    forall|j: int| 0 <= j < i ==> node_can_move(#[trigger] l.nodes@[j], x as int, y as int),
            {
                let n = l.nodes[i];
                let ok = point_move_fits(n.point, x, y) && match n.left_branch {
                    Some(lb) => point_move_fits(lb, x, y),
                    None => true,
                } && match n.right_branch {
                    Some(rb) => point_move_fits(rb, x, y),
                    None => true,
                };
                if !ok {
                    assert(!node_can_move(l.nodes@[i as int], x as int, y as int));
                    assert(!nodes_can_move(l.nodes@, x as int, y as int));
                    return false;
                }
            }
            true
        },
        Shape::Area(_) => true,
    }
}

/// Whether the points can be turned into nodes (see `nodes_readable_from`).
pub fn nodes_readable(c: &Vec<PointNode>) -> (r: bool)
    ensures
        r == nodes_readable_from(c@, 0),
{
    let mut i: usize = 0;
    while i < c.len()
        invariant
            0 <= i <= c.len() + 2,
            nodes_readable_from(c@, 0) == nodes_readable_from(c@, i as int),
        decreases c.len() - i,
    {
        if !c[i].bayesian {
            i = i + 1;
        } else if c.len() - i > 2 {
            i = i + 3;
        } else {
            return false;
        }
    }
    true
}

/// Whether every element's shapes can be placed (what `from_elements_bag`
/// needs; see `element_shapes_ok`).
pub fn shapes_placeable(elements_bag: &ElementsBag, symbols: &SymbolsBag) -> (r: bool)
    ensures
        r == forall|k: int|
            0 <= k < elements_bag.bag@.len() ==> element_shapes_ok(
                #[trigger] elements_bag.bag@[k]@,
                symbol_of(bag_view(symbols.bag@), elements_bag.bag@[k]@),
            ),
{
    let ghost syms = bag_view(symbols.bag@);
    for i in 0..elements_bag.bag.len()
        invariant
            syms == bag_view(symbols.bag@),
            forall|k: int|
                0 <= k < i ==> element_shapes_ok(
                    #[trigger] elements_bag.bag@[k]@,
                    symbol_of(syms, elements_bag.bag@[k]@),
                ),
    {
        let element = &elements_bag.bag[i];
        let ghost sym = symbol_of(syms, element@);
        assert(elements_bag.bag@[i as int]@ == element@);
        match symbols.symbol_by_id(element.symbol) {
            Some(a_symbol) => {
                let shapes = a_symbol.get_geometric_shapes();
                let punctual = string_is(&a_symbol.get_symbol_type(), "punctual");
                assert(punctual == places_shapes(sym));
                if punctual && shapes.len() > 0 {
                    if element.coordinates.len() == 0 {
                        assert(!element_shapes_ok(element@, sym));
                        return false;
                    }
                    let x = element.coordinates[0].x;
                    let y = element.coordinates[0].y;
                    for k in 0..shapes.len()
                        invariant
                            sym == Some(a_symbol.symbol_view()),
                            sym == symbol_of(bag_view(symbols.bag@), element@),
                            0 <= i < elements_bag.bag@.len(),
                            elements_bag.bag@[i as int]@ == element@,
                            places_shapes(sym),
                            shapes@.len() > 0,
                            element@.coordinates.len() > 0,
                            shapes_view(shapes@) == a_symbol.symbol_view().geometric_shapes,
                            x == element@.coordinates[0].x,
                            y == element@.coordinates[0].y,
                            forall|j: int|
                                0 <= j < k ==> (#[trigger] a_symbol.symbol_view().geometric_shapes[j]).can_move(
                                    x as int,
                                    y as int,
                                ),
                    {
                        assert(shapes_view(shapes@)[k as int] == shapes@[k as int]@);
                        if !shape_can_move(&shapes[k], x, y) {
                            assert(!element_shapes_ok(element@, sym));
                            return false;
                        }
                    }
                }
            },
            None => {},
        }
        assert(element_shapes_ok(element@, sym));
    }
    true
}

// ---------------------------------------------------------------------------
// The map as a list of shapes
// ---------------------------------------------------------------------------

/// The map as a list of simple shapes, higher colors first.
pub struct GeometricShapesBag {
    pub bag: Vec<Shape>,
}

/// The symbol of an element, if the bag has it.
pub open spec fn symbol_of(symbols: Map<i32, SymbolView>, e: ElementView) -> Option<SymbolView> {
    if symbols.contains_key(e.symbol) {
        Some(symbols[e.symbol])
    } else {
        None
    }
}

/// Whether the shapes of the element's symbol are placed (only punctual
/// symbols' are).
pub open spec fn places_shapes(sym: Option<SymbolView>) -> bool {
    sym matches Some(s) && kind_name(s.kind) == "punctual"@
}

/// The shapes that an element puts on the map: those of its punctual symbol,
/// moved to its first point.
pub open spec fn element_shapes(e: ElementView, sym: Option<SymbolView>) -> Seq<ShapeView> {
    if places_shapes(sym) {
        sym->0.geometric_shapes.map_values(
            |g: ShapeView| g.moved(e.coordinates[0].x as int, e.coordinates[0].y as int),
        )
    } else {
        Seq::empty()
    }
}

/// Whether the element's shapes can be placed: a punctual symbol with shapes
/// needs a first point, and every shape must stay in range once moved there.
pub open spec fn element_shapes_ok(e: ElementView, sym: Option<SymbolView>) -> bool {
    places_shapes(sym) && sym->0.geometric_shapes.len() > 0 ==> {
        &&& e.coordinates.len() > 0
        &&& forall|k: int|
            0 <= k < sym->0.geometric_shapes.len() ==> (#[trigger] sym->0.geometric_shapes[k]).can_move(
                e.coordinates[0].x as int,
                e.coordinates[0].y as int,
            )
    }
}

/// The shapes of the elements, in order.
pub open spec fn placed_shapes(es: Seq<ElementView>, symbols: Map<i32, SymbolView>) -> Seq<ShapeView>
    decreases es.len(),
{
    if es.len() == 0 {
        Seq::empty()
    } else {
        placed_shapes(es.drop_last(), symbols) + element_shapes(es.last(), symbol_of(symbols, es.last()))
    }
}

/// The index of the first shape from the `i`-th on whose color is below `c`,
/// or the length.
pub open spec fn first_below_color(sorted: Seq<ShapeView>, c: u32, i: int) -> int
    decreases sorted.len() - i,
{
    if i < 0 || i >= sorted.len() {
        sorted.len() as int
    } else if sorted[i].color() < c {
        i
    } else {
        first_below_color(sorted, c, i + 1)
    }
}

/// `s` put after every shape of `sorted` whose color is not below its own.
pub open spec fn insert_by_color(sorted: Seq<ShapeView>, s: ShapeView) -> Seq<ShapeView> {
    sorted.insert(first_below_color(sorted, s.color(), 0), s)
}

/// The shapes ordered by color, higher first, shapes of equal color in their
/// order in which they came (a stable sort).
pub open spec fn sorted_by_color(s: Seq<ShapeView>) -> Seq<ShapeView>
    decreases s.len(),
{
    if s.len() == 0 {
        s
    } else {
        insert_by_color(sorted_by_color(s.drop_last()), s.last())
    }
}

/// Whether no shape has a higher color than one before it.
pub open spec fn colors_descending(s: Seq<ShapeView>) -> bool {
    forall|i: int, j: int| 0 <= i < j < s.len() ==> #[trigger] s[i].color() >= #[trigger] s[j].color()
}

proof fn lemma_first_below_color(sorted: Seq<ShapeView>, c: u32, i: int)
    requires
        0 <= i <= sorted.len(),
    ensures
        i <= first_below_color(sorted, c, i) <= sorted.len(),
        forall|k: int| i <= k < first_below_color(sorted, c, i) ==> #[trigger] sorted[k].color() >= c,
        first_below_color(sorted, c, i) < sorted.len() ==> sorted[first_below_color(sorted, c, i)].color() < c,
    decreases sorted.len() - i,
{
    if i < sorted.len() && sorted[i].color() >= c {
        lemma_first_below_color(sorted, c, i + 1);
    }
}

/// Sorting by color gives the same shapes, with colors descending.
pub proof fn lemma_sorted_by_color(s: Seq<ShapeView>)
    ensures
        colors_descending(sorted_by_color(s)),
        sorted_by_color(s).to_multiset() == s.to_multiset(),
        sorted_by_color(s).len() == s.len(),
    decreases s.len(),
{
    broadcast use vstd::seq_lib::group_to_multiset_ensures;

    if s.len() > 0 {
        let rest = sorted_by_color(s.drop_last());
        lemma_sorted_by_color(s.drop_last());
        let x = s.last();
        let p = first_below_color(rest, x.color(), 0);
        lemma_first_below_color(rest, x.color(), 0);
        let r = rest.insert(p, x);
        assert forall|i: int, j: int| 0 <= i < j < r.len() implies #[trigger] r[i].color()
            >= #[trigger] r[j].color() by {
            if j < p {
                assert(r[i] == rest[i] && r[j] == rest[j]);
            } else if j == p {
                assert(r[i] == rest[i]);
            } else if i < p {
                assert(r[i] == rest[i] && r[j] == rest[j - 1]);
            } else if i == p {
                assert(r[j] == rest[j - 1]);
                assert(rest[p].color() < x.color());
                if j - 1 > p {
                    assert(rest[p].color() >= rest[j - 1].color());
                }
            } else {
                assert(r[i] == rest[i - 1] && r[j] == rest[j - 1]);
            }
        }
        assert(r.remove(p) =~= rest);
        vstd::seq_lib::to_multiset_remove(r, p);
        assert(r[p] == x);
        assert(r.contains(x));
        assert(r.to_multiset().count(x) > 0);
        assert(r.to_multiset().remove(x).insert(x) =~= r.to_multiset());
        assert(s =~= s.drop_last().push(x));
        vstd::seq_lib::to_multiset_build(s.drop_last(), x);
    }
}

/// Puts `s` into `sorted` after every shape whose color is not below its own.
fn insert_shape_by_color(sorted: &mut Vec<Shape>, s: Shape)
    ensures
        shapes_view(final(sorted)@) == insert_by_color(shapes_view(old(sorted)@), s@),
{
    let ghost v = shapes_view(sorted@);
    let c = s.get_color();
    let mut p: usize = 0;
    while p < sorted.len() && sorted[p].get_color() >= c
        invariant
            v == shapes_view(sorted@),
            c == s@.color(),
            0 <= p <= sorted.len(),
            first_below_color(v, c, 0) == first_below_color(v, c, p as int),
        decreases sorted.len() - p,
    {
        assert(v[p as int] == sorted@[p as int]@);
        p = p + 1;
    }
    if p < sorted.len() {
        assert(v[p as int] == sorted@[p as int]@);
    }
    assert(first_below_color(v, c, p as int) == p);
    sorted.insert(p, s);
    assert(shapes_view(sorted@) =~= v.insert(p as int, s@));
}

impl GeometricShapesBag {
    /// Places the shapes of every element drawn with a punctual symbol at the
    /// element's first point, and orders all of them by color, higher first.
    pub fn from_elements_bag(elements_bag: &ElementsBag, symbols: &SymbolsBag) -> (r: GeometricShapesBag)
        requires
            forall|k: int|
                0 <= k < elements_bag.bag@.len() ==> element_shapes_ok(
                    #[trigger] elements_bag.bag@[k]@,
                    symbol_of(bag_view(symbols.bag@), elements_bag.bag@[k]@),
                ),
        ensures
            shapes_view(r.bag@) == sorted_by_color(
                placed_shapes(elements_view(elements_bag.bag@), bag_view(symbols.bag@)),
            ),
    {
        let ghost es = elements_view(elements_bag.bag@);
        let ghost syms = bag_view(symbols.bag@);
        let mut placed: Vec<Shape> = Vec::new();
        for i in 0..elements_bag.bag.len()
            invariant
                es == elements_view(elements_bag.bag@),
                syms == bag_view(symbols.bag@),
                forall|k: int|
                    0 <= k < elements_bag.bag@.len() ==> element_shapes_ok(
                        #[trigger] elements_bag.bag@[k]@,
                        symbol_of(bag_view(symbols.bag@), elements_bag.bag@[k]@),
                    ),
                shapes_view(placed@) == placed_shapes(es.take(i as int), syms),
        {
            let element = &elements_bag.bag[i];
            assert(es[i as int] == element@);
            let ghost before = shapes_view(placed@);
            let ghost sym = symbol_of(syms, element@);
            assert(element_shapes_ok(element@, sym));
            match symbols.symbol_by_id(element.symbol) {
                Some(a_symbol) => {
                    let shapes = a_symbol.get_geometric_shapes();
                    let punctual = string_is(&a_symbol.get_symbol_type(), "punctual");
                    for k in 0..shapes.len()
                        invariant
                            sym == Some(a_symbol.symbol_view()),
                            shapes_view(shapes@) == a_symbol.symbol_view().geometric_shapes,
                            punctual == places_shapes(sym),
                            element_shapes_ok(element@, sym),
                            punctual ==> shapes_view(placed@) == before + element_shapes(element@, sym).take(k as int),
                            !punctual ==> shapes_view(placed@) == before,
                    {
                        if punctual {
                            assert(shapes_view(shapes@)[k as int] == shapes@[k as int]@);
                            let x = element.coordinates[0].x;
                            let y = element.coordinates[0].y;
                            let new_shape = shapes[k].move_by(x, y);
                            let ghost pv = shapes_view(placed@);
                            placed.push(new_shape);
                            assert(shapes_view(placed@) =~= pv.push(new_shape@));
                            assert(element_shapes(element@, sym).take(k + 1) =~= element_shapes(element@, sym).take(k as int).push(new_shape@));
                        }
                    }
                    if punctual {
                        assert(element_shapes(element@, sym).take(shapes.len() as int) =~= element_shapes(element@, sym));
                    } else {
                        assert(element_shapes(element@, sym) =~= Seq::<ShapeView>::empty());
                    }
                },
                None => {
                    assert(element_shapes(element@, sym) =~= Seq::<ShapeView>::empty());
                },
            }
            assert(es.take(i + 1).drop_last() =~= es.take(i as int));
            assert(shapes_view(placed@) =~= placed_shapes(es.take(i + 1), syms));
        }
        assert(es.take(elements_bag.bag.len() as int) == es);
        let ghost all = shapes_view(placed@);
        let mut bag: Vec<Shape> = Vec::new();
        assert(shapes_view(bag@) =~= sorted_by_color(all.take(0)));
        for s in it: placed
            invariant
                all == shapes_view(it.seq()),
                shapes_view(bag@) == sorted_by_color(all.take(it.index() as int)),
        {
            let ghost k = it.index() as int;
            assert(all[k] == s@);
            insert_shape_by_color(&mut bag, s);
            assert(all.take(k + 1).drop_last() =~= all.take(k));
        }
        assert(all.take(all.len() as int) == all);
        GeometricShapesBag { bag }
    }
}

} // verus!
