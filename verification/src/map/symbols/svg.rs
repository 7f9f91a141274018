//! The map as an SVG picture: one filled path for each shape of each element
//! drawn with an area symbol, through the nodes of the element's points.
//! Looking up the fill colors and writing the picture out are left to the
//! caller.

use vstd::prelude::*;
use crate::map::elements::{copy_points, elements_view, ElementView, ElementsBag, PointNode};
use crate::map::symbols::{bag_view, kind_name, shapes_view, Symbol, SymbolView, SymbolsBag};
use crate::map::symbols::geometric_shape::{
    from_number_to_vec_of_nodes,
    nodes_from,
    nodes_readable,
    nodes_readable_from,
    symbol_of,
    GeometricShape,
    Node,
    Point,
    ShapeView,
};
use crate::text::string_is;

verus! {

/// One command of an SVG path.
#[derive(Debug, Clone, Copy, PartialEq, Eq, Structural)]
pub enum PathCommand {
    /// `M x y`: start at the point.
    MoveTo(Point),
    /// `L x y`: a straight line to the point.
    LineTo(Point),
    /// `C x1 y1 x2 y2 x y`: a cubic Bézier curve to the last point, through
    /// the two control points.
    CubicTo(Point, Point, Point),
}

/// The command from node `a` to the node `b` after it: a curve where a
/// control point leaves `a`, else a straight line.
pub open spec fn step_command(a: Node, b: Node) -> PathCommand {
    match a.right_branch {
        Some(r) => PathCommand::CubicTo(r, b.left_branch.unwrap(), b.point),
        None => PathCommand::LineTo(b.point),
    }
}

/// The path through the nodes: a move to the first one, then one command to
/// each of the others.
pub open spec fn path_commands(nodes: Seq<Node>) -> Seq<PathCommand> {
    if nodes.len() == 0 {
        Seq::empty()
    } else {
        seq![PathCommand::MoveTo(nodes[0].point)] + Seq::new(
            (nodes.len() - 1) as nat,
            |k: int| step_command(nodes[k], nodes[k + 1]),
        )
    }
}

/// Whether each node that a control point leaves is followed by a node that a
/// control point arrives at.
pub open spec fn branches_linked(nodes: Seq<Node>) -> bool {
    forall|k: int|
        0 <= k < nodes.len() - 1 && (#[trigger] nodes[k]).right_branch is Some ==> nodes[k
            + 1].left_branch is Some
}

proof fn lemma_nodes_from_first(c: Seq<PointNode>, i: int, left: Option<Point>)
    requires
        nodes_from(c, i, left).len() > 0,
    ensures
        nodes_from(c, i, left)[0].left_branch == left,
{
}

/// The nodes made from an object's points are always linked.
pub proof fn lemma_nodes_from_linked(c: Seq<PointNode>, i: int, left: Option<Point>)
    ensures
        branches_linked(nodes_from(c, i, left)),
    decreases c.len() - i,
{
    let ns = nodes_from(c, i, left);
    if i < 0 || i >= c.len() {
    } else if !c[i].bayesian {
        lemma_nodes_from_linked(c, i + 1, None);
        let rest = nodes_from(c, i + 1, None);
        assert forall|k: int|
            0 <= k < ns.len() - 1 && (#[trigger] ns[k]).right_branch is Some implies ns[k
            + 1].left_branch is Some by {
            assert(k >= 1);
            assert(ns[k] == rest[k - 1]);
            assert(ns[k + 1] == rest[k]);
        }
    } else if i + 2 < c.len() {
        let l = Some(Point { x: c[i + 2].x, y: c[i + 2].y });
        lemma_nodes_from_linked(c, i + 3, l);
        let rest = nodes_from(c, i + 3, l);
        assert forall|k: int|
            0 <= k < ns.len() - 1 && (#[trigger] ns[k]).right_branch is Some implies ns[k
            + 1].left_branch is Some by {
            if k == 0 {
                lemma_nodes_from_first(c, i + 3, l);
                assert(ns[1] == rest[0]);
            } else {
                assert(ns[k] == rest[k - 1]);
                assert(ns[k + 1] == rest[k]);
            }
        }
    }
}

/// The commands of the path through the nodes (see `path_commands`).
pub fn area_path_commands(nodes: &Vec<Node>) -> (r: Vec<PathCommand>)
    requires
        branches_linked(nodes@),
    ensures
        r@ == path_commands(nodes@),
{
    let mut r: Vec<PathCommand> = Vec::new();
    if nodes.len() == 0 {
        return r;
    }
    r.push(PathCommand::MoveTo(nodes[0].point));
    let ghost all = path_commands(nodes@);
    for i in 0..nodes.len() - 1
        invariant
            nodes@.len() >= 1,
            all == path_commands(nodes@),
            branches_linked(nodes@),
            r@ == all.take(i + 1),
    {
        let a = nodes[i];
        let b = nodes[i + 1];
        let ghost before = r@;
        match a.right_branch {
            Some(rb) => {
                assert(nodes@[i as int].right_branch is Some);
                let l = b.left_branch.unwrap();
                r.push(PathCommand::CubicTo(rb, l, b.point));
            },
            None => {
                r.push(PathCommand::LineTo(b.point));
            },
        }
        assert(all[i + 1] == step_command(nodes@[i as int], nodes@[i + 1]));
        assert(all.take(i + 2) =~= before.push(all[i + 1]));
    }
    assert(all.take(nodes.len() as int) =~= all);
    r
}

/// One filled path of the picture: the priority of its fill color, and its
/// commands.
pub struct SvgPath {
    pub color: u32,
    pub commands: Vec<PathCommand>,
}

pub struct SvgPathView {
    pub color: u32,
    pub commands: Seq<PathCommand>,
}

impl View for SvgPath {
    type V = SvgPathView;

    open spec fn view(&self) -> SvgPathView {
        SvgPathView { color: self.color, commands: self.commands@ }
    }
}

pub open spec fn paths_view(ps: Seq<SvgPath>) -> Seq<SvgPathView> {
    ps.map_values(|p: SvgPath| p@)
}

/// Whether the element's symbol is an area symbol.
pub open spec fn draws_area(sym: Option<SymbolView>) -> bool {
    sym matches Some(s) && kind_name(s.kind) == "area"@
}

/// The paths of one element: where its symbol is an area symbol, one path per
/// shape of the symbol, filled with the shape's color, through the nodes of
/// the element's points.
pub open spec fn element_paths(e: ElementView, sym: Option<SymbolView>) -> Seq<SvgPathView> {
    let nodes = nodes_from(e.coordinates, 0, None);
    if draws_area(sym) && nodes.len() >= 1 {
        sym->0.geometric_shapes.map_values(
            |g: ShapeView| SvgPathView { color: g.color(), commands: path_commands(nodes) },
        )
    } else {
        Seq::empty()
    }
}

/// Whether the element's paths can be drawn: an area symbol with shapes needs
/// points that make nodes.
pub open spec fn element_paths_ok(e: ElementView, sym: Option<SymbolView>) -> bool {
    draws_area(sym) && sym->0.geometric_shapes.len() > 0 ==> e.coordinates.len() > 0
        && nodes_readable_from(e.coordinates, 0)
}

/// The paths of the elements, in order.
pub open spec fn svg_paths(es: Seq<ElementView>, symbols: Map<i32, SymbolView>) -> Seq<SvgPathView>
    decreases es.len(),
{
    if es.len() == 0 {
        Seq::empty()
    } else {
        svg_paths(es.drop_last(), symbols) + element_paths(es.last(), symbol_of(symbols, es.last()))
    }
}

/// Whether the picture of the elements can be drawn: the bounding box is
/// known and every element drawn with an area symbol has points that make
/// nodes (what `from_elements_and_symbols` needs).
pub fn paths_drawable(elements_bag: &ElementsBag, symbols: &SymbolsBag) -> (r: bool)
    ensures
        r == (elements_bag.min_x is Some && elements_bag.min_y is Some && elements_bag.max_x is Some
            && elements_bag.max_y is Some && forall|k: int|
            0 <= k < elements_bag.bag@.len() ==> element_paths_ok(
                #[trigger] elements_bag.bag@[k]@,
                symbol_of(bag_view(symbols.bag@), elements_bag.bag@[k]@),
            )),
{
    if elements_bag.min_x.is_none() || elements_bag.min_y.is_none() || elements_bag.max_x.is_none()
        || elements_bag.max_y.is_none() {
        return false;
    }
    let ghost syms = bag_view(symbols.bag@);
    for i in 0..elements_bag.bag.len()
        invariant
            syms == bag_view(symbols.bag@),
            forall|k: int|
                0 <= k < i ==> element_paths_ok(
                    #[trigger] elements_bag.bag@[k]@,
                    symbol_of(syms, elements_bag.bag@[k]@),
                ),
    {
        let element = &elements_bag.bag[i];
        let ghost sym = symbol_of(syms, element@);
        assert(elements_bag.bag@[i as int]@ == element@);
        match symbols.symbol_by_id(element.symbol) {
            Some(a_symbol) => {
                let shapes = a_symbol.get_geometric_shapes();
                let area = string_is(&a_symbol.get_symbol_type(), "area");
                assert(area == draws_area(sym));
                assert(shapes@.len() == sym->0.geometric_shapes.len());
                if area && shapes.len() > 0 {
                    if element.coordinates.len() == 0 || !nodes_readable(&element.coordinates) {
                        assert(!element_paths_ok(element@, sym));
                        return false;
                    }
                }
            },
            None => {},
        }
        assert(element_paths_ok(element@, sym));
    }
    true
}

/// The picture of a map: its view box, as the corners of the elements' bounds
/// `(min_x, min_y, max_x, max_y)`, and its paths.
pub struct MapSVG {
    pub view_box: (i64, i64, i64, i64),
    pub paths: Vec<SvgPath>,
}

impl MapSVG {
    /// The picture of the elements, drawn with their symbols.
    pub fn from_elements_and_symbols(elements_bag: &ElementsBag, symbols: &SymbolsBag) -> (r: MapSVG)
        requires
            elements_bag.min_x is Some,
            elements_bag.min_y is Some,
            elements_bag.max_x is Some,
            elements_bag.max_y is Some,
            forall|k: int|
                0 <= k < elements_bag.bag@.len() ==> element_paths_ok(
                    #[trigger] elements_bag.bag@[k]@,
                    symbol_of(bag_view(symbols.bag@), elements_bag.bag@[k]@),
                ),
        ensures
            r.view_box == (
                elements_bag.min_x.unwrap(),
                elements_bag.min_y.unwrap(),
                elements_bag.max_x.unwrap(),
                elements_bag.max_y.unwrap(),
            ),
            paths_view(r.paths@) == svg_paths(
                elements_view(elements_bag.bag@),
                bag_view(symbols.bag@),
            ),
    {
        let view_box = (
            elements_bag.min_x.unwrap(),
            elements_bag.min_y.unwrap(),
            elements_bag.max_x.unwrap(),
            elements_bag.max_y.unwrap(),
        );
        let ghost es = elements_view(elements_bag.bag@);
        let ghost syms = bag_view(symbols.bag@);
        let mut paths: Vec<SvgPath> = Vec::new();
        for i in 0..elements_bag.bag.len()
            invariant
                es == elements_view(elements_bag.bag@),
                syms == bag_view(symbols.bag@),
                forall|k: int|
                    0 <= k < elements_bag.bag@.len() ==> element_paths_ok(
                        #[trigger] elements_bag.bag@[k]@,
                        symbol_of(bag_view(symbols.bag@), elements_bag.bag@[k]@),
                    ),
                paths_view(paths@) == svg_paths(es.take(i as int), syms),
        {
            let element = &elements_bag.bag[i];
            assert(es[i as int] == element@);
            let ghost before = paths_view(paths@);
            let ghost sym = symbol_of(syms, element@);
            assert(element_paths_ok(element@, sym));
            match symbols.symbol_by_id(element.symbol) {
                Some(a_symbol) => {
                    let shapes = a_symbol.get_geometric_shapes();
                    let area = string_is(&a_symbol.get_symbol_type(), "area");
                    if area && shapes.len() > 0 {
                        let nodes = from_number_to_vec_of_nodes(copy_points(&element.coordinates));
                        proof {
                            lemma_nodes_from_linked(element@.coordinates, 0, None);
                        }
                        if nodes.len() >= 1 {
                            let ghost wanted = element_paths(element@, sym);
                            for k in 0..shapes.len()
                                invariant
                                    sym == Some(a_symbol.symbol_view()),
                                    shapes_view(shapes@) == a_symbol.symbol_view().geometric_shapes,
                                    draws_area(sym),
                                    nodes@ == nodes_from(element@.coordinates, 0, None),
                                    nodes@.len() >= 1,
                                    branches_linked(nodes@),
                                    wanted == element_paths(element@, sym),
                                    wanted.len() == shapes@.len(),
                                    paths_view(paths@) == before + wanted.take(k as int),
                            {
                                assert(shapes_view(shapes@)[k as int] == shapes@[k as int]@);
                                let color = shapes[k].get_color();
                                let commands = area_path_commands(&nodes);
                                let ghost pv = paths_view(paths@);
                                paths.push(SvgPath { color, commands });
                                assert(paths_view(paths@) =~= pv.push(wanted[k as int]));
                                assert(wanted.take(k + 1) =~= wanted.take(k as int).push(
                                    wanted[k as int],
                                ));
                            }
                            assert(wanted.take(shapes.len() as int) =~= wanted);
                        } else {
                            assert(element_paths(element@, sym) =~= Seq::<SvgPathView>::empty());
                        }
                    } else {
                        assert(element_paths(element@, sym) =~= Seq::<SvgPathView>::empty());
                    }
                },
                None => {
                    assert(element_paths(element@, sym) =~= Seq::<SvgPathView>::empty());
                },
            }
            assert(es.take(i + 1).drop_last() =~= es.take(i as int));
            assert(paths_view(paths@) =~= svg_paths(es.take(i + 1), syms));
        }
        assert(es.take(elements_bag.bag.len() as int) == es);
        MapSVG { view_box, paths }
    }
}

} // verus!
