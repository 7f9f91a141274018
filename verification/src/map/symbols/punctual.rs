//! Punctual symbols (`type="1"`): a ring and a disc around the point, and the
//! lines, areas and smaller points drawn as elements of the symbol.

use vstd::prelude::*;
use crate::map::elements::{
    points_from_text, points_text_ok, points_text_readable, read_points, PointNode,
};
use crate::map::symbols::{
    common_from_node, common_is_readable, common_readable, shapes_view, symbol_with, Outcome, Symbol, SymbolCommon,
    SymbolCommonView, SymbolKind, SymbolView,
};
use crate::map::symbols::geometric_shape::{
    from_number_to_vec_of_nodes, nodes_from, nodes_readable, nodes_readable_from, Area, AreaView, Circle, Line,
    LineView, Ring, Shape, ShapeView,
};
use crate::map_file::reading::{attribute_value, child_named, lemma_view_children, Node, NodeView};
use crate::text::{string_is, text_to_i32, text_to_u32, i32_text_value, u32_text_value};

verus! {

pub struct PunctualSymbol {
    pub id: i32,
    pub code: String,
    pub name: String,
    pub description: String,
    pub geometric_shapes: Vec<Shape>,
}

/// The text inside the first `<coords>` child of an object of a symbol.
pub open spec fn object_coords_text(n: NodeView) -> Option<Seq<char>> {
    match child_named(n, "coords"@) {
        Some(c) => c.inner_text,
        None => None,
    }
}

/// A color attribute: `-1` for none, otherwise it must read as a `u32`.
pub open spec fn color_text_outcome(s: Seq<char>) -> Outcome<Option<u32>> {
    if s == "-1"@ {
        Outcome::Gives(None)
    } else {
        match u32_text_value(s) {
            Some(v) => Outcome::Gives(Some(v)),
            None => Outcome::Aborts,
        }
    }
}

/// The ring and the disc of a point symbol at `(x, y)`. Without an inner
/// radius there is no ring, and the outer part, if it has a width and a color,
/// is a disc; otherwise the inner part, if it has a color, is a disc, and the
/// outer part, if it has a width and a color, is a ring around it.
pub open spec fn ring_and_circle(
    inner_radius: u32,
    inner_color: Option<u32>,
    outer_width: u32,
    outer_color: Option<u32>,
    x: i64,
    y: i64,
) -> (Option<Ring>, Option<Circle>) {
    let outer = outer_width != 0 && outer_color is Some;
    if inner_radius == 0 {
        (
            None,
            if outer {
                Some(Circle { x, y, radius: outer_width, color: outer_color->0 })
            } else {
                None
            },
        )
    } else {
        (
            if outer {
                Some(Ring { x, y, inner_radius, outer_width, color: outer_color->0 })
            } else {
                None
            },
            if inner_color is Some {
                Some(Circle { x, y, radius: inner_radius, color: inner_color->0 })
            } else {
                None
            },
        )
    }
}

/// The ring of a point symbol: there is one exactly when the symbol has an
/// inner radius and an outer part with a width and a color, whatever the
/// inner color; it lies at the point, with that radius, width and color.
pub proof fn lemma_ring_needs_only_the_outer_part(
    inner_radius: u32,
    inner_color: Option<u32>,
    outer_width: u32,
    outer_color: Option<u32>,
    x: i64,
    y: i64,
    other_inner_color: Option<u32>,
)
    ensures
        ring_and_circle(inner_radius, inner_color, outer_width, outer_color, x, y).0 is Some <==> (
        inner_radius > 0 && outer_width > 0 && outer_color is Some),
        ring_and_circle(inner_radius, inner_color, outer_width, outer_color, x, y).0 matches Some(r) ==> r
            == (Ring { x, y, inner_radius, outer_width, color: outer_color->0 }),
        ring_and_circle(inner_radius, other_inner_color, outer_width, outer_color, x, y).0 == ring_and_circle(
            inner_radius,
            inner_color,
            outer_width,
            outer_color,
            x,
            y,
        ).0,
{
}

/// The disc of a point symbol: with an inner radius, the inner part when it
/// has a color; without one, the outer part when it has a width and a color.
pub proof fn lemma_disc_of_a_point_symbol(
    inner_radius: u32,
    inner_color: Option<u32>,
    outer_width: u32,
    outer_color: Option<u32>,
    x: i64,
    y: i64,
)
    ensures
        inner_radius > 0 ==> ring_and_circle(inner_radius, inner_color, outer_width, outer_color, x, y).1 == (
        match inner_color {
            Some(c) => Some(Circle { x, y, radius: inner_radius, color: c }),
            None => None,
        }),
        inner_radius == 0 ==> ring_and_circle(inner_radius, inner_color, outer_width, outer_color, x, y).1 == (
        if outer_width > 0 && outer_color is Some {
            Some(Circle { x, y, radius: outer_width, color: outer_color->0 })
        } else {
            None
        }),
{
}

/// A `<point_symbol>` with its four attributes, each readable, gives the ring
/// and the disc of those values (see `lemma_ring_needs_only_the_outer_part`).
pub proof fn lemma_point_symbol_attributes(
    n: NodeView,
    x: i64,
    y: i64,
    inner_radius: u32,
    inner_color: Option<u32>,
    outer_width: u32,
    outer_color: Option<u32>,
)
    requires
        attribute_value(n.attributes, "inner_radius"@) matches Some(t) && u32_text_value(t) == Some(
            inner_radius,
        ),
        attribute_value(n.attributes, "inner_color"@) matches Some(t) && color_text_outcome(t) == Outcome::Gives(
            inner_color,
        ),
        attribute_value(n.attributes, "outer_width"@) matches Some(t) && u32_text_value(t) == Some(
            outer_width,
        ),
        attribute_value(n.attributes, "outer_color"@) matches Some(t) && color_text_outcome(t) == Outcome::Gives(
            outer_color,
        ),
    ensures
        ring_circle_outcome(n, x, y) == Outcome::Gives(
            ring_and_circle(inner_radius, inner_color, outer_width, outer_color, x, y),
        ),
{
}

/// Reading the ring and the disc of a `<point_symbol>` element placed at
/// `(x, y)`: no shapes when one of its four attributes is missing.
pub open spec fn ring_circle_outcome(n: NodeView, x: i64, y: i64) -> Outcome<
    (Option<Ring>, Option<Circle>),
> {
    let missing = Outcome::Gives((None, None));
    match attribute_value(n.attributes, "inner_radius"@) {
        None => missing,
        Some(ir) => match u32_text_value(ir) {
            None => Outcome::Aborts,
            Some(inner_radius) => match attribute_value(n.attributes, "inner_color"@) {
                None => missing,
                Some(ic) => match color_text_outcome(ic) {
                    Outcome::Aborts => Outcome::Aborts,
                    Outcome::Gives(inner_color) => match attribute_value(
                        n.attributes,
                        "outer_width"@,
                    ) {
                        None => missing,
                        Some(ow) => match u32_text_value(ow) {
                            None => Outcome::Aborts,
                            Some(outer_width) => match attribute_value(
                                n.attributes,
                                "outer_color"@,
                            ) {
                                None => missing,
                                Some(oc) => match color_text_outcome(oc) {
                                    Outcome::Aborts => Outcome::Aborts,
                                    Outcome::Gives(outer_color) => Outcome::Gives(
                                        ring_and_circle(
                                            inner_radius,
                                            inner_color,
                                            outer_width,
                                            outer_color,
                                            x,
                                            y,
                                        ),
                                    ),
                                },
                            },
                        },
                    },
                },
            },
        },
    }
}

/// The ring, then the disc, of those that there are.
pub open spec fn ring_then_circle(rc: (Option<Ring>, Option<Circle>)) -> Seq<ShapeView> {
    (if rc.0 is Some {
        seq![ShapeView::Ring(rc.0->0)]
    } else {
        Seq::empty()
    }) + (if rc.1 is Some {
        seq![ShapeView::Circle(rc.1->0)]
    } else {
        Seq::empty()
    })
}

/// The color of a line or area element: `None` when the attribute is missing
/// (the symbol is then not read); a negative color skips the element.
pub open spec fn element_color_outcome(t: Seq<char>) -> Outcome<Option<u32>> {
    match i32_text_value(t) {
        None => Outcome::Aborts,
        Some(v) => if v < 0 {
            Outcome::Gives(None)
        } else {
            match u32_text_value(t) {
                None => Outcome::Aborts,
                Some(c) => Outcome::Gives(Some(c)),
            }
        },
    }
}

/// Whether points can be made into a path.
pub open spec fn path_ok(coordinates: Seq<PointNode>) -> bool {
    coordinates.len() > 0 && nodes_readable_from(coordinates, 0)
}

/// A line element (its symbol of type `2`): `Gives(None)` ends the reading of
/// the punctual symbol without a symbol.
pub open spec fn line_step(
    shapes: Seq<ShapeView>,
    sym: NodeView,
    coordinates: Seq<PointNode>,
) -> Outcome<Option<Seq<ShapeView>>> {
    match child_named(sym, "line_symbol"@) {
        None => Outcome::Gives(None),
        Some(ls) => match attribute_value(ls.attributes, "color"@) {
            None => Outcome::Gives(None),
            Some(ct) => match element_color_outcome(ct) {
                Outcome::Aborts => Outcome::Aborts,
                Outcome::Gives(None) => Outcome::Gives(Some(shapes)),
                Outcome::Gives(Some(color)) => match attribute_value(ls.attributes, "line_width"@) {
                    None => Outcome::Gives(None),
                    Some(lw) => match u32_text_value(lw) {
                        None => Outcome::Aborts,
                        Some(line_width) => if !path_ok(coordinates) {
                            Outcome::Aborts
                        } else {
                            Outcome::Gives(
                                Some(
                                    shapes.push(
                                        ShapeView::Line(
                                            LineView {
                                                color,
                                                line_width,
                                                nodes: nodes_from(coordinates, 0, None),
                                            },
                                        ),
                                    ),
                                ),
                            )
                        },
                    },
                },
            },
        },
    }
}

/// An area element (its symbol of type `4` or `16`).
pub open spec fn area_step(
    shapes: Seq<ShapeView>,
    sym: NodeView,
    coordinates: Seq<PointNode>,
) -> Outcome<Option<Seq<ShapeView>>> {
    match child_named(sym, "area_symbol"@) {
        None => Outcome::Gives(None),
        Some(a) => match attribute_value(a.attributes, "inner_color"@) {
            None => Outcome::Gives(None),
            Some(ct) => match element_color_outcome(ct) {
                Outcome::Aborts => Outcome::Aborts,
                Outcome::Gives(None) => Outcome::Gives(Some(shapes)),
                Outcome::Gives(Some(color)) => if !path_ok(coordinates) {
                    Outcome::Aborts
                } else {
                    Outcome::Gives(
                        Some(
                            shapes.push(
                                ShapeView::Area(
                                    AreaView { color, nodes: nodes_from(coordinates, 0, None) },
                                ),
                            ),
                        ),
                    )
                },
            },
        },
    }
}

/// A point element (its symbol of type `1`): exactly one plain point, where
/// the ring and the disc of the inner symbol are placed.
pub open spec fn point_step(
    shapes: Seq<ShapeView>,
    sym: NodeView,
    coordinates: Seq<PointNode>,
) -> Outcome<Option<Seq<ShapeView>>> {
    if coordinates.len() != 1 || coordinates[0].bayesian {
        Outcome::Aborts
    } else {
        match child_named(sym, "point_symbol"@) {
            None => Outcome::Gives(None),
            Some(ips) => match ring_circle_outcome(ips, coordinates[0].x, coordinates[0].y) {
                Outcome::Aborts => Outcome::Aborts,
                Outcome::Gives(rc) => Outcome::Gives(Some(shapes + ring_then_circle(rc))),
            },
        }
    }
}

/// One child of a `<point_symbol>` element: children other than `<element>`
/// are skipped, and so are elements whose symbol is neither a line, an area
/// nor a point.
pub open spec fn element_step(shapes: Seq<ShapeView>, child: NodeView) -> Outcome<
    Option<Seq<ShapeView>>,
> {
    if child.name != "element"@ {
        Outcome::Gives(Some(shapes))
    } else {
        match child_named(child, "symbol"@) {
            None => Outcome::Gives(None),
            Some(sym) => match child_named(child, "object"@) {
                None => Outcome::Aborts,
                Some(obj) => match object_coords_text(obj) {
                    None => Outcome::Aborts,
                    Some(text) => if !points_text_ok(text) || !common_readable(sym) {
                        Outcome::Aborts
                    } else {
                        let coordinates = points_from_text(text);
                        match common_from_node(sym) {
                            None => Outcome::Gives(None),
                            Some(basic) => if basic.symbol_type == "2"@ {
                                line_step(shapes, sym, coordinates)
                            } else if basic.symbol_type == "4"@ || basic.symbol_type == "16"@ {
                                area_step(shapes, sym, coordinates)
                            } else if basic.symbol_type == "1"@ {
                                point_step(shapes, sym, coordinates)
                            } else {
                                Outcome::Gives(Some(shapes))
                            },
                        }
                    },
                },
            },
        }
    }
}

/// The shapes after the children of a `<point_symbol>` from the `i`-th on.
pub open spec fn shapes_after_elements(
    shapes: Seq<ShapeView>,
    children: Seq<NodeView>,
    i: int,
) -> Outcome<Option<Seq<ShapeView>>>
    decreases children.len() - i,
{
    if i < 0 || i >= children.len() {
        Outcome::Gives(Some(shapes))
    } else {
        match element_step(shapes, children[i]) {
            Outcome::Aborts => Outcome::Aborts,
            Outcome::Gives(None) => Outcome::Gives(None),
            Outcome::Gives(Some(next)) => shapes_after_elements(next, children, i + 1),
        }
    }
}

/// Reading the shapes of a punctual `<symbol>` element: `Gives(None)` when it
/// has no `<point_symbol>` child, or when an element of it lacks what it needs.
pub open spec fn punctual_outcome(node: NodeView) -> Outcome<Option<Seq<ShapeView>>> {
    match child_named(node, "point_symbol"@) {
        None => Outcome::Gives(None),
        Some(ps) => match ring_circle_outcome(ps, 0, 0) {
            Outcome::Aborts => Outcome::Aborts,
            Outcome::Gives(rc) => shapes_after_elements(ring_then_circle(rc), ps.children, 0),
        },
    }
}

/// Reads a color attribute (see `color_text_outcome`).
fn color_from_text(t: &String) -> (r: Outcome<Option<u32>>)
    ensures
        r == color_text_outcome(t@),
{
    if string_is(t, "-1") {
        Outcome::Gives(None)
    } else {
        match text_to_u32(t) {
            Some(v) => Outcome::Gives(Some(v)),
            None => Outcome::Aborts,
        }
    }
}

/// Reads a `u32` attribute that must be readable once it is there.
fn u32_or_abort(t: &String) -> (r: Outcome<u32>)
    ensures
        r matches Outcome::Gives(v) ==> u32_text_value(t@) == Some(v),
        r is Aborts ==> u32_text_value(t@) is None,
{
    match text_to_u32(t) {
        Some(v) => Outcome::Gives(v),
        None => Outcome::Aborts,
    }
}

/// Reads the ring and the disc of a `<point_symbol>` element placed at `(x, y)`
/// (see `ring_circle_outcome`).
fn from_point_symbol_node_to_circle_ring(node: &Node, x: i64, y: i64) -> (r: Outcome<
    (Option<Ring>, Option<Circle>),
>)
    ensures
        r == ring_circle_outcome(node@, x, y),
{
    let inner_radius: u32 = match node.search_attribute_by_name("inner_radius") {
        Some(a_inner_radius) => match u32_or_abort(&a_inner_radius) {
            Outcome::Gives(v) => v,
            Outcome::Aborts => {
                return Outcome::Aborts;
            },
        },
        None => {
            return Outcome::Gives((None, None));
        },
    };
    let inner_color: Option<u32> = match node.search_attribute_by_name("inner_color") {
        Some(a_inner_color) => match color_from_text(&a_inner_color) {
            Outcome::Gives(c) => c,
            Outcome::Aborts => {
                return Outcome::Aborts;
            },
        },
        None => {
            return Outcome::Gives((None, None));
        },
    };
    let outer_width: u32 = match node.search_attribute_by_name("outer_width") {
        Some(a_outer_width) => match u32_or_abort(&a_outer_width) {
            Outcome::Gives(v) => v,
            Outcome::Aborts => {
                return Outcome::Aborts;
            },
        },
        None => {
            return Outcome::Gives((None, None));
        },
    };
    let outer_color: Option<u32> = match node.search_attribute_by_name("outer_color") {
        Some(an_outer_color) => match color_from_text(&an_outer_color) {
            Outcome::Gives(c) => c,
            Outcome::Aborts => {
                return Outcome::Aborts;
            },
        },
        None => {
            return Outcome::Gives((None, None));
        },
    };
    let ring: Option<Ring>;
    let circle: Option<Circle>;
    if inner_radius == 0 {
        ring = None;
        if outer_width == 0 || outer_color.is_none() {
            circle = None;
        } else {
            circle = Some(Circle { x, y, radius: outer_width, color: outer_color.unwrap() });
        }
    } else {
        if inner_color.is_none() {
            circle = None;
        } else {
            circle = Some(Circle { x, y, radius: inner_radius, color: inner_color.unwrap() });
        }
        if outer_width == 0 || outer_color.is_none() {
            ring = None;
        } else {
            ring = Some(Ring { x, y, inner_radius, outer_width, color: outer_color.unwrap() });
        }
    }
    Outcome::Gives((ring, circle))
}

/// Appends the ring, then the disc, of those that there are.
fn push_ring_then_circle(shapes: &mut Vec<Shape>, rc: (Option<Ring>, Option<Circle>))
    ensures
        shapes_view(final(shapes)@) == shapes_view(old(shapes)@) + ring_then_circle(rc),
{
    let ghost start = shapes_view(shapes@);
    let (ring_option, circle_option) = rc;
    if ring_option.is_some() {
        shapes.push(Shape::Ring(ring_option.unwrap()));
    }
    if circle_option.is_some() {
        shapes.push(Shape::Circle(circle_option.unwrap()));
    }
    assert(shapes_view(shapes@) =~= start + ring_then_circle(rc));
}

/// Reads a line or area color attribute (see `element_color_outcome`).
fn element_color(t: &String) -> (r: Outcome<Option<u32>>)
    ensures
        r == element_color_outcome(t@),
{
    match text_to_i32(t) {
        None => Outcome::Aborts,
        Some(signed) => if signed < 0 {
            Outcome::Gives(None)
        } else {
            match text_to_u32(t) {
                Some(c) => Outcome::Gives(Some(c)),
                None => Outcome::Aborts,
            }
        },
    }
}

/// Whether points can be made into a path (see `path_ok`).
fn path_readable(coordinates: &Vec<PointNode>) -> (r: bool)
    ensures
        r == path_ok(coordinates@),
{
    coordinates.len() > 0 && nodes_readable(coordinates)
}

/// A line element (see `line_step`): `Gives(false)` ends the reading without
/// a symbol.
fn add_line(shapes: &mut Vec<Shape>, sym: &Node, coordinates: Vec<PointNode>) -> (r: Outcome<bool>)
    ensures
        r is Aborts ==> line_step(shapes_view(old(shapes)@), sym@, coordinates@) is Aborts,
        r matches Outcome::Gives(b) ==> line_step(shapes_view(old(shapes)@), sym@, coordinates@)
            == Outcome::Gives(
            if b {
                Some(shapes_view(final(shapes)@))
            } else {
                None::<Seq<ShapeView>>
            },
        ),
{
    let ghost start = shapes_view(shapes@);
    let line_symbol = match sym.search_child_by_name("line_symbol") {
        Some(a_node) => a_node,
        None => {
            return Outcome::Gives(false);
        },
    };
    let color = match line_symbol.search_attribute_by_name("color") {
        Some(a_color) => match element_color(&a_color) {
            Outcome::Gives(Some(c)) => c,
            Outcome::Gives(None) => {
                return Outcome::Gives(true);
            },
            Outcome::Aborts => {
                return Outcome::Aborts;
            },
        },
        None => {
            return Outcome::Gives(false);
        },
    };
    let line_width = match line_symbol.search_attribute_by_name("line_width") {
        Some(a_line_width) => match u32_or_abort(&a_line_width) {
            Outcome::Gives(v) => v,
            Outcome::Aborts => {
                return Outcome::Aborts;
            },
        },
        None => {
            return Outcome::Gives(false);
        },
    };
    if !path_readable(&coordinates) {
        return Outcome::Aborts;
    }
    let nodes = from_number_to_vec_of_nodes(coordinates);
    shapes.push(Shape::Line(Line { color, line_width, nodes }));
    assert(shapes_view(shapes@) =~= start.push(
        ShapeView::Line(LineView { color, line_width, nodes: nodes_from(coordinates@, 0, None) }),
    ));
    Outcome::Gives(true)
}

/// An area element (see `area_step`): `Gives(false)` ends the reading
/// without a symbol.
fn add_area(shapes: &mut Vec<Shape>, sym: &Node, coordinates: Vec<PointNode>) -> (r: Outcome<bool>)
    ensures
        r is Aborts ==> area_step(shapes_view(old(shapes)@), sym@, coordinates@) is Aborts,
        r matches Outcome::Gives(b) ==> area_step(shapes_view(old(shapes)@), sym@, coordinates@)
            == Outcome::Gives(
            if b {
                Some(shapes_view(final(shapes)@))
            } else {
                None::<Seq<ShapeView>>
            },
        ),
{
    let ghost start = shapes_view(shapes@);
    let area_symbol = match sym.search_child_by_name("area_symbol") {
        Some(a_node) => a_node,
        None => {
            return Outcome::Gives(false);
        },
    };
    let color = match area_symbol.search_attribute_by_name("inner_color") {
        Some(a_color) => match element_color(&a_color) {
            Outcome::Gives(Some(c)) => c,
            Outcome::Gives(None) => {
                return Outcome::Gives(true);
            },
            Outcome::Aborts => {
                return Outcome::Aborts;
            },
        },
        None => {
            return Outcome::Gives(false);
        },
    };
    if !path_readable(&coordinates) {
        return Outcome::Aborts;
    }
    let nodes = from_number_to_vec_of_nodes(coordinates);
    shapes.push(Shape::Area(Area { color, nodes }));
    assert(shapes_view(shapes@) =~= start.push(
        ShapeView::Area(AreaView { color, nodes: nodes_from(coordinates@, 0, None) }),
    ));
    Outcome::Gives(true)
}

/// A point element (see `point_step`): `Gives(false)` ends the reading
/// without a symbol.
fn add_point(shapes: &mut Vec<Shape>, sym: &Node, coordinates: Vec<PointNode>) -> (r: Outcome<bool>)
    ensures
        r is Aborts ==> point_step(shapes_view(old(shapes)@), sym@, coordinates@) is Aborts,
        r matches Outcome::Gives(b) ==> point_step(shapes_view(old(shapes)@), sym@, coordinates@)
            == Outcome::Gives(
            if b {
                Some(shapes_view(final(shapes)@))
            } else {
                None::<Seq<ShapeView>>
            },
        ),
{
    if coordinates.len() != 1 || coordinates[0].bayesian {
        return Outcome::Aborts;
    }
    let x = coordinates[0].x;
    let y = coordinates[0].y;
    let inner_point_symbol = match sym.search_child_by_name("point_symbol") {
        Some(a_node) => a_node,
        None => {
            return Outcome::Gives(false);
        },
    };
    match from_point_symbol_node_to_circle_ring(inner_point_symbol, x, y) {
        Outcome::Gives(rc) => {
            push_ring_then_circle(shapes, rc);
            Outcome::Gives(true)
        },
        Outcome::Aborts => Outcome::Aborts,
    }
}

/// The points of the `<coords>` child of an `<object>` element, if they can
/// be read.
fn object_points(object_node: &Node) -> (r: Option<Vec<PointNode>>)
    ensures
        r matches Some(v) ==> object_coords_text(object_node@) matches Some(text) && points_text_ok(text)
            && v@ == points_from_text(text),
        r is None ==> !(object_coords_text(object_node@) matches Some(text) && points_text_ok(text)),
{
    let coordinate_str_node = match object_node.search_child_by_name("coords") {
        Some(c) => c,
        None => {
            return None;
        },
    };
    let inner_text_str = match &coordinate_str_node.inner_text {
        Some(t) => t,
        None => {
            return None;
        },
    };
    assert(object_coords_text(object_node@) == Some(inner_text_str@));
    if !points_text_readable(inner_text_str) {
        return None;
    }
    Some(read_points(inner_text_str))
}

/// One child of a `<point_symbol>` element (see `element_step`):
/// `Gives(false)` ends the reading without a symbol.
fn add_element(shapes: &mut Vec<Shape>, child: &Node) -> (r: Outcome<bool>)
    ensures
        r is Aborts ==> element_step(shapes_view(old(shapes)@), child@) is Aborts,
        r matches Outcome::Gives(b) ==> element_step(shapes_view(old(shapes)@), child@)
            == Outcome::Gives(
            if b {
                Some(shapes_view(final(shapes)@))
            } else {
                None::<Seq<ShapeView>>
            },
        ),
{
    if !string_is(&child.name, "element") {
        return Outcome::Gives(true);
    }
    let symbol_node = match child.search_child_by_name("symbol") {
        Some(a_node) => a_node,
        None => {
            return Outcome::Gives(false);
        },
    };
    let object_node = match child.search_child_by_name("object") {
        Some(a_node) => a_node,
        None => {
            return Outcome::Aborts;
        },
    };
    let coordinates = match object_points(object_node) {
        Some(c) => c,
        None => {
            return Outcome::Aborts;
        },
    };
    if !common_is_readable(symbol_node) {
        return Outcome::Aborts;
    }
    let basic = match SymbolCommon::new_from_node(symbol_node) {
        Some(a_basic) => a_basic,
        None => {
            return Outcome::Gives(false);
        },
    };
    if string_is(&basic.symbol_type, "2") {
        add_line(shapes, symbol_node, coordinates)
    } else if string_is(&basic.symbol_type, "4") || string_is(&basic.symbol_type, "16") {
        add_area(shapes, symbol_node, coordinates)
    } else if string_is(&basic.symbol_type, "1") {
        add_point(shapes, symbol_node, coordinates)
    } else {
        Outcome::Gives(true)
    }
}

impl PunctualSymbol {
    /// Reads a punctual symbol (see `punctual_outcome`): `Aborts` where the
    /// file holds what the format does not allow.
    pub fn read_from_a_node(basic_symbol: &SymbolCommon, node: &Node) -> (r: Outcome<
        Option<Box<Self>>,
    >)
        ensures
            r is Aborts <==> punctual_outcome(node@) is Aborts,
            r matches Outcome::Gives(o) ==> punctual_outcome(node@) == Outcome::Gives(
                match o {
                    Some(s) => Some(s.symbol_view().geometric_shapes),
                    None => None::<Seq<ShapeView>>,
                },
            ),
            r matches Outcome::Gives(Some(s)) ==> s.symbol_view() == symbol_with(
                SymbolKind::Punctual,
                basic_symbol@,
                s.symbol_view().geometric_shapes,
                None,
            ),
    {
        let point_symbol_node = match node.search_child_by_name("point_symbol") {
            Some(a_node) => a_node,
            None => {
                return Outcome::Gives(None);
            },
        };
        let mut geometric_shapes: Vec<Shape> = Vec::new();
        assert(shapes_view(geometric_shapes@) =~= Seq::empty());
        let rc = match from_point_symbol_node_to_circle_ring(point_symbol_node, 0, 0) {
            Outcome::Gives(rc) => rc,
            Outcome::Aborts => {
                return Outcome::Aborts;
            },
        };
        push_ring_then_circle(&mut geometric_shapes, rc);
        let ghost ps = point_symbol_node@;
        proof {
            lemma_view_children(*point_symbol_node);
        }
        for i in 0..point_symbol_node.children.len()
            invariant
                ps == point_symbol_node@,
                ps.children.len() == point_symbol_node.children@.len(),
                forall|j: int|
                    0 <= j < point_symbol_node.children@.len() ==> #[trigger] ps.children[j]
                        == point_symbol_node.children@[j]@,
                punctual_outcome(node@) == shapes_after_elements(
                    shapes_view(geometric_shapes@),
                    ps.children,
                    i as int,
                ),
        {
            let child = &point_symbol_node.children[i];
            assert(ps.children[i as int] == child@);
            match add_element(&mut geometric_shapes, child) {
                Outcome::Gives(true) => {},
                Outcome::Gives(false) => {
                    return Outcome::Gives(None);
                },
                Outcome::Aborts => {
                    return Outcome::Aborts;
                },
            }
        }
        Outcome::Gives(
            Some(
                Box::new(
                    PunctualSymbol {
                        id: basic_symbol.id,
                        code: basic_symbol.code.clone(),
                        name: basic_symbol.name.clone(),
                        description: basic_symbol.description.clone(),
                        geometric_shapes,
                    },
                ),
            ),
        )
    }

    /// Reads a punctual symbol: the ring and the disc of its `<point_symbol>`
    /// child, then the shapes of each of that child's elements, in order.
    pub fn symbol_from_a_node(basic_symbol: &SymbolCommon, node: &Node) -> (r: Option<Box<Self>>)
        requires
            punctual_outcome(node@) is Gives,
        ensures
            punctual_outcome(node@) == Outcome::Gives(
                match r {
                    Some(s) => Some(s.symbol_view().geometric_shapes),
                    None => None::<Seq<ShapeView>>,
                },
            ),
            r matches Some(s) ==> s.symbol_view() == symbol_with(
                SymbolKind::Punctual,
                basic_symbol@,
                s.symbol_view().geometric_shapes,
                None,
            ),
    {
        match PunctualSymbol::read_from_a_node(basic_symbol, node) {
            Outcome::Gives(o) => o,
            Outcome::Aborts => None,
        }
    }
}

impl Symbol for PunctualSymbol {
    open spec fn symbol_view(&self) -> SymbolView {
        SymbolView {
            kind: SymbolKind::Punctual,
            id: self.id,
            code: self.code@,
            name: self.name@,
            description: self.description@,
            geometric_shapes: shapes_view(self.geometric_shapes@),
            inner_color: None,
        }
    }

    fn get_id(&self) -> (r: i32) {
        self.id
    }

    fn get_symbol_type(&self) -> (r: String) {
        String::from_str("punctual")
    }

    fn get_geometric_shapes(&self) -> (r: &Vec<Shape>) {
        &self.geometric_shapes
    }
}

} // verus!
