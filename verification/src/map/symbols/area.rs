//! Area symbols (`type="4"`).

use vstd::prelude::*;
use crate::map::symbols::{shapes_view, symbol_with, Symbol, SymbolCommon, SymbolKind, SymbolView};
use crate::map::symbols::geometric_shape::{Area, AreaView, Shape, ShapeView};
use crate::map_file::reading::{attribute_value, child_named, Node, NodeView};
use crate::text::{text_to_u32, u32_text_value};

verus! {

pub struct AreaSymbol {
    pub id: i32,
    pub code: String,
    pub name: String,
    pub description: String,
    pub geometric_shapes: Vec<Shape>,
    pub inner_color: Option<u32>,
}

/// The fill color of an area symbol, when its `<area_symbol>` child and that
/// child's `inner_color` are there (`None` then): the color, or `None` when it
/// is not a `u32` (such as `-1`, no fill).
pub open spec fn area_inner_color(n: NodeView) -> Option<Option<u32>> {
    match child_named(n, "area_symbol"@) {
        None => None,
        Some(a) => match attribute_value(a.attributes, "inner_color"@) {
            None => None,
            Some(t) => Some(u32_text_value(t)),
        },
    }
}

/// The shapes of an area symbol with the given fill: one area of that color.
pub open spec fn area_shapes(inner_color: Option<u32>) -> Seq<ShapeView> {
    match inner_color {
        Some(c) => seq![ShapeView::Area(AreaView { color: c, nodes: Seq::empty() })],
        None => Seq::empty(),
    }
}

impl AreaSymbol {
    /// An area symbol with no shapes and no fill.
    pub fn new(id: i32, code: String, name: String, description: String) -> (r: Self)
        ensures
            r.symbol_view() == (SymbolView {
                kind: SymbolKind::Area,
                id,
                code: code@,
                name: name@,
                description: description@,
                geometric_shapes: Seq::empty(),
                inner_color: None,
            }),
    {
        let r = AreaSymbol { id, code, name, description, geometric_shapes: Vec::new(), inner_color: None };
        assert(shapes_view(r.geometric_shapes@) =~= Seq::empty());
        r
    }

    /// Reads an area symbol: its fill color from the `<area_symbol>` child.
    pub fn symbol_from_a_node(basic_symbol: &SymbolCommon, node: &Node) -> (r: Option<Box<Self>>)
        ensures
            r is None <==> area_inner_color(node@) is None,
            r matches Some(s) ==> s.symbol_view() == symbol_with(
                SymbolKind::Area,
                basic_symbol@,
                area_shapes(area_inner_color(node@)->0),
                area_inner_color(node@)->0,
            ),
    {
        let mut geometric_shapes: Vec<Shape> = Vec::new();
        let area_symbol = match node.search_child_by_name("area_symbol") {
            Some(an_area_symbol) => an_area_symbol,
            None => {
                return None;
            },
        };
        let inner_color = match area_symbol.search_attribute_by_name("inner_color") {
            Some(s) => text_to_u32(&s),
            None => {
                return None;
            },
        };
        if inner_color.is_some() {
            let area = Area { color: inner_color.unwrap(), nodes: Vec::new() };
            geometric_shapes.push(Shape::Area(area));
        }
        let r = AreaSymbol {
            id: basic_symbol.id,
            code: basic_symbol.code.clone(),
            name: basic_symbol.name.clone(),
            description: basic_symbol.description.clone(),
            geometric_shapes,
            inner_color,
        };
        assert(shapes_view(r.geometric_shapes@) =~= area_shapes(inner_color));
        Some(Box::new(r))
    }
}

impl Symbol for AreaSymbol {
    open spec fn symbol_view(&self) -> SymbolView {
        SymbolView {
            kind: SymbolKind::Area,
            id: self.id,
            code: self.code@,
            name: self.name@,
            description: self.description@,
            geometric_shapes: shapes_view(self.geometric_shapes@),
            inner_color: self.inner_color,
        }
    }

    fn get_id(&self) -> (r: i32) {
        self.id
    }

    fn get_symbol_type(&self) -> (r: String) {
        String::from_str("area")
    }

    fn get_geometric_shapes(&self) -> (r: &Vec<Shape>) {
        &self.geometric_shapes
    }
}

} // verus!
