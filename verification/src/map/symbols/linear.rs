//! Linear symbols (`type="2"`).

use vstd::prelude::*;
use crate::map::symbols::{shapes_view, symbol_with, Symbol, SymbolCommon, SymbolKind, SymbolView};
use crate::map::symbols::geometric_shape::Shape;
use crate::map_file::reading::Node;

verus! {

pub struct LinearSymbol {
    pub id: i32,
    pub code: String,
    pub name: String,
    pub description: String,
    pub geometric_shapes: Vec<Shape>,
}

impl LinearSymbol {
    /// A linear symbol with the common part of the `<symbol>` element and no
    /// shapes yet.
    pub fn symbol_from_a_node(basic_symbol: &SymbolCommon, _node: &Node) -> (r: Option<Box<Self>>)
        ensures
            r matches Some(s) && s.symbol_view() == symbol_with(
                SymbolKind::Linear,
                basic_symbol@,
                Seq::empty(),
                None,
            ),
    {
        let geometric_shapes: Vec<Shape> = Vec::new();
        let r = LinearSymbol {
            id: basic_symbol.id,
            code: basic_symbol.code.clone(),
            name: basic_symbol.name.clone(),
            description: basic_symbol.description.clone(),
            geometric_shapes,
        };
        assert(shapes_view(r.geometric_shapes@) =~= Seq::empty());
        Some(Box::new(r))
    }
}

impl Symbol for LinearSymbol {
    open spec fn symbol_view(&self) -> SymbolView {
        SymbolView {
            kind: SymbolKind::Linear,
            id: self.id,
            code: self.code@,
            name: self.name@,
            description: self.description@,
            geometric_shapes: shapes_view(self.geometric_shapes@),
            inner_color: None,
        }
    }

    fn get_id(&self) -> (r: i32) {
        self.id
    }

    fn get_symbol_type(&self) -> (r: String) {
        String::from_str("linear")
    }

    fn get_geometric_shapes(&self) -> (r: &Vec<Shape>) {
        &self.geometric_shapes
    }
}

} // verus!
