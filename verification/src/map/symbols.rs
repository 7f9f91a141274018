//! The symbols of a map (how each kind of object is drawn), read from the
//! `<symbols>` section of an `.omap` file.

use vstd::prelude::*;
use std::collections::HashMap;
use crate::map_file::reading::{attribute_value, lemma_view_children, Node, NodeView};
use crate::map::symbols::area::{area_inner_color, area_shapes, AreaSymbol};
use crate::map::symbols::geometric_shape::{Shape, ShapeView};
use crate::map::symbols::linear::LinearSymbol;
use crate::map::symbols::punctual::{punctual_outcome, PunctualSymbol};
use crate::map::symbols::text::TextSymbol;
use crate::text::{i32_text_value, string_is, text_to_i32};

pub mod area;
pub mod geometric_shape;
pub mod linear;
pub mod punctual;
pub mod svg;
pub mod text;

verus! {

/// What reading a part of a file comes to: a value, or an abort, for input
/// that the file format does not allow (a number that does not read, a child
/// element that is missing where one is needed).
pub enum Outcome<T> {
    Aborts,
    Gives(T),
}

/// What every `<symbol>` element carries.
#[derive(Debug)]
pub struct SymbolCommon {
    pub symbol_type: String,
    pub id: i32,
    pub code: String,
    pub name: String,
    pub description: String,
}

pub struct SymbolCommonView {
    pub symbol_type: Seq<char>,
    pub id: i32,
    pub code: Seq<char>,
    pub name: Seq<char>,
    pub description: Seq<char>,
}

impl View for SymbolCommon {
    type V = SymbolCommonView;

    open spec fn view(&self) -> SymbolCommonView {
        SymbolCommonView {
            symbol_type: self.symbol_type@,
            id: self.id,
            code: self.code@,
            name: self.name@,
            description: self.description@,
        }
    }
}

/// The value of an attribute, or the empty text when it is missing.
pub open spec fn attribute_or_empty(n: NodeView, key: Seq<char>) -> Seq<char> {
    match attribute_value(n.attributes, key) {
        Some(v) => v,
        None => Seq::empty(),
    }
}

/// Whether reading the common part of a `<symbol>` element does not fail: an
/// `id`, when the symbol has a type and an id, must read as an `i32`.
pub open spec fn common_readable(n: NodeView) -> bool {
    attribute_value(n.attributes, "type"@) is Some ==> (attribute_value(n.attributes, "id"@) matches Some(
        t,
    ) ==> i32_text_value(t) is Some)
}

/// The common part of a `<symbol>` element: `None` without a `type` or a
/// `code`; the id is 0 and the name and description empty when missing.
pub open spec fn common_from_node(n: NodeView) -> Option<SymbolCommonView> {
    match (attribute_value(n.attributes, "type"@), attribute_value(n.attributes, "code"@)) {
        (Some(t), Some(c)) => Some(
            SymbolCommonView {
                symbol_type: t,
                id: match attribute_value(n.attributes, "id"@) {
                    Some(i) => i32_text_value(i)->0,
                    None => 0,
                },
                code: c,
                name: attribute_or_empty(n, "name"@),
                description: attribute_or_empty(n, "description"@),
            },
        ),
        _ => None,
    }
}

fn attribute_or_empty_string(node: &Node, key: &str) -> (r: String)
    ensures
        r@ == attribute_or_empty(node@, key@),
{
    match node.search_attribute_by_name(key) {
        Some(v) => v,
        None => String::new(),
    }
}

/// Whether the common part of a `<symbol>` element can be read (see
/// `common_readable`).
pub fn common_is_readable(node: &Node) -> (r: bool)
    ensures
        r == common_readable(node@),
{
    match node.search_attribute_by_name("type") {
        None => true,
        Some(_) => match node.search_attribute_by_name("id") {
            None => true,
            Some(t) => text_to_i32(&t).is_some(),
        },
    }
}

impl SymbolCommon {
    /// Reads the common part of a `<symbol>` element.
    pub fn new_from_node(node: &Node) -> (r: Option<SymbolCommon>)
        requires
            common_readable(node@),
        ensures
            r matches Some(c) ==> common_from_node(node@) == Some(c@),
            r is None ==> common_from_node(node@) is None,
    {
        let symbol_type = match node.search_attribute_by_name("type") {
            Some(a_type) => a_type,
            None => {
                return None;
            },
        };
        let id = match node.search_attribute_by_name("id") {
            Some(an_id) => text_to_i32(&an_id).unwrap(),
            None => 0,
        };
        let code = match node.search_attribute_by_name("code") {
            Some(a_code) => a_code,
            None => {
                return None;
            },
        };
        let name = attribute_or_empty_string(node, "name");
        let description = attribute_or_empty_string(node, "description");
        Some(SymbolCommon { symbol_type, id, code, name, description })
    }
}

/// The kinds of symbol.
#[derive(Debug, Clone, Copy, PartialEq, Eq, Structural)]
pub enum SymbolKind {
    Punctual,
    Linear,
    Area,
    Text,
}

/// The name that `get_symbol_type` gives each kind.
pub open spec fn kind_name(k: SymbolKind) -> Seq<char> {
    match k {
        SymbolKind::Punctual => "punctual"@,
        SymbolKind::Linear => "linear"@,
        SymbolKind::Area => "area"@,
        SymbolKind::Text => "test"@,
    }
}

/// The mathematical value of any symbol.
pub struct SymbolView {
    pub kind: SymbolKind,
    pub id: i32,
    pub code: Seq<char>,
    pub name: Seq<char>,
    pub description: Seq<char>,
    pub geometric_shapes: Seq<ShapeView>,
    pub inner_color: Option<u32>,
}

pub open spec fn shapes_view(s: Seq<Shape>) -> Seq<ShapeView> {
    s.map_values(|x: Shape| x@)
}

/// A symbol of the given kind with the common part `c` and the shapes `shapes`.
pub open spec fn symbol_with(
    kind: SymbolKind,
    c: SymbolCommonView,
    shapes: Seq<ShapeView>,
    inner_color: Option<u32>,
) -> SymbolView {
    SymbolView {
        kind,
        id: c.id,
        code: c.code,
        name: c.name,
        description: c.description,
        geometric_shapes: shapes,
        inner_color,
    }
}

/// What every symbol offers.
pub trait Symbol {
    spec fn symbol_view(&self) -> SymbolView;

    fn get_id(&self) -> (r: i32)
        ensures
            r == self.symbol_view().id,
    ;

    fn get_symbol_type(&self) -> (r: String)
        ensures
            r@ == kind_name(self.symbol_view().kind),
    ;

    fn get_geometric_shapes(&self) -> (r: &Vec<Shape>)
        ensures
            shapes_view(r@) == self.symbol_view().geometric_shapes,
    ;
}

/// Any one of the symbols.
pub enum AnySymbol {
    Punctual(PunctualSymbol),
    Linear(LinearSymbol),
    Area(AreaSymbol),
    Text(TextSymbol),
}

impl Symbol for AnySymbol {
    open spec fn symbol_view(&self) -> SymbolView {
        match self {
            AnySymbol::Punctual(s) => s.symbol_view(),
            AnySymbol::Linear(s) => s.symbol_view(),
            AnySymbol::Area(s) => s.symbol_view(),
            AnySymbol::Text(s) => s.symbol_view(),
        }
    }

    fn get_id(&self) -> (r: i32) {
        match self {
            AnySymbol::Punctual(s) => s.get_id(),
            AnySymbol::Linear(s) => s.get_id(),
            AnySymbol::Area(s) => s.get_id(),
            AnySymbol::Text(s) => s.get_id(),
        }
    }

    fn get_symbol_type(&self) -> (r: String) {
        match self {
            AnySymbol::Punctual(s) => s.get_symbol_type(),
            AnySymbol::Linear(s) => s.get_symbol_type(),
            AnySymbol::Area(s) => s.get_symbol_type(),
            AnySymbol::Text(s) => s.get_symbol_type(),
        }
    }

    fn get_geometric_shapes(&self) -> (r: &Vec<Shape>) {
        match self {
            AnySymbol::Punctual(s) => s.get_geometric_shapes(),
            AnySymbol::Linear(s) => s.get_geometric_shapes(),
            AnySymbol::Area(s) => s.get_geometric_shapes(),
            AnySymbol::Text(s) => s.get_geometric_shapes(),
        }
    }
}

/// Every symbol of the map, by id.
pub struct SymbolsBag {
    pub bag: HashMap<i32, AnySymbol>,
}

pub open spec fn bag_view(m: Map<i32, AnySymbol>) -> Map<i32, SymbolView> {
    m.map_values(|s: AnySymbol| s.symbol_view())
}

/// One child of a `<symbols>` element: children other than `<symbol>`, and
/// combined symbols (`16`) and symbols of unknown type, are skipped; a symbol
/// replaces an earlier one with the same id.
pub open spec fn symbol_step(m: Map<i32, SymbolView>, child: NodeView) -> Outcome<
    Option<Map<i32, SymbolView>>,
> {
    if child.name != "symbol"@ {
        Outcome::Gives(Some(m))
    } else if !common_readable(child) {
        Outcome::Aborts
    } else {
        match common_from_node(child) {
            None => Outcome::Gives(None),
            Some(basic) => if basic.symbol_type == "2"@ {
                Outcome::Gives(
                    Some(m.insert(basic.id, symbol_with(SymbolKind::Linear, basic, Seq::empty(), None))),
                )
            } else if basic.symbol_type == "4"@ {
                match area_inner_color(child) {
                    None => Outcome::Gives(None),
                    Some(ic) => Outcome::Gives(
                        Some(
                            m.insert(
                                basic.id,
                                symbol_with(SymbolKind::Area, basic, area_shapes(ic), ic),
                            ),
                        ),
                    ),
                }
            } else if basic.symbol_type == "16"@ {
                Outcome::Gives(Some(m))
            } else if basic.symbol_type == "1"@ {
                match punctual_outcome(child) {
                    Outcome::Aborts => Outcome::Aborts,
                    Outcome::Gives(None) => Outcome::Gives(None),
                    Outcome::Gives(Some(shapes)) => Outcome::Gives(
                        Some(
                            m.insert(basic.id, symbol_with(SymbolKind::Punctual, basic, shapes, None)),
                        ),
                    ),
                }
            } else if basic.symbol_type == "8"@ {
                Outcome::Gives(
                    Some(m.insert(basic.id, symbol_with(SymbolKind::Text, basic, Seq::empty(), None))),
                )
            } else {
                Outcome::Gives(Some(m))
            },
        }
    }
}

/// The symbols after the children of a `<symbols>` element from the `i`-th on.
pub open spec fn symbols_after(m: Map<i32, SymbolView>, children: Seq<NodeView>, i: int) -> Outcome<
    Option<Map<i32, SymbolView>>,
>
    decreases children.len() - i,
{
    if i < 0 || i >= children.len() {
        Outcome::Gives(Some(m))
    } else {
        match symbol_step(m, children[i]) {
            Outcome::Aborts => Outcome::Aborts,
            Outcome::Gives(None) => Outcome::Gives(None),
            Outcome::Gives(Some(next)) => symbols_after(next, children, i + 1),
        }
    }
}

/// Reading a `<symbols>` element: `Gives(None)` when a symbol cannot be read.
pub open spec fn symbols_outcome(n: NodeView) -> Outcome<Option<Map<i32, SymbolView>>> {
    symbols_after(Map::empty(), n.children, 0)
}

/// Adds one child of a `<symbols>` element (see `symbol_step`);
/// `Gives(false)` ends the reading without a bag.
fn add_symbol(bag: &mut HashMap<i32, AnySymbol>, child: &Node) -> (r: Outcome<bool>)
    ensures
        r is Aborts ==> symbol_step(bag_view(old(bag)@), child@) is Aborts,
        r matches Outcome::Gives(b) ==> symbol_step(bag_view(old(bag)@), child@) == Outcome::Gives(
            if b {
                Some(bag_view(final(bag)@))
            } else {
                None::<Map<i32, SymbolView>>
            },
        ),
{
    broadcast use vstd::std_specs::hash::group_hash_axioms;

    let ghost before = bag_view(bag@);
    if !string_is(&child.name, "symbol") {
        return Outcome::Gives(true);
    }
    if !common_is_readable(child) {
        return Outcome::Aborts;
    }
    let basic_symbol = match SymbolCommon::new_from_node(child) {
        Some(a_symbol) => a_symbol,
        None => {
            return Outcome::Gives(false);
        },
    };
    let id = basic_symbol.id;
    if string_is(&basic_symbol.symbol_type, "2") {
        let linear_symbol = match LinearSymbol::symbol_from_a_node(&basic_symbol, child) {
            Some(a_linear_symbol) => a_linear_symbol,
            None => {
                return Outcome::Gives(false);
            },
        };
        bag.insert(id, AnySymbol::Linear(*linear_symbol));
    } else if string_is(&basic_symbol.symbol_type, "4") {
        let area_symbol = match AreaSymbol::symbol_from_a_node(&basic_symbol, child) {
            Some(an_area_symbol) => an_area_symbol,
            None => {
                return Outcome::Gives(false);
            },
        };
        bag.insert(id, AnySymbol::Area(*area_symbol));
    } else if string_is(&basic_symbol.symbol_type, "16") {
    } else if string_is(&basic_symbol.symbol_type, "1") {
        let punctual_symbol = match PunctualSymbol::read_from_a_node(&basic_symbol, child) {
            Outcome::Gives(Some(a_punctual_symbol)) => a_punctual_symbol,
            Outcome::Gives(None) => {
                return Outcome::Gives(false);
            },
            Outcome::Aborts => {
                return Outcome::Aborts;
            },
        };
        bag.insert(id, AnySymbol::Punctual(*punctual_symbol));
    } else if string_is(&basic_symbol.symbol_type, "8") {
        let text_symbol = match TextSymbol::symbol_from_a_node(&basic_symbol, child) {
            Some(a_text_symbol) => a_text_symbol,
            None => {
                return Outcome::Gives(false);
            },
        };
        bag.insert(id, AnySymbol::Text(*text_symbol));
    }
    assert(bag_view(bag@) =~= match symbol_step(before, child@) {
        Outcome::Gives(Some(m)) => m,
        _ => before,
    });
    Outcome::Gives(true)
}

impl SymbolsBag {
    /// The number of symbols.
    pub fn len(&self) -> (r: usize)
        ensures
            r == self.bag@.len(),
    {
        broadcast use vstd::std_specs::hash::group_hash_axioms;

        self.bag.len()
    }

    /// Reads every symbol of a `<symbols>` element (see `symbols_outcome`):
    /// `Aborts` where the file holds what the format does not allow.
    pub fn read_symbols(symbols_node: &Node) -> (r: Outcome<Option<Self>>)
        ensures
            r is Aborts <==> symbols_outcome(symbols_node@) is Aborts,
            r matches Outcome::Gives(o) ==> symbols_outcome(symbols_node@) == Outcome::Gives(
                match o {
                    Some(b) => Some(bag_view(b.bag@)),
                    None => None::<Map<i32, SymbolView>>,
                },
            ),
    {
        broadcast use vstd::std_specs::hash::group_hash_axioms;

        let mut bag: HashMap<i32, AnySymbol> = HashMap::new();
        assert(bag_view(bag@) =~= Map::empty());
        let ghost n = symbols_node@;
        proof {
            lemma_view_children(*symbols_node);
        }
        for i in 0..symbols_node.children.len()
            invariant
                n == symbols_node@,
                n.children.len() == symbols_node.children@.len(),
                forall|j: int|
                    0 <= j < symbols_node.children@.len() ==> #[trigger] n.children[j]
                        == symbols_node.children@[j]@,
                symbols_outcome(n) == symbols_after(bag_view(bag@), n.children, i as int),
        {
            assert(n.children[i as int] == symbols_node.children@[i as int]@);
            match add_symbol(&mut bag, &symbols_node.children[i]) {
                Outcome::Gives(true) => {},
                Outcome::Gives(false) => {
                    return Outcome::Gives(None);
                },
                Outcome::Aborts => {
                    return Outcome::Aborts;
                },
            }
        }
        Outcome::Gives(Some(SymbolsBag { bag }))
    }

    /// Reads every symbol of a `<symbols>` element: `None` when a symbol
    /// lacks what it needs.
    pub fn symbols_from_a_node(symbols_node: &Node) -> (r: Option<Self>)
        requires
            symbols_outcome(symbols_node@) is Gives,
        ensures
            symbols_outcome(symbols_node@) == Outcome::Gives(
                match r {
                    Some(b) => Some(bag_view(b.bag@)),
                    None => None::<Map<i32, SymbolView>>,
                },
            ),
    {
        match SymbolsBag::read_symbols(symbols_node) {
            Outcome::Gives(o) => o,
            Outcome::Aborts => None,
        }
    }

    /// The symbol with the given id.
    pub fn symbol_by_id(&self, id: i32) -> (r: Option<&AnySymbol>)
        ensures
            r matches Some(s) ==> bag_view(self.bag@).contains_key(id) && s.symbol_view() == bag_view(
                self.bag@,
            )[id],
            r is None ==> !bag_view(self.bag@).contains_key(id),
    {
        broadcast use vstd::std_specs::hash::group_hash_axioms;

        self.bag.get(&id)
    }
}

} // verus!
