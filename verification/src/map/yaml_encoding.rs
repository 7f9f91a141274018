//! The shape of the JSON form of a map that is sent to the viewer: symbols
//! sorted by kind, elements with the family of their symbol, and the list of
//! geometric shapes. Turning these values into JSON text is left to the caller.

use vstd::prelude::*;
use std::collections::HashMap;
use crate::map::elements::{copy_points, elements_view, Element, ElementView, ElementsBag, PointNode};
use crate::map::symbols::{
    bag_view, kind_name, shapes_view, AnySymbol, Symbol, SymbolKind, SymbolView, SymbolsBag,
};
use crate::map::symbols::geometric_shape::{
    copy_nodes, Area, AreaView, Circle, GeometricShapesBag, Line, LineView, Ring, Shape, ShapeView,
};

verus! {

/// The common part of a symbol in the JSON form.
pub struct SymbolYamlView {
    pub id: i32,
    pub code: Seq<char>,
    pub name: Seq<char>,
    pub description: Seq<char>,
}

pub struct AreaSymbolYaml {
    pub id: i32,
    pub code: String,
    pub name: String,
    pub description: String,
}

pub struct TextSymbolYaml {
    pub id: i32,
    pub code: String,
    pub name: String,
    pub description: String,
}

pub struct LinearSymbolYaml {
    pub id: i32,
    pub code: String,
    pub name: String,
    pub description: String,
}

impl View for AreaSymbolYaml {
    type V = SymbolYamlView;

    open spec fn view(&self) -> SymbolYamlView {
        SymbolYamlView { id: self.id, code: self.code@, name: self.name@, description: self.description@ }
    }
}

impl View for TextSymbolYaml {
    type V = SymbolYamlView;

    open spec fn view(&self) -> SymbolYamlView {
        SymbolYamlView { id: self.id, code: self.code@, name: self.name@, description: self.description@ }
    }
}

impl View for LinearSymbolYaml {
    type V = SymbolYamlView;

    open spec fn view(&self) -> SymbolYamlView {
        SymbolYamlView { id: self.id, code: self.code@, name: self.name@, description: self.description@ }
    }
}

/// A punctual symbol in the JSON form: its shapes sorted by kind.
pub struct PunctualSymbolYaml {
    pub id: i32,
    pub code: String,
    pub name: String,
    pub description: String,
    pub rings: Vec<Ring>,
    pub circles: Vec<Circle>,
    pub lines: Vec<Line>,
    pub areas: Vec<Area>,
    pub texts: Vec<TextSymbolYaml>,
}

pub struct PunctualSymbolYamlView {
    pub common: SymbolYamlView,
    pub rings: Seq<Ring>,
    pub circles: Seq<Circle>,
    pub lines: Seq<LineView>,
    pub areas: Seq<AreaView>,
    pub texts: Seq<SymbolYamlView>,
}

impl View for PunctualSymbolYaml {
    type V = PunctualSymbolYamlView;

    open spec fn view(&self) -> PunctualSymbolYamlView {
        PunctualSymbolYamlView {
            common: SymbolYamlView {
                id: self.id,
                code: self.code@,
                name: self.name@,
                description: self.description@,
            },
            rings: self.rings@,
            circles: self.circles@,
            lines: self.lines@.map_values(|l: Line| l@),
            areas: self.areas@.map_values(|a: Area| a@),
            texts: self.texts@.map_values(|t: TextSymbolYaml| t@),
        }
    }
}

/// Every symbol in the JSON form, by kind and id.
pub struct SymbolsYaml {
    pub num: usize,
    pub punctual_symbols: HashMap<i32, PunctualSymbolYaml>,
    pub linear_symbols: HashMap<i32, LinearSymbolYaml>,
    pub area_symbols: HashMap<i32, AreaSymbolYaml>,
    pub text_symbols: HashMap<i32, TextSymbolYaml>,
}

pub open spec fn rings_of(s: Seq<ShapeView>) -> Seq<Ring>
    decreases s.len(),
{
    if s.len() == 0 {
        Seq::empty()
    } else {
        rings_of(s.drop_last()) + match s.last() {
            ShapeView::Ring(r) => seq![r],
            _ => Seq::empty(),
        }
    }
}

pub open spec fn circles_of(s: Seq<ShapeView>) -> Seq<Circle>
    decreases s.len(),
{
    if s.len() == 0 {
        Seq::empty()
    } else {
        circles_of(s.drop_last()) + match s.last() {
            ShapeView::Circle(c) => seq![c],
            _ => Seq::empty(),
        }
    }
}

pub open spec fn lines_of(s: Seq<ShapeView>) -> Seq<LineView>
    decreases s.len(),
{
    if s.len() == 0 {
        Seq::empty()
    } else {
        lines_of(s.drop_last()) + match s.last() {
            ShapeView::Line(l) => seq![l],
            _ => Seq::empty(),
        }
    }
}

pub open spec fn common_yaml(s: SymbolView) -> SymbolYamlView {
    SymbolYamlView { id: s.id, code: s.code, name: s.name, description: s.description }
}

/// A punctual symbol in the JSON form: its rings, discs and lines, in order
/// (areas and texts are left out).
pub open spec fn punctual_yaml(s: SymbolView) -> PunctualSymbolYamlView {
    PunctualSymbolYamlView {
        common: common_yaml(s),
        rings: rings_of(s.geometric_shapes),
        circles: circles_of(s.geometric_shapes),
        lines: lines_of(s.geometric_shapes),
        areas: Seq::empty(),
        texts: Seq::empty(),
    }
}

/// The symbols of one kind.
pub open spec fn symbols_of_kind(m: Map<i32, SymbolView>, k: SymbolKind) -> Map<i32, SymbolView> {
    Map::new(|id: i32| m.contains_key(id) && m[id].kind == k, |id: i32| m[id])
}

fn copy_line(l: &Line) -> (r: Line)
    ensures
        r@ == l@,
{
    Line { color: l.color, line_width: l.line_width, nodes: copy_nodes(&l.nodes) }
}

fn copy_area(a: &Area) -> (r: Area)
    ensures
        r@ == a@,
{
    Area { color: a.color, nodes: copy_nodes(&a.nodes) }
}

fn punctual_symbol_yaml(s: &AnySymbol) -> (r: PunctualSymbolYaml)
    ensures
        r@ == punctual_yaml(s.symbol_view()),
{
    let shapes = s.get_geometric_shapes();
    let ghost sv = shapes_view(shapes@);
    let mut rings: Vec<Ring> = Vec::new();
    let mut circles: Vec<Circle> = Vec::new();
    let mut lines: Vec<Line> = Vec::new();
    for i in 0..shapes.len()
        invariant
            sv == shapes_view(shapes@),
            rings@ == rings_of(sv.take(i as int)),
            circles@ == circles_of(sv.take(i as int)),
            lines@.map_values(|l: Line| l@) == lines_of(sv.take(i as int)),
    {
        assert(sv.take(i + 1).drop_last() =~= sv.take(i as int));
        assert(sv[i as int] == shapes@[i as int]@);
        let ghost lv = lines@.map_values(|l: Line| l@);
        match &shapes[i] {
            Shape::Ring(a_ring) => {
                rings.push(*a_ring);
            },
            Shape::Circle(a_circle) => {
                circles.push(*a_circle);
            },
            Shape::Line(a_line) => {
                let l = copy_line(a_line);
                lines.push(l);
                assert(lines@.map_values(|l: Line| l@) =~= lv.push(l@));
            },
            Shape::Area(_) => {},
        }
        assert(rings@ =~= rings_of(sv.take(i + 1)));
        assert(circles@ =~= circles_of(sv.take(i + 1)));
        assert(lines@.map_values(|l: Line| l@) =~= lines_of(sv.take(i + 1)));
    }
    assert(sv.take(shapes.len() as int) == sv);
    let areas: Vec<Area> = Vec::new();
    let texts: Vec<TextSymbolYaml> = Vec::new();
    let r = PunctualSymbolYaml {
        id: s.get_id(),
        code: symbol_code(s),
        name: symbol_name(s),
        description: symbol_description(s),
        rings,
        circles,
        lines,
        areas,
        texts,
    };
    assert(r@.areas =~= Seq::<AreaView>::empty());
    assert(r@.texts =~= Seq::<SymbolYamlView>::empty());
    r
}

fn symbol_code(s: &AnySymbol) -> (r: String)
    ensures
        r@ == s.symbol_view().code,
{
    match s {
        AnySymbol::Punctual(x) => x.code.clone(),
        AnySymbol::Linear(x) => x.code.clone(),
        AnySymbol::Area(x) => x.code.clone(),
        AnySymbol::Text(x) => x.code.clone(),
    }
}

fn symbol_name(s: &AnySymbol) -> (r: String)
    ensures
        r@ == s.symbol_view().name,
{
    match s {
        AnySymbol::Punctual(x) => x.name.clone(),
        AnySymbol::Linear(x) => x.name.clone(),
        AnySymbol::Area(x) => x.name.clone(),
        AnySymbol::Text(x) => x.name.clone(),
    }
}

fn symbol_description(s: &AnySymbol) -> (r: String)
    ensures
        r@ == s.symbol_view().description,
{
    match s {
        AnySymbol::Punctual(x) => x.description.clone(),
        AnySymbol::Linear(x) => x.description.clone(),
        AnySymbol::Area(x) => x.description.clone(),
        AnySymbol::Text(x) => x.description.clone(),
    }
}

impl SymbolsYaml {
    pub open spec fn punctual_view(&self) -> Map<i32, PunctualSymbolYamlView> {
        self.punctual_symbols@.map_values(|p: PunctualSymbolYaml| p@)
    }

    pub open spec fn linear_view(&self) -> Map<i32, SymbolYamlView> {
        self.linear_symbols@.map_values(|p: LinearSymbolYaml| p@)
    }

    pub open spec fn area_view(&self) -> Map<i32, SymbolYamlView> {
        self.area_symbols@.map_values(|p: AreaSymbolYaml| p@)
    }

    pub open spec fn text_view(&self) -> Map<i32, SymbolYamlView> {
        self.text_symbols@.map_values(|p: TextSymbolYaml| p@)
    }
}

/// Every symbol in the JSON form: punctual symbols with their shapes, the
/// others with their common part only.
pub fn symbols_to_yaml(symbols: &SymbolsBag) -> (r: SymbolsYaml)
    ensures
        r.num == symbols.bag@.len(),
        r.punctual_view() == symbols_of_kind(bag_view(symbols.bag@), SymbolKind::Punctual).map_values(
            |s: SymbolView| punctual_yaml(s),
        ),
        r.linear_view() == symbols_of_kind(bag_view(symbols.bag@), SymbolKind::Linear).map_values(
            |s: SymbolView| common_yaml(s),
        ),
        r.area_view() == symbols_of_kind(bag_view(symbols.bag@), SymbolKind::Area).map_values(
            |s: SymbolView| common_yaml(s),
        ),
        r.text_view() == symbols_of_kind(bag_view(symbols.bag@), SymbolKind::Text).map_values(
            |s: SymbolView| common_yaml(s),
        ),
{
    broadcast use vstd::std_specs::hash::group_hash_axioms;

    let ghost m = bag_view(symbols.bag@);
    let mut punctual_symbols: HashMap<i32, PunctualSymbolYaml> = HashMap::new();
    let mut linear_symbols: HashMap<i32, LinearSymbolYaml> = HashMap::new();
    let mut area_symbols: HashMap<i32, AreaSymbolYaml> = HashMap::new();
    let mut text_symbols: HashMap<i32, TextSymbolYaml> = HashMap::new();
    for (id, symbol) in it: symbols.bag.iter()
        invariant
            m == bag_view(symbols.bag@),
            it.seq().len() == symbols.bag@.dom().len(),
            forall|k: int|
                0 <= k < it.seq().len() ==> symbols.bag@.contains_key(*(#[trigger] it.seq()[k]).0)
                    && symbols.bag@[*it.seq()[k].0] == *it.seq()[k].1,
            forall|key: i32| #[trigger]
                symbols.bag@.contains_key(key) ==> it.seq().contains((&key, &symbols.bag@[key])),
            it.seq().no_duplicates(),
            forall|key: i32|
                #[trigger] punctual_symbols@.contains_key(key) <==> (exists|k: int|
                    0 <= k < it.index() && *it.seq()[k].0 == key) && m.contains_key(key)
                    && m[key].kind == SymbolKind::Punctual,
            forall|key: i32|
                #[trigger] punctual_symbols@.contains_key(key) ==> punctual_symbols@[key]@ == punctual_yaml(m[key]),
            forall|key: i32|
                #[trigger] linear_symbols@.contains_key(key) <==> (exists|k: int|
                    0 <= k < it.index() && *it.seq()[k].0 == key) && m.contains_key(key)
                    && m[key].kind == SymbolKind::Linear,
            forall|key: i32|
                #[trigger] linear_symbols@.contains_key(key) ==> linear_symbols@[key]@ == common_yaml(m[key]),
            forall|key: i32|
                #[trigger] area_symbols@.contains_key(key) <==> (exists|k: int|
                    0 <= k < it.index() && *it.seq()[k].0 == key) && m.contains_key(key)
                    && m[key].kind == SymbolKind::Area,
            forall|key: i32|
                #[trigger] area_symbols@.contains_key(key) ==> area_symbols@[key]@ == common_yaml(m[key]),
            forall|key: i32|
                #[trigger] text_symbols@.contains_key(key) <==> (exists|k: int|
                    0 <= k < it.index() && *it.seq()[k].0 == key) && m.contains_key(key)
                    && m[key].kind == SymbolKind::Text,
            forall|key: i32|
                #[trigger] text_symbols@.contains_key(key) ==> text_symbols@[key]@ == common_yaml(m[key]),
    {
        let ghost k0 = it.index() as int;
        assert(it.seq()[k0] == (id, symbol));
        assert(symbols.bag@.contains_key(*id) && symbols.bag@[*id] == *symbol);
        assert(m[*id] == symbol.symbol_view());
        match symbol {
            AnySymbol::Punctual(_) => {
                let y = punctual_symbol_yaml(symbol);
                punctual_symbols.insert(*id, y);
            },
            AnySymbol::Linear(_) => {
                let y = LinearSymbolYaml {
                    id: symbol.get_id(),
                    code: symbol_code(symbol),
                    name: symbol_name(symbol),
                    description: symbol_description(symbol),
                };
                linear_symbols.insert(*id, y);
            },
            AnySymbol::Area(_) => {
                let y = AreaSymbolYaml {
                    id: symbol.get_id(),
                    code: symbol_code(symbol),
                    name: symbol_name(symbol),
                    description: symbol_description(symbol),
                };
                area_symbols.insert(*id, y);
            },
            AnySymbol::Text(_) => {
                let y = TextSymbolYaml {
                    id: symbol.get_id(),
                    code: symbol_code(symbol),
                    name: symbol_name(symbol),
                    description: symbol_description(symbol),
                };
                text_symbols.insert(*id, y);
            },
        }
    }
    let r = SymbolsYaml {
        num: symbols.len(),
        punctual_symbols,
        linear_symbols,
        area_symbols,
        text_symbols,
    };
    assert(r.punctual_view() =~= symbols_of_kind(m, SymbolKind::Punctual).map_values(
        |s: SymbolView| punctual_yaml(s),
    ));
    assert(r.linear_view() =~= symbols_of_kind(m, SymbolKind::Linear).map_values(
        |s: SymbolView| common_yaml(s),
    ));
    assert(r.area_view() =~= symbols_of_kind(m, SymbolKind::Area).map_values(
        |s: SymbolView| common_yaml(s),
    ));
    assert(r.text_view() =~= symbols_of_kind(m, SymbolKind::Text).map_values(
        |s: SymbolView| common_yaml(s),
    ));
    r
}

/// An element in the JSON form, with the family of its symbol.
pub struct ElementYaml {
    pub element_family: String,
    pub element_type: u32,
    pub symbol: i32,
    pub coordinates: Vec<PointNode>,
    pub pattern_rotation: String,
    pub pattern_rotation_x: i64,
    pub pattern_rotation_y: i64,
}

pub struct ElementYamlView {
    pub element_family: Seq<char>,
    pub element_type: u32,
    pub symbol: i32,
    pub coordinates: Seq<PointNode>,
    pub pattern_rotation: Seq<char>,
    pub pattern_rotation_x: i64,
    pub pattern_rotation_y: i64,
}

impl View for ElementYaml {
    type V = ElementYamlView;

    open spec fn view(&self) -> ElementYamlView {
        ElementYamlView {
            element_family: self.element_family@,
            element_type: self.element_type,
            symbol: self.symbol,
            coordinates: self.coordinates@,
            pattern_rotation: self.pattern_rotation@,
            pattern_rotation_x: self.pattern_rotation_x,
            pattern_rotation_y: self.pattern_rotation_y,
        }
    }
}

/// An element in the JSON form, when the bag has its symbol. The pattern's
/// `x` goes out as `pattern_rotation_y` and its `y` as `pattern_rotation_x`.
pub open spec fn element_yaml(e: ElementView, symbols: Map<i32, SymbolView>) -> Option<ElementYamlView> {
    if symbols.contains_key(e.symbol) {
        Some(
            ElementYamlView {
                element_family: kind_name(symbols[e.symbol].kind),
                element_type: e.element_type,
                symbol: e.symbol,
                coordinates: e.coordinates,
                pattern_rotation: e.pattern_rotation,
                pattern_rotation_x: e.pattern_rotation_y,
                pattern_rotation_y: e.pattern_rotation_x,
            },
        )
    } else {
        None
    }
}

impl ElementYaml {
    /// The element in the JSON form, when the bag has its symbol.
    pub fn from_element(element: &Element, symbols: &SymbolsBag) -> (r: Option<Self>)
        ensures
            r matches Some(y) ==> element_yaml(element@, bag_view(symbols.bag@)) == Some(y@),
            r is None ==> element_yaml(element@, bag_view(symbols.bag@)) is None,
            r matches Some(y) ==> y.coordinates@ == element.coordinates@ && y.symbol == element.symbol
                && y.element_type == element.element_type,
    {
        match symbols.symbol_by_id(element.symbol) {
            Some(a_symbol) => Some(
                ElementYaml {
                    element_family: a_symbol.get_symbol_type(),
                    element_type: element.element_type,
                    symbol: element.symbol,
                    coordinates: copy_points(&element.coordinates),
                    pattern_rotation: element.pattern_rotation.clone(),
                    pattern_rotation_x: element.pattern_rotation_y,
                    pattern_rotation_y: element.pattern_rotation_x,
                },
            ),
            None => None,
        }
    }
}

/// The elements in the JSON form, those whose symbol the bag has.
pub struct ElementsYaml {
    pub num: usize,
    pub elements: Vec<ElementYaml>,
}

/// The elements whose symbol is known, in the JSON form, in order.
pub open spec fn elements_yaml(es: Seq<ElementView>, symbols: Map<i32, SymbolView>) -> Seq<ElementYamlView>
    decreases es.len(),
{
    if es.len() == 0 {
        Seq::empty()
    } else {
        elements_yaml(es.drop_last(), symbols) + match element_yaml(es.last(), symbols) {
            Some(y) => seq![y],
            None => Seq::empty(),
        }
    }
}

/// The elements of the map in the JSON form.
pub fn elements_to_yaml(elements: &ElementsBag, symbols: &SymbolsBag) -> (r: ElementsYaml)
    ensures
        r.elements@.map_values(|y: ElementYaml| y@) == elements_yaml(
            elements_view(elements.bag@),
            bag_view(symbols.bag@),
        ),
        r.num == r.elements@.len(),
{
    let ghost es = elements_view(elements.bag@);
    let ghost m = bag_view(symbols.bag@);
    let mut r = ElementsYaml { num: 0, elements: Vec::new() };
    for i in 0..elements.bag.len()
        invariant
            es == elements_view(elements.bag@),
            m == bag_view(symbols.bag@),
            r.num == r.elements@.len(),
            r.num <= i,
            r.elements@.map_values(|y: ElementYaml| y@) == elements_yaml(es.take(i as int), m),
    {
        assert(es[i as int] == elements.bag@[i as int]@);
        assert(es.take(i + 1).drop_last() =~= es.take(i as int));
        let ghost before = r.elements@.map_values(|y: ElementYaml| y@);
        match ElementYaml::from_element(&elements.bag[i], symbols) {
            None => {},
            Some(an_element) => {
                let ghost yv = an_element@;
                r.elements.push(an_element);
                r.num = r.num + 1;
                assert(r.elements@.map_values(|y: ElementYaml| y@) =~= before.push(yv));
            },
        }
        assert(r.elements@.map_values(|y: ElementYaml| y@) =~= elements_yaml(es.take(i + 1), m));
    }
    assert(es.take(elements.bag.len() as int) == es);
    r
}

/// One geometric shape in the JSON form: exactly one of the fields is set.
pub struct GeometricShapeBox {
    pub ring: Option<Ring>,
    pub circle: Option<Circle>,
    pub line: Option<Line>,
    pub area: Option<Area>,
    pub text: Option<TextSymbolYaml>,
}

pub struct GeometricShapeBoxView {
    pub ring: Option<Ring>,
    pub circle: Option<Circle>,
    pub line: Option<LineView>,
    pub area: Option<AreaView>,
    pub text: Option<SymbolYamlView>,
}

impl View for GeometricShapeBox {
    type V = GeometricShapeBoxView;

    open spec fn view(&self) -> GeometricShapeBoxView {
        GeometricShapeBoxView {
            ring: self.ring,
            circle: self.circle,
            line: match self.line {
                Some(l) => Some(l@),
                None => None,
            },
            area: match self.area {
                Some(a) => Some(a@),
                None => None,
            },
            text: match self.text {
                Some(t) => Some(t@),
                None => None,
            },
        }
    }
}

pub open spec fn shape_box(s: ShapeView) -> GeometricShapeBoxView {
    GeometricShapeBoxView {
        ring: match s {
            ShapeView::Ring(r) => Some(r),
            _ => None,
        },
        circle: match s {
            ShapeView::Circle(c) => Some(c),
            _ => None,
        },
        line: match s {
            ShapeView::Line(l) => Some(l),
            _ => None,
        },
        area: match s {
            ShapeView::Area(a) => Some(a),
            _ => None,
        },
        text: None,
    }
}

impl GeometricShapeBox {
    /// A shape in the JSON form.
    pub fn new(geometric_shape: &Shape) -> (r: GeometricShapeBox)
        ensures
            r@ == shape_box(geometric_shape@),
    {
        let mut ring: Option<Ring> = None;
        let mut circle: Option<Circle> = None;
        let mut line: Option<Line> = None;
        let mut area: Option<Area> = None;
        let text: Option<TextSymbolYaml> = None;
        match geometric_shape {
            Shape::Ring(a_ring) => {
                ring = Some(*a_ring);
            },
            Shape::Circle(a_circle) => {
                circle = Some(*a_circle);
            },
            Shape::Line(a_line) => {
                line = Some(copy_line(a_line));
            },
            Shape::Area(an_area) => {
                area = Some(copy_area(an_area));
            },
        }
        GeometricShapeBox { ring, circle, line, area, text }
    }
}

/// The geometric shapes in the JSON form.
pub struct GeometricShapesYaml {
    pub num: usize,
    pub g_shapes: Vec<GeometricShapeBox>,
}

/// The geometric shapes of the map in the JSON form, in order.
pub fn geometric_shapes_to_yaml(shapes: &GeometricShapesBag) -> (r: GeometricShapesYaml)
    ensures
        r.g_shapes@.map_values(|b: GeometricShapeBox| b@) == shapes_view(shapes.bag@).map_values(
            |s: ShapeView| shape_box(s),
        ),
        r.num == shapes.bag@.len(),
{
    let ghost sv = shapes_view(shapes.bag@);
    let mut r = GeometricShapesYaml { num: 0, g_shapes: Vec::new() };
    for i in 0..shapes.bag.len()
        invariant
            sv == shapes_view(shapes.bag@),
            r.num == i,
            r.g_shapes@.map_values(|b: GeometricShapeBox| b@) == sv.take(i as int).map_values(
                |s: ShapeView| shape_box(s),
            ),
    {
        assert(sv[i as int] == shapes.bag@[i as int]@);
        let ghost before = r.g_shapes@.map_values(|b: GeometricShapeBox| b@);
        let a_box = GeometricShapeBox::new(&shapes.bag[i]);
        let ghost bv = a_box@;
        r.num = r.num + 1;
        r.g_shapes.push(a_box);
        assert(r.g_shapes@.map_values(|b: GeometricShapeBox| b@) =~= before.push(bv));
        assert(sv.take(i + 1) =~= sv.take(i as int).push(sv[i as int]));
        assert(r.g_shapes@.map_values(|b: GeometricShapeBox| b@) =~= sv.take(i + 1).map_values(
            |s: ShapeView| shape_box(s),
        ));
    }
    assert(sv.take(shapes.bag.len() as int) == sv);
    r
}

// ---------------------------------------------------------------------------
// Laws
// ---------------------------------------------------------------------------

/// A punctual symbol with no shape goes to the viewer with no ring, no disc
/// and no line, and with its id, code, name and description.
pub proof fn lemma_punctual_yaml_without_shapes(s: SymbolView)
    requires
        s.geometric_shapes.len() == 0,
    ensures
        punctual_yaml(s).rings.len() == 0,
        punctual_yaml(s).circles.len() == 0,
        punctual_yaml(s).lines.len() == 0,
        punctual_yaml(s).common == (SymbolYamlView {
            id: s.id,
            code: s.code,
            name: s.name,
            description: s.description,
        }),
{
}

/// One more shape of a punctual symbol adds, at the end, exactly one ring (if
/// it is a ring), one disc (if it is a disc) or one line (if it is a line) to
/// the symbol's form for the viewer, and changes nothing else of it; an area
/// adds nothing. So the rings, discs and lines sent are those of the symbol,
/// each kind in the symbol's order.
pub proof fn lemma_punctual_yaml_one_more_shape(s: SymbolView, x: ShapeView)
    ensures
        ({
            let t = SymbolView { geometric_shapes: s.geometric_shapes.push(x), ..s };
            &&& punctual_yaml(t).common == punctual_yaml(s).common
            &&& punctual_yaml(t).rings == punctual_yaml(s).rings + match x {
                ShapeView::Ring(r) => seq![r],
                _ => Seq::<Ring>::empty(),
            }
            &&& punctual_yaml(t).circles == punctual_yaml(s).circles + match x {
                ShapeView::Circle(c) => seq![c],
                _ => Seq::<Circle>::empty(),
            }
            &&& punctual_yaml(t).lines == punctual_yaml(s).lines + match x {
                ShapeView::Line(l) => seq![l],
                _ => Seq::<LineView>::empty(),
            }
        }),
{
    assert(s.geometric_shapes.push(x).drop_last() =~= s.geometric_shapes);
}

/// An element goes to the viewer exactly when the bag has its symbol, and then
/// with its own type, symbol, points and pattern rotation unchanged.
pub proof fn lemma_element_yaml_keeps_the_element(e: ElementView, symbols: Map<i32, SymbolView>)
    ensures
        element_yaml(e, symbols) is Some <==> symbols.contains_key(e.symbol),
        element_yaml(e, symbols) matches Some(y) ==> {
            &&& y.element_type == e.element_type
            &&& y.symbol == e.symbol
            &&& y.coordinates == e.coordinates
            &&& y.pattern_rotation == e.pattern_rotation
        },
{
}

/// Whether `y` carries the symbol and the points of one of the elements `es`
/// whose symbol the bag has.
pub open spec fn carries_an_element(es: Seq<ElementView>, symbols: Map<i32, SymbolView>, y: ElementYamlView) -> bool {
    exists|i: int|
        0 <= i < es.len() && #[trigger] es[i].symbol == y.symbol && symbols.contains_key(y.symbol)
            && y.coordinates == es[i].coordinates
}

/// Every element in the viewer's list is one of the map's elements whose
/// symbol the bag has, with its points unchanged, and the list is no longer
/// than the map's.
pub proof fn lemma_elements_yaml_keep_points(es: Seq<ElementView>, symbols: Map<i32, SymbolView>)
    ensures
        elements_yaml(es, symbols).len() <= es.len(),
        forall|k: int|
            0 <= k < elements_yaml(es, symbols).len() ==> carries_an_element(
                es,
                symbols,
                #[trigger] elements_yaml(es, symbols)[k],
            ),
    decreases es.len(),
{
    if es.len() > 0 {
        let before = es.drop_last();
        lemma_elements_yaml_keep_points(before, symbols);
        let ys = elements_yaml(es, symbols);
        let yb = elements_yaml(before, symbols);
        assert forall|k: int| 0 <= k < ys.len() implies carries_an_element(es, symbols, #[trigger] ys[k]) by {
            if k < yb.len() {
                assert(ys[k] == yb[k]);
                assert(carries_an_element(before, symbols, yb[k]));
                let i = choose|i: int|
                    0 <= i < before.len() && #[trigger] before[i].symbol == yb[k].symbol && symbols.contains_key(
                        yb[k].symbol,
                    ) && yb[k].coordinates == before[i].coordinates;
                assert(es[i] == before[i]);
            } else {
                let i = es.len() - 1;
                assert(es[i] == es.last());
                let y = element_yaml(es.last(), symbols)->0;
                assert(element_yaml(es.last(), symbols) is Some);
                assert(ys == yb + seq![y]);
                assert(ys[k] == y);
            }
        }
    }
}

} // verus!
