//! The colors of a map: reading the `<colors>` section of an `.omap` file.
//!
//! A `<color>` element looks like
//!
//! ```text
//! color (priority:"34", name:"Yellow 50%", c:"0", m:"0.135", y:"0.395", k:"0", opacity:"1")
//!     spotcolors (knockout:"true")
//!         component (factor:"0.5", spotcolor:"32")
//!     cmyk (method:"spotcolor")
//!     rgb (method:"spotcolor", r:"1", g:"0.865", b:"0.605")
//! ```
//!
//! `cmyk` and `rgb` are always there, `spotcolors` may be missing. The color
//! drawn is the one of the CMYK side, unless that side is derived from the RGB
//! one (`cmyk` method `rgb`), in which case the RGB side is used. A side whose
//! method is `spotcolor` is composed from the spot colors listed under
//! `spotcolors`, in its own color space. A color whose `spotcolors` holds a
//! `namedcolor` is a base spot ink: the tints are composed from it.
//!
//! This module decides, from the text of the file alone, which colors there
//! are, where the value of each comes from and in what order they are settled;
//! the channel arithmetic, done in floating point, is left to the caller, who
//! settles the plans in the order given.

use vstd::prelude::*;
use crate::map_file::reading::{attribute_value, child_named, lemma_view_children, Node, NodeView};
use crate::text::{
    bool_text_value,
    decimal_text,
    is_float_literal,
    is_float_text,
    parse_bool,
    push_decimal,
    string_is,
    text_to_u32,
    u32_text_value,
};

verus! {

// ---------------------------------------------------------------------------
// Writing a color
// ---------------------------------------------------------------------------

/// The CSS/SVG form of a color: `rgb(r, g, b)`.
pub open spec fn rgb_text(r: u8, g: u8, b: u8) -> Seq<char> {
    "rgb("@ + decimal_text(r as nat) + ", "@ + decimal_text(g as nat) + ", "@ + decimal_text(
        b as nat,
    ) + ")"@
}

/// Writes a color as `rgb(r, g, b)`, for CSS and SVG.
pub fn get_string_rgb(r: u8, g: u8, b: u8) -> (s: String)
    ensures
        s@ == rgb_text(r, g, b),
{
    let mut s = String::new();
    s.append("rgb(");
    push_decimal(&mut s, r as u64);
    s.append(", ");
    push_decimal(&mut s, g as u64);
    s.append(", ");
    push_decimal(&mut s, b as u64);
    s.append(")");
    s
}

// ---------------------------------------------------------------------------
// The `method` of the `<cmyk>` and `<rgb>` children
// ---------------------------------------------------------------------------

/// Where the CMYK side of a color comes from.
#[derive(Debug, Clone, Copy, PartialEq, Eq, Structural)]
pub enum CmykMethod {
    /// The color's own `c`, `m`, `y`, `k` attributes.
    Custom,
    /// Composed from the spot colors under `spotcolors`, in CMYK space.
    SpotColor,
    /// Converted from the RGB side.
    Rgb,
}

/// Where the RGB side of a color comes from. Its words differ from those of
/// the CMYK side: `cmyk` here plays the part that `rgb` plays there.
#[derive(Debug, Clone, Copy, PartialEq, Eq, Structural)]
pub enum RgbMethod {
    /// The `r`, `g`, `b` attributes of the `<rgb>` element.
    Custom,
    /// Composed from the spot colors under `spotcolors`, in RGB space.
    SpotColor,
    /// Converted from the CMYK side.
    Cmyk,
}

/// The `method` attribute of a `<cmyk>` or `<rgb>` element.
pub open spec fn method_text(n: NodeView) -> Option<Seq<char>> {
    attribute_value(n.attributes, "method"@)
}

pub open spec fn cmyk_method_named(m: Seq<char>) -> Option<CmykMethod> {
    if m == "custom"@ {
        Some(CmykMethod::Custom)
    } else if m == "spotcolor"@ {
        Some(CmykMethod::SpotColor)
    } else if m == "rgb"@ {
        Some(CmykMethod::Rgb)
    } else {
        None
    }
}

pub open spec fn rgb_method_named(m: Seq<char>) -> Option<RgbMethod> {
    if m == "custom"@ {
        Some(RgbMethod::Custom)
    } else if m == "spotcolor"@ {
        Some(RgbMethod::SpotColor)
    } else if m == "cmyk"@ {
        Some(RgbMethod::Cmyk)
    } else {
        None
    }
}

/// The method of a `<cmyk>` element, if it names one.
pub open spec fn cmyk_method_of(n: NodeView) -> Option<CmykMethod> {
    match method_text(n) {
        Some(m) => cmyk_method_named(m),
        None => None,
    }
}

/// The method of an `<rgb>` element, if it names one.
pub open spec fn rgb_method_of(n: NodeView) -> Option<RgbMethod> {
    match method_text(n) {
        Some(m) => rgb_method_named(m),
        None => None,
    }
}

/// The raw `method` attribute of a `<cmyk>` or `<rgb>` element.
pub fn parse_method_str(node: &Node) -> (r: Option<String>)
    ensures
        r matches Some(v) ==> method_text(node@) == Some(v@),
        r is None ==> method_text(node@) is None,
{
    node.search_attribute_by_name("method")
}

/// The method of a `<cmyk>` element: `custom`, `spotcolor` or `rgb`.
pub fn parse_cmyk_method(node: &Node) -> (r: Option<CmykMethod>)
    ensures
        r == cmyk_method_of(node@),
{
    let m = match parse_method_str(node) {
        Some(m) => m,
        None => {
            return None;
        },
    };
    if string_is(&m, "custom") {
        Some(CmykMethod::Custom)
    } else if string_is(&m, "spotcolor") {
        Some(CmykMethod::SpotColor)
    } else if string_is(&m, "rgb") {
        Some(CmykMethod::Rgb)
    } else {
        None
    }
}

/// The method of an `<rgb>` element: `custom`, `spotcolor` or `cmyk`.
pub fn parse_rgb_method(node: &Node) -> (r: Option<RgbMethod>)
    ensures
        r == rgb_method_of(node@),
{
    let m = match parse_method_str(node) {
        Some(m) => m,
        None => {
            return None;
        },
    };
    if string_is(&m, "custom") {
        Some(RgbMethod::Custom)
    } else if string_is(&m, "spotcolor") {
        Some(RgbMethod::SpotColor)
    } else if string_is(&m, "cmyk") {
        Some(RgbMethod::Cmyk)
    } else {
        None
    }
}

/// A `<cmyk>` element carries only its method: the channels stand on the
/// `<color>` element itself.
pub fn parse_cmyk(cmyk: &Node) -> (r: Option<CmykMethod>)
    ensures
        r == cmyk_method_of(cmyk@),
{
    parse_cmyk_method(cmyk)
}

// ---------------------------------------------------------------------------
// Attributes
// ---------------------------------------------------------------------------

/// The `knockout` attribute of a `<spotcolors>` element: `false` when it is
/// missing or is not a boolean.
pub open spec fn knockout_of(n: NodeView) -> bool {
    match attribute_value(n.attributes, "knockout"@) {
        Some(v) => bool_text_value(v) == Some(true),
        None => false,
    }
}

/// Whether a color knocks out what lies under it (see `knockout_of`).
pub fn parse_knockout(spotcolors: &Node) -> (r: bool)
    ensures
        r == knockout_of(spotcolors@),
{
    match spotcolors.search_attribute_by_name("knockout") {
        Some(v) => match parse_bool(&v) {
            Some(b) => b,
            None => false,
        },
        None => false,
    }
}

/// The attribute `key` of `n` if it is there and reads as an `f32`.
pub open spec fn float_attribute(n: NodeView, key: Seq<char>) -> Option<Seq<char>> {
    match attribute_value(n.attributes, key) {
        Some(v) => if is_float_text(v) {
            Some(v)
        } else {
            None
        },
        None => None,
    }
}

/// The text of the attribute `attribute` if it reads as an `f32`.
pub fn float_attribute_text(node: &Node, attribute: &str) -> (r: Option<String>)
    ensures
        r matches Some(v) ==> float_attribute(node@, attribute@) == Some(v@),
        r is None ==> float_attribute(node@, attribute@) is None,
{
    match node.search_attribute_by_name(attribute) {
        Some(v) => if is_float_literal(&v) {
            Some(v)
        } else {
            None
        },
        None => None,
    }
}

/// The attributes of a `<color>` element. The channels and the opacity are
/// kept as the texts of `f32` numbers, each in `[0; 1]` in a well-formed file.
pub struct ColorAttributes {
    pub priority: u32,
    pub name: String,
    pub c: String,
    pub m: String,
    pub y: String,
    pub k: String,
    /// `None` where the opacity is missing or unreadable: the color is opaque.
    pub opacity: Option<String>,
}

pub struct ColorAttributesView {
    pub priority: u32,
    pub name: Seq<char>,
    pub c: Seq<char>,
    pub m: Seq<char>,
    pub y: Seq<char>,
    pub k: Seq<char>,
    pub opacity: Option<Seq<char>>,
}

impl View for ColorAttributes {
    type V = ColorAttributesView;

    open spec fn view(&self) -> ColorAttributesView {
        ColorAttributesView {
            priority: self.priority,
            name: self.name@,
            c: self.c@,
            m: self.m@,
            y: self.y@,
            k: self.k@,
            opacity: match self.opacity {
                Some(o) => Some(o@),
                None => None,
            },
        }
    }
}

/// The attributes of a `<color>` element: a `priority` that reads as a `u32`,
/// a `name`, and `c`, `m`, `y`, `k` that read as `f32`; `None` if one is
/// missing or unreadable.
pub open spec fn color_attributes_of(n: NodeView) -> Option<ColorAttributesView> {
    match attribute_value(n.attributes, "priority"@) {
        None => None,
        Some(p) => match u32_text_value(p) {
            None => None,
            Some(priority) => match attribute_value(n.attributes, "name"@) {
                None => None,
                Some(name) => match (
                    float_attribute(n, "c"@),
                    float_attribute(n, "m"@),
                    float_attribute(n, "y"@),
                    float_attribute(n, "k"@),
                ) {
                    (Some(c), Some(m), Some(y), Some(k)) => Some(
                        ColorAttributesView {
                            priority,
                            name,
                            c,
                            m,
                            y,
                            k,
                            opacity: float_attribute(n, "opacity"@),
                        },
                    ),
                    _ => None,
                },
            },
        },
    }
}

/// Reads the attributes of a `<color>` element (see `color_attributes_of`).
pub fn parse_color_attributes(color: &Node) -> (r: Option<ColorAttributes>)
    ensures
        r matches Some(a) ==> color_attributes_of(color@) == Some(a@),
        r is None ==> color_attributes_of(color@) is None,
{
    let p = match color.search_attribute_by_name("priority") {
        Some(p) => p,
        None => {
            return None;
        },
    };
    let priority = match text_to_u32(&p) {
        Some(v) => v,
        None => {
            return None;
        },
    };
    let name = match color.search_attribute_by_name("name") {
        Some(n) => n,
        None => {
            return None;
        },
    };
    let c = match float_attribute_text(color, "c") {
        Some(v) => v,
        None => {
            return None;
        },
    };
    let m = match float_attribute_text(color, "m") {
        Some(v) => v,
        None => {
            return None;
        },
    };
    let y = match float_attribute_text(color, "y") {
        Some(v) => v,
        None => {
            return None;
        },
    };
    let k = match float_attribute_text(color, "k") {
        Some(v) => v,
        None => {
            return None;
        },
    };
    let opacity = float_attribute_text(color, "opacity");
    Some(ColorAttributes { priority, name, c, m, y, k, opacity })
}

/// The channels of an `<rgb>` element, as the texts of `f32` numbers in
/// `[0; 1]`.
pub struct RgbText {
    pub r: String,
    pub g: String,
    pub b: String,
}

impl View for RgbText {
    type V = (Seq<char>, Seq<char>, Seq<char>);

    open spec fn view(&self) -> (Seq<char>, Seq<char>, Seq<char>) {
        (self.r@, self.g@, self.b@)
    }
}

/// The method and the channels of an `<rgb>` element; the channels are always
/// there, though they count only for the method `custom`.
pub open spec fn rgb_of(n: NodeView) -> Option<(RgbMethod, (Seq<char>, Seq<char>, Seq<char>))> {
    match rgb_method_of(n) {
        None => None,
        Some(method) => match (
            float_attribute(n, "r"@),
            float_attribute(n, "g"@),
            float_attribute(n, "b"@),
        ) {
            (Some(r), Some(g), Some(b)) => Some((method, (r, g, b))),
            _ => None,
        },
    }
}

/// Reads an `<rgb>` element (see `rgb_of`).
pub fn parse_rgb(rgb: &Node) -> (r: Option<(RgbMethod, RgbText)>)
    ensures
        r matches Some(x) ==> rgb_of(rgb@) == Some((x.0, x.1@)),
        r is None ==> rgb_of(rgb@) is None,
{
    let method = match parse_rgb_method(rgb) {
        Some(m) => m,
        None => {
            return None;
        },
    };
    let r = match float_attribute_text(rgb, "r") {
        Some(v) => v,
        None => {
            return None;
        },
    };
    let g = match float_attribute_text(rgb, "g") {
        Some(v) => v,
        None => {
            return None;
        },
    };
    let b = match float_attribute_text(rgb, "b") {
        Some(v) => v,
        None => {
            return None;
        },
    };
    Some((method, RgbText { r, g, b }))
}

// ---------------------------------------------------------------------------
// Spot-color tints
// ---------------------------------------------------------------------------

/// One part of a tint: the fraction `factor` (the text of an `f32`) of the
/// color whose priority is `spotcolor`.
pub struct Component {
    pub factor: String,
    pub spotcolor: u32,
}

impl View for Component {
    type V = (Seq<char>, u32);

    open spec fn view(&self) -> (Seq<char>, u32) {
        (self.factor@, self.spotcolor)
    }
}

pub open spec fn components_view(cs: Seq<Component>) -> Seq<(Seq<char>, u32)> {
    cs.map_values(|c: Component| c@)
}

/// The part that a `<component>` element names, if it is one and both its
/// `factor` and its `spotcolor` are readable.
pub open spec fn component_of(n: NodeView) -> Option<(Seq<char>, u32)> {
    if n.name == "component"@ {
        match (float_attribute(n, "factor"@), attribute_value(n.attributes, "spotcolor"@)) {
            (Some(f), Some(s)) => match u32_text_value(s) {
                Some(v) => Some((f, v)),
                None => None,
            },
            _ => None,
        }
    } else {
        None
    }
}

/// The parts named by the first `i` children of a `<spotcolors>` element.
pub open spec fn components_upto(n: NodeView, i: int) -> Seq<(Seq<char>, u32)>
    decreases i,
{
    if i <= 0 || i > n.children.len() {
        Seq::empty()
    } else {
        let before = components_upto(n, i - 1);
        match component_of(n.children[i - 1]) {
            Some(c) => before.push(c),
            None => before,
        }
    }
}

/// The parts of a tint, in order; `None` where there are none, as for a base
/// ink, whose `<spotcolors>` holds a `<namedcolor>` instead.
pub open spec fn spotcolor_definition(n: NodeView) -> Option<Seq<(Seq<char>, u32)>> {
    let cs = components_upto(n, n.children.len() as int);
    if cs.len() == 0 {
        None
    } else {
        Some(cs)
    }
}

/// Reads the parts of a tint from a `<spotcolors>` element (see
/// `spotcolor_definition`).
pub fn parse_spotcolor_definition(spotcolor: &Node) -> (r: Option<Vec<Component>>)
    ensures
        r matches Some(v) ==> spotcolor_definition(spotcolor@) == Some(components_view(v@)),
        r is None ==> spotcolor_definition(spotcolor@) is None,
{
    proof {
        lemma_view_children(*spotcolor);
    }
    let ghost n = spotcolor@;
    let mut components: Vec<Component> = Vec::new();
    for i in 0..spotcolor.children.len()
        invariant
            n == spotcolor@,
            n.children.len() == spotcolor.children@.len(),
            forall|j: int| 0 <= j < spotcolor.children@.len() ==> #[trigger] n.children[j] == spotcolor.children@[j]@,
            components_view(components@) == components_upto(n, i as int),
    {
        let child = &spotcolor.children[i];
        assert(n.children[i as int] == child@);
        let ghost before = components@;
        if string_is(&child.name, "component") {
            let factor = float_attribute_text(child, "factor");
            let spot = match child.search_attribute_by_name("spotcolor") {
                Some(s) => text_to_u32(&s),
                None => None,
            };
            match (factor, spot) {
                (Some(factor), Some(spotcolor)) => {
                    components.push(Component { factor, spotcolor });
                    assert(components_view(components@) =~= components_view(before).push(
                        (factor@, spotcolor),
                    ));
                },
                _ => {},
            }
        }
    }
    if components.len() == 0 {
        None
    } else {
        Some(components)
    }
}

// ---------------------------------------------------------------------------
// Planning the colors
// ---------------------------------------------------------------------------

/// Where the color drawn for a `<color>` element comes from.
pub enum ColorSource {
    /// Converted from the color's own `c`, `m`, `y`, `k`.
    OwnCmyk,
    /// The channels of its `<rgb>` element.
    Rgb(RgbText),
    /// Composed, in CMYK space, from the CMYK of the base inks it names.
    CmykSpotColors(Vec<Component>),
    /// Composed, in RGB space, from the colors settled before it.
    RgbSpotColors(Vec<Component>),
}

pub enum ColorSourceView {
    OwnCmyk,
    Rgb((Seq<char>, Seq<char>, Seq<char>)),
    CmykSpotColors(Seq<(Seq<char>, u32)>),
    RgbSpotColors(Seq<(Seq<char>, u32)>),
}

impl View for ColorSource {
    type V = ColorSourceView;

    open spec fn view(&self) -> ColorSourceView {
        match self {
            ColorSource::OwnCmyk => ColorSourceView::OwnCmyk,
            ColorSource::Rgb(t) => ColorSourceView::Rgb(t@),
            ColorSource::CmykSpotColors(cs) => ColorSourceView::CmykSpotColors(components_view(cs@)),
            ColorSource::RgbSpotColors(cs) => ColorSourceView::RgbSpotColors(components_view(cs@)),
        }
    }
}

/// How one color is to be settled.
pub struct ColorPlan {
    pub attributes: ColorAttributes,
    pub source: ColorSource,
    /// Whether it replaces, rather than darkens, what lies under it.
    pub knockout: bool,
    /// Whether it is a base spot ink: its own CMYK is then what the tints
    /// composed in CMYK space take from it.
    pub base_ink: bool,
}

pub struct ColorPlanView {
    pub attributes: ColorAttributesView,
    pub source: ColorSourceView,
    pub knockout: bool,
    pub base_ink: bool,
}

impl View for ColorPlan {
    type V = ColorPlanView;

    open spec fn view(&self) -> ColorPlanView {
        ColorPlanView {
            attributes: self.attributes@,
            source: self.source@,
            knockout: self.knockout,
            base_ink: self.base_ink,
        }
    }
}

pub open spec fn plans_view(ps: Seq<ColorPlan>) -> Seq<ColorPlanView> {
    ps.map_values(|p: ColorPlan| p@)
}

/// When a color is settled: the colors given directly first, then the tints
/// composed in CMYK space (from the base inks, all known by then), then those
/// composed in RGB space (from the colors settled before them).
#[derive(Debug, Clone, Copy, PartialEq, Eq, Structural)]
pub enum Stage {
    Direct,
    CmykTint,
    RgbTint,
}

/// A color given directly: a base ink if its `<spotcolors>` holds a
/// `<namedcolor>`, with that element's knockout; else one with no knockout.
pub open spec fn direct_plan(
    attributes: ColorAttributesView,
    source: ColorSourceView,
    spot: Option<NodeView>,
) -> ColorPlanView {
    match spot {
        Some(s) => if child_named(s, "namedcolor"@) is Some {
            ColorPlanView { attributes, source, knockout: knockout_of(s), base_ink: true }
        } else {
            ColorPlanView { attributes, source, knockout: false, base_ink: false }
        },
        None => ColorPlanView { attributes, source, knockout: false, base_ink: false },
    }
}

/// A tint: there only if `<spotcolors>` is there and names at least one part.
pub open spec fn tint_step(attributes: ColorAttributesView, spot: Option<NodeView>, in_cmyk: bool) -> Option<
    (Stage, ColorPlanView),
> {
    match spot {
        None => None,
        Some(s) => match spotcolor_definition(s) {
            None => None,
            Some(cs) => if in_cmyk {
                Some(
                    (
                        Stage::CmykTint,
                        ColorPlanView {
                            attributes,
                            source: ColorSourceView::CmykSpotColors(cs),
                            knockout: knockout_of(s),
                            base_ink: false,
                        },
                    ),
                )
            } else {
                Some(
                    (
                        Stage::RgbTint,
                        ColorPlanView {
                            attributes,
                            source: ColorSourceView::RgbSpotColors(cs),
                            knockout: knockout_of(s),
                            base_ink: false,
                        },
                    ),
                )
            },
        },
    }
}

/// What becomes of one child of `<colors>`: `None` where it is skipped (an
/// attribute, the `<cmyk>` element or its method missing or unreadable; for a
/// color derived from RGB, the `<rgb>` element missing or unreadable; a tint
/// with no part to compose from).
pub open spec fn color_step(n: NodeView) -> Option<(Stage, ColorPlanView)> {
    match color_attributes_of(n) {
        None => None,
        Some(attributes) => match child_named(n, "cmyk"@) {
            None => None,
            Some(cmyk) => match cmyk_method_of(cmyk) {
                None => None,
                Some(method) => {
                    let spot = child_named(n, "spotcolors"@);
                    match method {
                        CmykMethod::Custom => Some(
                            (Stage::Direct, direct_plan(attributes, ColorSourceView::OwnCmyk, spot)),
                        ),
                        CmykMethod::SpotColor => tint_step(attributes, spot, true),
                        CmykMethod::Rgb => match child_named(n, "rgb"@) {
                            None => None,
                            Some(rgb) => match rgb_of(rgb) {
                                None => None,
                                Some((rgb_method, channels)) => match rgb_method {
                                    RgbMethod::SpotColor => tint_step(attributes, spot, false),
                                    _ => Some(
                                        (
                                            Stage::Direct,
                                            direct_plan(
                                                attributes,
                                                ColorSourceView::Rgb(channels),
                                                spot,
                                            ),
                                        ),
                                    ),
                                },
                            },
                        },
                    }
                },
            },
        },
    }
}

/// The plans of the first `i` children of `<colors>` that are settled at
/// `stage`, in order.
pub open spec fn staged_upto(n: NodeView, i: int, stage: Stage) -> Seq<ColorPlanView>
    decreases i,
{
    if i <= 0 || i > n.children.len() {
        Seq::empty()
    } else {
        let before = staged_upto(n, i - 1, stage);
        match color_step(n.children[i - 1]) {
            Some((s, p)) => if s == stage {
                before.push(p)
            } else {
                before
            },
            None => before,
        }
    }
}

/// The plans of all the colors of a `<colors>` element, in the order in which
/// they are to be settled; a later plan with the priority of an earlier one
/// replaces it. `None` if the element is not called `colors`.
pub open spec fn colors_plan(n: NodeView) -> Option<Seq<ColorPlanView>> {
    if n.name == "colors"@ {
        let k = n.children.len() as int;
        Some(
            staged_upto(n, k, Stage::Direct) + staged_upto(n, k, Stage::CmykTint) + staged_upto(
                n,
                k,
                Stage::RgbTint,
            ),
        )
    } else {
        None
    }
}

fn make_direct_plan(attributes: ColorAttributes, source: ColorSource, spot: Option<&Node>) -> (r:
    ColorPlan)
    ensures
        r@ == direct_plan(
            attributes@,
            source@,
            match spot {
                Some(n) => Some(n@),
                None => None,
            },
        ),
{
    match spot {
        Some(s) => {
            if s.search_child_by_name("namedcolor").is_some() {
                let knockout = parse_knockout(s);
                ColorPlan { attributes, source, knockout, base_ink: true }
            } else {
                ColorPlan { attributes, source, knockout: false, base_ink: false }
            }
        },
        None => ColorPlan { attributes, source, knockout: false, base_ink: false },
    }
}

fn make_tint_step(attributes: ColorAttributes, spot: Option<&Node>, in_cmyk: bool) -> (r: Option<
    (Stage, ColorPlan),
>)
    ensures
        r matches Some(x) ==> tint_step(
            attributes@,
            match spot {
                Some(n) => Some(n@),
                None => None,
            },
            in_cmyk,
        ) == Some((x.0, x.1@)),
        r is None ==> tint_step(
            attributes@,
            match spot {
                Some(n) => Some(n@),
                None => None,
            },
            in_cmyk,
        ) is None,
{
    match spot {
        None => None,
        Some(s) => {
            let knockout = parse_knockout(s);
            match parse_spotcolor_definition(s) {
                None => None,
                Some(cs) => if in_cmyk {
                    Some(
                        (
                            Stage::CmykTint,
                            ColorPlan {
                                attributes,
                                source: ColorSource::CmykSpotColors(cs),
                                knockout,
                                base_ink: false,
                            },
                        ),
                    )
                } else {
                    Some(
                        (
                            Stage::RgbTint,
                            ColorPlan {
                                attributes,
                                source: ColorSource::RgbSpotColors(cs),
                                knockout,
                                base_ink: false,
                            },
                        ),
                    )
                },
            }
        },
    }
}

/// What becomes of one child of `<colors>` (see `color_step`).
fn color_step_of(child: &Node) -> (r: Option<(Stage, ColorPlan)>)
    ensures
        r matches Some(x) ==> color_step(child@) == Some((x.0, x.1@)),
        r is None ==> color_step(child@) is None,
{
    let attributes = match parse_color_attributes(child) {
        Some(a) => a,
        None => {
            return None;
        },
    };
    let cmyk_node = match child.search_child_by_name("cmyk") {
        Some(c) => c,
        None => {
            return None;
        },
    };
    let method = match parse_cmyk(cmyk_node) {
        Some(m) => m,
        None => {
            return None;
        },
    };
    let spot = child.search_child_by_name("spotcolors");
    match method {
        CmykMethod::Custom => Some((Stage::Direct, make_direct_plan(attributes, ColorSource::OwnCmyk, spot))),
        CmykMethod::SpotColor => make_tint_step(attributes, spot, true),
        CmykMethod::Rgb => {
            let rgb_node = match child.search_child_by_name("rgb") {
                Some(n) => n,
                None => {
                    return None;
                },
            };
            let (rgb_method, channels) = match parse_rgb(rgb_node) {
                Some(x) => x,
                None => {
                    return None;
                },
            };
            match rgb_method {
                RgbMethod::SpotColor => make_tint_step(attributes, spot, false),
                _ => Some(
                    (Stage::Direct, make_direct_plan(attributes, ColorSource::Rgb(channels), spot)),
                ),
            }
        },
    }
}

/// The plans of all the colors of a `<colors>` element, in the order in which
/// they are to be settled (see `colors_plan`).
pub fn color_plans(a_colors_node: &Node) -> (r: Option<Vec<ColorPlan>>)
    ensures
        r matches Some(v) ==> colors_plan(a_colors_node@) == Some(plans_view(v@)),
        r is None ==> colors_plan(a_colors_node@) is None,
{
    if !string_is(&a_colors_node.name, "colors") {
        return None;
    }
    proof {
        lemma_view_children(*a_colors_node);
    }
    let ghost n = a_colors_node@;
    let mut direct: Vec<ColorPlan> = Vec::new();
    let mut cmyk_tints: Vec<ColorPlan> = Vec::new();
    let mut rgb_tints: Vec<ColorPlan> = Vec::new();
    for i in 0..a_colors_node.children.len()
        invariant
            n == a_colors_node@,
            n.children.len() == a_colors_node.children@.len(),
            forall|j: int|
                0 <= j < a_colors_node.children@.len() ==> #[trigger] n.children[j]
                    == a_colors_node.children@[j]@,
            plans_view(direct@) == staged_upto(n, i as int, Stage::Direct),
            plans_view(cmyk_tints@) == staged_upto(n, i as int, Stage::CmykTint),
            plans_view(rgb_tints@) == staged_upto(n, i as int, Stage::RgbTint),
    {
        let child = &a_colors_node.children[i];
        assert(n.children[i as int] == child@);
        let ghost d0 = plans_view(direct@);
        let ghost c0 = plans_view(cmyk_tints@);
        let ghost r0 = plans_view(rgb_tints@);
        match color_step_of(child) {
            Some((Stage::Direct, p)) => {
                direct.push(p);
                assert(plans_view(direct@) =~= d0.push(p@));
            },
            Some((Stage::CmykTint, p)) => {
                cmyk_tints.push(p);
                assert(plans_view(cmyk_tints@) =~= c0.push(p@));
            },
            Some((Stage::RgbTint, p)) => {
                rgb_tints.push(p);
                assert(plans_view(rgb_tints@) =~= r0.push(p@));
            },
            None => {},
        }
    }
    let ghost d = plans_view(direct@);
    let ghost c = plans_view(cmyk_tints@);
    let ghost r = plans_view(rgb_tints@);
    direct.append(&mut cmyk_tints);
    direct.append(&mut rgb_tints);
    assert(plans_view(direct@) =~= d + c + r);
    Some(direct)
}

// ---------------------------------------------------------------------------
// Laws
// ---------------------------------------------------------------------------

/// The stage at which a plan with this source is settled: colors given
/// directly, then tints composed in CMYK space, then tints composed in RGB
/// space.
pub open spec fn source_rank(s: ColorSourceView) -> int {
    match s {
        ColorSourceView::OwnCmyk => 0,
        ColorSourceView::Rgb(_) => 0,
        ColorSourceView::CmykSpotColors(_) => 1,
        ColorSourceView::RgbSpotColors(_) => 2,
    }
}

pub open spec fn stage_rank(s: Stage) -> int {
    match s {
        Stage::Direct => 0,
        Stage::CmykTint => 1,
        Stage::RgbTint => 2,
    }
}

proof fn lemma_color_step_rank(n: NodeView)
    requires
        color_step(n) is Some,
    ensures
        source_rank((color_step(n)->0).1.source) == stage_rank((color_step(n)->0).0),
        (color_step(n)->0).1.base_ink ==> (color_step(n)->0).0 == Stage::Direct,
{
}

proof fn lemma_staged_rank(n: NodeView, i: int, stage: Stage)
    ensures
        forall|j: int|
            0 <= j < staged_upto(n, i, stage).len() ==> source_rank(
                (#[trigger] staged_upto(n, i, stage)[j]).source,
            ) == stage_rank(stage) && (staged_upto(n, i, stage)[j].base_ink ==> stage == Stage::Direct),
    decreases i,
{
    if 0 < i <= n.children.len() {
        lemma_staged_rank(n, i - 1, stage);
        if color_step(n.children[i - 1]) is Some {
            lemma_color_step_rank(n.children[i - 1]);
        }
        let before = staged_upto(n, i - 1, stage);
        let after = staged_upto(n, i, stage);
        assert forall|j: int| 0 <= j < after.len() implies source_rank((#[trigger] after[j]).source)
            == stage_rank(stage) && (after[j].base_ink ==> stage == Stage::Direct) by {
            if j < before.len() {
                assert(after[j] == before[j]);
            }
        }
    }
}

/// The colors are settled in stages: every color given directly (every base
/// ink among them) comes before every tint composed in CMYK space, and those
/// before every tint composed in RGB space. So each tint is composed once
/// all that it can be composed from is known.
pub proof fn lemma_colors_settled_in_stages(n: NodeView)
    requires
        colors_plan(n) is Some,
    ensures
        forall|i: int, j: int|
            0 <= i < j < colors_plan(n)->0.len() ==> source_rank((#[trigger] colors_plan(n)->0[i]).source)
                <= source_rank((#[trigger] colors_plan(n)->0[j]).source),
        forall|i: int|
            0 <= i < colors_plan(n)->0.len() && (#[trigger] colors_plan(n)->0[i]).base_ink ==> source_rank(
                colors_plan(n)->0[i].source,
            ) == 0,
{
    let k = n.children.len() as int;
    let d = staged_upto(n, k, Stage::Direct);
    let c = staged_upto(n, k, Stage::CmykTint);
    let r = staged_upto(n, k, Stage::RgbTint);
    lemma_staged_rank(n, k, Stage::Direct);
    lemma_staged_rank(n, k, Stage::CmykTint);
    lemma_staged_rank(n, k, Stage::RgbTint);
    let ps = colors_plan(n)->0;
    assert(ps == d + c + r);
    assert forall|i: int| 0 <= i < ps.len() implies source_rank((#[trigger] ps[i]).source) == if i
        < d.len() {
        0int
    } else if i < d.len() + c.len() {
        1int
    } else {
        2int
    } && (ps[i].base_ink ==> i < d.len()) by {
        if i < d.len() {
            assert(ps[i] == d[i]);
        } else if i < d.len() + c.len() {
            assert(ps[i] == c[i - d.len()]);
        } else {
            assert(ps[i] == r[i - d.len() - c.len()]);
        }
    }
}

/// Whether the color of `<color>` element `m`, settled directly (`direct`)
/// or as a tint, knocks out what lies under it: the `knockout` of its
/// `<spotcolors>` element, which a color given directly has only when that
/// element names a `<namedcolor>` (a base ink); without `<spotcolors>`, none.
pub open spec fn knockout_expected(m: NodeView, direct: bool) -> bool {
    match child_named(m, "spotcolors"@) {
        Some(s) => (!direct || child_named(s, "namedcolor"@) is Some) && knockout_of(s),
        None => false,
    }
}

/// The knockout of the plan of one `<color>` element: a tint (in CMYK or RGB
/// space) and a base ink take the `knockout` of the color's `<spotcolors>`;
/// any other color given directly has none.
pub proof fn lemma_color_step_knockout(m: NodeView)
    ensures
        color_step(m) matches Some((st, p)) ==> p.knockout == knockout_expected(m, st == Stage::Direct),
        color_step(m) matches Some((st, p)) ==> (st == Stage::Direct <==> source_rank(p.source) == 0),
{
}

/// Whether plan `p` is the plan of one of the children of `n`, settled at
/// `stage`.
pub open spec fn plan_of_a_child(n: NodeView, stage: Stage, p: ColorPlanView) -> bool {
    exists|c: int| 0 <= c < n.children.len() && #[trigger] color_step(n.children[c]) == Some((stage, p))
}

/// Whether plan `p` is the plan of one of the children of `n` and knocks out
/// what lies under it exactly as that child says (see `knockout_expected`).
pub open spec fn knockout_as_its_child_says(n: NodeView, p: ColorPlanView) -> bool {
    exists|c: int|
        0 <= c < n.children.len() && (#[trigger] color_step(n.children[c]) matches Some((_, q)) && q == p)
            && p.knockout == knockout_expected(n.children[c], source_rank(p.source) == 0)
}

/// The plans of the first `i` children settled at `stage` each come from one
/// of those children.
proof fn lemma_staged_from_children(n: NodeView, i: int, stage: Stage)
    ensures
        forall|j: int|
            0 <= j < staged_upto(n, i, stage).len() ==> plan_of_a_child(
                n,
                stage,
                #[trigger] staged_upto(n, i, stage)[j],
            ),
    decreases i,
{
    if 0 < i <= n.children.len() {
        lemma_staged_from_children(n, i - 1, stage);
        let before = staged_upto(n, i - 1, stage);
        let after = staged_upto(n, i, stage);
        assert forall|j: int| 0 <= j < after.len() implies plan_of_a_child(n, stage, #[trigger] after[j]) by {
            if j < before.len() {
                assert(after[j] == before[j]);
                assert(plan_of_a_child(n, stage, before[j]));
            } else {
                assert(color_step(n.children[i - 1]) == Some((stage, after[j])));
            }
        }
    }
}

/// Every plan of a `<colors>` element comes from one of its `<color>`
/// children, and knocks out what lies under it exactly as that child says:
/// a tint or a base ink with the `knockout` of its `<spotcolors>`, any other
/// color given directly never.
pub proof fn lemma_plans_knockout(n: NodeView)
    requires
        colors_plan(n) is Some,
    ensures
        forall|i: int|
            0 <= i < colors_plan(n)->0.len() ==> knockout_as_its_child_says(n, #[trigger] colors_plan(n)->0[i]),
{
    let k = n.children.len() as int;
    let d = staged_upto(n, k, Stage::Direct);
    let t = staged_upto(n, k, Stage::CmykTint);
    let r = staged_upto(n, k, Stage::RgbTint);
    lemma_staged_from_children(n, k, Stage::Direct);
    lemma_staged_from_children(n, k, Stage::CmykTint);
    lemma_staged_from_children(n, k, Stage::RgbTint);
    let ps = colors_plan(n)->0;
    assert(ps == d + t + r);
    assert forall|i: int| 0 <= i < ps.len() implies knockout_as_its_child_says(n, #[trigger] ps[i]) by {
        let stage = if i < d.len() {
            Stage::Direct
        } else if i < d.len() + t.len() {
            Stage::CmykTint
        } else {
            Stage::RgbTint
        };
        if i < d.len() {
            assert(ps[i] == d[i]);
            assert(plan_of_a_child(n, stage, d[i]));
        } else if i < d.len() + t.len() {
            assert(ps[i] == t[i - d.len()]);
            assert(plan_of_a_child(n, stage, t[i - d.len()]));
        } else {
            assert(ps[i] == r[i - d.len() - t.len()]);
            assert(plan_of_a_child(n, stage, r[i - d.len() - t.len()]));
        }
        let c = choose|c: int|
            0 <= c < n.children.len() && #[trigger] color_step(n.children[c]) == Some((stage, ps[i]));
        lemma_color_step_knockout(n.children[c]);
    }
}

} // verus!
