//! From the bytes of a file to the events that the trees are built from:
//! `quick_xml` reads the bytes (white space around text trimmed), and the
//! names, attributes and texts it hands out are decoded here, with markers in
//! place of what is not UTF-8.

use vstd::prelude::*;
use quick_xml::events::Event::{Empty, End, Eof, Start, Text};
use quick_xml::Error::IllFormed;
use quick_xml::Reader;
use crate::map_file::reading::{
    events_view, read_tree, reads_within_depth, root_view, Node, NodeBuilder, XmlEvent, XmlEventView,
};

verus! {

/// One event as the XML reader hands it out, its bytes not yet decoded.
/// The attributes of start and empty-element tags come separately (see
/// `read_xml_tag_attributes`).
pub enum RawXmlEvent {
    /// A start tag and its name.
    Start(Vec<u8>),
    /// An empty-element tag and its name.
    Empty(Vec<u8>),
    /// Text between tags, still escaped.
    Text(Vec<u8>),
    /// An end tag and its name.
    End(Vec<u8>),
    /// A comment, a CDATA section, a declaration, a processing instruction or
    /// a document type.
    Other,
    /// The end of the file; the reader gives nothing after it.
    Eof,
    /// The reader failed. With `true` the document is ill-formed (an end
    /// tag that closes another element than the one open, say) and the reader
    /// goes on after it; with `false` it gives nothing after it.
    Error(bool),
}

pub enum RawXmlEventView {
    Start(Seq<u8>),
    Empty(Seq<u8>),
    Text(Seq<u8>),
    End(Seq<u8>),
    Other,
    Eof,
    Error(bool),
}

impl View for RawXmlEvent {
    type V = RawXmlEventView;

    open spec fn view(&self) -> RawXmlEventView {
        match self {
            RawXmlEvent::Start(n) => RawXmlEventView::Start(n@),
            RawXmlEvent::Empty(n) => RawXmlEventView::Empty(n@),
            RawXmlEvent::Text(t) => RawXmlEventView::Text(t@),
            RawXmlEvent::End(n) => RawXmlEventView::End(n@),
            RawXmlEvent::Other => RawXmlEventView::Other,
            RawXmlEvent::Eof => RawXmlEventView::Eof,
            RawXmlEvent::Error(g) => RawXmlEventView::Error(*g),
        }
    }
}

pub open spec fn raw_events_view(v: Seq<RawXmlEvent>) -> Seq<RawXmlEventView> {
    v.map_values(|e: RawXmlEvent| e@)
}

/// The attributes of one tag as the reader hands them out: each as its key
/// and its value, or `None` where the reader could not read it.
pub open spec fn raw_attributes_view(a: Seq<Option<(Vec<u8>, Vec<u8>)>>) -> Seq<
    Option<(Seq<u8>, Seq<u8>)>,
> {
    a.map_values(
        |x: Option<(Vec<u8>, Vec<u8>)>|
            match x {
                Some(kv) => Some((kv.0@, kv.1@)),
                None => None,
            },
    )
}

pub open spec fn raw_attribute_lists_view(v: Seq<Vec<Option<(Vec<u8>, Vec<u8>)>>>) -> Seq<
    Seq<Option<(Seq<u8>, Seq<u8>)>>,
> {
    v.map_values(|a: Vec<Option<(Vec<u8>, Vec<u8>)>>| raw_attributes_view(a@))
}

/// The events that `quick_xml` reads from `bytes`, with white space around
/// text trimmed, up to and with the end of the file or the first failure the
/// reader does not go on from; a failure on an ill-formed document (an end
/// tag that closes another element than the one open, say) is followed by
/// the events after it.
pub uninterp spec fn xml_events(bytes: Seq<u8>) -> Seq<RawXmlEventView>;

/// The attributes of each start or empty-element tag that `quick_xml` reads
/// from `bytes`, one list per tag, in order.
pub uninterp spec fn xml_tag_attributes(bytes: Seq<u8>) -> Seq<Seq<Option<(Seq<u8>, Seq<u8>)>>>;

/// The text that `bytes` encode in UTF-8, if they are valid UTF-8.
pub uninterp spec fn utf8_decoded(bytes: Seq<u8>) -> Option<Seq<char>>;

/// The text with its XML escapes (`&amp;` and the like) replaced, if they
/// are all well formed.
pub uninterp spec fn xml_unescaped(text: Seq<char>) -> Option<Seq<char>>;

/// Runs `quick_xml::Reader` (over a byte slice, `trim_text(true)`) with
/// `read_event` and hands out each event, until it gives `Eof` or an error
/// other than `Error::IllFormed`. After an ill-formed error the reader has
/// already passed over the faulty markup and reading goes on; after `Eof` or
/// another error it is done and gives only `Eof`.
///
/// Claimed: the list is `xml_events` of the bytes. What the reader makes of
/// the bytes is named, not stated.
#[verifier::external_body]
fn read_xml_events(bytes: &[u8]) -> (r: Vec<RawXmlEvent>)
    ensures
        raw_events_view(r@) == xml_events(bytes@),
{
    let mut reader = Reader::from_reader(bytes);
    reader.config_mut().trim_text(true);
    let mut events = vec![];
    while !matches!(events.last(), Some(RawXmlEvent::Eof | RawXmlEvent::Error(false))) {
        events.push(match reader.read_event() {
            Ok(Start(e)) => RawXmlEvent::Start(e.name().0.to_vec()),
            Ok(Empty(e)) => RawXmlEvent::Empty(e.name().0.to_vec()),
            Ok(Text(e)) => RawXmlEvent::Text(e.to_vec()),
            Ok(End(e)) => RawXmlEvent::End(e.to_vec()),
            Ok(Eof) => RawXmlEvent::Eof,
            Ok(_) => RawXmlEvent::Other,
            Err(e) => RawXmlEvent::Error(matches!(e, IllFormed(_))),
        });
    }
    events
}

/// Runs `quick_xml::Reader` over the bytes with `read_event`, as
/// `read_xml_events` does (going on after an `Error::IllFormed`), and hands
/// out, for each start or empty-element tag, what
/// `BytesStart::attributes` gives: each attribute's key and value, or `None`
/// where it is malformed.
///
/// Claimed: the lists are `xml_tag_attributes` of the bytes. What the reader
/// makes of the bytes is named, not stated; nor is it stated that these are
/// the tags of `xml_events`, in the same order and number (trimming text
/// changes no tag): a tag without a list here is read with no attributes.
#[verifier::external_body]
fn read_xml_tag_attributes(bytes: &[u8]) -> (r: Vec<Vec<Option<(Vec<u8>, Vec<u8>)>>>)
    ensures
        raw_attribute_lists_view(r@) == xml_tag_attributes(bytes@),
{
    let mut reader = Reader::from_reader(bytes);
    let mut lists = Vec::new();
    loop {
        match reader.read_event() {
            Ok(Start(e) | Empty(e)) => lists.push(e.attributes().map(|a| a.ok().map(|a| (a.key.0.to_vec(), a.value.to_vec()))).collect()),
            Ok(Eof) => return lists,
            Ok(_) | Err(IllFormed(_)) => {},
            Err(_) => return lists,
        }
    }
}

/// `std::str::from_utf8`: the text, or `None` where the bytes are not valid
/// UTF-8. Claimed: the result is `utf8_decoded` of the bytes.
#[verifier::external_body]
fn utf8_text(bytes: &[u8]) -> (r: Option<String>)
    ensures
        r matches Some(s) ==> utf8_decoded(bytes@) == Some(s@),
        r is None ==> utf8_decoded(bytes@) is None,
{
    match std::str::from_utf8(bytes) {
        Ok(s) => Some(s.to_string()),
        Err(_) => None,
    }
}

/// `quick_xml::escape::unescape`: the text with its predefined entities and
/// character references replaced, or `None` where one is malformed or
/// unknown. Claimed: the result is `xml_unescaped` of the text.
#[verifier::external_body]
fn unescape_xml(text: &str) -> (r: Option<String>)
    ensures
        r matches Some(s) ==> xml_unescaped(text@) == Some(s@),
        r is None ==> xml_unescaped(text@) is None,
{
    match quick_xml::escape::unescape(text) {
        Ok(s) => Some(s.into_owned()),
        Err(_) => None,
    }
}

// ---------------------------------------------------------------------------
// Decoding, with markers for what is not UTF-8
// ---------------------------------------------------------------------------

/// A name or an attribute: its text, or the marker `Non UTF8 Name`.
pub open spec fn decoded_name(b: Seq<u8>) -> Seq<char> {
    match utf8_decoded(b) {
        Some(s) => s,
        None => "Non UTF8 Name"@,
    }
}

/// The attributes that were read, decoded; those the reader could not read
/// are passed over.
pub open spec fn decoded_attributes(a: Seq<Option<(Seq<u8>, Seq<u8>)>>) -> Seq<(Seq<char>, Seq<char>)>
    decreases a.len(),
{
    if a.len() == 0 {
        Seq::empty()
    } else {
        decoded_attributes(a.drop_last()) + match a.last() {
            Some(kv) => seq![(decoded_name(kv.0), decoded_name(kv.1))],
            None => Seq::empty(),
        }
    }
}

/// The text of a text event: decoded and unescaped; where it decodes but
/// does not unescape, the text as it stands; where it does not decode, the
/// marker `Non UTF8 Text`.
pub open spec fn decoded_text(b: Seq<u8>) -> Seq<char> {
    match utf8_decoded(b) {
        None => "Non UTF8 Text"@,
        Some(s) => match xml_unescaped(s) {
            Some(u) => u,
            None => s,
        },
    }
}

/// The attributes of the next tag, from the lists still unused.
pub open spec fn next_tag_attributes(lists: Seq<Seq<Option<(Seq<u8>, Seq<u8>)>>>) -> Seq<
    Option<(Seq<u8>, Seq<u8>)>,
> {
    if lists.len() > 0 {
        lists[0]
    } else {
        Seq::empty()
    }
}

/// The lists still unused once the next tag has taken its own.
pub open spec fn after_tag(lists: Seq<Seq<Option<(Seq<u8>, Seq<u8>)>>>) -> Seq<
    Seq<Option<(Seq<u8>, Seq<u8>)>>,
> {
    if lists.len() > 0 {
        lists.drop_first()
    } else {
        lists
    }
}

/// The events the tree takes from raw events, in order, each tag with the
/// next list of attributes; the other events (comments and the like) are
/// passed over.
pub open spec fn decoded_events(
    raws: Seq<RawXmlEventView>,
    lists: Seq<Seq<Option<(Seq<u8>, Seq<u8>)>>>,
) -> Seq<XmlEventView>
    decreases raws.len(),
{
    if raws.len() == 0 {
        Seq::empty()
    } else {
        let rest = raws.drop_first();
        match raws[0] {
            RawXmlEventView::Start(name) => seq![
                XmlEventView::Start {
                    name: decoded_name(name),
                    attributes: decoded_attributes(next_tag_attributes(lists)),
                },
            ] + decoded_events(rest, after_tag(lists)),
            RawXmlEventView::Empty(name) => seq![
                XmlEventView::Empty {
                    name: decoded_name(name),
                    attributes: decoded_attributes(next_tag_attributes(lists)),
                },
            ] + decoded_events(rest, after_tag(lists)),
            RawXmlEventView::Text(t) => seq![XmlEventView::Text(decoded_text(t))] + decoded_events(rest, lists),
            RawXmlEventView::End(n) => seq![XmlEventView::End(decoded_name(n))] + decoded_events(rest, lists),
            RawXmlEventView::Other => decoded_events(rest, lists),
            RawXmlEventView::Eof => seq![XmlEventView::Eof] + decoded_events(rest, lists),
            RawXmlEventView::Error(_) => seq![XmlEventView::Error] + decoded_events(rest, lists),
        }
    }
}

/// The events the tree of a map takes from the bytes of its file.
pub open spec fn map_events(bytes: Seq<u8>) -> Seq<XmlEventView> {
    decoded_events(xml_events(bytes), xml_tag_attributes(bytes))
}

fn decode_name(b: &Vec<u8>) -> (r: String)
    ensures
        r@ == decoded_name(b@),
{
    match utf8_text(b.as_slice()) {
        Some(s) => s,
        None => String::from_str("Non UTF8 Name"),
    }
}

fn decode_attributes(a: &Vec<Option<(Vec<u8>, Vec<u8>)>>) -> (r: Vec<(String, String)>)
    ensures
        crate::map_file::reading::attributes_view(r@) == decoded_attributes(raw_attributes_view(a@)),
{
    let ghost all = raw_attributes_view(a@);
    let mut r: Vec<(String, String)> = Vec::new();
    for i in 0..a.len()
        invariant
            all == raw_attributes_view(a@),
            crate::map_file::reading::attributes_view(r@) == decoded_attributes(all.take(i as int)),
    {
        let ghost before = crate::map_file::reading::attributes_view(r@);
        assert(all.take(i + 1).drop_last() =~= all.take(i as int));
        match &a[i] {
            Some(kv) => {
                let key = decode_name(&kv.0);
                let value = decode_name(&kv.1);
                r.push((key, value));
                assert(crate::map_file::reading::attributes_view(r@) =~= before.push((key@, value@)));
            },
            None => {},
        }
        assert(crate::map_file::reading::attributes_view(r@) =~= decoded_attributes(all.take(i + 1)));
    }
    assert(all.take(a.len() as int) =~= all);
    r
}

fn decode_text(b: &Vec<u8>) -> (r: String)
    ensures
        r@ == decoded_text(b@),
{
    match utf8_text(b.as_slice()) {
        None => String::from_str("Non UTF8 Text"),
        Some(s) => match unescape_xml(s.as_str()) {
            Some(u) => u,
            None => s,
        },
    }
}

/// The events the tree takes from raw events and the attribute lists of
/// their tags (see `decoded_events`).
pub fn decode_events(
    raws: &Vec<RawXmlEvent>,
    lists: &Vec<Vec<Option<(Vec<u8>, Vec<u8>)>>>,
) -> (r: Vec<XmlEvent>)
    ensures
        events_view(r@) == decoded_events(raw_events_view(raws@), raw_attribute_lists_view(lists@)),
{
    let ghost all = raw_events_view(raws@);
    let ghost ls = raw_attribute_lists_view(lists@);
    let mut r: Vec<XmlEvent> = Vec::new();
    let mut t: usize = 0;
    assert(all.skip(0) =~= all);
    assert(ls.skip(0) =~= ls);
    for i in 0..raws.len()
        invariant
            all == raw_events_view(raws@),
            ls == raw_attribute_lists_view(lists@),
            t <= lists.len(),
            events_view(r@) + decoded_events(all.skip(i as int), ls.skip(t as int)) == decoded_events(all, ls),
    {
        let ghost before = events_view(r@);
        let ghost here = all.skip(i as int);
        let ghost lh = ls.skip(t as int);
        assert(here[0] == raws@[i as int]@);
        assert(here.drop_first() =~= all.skip(i + 1));
        if t < lists.len() {
            assert(next_tag_attributes(lh) == raw_attributes_view(lists@[t as int]@));
            assert(after_tag(lh) =~= ls.skip(t + 1));
        } else {
            assert(next_tag_attributes(lh) =~= Seq::<Option<(Seq<u8>, Seq<u8>)>>::empty());
        }
        let ev = match &raws[i] {
            RawXmlEvent::Start(name) => {
                let attributes = if t < lists.len() {
                    decode_attributes(&lists[t])
                } else {
                    Vec::new()
                };
                assert(crate::map_file::reading::attributes_view(attributes@) =~= decoded_attributes(next_tag_attributes(lh)));
                if t < lists.len() {
                    t = t + 1;
                }
                Some(XmlEvent::Start { name: decode_name(name), attributes })
            },
            RawXmlEvent::Empty(name) => {
                let attributes = if t < lists.len() {
                    decode_attributes(&lists[t])
                } else {
                    Vec::new()
                };
                assert(crate::map_file::reading::attributes_view(attributes@) =~= decoded_attributes(next_tag_attributes(lh)));
                if t < lists.len() {
                    t = t + 1;
                }
                Some(XmlEvent::Empty { name: decode_name(name), attributes })
            },
            RawXmlEvent::Text(text) => Some(XmlEvent::Text(decode_text(text))),
            RawXmlEvent::End(name) => Some(XmlEvent::End(decode_name(name))),
            RawXmlEvent::Other => None,
            RawXmlEvent::Eof => Some(XmlEvent::Eof),
            RawXmlEvent::Error(_) => Some(XmlEvent::Error),
        };
        match ev {
            Some(e) => {
                let ghost ev_view = e@;
                r.push(e);
                assert(events_view(r@) =~= before.push(ev_view));
                assert(before.push(ev_view) + decoded_events(all.skip(i + 1), ls.skip(t as int)) =~= before + (
                seq![ev_view] + decoded_events(all.skip(i + 1), ls.skip(t as int))));
            },
            None => {},
        }
    }
    assert(all.skip(raws.len() as int) =~= Seq::<RawXmlEventView>::empty());
    assert(events_view(r@) + Seq::<XmlEventView>::empty() =~= events_view(r@));
    r
}

/// The events the tree of a map takes from the bytes of its file (see
/// `map_events`).
pub fn map_events_of(bytes: &[u8]) -> (r: Vec<XmlEvent>)
    ensures
        events_view(r@) == map_events(bytes@),
{
    let raws = read_xml_events(bytes);
    let lists = read_xml_tag_attributes(bytes);
    decode_events(&raws, &lists)
}

// ---------------------------------------------------------------------------
// Strict decoding, for the plain tree of objects
// ---------------------------------------------------------------------------

/// The attributes of a tag, each read and each key and value UTF-8; `None`
/// otherwise.
pub open spec fn strict_attributes(a: Seq<Option<(Seq<u8>, Seq<u8>)>>) -> Option<Seq<(Seq<char>, Seq<char>)>>
    decreases a.len(),
{
    if a.len() == 0 {
        Some(Seq::empty())
    } else {
        match strict_attributes(a.drop_last()) {
            Some(prev) => match a.last() {
                Some(kv) => match (utf8_decoded(kv.0), utf8_decoded(kv.1)) {
                    (Some(k), Some(v)) => Some(prev.push((k, v))),
                    _ => None,
                },
                None => None,
            },
            None => None,
        }
    }
}

/// A start tag, its name and attributes UTF-8; `None` otherwise.
pub open spec fn strict_start(name: Seq<u8>, attrs: Seq<Option<(Seq<u8>, Seq<u8>)>>) -> Option<XmlEventView> {
    match (utf8_decoded(name), strict_attributes(attrs)) {
        (Some(n), Some(a)) => Some(XmlEventView::Start { name: n, attributes: a }),
        _ => None,
    }
}

/// A text, decoded and unescaped; `None` where either fails.
pub open spec fn strict_text(b: Seq<u8>) -> Option<Seq<char>> {
    match utf8_decoded(b) {
        Some(s) => xml_unescaped(s),
        None => None,
    }
}

/// The events after the root as the plain tree takes them: what does not
/// decode strictly becomes a failure; empty-element tags and comments and the
/// like are passed over.
pub open spec fn strict_rest(
    raws: Seq<RawXmlEventView>,
    lists: Seq<Seq<Option<(Seq<u8>, Seq<u8>)>>>,
) -> Seq<XmlEventView>
    decreases raws.len(),
{
    if raws.len() == 0 {
        Seq::empty()
    } else {
        let rest = raws.drop_first();
        match raws[0] {
            RawXmlEventView::Start(name) => seq![
                match strict_start(name, next_tag_attributes(lists)) {
                    Some(e) => e,
                    None => XmlEventView::Error,
                },
            ] + strict_rest(rest, after_tag(lists)),
            RawXmlEventView::Empty(_) => strict_rest(rest, after_tag(lists)),
            RawXmlEventView::Text(t) => seq![
                match strict_text(t) {
                    Some(u) => XmlEventView::Text(u),
                    None => XmlEventView::Error,
                },
            ] + strict_rest(rest, lists),
            RawXmlEventView::End(n) => seq![
                match utf8_decoded(n) {
                    Some(u) => XmlEventView::End(u),
                    None => XmlEventView::Error,
                },
            ] + strict_rest(rest, lists),
            RawXmlEventView::Other => strict_rest(rest, lists),
            RawXmlEventView::Eof => seq![XmlEventView::Eof] + strict_rest(rest, lists),
            RawXmlEventView::Error(_) => seq![XmlEventView::Error] + strict_rest(rest, lists),
        }
    }
}

/// The events the plain tree of objects takes: everything before the first
/// start tag is passed over, that tag (which must decode strictly) comes
/// first, then the events after it (see `strict_rest`). `None` where the file
/// ends or fails before a start tag, or that tag does not decode.
pub open spec fn object_events(
    raws: Seq<RawXmlEventView>,
    lists: Seq<Seq<Option<(Seq<u8>, Seq<u8>)>>>,
) -> Option<Seq<XmlEventView>>
    decreases raws.len(),
{
    if raws.len() == 0 {
        None
    } else {
        let rest = raws.drop_first();
        match raws[0] {
            RawXmlEventView::Start(name) => match strict_start(name, next_tag_attributes(lists)) {
                Some(e) => Some(seq![e] + strict_rest(rest, after_tag(lists))),
                None => None,
            },
            RawXmlEventView::Empty(_) => object_events(rest, after_tag(lists)),
            RawXmlEventView::Eof => None,
            RawXmlEventView::Error(_) => None,
            _ => object_events(rest, lists),
        }
    }
}

/// The events the plain tree of objects takes from the bytes of a file.
pub open spec fn object_events_of_bytes(bytes: Seq<u8>) -> Option<Seq<XmlEventView>> {
    object_events(xml_events(bytes), xml_tag_attributes(bytes))
}

fn strict_attributes_of(a: &Vec<Option<(Vec<u8>, Vec<u8>)>>) -> (r: Option<Vec<(String, String)>>)
    ensures
        r matches Some(v) ==> strict_attributes(raw_attributes_view(a@)) == Some(
            crate::map_file::reading::attributes_view(v@),
        ),
        r is None ==> strict_attributes(raw_attributes_view(a@)) is None,
{
    let ghost all = raw_attributes_view(a@);
    let mut r: Vec<(String, String)> = Vec::new();
    for i in 0..a.len()
        invariant
            all == raw_attributes_view(a@),
            strict_attributes(all.take(i as int)) == Some(crate::map_file::reading::attributes_view(r@)),
    {
        let ghost before = crate::map_file::reading::attributes_view(r@);
        assert(all.take(i + 1).drop_last() =~= all.take(i as int));
        match &a[i] {
            Some(kv) => {
                match (utf8_text(kv.0.as_slice()), utf8_text(kv.1.as_slice())) {
                    (Some(k), Some(v)) => {
                        r.push((k, v));
                        assert(crate::map_file::reading::attributes_view(r@) =~= before.push((k@, v@)));
                    },
                    _ => {
                        proof {
                            lemma_strict_attributes_none(all, i as int + 1);
                        }
                        assert(all.take(a.len() as int) =~= all);
                        return None;
                    },
                }
            },
            None => {
                proof {
                    lemma_strict_attributes_none(all, i as int + 1);
                }
                assert(all.take(a.len() as int) =~= all);
                return None;
            },
        }
    }
    assert(all.take(a.len() as int) =~= all);
    Some(r)
}

/// Once a prefix of the attributes fails to decode strictly, so does every
/// longer prefix.
proof fn lemma_strict_attributes_none(a: Seq<Option<(Seq<u8>, Seq<u8>)>>, i: int)
    requires
        0 <= i <= a.len(),
        strict_attributes(a.take(i)) is None,
    ensures
        strict_attributes(a) is None,
    decreases a.len() - i,
{
    if i < a.len() {
        assert(a.take(i + 1).drop_last() =~= a.take(i));
        lemma_strict_attributes_none(a, i + 1);
    } else {
        assert(a.take(i) =~= a);
    }
}

fn strict_start_of(name: &Vec<u8>, attrs: Option<&Vec<Option<(Vec<u8>, Vec<u8>)>>>) -> (r: Option<XmlEvent>)
    ensures
        ({
            let av = match attrs {
                Some(a) => raw_attributes_view(a@),
                None => Seq::empty(),
            };
            &&& r matches Some(e) ==> strict_start(name@, av) == Some(e@)
            &&& r is None ==> strict_start(name@, av) is None
        }),
{
    let attributes = match attrs {
        Some(a) => strict_attributes_of(a),
        None => {
            assert(strict_attributes(Seq::<Option<(Seq<u8>, Seq<u8>)>>::empty()) == Some(
                Seq::<(Seq<char>, Seq<char>)>::empty(),
            ));
            let v: Vec<(String, String)> = Vec::new();
            assert(crate::map_file::reading::attributes_view(v@) =~= Seq::<(Seq<char>, Seq<char>)>::empty());
            Some(v)
        },
    };
    match (utf8_text(name.as_slice()), attributes) {
        (Some(n), Some(a)) => Some(XmlEvent::Start { name: n, attributes: a }),
        _ => None,
    }
}

fn strict_text_of(b: &Vec<u8>) -> (r: Option<String>)
    ensures
        r matches Some(s) ==> strict_text(b@) == Some(s@),
        r is None ==> strict_text(b@) is None,
{
    match utf8_text(b.as_slice()) {
        Some(s) => unescape_xml(s.as_str()),
        None => None,
    }
}

/// The events after the root (see `strict_rest`), from the `from`-th raw
/// event and the `t`-th list of attributes on.
fn strict_rest_of(
    raws: &Vec<RawXmlEvent>,
    lists: &Vec<Vec<Option<(Vec<u8>, Vec<u8>)>>>,
    from: usize,
    t0: usize,
) -> (r: Vec<XmlEvent>)
    requires
        from <= raws.len(),
        t0 <= lists.len(),
    ensures
        events_view(r@) == strict_rest(
            raw_events_view(raws@).skip(from as int),
            raw_attribute_lists_view(lists@).skip(t0 as int),
        ),
{
    let ghost all = raw_events_view(raws@);
    let ghost ls = raw_attribute_lists_view(lists@);
    let ghost goal = strict_rest(all.skip(from as int), ls.skip(t0 as int));
    let mut r: Vec<XmlEvent> = Vec::new();
    let mut t: usize = t0;
    let mut i: usize = from;
    assert(events_view(r@) + goal =~= goal);
    while i < raws.len()
        invariant
            all == raw_events_view(raws@),
            ls == raw_attribute_lists_view(lists@),
            from <= i <= raws.len(),
            t <= lists.len(),
            goal == strict_rest(all.skip(from as int), ls.skip(t0 as int)),
            events_view(r@) + strict_rest(all.skip(i as int), ls.skip(t as int)) == goal,
        decreases raws.len() - i,
    {
        let ghost before = events_view(r@);
        let ghost here = all.skip(i as int);
        let ghost lh = ls.skip(t as int);
        assert(here[0] == raws@[i as int]@);
        assert(here.drop_first() =~= all.skip(i + 1));
        if t < lists.len() {
            assert(next_tag_attributes(lh) == raw_attributes_view(lists@[t as int]@));
            assert(after_tag(lh) =~= ls.skip(t + 1));
        }
        let ev = match &raws[i] {
            RawXmlEvent::Start(name) => {
                let e = if t < lists.len() {
                    strict_start_of(name, Some(&lists[t]))
                } else {
                    assert(next_tag_attributes(lh) =~= Seq::<Option<(Seq<u8>, Seq<u8>)>>::empty());
                    strict_start_of(name, None)
                };
                if t < lists.len() {
                    t = t + 1;
                }
                match e {
                    Some(e) => Some(e),
                    None => Some(XmlEvent::Error),
                }
            },
            RawXmlEvent::Empty(_) => {
                if t < lists.len() {
                    t = t + 1;
                }
                None
            },
            RawXmlEvent::Text(text) => match strict_text_of(text) {
                Some(u) => Some(XmlEvent::Text(u)),
                None => Some(XmlEvent::Error),
            },
            RawXmlEvent::End(name) => match utf8_text(name.as_slice()) {
                Some(u) => Some(XmlEvent::End(u)),
                None => Some(XmlEvent::Error),
            },
            RawXmlEvent::Other => None,
            RawXmlEvent::Eof => Some(XmlEvent::Eof),
            RawXmlEvent::Error(_) => Some(XmlEvent::Error),
        };
        match ev {
            Some(e) => {
                let ghost ev_view = e@;
                r.push(e);
                assert(events_view(r@) =~= before.push(ev_view));
                assert(before.push(ev_view) + strict_rest(all.skip(i + 1), ls.skip(t as int)) =~= before + (
                seq![ev_view] + strict_rest(all.skip(i + 1), ls.skip(t as int))));
            },
            None => {},
        }
        i = i + 1;
    }
    assert(all.skip(raws.len() as int) =~= Seq::<RawXmlEventView>::empty());
    assert(events_view(r@) + Seq::<XmlEventView>::empty() =~= events_view(r@));
    r
}

/// The events the plain tree of objects takes from the bytes of a file (see
/// `object_events_of_bytes`).
pub fn object_events_from_bytes(bytes: &[u8]) -> (r: Option<Vec<XmlEvent>>)
    ensures
        r matches Some(v) ==> object_events_of_bytes(bytes@) == Some(events_view(v@)),
        r is None ==> object_events_of_bytes(bytes@) is None,
{
    let raws = read_xml_events(bytes);
    let lists = read_xml_tag_attributes(bytes);
    let ghost all = raw_events_view(raws@);
    let ghost ls = raw_attribute_lists_view(lists@);
    let mut t: usize = 0;
    let mut i: usize = 0;
    assert(all.skip(0) =~= all);
    assert(ls.skip(0) =~= ls);
    while i < raws.len()
        invariant
            all == raw_events_view(raws@),
            ls == raw_attribute_lists_view(lists@),
            all == xml_events(bytes@),
            ls == xml_tag_attributes(bytes@),
            i <= raws.len(),
            t <= lists.len(),
            object_events(all.skip(i as int), ls.skip(t as int)) == object_events_of_bytes(bytes@),
        decreases raws.len() - i,
    {
        let ghost here = all.skip(i as int);
        let ghost lh = ls.skip(t as int);
        assert(here[0] == raws@[i as int]@);
        assert(here.drop_first() =~= all.skip(i + 1));
        if t < lists.len() {
            assert(next_tag_attributes(lh) == raw_attributes_view(lists@[t as int]@));
            assert(after_tag(lh) =~= ls.skip(t + 1));
        }
        match &raws[i] {
            RawXmlEvent::Start(name) => {
                let root = if t < lists.len() {
                    strict_start_of(name, Some(&lists[t]))
                } else {
                    assert(next_tag_attributes(lh) =~= Seq::<Option<(Seq<u8>, Seq<u8>)>>::empty());
                    strict_start_of(name, None)
                };
                let t2 = if t < lists.len() {
                    t + 1
                } else {
                    t
                };
                match root {
                    Some(root) => {
                        let ghost root_view = root@;
                        let rest = strict_rest_of(&raws, &lists, i + 1, t2);
                        let mut events: Vec<XmlEvent> = Vec::new();
                        events.push(root);
                        let mut rest = rest;
                        events.append(&mut rest);
                        assert(events_view(events@) =~= seq![root_view] + strict_rest(all.skip(i + 1), ls.skip(t2 as int)));
                        return Some(events);
                    },
                    None => {
                        return None;
                    },
                }
            },
            RawXmlEvent::Empty(_) => {
                if t < lists.len() {
                    t = t + 1;
                }
            },
            RawXmlEvent::Eof | RawXmlEvent::Error(_) => {
                return None;
            },
            _ => {},
        }
        i = i + 1;
    }
    assert(all.skip(raws.len() as int) =~= Seq::<RawXmlEventView>::empty());
    None
}

impl Node {
    /// The tree of the file at `file_path` from the file's bytes: the node
    /// `map_node` with the file's path, and under it what the XML reader finds.
    /// `None` where elements nest deeper than an `i16` counts.
    pub fn node_from_bytes(file_path: &str, bytes: &[u8]) -> (r: Option<Node>)
        ensures
            r matches Some(n) ==> reads_within_depth(seq![root_view(file_path@)], map_events(bytes@))
                && n@ == read_tree(seq![root_view(file_path@)], map_events(bytes@)),
            r is None ==> !reads_within_depth(seq![root_view(file_path@)], map_events(bytes@)),
    {
        let events = map_events_of(bytes);
        Node::try_node_from_events(file_path, events)
    }
}

} // verus!
