//! The tags of an XML document, one after the other.
use vstd::prelude::*;

use quick_xml::events::{BytesStart, Event};
use quick_xml::Reader;

verus! {

broadcast use vstd::seq_lib::group_seq_properties;

/// What stands at one place of a document.
#[derive(Clone, Copy, PartialEq, Eq, Structural, Debug)]
pub enum XmlKind {
    /// A tag that is closed later on.
    Start,
    /// A tag with nothing inside it.
    Empty,
    /// The end of a tag.
    End,
    /// Anything but a tag.
    Other,
}

/// One place of a document: the name of a tag and its attributes, key and value, `None` for one
/// that is malformed.
pub enum XmlEvent {
    Start(String, Vec<Option<(String, String)>>),
    Empty(String, Vec<Option<(String, String)>>),
    End(String),
    Other,
}

/// An attribute, as contracts speak of it.
pub open spec fn attribute_view(a: Option<(String, String)>) -> Option<(Seq<char>, Seq<char>)> {
    match a {
        Some((key, value)) => Some((key@, value@)),
        None => None,
    }
}

/// Attributes, malformed ones among them, as contracts speak of them.
pub open spec fn attribute_views(attrs: Seq<Option<(String, String)>>) -> Seq<
    Option<(Seq<char>, Seq<char>)>,
> {
    attrs.map_values(|a: Option<(String, String)>| attribute_view(a))
}

impl View for XmlEvent {
    type V = (XmlKind, Seq<char>, Seq<Option<(Seq<char>, Seq<char>)>>);

    open spec fn view(&self) -> (XmlKind, Seq<char>, Seq<Option<(Seq<char>, Seq<char>)>>) {
        match *self {
            XmlEvent::Start(tag, attrs) => (XmlKind::Start, tag@, attribute_views(attrs@)),
            XmlEvent::Empty(tag, attrs) => (XmlKind::Empty, tag@, attribute_views(attrs@)),
            XmlEvent::End(tag) => (XmlKind::End, tag@, Seq::empty()),
            XmlEvent::Other => (XmlKind::Other, Seq::empty(), Seq::empty()),
        }
    }
}

/// What is in a document, `None` where it is malformed.
pub uninterp spec fn xml_events(text: Seq<char>) -> Option<
    Seq<(XmlKind, Seq<char>, Seq<Option<(Seq<char>, Seq<char>)>>)>,
>;

/// Events, as contracts speak of them.
pub open spec fn events_view(events: Seq<XmlEvent>) -> Seq<
    (XmlKind, Seq<char>, Seq<Option<(Seq<char>, Seq<char>)>>),
> {
    events.map_values(|e: XmlEvent| e@)
}

/// `quick_xml::Reader::from_str` and its `read_event` up to the end: the tags of a document, with
/// the attributes that `BytesStart::attributes` gives, and a place for everything that is no tag.
/// What a document holds is left to the name [`xml_events`].
#[verifier::external_body]
pub(crate) fn read_xml(text: &str) -> (r: Option<Vec<XmlEvent>>)
    ensures
        match r {
            Some(events) => xml_events(text@) == Some(events_view(events@)),
            None => xml_events(text@) is None,
        },
{
    let mut reader = Reader::from_str(text);
    let attrs = |e: &BytesStart|
        e.attributes().map(|a| a.ok().map(|a| (a.key.0.into(), a.value.into()))).collect();
    let mut out = Vec::new();
    loop {
        out.push(match reader.read_event().ok()? {
            Event::Start(e) => XmlEvent::Start(e.name().0.to_owned(), attrs(&e)),
            Event::Empty(e) => XmlEvent::Empty(e.name().0.to_owned(), attrs(&e)),
            Event::End(e) => XmlEvent::End(e.name().0.to_owned()),
            Event::Eof => return Some(out),
            _ => XmlEvent::Other,
        });
    }
}

/// The attributes that are well formed among the first `n`.
pub open spec fn well_formed(attrs: Seq<Option<(Seq<char>, Seq<char>)>>, n: nat) -> Seq<
    (Seq<char>, Seq<char>),
>
    decreases n,
{
    if n == 0 {
        Seq::empty()
    } else {
        let before = well_formed(attrs, (n - 1) as nat);
        match attrs[n - 1] {
            Some(a) => before.push(a),
            None => before,
        }
    }
}

/// Attributes, as contracts speak of them.
pub open spec fn attrs_view(attrs: Seq<(String, String)>) -> Seq<(Seq<char>, Seq<char>)> {
    attrs.map_values(|a: (String, String)| (a.0@, a.1@))
}

/// The attributes that are well formed.
pub(crate) fn attributes(attrs: &Vec<Option<(String, String)>>) -> (r: Vec<(String, String)>)
    ensures
        attrs_view(r@) == well_formed(attribute_views(attrs@), attrs@.len()),
{
    let ghost all = attribute_views(attrs@);
    let mut out: Vec<(String, String)> = Vec::new();
    let mut i: usize = 0;
    assert(attrs_view(out@) =~= well_formed(all, 0));
    while i < attrs.len()
        invariant
            i <= attrs@.len(),
            all == attribute_views(attrs@),
            attrs_view(out@) == well_formed(all, i as nat),
        decreases attrs@.len() - i,
    {
        let ghost before = out@;
        assert(all[i as int] == attribute_view(attrs@[i as int]));
        if let Some((key, value)) = &attrs[i] {
            let pair = (key.as_str().to_owned(), value.as_str().to_owned());
            let ghost seen = (pair.0@, pair.1@);
            out.push(pair);
            assert(attrs_view(out@) =~= attrs_view(before).push(seen));
        }
        i += 1;
    }
    out
}

} // verus!
