//! Reading XML events with `quick_xml`: the calls into the crate, each event turned
//! into plain values of the library's own types.
use vstd::prelude::*;
use vstd::utf8::encode_utf8;
use quick_xml::events::BytesStart;
use quick_xml::events::Event;
use quick_xml::Reader;

verus! {

#[verifier::external_type_specification]
#[verifier::external_body]
#[verifier::reject_recursive_types(R)]
pub struct ExReader<R>(Reader<R>);

/// One attribute of a tag: its key, and its value with references resolved (`None`
/// when that failed).
pub struct XmlAttribute {
    pub key: Vec<u8>,
    pub value: Option<String>,
}

/// A start or empty tag: its qualified name, and its content between `<` and `>` (or
/// `/>`): the name followed by the attributes as written.
pub struct XmlTag {
    pub name: Vec<u8>,
    pub content: String,
}

/// One event of an XML reader.
pub enum XmlEvent {
    Start(XmlTag),
    Empty(XmlTag),
    /// Character data with references resolved (`None` when that failed).
    Text(Option<String>),
    End(Vec<u8>),
    Eof,
    Error,
    /// CDATA, comments, declarations, processing instructions, doctypes.
    Other,
}

/// A tag whose name is the start of its content, byte for byte, as in every tag a
/// reader yields.
pub open spec fn tag_well_formed(t: XmlTag) -> bool {
    t.name@.len() <= encode_utf8(t.content@).len() && encode_utf8(t.content@).take(
        t.name@.len() as int,
    ) == t.name@
}

/// Events after which a reader is not read again.
pub open spec fn is_terminal(e: XmlEvent) -> bool {
    e is Eof || e is Error
}

/// A finite event stream that ends with its only terminal event.
pub open spec fn is_event_stream(es: Seq<XmlEvent>) -> bool {
    &&& es.len() > 0
    &&& is_terminal(es.last())
    &&& forall|i: int| 0 <= i < es.len() - 1 ==> !is_terminal(#[trigger] es[i])
}

/// The events that a `quick_xml` reader over `xml`, set to trim white space around
/// text, yields (as [`XmlEvent`]s) up to and including the first end of input or error.
pub uninterp spec fn xml_events(xml: Seq<char>) -> Seq<XmlEvent>;

/// The events a reader has yet to yield, up to and including the first terminal one.
pub uninterp spec fn xml_pending(reader: Reader<&[u8]>) -> Seq<XmlEvent>;

/// `Reader::from_str`, with white space around text trimmed: it will yield the events
/// [`xml_events`] names, which end with their only end-of-input or error event.
#[verifier::external_body]
pub(crate) fn xml_reader(xml: &str) -> (r: Reader<&[u8]>)
    ensures
        xml_pending(r) == xml_events(xml@),
        is_event_stream(xml_pending(r)),
{
    let mut reader = Reader::from_str(xml);
    reader.config_mut().trim_text(true);
    reader
}

/// `Reader::read_event_into`, the event converted: the next pending event. A start or
/// empty tag's name is the first part of its content (`BytesStart::name` is a prefix
/// of the tag's buffer, which is UTF-8 because the reader reads a `&str`).
#[verifier::external_body]
pub(crate) fn xml_next_event(reader: &mut Reader<&[u8]>) -> (ev: XmlEvent)
    requires
        xml_pending(*old(reader)).len() > 0,
    ensures
        ev == xml_pending(*old(reader))[0],
        match ev {
            XmlEvent::Start(t) => tag_well_formed(t),
            XmlEvent::Empty(t) => tag_well_formed(t),
            _ => true,
        },
        xml_pending(*final(reader)) == xml_pending(*old(reader)).drop_first(),
{
    let tag = |e: BytesStart| XmlTag {
        name: e.name().0.to_vec(),
        content: String::from_utf8_lossy(&e).into_owned(),
    };
    match reader.read_event_into(&mut Vec::new()) {
        Ok(Event::Start(e)) => XmlEvent::Start(tag(e)),
        Ok(Event::Empty(e)) => XmlEvent::Empty(tag(e)),
        Ok(Event::Text(t)) => XmlEvent::Text(t.unescape().ok().map(|s| s.into_owned())),
        Ok(Event::End(e)) => XmlEvent::End(e.name().0.to_vec()),
        Ok(Event::Eof) => XmlEvent::Eof,
        Ok(_) => XmlEvent::Other,
        Err(_) => XmlEvent::Error,
    }
}

/// The attributes that `quick_xml` reads from a tag's content (name first, `name_len`
/// bytes long), in order, as [`XmlAttribute`]s (`None` for one it could not parse).
pub uninterp spec fn xml_attributes(content: Seq<char>, name_len: nat) -> Seq<Option<XmlAttribute>>;

/// `BytesStart::attributes` of a tag, each attribute converted with its value
/// unescaped (`Attribute::unescape_value`): the attributes [`xml_attributes`] names.
/// The attribute iterator starts after the name, so the name must be the start of the
/// content (it panics on a name longer than the content).
#[verifier::external_body]
pub(crate) fn xml_tag_attributes(tag: &XmlTag) -> (r: Vec<Option<XmlAttribute>>)
    requires
        tag_well_formed(*tag),
    ensures
        r@ == xml_attributes(tag.content@, tag.name@.len()),
{
    BytesStart::from_content(tag.content.as_str(), tag.name.len()).attributes().map(|a| a.ok().map(|a| XmlAttribute {
        key: a.key.0.to_vec(),
        value: a.unescape_value().ok().map(|v| v.into_owned()),
    })).collect()
}

} // verus!
