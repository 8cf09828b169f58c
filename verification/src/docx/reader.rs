//! Reading a DOCX archive back into a document: the paragraphs of the main part and
//! the text of the header part.
use vstd::prelude::*;
use vstd::string::StringSliceAdditionalSpecFns;
use crate::docx::model::Document;
use crate::docx::model::DocumentView;
use crate::docx::model::Paragraph;
use crate::docx::model::ParagraphView;
use crate::docx::model::Run;
use crate::text::push_char;
use crate::text::push_str;
use crate::xmlio::XmlAttribute;
use crate::xmlio::XmlEvent;
use crate::xmlio::is_event_stream;
use crate::xmlio::is_terminal;
use crate::xmlio::tag_well_formed;
use crate::xmlio::xml_attributes;
use crate::xmlio::xml_events;
use crate::xmlio::xml_next_event;
use crate::xmlio::xml_pending;
use crate::xmlio::xml_reader;
use crate::xmlio::xml_tag_attributes;
use crate::zipio::zip_entry_read;
use crate::zipio::zip_open;
use crate::zipio::zip_open_result;
use crate::zipio::zip_read_entry;

verus! {

broadcast use vstd::string::group_string_axioms;

/// The state of the scan over the main part's events.
pub struct BodyState {
    pub paragraphs: Seq<ParagraphView>,
    pub in_p: bool,
    pub in_t: bool,
    pub style: Option<Seq<char>>,
    pub text: Seq<char>,
}

pub open spec fn body_start() -> BodyState {
    BodyState { paragraphs: Seq::empty(), in_p: false, in_t: false, style: None, text: Seq::empty() }
}

/// The value of the last well-formed `w:val` attribute whose value could be read,
/// or `cur` when there is none.
pub open spec fn style_from_attrs(attrs: Seq<Option<XmlAttribute>>, cur: Option<Seq<char>>) -> Option<Seq<char>>
    decreases attrs.len(),
{
    if attrs.len() == 0 {
        cur
    } else {
        let before = style_from_attrs(attrs.drop_last(), cur);
        match attrs.last() {
            Some(a) => if a.key@ == "w:val".spec_bytes() {
                match a.value {
                    Some(v) => Some(v@),
                    None => before,
                }
            } else {
                before
            },
            None => before,
        }
    }
}

/// One event of the scan of the main part: a `w:p` start opens a paragraph; inside
/// it a `w:pStyle` tag sets the style from its `w:val`, `w:t` opens text, an empty
/// `w:br` adds a line feed and an empty `w:tab` a tab; text inside `w:t` is added;
/// the `w:p` end closes the paragraph (one run when it has text), a `w:t` end closes
/// text.
pub open spec fn body_step(st: BodyState, e: XmlEvent) -> BodyState {
    match e {
        XmlEvent::Start(tag) => {
            if tag.name@ == "w:p".spec_bytes() {
                BodyState { in_p: true, style: None, text: Seq::empty(), ..st }
            } else if st.in_p && tag.name@ == "w:pStyle".spec_bytes() {
                BodyState { style: style_from_attrs(xml_attributes(tag.content@, tag.name@.len()), st.style), ..st }
            } else if st.in_p && tag.name@ == "w:t".spec_bytes() {
                BodyState { in_t: true, ..st }
            } else {
                st
            }
        },
        XmlEvent::Empty(tag) => {
            if !st.in_p {
                st
            } else if tag.name@ == "w:pStyle".spec_bytes() {
                BodyState { style: style_from_attrs(xml_attributes(tag.content@, tag.name@.len()), st.style), ..st }
            } else if tag.name@ == "w:br".spec_bytes() {
                BodyState { text: st.text.push('\n'), ..st }
            } else if tag.name@ == "w:tab".spec_bytes() {
                BodyState { text: st.text.push('\t'), ..st }
            } else {
                st
            }
        },
        XmlEvent::Text(t) => {
            if st.in_t {
                match t {
                    Some(s) => BodyState { text: st.text + s@, ..st },
                    None => st,
                }
            } else {
                st
            }
        },
        XmlEvent::End(name) => {
            if name@ == "w:p".spec_bytes() && st.in_p {
                BodyState {
                    paragraphs: st.paragraphs.push(
                        ParagraphView {
                            style: st.style,
                            runs: if st.text.len() == 0 { Seq::empty() } else { seq![st.text] },
                        },
                    ),
                    in_p: false,
                    style: None,
                    text: Seq::empty(),
                    ..st
                }
            } else if name@ == "w:t".spec_bytes() {
                BodyState { in_t: false, ..st }
            } else {
                st
            }
        },
        _ => st,
    }
}

/// The scan over a list of events.
pub open spec fn body_scan(es: Seq<XmlEvent>) -> BodyState
    decreases es.len(),
{
    if es.len() == 0 {
        body_start()
    } else {
        body_step(body_scan(es.drop_last()), es.last())
    }
}

/// The paragraphs of a main part, read from its events up to the first terminal one.
pub open spec fn body_paragraphs(es: Seq<XmlEvent>) -> Seq<ParagraphView> {
    body_scan(es.drop_last()).paragraphs
}

/// One event of the scan of a header part: a start or empty tag opens text when it
/// is `w:t` and closes it otherwise; text counts while text is open; an end tag
/// closes it.
pub open spec fn header_step(st: (bool, Seq<char>), e: XmlEvent) -> (bool, Seq<char>) {
    let (in_t, text) = st;
    match e {
        XmlEvent::Start(tag) => (tag.name@ == "w:t".spec_bytes(), text),
        XmlEvent::Empty(tag) => (tag.name@ == "w:t".spec_bytes(), text),
        XmlEvent::Text(t) => if in_t {
            match t {
                Some(s) => (in_t, text + s@),
                None => (in_t, text),
            }
        } else {
            (in_t, text)
        },
        XmlEvent::End(_) => (false, text),
        _ => (in_t, text),
    }
}

/// The scan over a header part's events: text inside the latest tag counts when that
/// tag is `w:t` and has not ended.
pub open spec fn header_scan(es: Seq<XmlEvent>) -> (bool, Seq<char>)
    decreases es.len(),
{
    if es.len() == 0 {
        (false, Seq::empty())
    } else {
        header_step(header_scan(es.drop_last()), es.last())
    }
}

/// The text of a header part, if it has any.
pub open spec fn header_text(es: Seq<XmlEvent>) -> Option<Seq<char>> {
    let text = header_scan(es.drop_last()).1;
    if text.len() == 0 {
        None
    } else {
        Some(text)
    }
}

fn bytes_eq_str(a: &Vec<u8>, s: &str) -> (r: bool)
    ensures
        r == (a@ == s.spec_bytes()),
{
    let b = s.as_bytes();
    if a.len() != b.len() {
        return false;
    }
    let mut i: usize = 0;
    while i < a.len()
        invariant
            i <= a.len() == b@.len(),
            b@ == s.spec_bytes(),
            forall|j: int| 0 <= j < i ==> a@[j] == b@[j],
        decreases a.len() - i,
    {
        if a[i] != b[i] {
            return false;
        }
        i += 1;
    }
    assert(a@ =~= b@);
    true
}

fn style_from_attributes(attrs: &Vec<Option<XmlAttribute>>, cur: Option<String>) -> (r: Option<String>)
    ensures
        crate::docx::model::opt_view(r) == style_from_attrs(attrs@, crate::docx::model::opt_view(cur)),
{
    let mut style = cur;
    let mut i: usize = 0;
    while i < attrs.len()
        invariant
            i <= attrs.len(),
            crate::docx::model::opt_view(style) == style_from_attrs(attrs@.take(i as int), crate::docx::model::opt_view(cur)),
        decreases attrs.len() - i,
    {
        assert(attrs@.take(i + 1).drop_last() == attrs@.take(i as int));
        match &attrs[i] {
            Some(a) => {
                if bytes_eq_str(&a.key, "w:val") {
                    match &a.value {
                        Some(v) => {
                            style = Some(v.clone());
                        },
                        None => {},
                    }
                }
            },
            None => {},
        }
        i += 1;
    }
    assert(attrs@.take(i as int) == attrs@);
    style
}

/// An event of the kind a reader yields: a tag's name starts its content.
pub open spec fn event_well_formed(e: XmlEvent) -> bool {
    match e {
        XmlEvent::Start(t) => tag_well_formed(t),
        XmlEvent::Empty(t) => tag_well_formed(t),
        _ => true,
    }
}

/// The scan over a main part's events, as it stands (see [`BodyState`]).
pub struct BodyReader {
    pub paragraphs: Vec<Paragraph>,
    pub in_p: bool,
    pub in_t: bool,
    pub style: Option<String>,
    pub text: String,
}

impl View for BodyReader {
    type V = BodyState;

    open spec fn view(&self) -> BodyState {
        BodyState {
            paragraphs: self.paragraphs@.map_values(|p: Paragraph| p@),
            in_p: self.in_p,
            in_t: self.in_t,
            style: crate::docx::model::opt_view(self.style),
            text: self.text@,
        }
    }
}

impl BodyReader {
    /// The scan before any event (see [`body_start`]).
    pub fn new() -> (r: Self)
        ensures
            r@ == body_start(),
    {
        let r = BodyReader { paragraphs: Vec::new(), in_p: false, in_t: false, style: None, text: String::new() };
        assert(r@.paragraphs =~= Seq::<ParagraphView>::empty());
        assert(r@.text =~= Seq::<char>::empty());
        r
    }

    /// Takes one event (see [`body_step`]).
    pub fn step(&mut self, ev: &XmlEvent)
        requires
            event_well_formed(*ev),
        ensures
            final(self)@ == body_step(old(self)@, *ev),
    {
        let ghost p0 = self@.paragraphs;
        match ev {
            XmlEvent::Start(tag) => {
                if bytes_eq_str(&tag.name, "w:p") {
                    self.in_p = true;
                    self.style = None;
                    self.text = String::new();
                    assert(self.text@ =~= Seq::<char>::empty());
                } else if self.in_p && bytes_eq_str(&tag.name, "w:pStyle") {
                    let cur = self.style.take();
                    self.style = style_from_attributes(&xml_tag_attributes(tag), cur);
                } else if self.in_p && bytes_eq_str(&tag.name, "w:t") {
                    self.in_t = true;
                }
            },
            XmlEvent::Empty(tag) => {
                if self.in_p {
                    if bytes_eq_str(&tag.name, "w:pStyle") {
                        let cur = self.style.take();
                        self.style = style_from_attributes(&xml_tag_attributes(tag), cur);
                    } else if bytes_eq_str(&tag.name, "w:br") {
                        push_char(&mut self.text, '\n');
                    } else if bytes_eq_str(&tag.name, "w:tab") {
                        push_char(&mut self.text, '\t');
                    }
                }
            },
            XmlEvent::Text(t) => {
                if self.in_t {
                    match t {
                        Some(s) => {
                            push_str(&mut self.text, s.as_str());
                        },
                        None => {},
                    }
                }
            },
            XmlEvent::End(name) => {
                if bytes_eq_str(name, "w:p") && self.in_p {
                    let runs: Vec<Run> = if self.text.as_str().is_empty() {
                        Vec::new()
                    } else {
                        let mut v: Vec<Run> = Vec::new();
                        v.push(Run { text: self.text.clone() });
                        v
                    };
                    let st = self.style.take();
                    let p = Paragraph { style: st, runs };
                    assert(p@.runs =~= if self.text@.len() == 0 { Seq::<Seq<char>>::empty() } else { seq![self.text@] });
                    self.paragraphs.push(p);
                    assert(self@.paragraphs =~= p0.push(p@));
                    self.text = String::new();
                    assert(self.text@ =~= Seq::<char>::empty());
                    self.in_p = false;
                } else if bytes_eq_str(name, "w:t") {
                    self.in_t = false;
                }
            },
            _ => {},
        }
    }
}

/// The paragraphs that a list of events gives (see [`body_scan`]).
pub fn body_of_events(events: &Vec<XmlEvent>) -> (r: Vec<Paragraph>)
    requires
        forall|i: int| 0 <= i < events@.len() ==> event_well_formed(#[trigger] events@[i]),
    ensures
        r@.map_values(|p: Paragraph| p@) == body_scan(events@).paragraphs,
{
    let mut scan = BodyReader::new();
    let mut i: usize = 0;
    assert(events@.take(0) =~= Seq::<XmlEvent>::empty());
    while i < events.len()
        invariant
            i <= events.len(),
            forall|j: int| 0 <= j < events@.len() ==> event_well_formed(#[trigger] events@[j]),
            scan@ == body_scan(events@.take(i as int)),
        decreases events.len() - i,
    {
        assert(events@.take(i + 1).drop_last() =~= events@.take(i as int));
        scan.step(&events[i]);
        i += 1;
    }
    assert(events@.take(i as int) =~= events@);
    scan.paragraphs
}

/// The paragraphs of a main part (see [`body_paragraphs`]).
pub fn parse_body(xml: &str) -> (r: Vec<Paragraph>)
    ensures
        r@.map_values(|p: Paragraph| p@) == body_paragraphs(xml_events(xml@)),
{
    let mut reader = xml_reader(xml);
    let ghost es = xml_events(xml@);
    let mut scan = BodyReader::new();
    let ghost mut k: int = 0;
    assert(es.take(0) =~= Seq::<XmlEvent>::empty());
    loop
        invariant_except_break
            is_event_stream(es),
            0 <= k < es.len(),
            xml_pending(reader) == es.skip(k),
            body_scan(es.take(k)) == scan@,
        ensures
            body_scan(es.drop_last()).paragraphs == scan@.paragraphs,
        decreases es.len() - k,
    {
        let ev = xml_next_event(&mut reader);
        assert(ev == es[k]);
        proof {
            if k == es.len() - 1 {
                assert(es.take(k) == es.drop_last());
            }
        }
        if let XmlEvent::Eof = ev {
            break;
        }
        if let XmlEvent::Error = ev {
            break;
        }
        assert(!is_terminal(es[k]));
        assert(k < es.len() - 1);
        assert(es.take(k + 1).drop_last() == es.take(k));
        assert(es.skip(k).drop_first() == es.skip(k + 1));
        scan.step(&ev);
        proof {
            k = k + 1;
        }
    }
    scan.paragraphs
}

/// The scan over a header part's events, as it stands (see [`header_scan`]).
pub struct HeaderReader {
    pub in_t: bool,
    pub text: String,
}

impl HeaderReader {
    /// The scan before any event.
    pub fn new() -> (r: Self)
        ensures
            (r.in_t, r.text@) == header_scan(Seq::empty()),
    {
        let r = HeaderReader { in_t: false, text: String::new() };
        assert(r.text@ =~= Seq::<char>::empty());
        r
    }

    /// Takes one event (see [`header_step`]).
    pub fn step(&mut self, ev: &XmlEvent)
        ensures
            (final(self).in_t, final(self).text@) == header_step((old(self).in_t, old(self).text@), *ev),
    {
        match ev {
            XmlEvent::Start(tag) => {
                self.in_t = bytes_eq_str(&tag.name, "w:t");
            },
            XmlEvent::Empty(tag) => {
                self.in_t = bytes_eq_str(&tag.name, "w:t");
            },
            XmlEvent::Text(t) => {
                if self.in_t {
                    match t {
                        Some(s) => {
                            push_str(&mut self.text, s.as_str());
                        },
                        None => {},
                    }
                }
            },
            XmlEvent::End(_) => {
                self.in_t = false;
            },
            _ => {},
        }
    }

    /// The header text gathered, if any.
    pub fn finish(self) -> (r: Option<String>)
        ensures
            crate::docx::model::opt_view(r) == (if self.text@.len() == 0 { None } else { Some(self.text@) }),
    {
        if self.text.as_str().is_empty() {
            None
        } else {
            Some(self.text)
        }
    }
}

/// The header text that a list of events gives (see [`header_scan`]), if any.
pub fn header_of_events(events: &Vec<XmlEvent>) -> (r: Option<String>)
    ensures
        crate::docx::model::opt_view(r) == (if header_scan(events@).1.len() == 0 {
            None
        } else {
            Some(header_scan(events@).1)
        }),
{
    let mut scan = HeaderReader::new();
    let mut i: usize = 0;
    assert(events@.take(0) =~= Seq::<XmlEvent>::empty());
    while i < events.len()
        invariant
            i <= events.len(),
            (scan.in_t, scan.text@) == header_scan(events@.take(i as int)),
        decreases events.len() - i,
    {
        assert(events@.take(i + 1).drop_last() =~= events@.take(i as int));
        scan.step(&events[i]);
        i += 1;
    }
    assert(events@.take(i as int) =~= events@);
    scan.finish()
}

/// The text of a header part (see [`header_text`]).
pub fn parse_header(xml: &str) -> (r: Option<String>)
    ensures
        crate::docx::model::opt_view(r) == header_text(xml_events(xml@)),
{
    let mut reader = xml_reader(xml);
    let ghost es = xml_events(xml@);
    let mut scan = HeaderReader::new();
    let ghost mut k: int = 0;
    assert(es.take(0) =~= Seq::<XmlEvent>::empty());
    loop
        invariant_except_break
            is_event_stream(es),
            0 <= k < es.len(),
            xml_pending(reader) == es.skip(k),
            header_scan(es.take(k)) == (scan.in_t, scan.text@),
        ensures
            header_scan(es.drop_last()).1 == scan.text@,
        decreases es.len() - k,
    {
        let ev = xml_next_event(&mut reader);
        assert(ev == es[k]);
        proof {
            if k == es.len() - 1 {
                assert(es.take(k) == es.drop_last());
            }
        }
        if let XmlEvent::Eof = ev {
            break;
        }
        if let XmlEvent::Error = ev {
            break;
        }
        assert(!is_terminal(es[k]));
        assert(es.take(k + 1).drop_last() == es.take(k));
        assert(es.skip(k).drop_first() == es.skip(k + 1));
        scan.step(&ev);
        proof {
            k = k + 1;
        }
    }
    scan.finish()
}

/// What reading a DOCX archive gives: the error that stops it (the archive does not
/// open, or its main part is missing or unreadable), or the document with the
/// paragraphs of its main part and the text of its header part when that part
/// exists and has text.
pub open spec fn read_docx_spec(bytes: Seq<u8>) -> Result<DocumentView, Seq<char>> {
    match zip_open_result(bytes) {
        Err(m) => Err("Zip error: "@ + m),
        Ok(_) => match zip_entry_read(bytes, "docpack/document.xml"@) {
            Err(m) => Err("Open document.xml: "@ + m),
            Ok((_, Some(e))) => Err("Read document.xml: "@ + e),
            Ok((xml, None)) => Ok(
                DocumentView {
                    paragraphs: body_paragraphs(xml_events(xml)),
                    header: match zip_entry_read(bytes, "docpack/header.xml"@) {
                        Ok((h, _)) => if h.len() == 0 {
                            None
                        } else {
                            header_text(xml_events(h))
                        },
                        Err(_) => None,
                    },
                },
            ),
        },
    }
}

fn prefixed(prefix: &str, m: &str) -> (r: String)
    ensures
        r@ == prefix@ + m@,
{
    let mut s = String::new();
    push_str(&mut s, prefix);
    push_str(&mut s, m);
    assert(s@ =~= prefix@ + m@);
    s
}

/// Reads a DOCX archive (see [`read_docx_spec`]).
pub fn read_docx(bytes: Vec<u8>) -> (r: Result<Document, String>)
    ensures
        match r {
            Ok(d) => read_docx_spec(bytes@) == Ok::<DocumentView, Seq<char>>(d@),
            Err(m) => read_docx_spec(bytes@) == Err::<DocumentView, Seq<char>>(m@),
        },
{
    let ghost b = bytes@;
    let mut archive = match zip_open(bytes) {
        Ok(a) => a,
        Err(e) => {
            return Err(prefixed("Zip error: ", e.as_str()));
        },
    };
    let mut doc = Document::new();
    let xml = match zip_read_entry(&mut archive, "docpack/document.xml") {
        Err(e) => {
            return Err(prefixed("Open document.xml: ", e.as_str()));
        },
        Ok((_, Some(e))) => {
            return Err(prefixed("Read document.xml: ", e.as_str()));
        },
        Ok((xml, None)) => xml,
    };
    doc.paragraphs = parse_body(xml.as_str());
    match zip_read_entry(&mut archive, "docpack/header.xml") {
        Ok((header_xml, _)) => {
            if !header_xml.as_str().is_empty() {
                doc.header = parse_header(header_xml.as_str());
            }
        },
        Err(_) => {},
    }
    Ok(doc)
}

} // verus!
