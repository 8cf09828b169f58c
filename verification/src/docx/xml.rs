//! Building the XML text of a document's parts.
use vstd::prelude::*;
use crate::docx::model::Document;
use crate::docx::model::DocumentView;
use crate::docx::model::ParagraphView;
use crate::docx::model::is_heading_view;
use crate::text::chars_of;
use crate::text::push_char;
use crate::text::push_str;
use crate::unpack::split_on;

verus! {

broadcast use vstd::string::group_string_axioms;

pub const XML_DECL: &'static str = "<?xml version=\"1.0\" encoding=\"UTF-8\" standalone=\"yes\"?>\n";

pub const CONTENT_TYPES_HEAD: &'static str = "<Types xmlns=\"http://schemas.openxmlformats.org/package/2006/content-types\">\n  <Default Extension=\"rels\" ContentType=\"application/vnd.openxmlformats-package.relationships+xml\"/>\n  <Default Extension=\"xml\" ContentType=\"application/xml\"/>\n  <Override PartName=\"/docpack/document.xml\" ContentType=\"application/vnd.openxmlformats-officedocument.wordprocessingml.document.main+xml\"/>\n  <Override PartName=\"/docpack/styles.xml\" ContentType=\"application/vnd.openxmlformats-officedocument.wordprocessingml.styles+xml\"/>";

pub const CONTENT_TYPES_HEADER: &'static str = "\n  <Override PartName=\"/docpack/header.xml\" ContentType=\"application/vnd.openxmlformats-officedocument.wordprocessingml.header+xml\"/>";

pub const CONTENT_TYPES_TAIL: &'static str = "\n</Types>";

pub const PACKAGE_RELS: &'static str = "<Relationships xmlns=\"http://schemas.openxmlformats.org/package/2006/relationships\">\n  <Relationship Id=\"rId1\" Type=\"http://schemas.openxmlformats.org/officeDocument/2006/relationships/officeDocument\" Target=\"docpack/document.xml\"/>\n</Relationships>";

pub const DOCUMENT_RELS_HEAD: &'static str = "<Relationships xmlns=\"http://schemas.openxmlformats.org/package/2006/relationships\">\n  <Relationship Id=\"rId1\" Type=\"http://schemas.openxmlformats.org/officeDocument/2006/relationships/styles\" Target=\"styles.xml\"/>";

pub const DOCUMENT_RELS_HEADER: &'static str = "\n  <Relationship Id=\"rId2\" Type=\"http://schemas.openxmlformats.org/officeDocument/2006/relationships/header\" Target=\"header.xml\"/>";

pub const DOCUMENT_RELS_TAIL: &'static str = "\n</Relationships>";

pub const HEADER_HEAD: &'static str = "<w:hdr xmlns:w=\"http://schemas.openxmlformats.org/wordprocessingml/2006/main\"\n       xmlns:r=\"http://schemas.openxmlformats.org/officeDocument/2006/relationships\">\n  <w:p><w:r><w:t>";

pub const HEADER_TAIL: &'static str = "</w:t></w:r></w:p>\n</w:hdr>";

pub const DOCUMENT_HEAD: &'static str = "<w:document xmlns:w=\"http://schemas.openxmlformats.org/wordprocessingml/2006/main\"\n            xmlns:r=\"http://schemas.openxmlformats.org/officeDocument/2006/relationships\">\n  <w:body>";

pub const SECT_OPEN: &'static str = "<w:sectPr>";

pub const HEADER_REFERENCE: &'static str = "<w:headerReference w:type=\"default\" r:id=\"rId2\"/>";

pub const DOCUMENT_TAIL: &'static str = "</w:sectPr></w:body></w:document>";

pub const RUN_OPEN: &'static str = "<w:r><w:t>";

pub const RUN_CLOSE: &'static str = "</w:t></w:r>";

pub const LINE_BREAK: &'static str = "<w:br/>";

pub const PARA_OPEN: &'static str = "<w:p>";

pub const PARA_CLOSE: &'static str = "</w:p>";

pub const STYLED_PARA_OPEN: &'static str = "<w:p><w:pPr><w:pStyle w:val=\"";

pub const STYLED_PARA_MID: &'static str = "\"/></w:pPr>";

/// How one character is written in XML text: the five markup characters and the
/// carriage return as references; other control characters but tab and line feed
/// dropped; everything else as itself.
pub open spec fn escape_char(c: char) -> Seq<char> {
    if c == '&' {
        seq!['&', 'a', 'm', 'p', ';']
    } else if c == '<' {
        seq!['&', 'l', 't', ';']
    } else if c == '>' {
        seq!['&', 'g', 't', ';']
    } else if c == '"' {
        seq!['&', 'q', 'u', 'o', 't', ';']
    } else if c == '\'' {
        seq!['&', 'a', 'p', 'o', 's', ';']
    } else if c == '\r' {
        seq!['&', '#', 'x', 'D', ';']
    } else if (c as u32) < 0x20 && c != '\t' && c != '\n' {
        Seq::empty()
    } else {
        seq![c]
    }
}

/// `s` written as XML text.
pub open spec fn escape(s: Seq<char>) -> Seq<char>
    decreases s.len(),
{
    if s.len() == 0 {
        Seq::empty()
    } else {
        escape(s.drop_last()) + escape_char(s.last())
    }
}

/// One `<w:r>` run per line.
pub open spec fn run_xml(line: Seq<char>) -> Seq<char> {
    RUN_OPEN@ + line + RUN_CLOSE@
}

/// The runs for the lines of a text, with a `<w:br/>` between consecutive lines.
pub open spec fn runs_with_breaks(ls: Seq<Seq<char>>) -> Seq<char>
    decreases ls.len(),
{
    if ls.len() == 0 {
        Seq::empty()
    } else if ls.len() == 1 {
        run_xml(ls[0])
    } else {
        runs_with_breaks(ls.drop_last()) + LINE_BREAK@ + run_xml(ls.last())
    }
}

/// The XML of one paragraph: a heading as one styled paragraph holding its first
/// run; any other paragraph as one plain paragraph per run.
pub open spec fn paragraph_xml(p: ParagraphView) -> Seq<char>
    decreases p.runs.len(),
{
    if is_heading_view(p) {
        let text = if p.runs.len() > 0 { escape(p.runs[0]) } else { Seq::empty() };
        STYLED_PARA_OPEN@ + p.style.unwrap() + STYLED_PARA_MID@ + runs_with_breaks(split_on(text, '\n'))
            + PARA_CLOSE@
    } else {
        plain_runs_xml(p.runs)
    }
}

/// One plain paragraph per run.
pub open spec fn plain_runs_xml(runs: Seq<Seq<char>>) -> Seq<char>
    decreases runs.len(),
{
    if runs.len() == 0 {
        Seq::empty()
    } else {
        plain_runs_xml(runs.drop_last()) + PARA_OPEN@ + runs_with_breaks(
            split_on(escape(runs.last()), '\n'),
        ) + PARA_CLOSE@
    }
}

/// The XML of a list of paragraphs, in order.
pub open spec fn paragraphs_xml(ps: Seq<ParagraphView>) -> Seq<char>
    decreases ps.len(),
{
    if ps.len() == 0 {
        Seq::empty()
    } else {
        paragraphs_xml(ps.drop_last()) + paragraph_xml(ps.last())
    }
}

/// The main document part.
pub open spec fn document_xml_spec(d: DocumentView) -> Seq<char> {
    XML_DECL@ + DOCUMENT_HEAD@ + paragraphs_xml(d.paragraphs) + SECT_OPEN@ + (if d.header is Some {
        HEADER_REFERENCE@
    } else {
        Seq::empty()
    }) + DOCUMENT_TAIL@
}

/// The content-types part.
pub open spec fn content_types_spec(has_header: bool) -> Seq<char> {
    XML_DECL@ + CONTENT_TYPES_HEAD@ + (if has_header { CONTENT_TYPES_HEADER@ } else { Seq::empty() })
        + CONTENT_TYPES_TAIL@
}

/// The document's relationships part.
pub open spec fn document_rels_spec(has_header: bool) -> Seq<char> {
    XML_DECL@ + DOCUMENT_RELS_HEAD@ + (if has_header { DOCUMENT_RELS_HEADER@ } else { Seq::empty() })
        + DOCUMENT_RELS_TAIL@
}

/// The header part for a header text.
pub open spec fn header_xml_spec(text: Seq<char>) -> Seq<char> {
    XML_DECL@ + HEADER_HEAD@ + escape(text) + HEADER_TAIL@
}

/// Writes `text` as XML text.
pub fn escape_xml(text: &str) -> (r: String)
    ensures
        r@ == escape(text@),
{
    let cs = chars_of(text);
    let mut result = String::new();
    let mut i: usize = 0;
    while i < cs.len()
        invariant
            i <= cs.len(),
            cs@ == text@,
            result@ == escape(cs@.take(i as int)),
        decreases cs.len() - i,
    {
        let c = cs[i];
        let ghost before = result@;
        assert(cs@.take(i + 1).drop_last() == cs@.take(i as int));
        if c == '&' {
            push_str(&mut result, "&amp;");
            proof { reveal_strlit("&amp;"); }
        } else if c == '<' {
            push_str(&mut result, "&lt;");
            proof { reveal_strlit("&lt;"); }
        } else if c == '>' {
            push_str(&mut result, "&gt;");
            proof { reveal_strlit("&gt;"); }
        } else if c == '"' {
            push_str(&mut result, "&quot;");
            proof { reveal_strlit("&quot;"); }
        } else if c == '\'' {
            push_str(&mut result, "&apos;");
            proof { reveal_strlit("&apos;"); }
        } else if c == '\r' {
            push_str(&mut result, "&#xD;");
            proof { reveal_strlit("&#xD;"); }
        } else if (c as u32) < 0x20 && c != '\t' && c != '\n' {
        } else {
            push_char(&mut result, c);
        }
        assert(result@ =~= before + escape_char(c));
        i += 1;
    }
    assert(cs@.take(i as int) == cs@);
    result
}

/// The runs for `text`: one per line, with `<w:br/>` between them.
pub fn write_runs_with_br(text: &str) -> (r: String)
    ensures
        r@ == runs_with_breaks(split_on(text@, '\n')),
{
    let cs = chars_of(text);
    let mut r = String::new();
    let mut start: usize = 0;
    let mut i: usize = 0;
    let ghost mut done: Seq<Seq<char>> = Seq::empty();
    let mut have_piece = false;
    assert(cs@.skip(0) == cs@);
    assert(split_on(cs@, '\n') == done + split_on(cs@.skip(0), '\n'));
    while i < cs.len()
        invariant
            start <= i <= cs.len(),
            cs@ == text@,
            split_on(cs@, '\n') == done + split_on(cs@.skip(start as int), '\n'),
            r@ == runs_with_breaks(done),
            have_piece == (done.len() > 0),
            forall|j: int| start <= j < i ==> cs@[j] != '\n',
        decreases cs.len() - i,
    {
        if cs[i] == '\n' {
            let ghost t = cs@.skip(start as int);
            proof {
                crate::text::lemma_find_char_at(t, '\n', i - start);
                assert(t.take(i - start) == cs@.subrange(start as int, i as int));
                assert(t.skip(i - start + 1) == cs@.skip(i + 1));
            }
            let piece = crate::text::sub_chars(&cs, start, i);
            if have_piece {
                push_str(&mut r, LINE_BREAK);
            }
            push_str(&mut r, RUN_OPEN);
            let ps = crate::text::string_of(piece.as_slice());
            push_str(&mut r, ps.as_str());
            push_str(&mut r, RUN_CLOSE);
            proof {
                let old_done = done;
                done = done.push(piece@);
                assert(done.drop_last() == old_done);
                assert(split_on(cs@, '\n') == done + split_on(cs@.skip(i + 1), '\n'));
                if old_done.len() == 0 {
                    assert(r@ =~= run_xml(piece@));
                } else {
                    assert(r@ =~= runs_with_breaks(old_done) + LINE_BREAK@ + run_xml(piece@));
                }
            }
            start = i + 1;
            have_piece = true;
        }
        i += 1;
    }
    let ghost t = cs@.skip(start as int);
    proof {
        crate::text::lemma_find_char_at(t, '\n', t.len() as int);
        assert(t == cs@.subrange(start as int, cs.len() as int));
    }
    let piece = crate::text::sub_chars(&cs, start, cs.len());
    if have_piece {
        push_str(&mut r, LINE_BREAK);
    }
    push_str(&mut r, RUN_OPEN);
    let ps = crate::text::string_of(piece.as_slice());
    push_str(&mut r, ps.as_str());
    push_str(&mut r, RUN_CLOSE);
    proof {
        let old_done = done;
        done = done.push(piece@);
        assert(done.drop_last() == old_done);
        assert(split_on(cs@, '\n') == done);
        if old_done.len() == 0 {
            assert(r@ =~= run_xml(piece@));
        } else {
            assert(r@ =~= runs_with_breaks(old_done) + LINE_BREAK@ + run_xml(piece@));
        }
    }
    r
}

fn push_paragraph_xml(out: &mut String, p: &crate::docx::model::Paragraph)
    ensures
        final(out)@ == old(out)@ + paragraph_xml(p@),
{
    if p.is_heading() {
        let text = if p.runs.len() > 0 {
            escape_xml(p.runs[0].text.as_str())
        } else {
            String::new()
        };
        assert(text@ == if p@.runs.len() > 0 { escape(p@.runs[0]) } else { Seq::<char>::empty() });
        let ghost o = out@;
        push_str(out, STYLED_PARA_OPEN);
        match &p.style {
            Some(style) => push_str(out, style.as_str()),
            None => push_str(out, "Heading1"),
        }
        push_str(out, STYLED_PARA_MID);
        let runs = write_runs_with_br(text.as_str());
        push_str(out, runs.as_str());
        push_str(out, PARA_CLOSE);
        assert(out@ =~= o + paragraph_xml(p@));
    } else {
        let ghost rv = p@.runs;
        let ghost o = out@;
        let mut i: usize = 0;
        while i < p.runs.len()
            invariant
                i <= p.runs.len(),
                rv == p@.runs,
                out@ == o + plain_runs_xml(rv.take(i as int)),
            decreases p.runs.len() - i,
        {
            assert(rv.take(i + 1).drop_last() == rv.take(i as int));
            assert(rv.take(i + 1).last() == p.runs[i as int]@);
            let text = escape_xml(p.runs[i].text.as_str());
            let ghost before = out@;
            push_str(out, PARA_OPEN);
            let runs = write_runs_with_br(text.as_str());
            push_str(out, runs.as_str());
            push_str(out, PARA_CLOSE);
            assert(out@ =~= before + PARA_OPEN@ + runs_with_breaks(split_on(escape(rv[i as int]), '\n')) + PARA_CLOSE@);
            i += 1;
        }
        assert(rv.take(i as int) == rv);
    }
}

/// The main document part of `doc`.
pub fn document_xml(doc: &Document) -> (r: String)
    ensures
        r@ == document_xml_spec(doc@),
{
    let mut out = String::new();
    push_str(&mut out, XML_DECL);
    push_str(&mut out, DOCUMENT_HEAD);
    let ghost ps = doc@.paragraphs;
    let ghost o = out@;
    let mut i: usize = 0;
    while i < doc.paragraphs.len()
        invariant
            i <= doc.paragraphs.len(),
            ps == doc@.paragraphs,
            out@ == o + paragraphs_xml(ps.take(i as int)),
        decreases doc.paragraphs.len() - i,
    {
        assert(ps.take(i + 1).drop_last() == ps.take(i as int));
        assert(ps.take(i + 1).last() == doc.paragraphs[i as int]@);
        push_paragraph_xml(&mut out, &doc.paragraphs[i]);
        i += 1;
    }
    assert(ps.take(i as int) == ps);
    push_str(&mut out, SECT_OPEN);
    if doc.header.is_some() {
        push_str(&mut out, HEADER_REFERENCE);
    }
    push_str(&mut out, DOCUMENT_TAIL);
    assert(out@ =~= document_xml_spec(doc@));
    out
}

/// The content-types part.
pub fn content_types_xml(has_header: bool) -> (r: String)
    ensures
        r@ == content_types_spec(has_header),
{
    let mut out = String::new();
    push_str(&mut out, XML_DECL);
    push_str(&mut out, CONTENT_TYPES_HEAD);
    if has_header {
        push_str(&mut out, CONTENT_TYPES_HEADER);
    }
    push_str(&mut out, CONTENT_TYPES_TAIL);
    assert(out@ =~= content_types_spec(has_header));
    out
}

/// The document's relationships part.
pub fn document_rels_xml(has_header: bool) -> (r: String)
    ensures
        r@ == document_rels_spec(has_header),
{
    let mut out = String::new();
    push_str(&mut out, XML_DECL);
    push_str(&mut out, DOCUMENT_RELS_HEAD);
    if has_header {
        push_str(&mut out, DOCUMENT_RELS_HEADER);
    }
    push_str(&mut out, DOCUMENT_RELS_TAIL);
    assert(out@ =~= document_rels_spec(has_header));
    out
}

/// The package relationships part.
pub fn package_rels_xml() -> (r: String)
    ensures
        r@ == XML_DECL@ + PACKAGE_RELS@,
{
    let mut out = String::new();
    push_str(&mut out, XML_DECL);
    push_str(&mut out, PACKAGE_RELS);
    assert(out@ =~= XML_DECL@ + PACKAGE_RELS@);
    out
}

/// The header part for a header text.
pub fn header_xml(text: &str) -> (r: String)
    ensures
        r@ == header_xml_spec(text@),
{
    let mut out = String::new();
    push_str(&mut out, XML_DECL);
    push_str(&mut out, HEADER_HEAD);
    let e = escape_xml(text);
    push_str(&mut out, e.as_str());
    push_str(&mut out, HEADER_TAIL);
    assert(out@ =~= header_xml_spec(text@));
    out
}

} // verus!
