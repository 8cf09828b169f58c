//! Writing a document as a DOCX archive: its parts, and the archive holding them.
use vstd::prelude::*;
use vstd::utf8::decode_utf8;
use vstd::utf8::encode_utf8;
use vstd::utf8::encode_utf8_decode_utf8;
use vstd::utf8::encode_utf8_valid_utf8;
use vstd::utf8::valid_utf8;
use crate::docx::model::Document;
use crate::docx::model::DocumentView;
use crate::docx::style_gen::STYLES_HEAD;
use crate::docx::style_gen::STYLES_TAIL;
use crate::docx::style_gen::default_styles_spec;
use crate::docx::style_gen::generate_styles_xml;
use crate::docx::style_gen::styles_xml;
use crate::docx::xml::PACKAGE_RELS;
use crate::docx::xml::XML_DECL;
use crate::docx::xml::content_types_spec;
use crate::docx::xml::content_types_xml;
use crate::docx::xml::document_rels_spec;
use crate::docx::xml::document_rels_xml;
use crate::docx::xml::document_xml;
use crate::docx::xml::document_xml_spec;
use crate::docx::xml::header_xml;
use crate::docx::xml::header_xml_spec;
use crate::docx::xml::package_rels_xml;
use crate::text::push_str;
use crate::docx::reader::body_paragraphs;
use crate::docx::reader::header_text;
use crate::docx::reader::read_docx_spec;
use crate::xmlio::xml_events;
use crate::zipio::entries_within_limit;
use crate::zipio::entry_names_distinct;
use crate::zipio::read_without_error;
use crate::zipio::zip_entry_read;
use crate::zipio::zip_open_result;
use crate::zipio::zip_archive_bytes;
use crate::zipio::zip_entries;
use crate::zipio::zip_finish;
use crate::zipio::zip_start_file;
use crate::zipio::zip_write_all;
use crate::zipio::zip_entry_limit;
use crate::zipio::zip_writer_new;

verus! {

broadcast use vstd::string::group_string_axioms;

/// One part of a DOCX package: its name in the archive and its XML text.
pub struct DocxPart {
    pub name: String,
    pub data: String,
}

impl View for DocxPart {
    type V = (Seq<char>, Seq<char>);

    open spec fn view(&self) -> (Seq<char>, Seq<char>) {
        (self.name@, self.data@)
    }
}

/// The parts of the package for a document, in the order they are written: content
/// types, package relationships, document relationships, styles, the header when
/// there is one, and the main document.
pub open spec fn docx_parts_spec(d: DocumentView) -> Seq<(Seq<char>, Seq<char>)> {
    let has_header = d.header is Some;
    seq![
        ("[Content_Types].xml"@, content_types_spec(has_header)),
        ("_rels/.rels"@, XML_DECL@ + PACKAGE_RELS@),
        ("docpack/_rels/document.xml.rels"@, document_rels_spec(has_header)),
        ("docpack/styles.xml"@, STYLES_HEAD@ + styles_xml(default_styles_spec()) + STYLES_TAIL@),
    ] + match d.header {
        Some(h) => seq![("docpack/header.xml"@, header_xml_spec(h))],
        None => Seq::empty(),
    } + seq![("docpack/document.xml"@, document_xml_spec(d))]
}

/// The archive entries for a list of parts: each text as UTF-8.
pub open spec fn archive_entries(parts: Seq<(Seq<char>, Seq<char>)>) -> Seq<(Seq<char>, Seq<u8>)> {
    parts.map_values(|p: (Seq<char>, Seq<char>)| (p.0, encode_utf8(p.1)))
}

fn part(name: &str, data: String) -> (r: DocxPart)
    ensures
        r@ == (name@, data@),
{
    let mut n = String::new();
    push_str(&mut n, name);
    DocxPart { name: n, data }
}

/// The parts of the package for `doc` (see [`docx_parts_spec`]).
pub fn docx_parts(doc: &Document) -> (r: Vec<DocxPart>)
    ensures
        r@.map_values(|p: DocxPart| p@) == docx_parts_spec(doc@),
{
    let has_header = doc.header.is_some();
    let mut parts: Vec<DocxPart> = Vec::new();
    parts.push(part("[Content_Types].xml", content_types_xml(has_header)));
    parts.push(part("_rels/.rels", package_rels_xml()));
    parts.push(part("docpack/_rels/document.xml.rels", document_rels_xml(has_header)));
    parts.push(part("docpack/styles.xml", generate_styles_xml()));
    match &doc.header {
        Some(h) => {
            parts.push(part("docpack/header.xml", header_xml(h.as_str())));
        },
        None => {},
    }
    parts.push(part("docpack/document.xml", document_xml(doc)));
    assert(parts@.map_values(|p: DocxPart| p@) =~= docx_parts_spec(doc@));
    parts
}

/// What reading back a written document gives (see [`read_docx_spec`]): the
/// paragraphs that the events of the main part's XML describe, and the header that the
/// events of the header part's XML describe.
pub open spec fn read_back_spec(d: DocumentView) -> DocumentView {
    DocumentView {
        paragraphs: body_paragraphs(xml_events(document_xml_spec(d))),
        header: match d.header {
            Some(h) => if header_xml_spec(h).len() == 0 {
                None
            } else {
                header_text(xml_events(header_xml_spec(h)))
            },
            None => None,
        },
    }
}

/// The parts' names: none of them names a header part unless the document has a header.
proof fn lemma_part_names(d: DocumentView)
    ensures
        d.header is None ==> forall|i: int|
            0 <= i < docx_parts_spec(d).len() ==> #[trigger] docx_parts_spec(d)[i].0
                != "docpack/header.xml"@,
        docx_parts_spec(d).last().0 == "docpack/document.xml"@,
{
    reveal_strlit("[Content_Types].xml");
    reveal_strlit("_rels/.rels");
    reveal_strlit("docpack/_rels/document.xml.rels");
    reveal_strlit("docpack/styles.xml");
    reveal_strlit("docpack/header.xml");
    reveal_strlit("docpack/document.xml");
    let ps = docx_parts_spec(d);
    if d.header is None {
        assert forall|i: int| 0 <= i < ps.len() implies #[trigger] ps[i].0 != "docpack/header.xml"@ by {
            if i == 0 {
                assert(ps[i].0.len() != "docpack/header.xml"@.len());
            } else if i == 1 {
                assert(ps[i].0.len() != "docpack/header.xml"@.len());
            } else if i == 2 {
                assert(ps[i].0.len() != "docpack/header.xml"@.len());
            } else if i == 3 {
                assert(ps[i].0[8] != "docpack/header.xml"@[8]);
            } else {
                assert(ps[i].0.len() != "docpack/header.xml"@.len());
            }
        }
    }
}

/// The parts' names are short and no two are the same.
proof fn lemma_part_names_apart(d: DocumentView)
    ensures
        forall|i: int| 0 <= i < docx_parts_spec(d).len() ==> (#[trigger] docx_parts_spec(d)[i]).0.len() < 64,
        forall|i: int, j: int|
            0 <= i < j < docx_parts_spec(d).len() ==> (#[trigger] docx_parts_spec(d)[i]).0 != (
            #[trigger] docx_parts_spec(d)[j]).0,
{
    reveal_strlit("[Content_Types].xml");
    reveal_strlit("_rels/.rels");
    reveal_strlit("docpack/_rels/document.xml.rels");
    reveal_strlit("docpack/styles.xml");
    reveal_strlit("docpack/header.xml");
    reveal_strlit("docpack/document.xml");
    let ps = docx_parts_spec(d);
    assert(ps[0].0.len() == 19 && ps[1].0.len() == 11 && ps[2].0.len() == 31 && ps[3].0.len() == 18);
    assert(ps[ps.len() - 1].0.len() == 20);
    if d.header is Some {
        assert(ps.len() == 6);
        assert(ps[4].0.len() == 18);
        assert(ps[3].0[8] != ps[4].0[8]);
    } else {
        assert(ps.len() == 5);
    }
    assert forall|i: int, j: int| 0 <= i < j < ps.len() implies (#[trigger] ps[i]).0 != (#[trigger] ps[j]).0 by {
        if ps[i].0.len() == ps[j].0.len() {
            assert(i == 3 && j == 4);
        }
    }
}

/// A document each of whose parts, as UTF-8, is within [`zip_entry_limit`] bytes, so
/// that the archive writer does not fail on it.
pub open spec fn docx_fits(d: DocumentView) -> bool {
    entries_within_limit(archive_entries(docx_parts_spec(d)))
}

/// Reading an archive that holds the parts of `d` gives back the document
/// [`read_back_spec`] describes.
proof fn lemma_read_back(d: DocumentView, entries: Seq<(Seq<char>, Seq<u8>)>, bytes: Seq<u8>)
    requires
        entries == archive_entries(docx_parts_spec(d)),
        entry_names_distinct(entries),
        zip_open_result(bytes) is Ok,
        forall|i: int|
            0 <= i < entries.len() && valid_utf8(entries[i].1) ==> #[trigger] zip_entry_read(bytes, entries[i].0)
                == read_without_error(decode_utf8(entries[i].1)),
        forall|name: Seq<char>|
            (forall|i: int| 0 <= i < entries.len() ==> entries[i].0 != name) ==> (
            #[trigger] zip_entry_read(bytes, name) is Err),
    ensures
        read_docx_spec(bytes) == Ok::<DocumentView, Seq<char>>(read_back_spec(d)),
{
    let ps = docx_parts_spec(d);
    lemma_part_names(d);
    let k = entries.len() - 1;
    assert(entries[k] == (ps[k].0, encode_utf8(ps[k].1)));
    assert(ps[k].1 == document_xml_spec(d));
    encode_utf8_valid_utf8(ps[k].1);
    encode_utf8_decode_utf8(ps[k].1);
    assert(ps.last() == ps[k]);
    assert(zip_entry_read(bytes, entries[k].0) == read_without_error(decode_utf8(entries[k].1)));
    assert(zip_entry_read(bytes, "docpack/document.xml"@) == read_without_error(document_xml_spec(d)));
    match d.header {
        Some(h) => {
            reveal_strlit("docpack/header.xml");
            assert(ps[4] == ("docpack/header.xml"@, header_xml_spec(h)));
            assert(entries[4] == (ps[4].0, encode_utf8(ps[4].1)));
            encode_utf8_valid_utf8(ps[4].1);
            encode_utf8_decode_utf8(ps[4].1);
            assert(zip_entry_read(bytes, entries[4].0) == read_without_error(decode_utf8(entries[4].1)));
            assert(zip_entry_read(bytes, "docpack/header.xml"@) == read_without_error(header_xml_spec(h)));
        },
        None => {
            assert forall|i: int| 0 <= i < entries.len() implies entries[i].0 != "docpack/header.xml"@ by {
                assert(entries[i].0 == ps[i].0);
            }
            assert(zip_entry_read(bytes, "docpack/header.xml"@) is Err);
        },
    }
}

/// The message of a failed step on a part: the step, the part's name, then the
/// archive writer's error text.
pub open spec fn step_message(step: Seq<char>, name: Seq<char>, e: Seq<char>) -> Seq<char> {
    step + name + ": "@ + e
}

/// The message of a failed finish of the archive.
pub open spec fn finish_message(e: Seq<char>) -> Seq<char> {
    "Finish zip: "@ + e
}

/// The messages that writing an archive of parts named `names` can fail with:
/// starting or writing one of the parts, or finishing the archive, each followed by
/// the archive writer's error text.
pub open spec fn is_write_docx_error(m: Seq<char>, names: Seq<Seq<char>>) -> bool {
    ||| exists|i: int, e: Seq<char>|
        0 <= i < names.len() && m == #[trigger] step_message("Start "@, names[i], e)
    ||| exists|i: int, e: Seq<char>|
        0 <= i < names.len() && m == #[trigger] step_message("Write "@, names[i], e)
    ||| exists|e: Seq<char>| m == #[trigger] finish_message(e)
}

/// The names of the parts of the package for a document, in order.
pub open spec fn part_names(d: DocumentView) -> Seq<Seq<char>> {
    docx_parts_spec(d).map_values(|p: (Seq<char>, Seq<char>)| p.0)
}

/// The DOCX archive for `doc`: on success, the archive of [`docx_parts_spec`] with
/// each part stored as UTF-8, which reads back as [`read_back_spec`] says; otherwise
/// the step that failed (starting or writing a part, or finishing the archive) and
/// the archive writer's error text. It succeeds whenever each part is within the
/// writer's per-entry limit (see [`docx_fits`]).
pub fn write_docx(doc: &Document) -> (r: Result<Vec<u8>, String>)
    ensures
        docx_fits(doc@) ==> r is Ok,
        r is Ok ==> r.unwrap()@ == zip_archive_bytes(archive_entries(docx_parts_spec(doc@))),
        r is Ok ==> read_docx_spec(r.unwrap()@) == Ok::<DocumentView, Seq<char>>(read_back_spec(doc@)),
        r is Err ==> is_write_docx_error(r->Err_0@, part_names(doc@)),
{
    let parts = docx_parts(doc);
    let ghost pv = parts@.map_values(|p: DocxPart| p@);
    let ghost all = archive_entries(pv);
    let mut w = zip_writer_new();
    let mut i: usize = 0;
    assert(archive_entries(pv.take(0)) =~= Seq::<(Seq<char>, Seq<u8>)>::empty());
    while i < parts.len()
        invariant
            i <= parts.len(),
            pv == parts@.map_values(|p: DocxPart| p@),
            pv == docx_parts_spec(doc@),
            all == archive_entries(pv),
            zip_entries(w) == archive_entries(pv.take(i as int)),
            entry_names_distinct(zip_entries(w)),
        decreases parts.len() - i,
    {
        let name = parts[i].name.as_str();
        let ghost e0 = zip_entries(w);
        proof {
            lemma_part_names_apart(doc@);
            assert(pv[i as int] == docx_parts_spec(doc@)[i as int]);
            assert(name@ == pv[i as int].0);
            assert(e0 =~= all.take(i as int));
            assert(docx_fits(doc@) ==> entries_within_limit(e0)) by {
                if docx_fits(doc@) {
                    assert forall|k: int| 0 <= k < e0.len() implies #[trigger] e0[k].1.len() <= zip_entry_limit() by {
                        assert(e0[k] == all[k]);
                    }
                }
            }
            assert forall|k: int| 0 <= k < e0.len() implies #[trigger] e0[k].0 != name@ by {
                assert(e0[k] == all[k]);
                assert(all[k].0 == pv[k].0);
                assert(pv[k] == docx_parts_spec(doc@)[k]);
                assert(docx_parts_spec(doc@)[k].0 != docx_parts_spec(doc@)[i as int].0);
            }
        }
        match zip_start_file(&mut w, name) {
            Ok(()) => {},
            Err(e) => {
                proof {
                    assert(!docx_fits(doc@));
                }
                let mut m = String::new();
                push_str(&mut m, "Start ");
                push_str(&mut m, name);
                push_str(&mut m, ": ");
                push_str(&mut m, e.as_str());
                proof {
                    let names = part_names(doc@);
                    assert(names[i as int] == name@);
                    assert(m@ =~= step_message("Start "@, names[i as int], e@));
                }
                return Err(m);
            },
        }
        let bytes = parts[i].data.as_str().as_bytes();
        proof {
            let started = zip_entries(w);
            assert(started.last().1.len() == 0);
            assert(all[i as int].1 == bytes@);
        }
        match zip_write_all(&mut w, bytes) {
            Ok(()) => {},
            Err(e) => {
                proof {
                    assert(!docx_fits(doc@));
                }
                let mut m = String::new();
                push_str(&mut m, "Write ");
                push_str(&mut m, name);
                push_str(&mut m, ": ");
                push_str(&mut m, e.as_str());
                proof {
                    let names = part_names(doc@);
                    assert(names[i as int] == name@);
                    assert(m@ =~= step_message("Write "@, names[i as int], e@));
                }
                return Err(m);
            },
        }
        proof {
            let entry = (pv[i as int].0, encode_utf8(pv[i as int].1));
            assert(Seq::<u8>::empty() + bytes@ =~= bytes@);
            assert(zip_entries(w) =~= e0.push(entry));
            assert(archive_entries(pv.take(i + 1)) =~= archive_entries(pv.take(i as int)).push(entry));
            assert forall|a: int, b: int| 0 <= a < b < zip_entries(w).len() implies zip_entries(w)[a].0
                != zip_entries(w)[b].0 by {
                if b < e0.len() {
                    assert(zip_entries(w)[a] == e0[a] && zip_entries(w)[b] == e0[b]);
                } else {
                    assert(zip_entries(w)[a] == e0[a]);
                }
            }
        }
        i += 1;
    }
    assert(pv.take(i as int) == pv);
    let ghost entries = zip_entries(w);
    match zip_finish(w) {
        Ok(bytes) => {
            proof {
                lemma_read_back(doc@, entries, bytes@);
            }
            Ok(bytes)
        },
        Err(e) => {
            assert(entries == all);
            assert(!docx_fits(doc@));
            let mut m = String::new();
            push_str(&mut m, "Finish zip: ");
            push_str(&mut m, e.as_str());
            assert(m@ =~= finish_message(e@));
            Err(m)
        },
    }
}

} // verus!
