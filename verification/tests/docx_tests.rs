use docpack::docx::model::Document;
use docpack::docx::reader::body_of_events;
use docpack::docx::reader::header_of_events;
use docpack::docx::reader::parse_body;
use docpack::docx::reader::parse_header;
use docpack::docx::reader::read_docx;
use docpack::docx::style_gen::generate_styles_xml;
use docpack::docx::style_gen::pt_to_twips;
use docpack::docx::writer::write_docx;
use docpack::docx::xml::escape_xml;
use docpack::docx::xml::write_runs_with_br;
use docpack::xmlio::XmlEvent;
use docpack::xmlio::XmlTag;

fn write_docx_to_bytes(doc: &Document) -> Vec<u8> {
    write_docx(doc).unwrap()
}

fn roundtrip() {
    let mut doc = Document::new();
    doc.add_heading("src/main.rs");
    doc.add_text("fn main() {}");
    doc.add_heading("README.md");
    doc.add_text("# Hello");

    let data = write_docx_to_bytes(&doc);
    let read_doc = read_docx(data).unwrap();
    assert_eq!(read_doc.paragraphs.len(), 4);
    assert!(read_doc.paragraphs[0].is_heading());
    assert_eq!(read_doc.paragraphs[0].runs[0].text, "src/main.rs");
}

fn roundtrip_with_header() {
    let mut doc = Document::new();
    doc.set_header("DocPack v1.0.0");
    doc.add_heading("test.txt");
    doc.add_text("content");

    let data = write_docx_to_bytes(&doc);
    let read_doc = read_docx(data).unwrap();
    assert_eq!(read_doc.header.as_deref(), Some("DocPack v1.0.0"));
}

fn empty_document() {
    let doc = Document::new();
    let data = write_docx_to_bytes(&doc);
    let read_doc = read_docx(data).unwrap();
    assert!(read_doc.paragraphs.is_empty());
}

fn invalid_zip() {
    let result = read_docx(b"not a zip".to_vec());
    assert!(result.is_err());
}

fn write_empty_docx() {
    let doc = Document::new();
    let result = write_docx(&doc);
    assert!(result.is_ok());
}

fn write_docx_with_content() {
    let mut doc = Document::new();
    doc.set_header("DocPack v1.0.0");
    doc.add_heading("src/main.rs");
    doc.add_text("fn main() {\n    println!(\"hello\");\n}");
    doc.add_heading("README.md");
    doc.add_text("# DocPack");

    let result = write_docx(&doc);
    assert!(result.is_ok());
}

fn docx_is_valid_zip() {
    let mut doc = Document::new();
    doc.add_heading("test.txt");
    doc.add_text("content");
    let data = write_docx(&doc).unwrap();
    let zip = zip::ZipArchive::new(std::io::Cursor::new(&*data)).unwrap();
    assert_eq!(zip.len(), 5);
}

#[test]
fn test_roundtrip() {
    roundtrip();
}

#[test]
fn test_roundtrip_with_header() {
    roundtrip_with_header();
}

#[test]
fn test_empty_document() {
    empty_document();
}

#[test]
fn test_invalid_zip() {
    invalid_zip();
}

#[test]
fn docx_tests_test_docx_reader_roundtrip() {
    roundtrip();
}

#[test]
fn docx_tests_test_docx_reader_roundtrip_with_header() {
    roundtrip_with_header();
}

#[test]
fn docx_tests_test_docx_reader_empty_document() {
    empty_document();
}

#[test]
fn docx_tests_test_docx_reader_invalid_zip() {
    invalid_zip();
}

#[test]
fn docx_tests_test_docx_writer_write_empty_docx() {
    write_empty_docx();
}

#[test]
fn docx_tests_test_docx_writer_write_docx_with_content() {
    write_docx_with_content();
}

#[test]
fn docx_tests_test_docx_writer_docx_is_valid_zip() {
    docx_is_valid_zip();
}

#[test]
fn all_tests_test_docx_reader_roundtrip() {
    roundtrip();
}

#[test]
fn all_tests_test_docx_reader_roundtrip_with_header() {
    roundtrip_with_header();
}

#[test]
fn all_tests_test_docx_reader_empty_document() {
    empty_document();
}

#[test]
fn all_tests_test_docx_reader_invalid_zip() {
    invalid_zip();
}

#[test]
fn all_tests_test_docx_writer_write_empty_docx() {
    write_empty_docx();
}

#[test]
fn all_tests_test_docx_writer_write_docx_with_content() {
    write_docx_with_content();
}

#[test]
fn all_tests_test_docx_writer_docx_is_valid_zip() {
    docx_is_valid_zip();
}

#[test]
fn test_docx_writer_carriage_return_escape() {
    let mut doc = Document::new();
    doc.add_heading("test.txt");
    doc.add_text("line1\r\nline2\rline3");
    let data = write_docx_to_bytes(&doc);
    let read_doc = read_docx(data).unwrap();
    let body: String = read_doc
        .paragraphs
        .iter()
        .filter(|p| !p.is_heading())
        .flat_map(|p| p.runs.iter().map(|r| r.text.as_str()))
        .collect::<Vec<_>>()
        .join("");
    assert!(body.contains("line1"));
    assert!(body.contains("line2"));
    assert!(body.contains("line3"));
}

#[test]
fn roundtrip_keeps_every_paragraph_text_and_style() {
    let mut doc = Document::new();
    doc.add_heading("a<b>&\"c\".txt");
    doc.add_text("x < y && z > 'w'\nnext line");
    doc.add_heading("second");
    let read_doc = read_docx(write_docx(&doc).unwrap()).unwrap();
    assert_eq!(read_doc.paragraphs.len(), doc.paragraphs.len());
    for (a, b) in doc.paragraphs.iter().zip(read_doc.paragraphs.iter()) {
        assert_eq!(a.is_heading(), b.is_heading());
        let ta: String = a.runs.iter().map(|r| r.text.as_str()).collect();
        let tb: String = b.runs.iter().map(|r| r.text.as_str()).collect();
        assert_eq!(ta, tb);
    }
    assert!(read_doc.header.is_none());
}

#[test]
fn reading_a_zip_without_document_part_fails() {
    let mut w = zip::ZipWriter::new(std::io::Cursor::new(Vec::new()));
    w.start_file("other.txt", zip::write::SimpleFileOptions::default()).unwrap();
    let bytes = w.finish().unwrap().into_inner();
    let r = read_docx(bytes);
    assert!(r.is_err());
    assert!(r.err().unwrap().starts_with("Open document.xml: "));
}

#[test]
fn escape_xml_writes_references() {
    assert_eq!(escape_xml("a<b>&\"c'\r"), "a&lt;b&gt;&amp;&quot;c&apos;&#xD;");
    assert_eq!(escape_xml("tab\tline\n"), "tab\tline\n");
    assert_eq!(escape_xml("bell\u{7}"), "bell");
}

#[test]
fn runs_with_breaks_put_a_break_between_lines() {
    let r = write_runs_with_br("a\nb");
    assert!(r.contains("<w:br/>"));
    assert_eq!(r.matches("<w:br/>").count(), 1);
    assert!(!write_runs_with_br("single").contains("<w:br/>"));
}

#[test]
fn pt_to_twips_is_twenty_per_point() {
    assert_eq!(pt_to_twips(12), 240);
    assert_eq!(pt_to_twips(0), 0);
}

#[test]
fn styles_name_the_heading_style() {
    let s = generate_styles_xml();
    assert!(s.contains("w:styleId=\"Heading1\""));
    assert!(s.starts_with("<?xml"));
}

#[test]
fn parse_body_reads_styles_and_runs() {
    let xml = "<w:document><w:body><w:p><w:pPr><w:pStyle w:val=\"Heading1\"/></w:pPr><w:r><w:t>a.txt</w:t></w:r></w:p><w:p><w:r><w:t>hello</w:t></w:r></w:p></w:body></w:document>";
    let ps = parse_body(xml);
    assert_eq!(ps.len(), 2);
    assert_eq!(ps[0].style.as_deref(), Some("Heading1"));
    assert_eq!(ps[0].runs[0].text, "a.txt");
    assert!(ps[1].style.is_none());
    assert_eq!(ps[1].runs[0].text, "hello");
}

#[test]
fn parse_header_reads_text() {
    let xml = "<w:hdr><w:p><w:r><w:t>DocPack</w:t></w:r></w:p></w:hdr>";
    assert_eq!(parse_header(xml).as_deref(), Some("DocPack"));
}

fn start(content: &str) -> XmlEvent {
    let name = content.split(' ').next().unwrap().as_bytes().to_vec();
    XmlEvent::Start(XmlTag { name, content: content.to_string() })
}

fn empty(content: &str) -> XmlEvent {
    let name = content.split(' ').next().unwrap().as_bytes().to_vec();
    XmlEvent::Empty(XmlTag { name, content: content.to_string() })
}

fn text(t: &str) -> XmlEvent {
    XmlEvent::Text(Some(t.to_string()))
}

fn end(name: &str) -> XmlEvent {
    XmlEvent::End(name.as_bytes().to_vec())
}

#[test]
fn events_give_styled_paragraphs_with_breaks() {
    let events = vec![
        start("w:p"),
        empty("w:pStyle w:val=\"Heading1\""),
        start("w:r"),
        start("w:t"),
        text("a.txt"),
        end("w:t"),
        end("w:r"),
        end("w:p"),
        start("w:p"),
        start("w:t"),
        text("x"),
        end("w:t"),
        empty("w:br"),
        start("w:t"),
        text("y"),
        end("w:t"),
        empty("w:tab"),
        end("w:p"),
        start("w:p"),
        end("w:p"),
        text("outside"),
        XmlEvent::Eof,
    ];
    let ps = body_of_events(&events);
    assert_eq!(ps.len(), 3);
    assert_eq!(ps[0].style.as_deref(), Some("Heading1"));
    assert_eq!(ps[0].runs[0].text, "a.txt");
    assert!(ps[1].style.is_none());
    assert_eq!(ps[1].runs[0].text, "x\ny\t");
    assert!(ps[2].runs.is_empty());
}

#[test]
fn events_give_header_text_inside_w_t_only() {
    let events = vec![start("w:hdr"), text("no"), start("w:t"), text("Doc"), text("Pack"), end("w:t"), text("no")];
    assert_eq!(header_of_events(&events).as_deref(), Some("DocPack"));
    assert!(header_of_events(&vec![start("w:hdr"), text("no")]).is_none());
}
