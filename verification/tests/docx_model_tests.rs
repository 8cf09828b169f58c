use docpack::docx::model::Document;
use docpack::docx::model::Paragraph;

fn new_document() {
    let doc = Document::new();
    assert!(doc.paragraphs.is_empty());
    assert!(doc.header.is_none());
}

fn add_heading() {
    let mut doc = Document::new();
    doc.add_heading("src/main.rs");
    assert_eq!(doc.paragraphs.len(), 1);
    assert_eq!(doc.paragraphs[0].style.as_deref(), Some("Heading1"));
    assert_eq!(doc.paragraphs[0].runs[0].text, "src/main.rs");
}

fn add_text() {
    let mut doc = Document::new();
    doc.add_text("line1\nline2");
    assert_eq!(doc.paragraphs.len(), 2);
    assert!(doc.paragraphs[0].style.is_none());
}

fn is_heading() {
    let h = Paragraph { style: Some("Heading1".into()), runs: vec![] };
    let h2 = Paragraph { style: Some("Heading2".into()), runs: vec![] };
    let t = Paragraph { style: None, runs: vec![] };
    assert!(h.is_heading());
    assert!(h2.is_heading());
    assert!(!t.is_heading());
}

fn header() {
    let mut doc = Document::new();
    doc.set_header("DocPack v1.0.0");
    assert_eq!(doc.header.as_deref(), Some("DocPack v1.0.0"));
}

#[test]
fn docx_model_tests_test_docx_model_new_document() {
    new_document();
}

#[test]
fn docx_model_tests_test_docx_model_add_heading() {
    add_heading();
}

#[test]
fn docx_model_tests_test_docx_model_add_text() {
    add_text();
}

#[test]
fn docx_model_tests_test_docx_model_is_heading() {
    is_heading();
}

#[test]
fn docx_model_tests_test_docx_model_header() {
    header();
}

#[test]
fn all_tests_test_docx_model_new_document() {
    new_document();
}

#[test]
fn all_tests_test_docx_model_add_heading() {
    add_heading();
}

#[test]
fn all_tests_test_docx_model_add_text() {
    add_text();
}

#[test]
fn all_tests_test_docx_model_is_heading() {
    is_heading();
}

#[test]
fn all_tests_test_docx_model_header() {
    header();
}

#[test]
fn add_text_splits_lines_and_drops_carriage_returns() {
    let mut doc = Document::default();
    doc.add_text("a\r\nb\n\nc\n");
    let texts: Vec<&str> = doc.paragraphs.iter().map(|p| p.runs[0].text.as_str()).collect();
    assert_eq!(texts, vec!["a", "b", "", "c"]);
    assert!(doc.paragraphs.iter().all(|p| !p.is_heading()));
}

#[test]
fn style_that_only_starts_like_heading_is_not_one() {
    let p = Paragraph { style: Some("Headin".into()), runs: vec![] };
    assert!(!p.is_heading());
    let q = Paragraph { style: Some("heading1".into()), runs: vec![] };
    assert!(!q.is_heading());
}
