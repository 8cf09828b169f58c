use docpack::docx::model::Document;
use docpack::docx::reader::read_docx;
use docpack::docx::writer::write_docx;
use docpack::ignore::ExcludeRules;
use docpack::pack::pack_dir;
use docpack::pack::DirSource;
use docpack::pack::SourceEntry;
use docpack::unpack::default_output_path;
use docpack::unpack::plan_unpack;
use docpack::unpack::validate_heading_path;
use docpack::unpack::UnpackPlan;

fn entry(rel: &str, data: &[u8]) -> SourceEntry {
    SourceEntry {
        rel_path: rel.to_string(),
        head: Some(data[..data.len().min(8192)].to_vec()),
        content: Ok(data.to_vec()),
    }
}

/// Writes a document, reads it back and plans its unpacking, as an unpack of a file does.
fn unpack_bytes(bytes: Vec<u8>) -> UnpackPlan {
    let doc = read_docx(bytes).unwrap();
    plan_unpack(&doc)
}

fn unpack_doc(doc: &Document) -> UnpackPlan {
    unpack_bytes(write_docx(doc).unwrap())
}

fn content_of<'a>(plan: &'a UnpackPlan, path: &str) -> Option<&'a str> {
    plan.files.iter().find(|f| f.path == path).map(|f| f.content.as_str())
}

fn roundtrip_pack_unpack() {
    let src = DirSource {
        is_dir: true,
        display: "dir".to_string(),
        entries: vec![entry("src/main.rs", b"fn main() {}"), entry("readme.md", b"# DocPack")],
    };
    let rules = ExcludeRules::new();
    let packed = pack_dir(&src, &rules, &Vec::new()).unwrap();
    let plan = unpack_bytes(packed.docx);
    assert!(plan.error.is_none());
    assert_eq!(plan.files.len(), 2);
    assert_eq!(content_of(&plan, "src/main.rs"), Some("fn main() {}"));
    assert_eq!(content_of(&plan, "readme.md"), Some("# DocPack"));
}

fn empty_file_between_headings() {
    let mut doc = Document::new();
    doc.add_heading("file1.txt");
    doc.add_text("content1");
    doc.add_heading("file2.txt");
    doc.add_heading("file3.txt");
    doc.add_text("content3");
    let plan = unpack_doc(&doc);
    assert_eq!(plan.files.len(), 3);
    assert_eq!(content_of(&plan, "file1.txt"), Some("content1"));
    assert_eq!(content_of(&plan, "file2.txt"), Some(""));
    assert_eq!(content_of(&plan, "file3.txt"), Some("content3"));
}

fn empty_file_at_end() {
    let mut doc = Document::new();
    doc.add_heading("file1.txt");
    doc.add_text("content1");
    doc.add_heading("file2.txt");
    let plan = unpack_doc(&doc);
    assert_eq!(plan.files.len(), 2);
    assert_eq!(content_of(&plan, "file1.txt"), Some("content1"));
    assert_eq!(content_of(&plan, "file2.txt"), Some(""));
}

fn multiple_body_paragraphs() {
    let mut doc = Document::new();
    doc.add_heading("file1.txt");
    doc.add_text("line1");
    doc.add_text("line2");
    doc.add_text("line3");
    doc.add_heading("file2.txt");
    doc.add_text("content2");
    let plan = unpack_doc(&doc);
    assert_eq!(plan.files.len(), 2);
    assert_eq!(content_of(&plan, "file1.txt"), Some("line1\nline2\nline3"));
    assert_eq!(content_of(&plan, "file2.txt"), Some("content2"));
}

fn multiple_body_paragraphs_different_headings() {
    let mut doc = Document::new();
    doc.add_heading("file1.txt");
    doc.add_text("line1");
    doc.add_heading("file2.txt");
    doc.add_text("line2");
    doc.add_heading("file3.txt");
    doc.add_text("line3");
    let plan = unpack_doc(&doc);
    assert_eq!(plan.files.len(), 3);
    assert_eq!(content_of(&plan, "file1.txt"), Some("line1"));
    assert_eq!(content_of(&plan, "file2.txt"), Some("line2"));
    assert_eq!(content_of(&plan, "file3.txt"), Some("line3"));
}

fn multi_line_content_preserves_newlines() {
    let mut doc = Document::new();
    doc.add_heading("file.txt");
    doc.add_text("line1\nline2\nline3");
    let plan = unpack_doc(&doc);
    assert_eq!(plan.files.len(), 1);
    assert_eq!(content_of(&plan, "file.txt"), Some("line1\nline2\nline3"));
}

fn empty_file_at_end_no_trailing_content() {
    let mut doc = Document::new();
    doc.add_heading("file1.txt");
    doc.add_text("content1");
    doc.add_heading("file2.txt");
    doc.add_heading("file3.txt");
    doc.add_text("content3");
    let plan = unpack_doc(&doc);
    assert_eq!(plan.files.len(), 3);
    assert_eq!(content_of(&plan, "file2.txt"), Some(""));
}

#[test]
fn unpack_tests_test_unpack_roundtrip_pack_unpack() {
    roundtrip_pack_unpack();
}

#[test]
fn all_tests_test_unpack_roundtrip_pack_unpack() {
    roundtrip_pack_unpack();
}

#[test]
fn unpack_tests_test_unpack_empty_file_between_headings() {
    empty_file_between_headings();
}

#[test]
fn all_tests_test_unpack_empty_file_between_headings() {
    empty_file_between_headings();
}

#[test]
fn unpack_tests_test_unpack_empty_file_at_end() {
    empty_file_at_end();
}

#[test]
fn all_tests_test_unpack_empty_file_at_end() {
    empty_file_at_end();
}

#[test]
fn unpack_tests_test_unpack_multiple_body_paragraphs() {
    multiple_body_paragraphs();
}

#[test]
fn all_tests_test_unpack_multiple_body_paragraphs() {
    multiple_body_paragraphs();
}

#[test]
fn unpack_tests_test_unpack_multiple_body_paragraphs_different_headings() {
    multiple_body_paragraphs_different_headings();
}

#[test]
fn all_tests_test_unpack_multiple_body_paragraphs_different_headings() {
    multiple_body_paragraphs_different_headings();
}

#[test]
fn unpack_tests_test_unpack_multi_line_content_preserves_newlines() {
    multi_line_content_preserves_newlines();
}

#[test]
fn all_tests_test_unpack_multi_line_content_preserves_newlines() {
    multi_line_content_preserves_newlines();
}

#[test]
fn unpack_tests_test_unpack_empty_file_at_end_no_trailing_content() {
    empty_file_at_end_no_trailing_content();
}

#[test]
fn all_tests_test_unpack_empty_file_at_end_no_trailing_content() {
    empty_file_at_end_no_trailing_content();
}

#[test]
fn test_default_output_path() {
    let out = default_output_path("C:\\Users\\test\\document.docx");
    assert!(out.contains("document_unpacked"));
    assert!(!out.contains(".docx"));
}

#[test]
fn default_output_path_of_unix_paths() {
    assert_eq!(default_output_path("/tmp/archive.docx"), "/tmp/archive_unpacked");
    assert_eq!(default_output_path("archive"), "archive_unpacked");
    assert_eq!(default_output_path("a.b.docx"), "a.b_unpacked");
    assert_eq!(default_output_path(".hidden"), ".hidden_unpacked");
}

#[test]
fn heading_paths_are_checked() {
    assert_eq!(validate_heading_path("  src\\main.rs "), Ok("src/main.rs".to_string()));
    assert_eq!(validate_heading_path("a:b?.txt"), Ok("a_b_.txt".to_string()));
    assert_eq!(validate_heading_path("   "), Err("Empty heading path".to_string()));
    assert_eq!(
        validate_heading_path("/etc/passwd"),
        Err("Absolute path not allowed: /etc/passwd".to_string())
    );
    assert_eq!(validate_heading_path("C:\\x"), Err("Absolute path not allowed: C:\\x".to_string()));
    assert_eq!(
        validate_heading_path("a/../b"),
        Err("Path traversal (..) is not allowed".to_string())
    );
    assert_eq!(
        validate_heading_path("dir/con.txt"),
        Err("Windows reserved name: con.txt".to_string())
    );
}

#[test]
fn unpack_stops_at_a_bad_heading() {
    let mut doc = Document::new();
    doc.add_heading("ok.txt");
    doc.add_text("fine");
    doc.add_heading("../escape.txt");
    doc.add_text("bad");
    doc.add_heading("later.txt");
    let plan = plan_unpack(&doc);
    assert_eq!(plan.files.len(), 1);
    assert_eq!(plan.files[0].path, "ok.txt");
    assert_eq!(plan.error.as_deref(), Some("Path traversal (..) is not allowed"));
}

#[test]
fn text_before_the_first_heading_is_dropped() {
    let mut doc = Document::new();
    doc.add_text("preamble");
    doc.add_heading("a.txt");
    doc.add_text("x\n\n");
    let plan = plan_unpack(&doc);
    assert!(plan.error.is_none());
    assert_eq!(plan.files.len(), 1);
    assert_eq!(plan.files[0].content, "x\n");
}

#[test]
fn packed_files_come_back_with_slashes_and_exact_contents() {
    let src = DirSource {
        is_dir: true,
        display: "d".to_string(),
        entries: vec![
            entry("a\\b.txt", b"one\ntwo\n"),
            entry("c.txt", b""),
            entry("d.txt", b"x\r\ny\r\n\n"),
            entry("e.txt", b"\n"),
        ],
    };
    let packed = pack_dir(&src, &ExcludeRules { patterns: Vec::new() }, &Vec::new()).unwrap();
    let plan = unpack_bytes(packed.docx);
    assert!(plan.error.is_none());
    let got: Vec<(&str, &str)> = plan.files.iter().map(|f| (f.path.as_str(), f.content.as_str())).collect();
    assert_eq!(
        got,
        vec![("a/b.txt", "one\ntwo\n"), ("c.txt", ""), ("d.txt", "x\r\ny\r\n\n"), ("e.txt", "\n")]
    );
}

#[test]
fn a_heading_without_body_gives_an_empty_file() {
    let mut doc = Document::new();
    doc.add_heading("a.txt");
    let plan = plan_unpack(&doc);
    assert_eq!(plan.files.len(), 1);
    assert_eq!(plan.files[0].content, "");
}
