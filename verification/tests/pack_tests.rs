use docpack::docx::model::Document;
use docpack::docx::reader::read_docx;
use docpack::ignore::ExcludeRules;
use docpack::pack::build_doc_from_files;
use docpack::pack::collect_text_files;
use docpack::pack::count_inputs;
use docpack::pack::numbered_name;
use docpack::pack::pack_dir;
use docpack::pack::pack_files;
use docpack::pack::DirSource;
use docpack::pack::FileSource;
use docpack::pack::PackSource;
use docpack::pack::SourceEntry;

fn entry(rel: &str, data: &[u8]) -> SourceEntry {
    SourceEntry {
        rel_path: rel.to_string(),
        head: Some(data[..data.len().min(8192)].to_vec()),
        content: Ok(data.to_vec()),
    }
}

fn dir(display: &str, entries: Vec<SourceEntry>) -> DirSource {
    DirSource { is_dir: true, display: display.to_string(), entries }
}

fn file(name: &str, data: &[u8]) -> FileSource {
    FileSource {
        display: name.to_string(),
        name: name.to_string(),
        head: Some(data[..data.len().min(8192)].to_vec()),
        content: Ok(data.to_vec()),
    }
}

fn collect_text_files_case() {
    let src = dir(
        "d",
        vec![
            entry("src/main.rs", b"fn main() {}"),
            entry("readme.md", b"# Hello"),
            entry("image.png", &[0x89, 0x50, 0x4E, 0x47]),
        ],
    );
    let rules = ExcludeRules::default();
    let result = collect_text_files(&src, &rules, &Vec::new()).unwrap();
    assert_eq!(result.text_files.len(), 2);
    assert_eq!(result.binary_skipped, 0);
}

fn single_file_case() {
    let src = dir("d", vec![entry("src/main.rs", b"fn main() { println!(\"hello\"); }")]);
    let rules = ExcludeRules::new();
    let result = pack_dir(&src, &rules, &Vec::new()).unwrap();
    assert_eq!(result.file_count, 1);
}

#[test]
fn pack_tests_test_pack_collect_text_files() {
    collect_text_files_case();
}

#[test]
fn all_tests_test_pack_collect_text_files() {
    collect_text_files_case();
}

#[test]
fn pack_tests_test_pack_single_file() {
    single_file_case();
}

#[test]
fn all_tests_test_pack_single_file() {
    single_file_case();
}

#[test]
fn test_collect_text_files_rejects_file() {
    let src = DirSource { is_dir: false, display: "test.txt".to_string(), entries: Vec::new() };
    let rules = ExcludeRules::new();
    let result = collect_text_files(&src, &rules, &Vec::new());
    assert!(result.is_err());
}

#[test]
fn duplicate_rel_paths_rejected() {
    let a = PackSource::Directory(dir("a", vec![entry("x.txt", b"one")]));
    let b = PackSource::Directory(dir("b", vec![entry("x.txt", b"two")]));
    let rules = ExcludeRules::new();
    let result = pack_files(&vec![a, b], &rules, &Vec::new());
    assert!(result.is_err());
    assert_eq!(
        result.err().unwrap(),
        "duplicate file path in sources: x.txt (unpack would overwrite it)"
    );
}

#[test]
fn binary_files_are_counted_and_left_out() {
    let src = dir("d", vec![entry("a.txt", b"text"), entry("blob.dat", &[0, 1, 2, 3])]);
    let packed = pack_dir(&src, &ExcludeRules { patterns: Vec::new() }, &Vec::new()).unwrap();
    assert_eq!(packed.file_count, 1);
    assert_eq!(packed.binary_skipped, 1);
    let doc = read_docx(packed.docx).unwrap();
    assert_eq!(doc.paragraphs[0].runs[0].text, "a.txt");
}

#[test]
fn excluded_files_are_not_read() {
    let mut rules = ExcludeRules { patterns: Vec::new() };
    rules.add_pattern("*.log");
    let bad = SourceEntry { rel_path: "x.log".to_string(), head: None, content: Err("denied".to_string()) };
    let src = dir("d", vec![bad, entry("b.txt", b"b")]);
    let packed = pack_dir(&src, &rules, &Vec::new()).unwrap();
    assert_eq!(packed.file_count, 1);
    assert_eq!(packed.binary_skipped, 0);
}

#[test]
fn read_error_of_a_text_file_stops_the_pack() {
    let bad = SourceEntry {
        rel_path: "x.txt".to_string(),
        head: Some(b"hello".to_vec()),
        content: Err("Read x.txt: denied".to_string()),
    };
    let src = dir("d", vec![bad]);
    let r = pack_dir(&src, &ExcludeRules { patterns: Vec::new() }, &Vec::new());
    assert_eq!(r.err().unwrap(), "Read x.txt: denied");
}

#[test]
fn test_is_text_file_nonexistent() {
    let e = SourceEntry {
        rel_path: "foo.txt".to_string(),
        head: None,
        content: Err("Read /nonexistent/foo.txt: not found".to_string()),
    };
    let src = dir("/nonexistent", vec![e]);
    let r = collect_text_files(&src, &ExcludeRules { patterns: Vec::new() }, &Vec::new()).unwrap();
    assert_eq!(r.text_files.len(), 0);
    assert_eq!(r.binary_skipped, 1);
}

#[test]
fn pack_files_of_single_files_uses_their_names() {
    let sources = vec![PackSource::File(file("a.rs", b"A")), PackSource::File(file("b.rs", b"B"))];
    let packed = pack_files(&sources, &ExcludeRules::new(), &Vec::new()).unwrap();
    assert_eq!(packed.file_count, 2);
    let doc = read_docx(packed.docx).unwrap();
    let headings: Vec<&str> = doc
        .paragraphs
        .iter()
        .filter(|p| p.is_heading())
        .map(|p| p.runs[0].text.as_str())
        .collect();
    assert_eq!(headings, vec!["a.rs", "b.rs"]);
}

#[test]
fn pack_files_of_nothing_fails() {
    let r = pack_files(&Vec::new(), &ExcludeRules::new(), &Vec::new());
    assert_eq!(r.err().unwrap(), "No sources");
}

#[test]
fn pack_files_of_a_plain_path_that_is_no_directory_fails() {
    let src = PackSource::Directory(DirSource { is_dir: false, display: "f.txt".to_string(), entries: Vec::new() });
    let r = pack_files(&vec![src], &ExcludeRules::new(), &Vec::new());
    assert_eq!(r.err().unwrap(), "Expect directory, got file: f.txt");
}

#[test]
fn build_doc_writes_heading_then_lines() {
    let files = vec![("dir\\a.txt".to_string(), "l1\nl2".to_string())];
    let doc: Document = build_doc_from_files(&files);
    assert_eq!(doc.paragraphs.len(), 3);
    assert!(doc.paragraphs[0].is_heading());
    assert_eq!(doc.paragraphs[0].runs[0].text, "dir/a.txt");
    assert_eq!(doc.paragraphs[1].runs[0].text, "l1");
    assert_eq!(doc.paragraphs[2].runs[0].text, "l2");
}

#[test]
fn build_doc_keeps_a_final_line_feed_as_an_empty_paragraph() {
    let files = vec![("a.txt".to_string(), "l1\n".to_string()), ("b.txt".to_string(), String::new())];
    let doc: Document = build_doc_from_files(&files);
    let texts: Vec<&str> = doc.paragraphs.iter().map(|p| p.runs[0].text.as_str()).collect();
    assert_eq!(texts, vec!["a.txt", "l1", "", "b.txt", ""]);
    assert!(!doc.paragraphs[2].is_heading());
}

#[test]
fn count_inputs_counts_entries_and_files() {
    let sources = vec![
        PackSource::Directory(dir("d", vec![entry("x.txt", b"x"), entry("y.txt", b"y")])),
        PackSource::File(file("a.rs", b"A")),
    ];
    assert_eq!(count_inputs(&sources), Some(3));
    assert_eq!(count_inputs(&Vec::new()), Some(0));
}

#[test]
fn gbk_file_is_decoded_with_configured_encoding() {
    let gbk: &[u8] = &[0xC4, 0xE3, 0xBA, 0xC3];
    let src = dir("d", vec![entry("g.txt", gbk)]);
    let packed = pack_dir(&src, &ExcludeRules { patterns: Vec::new() }, &vec!["GBK".to_string()]).unwrap();
    let doc = read_docx(packed.docx).unwrap();
    assert_eq!(doc.paragraphs[1].runs[0].text, "你好");
}

#[test]
fn numbered_name_formats() {
    assert_eq!(numbered_name("out", 3, ".docx"), "out_3.docx");
    assert_eq!(numbered_name("dir", 12, ""), "dir_12");
}

#[test]
fn pack_files_of_one_directory_packs_as_that_directory() {
    let make = || dir("proj", vec![entry("src/m.rs", b"fn m() {}\n"), entry("b.bin", &[0u8, 1, 2, 0, 0])]);
    let a = pack_dir(&make(), &ExcludeRules::new(), &Vec::new()).unwrap();
    let b = pack_files(&vec![PackSource::Directory(make())], &ExcludeRules::new(), &Vec::new()).unwrap();
    assert_eq!(a.docx, b.docx);
    assert_eq!((a.file_count, a.binary_skipped), (b.file_count, b.binary_skipped));
    let doc = read_docx(b.docx).unwrap();
    assert_eq!(doc.paragraphs[0].runs[0].text, "src/m.rs");
}
