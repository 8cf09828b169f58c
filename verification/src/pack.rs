//! Packing files into a document: which files of a directory are packed, how their
//! content is read as text, and the document and archive that hold them.
use vstd::prelude::*;
use crate::detect::decode_text;
use crate::detect::decode_text_spec;
use crate::detect::is_text_file;
use crate::detect::is_text_spec;
use crate::docx::model::Document;
use crate::docx::model::DocumentView;
use crate::docx::model::ParagraphView;
use crate::docx::model::Paragraph;
use crate::docx::model::Run;
use crate::docx::model::body_paragraph;
use crate::docx::model::heading_paragraph;
use crate::docx::writer::archive_entries;
use crate::docx::writer::docx_parts_spec;
use crate::docx::writer::docx_fits;
use crate::docx::writer::write_docx;
use crate::ignore::ExcludeRules;
use crate::ignore::RuleView;
use crate::ignore::excludes;
use crate::docx::reader::read_docx_spec;
use crate::docx::writer::read_back_spec;
use crate::text::chars_eq;
use crate::text::chars_of;
use crate::text::copy_string;
use crate::text::push_decimal;
use crate::text::push_str;
use crate::text::replace_char;
use crate::text::string_of;
use crate::text::lemma_find_char_at;
use crate::text::sub_chars;
use crate::unpack::split_on;
use crate::text::decimal;
use crate::zipio::zip_archive_bytes;

verus! {

broadcast use vstd::string::group_string_axioms;

/// Progress of a pack, as reported to a user.
#[derive(Clone)]
pub struct Progress {
    pub current: usize,
    pub total: usize,
    pub file: String,
    pub phase: ProgressPhase,
}

/// The stage a pack is in.
#[derive(Clone, Copy, PartialEq, Eq, Structural)]
pub enum ProgressPhase {
    Collecting,
    Reading,
    Writing,
    Done,
}

/// The text files found under a directory, and how many files were skipped as binary.
pub struct TextFiles {
    pub text_files: Vec<String>,
    pub binary_skipped: usize,
}

/// What a finished pack reports.
pub struct PackResult {
    pub file_count: usize,
    pub binary_skipped: usize,
    pub output_path: String,
}

/// A file found under a directory, as its caller read it: the path relative to the
/// directory, its first bytes (at most 8192; `None` when they could not be read), and
/// its whole content (or the message of the read error).
pub struct SourceEntry {
    pub rel_path: String,
    pub head: Option<Vec<u8>>,
    pub content: Result<Vec<u8>, String>,
}

/// A directory to pack: whether the path is a directory at all, how to name it in a
/// message, and the files under it in the order they were found.
pub struct DirSource {
    pub is_dir: bool,
    pub display: String,
    pub entries: Vec<SourceEntry>,
}

/// A single file to pack: how to name it in a message, the name it is packed under,
/// and what was read of it.
pub struct FileSource {
    pub display: String,
    pub name: String,
    pub head: Option<Vec<u8>>,
    pub content: Result<Vec<u8>, String>,
}

/// One path given to a pack.
pub enum PackSource {
    Directory(DirSource),
    File(FileSource),
}

/// The files a pack will put into the document (relative path and text, in order),
/// and how many it skipped as binary.
pub struct Gathered {
    pub files: Vec<(String, String)>,
    pub binary_skipped: usize,
}

/// What a pack produced before its caller writes it out: the archive bytes and the counts.
pub struct PackOutcome {
    pub docx: Vec<u8>,
    pub file_count: usize,
    pub binary_skipped: usize,
}

pub open spec fn labels_of(local_encodings: Seq<String>) -> Seq<Seq<char>> {
    local_encodings.map_values(|s: String| s@)
}

/// Whether what was read of a file's first bytes shows text.
pub open spec fn head_is_text(head: Option<Vec<u8>>, labels: Seq<Seq<char>>) -> bool {
    match head {
        Some(h) => is_text_spec(h@, labels),
        None => false,
    }
}

/// The text of a file's content, or the read error.
pub open spec fn content_text(content: Result<Vec<u8>, String>, labels: Seq<Seq<char>>) -> Result<Seq<char>, Seq<char>> {
    match content {
        Ok(b) => Ok(decode_text_spec(b@, labels)),
        Err(m) => Err(m@),
    }
}

/// The relative paths of the entries that are not excluded and show text, in order,
/// and the number of entries that are not excluded and do not.
pub open spec fn classify(entries: Seq<SourceEntry>, rules: Seq<RuleView>, labels: Seq<Seq<char>>) -> (Seq<Seq<char>>, nat)
    decreases entries.len(),
{
    if entries.len() == 0 {
        (Seq::empty(), 0)
    } else {
        let (texts, binary) = classify(entries.drop_last(), rules, labels);
        let e = entries.last();
        if excludes(rules, e.rel_path@) {
            (texts, binary)
        } else if head_is_text(e.head, labels) {
            (texts.push(e.rel_path@), binary)
        } else {
            (texts, binary + 1)
        }
    }
}

/// The packed files of a directory's entries (path and text, in order) and the
/// number skipped as binary, or the first read error of a packed file.
pub open spec fn gather_entries(entries: Seq<SourceEntry>, rules: Seq<RuleView>, labels: Seq<Seq<char>>) -> Result<(Seq<(Seq<char>, Seq<char>)>, nat), Seq<char>>
    decreases entries.len(),
{
    if entries.len() == 0 {
        Ok((Seq::empty(), 0))
    } else {
        match gather_entries(entries.drop_last(), rules, labels) {
            Err(m) => Err(m),
            Ok((files, binary)) => {
                let e = entries.last();
                if excludes(rules, e.rel_path@) {
                    Ok((files, binary))
                } else if head_is_text(e.head, labels) {
                    match content_text(e.content, labels) {
                        Ok(t) => Ok((files.push((e.rel_path@, t)), binary)),
                        Err(m) => Err(m),
                    }
                } else {
                    Ok((files, binary + 1))
                }
            },
        }
    }
}

/// What gathering a directory gives: an error when the path is no directory,
/// otherwise [`gather_entries`].
pub open spec fn gather_dir_spec(src: DirSource, rules: Seq<RuleView>, labels: Seq<Seq<char>>) -> Result<(Seq<(Seq<char>, Seq<char>)>, nat), Seq<char>> {
    if !src.is_dir {
        Err("Expect directory, got file: "@ + src.display@)
    } else {
        gather_entries(src.entries@, rules, labels)
    }
}

/// The body paragraphs for a packed file's text: one per piece of the text between
/// line feeds (see [`split_on`]), so that a final line feed leaves an empty last
/// paragraph and carriage returns stay in the text.
pub open spec fn content_paragraphs(text: Seq<char>) -> Seq<ParagraphView> {
    split_on(text, '\n').map_values(|l: Seq<char>| body_paragraph(l))
}

/// The paragraphs for packed files: for each, a heading with its path (`\` written
/// as `/`), then its text as [`content_paragraphs`].
pub open spec fn pack_paragraphs(files: Seq<(Seq<char>, Seq<char>)>) -> Seq<ParagraphView>
    decreases files.len(),
{
    if files.len() == 0 {
        Seq::empty()
    } else {
        pack_paragraphs(files.drop_last()) + seq![heading_paragraph(replace_char(files.last().0, '\\', '/'))]
            + content_paragraphs(files.last().1)
    }
}

/// The document for packed files.
pub open spec fn pack_document(files: Seq<(Seq<char>, Seq<char>)>) -> DocumentView {
    DocumentView { paragraphs: pack_paragraphs(files), header: None }
}

/// The archive bytes for packed files.
pub open spec fn pack_archive(files: Seq<(Seq<char>, Seq<char>)>) -> Seq<u8> {
    zip_archive_bytes(archive_entries(docx_parts_spec(pack_document(files))))
}

pub open spec fn gathered_view(g: Gathered) -> (Seq<(Seq<char>, Seq<char>)>, nat) {
    (g.files@.map_values(|f: (String, String)| (f.0@, f.1@)), g.binary_skipped as nat)
}

/// Whether the first bytes of a file show text.
fn head_text(head: &Option<Vec<u8>>, local_encodings: &Vec<String>) -> (r: bool)
    ensures
        r == head_is_text(*head, labels_of(local_encodings@)),
{
    match head {
        Some(h) => is_text_file(h.as_slice(), local_encodings),
        None => false,
    }
}

/// The text files among a directory's entries (see [`classify`]); an error when the
/// path is no directory.
pub fn collect_text_files(src: &DirSource, exclude_rules: &ExcludeRules, local_encodings: &Vec<String>) -> (r: Result<TextFiles, String>)
    ensures
        match r {
            Ok(t) => src.is_dir && t.text_files@.map_values(|s: String| s@) == classify(src.entries@, exclude_rules@, labels_of(local_encodings@)).0
                && t.binary_skipped == classify(src.entries@, exclude_rules@, labels_of(local_encodings@)).1,
            Err(m) => !src.is_dir && m@ == "Expect directory, got file: "@ + src.display@,
        },
{
    if !src.is_dir {
        let mut m = String::new();
        push_str(&mut m, "Expect directory, got file: ");
        push_str(&mut m, src.display.as_str());
        return Err(m);
    }
    let ghost es = src.entries@;
    let ghost rules = exclude_rules@;
    let ghost labels = labels_of(local_encodings@);
    let mut text_files: Vec<String> = Vec::new();
    let mut binary_skipped: usize = 0;
    let mut i: usize = 0;
    assert(es.take(0) =~= Seq::<SourceEntry>::empty());
    assert(text_files@.map_values(|s: String| s@) =~= Seq::<Seq<char>>::empty());
    while i < src.entries.len()
        invariant
            i <= src.entries.len(),
            es == src.entries@,
            rules == exclude_rules@,
            labels == labels_of(local_encodings@),
            text_files@.map_values(|s: String| s@) == classify(es.take(i as int), rules, labels).0,
            binary_skipped == classify(es.take(i as int), rules, labels).1,
            binary_skipped <= i,
        decreases src.entries.len() - i,
    {
        assert(es.take(i + 1).drop_last() == es.take(i as int));
        let e = &src.entries[i];
        if exclude_rules.is_excluded(e.rel_path.as_str()) {
        } else if head_text(&e.head, local_encodings) {
            let ghost before = text_files@.map_values(|s: String| s@);
            text_files.push(copy_string(&e.rel_path));
            assert(text_files@.map_values(|s: String| s@) =~= before.push(e.rel_path@));
        } else {
            binary_skipped += 1;
        }
        i += 1;
    }
    assert(es.take(i as int) == es);
    Ok(TextFiles { text_files, binary_skipped })
}

/// Appends the packed files of a directory's entries to `files` and adds the number
/// skipped as binary (see [`gather_entries`]); the first read error otherwise.
fn gather_entries_into(entries: &Vec<SourceEntry>, exclude_rules: &ExcludeRules, local_encodings: &Vec<String>, files: &mut Vec<(String, String)>, binary: &mut usize) -> (r: Result<(), String>)
    requires
        *old(binary) + entries.len() <= usize::MAX,
    ensures
        *final(binary) <= *old(binary) + entries@.len(),
        match gather_entries(entries@, exclude_rules@, labels_of(local_encodings@)) {
            Ok((fs, n)) => r is Ok && final(files)@.map_values(|f: (String, String)| (f.0@, f.1@))
                == old(files)@.map_values(|f: (String, String)| (f.0@, f.1@)) + fs && *final(binary) == *old(binary) + n,
            Err(m) => r is Err && r->Err_0@ == m,
        },
{
    let ghost es = entries@;
    let ghost rules = exclude_rules@;
    let ghost labels = labels_of(local_encodings@);
    let ghost f0 = files@.map_values(|f: (String, String)| (f.0@, f.1@));
    let ghost b0 = *binary;
    let mut i: usize = 0;
    assert(es.take(0) =~= Seq::<SourceEntry>::empty());
    assert(f0 + Seq::<(Seq<char>, Seq<char>)>::empty() =~= f0);
    while i < entries.len()
        invariant
            i <= entries.len(),
            es == entries@,
            rules == exclude_rules@,
            labels == labels_of(local_encodings@),
            b0 + entries.len() <= usize::MAX,
            gather_entries(es.take(i as int), rules, labels) matches Ok((fs, n)) && files@.map_values(
                |f: (String, String)| (f.0@, f.1@),
            ) == f0 + fs && *binary == b0 + n && n <= i,
            *binary <= b0 + i,
            b0 == *old(binary),
        decreases entries.len() - i,
    {
        assert(es.take(i + 1).drop_last() == es.take(i as int));
        let e = &entries[i];
        let ghost before = files@.map_values(|f: (String, String)| (f.0@, f.1@));
        if exclude_rules.is_excluded(e.rel_path.as_str()) {
        } else if head_text(&e.head, local_encodings) {
            match &e.content {
                Ok(bytes) => {
                    let text = decode_text(bytes.as_slice(), local_encodings);
                    let rel = copy_string(&e.rel_path);
                    files.push((rel, text));
                    assert(files@.map_values(|f: (String, String)| (f.0@, f.1@)) =~= before.push((e.rel_path@, decode_text_spec(bytes@, labels))));
                },
                Err(m) => {
                    let mm = copy_string(m);
                    proof {
                        lemma_gather_error_sticks(es, rules, labels, i as int + 1);
                        assert(es.take(entries.len() as int) == es);
                    }
                    return Err(mm);
                },
            }
        } else {
            *binary = *binary + 1;
        }
        i += 1;
    }
    assert(es.take(i as int) == es);
    Ok(())
}

/// Once gathering has failed, later entries change nothing.
pub proof fn lemma_gather_error_sticks(es: Seq<SourceEntry>, rules: Seq<RuleView>, labels: Seq<Seq<char>>, k: int)
    requires
        0 <= k <= es.len(),
        gather_entries(es.take(k), rules, labels) is Err,
    ensures
        gather_entries(es, rules, labels) == gather_entries(es.take(k), rules, labels),
    decreases es.len() - k,
{
    if k < es.len() {
        assert(es.take(k + 1).drop_last() == es.take(k));
        lemma_gather_error_sticks(es, rules, labels, k + 1);
    } else {
        assert(es.take(k) == es);
    }
}

/// The packed files of a directory (see [`gather_dir_spec`]).
pub fn gather_dir(src: &DirSource, exclude_rules: &ExcludeRules, local_encodings: &Vec<String>) -> (r: Result<Gathered, String>)
    ensures
        match gather_dir_spec(*src, exclude_rules@, labels_of(local_encodings@)) {
            Ok(g) => r is Ok && gathered_view(r.unwrap()) == g,
            Err(m) => r is Err && r->Err_0@ == m,
        },
{
    if !src.is_dir {
        let mut m = String::new();
        push_str(&mut m, "Expect directory, got file: ");
        push_str(&mut m, src.display.as_str());
        return Err(m);
    }
    let mut files: Vec<(String, String)> = Vec::new();
    let mut binary: usize = 0;
    assert(files@.map_values(|f: (String, String)| (f.0@, f.1@)) =~= Seq::<(Seq<char>, Seq<char>)>::empty());
    match gather_entries_into(&src.entries, exclude_rules, local_encodings, &mut files, &mut binary) {
        Ok(()) => {
            proof {
                let fs = gather_entries(src.entries@, exclude_rules@, labels_of(local_encodings@))->Ok_0.0;
                assert(Seq::<(Seq<char>, Seq<char>)>::empty() + fs =~= fs);
            }
            Ok(Gathered { files, binary_skipped: binary })
        },
        Err(m) => Err(m),
    }
}

/// How many inputs the sources hold: each directory entry and each single file.
pub open spec fn input_count(srcs: Seq<PackSource>) -> nat
    decreases srcs.len(),
{
    if srcs.len() == 0 {
        0
    } else {
        input_count(srcs.drop_last()) + match srcs.last() {
            PackSource::Directory(d) => d.entries@.len(),
            PackSource::File(_) => 1nat,
        }
    }
}

/// The packed files of several sources, in order, and the number skipped as binary;
/// or the first error.
pub open spec fn gather_sources_spec(srcs: Seq<PackSource>, rules: Seq<RuleView>, labels: Seq<Seq<char>>) -> Result<(Seq<(Seq<char>, Seq<char>)>, nat), Seq<char>>
    decreases srcs.len(),
{
    if srcs.len() == 0 {
        Ok((Seq::empty(), 0))
    } else {
        match gather_sources_spec(srcs.drop_last(), rules, labels) {
            Err(m) => Err(m),
            Ok((fs, n)) => match srcs.last() {
                PackSource::Directory(d) => match gather_dir_spec(d, rules, labels) {
                    Err(m) => Err(m),
                    Ok((fs2, n2)) => Ok((fs + fs2, n + n2)),
                },
                PackSource::File(f) => if !head_is_text(f.head, labels) {
                    Ok((fs, n + 1))
                } else {
                    match content_text(f.content, labels) {
                        Ok(t) => Ok((fs.push((f.name@, t)), n)),
                        Err(m) => Err(m),
                    }
                },
            },
        }
    }
}

/// The first path that repeats an earlier one.
pub open spec fn first_duplicate(ps: Seq<Seq<char>>) -> Option<Seq<char>>
    decreases ps.len(),
{
    if ps.len() == 0 {
        None
    } else {
        match first_duplicate(ps.drop_last()) {
            Some(d) => Some(d),
            None => if ps.drop_last().contains(ps.last()) {
                Some(ps.last())
            } else {
                None
            },
        }
    }
}

/// What a pack of several paths gathers: an error when there are none; a single
/// directory as [`gather_dir_spec`]; otherwise [`gather_sources_spec`], refused when
/// two packed files would have the same path.
pub open spec fn pack_files_spec(srcs: Seq<PackSource>, rules: Seq<RuleView>, labels: Seq<Seq<char>>) -> Result<(Seq<(Seq<char>, Seq<char>)>, nat), Seq<char>> {
    if srcs.len() == 0 {
        Err("No sources"@)
    } else if srcs.len() == 1 && srcs[0] is Directory {
        gather_dir_spec(srcs[0]->Directory_0, rules, labels)
    } else {
        match gather_sources_spec(srcs, rules, labels) {
            Err(m) => Err(m),
            Ok((fs, n)) => match first_duplicate(fs.map_values(|f: (Seq<char>, Seq<char>)| f.0)) {
                Some(d) => Err("duplicate file path in sources: "@ + d + " (unpack would overwrite it)"@),
                None => Ok((fs, n)),
            },
        }
    }
}

pub proof fn lemma_sources_error_sticks(srcs: Seq<PackSource>, rules: Seq<RuleView>, labels: Seq<Seq<char>>, k: int)
    requires
        0 <= k <= srcs.len(),
        gather_sources_spec(srcs.take(k), rules, labels) is Err,
    ensures
        gather_sources_spec(srcs, rules, labels) == gather_sources_spec(srcs.take(k), rules, labels),
    decreases srcs.len() - k,
{
    if k < srcs.len() {
        assert(srcs.take(k + 1).drop_last() == srcs.take(k));
        lemma_sources_error_sticks(srcs, rules, labels, k + 1);
    } else {
        assert(srcs.take(k) == srcs);
    }
}

pub proof fn lemma_input_count_prefix(srcs: Seq<PackSource>, k: int)
    requires
        0 <= k <= srcs.len(),
    ensures
        input_count(srcs.take(k)) <= input_count(srcs),
    decreases srcs.len() - k,
{
    if k < srcs.len() {
        assert(srcs.take(k + 1).drop_last() == srcs.take(k));
        lemma_input_count_prefix(srcs, k + 1);
    } else {
        assert(srcs.take(k) == srcs);
    }
}

/// The number of inputs the sources hold (see [`input_count`]), when it fits a
/// `usize`; `None` otherwise.
pub fn count_inputs(sources: &Vec<PackSource>) -> (r: Option<usize>)
    ensures
        match r {
            Some(n) => n == input_count(sources@),
            None => input_count(sources@) > usize::MAX,
        },
{
    let ghost ss = sources@;
    let mut total: usize = 0;
    let mut i: usize = 0;
    assert(ss.take(0) =~= Seq::<PackSource>::empty());
    while i < sources.len()
        invariant
            i <= sources.len(),
            ss == sources@,
            total == input_count(ss.take(i as int)),
        decreases sources.len() - i,
    {
        let n: usize = match &sources[i] {
            PackSource::Directory(d) => d.entries.len(),
            PackSource::File(_) => 1,
        };
        proof {
            assert(ss.take(i + 1).drop_last() =~= ss.take(i as int));
            assert(ss.take(i + 1).last() == ss[i as int]);
        }
        match total.checked_add(n) {
            Some(t) => {
                total = t;
            },
            None => {
                proof {
                    lemma_input_count_prefix(ss, i + 1);
                }
                return None;
            },
        }
        i += 1;
    }
    assert(ss.take(i as int) =~= ss);
    Some(total)
}

/// The packed files of several sources (see [`gather_sources_spec`]).
fn gather_sources(sources: &Vec<PackSource>, exclude_rules: &ExcludeRules, local_encodings: &Vec<String>) -> (r: Result<Gathered, String>)
    requires
        input_count(sources@) <= usize::MAX,
    ensures
        match gather_sources_spec(sources@, exclude_rules@, labels_of(local_encodings@)) {
            Ok(g) => r is Ok && gathered_view(r.unwrap()) == g,
            Err(m) => r is Err && r->Err_0@ == m,
        },
{
    let ghost ss = sources@;
    let ghost rules = exclude_rules@;
    let ghost labels = labels_of(local_encodings@);
    let mut files: Vec<(String, String)> = Vec::new();
    let mut binary: usize = 0;
    let mut i: usize = 0;
    assert(ss.take(0) =~= Seq::<PackSource>::empty());
    assert(files@.map_values(|f: (String, String)| (f.0@, f.1@)) =~= Seq::<(Seq<char>, Seq<char>)>::empty());
    while i < sources.len()
        invariant
            i <= sources.len(),
            ss == sources@,
            rules == exclude_rules@,
            labels == labels_of(local_encodings@),
            input_count(ss) <= usize::MAX,
            binary <= input_count(ss.take(i as int)),
            gather_sources_spec(ss.take(i as int), rules, labels) == Ok::<(Seq<(Seq<char>, Seq<char>)>, nat), Seq<char>>(
                (files@.map_values(|f: (String, String)| (f.0@, f.1@)), binary as nat),
            ),
        decreases sources.len() - i,
    {
        assert(ss.take(i + 1).drop_last() == ss.take(i as int));
        proof {
            lemma_input_count_prefix(ss, i + 1);
        }
        let ghost before = files@.map_values(|f: (String, String)| (f.0@, f.1@));
        match &sources[i] {
            PackSource::Directory(d) => {
                if !d.is_dir {
                    let mut m = String::new();
                    push_str(&mut m, "Expect directory, got file: ");
                    push_str(&mut m, d.display.as_str());
                    proof {
                        lemma_sources_error_sticks(ss, rules, labels, i + 1);
                    }
                    return Err(m);
                }
                match gather_entries_into(&d.entries, exclude_rules, local_encodings, &mut files, &mut binary) {
                    Ok(()) => {},
                    Err(m) => {
                        proof {
                            lemma_sources_error_sticks(ss, rules, labels, i + 1);
                        }
                        return Err(m);
                    },
                }
            },
            PackSource::File(f) => {
                if !head_text(&f.head, local_encodings) {
                    binary += 1;
                } else {
                    match &f.content {
                        Ok(bytes) => {
                            let text = decode_text(bytes.as_slice(), local_encodings);
                            let name = copy_string(&f.name);
                            files.push((name, text));
                            assert(files@.map_values(|f: (String, String)| (f.0@, f.1@)) =~= before.push((f.name@, decode_text_spec(bytes@, labels))));
                        },
                        Err(m) => {
                            proof {
                                lemma_sources_error_sticks(ss, rules, labels, i + 1);
                            }
                            return Err(copy_string(m));
                        },
                    }
                }
            },
        }
        i += 1;
    }
    assert(ss.take(i as int) == ss);
    Ok(Gathered { files, binary_skipped: binary })
}

/// The first path among the packed files that repeats an earlier one.
fn find_duplicate(files: &Vec<(String, String)>) -> (r: Option<String>)
    ensures
        crate::docx::model::opt_view(r) == first_duplicate(files@.map_values(|f: (String, String)| f.0@)),
{
    let ghost ps = files@.map_values(|f: (String, String)| f.0@);
    let mut j: usize = 0;
    assert(ps.take(0) =~= Seq::<Seq<char>>::empty());
    while j < files.len()
        invariant
            j <= files.len(),
            ps == files@.map_values(|f: (String, String)| f.0@),
            first_duplicate(ps.take(j as int)) is None,
        decreases files.len() - j,
    {
        let cj = chars_of(files[j].0.as_str());
        let mut i: usize = 0;
        while i < j
            invariant
                i <= j < files.len(),
                ps == files@.map_values(|f: (String, String)| f.0@),
                cj@ == ps[j as int],
                first_duplicate(ps.take(j as int)) is None,
                forall|k: int| 0 <= k < i ==> ps[k] != ps[j as int],
            decreases j - i,
        {
            let ci = chars_of(files[i].0.as_str());
            if chars_eq(ci.as_slice(), cj.as_slice()) {
                proof {
                    assert(ps.take(j + 1).drop_last() == ps.take(j as int));
                    assert(ps.take(j as int)[i as int] == ps[j as int]);
                    assert(ps.take(j as int).contains(ps[j as int]));
                    assert(ps.take(j + 1).last() == ps[j as int]);
                    assert(first_duplicate(ps.take(j + 1)) == Some(ps[j as int]));
                    lemma_duplicate_sticks(ps, j as int + 1);
                }
                return Some(copy_string(&files[j].0));
            }
            i += 1;
        }
        proof {
            assert(ps.take(j + 1).drop_last() == ps.take(j as int));
            if ps.take(j as int).contains(ps[j as int]) {
                let k = choose|k: int| 0 <= k < j && ps.take(j as int)[k] == ps[j as int];
                assert(ps[k] == ps[j as int]);
            }
        }
        j += 1;
    }
    assert(ps.take(j as int) == ps);
    None
}

pub proof fn lemma_duplicate_sticks(ps: Seq<Seq<char>>, k: int)
    requires
        0 <= k <= ps.len(),
        first_duplicate(ps.take(k)) is Some,
    ensures
        first_duplicate(ps) == first_duplicate(ps.take(k)),
    decreases ps.len() - k,
{
    if k < ps.len() {
        assert(ps.take(k + 1).drop_last() == ps.take(k));
        lemma_duplicate_sticks(ps, k + 1);
    } else {
        assert(ps.take(k) == ps);
    }
}

/// Appends a body paragraph holding `piece`.
fn push_body(doc: &mut Document, piece: &Vec<char>)
    ensures
        final(doc)@.paragraphs == old(doc)@.paragraphs.push(body_paragraph(piece@)),
        final(doc)@.header == old(doc)@.header,
{
    let mut runs: Vec<Run> = Vec::new();
    runs.push(Run { text: string_of(piece.as_slice()) });
    assert(runs@.map_values(|x: Run| x@) =~= seq![piece@]);
    let ghost before = doc@.paragraphs;
    doc.paragraphs.push(Paragraph { style: None, runs });
    assert(doc@.paragraphs =~= before.push(body_paragraph(piece@)));
}

/// Appends the body paragraphs for a packed file's text (see [`content_paragraphs`]).
fn add_content(doc: &mut Document, text: &str)
    ensures
        final(doc)@.paragraphs == old(doc)@.paragraphs + content_paragraphs(text@),
        final(doc)@.header == old(doc)@.header,
{
    let cs = chars_of(text);
    let ghost p0 = doc@.paragraphs;
    let ghost h0 = doc@.header;
    let ghost mut done: Seq<Seq<char>> = Seq::empty();
    let mut start: usize = 0;
    let mut i: usize = 0;
    assert(cs@.skip(0) =~= cs@);
    assert(done + split_on(cs@, '\n') =~= split_on(cs@, '\n'));
    assert(p0 + done.map_values(|l: Seq<char>| body_paragraph(l)) =~= p0);
    while i < cs.len()
        invariant
            start <= i <= cs.len(),
            cs@ == text@,
            done + split_on(cs@.skip(start as int), '\n') == split_on(cs@, '\n'),
            doc@.paragraphs == p0 + done.map_values(|l: Seq<char>| body_paragraph(l)),
            doc@.header == h0,
            forall|j: int| start <= j < i ==> cs@[j] != '\n',
        decreases cs.len() - i,
    {
        if cs[i] == '\n' {
            let ghost t = cs@.skip(start as int);
            proof {
                lemma_find_char_at(t, '\n', i - start);
                assert(t.take(i - start) =~= cs@.subrange(start as int, i as int));
                assert(t.skip(i - start + 1) =~= cs@.skip(i + 1));
                assert(split_on(t, '\n') == seq![t.take(i - start)] + split_on(t.skip(i - start + 1), '\n'));
            }
            let piece = sub_chars(&cs, start, i);
            push_body(doc, &piece);
            proof {
                let d0 = done;
                done = done.push(piece@);
                assert(done + split_on(cs@.skip(i + 1), '\n') =~= d0 + split_on(t, '\n'));
                assert(p0 + done.map_values(|l: Seq<char>| body_paragraph(l)) =~= (p0 + d0.map_values(
                    |l: Seq<char>| body_paragraph(l),
                )).push(body_paragraph(piece@)));
            }
            start = i + 1;
        }
        i += 1;
    }
    let ghost t = cs@.skip(start as int);
    proof {
        lemma_find_char_at(t, '\n', t.len() as int);
        assert(t =~= cs@.subrange(start as int, cs.len() as int));
        assert(split_on(t, '\n') == seq![t]);
    }
    let piece = sub_chars(&cs, start, cs.len());
    push_body(doc, &piece);
    proof {
        let d0 = done;
        done = done.push(piece@);
        assert(done =~= d0 + split_on(t, '\n'));
        assert(p0 + done.map_values(|l: Seq<char>| body_paragraph(l)) =~= (p0 + d0.map_values(
            |l: Seq<char>| body_paragraph(l),
        )).push(body_paragraph(piece@)));
        assert(done.map_values(|l: Seq<char>| body_paragraph(l)) =~= content_paragraphs(text@));
    }
}

/// The document for packed files: for each, a heading with its path (`\` written as
/// `/`), then its text one paragraph per piece between line feeds.
pub fn build_doc_from_files(files: &Vec<(String, String)>) -> (r: Document)
    ensures
        r@ == pack_document(files@.map_values(|f: (String, String)| (f.0@, f.1@))),
{
    let ghost fs = files@.map_values(|f: (String, String)| (f.0@, f.1@));
    let mut doc = Document::new();
    let mut i: usize = 0;
    assert(fs.take(0) =~= Seq::<(Seq<char>, Seq<char>)>::empty());
    while i < files.len()
        invariant
            i <= files.len(),
            fs == files@.map_values(|f: (String, String)| (f.0@, f.1@)),
            doc@ == pack_document(fs.take(i as int)),
        decreases files.len() - i,
    {
        assert(fs.take(i + 1).drop_last() == fs.take(i as int));
        let rel = chars_of(files[i].0.as_str());
        let mut heading: Vec<char> = Vec::new();
        let mut k: usize = 0;
        while k < rel.len()
            invariant
                k <= rel.len(),
                heading@ == replace_char(rel@, '\\', '/').take(k as int),
            decreases rel.len() - k,
        {
            heading.push(if rel[k] == '\\' { '/' } else { rel[k] });
            k += 1;
            assert(heading@ =~= replace_char(rel@, '\\', '/').take(k as int));
        }
        assert(replace_char(rel@, '\\', '/').take(k as int) =~= replace_char(rel@, '\\', '/'));
        let h = string_of(heading.as_slice());
        let ghost p0 = doc@.paragraphs;
        doc.add_heading(h.as_str());
        add_content(&mut doc, files[i].1.as_str());
        assert(doc@.paragraphs =~= p0 + seq![heading_paragraph(replace_char(fs[i as int].0, '\\', '/'))] + content_paragraphs(fs[i as int].1));
        i += 1;
    }
    assert(fs.take(i as int) == fs);
    doc
}

/// A message that names a failed archive write.
pub open spec fn is_write_error(m: Seq<char>) -> bool {
    exists|e: Seq<char>| m == "Write DOCX: "@ + e
}

/// What a pack of gathered files produces: on success the archive for them, which
/// reads back as [`read_back_spec`] says, and the counts; a failure is a failed
/// archive write, which does not happen while the document fits (see [`docx_fits`]).
pub open spec fn packed_from(r: Result<PackOutcome, String>, fs: Seq<(Seq<char>, Seq<char>)>, n: nat) -> bool {
    &&& docx_fits(pack_document(fs)) ==> r is Ok
    &&& match r {
        Ok(o) => o.docx@ == pack_archive(fs) && read_docx_spec(o.docx@) == Ok::<DocumentView, Seq<char>>(
            read_back_spec(pack_document(fs)),
        ) && o.file_count == fs.len() && o.binary_skipped == n,
        Err(m) => is_write_error(m@),
    }
}

fn finish_pack(g: Gathered) -> (r: Result<PackOutcome, String>)
    ensures
        packed_from(r, gathered_view(g).0, gathered_view(g).1),
{
    let doc = build_doc_from_files(&g.files);
    match write_docx(&doc) {
        Ok(docx) => Ok(PackOutcome { docx, file_count: g.files.len(), binary_skipped: g.binary_skipped }),
        Err(e) => {
            let mut m = String::new();
            push_str(&mut m, "Write DOCX: ");
            push_str(&mut m, e.as_str());
            assert(m@ == "Write DOCX: "@ + e@);
            Err(m)
        },
    }
}

/// Packs a directory: its gathered files (see [`gather_dir_spec`]) as an archive.
pub fn pack_dir(src: &DirSource, exclude_rules: &ExcludeRules, local_encodings: &Vec<String>) -> (r: Result<PackOutcome, String>)
    ensures
        match gather_dir_spec(*src, exclude_rules@, labels_of(local_encodings@)) {
            Ok((fs, n)) => packed_from(r, fs, n),
            Err(m) => r is Err && r->Err_0@ == m,
        },
{
    match gather_dir(src, exclude_rules, local_encodings) {
        Ok(g) => finish_pack(g),
        Err(m) => Err(m),
    }
}

/// Packs several paths (see [`pack_files_spec`]) as an archive.
pub fn pack_files(sources: &Vec<PackSource>, exclude_rules: &ExcludeRules, local_encodings: &Vec<String>) -> (r: Result<PackOutcome, String>)
    requires
        input_count(sources@) <= usize::MAX,
    ensures
        match pack_files_spec(sources@, exclude_rules@, labels_of(local_encodings@)) {
            Ok((fs, n)) => packed_from(r, fs, n),
            Err(m) => r is Err && r->Err_0@ == m,
        },
{
    if sources.len() == 0 {
        let mut m = String::new();
        push_str(&mut m, "No sources");
        return Err(m);
    }
    if sources.len() == 1 {
        match &sources[0] {
            PackSource::Directory(d) => {
                return pack_dir(d, exclude_rules, local_encodings);
            },
            PackSource::File(_) => {},
        }
    }
    let g = match gather_sources(sources, exclude_rules, local_encodings) {
        Ok(g) => g,
        Err(m) => {
            return Err(m);
        },
    };
    match find_duplicate(&g.files) {
        Some(d) => {
            let mut m = String::new();
            push_str(&mut m, "duplicate file path in sources: ");
            push_str(&mut m, d.as_str());
            push_str(&mut m, " (unpack would overwrite it)");
            proof {
                assert(g.files@.map_values(|f: (String, String)| f.0@) =~= gathered_view(g).0.map_values(|f: (Seq<char>, Seq<char>)| f.0));
            }
            Err(m)
        },
        None => {
            proof {
                assert(g.files@.map_values(|f: (String, String)| f.0@) =~= gathered_view(g).0.map_values(|f: (Seq<char>, Seq<char>)| f.0));
            }
            finish_pack(g)
        },
    }
}

/// The name `stem_n.ext` that a rename tries as its `n`th alternative (`ext`
/// includes its dot, or is empty).
pub fn numbered_name(stem: &str, n: u64, ext: &str) -> (r: String)
    ensures
        r@ == stem@ + seq!['_'] + decimal(n as nat) + ext@,
{
    let mut r = String::new();
    push_str(&mut r, stem);
    crate::text::push_char(&mut r, '_');
    push_decimal(&mut r, n);
    push_str(&mut r, ext);
    r
}

} // verus!
