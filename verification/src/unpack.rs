//! Turning a packed document back into files: checking heading paths, and cutting
//! the paragraph list into one file per heading.
use vstd::prelude::*;
use crate::constants::WINDOWS_RESERVED;
use crate::docx::model::Document;
use crate::docx::model::ParagraphView;
use crate::docx::model::is_heading_view;
use crate::text::chars_of;
use crate::text::chars_eq;
use crate::text::find_char;
use crate::text::lemma_find_char_at;
use crate::text::push_char;
use crate::text::push_str;
use crate::text::replace_char;
use crate::text::string_of;
use crate::text::sub_chars;
use crate::text::trim;
use crate::text::trim_chars;

verus! {

broadcast use vstd::string::group_string_axioms;

/// What an unpack produced: the number of files written and where.
pub struct UnpackResult {
    pub file_count: usize,
    pub output_dir: String,
}

/// A file that an unpack writes: its relative path and its content.
pub struct UnpackedFile {
    pub path: String,
    pub content: String,
}

impl View for UnpackedFile {
    type V = (Seq<char>, Seq<char>);

    open spec fn view(&self) -> (Seq<char>, Seq<char>) {
        (self.path@, self.content@)
    }
}

/// The files an unpack writes, in order, and the error that stops it, if any.
/// The files before the error are written; no file after it is.
pub struct UnpackPlan {
    pub files: Vec<UnpackedFile>,
    pub error: Option<String>,
}

/// Characters that may not stand in a written file name.
pub open spec fn is_forbidden(c: char) -> bool {
    c == '<' || c == '>' || c == ':' || c == '"' || c == '|' || c == '?' || c == '*' || c == '\0'
}

/// `s` with each forbidden character replaced by `_`.
pub open spec fn replace_forbidden(s: Seq<char>) -> Seq<char> {
    s.map_values(|c: char| if is_forbidden(c) { '_' } else { c })
}

/// The pieces of `s` between occurrences of `sep` (`str::split`); there is always
/// at least one piece.
pub open spec fn split_on(s: Seq<char>, sep: char) -> Seq<Seq<char>>
    decreases s.len(),
{
    let k = find_char(s, sep);
    if k >= s.len() {
        seq![s]
    } else {
        proof {
            crate::text::lemma_find_char_bounds(s, sep);
        }
        seq![s.take(k)] + split_on(s.skip(k + 1), sep)
    }
}

/// Index of the last `c` in `s`, or -1.
pub open spec fn rfind_char(s: Seq<char>, c: char) -> int
    decreases s.len(),
{
    if s.len() == 0 {
        -1
    } else if s.last() == c {
        s.len() - 1
    } else {
        rfind_char(s.drop_last(), c)
    }
}

/// `name` without its last extension.
pub open spec fn name_stem(name: Seq<char>) -> Seq<char> {
    let d = rfind_char(name, '.');
    if d >= 0 {
        name.take(d)
    } else {
        name
    }
}

/// ASCII letters in upper case; other characters unchanged.
pub open spec fn ascii_upper(s: Seq<char>) -> Seq<char> {
    s.map_values(|c: char| if 'a' <= c && c <= 'z' { (((c as u32) - 32) as u8) as char } else { c })
}

/// The device names that Windows reserves.
pub open spec fn reserved_names() -> Seq<Seq<char>> {
    WINDOWS_RESERVED@.map_values(|n: &str| n@)
}

/// Whether `name`, without its last extension and with ASCII letters in upper case,
/// is a reserved device name. (Upper-casing turns no character outside ASCII into
/// one of the ASCII letters these names use.)
pub open spec fn is_reserved_name(name: Seq<char>) -> bool {
    reserved_names().contains(ascii_upper(name_stem(name)))
}

pub open spec fn is_ascii_alpha(c: char) -> bool {
    ('a' <= c && c <= 'z') || ('A' <= c && c <= 'Z')
}

/// Whether a `/`-separated path is absolute on Unix or Windows: a root, a UNC
/// prefix, a drive letter, or a device prefix.
pub open spec fn is_absolute(n: Seq<char>) -> bool {
    ||| (n.len() > 0 && n[0] == '/')
    ||| (n.len() >= 2 && n[0] == '/' && n[1] == '/')
    ||| (n.len() >= 2 && is_ascii_alpha(n[0]) && n[1] == ':' && (n.len() == 2 || n[2] == '/'))
    ||| (n.len() >= 4 && n[0] == '\\' && n[1] == '\\' && (n[2] == '.' || n[2] == '?') && n[3]
        == '\\')
}

/// The error that the first bad piece of a path causes, if any: `..` or a reserved name.
pub open spec fn component_problem(cs: Seq<Seq<char>>) -> Option<Seq<char>>
    decreases cs.len(),
{
    if cs.len() == 0 {
        None
    } else if cs[0] == seq!['.', '.'] {
        Some("Path traversal (..) is not allowed"@)
    } else if is_reserved_name(cs[0]) {
        Some("Windows reserved name: "@ + cs[0])
    } else {
        component_problem(cs.skip(1))
    }
}

/// The relative path that a heading names, or why it names none: the heading is
/// trimmed and its backslashes read as `/`; it must not be empty, absolute, climb
/// with `..` or use a reserved name; forbidden characters become `_`.
pub open spec fn validate_heading(text: Seq<char>) -> Result<Seq<char>, Seq<char>> {
    let t = trim(text);
    let n = replace_char(t, '\\', '/');
    if t.len() == 0 {
        Err("Empty heading path"@)
    } else if is_absolute(n) {
        Err("Absolute path not allowed: "@ + t)
    } else {
        match component_problem(split_on(n, '/')) {
            Some(e) => Err(e),
            None => Ok(replace_forbidden(n)),
        }
    }
}

fn is_forbidden_char(c: char) -> (r: bool)
    ensures
        r == is_forbidden(c),
{
    c == '<' || c == '>' || c == ':' || c == '"' || c == '|' || c == '?' || c == '*' || c == '\0'
}

fn replace_forbidden_chars(text: &Vec<char>) -> (r: Vec<char>)
    ensures
        r@ == replace_forbidden(text@),
{
    let mut r: Vec<char> = Vec::new();
    let mut i: usize = 0;
    while i < text.len()
        invariant
            i <= text.len(),
            r@ == replace_forbidden(text@).take(i as int),
        decreases text.len() - i,
    {
        r.push(if is_forbidden_char(text[i]) { '_' } else { text[i] });
        i += 1;
        assert(r@ =~= replace_forbidden(text@).take(i as int));
    }
    assert(replace_forbidden(text@).take(i as int) =~= replace_forbidden(text@));
    r
}

fn is_windows_reserved_name(name: &Vec<char>) -> (r: bool)
    ensures
        r == is_reserved_name(name@),
{
    let mut d: usize = name.len();
    assert(name@.take(name.len() as int) == name@);
    while d > 0 && name[d - 1] != '.'
        invariant
            d <= name.len(),
            rfind_char(name@, '.') == rfind_char(name@.take(d as int), '.'),
        decreases d,
    {
        assert(name@.take(d as int).drop_last() == name@.take(d - 1));
        d -= 1;
    }
    assert(name@.take(name.len() as int) == name@);
    let stem = if d > 0 {
        assert(name@.take(d as int).last() == '.');
        sub_chars(name, 0, d - 1)
    } else {
        sub_chars(name, 0, name.len())
    };
    assert(stem@ == name_stem(name@));
    let mut upper: Vec<char> = Vec::new();
    let mut i: usize = 0;
    while i < stem.len()
        invariant
            i <= stem.len(),
            upper@ == ascii_upper(stem@).take(i as int),
        decreases stem.len() - i,
    {
        let c = stem[i];
        let u = if 'a' <= c && c <= 'z' { (((c as u32) - 32) as u8) as char } else { c };
        upper.push(u);
        i += 1;
        assert(upper@ =~= ascii_upper(stem@).take(i as int));
    }
    assert(ascii_upper(stem@).take(i as int) =~= ascii_upper(stem@));
    let mut k: usize = 0;
    while k < WINDOWS_RESERVED.len()
        invariant
            k <= WINDOWS_RESERVED@.len(),
            upper@ == ascii_upper(name_stem(name@)),
            forall|j: int| 0 <= j < k ==> reserved_names()[j] != upper@,
        decreases WINDOWS_RESERVED.len() - k,
    {
        let cand = chars_of(WINDOWS_RESERVED[k]);
        if chars_eq(cand.as_slice(), upper.as_slice()) {
            assert(reserved_names()[k as int] == upper@);
            return true;
        }
        k += 1;
    }
    false
}

fn is_absolute_path(n: &Vec<char>) -> (r: bool)
    ensures
        r == is_absolute(n@),
{
    if n.len() > 0 && n[0] == '/' {
        return true;
    }
    if n.len() >= 2 && n[0] == '/' && n[1] == '/' {
        return true;
    }
    if n.len() >= 2 && (('a' <= n[0] && n[0] <= 'z') || ('A' <= n[0] && n[0] <= 'Z')) && n[1] == ':' {
        if n.len() == 2 || n[2] == '/' {
            return true;
        }
    }
    if n.len() >= 4 && n[0] == '\\' && n[1] == '\\' && (n[2] == '.' || n[2] == '?') && n[3] == '\\' {
        return true;
    }
    false
}

/// The error for one piece of a path, if it is `..` or a reserved name.
fn piece_problem(c: &Vec<char>) -> (r: Option<String>)
    ensures
        match r {
            Some(m) => component_problem(seq![c@]) == Some(m@),
            None => component_problem(seq![c@]) is None,
        },
{
    assert(seq![c@].skip(1) =~= Seq::<Seq<char>>::empty());
    assert(component_problem(Seq::<Seq<char>>::empty()) is None);
    assert(seq![c@][0] == c@);
    if c.len() == 2 && c[0] == '.' && c[1] == '.' {
        assert(c@ =~= seq!['.', '.']);
        let mut m = String::new();
        push_str(&mut m, "Path traversal (..) is not allowed");
        return Some(m);
    }
    assert(c@ != seq!['.', '.']);
    if is_windows_reserved_name(c) {
        let mut m = String::new();
        push_str(&mut m, "Windows reserved name: ");
        let cs = string_of(c.as_slice());
        push_str(&mut m, cs.as_str());
        return Some(m);
    }
    None
}

/// The error that the first bad piece of a `/`-separated path causes, if any.
fn first_component_problem(n: &Vec<char>) -> (r: Option<String>)
    ensures
        match r {
            Some(m) => component_problem(split_on(n@, '/')) == Some(m@),
            None => component_problem(split_on(n@, '/')) is None,
        },
{
    let mut start: usize = 0;
    let mut i: usize = 0;
    assert(n@.skip(0) == n@);
    while i < n.len()
        invariant
            start <= i <= n.len(),
            component_problem(split_on(n@, '/')) == component_problem(
                split_on(n@.skip(start as int), '/'),
            ),
            forall|j: int| start <= j < i ==> n@[j] != '/',
        decreases n.len() - i,
    {
        if n[i] == '/' {
            let ghost t = n@.skip(start as int);
            proof {
                lemma_find_char_at(t, '/', i - start);
                assert(t.take(i - start) == n@.subrange(start as int, i as int));
                assert(t.skip(i - start + 1) == n@.skip(i + 1));
                assert(split_on(t, '/') == seq![t.take(i - start)] + split_on(t.skip(i - start + 1), '/'));
            }
            let piece = sub_chars(n, start, i);
            let ghost cs = split_on(t, '/');
            assert(cs[0] == piece@);
            assert(cs.skip(1) == split_on(n@.skip(i + 1), '/'));
            match piece_problem(&piece) {
                Some(m) => {
                    assert(seq![piece@].skip(1) =~= Seq::<Seq<char>>::empty());
                    assert(seq![piece@][0] == piece@);
                    assert(component_problem(Seq::<Seq<char>>::empty()) is None);
                    assert(component_problem(seq![piece@].skip(1)) is None);
                    assert(cs.len() > 0);
                    assert(component_problem(cs) == Some(m@));
                    return Some(m);
                },
                None => {
                    assert(seq![piece@].skip(1) =~= Seq::<Seq<char>>::empty());
                },
            }
            start = i + 1;
        }
        i += 1;
    }
    let ghost t = n@.skip(start as int);
    proof {
        lemma_find_char_at(t, '/', t.len() as int);
        assert(t == n@.subrange(start as int, n.len() as int));
    }
    let piece = sub_chars(n, start, n.len());
    assert(split_on(t, '/') == seq![piece@]);
    piece_problem(&piece)
}

/// The relative path that a heading names, or why it names none (see [`validate_heading`]).
pub fn validate_heading_path(text: &str) -> (r: Result<String, String>)
    ensures
        match r {
            Ok(p) => validate_heading(text@) == Ok::<Seq<char>, Seq<char>>(p@),
            Err(e) => validate_heading(text@) == Err::<Seq<char>, Seq<char>>(e@),
        },
{
    let raw = chars_of(text);
    let t = trim_chars(&raw);
    if t.len() == 0 {
        let mut m = String::new();
        push_str(&mut m, "Empty heading path");
        return Err(m);
    }
    let mut n: Vec<char> = Vec::new();
    let mut i: usize = 0;
    while i < t.len()
        invariant
            i <= t.len(),
            n@ == replace_char(t@, '\\', '/').take(i as int),
        decreases t.len() - i,
    {
        n.push(if t[i] == '\\' { '/' } else { t[i] });
        i += 1;
        assert(n@ =~= replace_char(t@, '\\', '/').take(i as int));
    }
    assert(replace_char(t@, '\\', '/').take(i as int) =~= replace_char(t@, '\\', '/'));
    if is_absolute_path(&n) {
        let mut m = String::new();
        push_str(&mut m, "Absolute path not allowed: ");
        let ts = string_of(t.as_slice());
        push_str(&mut m, ts.as_str());
        return Err(m);
    }
    match first_component_problem(&n) {
        Some(m) => Err(m),
        None => {
            let replaced = replace_forbidden_chars(&n);
            Ok(string_of(replaced.as_slice()))
        },
    }
}

/// The state of the scan over a document's paragraphs: the files produced so far,
/// the error that stopped the scan, the current heading and the body text after it.
pub struct ScanState {
    pub files: Seq<(Seq<char>, Seq<char>)>,
    pub error: Option<Seq<char>>,
    pub heading: Option<Seq<char>>,
    pub content: Seq<char>,
}

pub open spec fn scan_start() -> ScanState {
    ScanState { files: Seq::empty(), error: None, heading: None, content: Seq::empty() }
}

/// The runs of a paragraph, joined.
pub open spec fn runs_text(runs: Seq<Seq<char>>) -> Seq<char>
    decreases runs.len(),
{
    if runs.len() == 0 {
        Seq::empty()
    } else {
        runs_text(runs.drop_last()) + runs.last()
    }
}

/// `s` without the line feed that ends it, if it ends with one: the line feed that
/// the last body paragraph added.
pub open spec fn drop_final_newline(s: Seq<char>) -> Seq<char> {
    if s.len() > 0 && s.last() == '\n' {
        s.drop_last()
    } else {
        s
    }
}

/// The text of a paragraph's first run, or nothing.
pub open spec fn first_run_text(p: ParagraphView) -> Seq<char> {
    if p.runs.len() > 0 {
        p.runs[0]
    } else {
        Seq::empty()
    }
}

/// Ends the current file: a non-empty heading becomes a file (its path checked, its
/// body without the line feed that ends it), or the error that its path causes.
pub open spec fn flush(st: ScanState) -> ScanState {
    if st.error is Some {
        st
    } else {
        match st.heading {
            Some(h) => if h.len() == 0 {
                st
            } else {
                match validate_heading(h) {
                    Ok(path) => ScanState {
                        files: st.files.push((path, drop_final_newline(st.content))),
                        error: None,
                        heading: st.heading,
                        content: st.content,
                    },
                    Err(e) => ScanState {
                        files: st.files,
                        error: Some(e),
                        heading: st.heading,
                        content: st.content,
                    },
                }
            },
            None => st,
        }
    }
}

/// One paragraph of the scan: a heading ends the current file and starts the next;
/// a body paragraph adds its text and a line feed. After an error nothing changes.
pub open spec fn scan_step(st: ScanState, p: ParagraphView) -> ScanState {
    if st.error is Some {
        st
    } else if is_heading_view(p) {
        let f = flush(st);
        if f.error is Some {
            f
        } else {
            ScanState {
                files: f.files,
                error: None,
                heading: Some(first_run_text(p)),
                content: Seq::empty(),
            }
        }
    } else {
        ScanState {
            files: st.files,
            error: None,
            heading: st.heading,
            content: st.content + runs_text(p.runs) + seq!['\n'],
        }
    }
}

pub open spec fn scan(ps: Seq<ParagraphView>) -> ScanState
    decreases ps.len(),
{
    if ps.len() == 0 {
        scan_start()
    } else {
        scan_step(scan(ps.drop_last()), ps.last())
    }
}

/// What unpacking a paragraph list produces: the scan, then the last file ended.
pub open spec fn unpack_outcome(ps: Seq<ParagraphView>) -> ScanState {
    flush(scan(ps))
}

/// Once the scan has stopped on an error, later paragraphs change nothing.
pub proof fn lemma_scan_error_sticks(ps: Seq<ParagraphView>, k: int)
    requires
        0 <= k <= ps.len(),
        scan(ps.take(k)).error is Some,
    ensures
        scan(ps) == scan(ps.take(k)),
    decreases ps.len() - k,
{
    if k < ps.len() {
        assert(ps.take(k + 1).drop_last() == ps.take(k));
        lemma_scan_error_sticks(ps, k + 1);
    } else {
        assert(ps.take(k) == ps);
    }
}

fn runs_text_exec(runs: &Vec<crate::docx::model::Run>) -> (r: String)
    ensures
        r@ == runs_text(runs@.map_values(|x: crate::docx::model::Run| x@)),
{
    let ghost rv = runs@.map_values(|x: crate::docx::model::Run| x@);
    let mut r = String::new();
    let mut i: usize = 0;
    while i < runs.len()
        invariant
            i <= runs.len(),
            rv == runs@.map_values(|x: crate::docx::model::Run| x@),
            r@ == runs_text(rv.take(i as int)),
        decreases runs.len() - i,
    {
        assert(rv.take(i + 1).drop_last() == rv.take(i as int));
        push_str(&mut r, runs[i].text.as_str());
        i += 1;
    }
    assert(rv.take(i as int) == rv);
    r
}

fn drop_final_newline_exec(s: &String) -> (r: String)
    ensures
        r@ == drop_final_newline(s@),
{
    let cs = chars_of(s.as_str());
    if cs.len() > 0 && cs[cs.len() - 1] == '\n' {
        assert(cs@.subrange(0, cs.len() - 1) =~= cs@.drop_last());
        string_of(&cs.as_slice()[0..cs.len() - 1])
    } else {
        assert(cs@.subrange(0, cs.len() as int) =~= cs@);
        string_of(&cs.as_slice()[0..cs.len()])
    }
}

/// Ends the current file (see [`flush`]): pushes it, or returns the error.
fn flush_file(files: &mut Vec<UnpackedFile>, heading: &Option<String>, content: &String) -> (r: Option<String>)
    ensures
        ({
            let st = ScanState {
                files: old(files)@.map_values(|f: UnpackedFile| f@),
                error: None,
                heading: crate::docx::model::opt_view(*heading),
                content: content@,
            };
            &&& final(files)@.map_values(|f: UnpackedFile| f@) == flush(st).files
            &&& match r {
                Some(e) => flush(st).error == Some(e@),
                None => flush(st).error is None,
            }
        }),
{
    match heading {
        Some(h) => {
            if h.as_str().is_empty() {
                return None;
            }
            match validate_heading_path(h.as_str()) {
                Ok(path) => {
                    let ghost before = files@.map_values(|f: UnpackedFile| f@);
                    let c = drop_final_newline_exec(content);
                    files.push(UnpackedFile { path, content: c });
                    assert(files@.map_values(|f: UnpackedFile| f@) =~= before.push(
                        (path@, drop_final_newline(content@)),
                    ));
                    None
                },
                Err(e) => Some(e),
            }
        },
        None => None,
    }
}

/// The files that unpacking `doc` writes, and the error that stops it (see
/// [`unpack_outcome`]).
pub fn plan_unpack(doc: &Document) -> (r: UnpackPlan)
    ensures
        r.files@.map_values(|f: UnpackedFile| f@) == unpack_outcome(doc@.paragraphs).files,
        match r.error {
            Some(e) => unpack_outcome(doc@.paragraphs).error == Some(e@),
            None => unpack_outcome(doc@.paragraphs).error is None,
        },
{
    let ghost ps = doc@.paragraphs;
    let mut files: Vec<UnpackedFile> = Vec::new();
    let mut heading: Option<String> = None;
    let mut content = String::new();
    let mut i: usize = 0;
    assert(ps.take(0) =~= Seq::<ParagraphView>::empty());
    assert(files@.map_values(|f: UnpackedFile| f@) =~= Seq::<(Seq<char>, Seq<char>)>::empty());
    while i < doc.paragraphs.len()
        invariant
            i <= doc.paragraphs.len(),
            ps == doc@.paragraphs,
            scan(ps.take(i as int)) == (ScanState {
                files: files@.map_values(|f: UnpackedFile| f@),
                error: None,
                heading: crate::docx::model::opt_view(heading),
                content: content@,
            }),
        decreases doc.paragraphs.len() - i,
    {
        let p = &doc.paragraphs[i];
        assert(ps.take(i + 1).drop_last() == ps.take(i as int));
        assert(ps.take(i + 1).last() == p@);
        if p.is_heading() {
            match flush_file(&mut files, &heading, &content) {
                Some(e) => {
                    proof {
                        lemma_scan_error_sticks(ps, i + 1);
                    }
                    return UnpackPlan { files, error: Some(e) };
                },
                None => {},
            }
            let first = if p.runs.len() > 0 {
                p.runs[0].text.clone()
            } else {
                String::new()
            };
            assert(first@ == first_run_text(p@));
            heading = Some(first);
            content = String::new();
            assert(content@ =~= Seq::<char>::empty());
        } else {
            let ghost c0 = content@;
            let t = runs_text_exec(&p.runs);
            push_str(&mut content, t.as_str());
            push_char(&mut content, '\n');
            assert(content@ =~= c0 + runs_text(p@.runs) + seq!['\n']);
        }
        i += 1;
    }
    assert(ps.take(i as int) == ps);
    let err = flush_file(&mut files, &heading, &content);
    UnpackPlan { files, error: err }
}

/// Where the segment of `s[..e]` that ends at `e` begins: just after the last `/`
/// before `e`, or 0.
pub open spec fn seg_start(s: Seq<char>, e: int) -> int
    decreases e,
{
    if e <= 0 {
        0
    } else if s[e - 1] == '/' {
        e
    } else {
        seg_start(s, e - 1)
    }
}

pub proof fn lemma_seg_start(s: Seq<char>, e: int)
    requires
        0 <= e <= s.len(),
    ensures
        0 <= seg_start(s, e) <= e,
        seg_start(s, e) > 0 ==> s[seg_start(s, e) - 1] == '/',
        forall|j: int| seg_start(s, e) <= j < e ==> s[j] != '/',
    decreases e,
{
    if e > 0 && s[e - 1] != '/' {
        lemma_seg_start(s, e - 1);
    }
}

/// The position `(b, e)` of the file name of the Unix path `s[..end]`, as
/// `Path::file_name` finds it: trailing separators and `.` pieces after the first are
/// skipped; a path whose last piece is `..`, a root, or a lone `.` has none.
pub open spec fn file_name_span(s: Seq<char>, end: int) -> Option<(int, int)>
    decreases end,
{
    if end <= 0 || end > s.len() {
        None
    } else if s[end - 1] == '/' {
        file_name_span(s, end - 1)
    } else {
        let b = seg_start(s, end);
        proof {
            lemma_seg_start(s, end);
        }
        if s.subrange(b, end) == seq!['.'] {
            if b == 0 {
                None
            } else {
                file_name_span(s, b)
            }
        } else if s.subrange(b, end) == seq!['.', '.'] {
            None
        } else {
            Some((b, end))
        }
    }
}

/// Where the file stem of `s` ends: at the last `.` of the file name when that is not
/// its first character; otherwise at the end of the file name.
pub open spec fn stem_end(s: Seq<char>, b: int, e: int) -> int {
    let d = rfind_char(s.subrange(b, e), '.');
    if d > 0 {
        b + d
    } else {
        e
    }
}

/// The default directory for unpacking `input`: the path with the extension of its
/// file name (and anything after the file name) removed, then `_unpacked`.
pub open spec fn default_output_spec(input: Seq<char>) -> Seq<char> {
    let base = match file_name_span(input, input.len() as int) {
        Some((b, e)) => input.take(stem_end(input, b, e)),
        None => input,
    };
    base + "_unpacked"@
}

pub(crate) fn last_dot(s: &Vec<char>, b: usize, e: usize) -> (r: usize)
    requires
        b <= e <= s.len(),
    ensures
        r == (if rfind_char(s@.subrange(b as int, e as int), '.') >= 0 {
            rfind_char(s@.subrange(b as int, e as int), '.')
        } else {
            e - b
        }),
        r <= e - b,
{
    let mut d: usize = e;
    while d > b && s[d - 1] != '.'
        invariant
            b <= d <= e <= s.len(),
            rfind_char(s@.subrange(b as int, e as int), '.') == rfind_char(s@.subrange(b as int, d as int), '.'),
        decreases d,
    {
        assert(s@.subrange(b as int, d as int).drop_last() == s@.subrange(b as int, d - 1));
        d -= 1;
    }
    if d > b {
        assert(s@.subrange(b as int, d as int).last() == '.');
        assert(rfind_char(s@.subrange(b as int, d as int), '.') == d - 1 - b);
        d - 1 - b
    } else {
        assert(s@.subrange(b as int, d as int).len() == 0);
        e - b
    }
}

/// The default directory for unpacking `input` (see [`default_output_spec`]).
pub fn default_output_path(input: &str) -> (r: String)
    ensures
        r@ == default_output_spec(input@),
{
    let s = chars_of(input);
    let mut end: usize = s.len();
    let mut span: Option<(usize, usize)> = None;
    loop
        invariant_except_break
            end <= s.len(),
            span is None,
            file_name_span(s@, s.len() as int) == file_name_span(s@, end as int),
        ensures
            span matches Some((b, e)) ==> file_name_span(s@, s.len() as int) == Some((b as int, e as int)) && b <= e <= s.len(),
            span is None ==> file_name_span(s@, s.len() as int) is None,
        decreases end,
    {
        if end == 0 {
            break;
        }
        if s[end - 1] == '/' {
            end -= 1;
        } else {
            let mut b = end - 1;
            while b > 0 && s[b - 1] != '/'
                invariant
                    b < end <= s.len(),
                    seg_start(s@, end as int) == seg_start(s@, b as int + 1),
                    s@[end - 1] != '/',
                    forall|j: int| b <= j < end ==> s@[j] != '/',
                decreases b,
            {
                b -= 1;
            }
            proof {
                lemma_seg_start(s@, end as int);
                if b > 0 {
                    assert(seg_start(s@, b as int) == b);
                }
                assert(seg_start(s@, end as int) == b);
            }
            let len = end - b;
            if len == 1 && s[b] == '.' {
                assert(s@.subrange(b as int, end as int) =~= seq!['.']);
                if b == 0 {
                    break;
                }
                end = b;
            } else if len == 2 && s[b] == '.' && s[b + 1] == '.' {
                assert(s@.subrange(b as int, end as int) =~= seq!['.', '.']);
                break;
            } else {
                assert(seq!['.'].len() == 1);
                assert(s@.subrange(b as int, end as int).len() == len);
                assert(s@.subrange(b as int, end as int) != seq!['.']) by {
                    if len == 1 {
                        assert(s@.subrange(b as int, end as int)[0] != '.');
                    }
                }
                assert(seq!['.', '.'].len() == 2);
                assert(seq!['.'].len() == 1);
                assert(s@.subrange(b as int, end as int) != seq!['.', '.']) by {
                    if len == 2 {
                        assert(s@.subrange(b as int, end as int)[0] != '.' || s@.subrange(b as int, end as int)[1] != '.');
                    }
                }
                span = Some((b, end));
                break;
            }
        }
    }
    let cut = match span {
        Some((b, e)) => {
            let d = last_dot(&s, b, e);
            if d > 0 { b + d } else { e }
        },
        None => {
            s.len()
        },
    };
    let head = &s.as_slice()[0..cut];
    assert(head@ == s@.take(cut as int));
    let mut r = string_of(head);
    push_str(&mut r, "_unpacked");
    proof {
        match file_name_span(s@, s.len() as int) {
            Some((b, e)) => {},
            None => {
                assert(s@.take(s.len() as int) == s@);
            },
        }
    }
    r
}

} // verus!
