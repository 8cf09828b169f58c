//! Properties that span several parts of the library: what unpacking gives back of a
//! pack, and how exclude rules and documents behave over any input.
use vstd::prelude::*;
use crate::docx::model::ParagraphView;
use crate::docx::model::body_paragraph;
use crate::docx::model::heading_paragraph;
use crate::docx::model::heading_prefix;
use crate::docx::model::heading_style;
use crate::docx::model::is_heading_view;
use crate::docx::model::text_paragraphs;
use crate::docx::xml::escape;
use crate::docx::xml::escape_char;
use crate::glob::glob_matches;
use crate::glob::is_component;
use crate::glob::no_slash;
use crate::glob::pattern_applies;
use crate::ignore::RuleView;
use crate::ignore::excludes;
use crate::ignore::last_match_excludes;
use crate::ignore::rule_applies;
use crate::ignore::some_positive_applies;
use crate::pack::DirSource;
use crate::pack::PackOutcome;
use crate::pack::packed_from;
use crate::docx::reader::body_paragraphs;
use crate::docx::reader::read_docx_spec;
use crate::docx::writer::read_back_spec;
use crate::docx::xml::document_xml_spec;
use crate::xmlio::xml_events;
use crate::pack::PackSource;
use crate::pack::content_paragraphs;
use crate::pack::gather_dir_spec;
use crate::pack::pack_files_spec;
use crate::pack::pack_document;
use crate::pack::pack_paragraphs;
use crate::text::find_char;
use crate::text::lemma_find_char_bounds;
use crate::text::replace_char;
use crate::text::trim;
use crate::text::trim_end;
use crate::text::trim_start;
use crate::unpack::ScanState;
use crate::unpack::component_problem;
use crate::unpack::is_absolute;
use crate::unpack::is_ascii_alpha;
use crate::unpack::is_forbidden;
use crate::unpack::replace_forbidden;
use crate::unpack::split_on;
use crate::unpack::runs_text;
use crate::unpack::scan;
use crate::unpack::scan_start;
use crate::unpack::drop_final_newline;
use crate::unpack::unpack_outcome;
use crate::unpack::validate_heading;
use crate::window::click_spec;
use crate::window::first_index;
use crate::window::kept_from;
use crate::window::unselected;

verus! {

/// The text that body paragraphs holding the lines `ls` add to an unpacked file:
/// each line followed by a line feed.
pub open spec fn joined_lines(ls: Seq<Seq<char>>) -> Seq<char>
    decreases ls.len(),
{
    if ls.len() == 0 {
        Seq::empty()
    } else {
        joined_lines(ls.drop_last()) + ls.last() + seq!['\n']
    }
}

/// The heading under which a file is packed: its path with `\` written as `/`.
pub open spec fn packed_heading(path: Seq<char>) -> Seq<char> {
    replace_char(path, '\\', '/')
}

/// A file whose heading the unpacker accepts as it stands.
pub open spec fn round_trips(f: (Seq<char>, Seq<char>)) -> bool {
    validate_heading(packed_heading(f.0)) == Ok::<Seq<char>, Seq<char>>(packed_heading(f.0))
}

/// What unpacking gives back of a packed file: its `/`-separated path, and its text.
pub open spec fn unpacked_file(f: (Seq<char>, Seq<char>)) -> (Seq<char>, Seq<char>) {
    (packed_heading(f.0), f.1)
}

proof fn lemma_joined_front(a: Seq<char>, rest: Seq<Seq<char>>)
    ensures
        joined_lines(seq![a] + rest) == a + seq!['\n'] + joined_lines(rest),
    decreases rest.len(),
{
    assert(joined_lines(Seq::<Seq<char>>::empty()) == Seq::<char>::empty());
    if rest.len() == 0 {
        assert(seq![a] + rest =~= seq![a]);
        assert(seq![a].drop_last() =~= Seq::<Seq<char>>::empty());
        assert(joined_lines(seq![a]) == joined_lines(seq![a].drop_last()) + a + seq!['\n']);
        assert(Seq::<char>::empty() + a + seq!['\n'] =~= a + seq!['\n'] + Seq::<char>::empty());
    } else {
        lemma_joined_front(a, rest.drop_last());
        assert((seq![a] + rest).drop_last() =~= seq![a] + rest.drop_last());
        assert((seq![a] + rest).last() == rest.last());
        assert(joined_lines(seq![a] + rest) == joined_lines(seq![a] + rest.drop_last())
            + rest.last() + seq!['\n']);
        assert(joined_lines(rest) == joined_lines(rest.drop_last()) + rest.last() + seq!['\n']);
        assert(a + seq!['\n'] + joined_lines(rest.drop_last()) + rest.last() + seq!['\n'] =~= a
            + seq!['\n'] + (joined_lines(rest.drop_last()) + rest.last() + seq!['\n']));
    }
}

/// The pieces of a text between line feeds, each followed by a line feed, give back
/// the text with one line feed added.
proof fn lemma_joined_split(c: Seq<char>)
    ensures
        joined_lines(split_on(c, '\n')) == c.push('\n'),
    decreases c.len(),
{
    let k = find_char(c, '\n');
    lemma_find_char_bounds(c, '\n');
    assert(joined_lines(Seq::<Seq<char>>::empty()) == Seq::<char>::empty());
    if k >= c.len() {
        assert(split_on(c, '\n') == seq![c]);
        assert(seq![c].drop_last() =~= Seq::<Seq<char>>::empty());
        assert(joined_lines(seq![c]) == joined_lines(seq![c].drop_last()) + c + seq!['\n']);
        assert(Seq::<char>::empty() + c + seq!['\n'] =~= c.push('\n'));
    } else {
        let t = c.take(k);
        let r = c.skip(k + 1);
        lemma_joined_split(r);
        assert(split_on(c, '\n') == seq![t] + split_on(r, '\n'));
        lemma_joined_front(t, split_on(r, '\n'));
        assert(t + seq!['\n'] + r.push('\n') =~= c.push('\n'));
    }
}

/// Unpacking a packed file's body gives back its text exactly.
proof fn lemma_body_round_trip(c: Seq<char>)
    ensures
        drop_final_newline(joined_lines(split_on(c, '\n'))) == c,
{
    lemma_joined_split(c);
    assert(c.push('\n').drop_last() =~= c);
}

/// Scanning body paragraphs adds their lines, each with a line feed, to the current
/// file.
proof fn lemma_scan_body(ps: Seq<ParagraphView>, ls: Seq<Seq<char>>)
    requires
        scan(ps).error is None,
    ensures
        scan(ps + ls.map_values(|l: Seq<char>| body_paragraph(l))) == (ScanState {
            files: scan(ps).files,
            error: None,
            heading: scan(ps).heading,
            content: scan(ps).content + joined_lines(ls),
        }),
    decreases ls.len(),
{
    let q = ps + ls.map_values(|l: Seq<char>| body_paragraph(l));
    if ls.len() == 0 {
        assert(q =~= ps);
        assert(scan(ps).content + Seq::<char>::empty() =~= scan(ps).content);
    } else {
        let init = ls.drop_last();
        lemma_scan_body(ps, init);
        assert(q.drop_last() =~= ps + init.map_values(|l: Seq<char>| body_paragraph(l)));
        assert(q.last() == body_paragraph(ls.last()));
        assert(!is_heading_view(body_paragraph(ls.last())));
        let l = ls.last();
        assert(seq![l].drop_last() =~= Seq::<Seq<char>>::empty());
        assert(runs_text(Seq::<Seq<char>>::empty()) == Seq::<char>::empty());
        assert(runs_text(seq![l]) == runs_text(seq![l].drop_last()) + l);
        assert(runs_text(seq![l]) =~= l);
        assert(scan(ps).content + joined_lines(init) + l + seq!['\n'] =~= scan(ps).content + (
        joined_lines(init) + l + seq!['\n']));
    }
}

proof fn lemma_heading_is_heading(t: Seq<char>)
    ensures
        is_heading_view(heading_paragraph(t)),
{
    reveal_strlit("Heading1");
    reveal_strlit("Heading");
    assert(heading_style().take(heading_prefix().len() as int) =~= heading_prefix());
}

/// A heading that the unpacker accepts as it stands is not empty.
proof fn lemma_accepted_not_empty(h: Seq<char>)
    requires
        validate_heading(h) == Ok::<Seq<char>, Seq<char>>(h),
    ensures
        h.len() > 0,
{
    if h.len() == 0 {
        assert(trim_start(h) == h);
        assert(trim_end(h) == h);
        assert(trim(h).len() == 0);
    }
}

/// The scan over packed files stands, after the last file's text, with the earlier
/// files given back, and the last file's heading and text still open.
proof fn lemma_scan_packed(files: Seq<(Seq<char>, Seq<char>)>)
    requires
        forall|i: int| 0 <= i < files.len() ==> round_trips(#[trigger] files[i]),
    ensures
        files.len() == 0 ==> scan(pack_paragraphs(files)) == scan_start(),
        files.len() > 0 ==> scan(pack_paragraphs(files)) == (ScanState {
            files: files.drop_last().map_values(|f: (Seq<char>, Seq<char>)| unpacked_file(f)),
            error: None,
            heading: Some(packed_heading(files.last().0)),
            content: joined_lines(split_on(files.last().1, '\n')),
        }),
    decreases files.len(),
{
    if files.len() == 0 {
        assert(pack_paragraphs(files) =~= Seq::<ParagraphView>::empty());
    } else {
        let init = files.drop_last();
        assert forall|i: int| 0 <= i < init.len() implies round_trips(#[trigger] init[i]) by {
            assert(init[i] == files[i]);
        }
        lemma_scan_packed(init);
        let p = pack_paragraphs(init);
        let h = packed_heading(files.last().0);
        let hp = heading_paragraph(h);
        assert((p + seq![hp]).drop_last() =~= p);
        assert((p + seq![hp]).last() == hp);
        lemma_heading_is_heading(h);
        let st = scan(p + seq![hp]);
        if init.len() > 0 {
            let prev = init.last();
            assert(round_trips(init[init.len() - 1]));
            lemma_accepted_not_empty(packed_heading(prev.0));
            lemma_body_round_trip(prev.1);
            assert(init.drop_last().map_values(|f: (Seq<char>, Seq<char>)| unpacked_file(f)).push(
                unpacked_file(prev),
            ) =~= init.map_values(|f: (Seq<char>, Seq<char>)| unpacked_file(f)));
        } else {
            assert(init.map_values(|f: (Seq<char>, Seq<char>)| unpacked_file(f)) =~= Seq::<
                (Seq<char>, Seq<char>),
            >::empty());
        }
        assert(st == (ScanState {
            files: init.map_values(|f: (Seq<char>, Seq<char>)| unpacked_file(f)),
            error: None,
            heading: Some(h),
            content: Seq::empty(),
        }));
        let ls = split_on(files.last().1, '\n');
        lemma_scan_body(p + seq![hp], ls);
        assert(pack_paragraphs(files) =~= p + seq![hp] + ls.map_values(|l: Seq<char>| body_paragraph(l)));
        assert(Seq::<char>::empty() + joined_lines(ls) =~= joined_lines(ls));
    }
}

/// Unpacking gives back what was packed: for files whose paths the unpacker accepts
/// as they stand (with `\` read as `/`), the packed document unpacks without error
/// into the same files, in the same order, with the same paths written with `/` and
/// exactly the same texts.
pub proof fn law_unpack_gives_back_packed_files(files: Seq<(Seq<char>, Seq<char>)>)
    requires
        forall|i: int| 0 <= i < files.len() ==> round_trips(#[trigger] files[i]),
    ensures
        unpack_outcome(pack_document(files).paragraphs).error is None,
        unpack_outcome(pack_document(files).paragraphs).files == files.map_values(
            |f: (Seq<char>, Seq<char>)| unpacked_file(f),
        ),
{
    lemma_scan_packed(files);
    if files.len() > 0 {
        let last = files.last();
        assert(round_trips(files[files.len() - 1]));
        lemma_accepted_not_empty(packed_heading(last.0));
        lemma_body_round_trip(last.1);
        assert(files.drop_last().map_values(|f: (Seq<char>, Seq<char>)| unpacked_file(f)).push(
            unpacked_file(last),
        ) =~= files.map_values(|f: (Seq<char>, Seq<char>)| unpacked_file(f)));
    } else {
        assert(files.map_values(|f: (Seq<char>, Seq<char>)| unpacked_file(f)) =~= Seq::<
            (Seq<char>, Seq<char>),
        >::empty());
    }
}

/// The whole round trip through the archive: a pack that succeeded reads back without
/// error, and the unpack plan of what it reads gives back the packed files exactly (as
/// [`law_unpack_gives_back_packed_files`] says), provided the XML reader gives back
/// the paragraphs that the main part was written with. That proviso is the one fact
/// about the reader this rests on; it is not stated of the reader itself.
pub proof fn law_pack_read_unpack(
    r: Result<PackOutcome, String>,
    files: Seq<(Seq<char>, Seq<char>)>,
    n: nat,
)
    requires
        packed_from(r, files, n),
        r is Ok,
        forall|i: int| 0 <= i < files.len() ==> round_trips(#[trigger] files[i]),
        body_paragraphs(xml_events(document_xml_spec(pack_document(files)))) == pack_paragraphs(files),
    ensures
        read_docx_spec(r->Ok_0.docx@) is Ok,
        unpack_outcome(read_docx_spec(r->Ok_0.docx@)->Ok_0.paragraphs).error is None,
        unpack_outcome(read_docx_spec(r->Ok_0.docx@)->Ok_0.paragraphs).files == files.map_values(
            |f: (Seq<char>, Seq<char>)| unpacked_file(f),
        ),
{
    law_unpack_gives_back_packed_files(files);
    assert(read_back_spec(pack_document(files)).paragraphs == pack_document(files).paragraphs);
}

/// Packing a list that holds one directory packs exactly what packing that directory
/// does: the same files, with paths relative to the directory, and the same count of
/// binary files skipped, or the same error.
pub proof fn law_single_directory_packs_as_directory(d: DirSource, rules: Seq<RuleView>, labels: Seq<Seq<char>>)
    ensures
        pack_files_spec(seq![PackSource::Directory(d)], rules, labels) == gather_dir_spec(d, rules, labels),
{
}

/// A heading added to a document is a heading; no paragraph of added text is one.
pub proof fn law_headings_and_text(heading: Seq<char>, text: Seq<char>)
    ensures
        is_heading_view(heading_paragraph(heading)),
        forall|i: int|
            0 <= i < text_paragraphs(text).len() ==> !is_heading_view(
                #[trigger] text_paragraphs(text)[i],
            ),
{
    lemma_heading_is_heading(heading);
}

/// With no rules, nothing is excluded.
pub proof fn law_no_rules_exclude_nothing(path: Seq<char>)
    ensures
        !excludes(Seq::<RuleView>::empty(), path),
{
}

/// The last rule that applies to a path decides: a rule added at the end excludes
/// the paths it applies to unless it is negated, re-includes them if it is, and
/// leaves every other path as it was.
pub proof fn law_last_rule_decides(rules: Seq<RuleView>, r: RuleView, path: Seq<char>)
    ensures
        excludes(rules.push(r), path) == (if rule_applies(r, replace_char(path, '\\', '/')) {
            !r.negated
        } else {
            excludes(rules, path)
        }),
{
    assert(rules.push(r).drop_last() =~= rules);
}

proof fn lemma_excluded_by_positive(rules: Seq<RuleView>, path: Seq<char>)
    requires
        last_match_excludes(rules, path),
    ensures
        some_positive_applies(rules, path),
    decreases rules.len(),
{
    if rules.len() > 0 && !rule_applies(rules.last(), path) {
        lemma_excluded_by_positive(rules.drop_last(), path);
    }
}

/// A path is excluded only by a rule that is not negated: negated rules alone never
/// exclude anything.
pub proof fn law_only_positive_rules_exclude(rules: Seq<RuleView>, path: Seq<char>)
    requires
        excludes(rules, path),
    ensures
        some_positive_applies(rules, replace_char(path, '\\', '/')),
{
    lemma_excluded_by_positive(rules, replace_char(path, '\\', '/'));
}

/// The pattern `**` applies to every path.
pub proof fn law_double_star_applies_everywhere(path: Seq<char>)
    ensures
        pattern_applies(seq!['*', '*'], path, false, false),
{
    assert(!seq!['*', '*'].contains('/'));
}

proof fn lemma_escape_no_angle(s: Seq<char>)
    ensures
        forall|i: int| 0 <= i < escape(s).len() ==> escape(s)[i] != '<' && escape(s)[i] != '>',
    decreases s.len(),
{
    if s.len() > 0 {
        lemma_escape_no_angle(s.drop_last());
        let e = escape_char(s.last());
        assert(forall|i: int| 0 <= i < e.len() ==> e[i] != '<' && e[i] != '>');
        assert forall|i: int| 0 <= i < escape(s).len() implies escape(s)[i] != '<' && escape(s)[i]
            != '>' by {
            if i < escape(s.drop_last()).len() {
                assert(escape(s)[i] == escape(s.drop_last())[i]);
            } else {
                assert(escape(s)[i] == e[i - escape(s.drop_last()).len()]);
            }
        }
    }
}

/// Text written into the document's XML never holds a bare `<` or `>`, so no text
/// can open or close markup.
pub proof fn law_escaped_text_has_no_markup(s: Seq<char>)
    ensures
        forall|i: int|
            0 <= i < escape(s).len() ==> #[trigger] escape(s)[i] != '<' && escape(s)[i] != '>',
{
    lemma_escape_no_angle(s);
}

/// Every piece of `s` between separators is one of the pieces `split_on` lists.
proof fn lemma_component_listed(s: Seq<char>, a: int, b: int)
    requires
        is_component(s, a, b),
    ensures
        split_on(s, '/').contains(s.subrange(a, b)),
    decreases s.len(),
{
    let k = find_char(s, '/');
    lemma_find_char_bounds(s, '/');
    if k >= s.len() {
        if a > 0 {
            assert(s[a - 1] == '/');
        }
        assert(b == s.len());
        assert(s.subrange(a, b) =~= s);
        assert(split_on(s, '/')[0] == s);
    } else if a == 0 {
        if b > k {
            assert(s.subrange(a, b)[k] == '/');
        }
        if b < k {
            assert(s[b] == '/');
        }
        assert(s.subrange(a, b) =~= s.take(k));
        assert(split_on(s, '/')[0] == s.take(k));
    } else {
        let r = s.skip(k + 1);
        assert(s[a - 1] == '/');
        assert(a - 1 >= k);
        let a2 = a - (k + 1);
        let b2 = b - (k + 1);
        assert(r.subrange(a2, b2) =~= s.subrange(a, b));
        if a2 > 0 {
            assert(r[a2 - 1] == s[a - 1]);
        }
        if b2 < r.len() {
            assert(r[b2] == s[b]);
        }
        assert(is_component(r, a2, b2));
        lemma_component_listed(r, a2, b2);
        let w = choose|j: int| 0 <= j < split_on(r, '/').len() && split_on(r, '/')[j] == r.subrange(a2, b2);
        assert(split_on(s, '/') == seq![s.take(k)] + split_on(r, '/'));
        assert(split_on(s, '/')[w + 1] == s.subrange(a, b));
    }
}

/// A list of pieces without a problem holds no `..`.
proof fn lemma_no_problem_no_parent(cs: Seq<Seq<char>>)
    requires
        component_problem(cs) is None,
    ensures
        !cs.contains(seq!['.', '.']),
    decreases cs.len(),
{
    if cs.len() > 0 {
        lemma_no_problem_no_parent(cs.skip(1));
        if cs.contains(seq!['.', '.']) {
            let j = choose|j: int| 0 <= j < cs.len() && cs[j] == seq!['.', '.'];
            assert(j != 0);
            assert(cs.skip(1)[j - 1] == cs[j]);
        }
    }
}

/// A path that a heading names stays inside the directory it is unpacked into: it is
/// not empty, not absolute, holds no character that a file name may not hold, and
/// none of its pieces between separators is `..`.
pub proof fn law_accepted_paths_stay_inside(text: Seq<char>)
    requires
        validate_heading(text) is Ok,
    ensures
        ({
            let p = validate_heading(text)->Ok_0;
            &&& p.len() > 0
            &&& !is_absolute(p)
            &&& forall|i: int| 0 <= i < p.len() ==> !is_forbidden(#[trigger] p[i])
            &&& forall|a: int, b: int|
                #[trigger] is_component(p, a, b) ==> p.subrange(a, b) != seq!['.', '.']
        }),
{
    let t = trim(text);
    let n = replace_char(t, '\\', '/');
    let p = replace_forbidden(n);
    assert(validate_heading(text)->Ok_0 == p);
    assert(t.len() > 0);
    assert(!is_absolute(n));
    assert(component_problem(split_on(n, '/')) is None);
    assert(forall|i: int| 0 <= i < n.len() ==> n[i] != '\\');
    assert(forall|i: int| 0 <= i < p.len() ==> (p[i] == '/') == (n[i] == '/'));
    if is_absolute(p) {
        assert(p[0] != '\\');
        if p.len() >= 2 && is_ascii_alpha(p[0]) && p[1] == ':' {
            assert(false);
        }
        assert(n[0] == '/');
    }
    assert forall|a: int, b: int| #[trigger] is_component(p, a, b) implies p.subrange(a, b) != seq![
        '.',
        '.',
    ] by {
        if p.subrange(a, b) == seq!['.', '.'] {
            assert(p.subrange(a, b).len() == 2);
            assert(p.subrange(a, b)[0] == p[a] && p.subrange(a, b)[1] == p[a + 1]);
            assert(p[a] == '.' && p[a + 1] == '.');
            assert(n[a] == '.' && n[a + 1] == '.');
            assert(n.subrange(a, b) =~= seq!['.', '.']);
            assert forall|i: int| 0 <= i < n.subrange(a, b).len() implies n.subrange(a, b)[i] != '/' by {
                assert(p.subrange(a, b)[i] == p[a + i]);
            }
            assert(no_slash(n.subrange(a, b)));
            assert(is_component(n, a, b));
            lemma_component_listed(n, a, b);
            lemma_no_problem_no_parent(split_on(n, '/'));
        }
    }
}

/// No character of `s` is a backslash.
pub open spec fn no_backslash(s: Seq<char>) -> bool {
    forall|j: int| 0 <= j < s.len() ==> s[j] != '\\'
}

/// Headings of a packed document always separate path pieces with `/`: every heading
/// paragraph holds one run, without a backslash, whatever the packed paths held.
pub proof fn law_packed_headings_use_slashes(files: Seq<(Seq<char>, Seq<char>)>)
    ensures
        forall|i: int|
            0 <= i < pack_paragraphs(files).len() && is_heading_view(
                #[trigger] pack_paragraphs(files)[i],
            ) ==> pack_paragraphs(files)[i].runs.len() == 1 && no_backslash(
                pack_paragraphs(files)[i].runs[0],
            ),
    decreases files.len(),
{
    if files.len() > 0 {
        let init = files.drop_last();
        law_packed_headings_use_slashes(init);
        let p = pack_paragraphs(init);
        let h = packed_heading(files.last().0);
        let t = content_paragraphs(files.last().1);
        let all = pack_paragraphs(files);
        assert(all == p + seq![heading_paragraph(h)] + t);
        assert(no_backslash(h));
        assert forall|i: int| 0 <= i < all.len() && is_heading_view(#[trigger] all[i]) implies all[i].runs.len()
            == 1 && no_backslash(all[i].runs[0]) by {
            if i < p.len() {
                assert(all[i] == p[i]);
            } else if i == p.len() {
                assert(all[i] == heading_paragraph(h));
            } else {
                assert(all[i] == t[i - p.len() - 1]);
            }
        }
    }
}

/// A pattern without `*` or `?` matches exactly the path that is spelled as it is.
pub proof fn law_plain_pattern_matches_only_itself(p: Seq<char>, s: Seq<char>)
    requires
        forall|i: int| 0 <= i < p.len() ==> p[i] != '*' && p[i] != '?',
    ensures
        glob_matches(p, s) <==> p == s,
    decreases p.len(),
{
    if p.len() == 0 {
        if s.len() == 0 {
            assert(p =~= s);
        }
    } else {
        assert(p[0] != '*' && p[0] != '?');
        assert forall|i: int| 0 <= i < p.skip(1).len() implies p.skip(1)[i] != '*' && p.skip(1)[i]
            != '?' by {
            assert(p.skip(1)[i] == p[i + 1]);
        }
        law_plain_pattern_matches_only_itself(p.skip(1), s.skip(1));
        if s.len() > 0 && s[0] == p[0] && p.skip(1) == s.skip(1) {
            assert(p =~= s) by {
                assert forall|i: int| 0 <= i < p.len() implies p[i] == s[i] by {
                    if i > 0 {
                        assert(p[i] == p.skip(1)[i - 1]);
                        assert(s[i] == s.skip(1)[i - 1]);
                    }
                }
            }
        }
        if p == s {
            assert(p.skip(1) == s.skip(1));
        }
    }
}

proof fn lemma_first_index_absent(s: Seq<usize>, i: usize)
    requires
        !s.contains(i),
    ensures
        first_index(s.push(i), i) == s.len(),
    decreases s.len(),
{
    if s.len() > 0 {
        assert(s.push(i)[0] == s[0]);
        assert(s.push(i).skip(1) =~= s.skip(1).push(i));
        assert(!s.skip(1).contains(i)) by {
            if s.skip(1).contains(i) {
                let j = choose|j: int| 0 <= j < s.skip(1).len() && s.skip(1)[j] == i;
                assert(s[j + 1] == i);
            }
        }
        lemma_first_index_absent(s.skip(1), i);
    }
}

/// A Ctrl-click on a row that is not selected, then another on the same row, leaves
/// the selection as it was.
pub proof fn law_ctrl_click_twice_restores(sel: Seq<usize>, i: usize)
    requires
        !sel.contains(i),
    ensures
        click_spec(click_spec(sel, i, true, false), i, true, false) == sel,
{
    assert(sel.push(i)[sel.len() as int] == i);
    lemma_first_index_absent(sel, i);
    assert(sel.push(i).remove(sel.len() as int) =~= sel);
}

proof fn lemma_kept_none<T>(s: Seq<T>, k: int)
    ensures
        kept_from(s, Seq::new(s.len(), |j: int| j as usize), k) == Seq::<T>::empty(),
    decreases s.len() - k,
{
    let all = Seq::new(s.len(), |j: int| j as usize);
    if 0 <= k < s.len() {
        assert(all[k] == k as usize);
        assert(all.contains(k as usize));
        lemma_kept_none(s, k + 1);
    }
}

/// Selecting every row and deleting the selection leaves no row.
pub proof fn law_delete_all_rows_leaves_none<T>(rows: Seq<T>)
    ensures
        unselected(rows, Seq::new(rows.len(), |k: int| k as usize)) == Seq::<T>::empty(),
{
    lemma_kept_none(rows, 0);
}

} // verus!
