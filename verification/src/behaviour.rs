//! What the library's operations answer, over all inputs: which unpack headings name
//! reserved devices, which bytes count as text and how they are decoded, when a pack
//! refuses repeated paths, and where a directory exclude pattern applies.
use vstd::prelude::*;
use vstd::utf8::decode_utf8;
use vstd::utf8::valid_utf8;
use crate::detect::decode_text_spec;
use crate::detect::first_clean_decoding;
use crate::detect::is_text_spec;
use crate::detect::label_decoding;
use crate::detect::meaningful;
use crate::detect::some_label_reads_as_text;
use crate::encoding::utf8_lossy_text;
use crate::glob::glob_matches;
use crate::glob::is_component;
use crate::glob::no_slash;
use crate::glob::pattern_applies;
use crate::ignore::RuleView;
use crate::pack::PackSource;
use crate::pack::first_duplicate;
use crate::pack::gather_sources_spec;
use crate::pack::pack_files_spec;
use crate::text::find_char;
use crate::text::lemma_find_char_at;
use crate::text::lemma_find_char_bounds;
use crate::text::replace_char;
use crate::text::trim;
use crate::unpack::ascii_upper;
use crate::unpack::component_problem;
use crate::unpack::is_absolute;
use crate::unpack::is_forbidden;
use crate::unpack::name_stem;
use crate::unpack::replace_forbidden;
use crate::unpack::reserved_names;
use crate::unpack::split_on;
use crate::unpack::validate_heading;

verus! {

// ----- Reserved device names in unpack headings -----

/// A heading that names one plain file: no separator, no forbidden character, no
/// surrounding white space, not `..`.
pub open spec fn plain_file_heading(h: Seq<char>) -> bool {
    &&& h.len() > 0
    &&& trim(h) == h
    &&& h != seq!['.', '.']
    &&& forall|i: int| 0 <= i < h.len() ==> h[i] != '/' && h[i] != '\\' && !is_forbidden(#[trigger] h[i])
}

/// A heading that names one plain file is refused as a reserved name exactly when its
/// stem (the name without its last extension), with ASCII letters upper-cased, is
/// one of the device names itself; any other such heading, `CONTRIBUTING.md` or
/// `null.js` among them, is accepted as it stands.
pub proof fn law_only_whole_device_names_are_reserved(h: Seq<char>)
    requires
        plain_file_heading(h),
    ensures
        validate_heading(h) == (if exists|j: int|
            0 <= j < reserved_names().len() && ascii_upper(name_stem(h)) == #[trigger] reserved_names()[j] {
            Err::<Seq<char>, Seq<char>>("Windows reserved name: "@ + h)
        } else {
            Ok::<Seq<char>, Seq<char>>(h)
        }),
{
    assert(replace_char(h, '\\', '/') =~= h);
    lemma_find_char_at(h, '/', h.len() as int);
    assert(split_on(h, '/') == seq![h]);
    assert(seq![h][0] == h);
    assert(seq![h].skip(1) =~= Seq::<Seq<char>>::empty());
    assert(component_problem(Seq::<Seq<char>>::empty()) is None);
    assert(!h.contains('/'));
    assert(h[0] != '/' && h[0] != '\\');
    if h.len() >= 2 {
        assert(!is_forbidden(h[1]));
    }
    assert(!is_absolute(h));
    assert(replace_forbidden(h) =~= h);
    let u = ascii_upper(name_stem(h));
    if exists|j: int| 0 <= j < reserved_names().len() && u == #[trigger] reserved_names()[j] {
        let j = choose|j: int| 0 <= j < reserved_names().len() && u == #[trigger] reserved_names()[j];
        assert(reserved_names().contains(u));
    } else {
        assert(!reserved_names().contains(u));
    }
}

/// The stem of a name is the name up to its last `.`, or the whole name when it has
/// none: the name is the stem, a `.`, and an extension without `.`; or it has no `.`.
pub proof fn law_stem_cuts_at_the_last_dot(n: Seq<char>)
    ensures
        n.contains('.') ==> exists|ext: Seq<char>| n == name_stem(n) + seq!['.'] + ext && !ext.contains('.'),
        !n.contains('.') ==> name_stem(n) == n,
    decreases n.len(),
{
    if n.len() > 0 {
        law_stem_cuts_at_the_last_dot(n.drop_last());
        let init = n.drop_last();
        if n.last() == '.' {
            assert(n =~= n.take(n.len() - 1) + seq!['.'] + Seq::<char>::empty());
            assert(name_stem(n) == n.take(n.len() - 1));
            let e = Seq::<char>::empty();
            assert(n == name_stem(n) + seq!['.'] + e && !e.contains('.'));
        } else {
            assert(crate::unpack::rfind_char(n, '.') == crate::unpack::rfind_char(init, '.'));
            if init.contains('.') {
                let ext = choose|ext: Seq<char>| init == name_stem(init) + seq!['.'] + ext && !ext.contains('.');
                let d = crate::unpack::rfind_char(init, '.');
                assert(d >= 0) by {
                    if d < 0 {
                        assert(name_stem(init) == init);
                        assert((init + seq!['.'] + ext).len() > init.len());
                    }
                }
                lemma_rfind_in(init, '.');
                assert(name_stem(init) == init.take(d));
                assert(name_stem(n) == n.take(d));
                assert(name_stem(n) =~= name_stem(init));
                assert(n =~= init.push(n.last()));
                assert(init.push(n.last()) =~= name_stem(n) + seq!['.'] + ext.push(n.last()));
                let e2 = ext.push(n.last());
                assert forall|i: int| 0 <= i < e2.len() implies e2[i] != '.' by {
                    if i < ext.len() {
                        assert(!ext.contains('.'));
                        assert(e2[i] == ext[i]);
                    }
                }
                assert(!e2.contains('.'));
                assert(n == name_stem(n) + seq!['.'] + e2 && !e2.contains('.'));
            } else {
                assert forall|i: int| 0 <= i < n.len() implies n[i] != '.' by {
                    if i < init.len() {
                        assert(n[i] == init[i]);
                    }
                }
                assert(name_stem(init) == init);
                assert(crate::unpack::rfind_char(init, '.') < 0) by {
                    let d = crate::unpack::rfind_char(init, '.');
                    if d >= 0 {
                        lemma_rfind_in(init, '.');
                    }
                }
            }
        }
    }
}

proof fn lemma_rfind_in(s: Seq<char>, c: char)
    ensures
        crate::unpack::rfind_char(s, c) >= 0 ==> crate::unpack::rfind_char(s, c) < s.len() && s[crate::unpack::rfind_char(s, c)] == c,
        crate::unpack::rfind_char(s, c) < 0 ==> crate::unpack::rfind_char(s, c) == -1,
    decreases s.len(),
{
    if s.len() > 0 && s.last() != c {
        lemma_rfind_in(s.drop_last(), c);
    }
}

/// Upper-casing for the reserved-name check keeps the length, turns each ASCII
/// lower-case letter into its capital, and leaves every other character as it is.
pub proof fn law_upper_case_is_ascii_only(s: Seq<char>)
    ensures
        ascii_upper(s).len() == s.len(),
        forall|i: int| 0 <= i < s.len() && 'a' <= s[i] && s[i] <= 'z' ==> (#[trigger] ascii_upper(s)[i]) as u32 + 32 == s[i] as u32,
        forall|i: int| 0 <= i < s.len() && !('a' <= s[i] && s[i] <= 'z') ==> #[trigger] ascii_upper(s)[i] == s[i],
{
    assert forall|i: int| 0 <= i < s.len() && 'a' <= s[i] && s[i] <= 'z' implies (#[trigger] ascii_upper(s)[i]) as u32 + 32 == s[i] as u32 by {
        let c = s[i];
        assert((((c as u32) - 32) as u8) as char as u32 == (c as u32) - 32);
    }
}

/// No piece of a `/`-separated path is `..` or, by its upper-cased stem, one of the
/// reserved device names.
pub open spec fn pieces_allowed(h: Seq<char>) -> bool {
    forall|k: int| 0 <= k < split_on(h, '/').len() ==> {
        let c = #[trigger] split_on(h, '/')[k];
        c != seq!['.', '.'] && forall|j: int|
            0 <= j < reserved_names().len() ==> ascii_upper(name_stem(c)) != #[trigger] reserved_names()[j]
    }
}

proof fn lemma_allowed_pieces_no_problem(cs: Seq<Seq<char>>)
    requires
        forall|k: int| 0 <= k < cs.len() ==> {
            let c = #[trigger] cs[k];
            c != seq!['.', '.'] && forall|j: int|
                0 <= j < reserved_names().len() ==> ascii_upper(name_stem(c)) != #[trigger] reserved_names()[j]
        },
    ensures
        component_problem(cs) is None,
    decreases cs.len(),
{
    if cs.len() > 0 {
        let c = cs[0];
        assert(c != seq!['.', '.']);
        if reserved_names().contains(ascii_upper(name_stem(c))) {
            let j = choose|j: int| 0 <= j < reserved_names().len() && reserved_names()[j] == ascii_upper(name_stem(c));
            assert(false);
        }
        assert forall|k: int| 0 <= k < cs.skip(1).len() implies {
            let c = #[trigger] cs.skip(1)[k];
            c != seq!['.', '.'] && forall|j: int|
                0 <= j < reserved_names().len() ==> ascii_upper(name_stem(c)) != #[trigger] reserved_names()[j]
        } by {
            assert(cs.skip(1)[k] == cs[k + 1]);
        }
        lemma_allowed_pieces_no_problem(cs.skip(1));
    }
}

/// A relative heading with `/` separators, no `\\`, no forbidden character and no
/// surrounding white space is accepted as it stands when none of its pieces, at any
/// depth, is `..` or a reserved device name by its whole stem: `src/config.rs` and
/// `docs/CONTRIBUTING.md` are kept.
pub proof fn law_paths_of_allowed_pieces_are_kept(h: Seq<char>)
    requires
        h.len() > 0,
        trim(h) == h,
        h[0] != '/',
        forall|i: int| 0 <= i < h.len() ==> h[i] != '\\' && !is_forbidden(#[trigger] h[i]),
        pieces_allowed(h),
    ensures
        validate_heading(h) == Ok::<Seq<char>, Seq<char>>(h),
{
    assert(replace_char(h, '\\', '/') =~= h);
    if h.len() >= 2 {
        assert(!is_forbidden(h[1]));
    }
    assert(!is_absolute(h));
    lemma_allowed_pieces_no_problem(split_on(h, '/'));
    assert(replace_forbidden(h) =~= h);
}

// ----- Telling text from binary, and decoding -----

/// Bytes without NUL whose lossy UTF-8 decoding is meaningful text are text, whatever
/// the fallback encodings: the lossy decoding is the last resort of the detection.
pub proof fn law_meaningful_lossy_text_is_text(b: Seq<u8>, labels: Seq<Seq<char>>)
    requires
        !b.contains(0),
        meaningful(utf8_lossy_text(b)),
    ensures
        is_text_spec(b, labels),
{
}

/// Some fallback encoding reads the bytes as text exactly when one of them, at any
/// place in the list, decodes them without errors into meaningful text.
pub proof fn law_any_label_may_read_as_text(labels: Seq<Seq<char>>, b: Seq<u8>)
    ensures
        some_label_reads_as_text(labels, b) <==> exists|i: int|
            0 <= i < labels.len() && #[trigger] label_decoding(labels[i], b) is Some
                && !label_decoding(labels[i], b)->Some_0.1 && meaningful(label_decoding(labels[i], b)->Some_0.0),
    decreases labels.len(),
{
    if labels.len() > 0 {
        let rest = labels.skip(1);
        law_any_label_may_read_as_text(rest, b);
        if some_label_reads_as_text(rest, b) {
            let i = choose|i: int|
                0 <= i < rest.len() && #[trigger] label_decoding(rest[i], b) is Some
                    && !label_decoding(rest[i], b)->Some_0.1 && meaningful(label_decoding(rest[i], b)->Some_0.0);
            assert(rest[i] == labels[i + 1]);
            assert(label_decoding(labels[i + 1], b) is Some);
        }
        if exists|i: int|
            0 <= i < labels.len() && #[trigger] label_decoding(labels[i], b) is Some
                && !label_decoding(labels[i], b)->Some_0.1 && meaningful(label_decoding(labels[i], b)->Some_0.0) {
            let i = choose|i: int|
                0 <= i < labels.len() && #[trigger] label_decoding(labels[i], b) is Some
                    && !label_decoding(labels[i], b)->Some_0.1 && meaningful(label_decoding(labels[i], b)->Some_0.0);
            if i > 0 {
                assert(rest[i - 1] == labels[i]);
                assert(label_decoding(rest[i - 1], b) is Some);
            }
        }
    }
}

/// Bytes without NUL that some fallback encoding, at any place in the list, decodes
/// without errors into meaningful text are text.
pub proof fn law_label_read_as_text_is_text(b: Seq<u8>, labels: Seq<Seq<char>>, i: int)
    requires
        !b.contains(0),
        0 <= i < labels.len(),
        label_decoding(labels[i], b) is Some,
        !label_decoding(labels[i], b)->Some_0.1,
        meaningful(label_decoding(labels[i], b)->Some_0.0),
    ensures
        is_text_spec(b, labels),
{
    law_any_label_may_read_as_text(labels, b);
}

/// Which bytes are text: the empty input, a byte order mark, UTF-16 or UTF-32 without
/// one; otherwise bytes without NUL that read as meaningful text as UTF-8, through some
/// fallback encoding without errors, or as lossy UTF-8.
pub proof fn law_text_detection(b: Seq<u8>, labels: Seq<Seq<char>>)
    ensures
        is_text_spec(b, labels) <==> (b.len() == 0 || crate::encoding::has_bom(b) || crate::detect::looks_utf16(b)
            || crate::detect::looks_utf32(b) || (!b.contains(0) && ((valid_utf8(b) && meaningful(decode_utf8(b)))
            || (exists|i: int|
            0 <= i < labels.len() && #[trigger] label_decoding(labels[i], b) is Some
                && !label_decoding(labels[i], b)->Some_0.1 && meaningful(label_decoding(labels[i], b)->Some_0.0))
            || meaningful(utf8_lossy_text(b))))),
{
    law_any_label_may_read_as_text(labels, b);
}

/// The first label decoding the bytes without errors gives the text: when label `i`
/// decodes cleanly and no label before it does, [`first_clean_decoding`] is its text.
proof fn lemma_first_clean_is_first(labels: Seq<Seq<char>>, b: Seq<u8>, i: int, t: Seq<char>)
    requires
        0 <= i < labels.len(),
        label_decoding(labels[i], b) == Some((t, false)),
        forall|j: int|
            0 <= j < i ==> (#[trigger] label_decoding(labels[j], b) is None || label_decoding(labels[j], b)->Some_0.1),
    ensures
        first_clean_decoding(labels, b) == Some(t),
    decreases labels.len(),
{
    if i > 0 {
        let rest = labels.skip(1);
        assert(label_decoding(labels[0], b) is None || label_decoding(labels[0], b)->Some_0.1);
        assert forall|j: int| 0 <= j < i - 1 implies (#[trigger] label_decoding(rest[j], b) is None
            || label_decoding(rest[j], b)->Some_0.1) by {
            assert(rest[j] == labels[j + 1]);
            assert(label_decoding(labels[j + 1], b) is None || label_decoding(labels[j + 1], b)->Some_0.1);
        }
        assert(rest[i - 1] == labels[i]);
        lemma_first_clean_is_first(rest, b, i - 1, t);
    }
}

/// When no label decodes the bytes without errors, there is no clean decoding.
proof fn lemma_no_clean_decoding(labels: Seq<Seq<char>>, b: Seq<u8>)
    requires
        forall|j: int|
            0 <= j < labels.len() ==> (#[trigger] label_decoding(labels[j], b) is None || label_decoding(labels[j], b)->Some_0.1),
    ensures
        first_clean_decoding(labels, b) is None,
    decreases labels.len(),
{
    if labels.len() > 0 {
        let rest = labels.skip(1);
        assert(label_decoding(labels[0], b) is None || label_decoding(labels[0], b)->Some_0.1);
        assert forall|j: int| 0 <= j < rest.len() implies (#[trigger] label_decoding(rest[j], b) is None
            || label_decoding(rest[j], b)->Some_0.1) by {
            assert(rest[j] == labels[j + 1]);
            assert(label_decoding(labels[j + 1], b) is None || label_decoding(labels[j + 1], b)->Some_0.1);
        }
        lemma_no_clean_decoding(rest, b);
    }
}

/// Decoding a file's content tries the fallback encodings in list order: for bytes
/// that are not UTF-8, when label `i` decodes them without errors and no label before
/// it does, the text is label `i`'s decoding, whatever later labels give.
pub proof fn law_decode_tries_labels_in_order(b: Seq<u8>, labels: Seq<Seq<char>>, i: int, t: Seq<char>)
    requires
        !valid_utf8(b),
        0 <= i < labels.len(),
        label_decoding(labels[i], b) == Some((t, false)),
        forall|j: int|
            0 <= j < i ==> (#[trigger] label_decoding(labels[j], b) is None || label_decoding(labels[j], b)->Some_0.1),
    ensures
        decode_text_spec(b, labels) == t,
{
    lemma_first_clean_is_first(labels, b, i, t);
}

/// Decoding a file's content: valid UTF-8 is decoded as UTF-8; bytes that no label
/// decodes without errors are decoded as lossy UTF-8.
pub proof fn law_decode_falls_back_to_lossy(b: Seq<u8>, labels: Seq<Seq<char>>)
    ensures
        valid_utf8(b) ==> decode_text_spec(b, labels) == decode_utf8(b),
        !valid_utf8(b) && (forall|j: int|
            0 <= j < labels.len() ==> (#[trigger] label_decoding(labels[j], b) is None || label_decoding(
                labels[j],
                b,
            )->Some_0.1)) ==> decode_text_spec(b, labels) == utf8_lossy_text(b),
{
    if !valid_utf8(b) && (forall|j: int|
        0 <= j < labels.len() ==> (#[trigger] label_decoding(labels[j], b) is None || label_decoding(
            labels[j],
            b,
        )->Some_0.1)) {
        lemma_no_clean_decoding(labels, b);
    }
}

// ----- Repeated paths in a pack -----

/// No two entries of `ps` are the same.
pub open spec fn all_distinct(ps: Seq<Seq<char>>) -> bool {
    forall|i: int, j: int| 0 <= i < j < ps.len() ==> ps[i] != ps[j]
}

/// A repeat is found wherever it stands: [`first_duplicate`] finds nothing exactly when
/// all paths differ, and what it finds occurs at two places.
pub proof fn law_any_repeated_path_is_found(ps: Seq<Seq<char>>)
    ensures
        first_duplicate(ps) is None <==> all_distinct(ps),
        first_duplicate(ps) is Some ==> exists|i: int, j: int|
            0 <= i < j < ps.len() && ps[i] == first_duplicate(ps)->Some_0 && ps[j] == first_duplicate(ps)->Some_0,
    decreases ps.len(),
{
    if ps.len() > 0 {
        let init = ps.drop_last();
        law_any_repeated_path_is_found(init);
        match first_duplicate(init) {
            Some(d) => {
                let (i, j) = choose|i: int, j: int| 0 <= i < j < init.len() && init[i] == d && init[j] == d;
                assert(ps[i] == d && ps[j] == d);
                assert(!all_distinct(ps));
            },
            None => {
                if init.contains(ps.last()) {
                    let i = choose|i: int| 0 <= i < init.len() && init[i] == ps.last();
                    assert(ps[i] == ps[ps.len() - 1]);
                    assert(!all_distinct(ps));
                } else {
                    assert forall|i: int, j: int| 0 <= i < j < ps.len() implies ps[i] != ps[j] by {
                        if j < ps.len() - 1 {
                            assert(init[i] == ps[i] && init[j] == ps[j]);
                        } else {
                            assert(init[i] == ps[i]);
                        }
                    }
                }
            },
        }
    }
}

/// A pack of several paths (anything but a single directory) is refused whenever two
/// of the files it gathers have the same relative path, wherever they stand.
pub proof fn law_pack_refuses_any_repeated_path(
    srcs: Seq<PackSource>,
    rules: Seq<RuleView>,
    labels: Seq<Seq<char>>,
    i: int,
    j: int,
)
    requires
        srcs.len() > 0,
        !(srcs.len() == 1 && srcs[0] is Directory),
        gather_sources_spec(srcs, rules, labels) is Ok,
        0 <= i < j < gather_sources_spec(srcs, rules, labels)->Ok_0.0.len(),
        gather_sources_spec(srcs, rules, labels)->Ok_0.0[i].0 == gather_sources_spec(srcs, rules, labels)->Ok_0.0[j].0,
    ensures
        pack_files_spec(srcs, rules, labels) is Err,
{
    let fs = gather_sources_spec(srcs, rules, labels)->Ok_0.0;
    let ps = fs.map_values(|f: (Seq<char>, Seq<char>)| f.0);
    law_any_repeated_path_is_found(ps);
    assert(ps[i] == ps[j]);
    assert(!all_distinct(ps));
}

// ----- Directory exclude patterns -----

/// Every piece that `split_on` lists is a piece of `s` between separators.
proof fn lemma_listed_is_component(s: Seq<char>, k: int)
    requires
        0 <= k < split_on(s, '/').len(),
    ensures
        exists|a: int, b: int| #[trigger] is_component(s, a, b) && s.subrange(a, b) == split_on(s, '/')[k],
    decreases s.len(),
{
    let f = find_char(s, '/');
    lemma_find_char_bounds(s, '/');
    if f >= s.len() {
        assert(split_on(s, '/') == seq![s]);
        assert(s.subrange(0, s.len() as int) =~= s);
        assert(no_slash(s.subrange(0, s.len() as int)));
        assert(is_component(s, 0, s.len() as int));
    } else {
        let r = s.skip(f + 1);
        assert(split_on(s, '/') == seq![s.take(f)] + split_on(r, '/'));
        if k == 0 {
            assert(s.subrange(0, f) =~= s.take(f));
            assert(no_slash(s.subrange(0, f)));
            assert(is_component(s, 0, f));
        } else {
            lemma_listed_is_component(r, k - 1);
            let (a2, b2) = choose|a2: int, b2: int|
                #[trigger] is_component(r, a2, b2) && r.subrange(a2, b2) == split_on(r, '/')[k - 1];
            let a = a2 + f + 1;
            let b = b2 + f + 1;
            assert(s.subrange(a, b) =~= r.subrange(a2, b2));
            if a2 > 0 {
                assert(s[a - 1] == r[a2 - 1]);
            }
            if b2 < r.len() {
                assert(s[b] == r[b2]);
            }
            assert(is_component(s, a, b));
            assert(s.subrange(a, b) == split_on(s, '/')[k]);
        }
    }
}

/// A piece between separators is one that `split_on` lists.
proof fn lemma_component_is_listed(s: Seq<char>, a: int, b: int)
    requires
        is_component(s, a, b),
    ensures
        exists|k: int| 0 <= k < split_on(s, '/').len() && #[trigger] split_on(s, '/')[k] == s.subrange(a, b),
    decreases s.len(),
{
    let f = find_char(s, '/');
    lemma_find_char_bounds(s, '/');
    if f >= s.len() {
        if a > 0 {
            assert(s[a - 1] == '/');
        }
        assert(s.subrange(a, b) =~= s);
        assert(split_on(s, '/')[0] == s);
    } else if a == 0 {
        if b > f {
            assert(s.subrange(a, b)[f] == '/');
        }
        if b < f {
            assert(s[b] == '/');
        }
        assert(s.subrange(a, b) =~= s.take(f));
        assert(split_on(s, '/')[0] == s.take(f));
    } else {
        let r = s.skip(f + 1);
        assert(s[a - 1] == '/');
        assert(a - 1 >= f);
        let a2 = a - (f + 1);
        let b2 = b - (f + 1);
        assert(r.subrange(a2, b2) =~= s.subrange(a, b));
        if a2 > 0 {
            assert(r[a2 - 1] == s[a - 1]);
        }
        if b2 < r.len() {
            assert(r[b2] == s[b]);
        }
        assert(is_component(r, a2, b2));
        lemma_component_is_listed(r, a2, b2);
        let w = choose|w: int| 0 <= w < split_on(r, '/').len() && #[trigger] split_on(r, '/')[w] == r.subrange(a2, b2);
        assert(split_on(s, '/') == seq![s.take(f)] + split_on(r, '/'));
        assert(split_on(s, '/')[w + 1] == s.subrange(a, b));
    }
}

/// Some piece of `path` between `/` separators matches `p`.
pub open spec fn some_piece_matches(p: Seq<char>, path: Seq<char>) -> bool {
    exists|k: int| 0 <= k < split_on(path, '/').len() && glob_matches(p, #[trigger] split_on(path, '/')[k])
}

proof fn lemma_pieces(p: Seq<char>, path: Seq<char>)
    ensures
        (exists|a: int, b: int| #[trigger] is_component(path, a, b) && glob_matches(p, path.subrange(a, b)))
            <==> some_piece_matches(p, path),
{
    if exists|a: int, b: int| #[trigger] is_component(path, a, b) && glob_matches(p, path.subrange(a, b)) {
        let (a, b) = choose|a: int, b: int| #[trigger] is_component(path, a, b) && glob_matches(p, path.subrange(a, b));
        lemma_component_is_listed(path, a, b);
        let k = choose|k: int| 0 <= k < split_on(path, '/').len() && #[trigger] split_on(path, '/')[k] == path.subrange(a, b);
        assert(glob_matches(p, split_on(path, '/')[k]));
    }
    if some_piece_matches(p, path) {
        let k = choose|k: int| 0 <= k < split_on(path, '/').len() && glob_matches(p, #[trigger] split_on(path, '/')[k]);
        lemma_listed_is_component(path, k);
        let (a, b) = choose|a: int, b: int| #[trigger] is_component(path, a, b) && path.subrange(a, b) == split_on(path, '/')[k];
        assert(glob_matches(p, path.subrange(a, b)));
    }
}

/// A directory pattern without `/` that is not anchored applies to a path exactly when
/// one of the path's `/`-separated pieces, at any depth, matches it: `logs/` excludes
/// `server/logs/app.log` as well as `logs/app.log`.
pub proof fn law_directory_pattern_matches_any_piece(p: Seq<char>, path: Seq<char>)
    requires
        p.len() > 0,
        !p.contains('/'),
    ensures
        pattern_applies(p, path, true, false) <==> some_piece_matches(p, path),
{
    lemma_pieces(p, path);
}

/// A pattern without `/` that is not anchored and not for directories only applies to
/// a path exactly when it matches the whole path or one of its pieces, at any depth.
pub proof fn law_plain_pattern_matches_path_or_any_piece(p: Seq<char>, path: Seq<char>)
    requires
        p.len() > 0,
        !p.contains('/'),
    ensures
        pattern_applies(p, path, false, false) <==> (glob_matches(p, path) || some_piece_matches(p, path)),
{
    lemma_pieces(p, path);
}

/// An anchored directory pattern, or one holding a `/`, applies to the directory it
/// names (without its leading `/`) and to every path inside it, and to nothing else.
pub proof fn law_rooted_directory_pattern_covers_its_tree(p: Seq<char>, path: Seq<char>, anchored: bool)
    requires
        p.len() > 0,
        anchored || p.contains('/'),
    ensures
        pattern_applies(p, path, true, anchored) <==> (path == crate::glob::strip_leading_slash(p) || exists|rest: Seq<char>|
            path == crate::glob::strip_leading_slash(p) + seq!['/'] + rest),
{
    let pat = crate::glob::strip_leading_slash(p);
    if path.len() > pat.len() && path.take(pat.len() as int) == pat && path[pat.len() as int] == '/' {
        let rest = path.skip(pat.len() as int + 1);
        assert(path =~= pat + seq!['/'] + rest);
    }
    if exists|rest: Seq<char>| path == pat + seq!['/'] + rest {
        let rest = choose|rest: Seq<char>| path == pat + seq!['/'] + rest;
        assert(path.take(pat.len() as int) =~= pat);
        assert(path[pat.len() as int] == '/');
    }
}

} // verus!
