//! Paths as lists of components, and the names that packing and unpacking choose
//! for what they write: the output document's name, and the `_1`, `_2`, ...
//! alternatives tried when a name is taken.
use vstd::prelude::*;
use crate::constants::DEFAULT_OUTPUT;
use crate::text::chars_of;
use crate::text::copy_string;
use crate::text::decimal;
use crate::text::push_decimal;
use crate::text::push_str;
use crate::text::str_eq;
use crate::text::string_of;
use crate::unpack::last_dot;
use crate::unpack::rfind_char;

verus! {

broadcast use vstd::string::group_string_axioms;

/// A path as its components: whether it starts at the root, then its names in order
/// (`.` only as a leading component, `..` wherever it was written).
pub struct PathParts {
    pub rooted: bool,
    pub names: Vec<String>,
}

/// What a [`PathParts`] holds, as mathematical values.
pub struct PathView {
    pub rooted: bool,
    pub names: Seq<Seq<char>>,
}

impl View for PathParts {
    type V = PathView;

    open spec fn view(&self) -> PathView {
        PathView { rooted: self.rooted, names: self.names@.map_values(|n: String| n@) }
    }
}

/// The next move when looking for a free name: use this path, try this numbered
/// alternative next, or give up after the last numbered one.
pub enum RenameStep {
    Use(PathParts),
    Try(u32, PathParts),
    GiveUp,
}

/// The parent of a path (`Path::parent`): the path without its last component; a
/// path without components has none.
pub open spec fn parent_of(p: PathView) -> Option<PathView> {
    if p.names.len() == 0 {
        None
    } else {
        Some(PathView { rooted: p.rooted, names: p.names.drop_last() })
    }
}

/// A name that is neither `.` nor `..`.
pub open spec fn is_normal(n: Seq<char>) -> bool {
    n != seq!['.'] && n != seq!['.', '.']
}

/// The file name of a path (`Path::file_name`): its last component, unless that is
/// `.` or `..`.
pub open spec fn file_name_of(p: PathView) -> Option<Seq<char>> {
    if p.names.len() > 0 && is_normal(p.names.last()) {
        Some(p.names.last())
    } else {
        None
    }
}

/// The file stem of a path (`Path::file_stem`): the file name up to its last `.`,
/// unless that `.` is its first character.
pub open spec fn file_stem_of(p: PathView) -> Option<Seq<char>> {
    match file_name_of(p) {
        Some(n) => Some(
            if rfind_char(n, '.') > 0 {
                n.take(rfind_char(n, '.'))
            } else {
                n
            },
        ),
        None => None,
    }
}

/// The extension of a path (`Path::extension`): the file name after its last `.`,
/// unless that `.` is its first character.
pub open spec fn extension_of(p: PathView) -> Option<Seq<char>> {
    match file_name_of(p) {
        Some(n) => if rfind_char(n, '.') > 0 {
            Some(n.skip(rfind_char(n, '.') + 1))
        } else {
            None
        },
        None => None,
    }
}

/// `p` with one more name at its end (`Path::join` of a plain name).
pub open spec fn join_name(p: PathView, name: Seq<char>) -> PathView {
    PathView { rooted: p.rooted, names: p.names.push(name) }
}

/// The path `.`.
pub open spec fn current_dir() -> PathView {
    PathView { rooted: false, names: seq![seq!['.']] }
}

/// The parent of a path, or `.` when it has none.
pub open spec fn dir_or_current(p: PathView) -> PathView {
    match parent_of(p) {
        Some(d) => d,
        None => current_dir(),
    }
}

/// The number of leading names that `a` and `b` share.
pub open spec fn shared_len(a: Seq<Seq<char>>, b: Seq<Seq<char>>) -> nat
    decreases a.len(),
{
    if a.len() == 0 || b.len() == 0 || a[0] != b[0] {
        0
    } else {
        1 + shared_len(a.skip(1), b.skip(1))
    }
}

/// The parents of the paths that have one, in order.
pub open spec fn parents_of(ps: Seq<PathView>) -> Seq<PathView>
    decreases ps.len(),
{
    if ps.len() == 0 {
        Seq::empty()
    } else {
        parents_of(ps.drop_last()) + match parent_of(ps.last()) {
            Some(q) => seq![q],
            None => Seq::empty(),
        }
    }
}

/// The longest path that all of `qs` start with, found by cutting the first one back
/// one component at a time; none when some path starts at the root and another does
/// not, or when `qs` is empty.
pub open spec fn common_ancestor(qs: Seq<PathView>) -> Option<PathView>
    decreases qs.len(),
{
    if qs.len() == 0 {
        None
    } else if qs.len() == 1 {
        Some(qs[0])
    } else {
        match common_ancestor(qs.drop_last()) {
            Some(c) => if c.rooted == qs.last().rooted {
                Some(
                    PathView {
                        rooted: c.rooted,
                        names: c.names.take(shared_len(c.names, qs.last().names) as int),
                    },
                )
            } else {
                None
            },
            None => None,
        }
    }
}

/// The common parent directory of several paths: the longest path that all their
/// parents start with, when it has at least one name (so it is neither empty nor a
/// bare root).
pub open spec fn common_parent_spec(ps: Seq<PathView>) -> Option<PathView> {
    match common_ancestor(parents_of(ps)) {
        Some(c) => if c.names.len() > 0 {
            Some(c)
        } else {
            None
        },
        None => None,
    }
}

/// The path `output.docx`, the name a pack uses when the caller gives none.
pub open spec fn default_output_view() -> PathView {
    PathView { rooted: false, names: seq![DEFAULT_OUTPUT@] }
}

/// The directory for a derived output name: the single input's parent, or the inputs'
/// common parent, or the first input's parent, or `.`.
pub open spec fn output_dir_spec(ps: Seq<PathView>) -> PathView {
    let d = if ps.len() == 1 {
        parent_of(ps[0])
    } else {
        match common_parent_spec(ps) {
            Some(c) => Some(c),
            None => if ps.len() > 0 {
                parent_of(ps[0])
            } else {
                None
            },
        }
    };
    match d {
        Some(x) => x,
        None => current_dir(),
    }
}

/// The base name of a derived output: a single file's stem, a single directory's
/// name, the common parent's name, or `output`.
pub open spec fn output_base_spec(ps: Seq<PathView>, single_is_file: bool) -> Seq<char> {
    let n = if ps.len() == 1 {
        if single_is_file {
            file_stem_of(ps[0])
        } else {
            file_name_of(ps[0])
        }
    } else {
        match common_parent_spec(ps) {
            Some(c) => file_name_of(c),
            None => None,
        }
    };
    match n {
        Some(x) => x,
        None => "output"@,
    }
}

/// The name a pack tries first for its document: the path given when it is not
/// `output.docx`; otherwise `<base>.docx` in the directory the inputs suggest. Either
/// way, a name that is taken is replaced by a numbered one (see [`auto_rename`]).
pub open spec fn output_name_spec(ps: Seq<PathView>, given: PathView, single_is_file: bool) -> PathView {
    if given != default_output_view() {
        given
    } else {
        join_name(output_dir_spec(ps), output_base_spec(ps, single_is_file) + ".docx"@)
    }
}

/// The `n`th alternative to a taken document name: `<stem>_<n><.ext>` beside it.
pub open spec fn renamed_spec(p: PathView, n: nat) -> PathView {
    let stem = match file_stem_of(p) {
        Some(s) => s,
        None => Seq::empty(),
    };
    let ext = match extension_of(p) {
        Some(e) => seq!['.'] + e,
        None => Seq::empty(),
    };
    join_name(dir_or_current(p), stem + seq!['_'] + decimal(n) + ext)
}

/// The `n`th alternative to a taken unpack directory: `<name>_<n>` beside it.
pub open spec fn unpack_renamed_spec(p: PathView, n: nat) -> PathView {
    let name = match file_name_of(p) {
        Some(s) => s,
        None => Seq::empty(),
    };
    join_name(dir_or_current(p), name + seq!['_'] + decimal(n))
}

/// The path tried at attempt `attempt`: the path itself first, then its alternatives.
pub open spec fn attempt_path(p: PathView, attempt: nat, unpack: bool) -> PathView {
    if attempt == 0 {
        p
    } else if unpack {
        unpack_renamed_spec(p, attempt)
    } else {
        renamed_spec(p, attempt)
    }
}

/// The number of numbered alternatives tried before giving up.
pub open spec fn last_attempt() -> nat {
    9999
}

/// The step after learning whether the path of attempt `attempt` is taken: a free path
/// is used; a taken one leads to the next attempt, or, after the last, to giving up.
pub open spec fn rename_step_ok(r: RenameStep, p: PathView, attempt: nat, taken: bool, unpack: bool) -> bool {
    if !taken {
        r is Use && r->Use_0@ == attempt_path(p, attempt, unpack)
    } else if attempt < last_attempt() {
        r is Try && r->Try_0 == attempt + 1 && r->Try_1@ == attempt_path(p, attempt + 1, unpack)
    } else {
        r is GiveUp
    }
}

/// A copy of the first `n` names.
fn copy_names(names: &Vec<String>, n: usize) -> (r: Vec<String>)
    requires
        n <= names.len(),
    ensures
        r@.map_values(|s: String| s@) == names@.map_values(|s: String| s@).take(n as int),
{
    let mut r: Vec<String> = Vec::new();
    let mut i: usize = 0;
    while i < n
        invariant
            i <= n <= names.len(),
            r@.map_values(|s: String| s@) == names@.map_values(|s: String| s@).take(i as int),
        decreases n - i,
    {
        let c = copy_string(&names[i]);
        let ghost before = r@;
        r.push(c);
        assert(r@.map_values(|s: String| s@) =~= before.map_values(|s: String| s@).push(c@));
        i += 1;
        assert(r@.map_values(|s: String| s@) =~= names@.map_values(|s: String| s@).take(i as int));
    }
    r
}

/// A copy of a path.
pub fn copy_path(p: &PathParts) -> (r: PathParts)
    ensures
        r@ == p@,
{
    let names = copy_names(&p.names, p.names.len());
    assert(p@.names.take(p.names.len() as int) =~= p@.names);
    PathParts { rooted: p.rooted, names }
}

/// The parent of a path (see [`parent_of`]).
pub fn parent(p: &PathParts) -> (r: Option<PathParts>)
    ensures
        match r {
            Some(q) => parent_of(p@) == Some(q@),
            None => parent_of(p@) is None,
        },
{
    if p.names.len() == 0 {
        None
    } else {
        let names = copy_names(&p.names, p.names.len() - 1);
        assert(p@.names.take(p.names.len() - 1) =~= p@.names.drop_last());
        Some(PathParts { rooted: p.rooted, names })
    }
}

/// `p` with `name` added at its end (see [`join_name`]).
pub fn join(p: &PathParts, name: String) -> (r: PathParts)
    ensures
        r@ == join_name(p@, name@),
{
    let mut q = copy_path(p);
    let ghost before = q@.names;
    q.names.push(name);
    assert(q@.names =~= before.push(name@));
    q
}

/// The path `.`.
fn current() -> (r: PathParts)
    ensures
        r@ == current_dir(),
{
    let mut names: Vec<String> = Vec::new();
    let mut dot = String::new();
    push_str(&mut dot, ".");
    proof {
        reveal_strlit(".");
    }
    assert(dot@ =~= seq!['.']);
    names.push(dot);
    let r = PathParts { rooted: false, names };
    assert(r@.names =~= seq![seq!['.']]);
    r
}

/// Whether a name is neither `.` nor `..`.
fn is_normal_name(n: &String) -> (r: bool)
    ensures
        r == is_normal(n@),
{
    let cs = chars_of(n.as_str());
    if cs.len() == 1 && cs[0] == '.' {
        assert(n@ =~= seq!['.']);
        false
    } else if cs.len() == 2 && cs[0] == '.' && cs[1] == '.' {
        assert(n@ =~= seq!['.', '.']);
        false
    } else {
        assert(n@ != seq!['.']) by {
            if cs.len() == 1 {
                assert(n@[0] != '.');
            }
        }
        assert(n@ != seq!['.', '.']) by {
            if cs.len() == 2 {
                assert(n@[0] != '.' || n@[1] != '.');
            }
        }
        true
    }
}

/// The file name of a path (see [`file_name_of`]).
pub fn file_name(p: &PathParts) -> (r: Option<String>)
    ensures
        match r {
            Some(n) => file_name_of(p@) == Some(n@),
            None => file_name_of(p@) is None,
        },
{
    if p.names.len() == 0 {
        return None;
    }
    let last = &p.names[p.names.len() - 1];
    if is_normal_name(last) {
        Some(copy_string(last))
    } else {
        None
    }
}

/// The position of the last `.` of a name, when it is not the first character.
fn stem_dot(cs: &Vec<char>) -> (r: Option<usize>)
    ensures
        match r {
            Some(d) => rfind_char(cs@, '.') > 0 && d == rfind_char(cs@, '.') && d < cs.len(),
            None => rfind_char(cs@, '.') <= 0,
        },
{
    let d = last_dot(cs, 0, cs.len());
    assert(cs@.subrange(0, cs.len() as int) =~= cs@);
    if d > 0 && d < cs.len() {
        Some(d)
    } else {
        proof {
            if rfind_char(cs@, '.') > 0 {
                lemma_rfind_below(cs@);
            }
        }
        None
    }
}

proof fn lemma_rfind_below(s: Seq<char>)
    ensures
        rfind_char(s, '.') < s.len(),
    decreases s.len(),
{
    if s.len() > 0 && s.last() != '.' {
        lemma_rfind_below(s.drop_last());
    }
}

/// The file stem of a path (see [`file_stem_of`]).
pub fn file_stem(p: &PathParts) -> (r: Option<String>)
    ensures
        match r {
            Some(n) => file_stem_of(p@) == Some(n@),
            None => file_stem_of(p@) is None,
        },
{
    match file_name(p) {
        Some(n) => {
            let cs = chars_of(n.as_str());
            match stem_dot(&cs) {
                Some(d) => {
                    let head = &cs.as_slice()[0..d];
                    assert(head@ == cs@.take(d as int));
                    Some(string_of(head))
                },
                None => Some(n),
            }
        },
        None => None,
    }
}

/// The extension of a path, with its leading `.`, or nothing (see [`extension_of`]).
fn dotted_extension(p: &PathParts) -> (r: String)
    ensures
        r@ == match extension_of(p@) {
            Some(e) => seq!['.'] + e,
            None => Seq::empty(),
        },
{
    match file_name(p) {
        Some(n) => {
            let cs = chars_of(n.as_str());
            match stem_dot(&cs) {
                Some(d) => {
                    let tail = &cs.as_slice()[d..cs.len()];
                    assert(tail@ == cs@.skip(d as int));
                    assert(cs@.skip(d as int) =~= seq!['.'] + cs@.skip(d + 1)) by {
                        assert(cs@[d as int] == '.') by {
                            lemma_rfind_is_dot(cs@);
                        }
                    }
                    string_of(tail)
                },
                None => String::new(),
            }
        },
        None => String::new(),
    }
}

proof fn lemma_rfind_is_dot(s: Seq<char>)
    ensures
        rfind_char(s, '.') >= 0 ==> rfind_char(s, '.') < s.len() && s[rfind_char(s, '.')] == '.',
    decreases s.len(),
{
    if s.len() > 0 && s.last() != '.' {
        lemma_rfind_is_dot(s.drop_last());
        let d = rfind_char(s.drop_last(), '.');
        assert(rfind_char(s, '.') == d);
        if d >= 0 {
            assert(s.drop_last()[d] == s[d]);
        }
    }
}

/// The parent of a path, or `.`.
fn dir_of(p: &PathParts) -> (r: PathParts)
    ensures
        r@ == dir_or_current(p@),
{
    match parent(p) {
        Some(d) => d,
        None => current(),
    }
}

/// The `n`th alternative to a taken document name (see [`renamed_spec`]).
pub fn renamed(p: &PathParts, n: u64) -> (r: PathParts)
    ensures
        r@ == renamed_spec(p@, n as nat),
{
    let mut name = match file_stem(p) {
        Some(s) => s,
        None => String::new(),
    };
    let ghost stem = name@;
    crate::text::push_char(&mut name, '_');
    push_decimal(&mut name, n);
    let ext = dotted_extension(p);
    push_str(&mut name, ext.as_str());
    assert(name@ =~= stem + seq!['_'] + decimal(n as nat) + ext@);
    join(&dir_of(p), name)
}

/// The `n`th alternative to a taken unpack directory (see [`unpack_renamed_spec`]).
pub fn unpack_renamed(p: &PathParts, n: u64) -> (r: PathParts)
    ensures
        r@ == unpack_renamed_spec(p@, n as nat),
{
    let mut name = match file_name(p) {
        Some(s) => s,
        None => String::new(),
    };
    let ghost stem = name@;
    crate::text::push_char(&mut name, '_');
    push_decimal(&mut name, n);
    assert(name@ =~= stem + seq!['_'] + decimal(n as nat));
    join(&dir_of(p), name)
}

fn attempt_at(p: &PathParts, n: u32, unpack: bool) -> (r: PathParts)
    ensures
        r@ == attempt_path(p@, n as nat, unpack),
{
    if n == 0 {
        copy_path(p)
    } else if unpack {
        unpack_renamed(p, n as u64)
    } else {
        renamed(p, n as u64)
    }
}

fn rename_step(p: &PathParts, attempt_no: u32, taken: bool, unpack: bool) -> (r: RenameStep)
    requires
        attempt_no <= last_attempt(),
    ensures
        rename_step_ok(r, p@, attempt_no as nat, taken, unpack),
{
    if !taken {
        RenameStep::Use(attempt_at(p, attempt_no, unpack))
    } else if attempt_no < 9999 {
        RenameStep::Try(attempt_no + 1, attempt_at(p, attempt_no + 1, unpack))
    } else {
        RenameStep::GiveUp
    }
}

/// One step of finding a free name for an output document: told whether the path of
/// attempt `attempt` (the path itself at 0, then `<stem>_<n><.ext>`) is taken, says
/// what to do next.
pub fn auto_rename(path: &PathParts, attempt: u32, taken: bool) -> (r: RenameStep)
    requires
        attempt <= last_attempt(),
    ensures
        rename_step_ok(r, path@, attempt as nat, taken, false),
{
    rename_step(path, attempt, taken, false)
}

/// One step of finding a free unpack directory: told whether the path of attempt
/// `attempt` (the path itself at 0, then `<name>_<n>`) is taken, says what to do
/// next.
pub fn resolve_unpack_output(output: &PathParts, attempt: u32, taken: bool) -> (r: RenameStep)
    requires
        attempt <= last_attempt(),
    ensures
        rename_step_ok(r, output@, attempt as nat, taken, true),
{
    rename_step(output, attempt, taken, true)
}

/// The views of a list of paths.
pub open spec fn path_views(ps: Seq<PathParts>) -> Seq<PathView> {
    ps.map_values(|p: PathParts| p@)
}

/// Once no common path is left, none comes back.
proof fn lemma_no_ancestor_sticks(qs: Seq<PathView>, k: int)
    requires
        1 <= k <= qs.len(),
        common_ancestor(qs.take(k)) is None,
    ensures
        common_ancestor(qs) is None,
    decreases qs.len() - k,
{
    if k < qs.len() {
        assert(qs.take(k + 1).drop_last() =~= qs.take(k));
        lemma_no_ancestor_sticks(qs, k + 1);
    } else {
        assert(qs.take(k) =~= qs);
    }
}

/// The number of leading names two paths share (see [`shared_len`]).
fn shared_names(a: &Vec<String>, b: &Vec<String>) -> (r: usize)
    ensures
        r == shared_len(a@.map_values(|s: String| s@), b@.map_values(|s: String| s@)),
        r <= a.len(),
        r <= b.len(),
{
    let ghost av = a@.map_values(|s: String| s@);
    let ghost bv = b@.map_values(|s: String| s@);
    let mut k: usize = 0;
    assert(av.skip(0) =~= av && bv.skip(0) =~= bv);
    while k < a.len() && k < b.len() && str_eq(a[k].as_str(), b[k].as_str())
        invariant
            k <= a.len(),
            k <= b.len(),
            av == a@.map_values(|s: String| s@),
            bv == b@.map_values(|s: String| s@),
            shared_len(av, bv) == k + shared_len(av.skip(k as int), bv.skip(k as int)),
        decreases a.len() - k,
    {
        assert(av.skip(k as int)[0] == av[k as int]);
        assert(bv.skip(k as int)[0] == bv[k as int]);
        assert(av.skip(k as int).skip(1) =~= av.skip(k + 1));
        assert(bv.skip(k as int).skip(1) =~= bv.skip(k + 1));
        k += 1;
    }
    if k < a.len() && k < b.len() {
        assert(av.skip(k as int)[0] != bv.skip(k as int)[0]);
    }
    k
}

/// The common parent directory of several paths (see [`common_parent_spec`]).
pub fn find_common_parent(paths: &Vec<PathParts>) -> (r: Option<PathParts>)
    ensures
        match r {
            Some(c) => common_parent_spec(path_views(paths@)) == Some(c@),
            None => common_parent_spec(path_views(paths@)) is None,
        },
{
    let ghost ps = path_views(paths@);
    let mut parents: Vec<PathParts> = Vec::new();
    let mut i: usize = 0;
    assert(ps.take(0) =~= Seq::<PathView>::empty());
    while i < paths.len()
        invariant
            i <= paths.len(),
            ps == path_views(paths@),
            path_views(parents@) == parents_of(ps.take(i as int)),
        decreases paths.len() - i,
    {
        assert(ps.take(i + 1).drop_last() =~= ps.take(i as int));
        assert(ps.take(i + 1).last() == paths@[i as int]@);
        match parent(&paths[i]) {
            Some(q) => {
                let ghost before = parents@;
                parents.push(q);
                assert(path_views(parents@) =~= path_views(before) + seq![q@]);
            },
            None => {
                assert(parents_of(ps.take(i + 1)) =~= parents_of(ps.take(i as int)));
            },
        }
        i += 1;
    }
    assert(ps.take(i as int) =~= ps);
    let ghost qs = path_views(parents@);
    assert(qs == parents_of(ps));
    if parents.len() == 0 {
        assert(qs.len() == 0);
        assert(common_ancestor(qs) is None);
        return None;
    }
    let mut common = copy_path(&parents[0]);
    assert(qs.take(1) =~= seq![qs[0]]);
    let mut j: usize = 1;
    while j < parents.len()
        invariant
            1 <= j <= parents.len(),
            qs == path_views(parents@),
            qs == parents_of(ps),
            ps == path_views(paths@),
            common_ancestor(qs.take(j as int)) == Some(common@),
        decreases parents.len() - j,
    {
        assert(qs.take(j + 1).drop_last() =~= qs.take(j as int));
        assert(qs.take(j + 1).last() == parents@[j as int]@);
        if common.rooted != parents[j].rooted {
            proof {
                lemma_no_ancestor_sticks(qs, j + 1);
            }
            assert(common_ancestor(qs) is None);
            return None;
        }
        let k = shared_names(&common.names, &parents[j].names);
        let names = copy_names(&common.names, k);
        common = PathParts { rooted: common.rooted, names };
        j += 1;
    }
    assert(qs.take(j as int) =~= qs);
    if common.names.len() == 0 {
        return None;
    }
    Some(common)
}

/// Whether a path is `output.docx`.
fn is_default_output(p: &PathParts) -> (r: bool)
    ensures
        r == (p@ == default_output_view()),
{
    if p.rooted || p.names.len() != 1 {
        assert(p@.names.len() != 1 || p@.rooted);
        return false;
    }
    let same = str_eq(p.names[0].as_str(), DEFAULT_OUTPUT);
    if same {
        assert(p@.names =~= seq![DEFAULT_OUTPUT@]);
    } else {
        assert(p@.names[0] != DEFAULT_OUTPUT@);
    }
    same
}

/// The name a pack tries first for its document (see [`output_name_spec`]); it is
/// still to be checked for being taken, given or not (see [`auto_rename`]), so that an
/// existing document is never overwritten.
pub fn resolve_output_name(paths: &Vec<PathParts>, given: &PathParts, single_is_file: bool) -> (r: PathParts)
    ensures
        r@ == output_name_spec(path_views(paths@), given@, single_is_file),
{
    let ghost ps = path_views(paths@);
    if !is_default_output(given) {
        return copy_path(given);
    }
    let common = if paths.len() == 1 {
        None
    } else {
        find_common_parent(paths)
    };
    let dir = if paths.len() == 1 {
        parent(&paths[0])
    } else {
        match &common {
            Some(c) => Some(copy_path(c)),
            None => if paths.len() > 0 {
                parent(&paths[0])
            } else {
                None
            },
        }
    };
    let dir = match dir {
        Some(d) => d,
        None => current(),
    };
    let base = if paths.len() == 1 {
        if single_is_file {
            file_stem(&paths[0])
        } else {
            file_name(&paths[0])
        }
    } else {
        match &common {
            Some(c) => file_name(c),
            None => None,
        }
    };
    let mut name = match base {
        Some(b) => b,
        None => {
            let mut o = String::new();
            push_str(&mut o, "output");
            o
        },
    };
    let ghost b = name@;
    push_str(&mut name, ".docx");
    assert(name@ == b + ".docx"@);
    assert(dir@ == output_dir_spec(ps));
    assert(b == output_base_spec(ps, single_is_file));
    join(&dir, name)
}

} // verus!
