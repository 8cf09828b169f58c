//! Exclude rules in the syntax of `.gitignore` files: parsing rule text, and
//! deciding whether a relative path is excluded ("the last rule that matches wins").
use vstd::prelude::*;
use crate::constants::DEFAULT_EXCLUDES;
use crate::glob::glob_match;
use crate::glob::pattern_applies;
use crate::text::chars_of;
use crate::text::lines;
use crate::text::replace_char;
use crate::text::split_lines;
use crate::text::string_of;
use crate::text::trim;
use crate::text::trim_chars;

verus! {

broadcast use vstd::string::group_string_axioms;

/// One exclude rule.
#[derive(Debug)]
pub struct ExcludeRule {
    pub pattern: String,
    /// The rule re-includes what it matches (it was written with a leading `!`).
    pub negated: bool,
    /// The rule was written with a trailing `/`.
    pub directory_only: bool,
    /// The rule applies from the root only (it was written with one leading `/`).
    pub anchored: bool,
}

/// What an [`ExcludeRule`] holds, as mathematical values.
pub struct RuleView {
    pub pattern: Seq<char>,
    pub negated: bool,
    pub directory_only: bool,
    pub anchored: bool,
}

impl View for ExcludeRule {
    type V = RuleView;

    open spec fn view(&self) -> RuleView {
        RuleView {
            pattern: self.pattern@,
            negated: self.negated,
            directory_only: self.directory_only,
            anchored: self.anchored,
        }
    }
}

/// An ordered list of exclude rules.
pub struct ExcludeRules {
    pub patterns: Vec<ExcludeRule>,
}

impl View for ExcludeRules {
    type V = Seq<RuleView>;

    open spec fn view(&self) -> Seq<RuleView> {
        self.patterns@.map_values(|r: ExcludeRule| r@)
    }
}

/// Where the rules of an exclude file come from, as seen by the caller that looked for it.
pub enum IgnoreFile {
    /// No such file exists.
    Missing,
    /// The file exists but could not be read as text.
    Unreadable,
    /// The text of the file.
    Text(String),
}

/// `s` with each backslash escape `\c` replaced by `c`; a final lone backslash stays.
pub open spec fn unescape(s: Seq<char>) -> Seq<char>
    decreases s.len(),
{
    if s.len() == 0 {
        Seq::empty()
    } else if s[0] == '\\' && s.len() >= 2 {
        seq![s[1]] + unescape(s.skip(2))
    } else {
        seq![s[0]] + unescape(s.skip(1))
    }
}

/// Whether `s` starts with exactly one `/` (not with `//`).
pub open spec fn starts_with_single_slash(s: Seq<char>) -> bool {
    s.len() > 0 && s[0] == '/' && !(s.len() > 1 && s[1] == '/')
}

/// Whether `s` ends with `/`.
pub open spec fn ends_with_slash(s: Seq<char>) -> bool {
    s.len() > 0 && s.last() == '/'
}

/// The rule that one line of an exclude file states: blank lines and lines that
/// start with `#` state none; otherwise a leading `!` negates, a trailing `/` makes
/// the rule apply to directories, a single leading `/` anchors it, and backslash
/// escapes are resolved.
pub open spec fn parse_line(line: Seq<char>) -> Option<RuleView> {
    let t = trim(line);
    if t.len() == 0 || t[0] == '#' {
        None
    } else {
        let negated = t[0] == '!';
        let s1 = if negated { t.skip(1) } else { t };
        let dir = ends_with_slash(s1);
        let s2 = if dir { s1.drop_last() } else { s1 };
        Some(RuleView {
            pattern: unescape(s2),
            negated,
            directory_only: dir,
            anchored: starts_with_single_slash(s2),
        })
    }
}

/// The rules that a sequence of lines states, in order.
pub open spec fn parsed_rules(ls: Seq<Seq<char>>) -> Seq<RuleView>
    decreases ls.len(),
{
    if ls.len() == 0 {
        Seq::empty()
    } else {
        parsed_rules(ls.drop_last()) + match parse_line(ls.last()) {
            Some(r) => seq![r],
            None => Seq::empty(),
        }
    }
}

/// The rule that `add_pattern` adds for `p`: a leading `!` negates, a trailing `/`
/// makes a directory rule, a single leading `/` (of `p` as given) anchors; the `!`
/// and the trailing `/` are removed and escapes resolved. Comments and blank text
/// are not special here.
pub open spec fn added_rule(p: Seq<char>) -> RuleView {
    let negated = p.len() > 0 && p[0] == '!';
    let dir = ends_with_slash(p);
    let q1 = if negated { p.skip(1) } else { p };
    let q2 = if dir { q1.drop_last() } else { q1 };
    RuleView {
        pattern: unescape(q2),
        negated,
        directory_only: dir,
        anchored: starts_with_single_slash(p),
    }
}

/// A plain rule for `p` (from the built-in list or from the settings): not negated,
/// not anchored, a directory rule when `p` ends with `/`, and `p` taken literally.
pub open spec fn plain_rule(p: Seq<char>) -> RuleView {
    RuleView { pattern: p, negated: false, directory_only: ends_with_slash(p), anchored: false }
}

/// The built-in exclude patterns, in order.
pub open spec fn default_pattern_texts() -> Seq<Seq<char>> {
    DEFAULT_EXCLUDES@.map_values(|p: &str| p@)
}

/// The rules every rule set starts with unless built from rule text alone.
pub open spec fn default_rules() -> Seq<RuleView> {
    default_pattern_texts().map_values(|p: Seq<char>| plain_rule(p))
}

/// Plain rules for a list of patterns, in order.
pub open spec fn plain_rules(ps: Seq<Seq<char>>) -> Seq<RuleView> {
    ps.map_values(|p: Seq<char>| plain_rule(p))
}

/// The rules an exclude file contributes: those its text states; none when it cannot
/// be read; and when it does not exist, a plain rule for each pattern of the settings.
pub open spec fn file_rules(f: IgnoreFile, settings_patterns: Seq<Seq<char>>) -> Seq<RuleView> {
    match f {
        IgnoreFile::Missing => plain_rules(settings_patterns),
        IgnoreFile::Unreadable => Seq::empty(),
        IgnoreFile::Text(text) => parsed_rules(lines(text@)),
    }
}

/// Whether a rule applies to a `/`-separated path.
pub open spec fn rule_applies(r: RuleView, path: Seq<char>) -> bool {
    pattern_applies(r.pattern, path, r.directory_only, r.anchored)
}

/// Whether the last rule that applies to `path` is a positive (not negated) rule.
pub open spec fn last_match_excludes(rules: Seq<RuleView>, path: Seq<char>) -> bool
    decreases rules.len(),
{
    if rules.len() == 0 {
        false
    } else if rule_applies(rules.last(), path) {
        !rules.last().negated
    } else {
        last_match_excludes(rules.drop_last(), path)
    }
}

/// Whether some positive rule applies to `path`.
pub open spec fn some_positive_applies(rules: Seq<RuleView>, path: Seq<char>) -> bool
    decreases rules.len(),
{
    if rules.len() == 0 {
        false
    } else {
        (rule_applies(rules.last(), path) && !rules.last().negated) || some_positive_applies(
            rules.drop_last(),
            path,
        )
    }
}

/// Whether `path` (with `\` read as `/`) is excluded by `rules`.
pub open spec fn excludes(rules: Seq<RuleView>, path: Seq<char>) -> bool {
    last_match_excludes(rules, replace_char(path, '\\', '/'))
}

/// Resolves backslash escapes.
fn unescape_gitignore(s: &Vec<char>) -> (r: Vec<char>)
    ensures
        r@ == unescape(s@),
{
    let mut result: Vec<char> = Vec::new();
    let mut i: usize = 0;
    assert(s@.skip(0) == s@);
    while i < s.len()
        invariant
            i <= s.len(),
            unescape(s@) == result@ + unescape(s@.skip(i as int)),
        decreases s.len() - i,
    {
        let ghost t = s@.skip(i as int);
        if s[i] == '\\' && i + 1 < s.len() {
            assert(t.skip(2) == s@.skip(i + 2));
            result.push(s[i + 1]);
            i += 2;
        } else {
            assert(t.skip(1) == s@.skip(i + 1));
            result.push(s[i]);
            i += 1;
        }
    }
    assert(s@.skip(i as int).len() == 0);
    result
}

fn make_rule(pattern: Vec<char>, negated: bool, directory_only: bool, anchored: bool) -> (r: ExcludeRule)
    ensures
        r@ == (RuleView { pattern: pattern@, negated, directory_only, anchored }),
{
    ExcludeRule { pattern: string_of(pattern.as_slice()), negated, directory_only, anchored }
}

fn single_slash_start(s: &Vec<char>) -> (r: bool)
    ensures
        r == starts_with_single_slash(s@),
{
    s.len() > 0 && s[0] == '/' && !(s.len() > 1 && s[1] == '/')
}

fn drop_first_char(s: &Vec<char>) -> (r: Vec<char>)
    requires
        s.len() > 0,
    ensures
        r@ == s@.skip(1),
{
    crate::text::sub_chars(s, 1, s.len())
}

/// The rule that one line of an exclude file states, if any.
fn parse_gitignore_line(line: &Vec<char>) -> (r: Option<ExcludeRule>)
    ensures
        match r {
            Some(rule) => parse_line(line@) == Some(rule@),
            None => parse_line(line@) is None,
        },
{
    let t = trim_chars(line);
    if t.len() == 0 || t[0] == '#' {
        return None;
    }
    let negated = t[0] == '!';
    let mut s = if negated { drop_first_char(&t) } else { t };
    let directory_only = s.len() > 0 && s[s.len() - 1] == '/';
    if directory_only {
        s.pop();
    }
    let anchored = single_slash_start(&s);
    let pattern = unescape_gitignore(&s);
    Some(make_rule(pattern, negated, directory_only, anchored))
}

/// The rules stated by the lines of `text`, appended to `rules`.
fn append_rules_from_text(rules: &mut Vec<ExcludeRule>, text: &str)
    ensures
        final(rules)@.map_values(|r: ExcludeRule| r@) == old(rules)@.map_values(
            |r: ExcludeRule| r@,
        ) + parsed_rules(lines(text@)),
{
    let cs = chars_of(text);
    let ls = split_lines(&cs);
    let ghost ls_view = lines(text@);
    let ghost start = old(rules)@.map_values(|r: ExcludeRule| r@);
    let mut i: usize = 0;
    assert(ls_view.take(0) =~= Seq::<Seq<char>>::empty());
    assert(start + parsed_rules(ls_view.take(0)) =~= start);
    while i < ls.len()
        invariant
            i <= ls.len(),
            ls@.len() == ls_view.len(),
            ls_view == lines(text@),
            forall|k: int| 0 <= k < ls@.len() ==> #[trigger] ls@[k]@ == ls_view[k],
            rules@.map_values(|r: ExcludeRule| r@) == start + parsed_rules(ls_view.take(i as int)),
        decreases ls.len() - i,
    {
        let ghost before = rules@.map_values(|r: ExcludeRule| r@);
        assert(ls_view.take(i + 1).drop_last() == ls_view.take(i as int));
        assert(ls_view.take(i + 1).last() == ls@[i as int]@);
        match parse_gitignore_line(&ls[i]) {
            Some(rule) => {
                rules.push(rule);
                assert(rules@.map_values(|r: ExcludeRule| r@) =~= before.push(rule@));
            },
            None => {},
        }
        i += 1;
    }
    assert(ls_view.take(ls.len() as int) == ls_view);
}

/// Appends the plain rule for each pattern of a list.
fn append_plain_rules(rules: &mut Vec<ExcludeRule>, patterns: &Vec<String>)
    ensures
        final(rules)@.map_values(|r: ExcludeRule| r@) == old(rules)@.map_values(
            |r: ExcludeRule| r@,
        ) + plain_rules(patterns@.map_values(|p: String| p@)),
{
    let ghost start = old(rules)@.map_values(|r: ExcludeRule| r@);
    let ghost ps = patterns@.map_values(|p: String| p@);
    let mut i: usize = 0;
    while i < patterns.len()
        invariant
            i <= patterns.len(),
            ps == patterns@.map_values(|p: String| p@),
            rules@.map_values(|r: ExcludeRule| r@) == start + plain_rules(ps.take(i as int)),
        decreases patterns.len() - i,
    {
        let ghost before = rules@.map_values(|r: ExcludeRule| r@);
        let p = chars_of(patterns[i].as_str());
        let dir = p.len() > 0 && p[p.len() - 1] == '/';
        let rule = make_rule(p, false, dir, false);
        rules.push(rule);
        assert(rules@.map_values(|r: ExcludeRule| r@) =~= before.push(plain_rule(ps[i as int])));
        assert(plain_rules(ps.take(i + 1)) =~= plain_rules(ps.take(i as int)).push(
            plain_rule(ps[i as int]),
        ));
        i += 1;
    }
    assert(ps.take(patterns.len() as int) == ps);
}

impl ExcludeRules {
    /// The built-in rules.
    pub fn new() -> (r: Self)
        ensures
            r@ == default_rules(),
    {
        let mut rules = Self { patterns: Vec::new() };
        rules.set_defaults();
        assert(rules@ =~= Seq::<RuleView>::empty() + default_rules());
        rules
    }

    /// Rules read from the text of an exclude file alone, without the built-in ones.
    pub fn from_rules_text(rules: &str) -> (r: Self)
        ensures
            r@ == parsed_rules(lines(rules@)),
    {
        let mut r = Self { patterns: Vec::new() };
        append_rules_from_text(&mut r.patterns, rules);
        assert(r@ =~= parsed_rules(lines(rules@)));
        r
    }

    /// Appends the built-in rules.
    fn set_defaults(&mut self)
        ensures
            final(self)@ == old(self)@ + default_rules(),
    {
        let defaults = Self::default_patterns();
        let ghost start = self@;
        let ghost ps = default_pattern_texts();
        let mut i: usize = 0;
        while i < defaults.len()
            invariant
                i <= defaults.len(),
                defaults@ == DEFAULT_EXCLUDES@,
                ps == default_pattern_texts(),
                ps.len() == defaults@.len(),
                self@ == start + plain_rules(ps.take(i as int)),
            decreases defaults.len() - i,
        {
            let ghost before = self@;
            let p = chars_of(defaults[i]);
            assert(p@ == ps[i as int]);
            let dir = p.len() > 0 && p[p.len() - 1] == '/';
            let rule = make_rule(p, false, dir, false);
            self.patterns.push(rule);
            assert(self@ =~= before.push(plain_rule(ps[i as int])));
            assert(plain_rules(ps.take(i + 1)) =~= plain_rules(ps.take(i as int)).push(
                plain_rule(ps[i as int]),
            ));
            i += 1;
        }
        assert(ps.take(defaults.len() as int) == ps);
    }

    /// Appends a plain rule for each pattern from the settings.
    fn set_patterns_from_strings(&mut self, patterns: &Vec<String>)
        ensures
            final(self)@ == old(self)@ + plain_rules(patterns@.map_values(|p: String| p@)),
    {
        append_plain_rules(&mut self.patterns, patterns);
    }

    /// The built-in exclude patterns.
    pub fn default_patterns() -> (r: [&'static str; 54])
        ensures
            r@ == DEFAULT_EXCLUDES@,
    {
        DEFAULT_EXCLUDES
    }

    /// The rules of an exclude file: the built-in rules followed by those its text
    /// states; the built-in rules alone when it could not be read (`None`).
    pub fn load(content: Option<&str>) -> (r: Self)
        ensures
            r@ == default_rules() + match content {
                Some(text) => parsed_rules(lines(text@)),
                None => Seq::empty(),
            },
    {
        let mut rules = Self::new();
        match content {
            Some(text) => append_rules_from_text(&mut rules.patterns, text),
            None => {
                assert(rules@ =~= default_rules() + Seq::<RuleView>::empty());
            },
        }
        rules
    }

    /// The rules for a pack: those of the exclude file given, or, when none is given,
    /// those of `.docpackignore` (see [`file_rules`]), after the built-in rules.
    pub fn load_or_default(exclude_file: &Option<IgnoreFile>, docpackignore: &IgnoreFile, settings_patterns: &Vec<String>) -> (r: Self)
        ensures
            r@ == default_rules() + match exclude_file {
                Some(f) => file_rules(*f, settings_patterns@.map_values(|p: String| p@)),
                None => file_rules(*docpackignore, settings_patterns@.map_values(|p: String| p@)),
            },
    {
        match exclude_file {
            Some(f) => Self::rules_for_file(f, settings_patterns),
            None => Self::load_or_from_docpackignore(docpackignore, settings_patterns),
        }
    }

    /// The rules for an exclude file that may be missing (see [`file_rules`]), after
    /// the built-in rules.
    fn rules_for_file(file: &IgnoreFile, settings_patterns: &Vec<String>) -> (r: Self)
        ensures
            r@ == default_rules() + file_rules(*file, settings_patterns@.map_values(|p: String| p@)),
    {
        match file {
            IgnoreFile::Missing => {
                let mut r = Self::new();
                r.set_patterns_from_strings(settings_patterns);
                r
            },
            IgnoreFile::Unreadable => Self::load(None),
            IgnoreFile::Text(text) => Self::load(Some(text.as_str())),
        }
    }

    /// The rules of the `.docpackignore` file of the working directory (see
    /// [`file_rules`]), after the built-in rules.
    pub fn load_or_from_docpackignore(docpackignore: &IgnoreFile, settings_patterns: &Vec<String>) -> (r: Self)
        ensures
            r@ == default_rules() + file_rules(*docpackignore, settings_patterns@.map_values(|p: String| p@)),
    {
        Self::rules_for_file(docpackignore, settings_patterns)
    }

    /// Appends the rule that `pattern` states (see [`added_rule`]).
    pub fn add_pattern(&mut self, pattern: &str)
        ensures
            final(self)@ == old(self)@.push(added_rule(pattern@)),
    {
        let p = chars_of(pattern);
        let negated = p.len() > 0 && p[0] == '!';
        let dir_only = p.len() > 0 && p[p.len() - 1] == '/';
        let anchored = single_slash_start(&p);
        let mut q = if negated { drop_first_char(&p) } else { crate::text::sub_chars(&p, 0, p.len()) };
        let ghost q1 = q@;
        assert(q1 == if negated { p@.skip(1) } else { p@ });
        if dir_only {
            assert(q1.len() > 0);
            q.pop();
            assert(q@ == q1.drop_last());
        }
        let rule = make_rule(unescape_gitignore(&q), negated, dir_only, anchored);
        let ghost before = self@;
        self.patterns.push(rule);
        assert(self@ =~= before.push(added_rule(pattern@)));
    }

    /// The pattern text of each rule, in order.
    pub fn patterns(&self) -> (r: Vec<String>)
        ensures
            r@.map_values(|s: String| s@) == self@.map_values(|rule: RuleView| rule.pattern),
    {
        let mut r: Vec<String> = Vec::new();
        let mut i: usize = 0;
        while i < self.patterns.len()
            invariant
                i <= self.patterns.len(),
                r@.map_values(|s: String| s@) == self@.map_values(|rule: RuleView| rule.pattern).take(i as int),
            decreases self.patterns.len() - i,
        {
            let ghost before = r@.map_values(|s: String| s@);
            let c = self.patterns[i].pattern.clone();
            assert(c@ == self@[i as int].pattern);
            r.push(c);
            assert(r@.map_values(|s: String| s@) =~= before.push(c@));
            i += 1;
            assert(r@.map_values(|s: String| s@) =~= self@.map_values(|rule: RuleView| rule.pattern).take(i as int));
        }
        assert(self@.map_values(|rule: RuleView| rule.pattern).take(i as int) =~= self@.map_values(|rule: RuleView| rule.pattern));
        r
    }

    /// Whether `rel_path` is excluded: backslashes are read as `/`, and the path is
    /// excluded exactly when the last rule that applies to it is not negated.
    pub fn is_excluded(&self, rel_path: &str) -> (r: bool)
        ensures
            r == excludes(self@, rel_path@),
    {
        let raw = chars_of(rel_path);
        let mut path: Vec<char> = Vec::new();
        let mut k: usize = 0;
        while k < raw.len()
            invariant
                k <= raw.len(),
                path@ == replace_char(raw@, '\\', '/').take(k as int),
            decreases raw.len() - k,
        {
            path.push(if raw[k] == '\\' { '/' } else { raw[k] });
            k += 1;
            assert(path@ =~= replace_char(raw@, '\\', '/').take(k as int));
        }
        assert(replace_char(raw@, '\\', '/').take(k as int) =~= replace_char(raw@, '\\', '/'));
        let ghost rules = self@;
        let mut any_positive = false;
        let mut last_was_negated = false;
        let mut i: usize = 0;
        while i < self.patterns.len()
            invariant
                i <= self.patterns.len(),
                rules == self@,
                any_positive == some_positive_applies(rules.take(i as int), path@),
                (any_positive && !last_was_negated) == last_match_excludes(
                    rules.take(i as int),
                    path@,
                ),
            decreases self.patterns.len() - i,
        {
            let rule = &self.patterns[i];
            let pat = chars_of(rule.pattern.as_str());
            let m = glob_match(&pat, &path, rule.directory_only, rule.anchored);
            assert(rules.take(i + 1).drop_last() == rules.take(i as int));
            assert(rules.take(i + 1).last() == rule@);
            if m {
                if rule.negated {
                    if any_positive {
                        last_was_negated = true;
                    }
                } else {
                    any_positive = true;
                    last_was_negated = false;
                }
            }
            i += 1;
        }
        assert(rules.take(i as int) == rules);
        if !any_positive {
            return false;
        }
        !last_was_negated
    }
}

impl Default for ExcludeRules {
    fn default() -> (r: Self)
        ensures
            r@ == default_rules(),
    {
        Self::new()
    }
}

} // verus!
