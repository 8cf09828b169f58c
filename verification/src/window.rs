//! The decisions of the program's window: selecting and removing listed inputs with
//! the mouse and keys, the exclude rules and encodings edited in the settings, and
//! filling placeholders of the texts shown.
use vstd::prelude::*;
use crate::ignore::ExcludeRules;
use crate::ignore::RuleView;
use crate::ignore::default_pattern_texts;
use crate::ignore::default_rules;
use crate::ignore::parsed_rules;
use crate::settings::DEFAULT_LOCAL_ENCODINGS;
use crate::settings::default_encodings;
use crate::text::chars_of;
use crate::text::copy_string;
use crate::text::lines;
use crate::text::push_char;
use crate::text::push_str;
use crate::text::split_lines;
use crate::text::string_of;
use crate::text::trim;
use crate::text::trim_chars;

verus! {

broadcast use vstd::string::group_string_axioms;

/// An arrow key that moves the selection.
#[derive(Debug, Clone, Copy, PartialEq, Eq, Structural)]
pub enum Arrow {
    Up,
    Down,
}

/// The position of the first `i` in `s`, or `s.len()`.
pub open spec fn first_index(s: Seq<usize>, i: usize) -> int
    decreases s.len(),
{
    if s.len() == 0 {
        0
    } else if s[0] == i {
        0
    } else {
        1 + first_index(s.skip(1), i)
    }
}

/// The rows `start..=end`, in order.
pub open spec fn row_range(start: usize, end: usize) -> Seq<usize> {
    Seq::new((end - start + 1) as nat, |k: int| (start + k) as usize)
}

/// The selection after a click on row `i`: with Ctrl, `i` leaves the selection (its
/// first occurrence) or joins it at the end; with Shift, the rows from the last
/// selected one (or the first row) to `i`; otherwise `i` alone.
pub open spec fn click_spec(sel: Seq<usize>, i: usize, ctrl: bool, shift: bool) -> Seq<usize> {
    if ctrl {
        if sel.contains(i) {
            sel.remove(first_index(sel, i))
        } else {
            sel.push(i)
        }
    } else if shift {
        let last = if sel.len() > 0 {
            sel.last()
        } else {
            0
        };
        if last <= i {
            row_range(last, i)
        } else {
            row_range(i, last)
        }
    } else {
        seq![i]
    }
}

/// The row the Down key selects: the one after the last selected row, if there is
/// one; the first row when nothing is selected.
pub open spec fn row_below(sel: Seq<usize>, len: usize) -> usize {
    if sel.len() == 0 {
        0
    } else if sel.last() + 1 < len {
        (sel.last() + 1) as usize
    } else {
        sel.last()
    }
}

/// The row the Up key selects: the one before the first selected row, if there is
/// one; the last row when nothing is selected.
pub open spec fn row_above(sel: Seq<usize>, len: usize) -> usize {
    if sel.len() == 0 {
        if len > 0 {
            (len - 1) as usize
        } else {
            0
        }
    } else if sel[0] > 0 {
        (sel[0] - 1) as usize
    } else {
        0
    }
}

/// What the arrow keys do in one frame: a newly pressed Down (or else Up) key, not the
/// one already acted on, selects the row below (above) and is remembered; when no
/// arrow key is held, the remembered key is forgotten. The result is the key to
/// remember and the new selection, if it changes.
pub open spec fn arrow_spec(
    last: Option<Arrow>,
    down_pressed: bool,
    up_pressed: bool,
    arrow_held: bool,
    sel: Seq<usize>,
    len: usize,
) -> (Option<Arrow>, Option<Seq<usize>>) {
    if down_pressed && last != Some(Arrow::Down) {
        (Some(Arrow::Down), Some(seq![row_below(sel, len)]))
    } else if up_pressed && last != Some(Arrow::Up) {
        (Some(Arrow::Up), Some(seq![row_above(sel, len)]))
    } else if !arrow_held {
        (None, None)
    } else {
        (last, None)
    }
}

/// The items at positions `k..` of `s` whose position is not selected.
pub open spec fn kept_from<T>(s: Seq<T>, sel: Seq<usize>, k: int) -> Seq<T>
    decreases s.len() - k,
{
    if k < 0 || k >= s.len() {
        Seq::empty()
    } else {
        (if sel.contains(k as usize) {
            Seq::empty()
        } else {
            seq![s[k]]
        }) + kept_from(s, sel, k + 1)
    }
}

/// The items whose position is not selected, in order.
pub open spec fn unselected<T>(s: Seq<T>, sel: Seq<usize>) -> Seq<T> {
    kept_from(s, sel, 0)
}

/// `sel` holds `i`.
fn holds(sel: &Vec<usize>, i: usize) -> (r: bool)
    ensures
        r == sel@.contains(i),
{
    let mut k: usize = 0;
    while k < sel.len()
        invariant
            k <= sel.len(),
            forall|j: int| 0 <= j < k ==> sel@[j] != i,
        decreases sel.len() - k,
    {
        if sel[k] == i {
            assert(sel@[k as int] == i);
            return true;
        }
        k += 1;
    }
    false
}

proof fn lemma_first_index(s: Seq<usize>, i: usize)
    ensures
        0 <= first_index(s, i) <= s.len(),
        first_index(s, i) < s.len() ==> s[first_index(s, i)] == i,
        forall|j: int| 0 <= j < first_index(s, i) ==> s[j] != i,
    decreases s.len(),
{
    if s.len() > 0 && s[0] != i {
        lemma_first_index(s.skip(1), i);
        assert forall|j: int| 0 <= j < first_index(s, i) implies s[j] != i by {
            if j > 0 {
                assert(s[j] == s.skip(1)[j - 1]);
            }
        }
    }
}

/// The position of the first `i` in `sel`.
fn position_of(sel: &Vec<usize>, i: usize) -> (r: usize)
    ensures
        r == first_index(sel@, i),
{
    let mut k: usize = 0;
    assert(sel@.skip(0) =~= sel@);
    while k < sel.len() && sel[k] != i
        invariant
            k <= sel.len(),
            first_index(sel@, i) == k + first_index(sel@.skip(k as int), i),
        decreases sel.len() - k,
    {
        assert(sel@.skip(k as int)[0] == sel@[k as int]);
        assert(sel@.skip(k as int).skip(1) =~= sel@.skip(k + 1));
        k += 1;
    }
    if k < sel.len() {
        assert(sel@.skip(k as int)[0] == i);
    }
    k
}

/// The rows `start..=end`.
fn rows(start: usize, end: usize) -> (r: Vec<usize>)
    requires
        start <= end,
    ensures
        r@ == row_range(start, end),
{
    let mut r: Vec<usize> = Vec::new();
    let mut k: usize = start;
    loop
        invariant_except_break
            start <= k <= end,
            r@ == row_range(start, end).take(k - start),
        ensures
            r@ == row_range(start, end),
        decreases end - k,
    {
        r.push(k);
        assert(r@ =~= row_range(start, end).take(k - start + 1));
        if k == end {
            assert(row_range(start, end).take(k - start + 1) =~= row_range(start, end));
            break;
        }
        k += 1;
    }
    r
}

/// The selection after a click on row `i` (see [`click_spec`]).
pub fn click(selected: &Vec<usize>, i: usize, ctrl: bool, shift: bool) -> (r: Vec<usize>)
    ensures
        r@ == click_spec(selected@, i, ctrl, shift),
{
    if ctrl {
        let mut r = selected.clone();
        assert(r@ == selected@);
        if holds(selected, i) {
            let pos = position_of(selected, i);
            proof {
                lemma_first_index(selected@, i);
                if pos >= selected.len() {
                    let j = choose|j: int| 0 <= j < selected@.len() && selected@[j] == i;
                    assert(selected@[j] != i);
                }
            }
            r.remove(pos);
        } else {
            r.push(i);
        }
        r
    } else if shift {
        let last = if selected.len() > 0 {
            selected[selected.len() - 1]
        } else {
            0
        };
        if last <= i {
            rows(last, i)
        } else {
            rows(i, last)
        }
    } else {
        let mut r: Vec<usize> = Vec::new();
        r.push(i);
        assert(r@ =~= seq![i]);
        r
    }
}

/// What the arrow keys do in one frame (see [`arrow_spec`]).
pub fn arrow_keys(
    last: Option<Arrow>,
    down_pressed: bool,
    up_pressed: bool,
    arrow_held: bool,
    selected: &Vec<usize>,
    len: usize,
) -> (r: (Option<Arrow>, Option<Vec<usize>>))
    ensures
        r.0 == arrow_spec(last, down_pressed, up_pressed, arrow_held, selected@, len).0,
        match r.1 {
            Some(v) => arrow_spec(last, down_pressed, up_pressed, arrow_held, selected@, len).1
                == Some(v@),
            None => arrow_spec(last, down_pressed, up_pressed, arrow_held, selected@, len).1 is None,
        },
{
    let down_again = match last {
        Some(Arrow::Down) => true,
        _ => false,
    };
    let up_again = match last {
        Some(Arrow::Up) => true,
        _ => false,
    };
    if down_pressed && !down_again {
        let next = if selected.len() == 0 {
            0
        } else {
            let l = selected[selected.len() - 1];
            if len > 0 && l < len - 1 {
                l + 1
            } else {
                l
            }
        };
        let mut v: Vec<usize> = Vec::new();
        v.push(next);
        assert(v@ =~= seq![row_below(selected@, len)]);
        (Some(Arrow::Down), Some(v))
    } else if up_pressed && !up_again {
        let prev = if selected.len() == 0 {
            if len > 0 {
                len - 1
            } else {
                0
            }
        } else {
            let f = selected[0];
            if f > 0 {
                f - 1
            } else {
                0
            }
        };
        let mut v: Vec<usize> = Vec::new();
        v.push(prev);
        assert(v@ =~= seq![row_above(selected@, len)]);
        (Some(Arrow::Up), Some(v))
    } else if !arrow_held {
        (None, None)
    } else {
        (last, None)
    }
}

/// All rows selected.
pub fn select_all(len: usize) -> (r: Vec<usize>)
    ensures
        r@ == Seq::new(len as nat, |k: int| k as usize),
{
    let mut r: Vec<usize> = Vec::new();
    let mut k: usize = 0;
    while k < len
        invariant
            k <= len,
            r@ == Seq::new(k as nat, |j: int| j as usize),
        decreases len - k,
    {
        r.push(k);
        k += 1;
        assert(r@ =~= Seq::new(k as nat, |j: int| j as usize));
    }
    r
}

/// Removes the items whose position is selected (positions past the end are
/// ignored), keeping the others in order.
pub fn remove_selected<T>(items: &mut Vec<T>, selected: &Vec<usize>)
    ensures
        final(items)@ == unselected(old(items)@, selected@),
{
    let ghost s = items@;
    let mut i: usize = items.len();
    assert(s.take(i as int) =~= s);
    while i > 0
        invariant
            i <= s.len(),
            items@ == s.take(i as int) + kept_from(s, selected@, i as int),
        decreases i,
    {
        let idx = i - 1;
        assert(kept_from(s, selected@, idx as int) == (if selected@.contains(idx) {
            Seq::empty()
        } else {
            seq![s[idx as int]]
        }) + kept_from(s, selected@, i as int));
        if holds(selected, idx) {
            items.remove(idx);
            assert(items@ =~= s.take(idx as int) + kept_from(s, selected@, idx as int));
        } else {
            assert(items@ =~= s.take(idx as int) + kept_from(s, selected@, idx as int));
        }
        i = idx;
    }
    assert(items@ =~= kept_from(s, selected@, 0));
}

/// `parts` joined with a line feed between consecutive ones.
pub open spec fn join_lines(parts: Seq<Seq<char>>) -> Seq<char>
    decreases parts.len(),
{
    if parts.len() == 0 {
        Seq::empty()
    } else if parts.len() == 1 {
        parts[0]
    } else {
        join_lines(parts.drop_last()) + seq!['\n'] + parts.last()
    }
}

/// The built-in exclude patterns, one per line.
pub open spec fn default_exclude_text() -> Seq<char> {
    join_lines(default_pattern_texts())
}

fn push_joined(out: &mut String, parts: &[&'static str])
    requires
        old(out)@.len() == 0,
    ensures
        final(out)@ == join_lines(parts@.map_values(|p: &str| p@)),
{
    let ghost ps = parts@.map_values(|p: &str| p@);
    let mut i: usize = 0;
    while i < parts.len()
        invariant
            i <= parts.len(),
            ps == parts@.map_values(|p: &str| p@),
            out@ == join_lines(ps.take(i as int)),
        decreases parts.len() - i,
    {
        let ghost before = out@;
        if i > 0 {
            push_char(out, '\n');
        }
        push_str(out, parts[i]);
        assert(ps.take(i + 1).drop_last() =~= ps.take(i as int));
        assert(ps.take(i + 1).last() == ps[i as int]);
        if i == 0 {
            assert(ps.take(1) =~= seq![ps[0]]);
            assert(out@ =~= join_lines(ps.take(1)));
        } else {
            assert(out@ =~= join_lines(ps.take(i as int)) + seq!['\n'] + ps[i as int]);
        }
        i += 1;
    }
    assert(ps.take(i as int) =~= ps);
}

/// The exclude text shown in the settings: the stored exclude file, or the built-in
/// patterns when none is stored.
pub fn initial_exclude_text(exclude_file: &str) -> (r: String)
    ensures
        r@ == (if exclude_file@.len() == 0 {
            default_exclude_text()
        } else {
            exclude_file@
        }),
{
    if exclude_file.is_empty() {
        let mut r = String::new();
        push_joined(&mut r, ExcludeRules::default_patterns().as_slice());
        r
    } else {
        let mut r = String::new();
        push_str(&mut r, exclude_file);
        r
    }
}

/// What saving the edited exclude text stores, and the text shown afterwards: blank
/// text stores nothing and shows the built-in patterns again; other text is stored
/// and shown as it is.
pub fn sync_exclude(exclude_text: &str) -> (r: (String, String))
    ensures
        trim(exclude_text@).len() == 0 ==> r.0@.len() == 0 && r.1@ == default_exclude_text(),
        trim(exclude_text@).len() > 0 ==> r.0@ == exclude_text@ && r.1@ == exclude_text@,
{
    let t = trim_chars(&chars_of(exclude_text));
    if t.len() == 0 {
        let mut shown = String::new();
        push_joined(&mut shown, ExcludeRules::default_patterns().as_slice());
        (String::new(), shown)
    } else {
        let mut a = String::new();
        push_str(&mut a, exclude_text);
        let mut b = String::new();
        push_str(&mut b, exclude_text);
        (a, b)
    }
}

/// The rules of an edited or stored exclude text: the built-in rules when it is
/// blank; otherwise only the rules it states.
pub fn rules_for_text(exclude_text: &str) -> (r: ExcludeRules)
    ensures
        r@ == (if trim(exclude_text@).len() == 0 {
            default_rules()
        } else {
            parsed_rules(lines(exclude_text@))
        }),
{
    let t = trim_chars(&chars_of(exclude_text));
    if t.len() == 0 {
        ExcludeRules::new()
    } else {
        ExcludeRules::from_rules_text(exclude_text)
    }
}

/// The fallback encodings in use: those of the settings, or the defaults when the
/// settings name none.
pub fn effective_encodings(local_encodings: &Vec<String>) -> (r: Vec<String>)
    ensures
        local_encodings@.len() == 0 ==> r@.map_values(|s: String| s@) == DEFAULT_LOCAL_ENCODINGS@.map_values(
            |s: &str| s@,
        ),
        local_encodings@.len() > 0 ==> r@.map_values(|s: String| s@) == local_encodings@.map_values(
            |s: String| s@,
        ),
{
    if local_encodings.len() == 0 {
        return default_encodings();
    }
    let mut r: Vec<String> = Vec::new();
    let mut i: usize = 0;
    while i < local_encodings.len()
        invariant
            i <= local_encodings.len(),
            r@.map_values(|s: String| s@) == local_encodings@.map_values(|s: String| s@).take(
                i as int,
            ),
        decreases local_encodings.len() - i,
    {
        let c = copy_string(&local_encodings[i]);
        let ghost before = r@.map_values(|s: String| s@);
        r.push(c);
        assert(r@.map_values(|s: String| s@) =~= before.push(c@));
        i += 1;
        assert(r@.map_values(|s: String| s@) =~= local_encodings@.map_values(|s: String| s@).take(
            i as int,
        ));
    }
    assert(local_encodings@.map_values(|s: String| s@).take(i as int) =~= local_encodings@.map_values(
        |s: String| s@,
    ));
    r
}

/// The encodings that an edited encodings text names: each line trimmed; the
/// defaults when the text has no line.
pub fn encodings_from_text(text: &str) -> (r: Vec<String>)
    ensures
        lines(text@).len() == 0 ==> r@.map_values(|s: String| s@) == DEFAULT_LOCAL_ENCODINGS@.map_values(
            |s: &str| s@,
        ),
        lines(text@).len() > 0 ==> r@.map_values(|s: String| s@) == lines(text@).map_values(
            |l: Seq<char>| trim(l),
        ),
{
    let cs = chars_of(text);
    let ls = split_lines(&cs);
    if ls.len() == 0 {
        return default_encodings();
    }
    let ghost want = lines(text@).map_values(|l: Seq<char>| trim(l));
    let mut r: Vec<String> = Vec::new();
    let mut i: usize = 0;
    while i < ls.len()
        invariant
            i <= ls.len(),
            ls@.len() == lines(text@).len(),
            forall|k: int| 0 <= k < ls@.len() ==> #[trigger] ls@[k]@ == lines(text@)[k],
            want == lines(text@).map_values(|l: Seq<char>| trim(l)),
            r@.map_values(|s: String| s@) == want.take(i as int),
        decreases ls.len() - i,
    {
        let t = trim_chars(&ls[i]);
        let s = string_of(t.as_slice());
        let ghost before = r@.map_values(|s: String| s@);
        r.push(s);
        assert(r@.map_values(|s: String| s@) =~= before.push(s@));
        i += 1;
        assert(r@.map_values(|s: String| s@) =~= want.take(i as int));
    }
    assert(want.take(i as int) =~= want);
    r
}

/// `str::replace`: every occurrence of `pat` in `s`, found left to right without
/// overlap, replaced by `val`; an empty `pat` occurs before every character and at
/// the end.
pub open spec fn replace_all(s: Seq<char>, pat: Seq<char>, val: Seq<char>) -> Seq<char>
    decreases s.len(),
{
    if pat.len() == 0 {
        if s.len() == 0 {
            val
        } else {
            val + seq![s[0]] + replace_all(s.skip(1), pat, val)
        }
    } else if s.len() >= pat.len() && s.take(pat.len() as int) == pat {
        val + replace_all(s.skip(pat.len() as int), pat, val)
    } else if s.len() == 0 {
        Seq::empty()
    } else {
        seq![s[0]] + replace_all(s.skip(1), pat, val)
    }
}

/// Whether `pat` occurs in `s` at `k`.
fn occurs_at(s: &Vec<char>, pat: &Vec<char>, k: usize) -> (r: bool)
    requires
        k <= s.len(),
    ensures
        r == (s@.skip(k as int).len() >= pat@.len() && s@.skip(k as int).take(pat@.len() as int)
            == pat@),
{
    if s.len() - k < pat.len() {
        return false;
    }
    let mut j: usize = 0;
    while j < pat.len()
        invariant
            j <= pat.len() <= s.len() - k,
            forall|m: int| 0 <= m < j ==> s@[k + m] == pat@[m],
        decreases pat.len() - j,
    {
        if s[k + j] != pat[j] {
            assert(s@.skip(k as int).take(pat@.len() as int)[j as int] != pat@[j as int]);
            return false;
        }
        j += 1;
    }
    assert(s@.skip(k as int).take(pat@.len() as int) =~= pat@);
    true
}

/// A text with every occurrence of a placeholder replaced by a value (see
/// [`replace_all`]).
pub fn fill_placeholder(template: &str, placeholder: &str, value: &str) -> (r: String)
    ensures
        r@ == replace_all(template@, placeholder@, value@),
{
    let s = chars_of(template);
    let pat = chars_of(placeholder);
    let mut out = String::new();
    let mut k: usize = 0;
    assert(s@.skip(0) =~= s@);
    while k < s.len()
        invariant
            k <= s.len(),
            replace_all(s@, pat@, value@) == out@ + replace_all(s@.skip(k as int), pat@, value@),
        decreases s.len() - k,
    {
        let ghost rest = s@.skip(k as int);
        let ghost before = out@;
        if pat.len() == 0 {
            push_str(&mut out, value);
            push_char(&mut out, s[k]);
            assert(rest[0] == s@[k as int]);
            assert(rest.skip(1) =~= s@.skip(k + 1));
            assert(out@ =~= before + value@ + seq![s@[k as int]]);
            k += 1;
        } else if occurs_at(&s, &pat, k) {
            push_str(&mut out, value);
            assert(rest.skip(pat@.len() as int) =~= s@.skip((k + pat.len()) as int));
            k += pat.len();
        } else {
            push_char(&mut out, s[k]);
            assert(rest[0] == s@[k as int]);
            assert(rest.skip(1) =~= s@.skip(k + 1));
            k += 1;
        }
    }
    assert(s@.skip(k as int).len() == 0);
    if pat.len() == 0 {
        push_str(&mut out, value);
    }
    out
}

} // verus!
