//! Gitignore-style wildcard matching of one pattern against one path.
use vstd::prelude::*;
use crate::text::sub_chars;
use crate::text::chars_eq;

verus! {

/// No character of `s` is a path separator.
pub open spec fn no_slash(s: Seq<char>) -> bool {
    forall|i: int| 0 <= i < s.len() ==> s[i] != '/'
}

/// What a pattern matches: `*` stands for any run of characters without `/`; `?` for
/// one character other than `/`; `**/` for nothing or any run that ends with `/`; a
/// pattern that ends with `**` after its first character matches whatever follows;
/// every other character stands for itself.
pub open spec fn glob_matches(p: Seq<char>, s: Seq<char>) -> bool
    decreases p.len(),
{
    if p.len() == 0 {
        s.len() == 0
    } else if p[0] == '*' {
        if p.len() == 2 && p[1] == '*' {
            true
        } else if p.len() >= 3 && p[1] == '*' && p[2] == '/' {
            exists|k: int|
                0 <= k <= s.len() && (k == 0 || s[k - 1] == '/') && glob_matches(
                    p.skip(3),
                    #[trigger] s.skip(k),
                )
        } else {
            exists|k: int|
                0 <= k <= s.len() && no_slash(s.take(k)) && glob_matches(
                    p.skip(1),
                    #[trigger] s.skip(k),
                )
        }
    } else if p[0] == '?' {
        s.len() > 0 && s[0] != '/' && glob_matches(p.skip(1), s.skip(1))
    } else {
        s.len() > 0 && s[0] == p[0] && glob_matches(p.skip(1), s.skip(1))
    }
}

/// A `**/` at the front of `q` either matches nothing, or it matches through the
/// first separator at some position `j` and then again from there.
proof fn lemma_starstar_slash(q: Seq<char>, t: Seq<char>)
    requires
        q.len() >= 3,
        q[0] == '*',
        q[1] == '*',
        q[2] == '/',
    ensures
        glob_matches(q, t) <==> (glob_matches(q.skip(3), t) || exists|j: int|
            0 <= j < t.len() && #[trigger] t[j] == '/' && glob_matches(q, t.skip(j + 1))),
{
    if glob_matches(q, t) {
        let k = choose|k: int|
            0 <= k <= t.len() && (k == 0 || t[k - 1] == '/') && glob_matches(q.skip(3), #[trigger] t.skip(k));
        if k == 0 {
            assert(t.skip(0) == t);
        } else {
            let u = t.skip(k);
            assert(u.skip(0) == u);
            assert(glob_matches(q.skip(3), u.skip(0)));
            assert(glob_matches(q, u));
            assert(t.skip((k - 1) + 1) == u);
        }
    }
    if glob_matches(q.skip(3), t) {
        assert(t.skip(0) == t);
        assert(glob_matches(q.skip(3), t.skip(0)));
    }
    if exists|j: int| 0 <= j < t.len() && #[trigger] t[j] == '/' && glob_matches(q, t.skip(j + 1)) {
        let j = choose|j: int|
            0 <= j < t.len() && #[trigger] t[j] == '/' && glob_matches(q, t.skip(j + 1));
        let u = t.skip(j + 1);
        let k2 = choose|k2: int|
            0 <= k2 <= u.len() && (k2 == 0 || u[k2 - 1] == '/') && glob_matches(q.skip(3), #[trigger] u.skip(k2));
        let k = j + 1 + k2;
        assert(t.skip(k) =~= u.skip(k2));
        if k2 > 0 {
            assert(t[k - 1] == u[k2 - 1]);
        }
        assert(glob_matches(q.skip(3), t.skip(k)));
    }
}

/// A single `*` at the front of `q` either matches nothing, or it takes one
/// character other than `/` and matches again from there.
proof fn lemma_star(q: Seq<char>, t: Seq<char>)
    requires
        q.len() >= 1,
        q[0] == '*',
        !(q.len() == 2 && q[1] == '*'),
        !(q.len() >= 3 && q[1] == '*' && q[2] == '/'),
    ensures
        glob_matches(q, t) <==> (glob_matches(q.skip(1), t) || (t.len() > 0 && t[0] != '/'
            && glob_matches(q, t.skip(1)))),
{
    if glob_matches(q, t) {
        let k = choose|k: int|
            0 <= k <= t.len() && no_slash(t.take(k)) && glob_matches(q.skip(1), #[trigger] t.skip(k));
        if k == 0 {
            assert(t.skip(0) == t);
        } else {
            let u = t.skip(1);
            assert(t.take(k)[0] == t[0]);
            assert(u.skip(k - 1) =~= t.skip(k));
            assert forall|i: int| 0 <= i < k - 1 implies #[trigger] u.take(k - 1)[i] != '/' by {
                assert(u.take(k - 1)[i] == t.take(k)[i + 1]);
            }
            assert(glob_matches(q.skip(1), u.skip(k - 1)));
        }
    }
    if glob_matches(q.skip(1), t) {
        assert(t.skip(0) == t);
        assert(no_slash(t.take(0)));
        assert(glob_matches(q.skip(1), t.skip(0)));
    }
    if t.len() > 0 && t[0] != '/' && glob_matches(q, t.skip(1)) {
        let u = t.skip(1);
        let k2 = choose|k2: int|
            0 <= k2 <= u.len() && no_slash(u.take(k2)) && glob_matches(q.skip(1), #[trigger] u.skip(k2));
        let k = k2 + 1;
        assert(t.skip(k) =~= u.skip(k2));
        assert forall|i: int| 0 <= i < k implies t.take(k)[i] != '/' by {
            if i > 0 {
                assert(t.take(k)[i] == u.take(k2)[i - 1]);
            }
        }
        assert(glob_matches(q.skip(1), t.skip(k)));
    }
}

/// Whether `p[pi..]` matches `s[si..]`.
fn glob_recursive(p: &Vec<char>, s: &Vec<char>, pi: usize, si: usize) -> (r: bool)
    requires
        pi <= p.len(),
        si <= s.len(),
    ensures
        r == glob_matches(p@.skip(pi as int), s@.skip(si as int)),
    decreases p.len() - pi, s.len() - si,
{
    let ghost q = p@.skip(pi as int);
    let ghost t = s@.skip(si as int);
    if pi == p.len() {
        return si == s.len();
    }
    let c = p[pi];
    assert(q[0] == c);
    if c == '*' {
        if pi + 1 < p.len() && p[pi + 1] == '*' {
            assert(q[1] == '*');
            let after_stars = pi + 2;
            if after_stars >= p.len() {
                assert(q.len() == 2);
                return true;
            }
            if p[after_stars] == '/' {
                assert(q[2] == '/');
                proof {
                    lemma_starstar_slash(q, t);
                }
                let after_slash = after_stars + 1;
                assert(q.skip(3) == p@.skip(after_slash as int));
                if glob_recursive(p, s, after_slash, si) {
                    return true;
                }
                let mut j = si;
                while j < s.len()
                    invariant
                        si <= j <= s.len(),
                        pi + 3 <= p.len(),
                        q == p@.skip(pi as int),
                        t == s@.skip(si as int),
                        glob_matches(q, t) <==> exists|j2: int|
                            0 <= j2 < t.len() && #[trigger] t[j2] == '/' && glob_matches(
                                q,
                                t.skip(j2 + 1),
                            ),
                        forall|j2: int|
                            0 <= j2 < j - si ==> !(#[trigger] t[j2] == '/' && glob_matches(
                                q,
                                t.skip(j2 + 1),
                            )),
                    decreases s.len() - j,
                {
                    if s[j] == '/' {
                        assert(t.skip(j - si + 1) == s@.skip(j + 1));
                        if glob_recursive(p, s, pi, j + 1) {
                            assert(t[j - si] == '/');
                            assert(glob_matches(q, t.skip((j - si) + 1)));
                            return true;
                        }
                    }
                    assert(t[j - si] == s@[j as int]);
                    assert(t.skip(j - si + 1) == s@.skip(j + 1));
                    j += 1;
                }
                return false;
            }
        }
        proof {
            lemma_star(q, t);
        }
        assert(q.skip(1) == p@.skip(pi + 1));
        if glob_recursive(p, s, pi + 1, si) {
            return true;
        }
        if si < s.len() && s[si] != '/' {
            assert(t.skip(1) == s@.skip(si + 1));
            return glob_recursive(p, s, pi, si + 1);
        }
        return false;
    }
    assert(q.skip(1) == p@.skip(pi + 1));
    if c == '?' {
        if si < s.len() && s[si] != '/' {
            assert(t.skip(1) == s@.skip(si + 1));
            return glob_recursive(p, s, pi + 1, si + 1);
        }
        return false;
    }
    if si < s.len() && s[si] == c {
        assert(t.skip(1) == s@.skip(si + 1));
        return glob_recursive(p, s, pi + 1, si + 1);
    }
    false
}

/// Whether the whole of `path` matches `pattern`.
pub fn glob_match_inner(pattern: &Vec<char>, path: &Vec<char>) -> (r: bool)
    ensures
        r == glob_matches(pattern@, path@),
{
    assert(pattern@.skip(0) == pattern@);
    assert(path@.skip(0) == path@);
    glob_recursive(pattern, path, 0, 0)
}

/// `s[a..b]` is one of the pieces of `s` between separators (`str::split('/')`).
pub open spec fn is_component(s: Seq<char>, a: int, b: int) -> bool {
    &&& 0 <= a <= b <= s.len()
    &&& (a == 0 || s[a - 1] == '/')
    &&& (b == s.len() || s[b] == '/')
    &&& no_slash(s.subrange(a, b))
}

/// Some piece of `s` between separators matches `p`.
pub open spec fn some_component_matches(p: Seq<char>, s: Seq<char>) -> bool {
    exists|a: int, b: int| #[trigger] is_component(s, a, b) && glob_matches(p, s.subrange(a, b))
}

/// `pat` with one leading separator removed.
pub open spec fn strip_leading_slash(pat: Seq<char>) -> Seq<char> {
    if pat.len() > 0 && pat[0] == '/' {
        pat.skip(1)
    } else {
        pat
    }
}

/// Whether one exclude pattern, with its flags, applies to a `/`-separated path.
/// A pattern that is anchored or holds a `/` is matched against the whole path (for a
/// directory pattern: the path is the directory or lies inside it); any other pattern
/// matches a directory pattern's path when it matches one of its pieces, and otherwise
/// when it matches the whole path or one of its pieces.
pub open spec fn pattern_applies(pattern: Seq<char>, path: Seq<char>, directory_only: bool, anchored: bool) -> bool {
    if pattern.len() == 0 {
        false
    } else if anchored || pattern.contains('/') {
        let pat = strip_leading_slash(pattern);
        if directory_only {
            path == pat || (path.len() > pat.len() && path.take(pat.len() as int) == pat
                && path[pat.len() as int] == '/')
        } else {
            glob_matches(pat, path)
        }
    } else if directory_only {
        some_component_matches(pattern, path)
    } else {
        glob_matches(pattern, path) || some_component_matches(pattern, path)
    }
}

/// Whether some piece of `path` between separators matches `pattern`.
pub fn any_component_matches(pattern: &Vec<char>, path: &Vec<char>) -> (r: bool)
    ensures
        r == some_component_matches(pattern@, path@),
{
    let mut start: usize = 0;
    let mut i: usize = 0;
    while i < path.len()
        invariant
            start <= i <= path.len(),
            no_slash(path@.subrange(start as int, i as int)),
            start == 0 || path@[start - 1] == '/',
            forall|a: int, b: int|
                #[trigger] is_component(path@, a, b) && a < start ==> !glob_matches(
                    pattern@,
                    path@.subrange(a, b),
                ),
        decreases path.len() - i,
    {
        if path[i] == '/' {
            let comp = sub_chars(path, start, i);
            if glob_match_inner(pattern, &comp) {
                assert(is_component(path@, start as int, i as int));
                return true;
            }
            assert forall|a: int, b: int|
                #[trigger] is_component(path@, a, b) && a < i + 1 implies !glob_matches(
                    pattern@,
                    path@.subrange(a, b),
                ) by {
                if a >= start {
                    if a > start {
                        assert(path@.subrange(start as int, i as int)[a - 1 - start] == path@[a - 1]);
                    }
                    if b < i {
                        assert(path@.subrange(start as int, i as int)[b - start] == path@[b]);
                    }
                    if b > i {
                        assert(path@.subrange(a, b)[i - a] == path@[i as int]);
                    }
                }
            }
            start = i + 1;
            assert(path@.subrange(start as int, start as int).len() == 0);
        } else {
            assert(path@.subrange(start as int, i + 1) == path@.subrange(start as int, i as int).push(
                path@[i as int],
            ));
        }
        i += 1;
    }
    let comp = sub_chars(path, start, path.len());
    if glob_match_inner(pattern, &comp) {
        assert(is_component(path@, start as int, path.len() as int));
        return true;
    }
    assert forall|a: int, b: int| #[trigger] is_component(path@, a, b) implies !glob_matches(
        pattern@,
        path@.subrange(a, b),
    ) by {
        if a >= start {
            if a > start {
                assert(path@.subrange(start as int, i as int)[a - 1 - start] == path@[a - 1]);
            }
            if b < i {
                assert(path@.subrange(start as int, i as int)[b - start] == path@[b]);
            }
        }
    }
    false
}

/// Whether a pattern with its flags applies to a `/`-separated path.
pub fn glob_match(pattern: &Vec<char>, path: &Vec<char>, directory_only: bool, anchored: bool) -> (r: bool)
    ensures
        r == pattern_applies(pattern@, path@, directory_only, anchored),
{
    if pattern.len() == 0 {
        return false;
    }
    let mut has_slash = false;
    let mut i: usize = 0;
    while i < pattern.len()
        invariant
            i <= pattern.len(),
            has_slash == exists|j: int| 0 <= j < i && pattern@[j] == '/',
        decreases pattern.len() - i,
    {
        if pattern[i] == '/' {
            has_slash = true;
        }
        i += 1;
    }
    assert(has_slash == pattern@.contains('/'));
    if anchored || has_slash {
        let pat = if pattern[0] == '/' {
            sub_chars(pattern, 1, pattern.len())
        } else {
            sub_chars(pattern, 0, pattern.len())
        };
        assert(pat@ == strip_leading_slash(pattern@));
        if directory_only {
            if chars_eq(path.as_slice(), pat.as_slice()) {
                return true;
            }
            if path.len() > pat.len() && path[pat.len()] == '/' {
                let head = sub_chars(path, 0, pat.len());
                return chars_eq(head.as_slice(), pat.as_slice());
            }
            return false;
        }
        return glob_match_inner(&pat, path);
    }
    if directory_only {
        return any_component_matches(pattern, path);
    }
    if glob_match_inner(pattern, path) {
        return true;
    }
    any_component_matches(pattern, path)
}

} // verus!
