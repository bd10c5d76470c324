//! The per-entry keep-or-drop decision for files discovered by a directory
//! walk: an extension allow-list and a list of ignore globs, combined with
//! logical AND. Hidden-file and version-control-ignore suppression are the
//! walker's business and are never re-decided here.

use crate::config::RunConfiguration;
use crate::text::{chars_of, string_of};
use vstd::prelude::*;

verus! {

/// What remains of `p` after the last occurrence of `c`; all of `p` if `c`
/// does not occur.
pub open spec fn after_last(p: Seq<char>, c: char) -> Seq<char>
    decreases p.len(),
{
    if p.len() == 0 {
        p
    } else if p.last() == c {
        Seq::empty()
    } else {
        after_last(p.drop_last(), c).push(p.last())
    }
}

/// The final component of a slash-separated relative path.
pub open spec fn spec_file_name(p: Seq<char>) -> Seq<char> {
    after_last(p, '/')
}

/// The extension of the path's final component: what follows its last dot.
/// A name without a dot, or whose only dot leads it (a dotfile), has none;
/// a name ending in a dot has the empty extension.
pub open spec fn spec_extension(p: Seq<char>) -> Option<Seq<char>> {
    let name = spec_file_name(p);
    if name.contains('.') && name.len() - after_last(name, '.').len() - 1 > 0 {
        Some(after_last(name, '.'))
    } else {
        None
    }
}

proof fn lemma_after_last_at(p: Seq<char>, c: char, k: int)
    requires
        0 <= k < p.len(),
        p[k] == c,
        forall|j: int| k < j < p.len() ==> p[j] != c,
    ensures
        after_last(p, c) == p.skip(k + 1),
    decreases p.len(),
{
    if k == p.len() - 1 {
        assert(p.last() == c);
        assert(after_last(p, c) =~= p.skip(k + 1));
    } else {
        assert(p.last() != c);
        let q = p.drop_last();
        assert(forall|j: int| k < j < q.len() ==> q[j] == p[j]);
        lemma_after_last_at(q, c, k);
        assert(q.skip(k + 1).push(p.last()) =~= p.skip(k + 1));
    }
}

proof fn lemma_after_last_absent(p: Seq<char>, c: char)
    requires
        forall|j: int| 0 <= j < p.len() ==> p[j] != c,
    ensures
        after_last(p, c) == p,
    decreases p.len(),
{
    if p.len() > 0 {
        let q = p.drop_last();
        assert(forall|j: int| 0 <= j < q.len() ==> q[j] == p[j]);
        lemma_after_last_absent(q, c);
        assert(q.push(p.last()) =~= p);
    }
}

/// The position right after the last occurrence of `c` in `v`, or zero.
fn scan_after_last(v: &Vec<char>, c: char) -> (r: usize)
    ensures
        r <= v.len(),
        after_last(v@, c) == v@.skip(r as int),
        r > 0 ==> v@[r - 1] == c,
        forall|j: int| r <= j < v@.len() ==> v@[j] != c,
{
    let mut r: usize = 0;
    let mut i: usize = 0;
    while i < v.len()
        invariant
            r <= i <= v.len(),
            r > 0 ==> v@[r - 1] == c,
            forall|j: int| r <= j < i ==> v@[j] != c,
        decreases v.len() - i,
    {
        if v[i] == c {
            r = i + 1;
        }
        i = i + 1;
    }
    proof {
        if r > 0 {
            lemma_after_last_at(v@, c, r - 1);
        } else {
            lemma_after_last_absent(v@, c);
            assert(v@.skip(0) =~= v@);
        }
    }
    r
}

/// The extension of the relative path's final component, if it has one,
/// exactly as the standard path inspection reports it.
pub fn file_extension(rel_path: &str) -> (r: Option<String>)
    ensures
        match r {
            Some(e) => spec_extension(rel_path@) == Some(e@),
            None => spec_extension(rel_path@) is None,
        },
{
    let v = chars_of(rel_path);
    let name_start = scan_after_last(&v, '/');
    let ghost name = spec_file_name(rel_path@);
    proof {
        assert(name == v@.skip(name_start as int));
    }
    let mut dot: usize = 0;
    let mut seen_dot = false;
    let mut i: usize = name_start;
    while i < v.len()
        invariant
            name_start <= i <= v.len(),
            seen_dot ==> name_start <= dot < i && v@[dot as int] == '.',
            forall|j: int| (if seen_dot { dot + 1 } else { name_start as int }) <= j < i ==> v@[j]
                != '.',
            !seen_dot ==> forall|j: int| name_start <= j < i ==> v@[j] != '.',
        decreases v.len() - i,
    {
        if v[i] == '.' {
            dot = i;
            seen_dot = true;
        }
        i = i + 1;
    }
    if !seen_dot {
        proof {
            assert(forall|j: int| 0 <= j < name.len() ==> name[j] == v@[name_start + j]);
            assert(!name.contains('.'));
        }
        return None;
    }
    proof {
        assert(name[dot - name_start] == '.');
        assert(name.contains('.'));
        assert(forall|j: int| dot - name_start < j < name.len() ==> name[j] != '.');
        lemma_after_last_at(name, '.', dot - name_start);
        assert(after_last(name, '.').len() == name.len() - (dot - name_start) - 1);
    }
    if dot == name_start {
        proof {
            assert(name.len() - after_last(name, '.').len() - 1 == 0);
        }
        return None;
    }
    let mut ext: Vec<char> = Vec::new();
    let mut k: usize = dot + 1;
    while k < v.len()
        invariant
            dot + 1 <= k <= v.len(),
            ext@ == v@.subrange(dot + 1, k as int),
        decreases v.len() - k,
    {
        proof {
            assert(v@.subrange(dot + 1, k + 1) =~= v@.subrange(dot + 1, k as int).push(
                v@[k as int],
            ));
        }
        ext.push(v[k]);
        k = k + 1;
    }
    proof {
        assert(ext@ =~= name.skip(dot - name_start + 1));
        assert(spec_extension(rel_path@) == Some(ext@));
    }
    Some(string_of(&ext))
}

/// Whether `pattern` compiles as a shell-glob pattern: exactly when
/// `glob::Pattern::new` returns `Ok` for it.
pub uninterp spec fn glob_pattern_ok(pattern: Seq<char>) -> bool;

/// Whether the glob `pattern` matches the whole string `text`, under the
/// default match options: what `glob::Pattern::matches` returns.
pub uninterp spec fn glob_matches(pattern: Seq<char>, text: Seq<char>) -> bool;

/// Relies on `glob::Pattern::new` and `glob::Pattern::matches`: compiling
/// fails exactly on malformed patterns, and whether a compiled pattern
/// matches is a function of the pattern's text and the candidate string
/// alone.
#[verifier::external_body]
fn match_glob(pattern: &str, text: &str) -> (r: Option<bool>)
    ensures
        r is Some <==> glob_pattern_ok(pattern@),
        r matches Some(b) ==> b == glob_matches(pattern@, text@),
{
    match glob::Pattern::new(pattern) {
        Ok(p) => Some(p.matches(text)),
        Err(_) => None,
    }
}

/// Whether the allow-list admits the entry: an empty list admits everything,
/// and a non-empty list admits exactly the entries whose extension equals
/// one of its members, case-sensitively.
pub open spec fn spec_extension_allowed(exts: Seq<Seq<char>>, rel: Seq<char>) -> bool {
    exts.len() == 0 || (spec_extension(rel) matches Some(e) && exts.contains(e))
}

/// The ignore list read left to right, as the run evaluates it: `Some(true)`
/// once a pattern matches, `None` if a malformed pattern is reached first,
/// `Some(false)` when the list is exhausted.
pub open spec fn spec_ignore_eval(pats: Seq<Seq<char>>, rel: Seq<char>) -> Option<bool>
    decreases pats.len(),
{
    if pats.len() == 0 {
        Some(false)
    } else if !glob_pattern_ok(pats[0]) {
        None
    } else if glob_matches(pats[0], rel) {
        Some(true)
    } else {
        spec_ignore_eval(pats.drop_first(), rel)
    }
}

/// The keep-or-drop decision for one entry: the extension rule and the
/// ignore rule combined with AND. `None` marks the run-aborting case of a
/// malformed ignore pattern that evaluation actually reaches.
pub open spec fn spec_should_include(
    exts: Seq<Seq<char>>,
    pats: Seq<Seq<char>>,
    rel: Seq<char>,
) -> Option<bool> {
    if !spec_extension_allowed(exts, rel) {
        Some(false)
    } else {
        match spec_ignore_eval(pats, rel) {
            Some(ignored) => Some(!ignored),
            None => None,
        }
    }
}

/// Whether `v` holds a string whose characters are `s`.
fn contains_string(v: &Vec<String>, s: &String) -> (r: bool)
    ensures
        r == v.deep_view().contains(s@),
{
    proof {
        assert(forall|j: int| 0 <= j < v@.len() ==> v.deep_view()[j] == #[trigger] v@[j]@);
    }
    let mut i: usize = 0;
    while i < v.len()
        invariant
            i <= v.len(),
            forall|j: int| 0 <= j < v@.len() ==> v.deep_view()[j] == #[trigger] v@[j]@,
            forall|j: int| 0 <= j < i ==> #[trigger] v@[j]@ != s@,
        decreases v.len() - i,
    {
        let cand: &String = &v[i];
        if cand.eq(s) {
            proof {
                assert(v.deep_view()[i as int] == s@);
            }
            return true;
        }
        i = i + 1;
    }
    proof {
        assert(!v.deep_view().contains(s@));
    }
    false
}

/// Decides whether a walked entry is kept, from its path relative to the
/// directory root being walked. `None` reports a malformed ignore pattern,
/// reached after all patterns before it failed to match — the caller treats
/// that as a fatal mistake in the arguments, as the run always has.
pub fn should_include(rel_path: &str, config: &RunConfiguration) -> (r: Option<bool>)
    ensures
        r == spec_should_include(
            config.extensions.deep_view(),
            config.ignore_patterns.deep_view(),
            rel_path@,
        ),
{
    let ext_ok: bool = if config.extensions.len() == 0 {
        true
    } else {
        match file_extension(rel_path) {
            Some(e) => contains_string(&config.extensions, &e),
            None => false,
        }
    };
    proof {
        assert(ext_ok == spec_extension_allowed(config.extensions.deep_view(), rel_path@));
    }
    if !ext_ok {
        return Some(false);
    }
    let ghost pats = config.ignore_patterns.deep_view();
    proof {
        assert(pats.skip(0) =~= pats);
    }
    let mut i: usize = 0;
    while i < config.ignore_patterns.len()
        invariant
            i <= config.ignore_patterns.len(),
            pats == config.ignore_patterns.deep_view(),
            pats.len() == config.ignore_patterns@.len(),
            forall|j: int| 0 <= j < pats.len() ==> pats[j] == #[trigger] config.ignore_patterns@[j]@,
            spec_extension_allowed(config.extensions.deep_view(), rel_path@),
            spec_ignore_eval(pats, rel_path@) == spec_ignore_eval(pats.skip(i as int), rel_path@),
        decreases config.ignore_patterns.len() - i,
    {
        let pat: &String = &config.ignore_patterns[i];
        proof {
            assert(pats.skip(i as int)[0] == pat@);
        }
        match match_glob(pat.as_str(), rel_path) {
            None => {
                proof {
                    assert(spec_ignore_eval(pats.skip(i as int), rel_path@) is None);
                }
                return None;
            },
            Some(true) => {
                proof {
                    assert(spec_ignore_eval(pats.skip(i as int), rel_path@) == Some(true));
                }
                return Some(false);
            },
            Some(false) => {
                proof {
                    assert(pats.skip(i as int).drop_first() =~= pats.skip(i + 1));
                }
                i = i + 1;
            },
        }
    }
    proof {
        assert(pats.skip(i as int).len() == 0);
        assert(spec_ignore_eval(pats, rel_path@) == Some(false));
    }
    Some(true)
}

/// Law: when every ignore pattern is well-formed, an entry is included if
/// and only if its extension passes the allow-list rule and its relative
/// path matches none of the ignore globs — the two rules combine with AND.
pub proof fn lemma_extension_filter(exts: Seq<Seq<char>>, pats: Seq<Seq<char>>, rel: Seq<char>)
    requires
        forall|i: int| 0 <= i < pats.len() ==> glob_pattern_ok(#[trigger] pats[i]),
    ensures
        spec_should_include(exts, pats, rel) == Some(
            spec_extension_allowed(exts, rel) && !exists|i: int|
                0 <= i < pats.len() && glob_matches(#[trigger] pats[i], rel),
        ),
    decreases pats.len(),
{
    if pats.len() > 0 {
        let rest = pats.drop_first();
        assert(forall|i: int| 0 <= i < rest.len() ==> #[trigger] rest[i] == pats[i + 1]);
        assert(forall|i: int| 0 <= i < rest.len() ==> glob_pattern_ok(#[trigger] rest[i]));
        lemma_extension_filter(exts, rest, rel);
        if glob_matches(pats[0], rel) {
            assert(exists|i: int| 0 <= i < pats.len() && glob_matches(#[trigger] pats[i], rel));
        } else {
            if exists|i: int| 0 <= i < pats.len() && glob_matches(#[trigger] pats[i], rel) {
                let w = choose|i: int| 0 <= i < pats.len() && glob_matches(#[trigger] pats[i], rel);
                assert(w != 0);
                assert(rest[w - 1] == pats[w]);
                assert(exists|i: int| 0 <= i < rest.len() && glob_matches(#[trigger] rest[i], rel));
            }
            if exists|i: int| 0 <= i < rest.len() && glob_matches(#[trigger] rest[i], rel) {
                let w = choose|i: int|
                    0 <= i < rest.len() && glob_matches(#[trigger] rest[i], rel);
                assert(glob_matches(pats[w + 1], rel));
                assert(exists|i: int| 0 <= i < pats.len() && glob_matches(#[trigger] pats[i], rel));
            }
        }
    }
}

} // verus!
