//! The ignore matcher: glob patterns over relative paths, with the usual
//! ignore-file conventions. One pattern per line; blank (or all-space)
//! lines are no-ops; `*` matches within one path component while `**`
//! crosses components; a leading `/` anchors a pattern to the repository
//! root; a trailing `/` restricts it to directories (and everything under
//! them); a leading `!` negates, and the last matching pattern wins.
//! Separators are normalized so `\` and `/` compare alike. Independently
//! of the patterns, anything under a `.git` directory and a fixed set of
//! binary file extensions are always excluded.

use vstd::prelude::*;

use crate::file_utils::ext_of;
use crate::text::find_nl;
use crate::text::find_nl_from;
use crate::text::norm_seps;
use crate::text::norm_seps_exec;
use crate::text::trim_spaces;
use crate::text::trim_str;

verus! {

/// Glob matching: `**` matches any characters, `*` any characters except
/// `/`, and every other character matches itself.
pub open spec fn glob_match(p: Seq<char>, s: Seq<char>) -> bool
    decreases p.len(), s.len(),
{
    if p.len() == 0 {
        s.len() == 0
    } else if p.len() >= 2 && p[0] == '*' && p[1] == '*' {
        glob_match(p.skip(2), s) || (s.len() > 0 && glob_match(p, s.skip(1)))
    } else if p[0] == '*' {
        glob_match(p.skip(1), s) || (s.len() > 0 && s[0] != '/' && glob_match(p, s.skip(1)))
    } else {
        s.len() > 0 && p[0] == s[0] && glob_match(p.skip(1), s.skip(1))
    }
}

/// Glob matching on the regions `p[pi..pe]` and `s[si..se]`.
pub fn glob_match_range(p: &str, pi: usize, pe: usize, s: &str, si: usize, se: usize) -> (r: bool)
    requires
        pi <= pe <= p@.len(),
        si <= se <= s@.len(),
    ensures
        r == glob_match(p@.subrange(pi as int, pe as int), s@.subrange(si as int, se as int)),
    decreases pe - pi, se - si,
{
    proof {
        assert(p@.subrange(pi as int, pe as int).len() == pe - pi);
        assert(s@.subrange(si as int, se as int).len() == se - si);
    }
    if pi == pe {
        return si == se;
    }
    let c0 = p.get_char(pi);
    proof {
        assert(p@.subrange(pi as int, pe as int)[0] == p@[pi as int]);
        assert(p@.subrange(pi as int, pe as int).skip(1) =~= p@.subrange(pi as int + 1, pe as int));
        if si < se {
            assert(s@.subrange(si as int, se as int)[0] == s@[si as int]);
            assert(s@.subrange(si as int, se as int).skip(1) =~= s@.subrange(
                si as int + 1,
                se as int,
            ));
        }
    }
    if pe - pi >= 2 && c0 == '*' && p.get_char(pi + 1) == '*' {
        proof {
            assert(p@.subrange(pi as int, pe as int)[1] == p@[pi as int + 1]);
            assert(p@.subrange(pi as int, pe as int).skip(2) =~= p@.subrange(
                pi as int + 2,
                pe as int,
            ));
        }
        if glob_match_range(p, pi + 2, pe, s, si, se) {
            return true;
        }
        if si < se && glob_match_range(p, pi, pe, s, si + 1, se) {
            return true;
        }
        return false;
    }
    if c0 == '*' {
        if glob_match_range(p, pi + 1, pe, s, si, se) {
            return true;
        }
        if si < se && s.get_char(si) != '/' && glob_match_range(p, pi, pe, s, si + 1, se) {
            return true;
        }
        return false;
    }
    if si < se && s.get_char(si) == c0 {
        return glob_match_range(p, pi + 1, pe, s, si + 1, se);
    }
    false
}

/// The pattern with its leading `!` removed, if it has one.
pub open spec fn after_neg(q: Seq<char>) -> Seq<char> {
    if q.len() > 0 && q[0] == '!' {
        q.skip(1)
    } else {
        q
    }
}

/// A pattern starting with `!` excludes nothing; it re-includes.
pub open spec fn pattern_negated(q: Seq<char>) -> bool {
    q.len() > 0 && q[0] == '!'
}

/// A leading `/` (after any `!`) anchors the pattern to the root.
pub open spec fn pattern_anchored(q: Seq<char>) -> bool {
    after_neg(q).len() > 0 && after_neg(q)[0] == '/'
}

pub open spec fn after_anchor(q: Seq<char>) -> Seq<char> {
    if pattern_anchored(q) {
        after_neg(q).skip(1)
    } else {
        after_neg(q)
    }
}

/// A trailing `/` restricts the pattern to directories.
pub open spec fn pattern_dir_only(q: Seq<char>) -> bool {
    after_anchor(q).len() > 0 && after_anchor(q).last() == '/'
}

/// The glob proper, with the marker characters stripped.
pub open spec fn pattern_body(q: Seq<char>) -> Seq<char> {
    if pattern_dir_only(q) {
        after_anchor(q).drop_last()
    } else {
        after_anchor(q)
    }
}

/// The body matches the path region from component start `k` up to `j`,
/// which is either the end of the path (only allowed for non-directory
/// patterns) or a `/`.
pub open spec fn seg_match_at(
    body: Seq<char>,
    s: Seq<char>,
    k: int,
    j: int,
    dir_only: bool,
) -> bool {
    &&& 0 <= k <= j <= s.len()
    &&& (k == 0 || s[k - 1] == '/')
    &&& (if j == s.len() {
        !dir_only
    } else {
        s[j] == '/'
    })
    &&& glob_match(body, s.subrange(k, j))
}

/// Whether one raw pattern matches the relative path `s`, after
/// separator normalization. Unanchored patterns may match starting at
/// any path component.
pub open spec fn pattern_match_path(raw: Seq<char>, s: Seq<char>) -> bool {
    let q = norm_seps(raw);
    let body = pattern_body(q);
    body.len() > 0 && exists|k: int, j: int|
        #[trigger] seg_match_at(body, s, k, j, pattern_dir_only(q)) && (pattern_anchored(q) ==> k
            == 0)
}

pub fn pattern_matches(raw: &str, path: &str) -> (r: bool)
    ensures
        r == pattern_match_path(raw@, path@),
{
    let q = norm_seps_exec(raw);
    let qs = q.as_str();
    let qlen = qs.unicode_len();
    let neg = qlen > 0 && qs.get_char(0) == '!';
    let start1: usize = if neg {
        1
    } else {
        0
    };
    let anchored = qlen > start1 && qs.get_char(start1) == '/';
    let start: usize = if anchored {
        start1 + 1
    } else {
        start1
    };
    let dir_only = qlen > start && qs.get_char(qlen - 1) == '/';
    let end: usize = if dir_only {
        qlen - 1
    } else {
        qlen
    };
    proof {
        assert(after_neg(q@) =~= q@.skip(start1 as int));
        assert(anchored == pattern_anchored(q@));
        assert(after_anchor(q@) =~= q@.skip(start as int));
        if qlen > start {
            assert(after_anchor(q@).last() == q@[qlen - 1]);
        }
        assert(dir_only == pattern_dir_only(q@));
        assert(pattern_body(q@) =~= q@.subrange(start as int, end as int));
    }
    let ghost body = pattern_body(q@);
    if end == start {
        return false;
    }
    let slen = path.unicode_len();
    let mut k: usize = 0;
    loop
        invariant
            slen == path@.len(),
            k <= slen,
            start <= end <= qlen,
            qlen == q@.len(),
            qs@ == q@,
            q@ == norm_seps(raw@),
            body == pattern_body(q@),
            body == q@.subrange(start as int, end as int),
            body.len() > 0,
            anchored == pattern_anchored(q@),
            dir_only == pattern_dir_only(q@),
            forall|k2: int, j2: int|
                0 <= k2 < k ==> !(#[trigger] seg_match_at(body, path@, k2, j2, dir_only) && (
                anchored ==> k2 == 0)),
        ensures
            forall|k2: int, j2: int|
                !(#[trigger] seg_match_at(body, path@, k2, j2, dir_only) && (anchored ==> k2
                    == 0)),
        decreases slen - k,
    {
        let k_ok = (k == 0 || path.get_char(k - 1) == '/') && (!anchored || k == 0);
        if k_ok {
            let mut j = k;
            loop
                invariant
                    slen == path@.len(),
                    k <= slen,
                    k <= j <= slen,
                    start <= end <= qlen,
                    qlen == q@.len(),
                    qs@ == q@,
                    q@ == norm_seps(raw@),
                    body == pattern_body(q@),
                    body == q@.subrange(start as int, end as int),
                    body.len() > 0,
                    anchored == pattern_anchored(q@),
                    dir_only == pattern_dir_only(q@),
                    k == 0 || path@[k - 1] == '/',
                    !anchored || k == 0,
                    forall|j2: int| j2 < j ==> !seg_match_at(body, path@, k as int, j2, dir_only),
                ensures
                    forall|j2: int| !seg_match_at(body, path@, k as int, j2, dir_only),
                decreases slen - j,
            {
                let boundary = if j == slen {
                    !dir_only
                } else {
                    path.get_char(j) == '/'
                };
                if boundary {
                    if glob_match_range(qs, start, end, path, k, j) {
                        proof {
                            assert(seg_match_at(body, path@, k as int, j as int, dir_only));
                            assert(pattern_match_path(raw@, path@));
                        }
                        return true;
                    }
                }
                proof {
                    assert(!seg_match_at(body, path@, k as int, j as int, dir_only));
                    assert(forall|j2: int|
                        j2 < j + 1 ==> !seg_match_at(body, path@, k as int, j2, dir_only));
                }
                if j == slen {
                    break;
                }
                j += 1;
            }
        } else {
            proof {
                assert(forall|j2: int|
                    !(#[trigger] seg_match_at(body, path@, k as int, j2, dir_only) && (anchored
                        ==> k as int == 0)));
            }
        }
        proof {
            assert(forall|k2: int, j2: int|
                0 <= k2 < k + 1 ==> !(#[trigger] seg_match_at(body, path@, k2, j2, dir_only) && (
                anchored ==> k2 == 0)));
        }
        if k == slen {
            break;
        }
        k += 1;
    }
    proof {
        if pattern_match_path(raw@, path@) {
            let (k2, j2) = choose|k2: int, j2: int|
                #[trigger] seg_match_at(body, path@, k2, j2, dir_only) && (anchored ==> k2 == 0);
            assert(!(seg_match_at(body, path@, k2, j2, dir_only) && (anchored ==> k2 == 0)));
        }
    }
    false
}

/// Whether the ordered pattern list excludes `s`: the last pattern that
/// matches decides, and a negated pattern re-includes.
pub open spec fn ignored_by(patterns: Seq<Seq<char>>, s: Seq<char>) -> bool
    decreases patterns.len(),
{
    if patterns.len() == 0 {
        false
    } else if pattern_match_path(patterns.last(), s) {
        !pattern_negated(norm_seps(patterns.last()))
    } else {
        ignored_by(patterns.drop_last(), s)
    }
}

/// Whether the ignore patterns exclude the relative path.
pub fn ignore_due_to_pattern(path: &str, ignore_patterns: &Vec<String>) -> (r: bool)
    ensures
        r == ignored_by(ignore_patterns.deep_view(), path@),
{
    let n = ignore_patterns.len();
    proof {
        assert(ignore_patterns.deep_view().take(n as int) =~= ignore_patterns.deep_view());
    }
    let mut i: usize = n;
    while i > 0
        invariant
            n == ignore_patterns.len(),
            i <= n,
            ignored_by(ignore_patterns.deep_view(), path@) == ignored_by(
                ignore_patterns.deep_view().take(i as int),
                path@,
            ),
        decreases i,
    {
        let p = ignore_patterns[i - 1].as_str();
        proof {
            assert(ignore_patterns.deep_view().take(i as int).last() == p@);
            assert(ignore_patterns.deep_view().take(i as int).drop_last()
                =~= ignore_patterns.deep_view().take(i as int - 1));
        }
        if pattern_matches(p, path) {
            let q = norm_seps_exec(p);
            let neg = q.as_str().unicode_len() > 0 && q.as_str().get_char(0) == '!';
            return !neg;
        }
        i -= 1;
    }
    proof {
        assert(ignore_patterns.deep_view().take(0).len() == 0);
    }
    false
}

/// Whether some path component is exactly `.git`.
pub open spec fn has_git_component(s: Seq<char>) -> bool {
    exists|k: int|
        0 <= k && k + ".git"@.len() <= s.len() && (k == 0 || s[k - 1] == '/') && (#[trigger] s.subrange(
            k,
            k + ".git"@.len(),
        )) == ".git"@ && (k + ".git"@.len() == s.len() || s[k + ".git"@.len()] == '/')
}

pub fn path_has_git_component(path: &str) -> (r: bool)
    ensures
        r == has_git_component(path@),
{
    let slen = path.unicode_len();
    let glen = ".git".unicode_len();
    proof {
        reveal_strlit(".git");
    }
    if slen < glen {
        proof {
            if has_git_component(path@) {
                let k2 = choose|k2: int|
                    0 <= k2 && k2 + ".git"@.len() <= path@.len() && (k2 == 0 || path@[k2 - 1]
                        == '/') && (#[trigger] path@.subrange(k2, k2 + ".git"@.len())) == ".git"@
                        && (k2 + ".git"@.len() == path@.len() || path@[k2 + ".git"@.len()] == '/');
            }
        }
        return false;
    }
    let mut k: usize = 0;
    while k <= slen - glen
        invariant
            slen == path@.len(),
            glen == ".git"@.len(),
            glen == 4,
            glen <= slen,
            k <= slen - glen + 1,
            forall|k2: int|
                0 <= k2 < k ==> !(k2 + ".git"@.len() <= path@.len() && (k2 == 0 || path@[k2 - 1]
                    == '/') && (#[trigger] path@.subrange(k2, k2 + ".git"@.len())) == ".git"@ && (k2
                    + ".git"@.len() == path@.len() || path@[k2 + ".git"@.len()] == '/')),
        decreases slen - glen + 1 - k,
    {
        let comp_start = k == 0 || path.get_char(k - 1) == '/';
        if comp_start && crate::text::region_eq(path, k, slen, ".git", glen) {
            let after = k + glen;
            if after == slen || path.get_char(after) == '/' {
                proof {
                    assert(path@.subrange(k as int, k as int + ".git"@.len()) == ".git"@);
                }
                return true;
            }
        }
        k += 1;
    }
    proof {
        if has_git_component(path@) {
            let k2 = choose|k2: int|
                0 <= k2 && k2 + ".git"@.len() <= path@.len() && (k2 == 0 || path@[k2 - 1] == '/')
                    && (#[trigger] path@.subrange(k2, k2 + ".git"@.len())) == ".git"@ && (k2
                    + ".git"@.len() == path@.len() || path@[k2 + ".git"@.len()] == '/');
            assert(k2 < k);
        }
    }
    false
}

/// Extensions excluded unconditionally: images, archives, and compiled
/// objects.
pub open spec fn is_binary_ext(e: Seq<char>) -> bool {
    ||| e == "png"@
    ||| e == "jpg"@
    ||| e == "jpeg"@
    ||| e == "gif"@
    ||| e == "zip"@
    ||| e == "tar"@
    ||| e == "gz"@
    ||| e == "bin"@
    ||| e == "o"@
    ||| e == "so"@
    ||| e == "dll"@
    ||| e == "der"@
}

/// A file survives the walk when it is not under `.git`, not excluded by
/// the patterns, and not of a binary extension.
pub open spec fn valid_file(s: Seq<char>, patterns: Seq<Seq<char>>) -> bool {
    !has_git_component(s) && !ignored_by(patterns, s) && !is_binary_ext(ext_of(s))
}

/// Whether the file at the relative path should be processed.
pub fn is_valid_file(path: &str, ignore_patterns: &Vec<String>) -> (r: bool)
    ensures
        r == valid_file(path@, ignore_patterns.deep_view()),
{
    if path_has_git_component(path) {
        return false;
    }
    if ignore_due_to_pattern(path, ignore_patterns) {
        return false;
    }
    let ext = crate::file_utils::extension_of(path);
    let binary = crate::text::str_eq(ext, "png") || crate::text::str_eq(ext, "jpg")
        || crate::text::str_eq(ext, "jpeg") || crate::text::str_eq(ext, "gif")
        || crate::text::str_eq(ext, "zip") || crate::text::str_eq(ext, "tar")
        || crate::text::str_eq(ext, "gz") || crate::text::str_eq(ext, "bin")
        || crate::text::str_eq(ext, "o") || crate::text::str_eq(ext, "so")
        || crate::text::str_eq(ext, "dll") || crate::text::str_eq(ext, "der");
    !binary
}

/// The ignore-file text reduced to its patterns: one per line, trimmed,
/// with blank lines dropped.
pub open spec fn parse_patterns(s: Seq<char>) -> Seq<Seq<char>>
    decreases s.len(),
    via parse_patterns_decreases
{
    if s.len() == 0 {
        Seq::empty()
    } else {
        let n = find_nl(s);
        let line = trim_spaces(s.take(n));
        let head: Seq<Seq<char>> = if line.len() == 0 {
            Seq::empty()
        } else {
            seq![line]
        };
        if n == s.len() {
            head
        } else {
            head + parse_patterns(s.skip(n + 1))
        }
    }
}

/// Concatenates the pattern sources in order of authority: the ignore
/// file's patterns first, then the configuration's inline patterns, so
/// a later source can override (or negate) an earlier one.
pub fn combine_pattern_sources(file_patterns: &Vec<String>, inline_patterns: &Vec<String>) -> (r:
    Vec<String>)
    ensures
        r.deep_view() == file_patterns.deep_view() + inline_patterns.deep_view(),
{
    let mut out = crate::text::clone_strings(file_patterns);
    let n = inline_patterns.len();
    proof {
        assert(out.deep_view() =~= file_patterns.deep_view() + inline_patterns.deep_view().take(0));
    }
    let mut i: usize = 0;
    while i < n
        invariant
            n == inline_patterns.len(),
            i <= n,
            out.deep_view() == file_patterns.deep_view() + inline_patterns.deep_view().take(
                i as int,
            ),
        decreases n - i,
    {
        let c = inline_patterns[i].clone();
        let ghost cv = c@;
        let ghost prev = out.deep_view();
        proof {
            assert(cv == inline_patterns.deep_view()[i as int]);
        }
        out.push(c);
        proof {
            assert(out.deep_view() =~= prev.push(cv));
            assert(prev.push(cv) =~= file_patterns.deep_view() + inline_patterns.deep_view().take(
                i as int + 1,
            ));
        }
        i += 1;
    }
    proof {
        assert(inline_patterns.deep_view().take(n as int) =~= inline_patterns.deep_view());
    }
    out
}

#[via_fn]
proof fn parse_patterns_decreases(s: Seq<char>) {
    if s.len() > 0 {
        crate::text::lemma_find_nl(s);
    }
}

/// Splits ignore-file text into its patterns.
pub fn parse_ignore_patterns(content: &str) -> (r: Vec<String>)
    ensures
        r.deep_view() == parse_patterns(content@),
{
    let slen = content.unicode_len();
    let mut out: Vec<String> = Vec::new();
    parse_patterns_from(content, 0, slen, &mut out);
    proof {
        assert(content@.skip(0) =~= content@);
        assert(out.deep_view() =~= parse_patterns(content@));
    }
    out
}

fn parse_patterns_from(s: &str, i: usize, slen: usize, out: &mut Vec<String>)
    requires
        slen == s@.len(),
        i <= slen,
    ensures
        final(out).deep_view() == old(out).deep_view() + parse_patterns(s@.skip(i as int)),
    decreases slen - i,
{
    if i == slen {
        proof {
            assert(s@.skip(i as int).len() == 0);
            assert(out.deep_view() =~= out.deep_view() + parse_patterns(s@.skip(i as int)));
        }
        return;
    }
    let j = find_nl_from(s, i, slen);
    let line = trim_str(s.substring_char(i, j));
    proof {
        assert(s@.skip(i as int).take(find_nl(s@.skip(i as int))) =~= s@.subrange(
            i as int,
            j as int,
        ));
    }
    if line.unicode_len() > 0 {
        out.push(String::from_str(line));
    }
    if j == slen {
        proof {
            assert(find_nl(s@.skip(i as int)) == s@.skip(i as int).len());
            assert(out.deep_view() =~= old(out).deep_view() + parse_patterns(s@.skip(i as int)));
        }
        return;
    }
    parse_patterns_from(s, j + 1, slen, out);
    proof {
        assert(s@.skip(i as int).skip(find_nl(s@.skip(i as int)) + 1) =~= s@.skip(j as int + 1));
        assert(out.deep_view() =~= old(out).deep_view() + parse_patterns(s@.skip(i as int)));
    }
}

} // verus!
