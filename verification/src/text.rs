//! Small verified helpers on strings: equality, searching, case folding,
//! separator normalization, and first-occurrence collection. The rest of
//! the pipeline is built on these.

use vstd::prelude::*;

verus! {

/// Horizontal whitespace that pattern and line trimming removes.
pub open spec fn is_space(c: char) -> bool {
    c == ' ' || c == '\t' || c == '\r'
}

/// ASCII-lowercases one character; everything else is unchanged.
pub open spec fn lower_char(c: char) -> char {
    if 65 <= c as u32 && c as u32 <= 90 {
        ((c as u32) + 32) as char
    } else {
        c
    }
}

/// ASCII-lowercases a whole character sequence.
pub open spec fn lower(s: Seq<char>) -> Seq<char> {
    s.map_values(|c: char| lower_char(c))
}

pub fn lower_char_exec(c: char) -> (r: char)
    ensures
        r == lower_char(c),
{
    let u = c as u32;
    if 65 <= u && u <= 90 {
        ((u + 32) as u8) as char
    } else {
        c
    }
}

/// Character-for-character equality of two strings.
pub fn str_eq(a: &str, b: &str) -> (r: bool)
    ensures
        r == (a@ == b@),
{
    let alen = a.unicode_len();
    let blen = b.unicode_len();
    if alen != blen {
        proof {
            assert(a@.len() != b@.len());
        }
        return false;
    }
    let mut i: usize = 0;
    while i < alen
        invariant
            alen == a@.len(),
            blen == b@.len(),
            alen == blen,
            i <= alen,
            forall|j: int| 0 <= j < i ==> a@[j] == b@[j],
        decreases alen - i,
    {
        if a.get_char(i) != b.get_char(i) {
            return false;
        }
        i += 1;
    }
    proof {
        assert(a@ =~= b@);
    }
    true
}

/// Whether the ASCII-lowercased form of `a` equals `b` (used with
/// lowercase pattern constants).
pub fn eq_lower(a: &str, b: &str) -> (r: bool)
    ensures
        r == (lower(a@) == b@),
{
    let alen = a.unicode_len();
    let blen = b.unicode_len();
    if alen != blen {
        proof {
            assert(lower(a@).len() != b@.len());
        }
        return false;
    }
    let mut i: usize = 0;
    while i < alen
        invariant
            alen == a@.len(),
            blen == b@.len(),
            alen == blen,
            i <= alen,
            forall|j: int| 0 <= j < i ==> lower(a@)[j] == b@[j],
        decreases alen - i,
    {
        if lower_char_exec(a.get_char(i)) != b.get_char(i) {
            proof {
                assert(lower(a@)[i as int] != b@[i as int]);
            }
            return false;
        }
        i += 1;
    }
    proof {
        assert(lower(a@) =~= b@);
    }
    true
}

/// Equality of `t` with the characters of `s` from `i` on.
pub fn region_eq(s: &str, i: usize, slen: usize, t: &str, tlen: usize) -> (r: bool)
    requires
        slen == s@.len(),
        tlen == t@.len(),
        i + tlen <= slen,
    ensures
        r == (s@.subrange(i as int, i as int + tlen as int) == t@),
{
    let mut j: usize = 0;
    while j < tlen
        invariant
            slen == s@.len(),
            tlen == t@.len(),
            i + tlen <= slen,
            j <= tlen,
            forall|k: int| 0 <= k < j ==> s@[i + k] == t@[k],
        decreases tlen - j,
    {
        if s.get_char(i + j) != t.get_char(j) {
            proof {
                assert(s@.subrange(i as int, i as int + tlen as int)[j as int] != t@[j as int]);
            }
            return false;
        }
        j += 1;
    }
    proof {
        assert(s@.subrange(i as int, i as int + tlen as int) =~= t@);
    }
    true
}

pub fn is_space_exec(c: char) -> (r: bool)
    ensures
        r == is_space(c),
{
    c == ' ' || c == '\t' || c == '\r'
}

/// Replaces every backslash with a forward slash, so that patterns and
/// paths written with either separator compare alike.
pub open spec fn norm_seps(s: Seq<char>) -> Seq<char> {
    s.map_values(|c: char| if c == '\\' { '/' } else { c })
}

pub fn norm_seps_exec(s: &str) -> (r: String)
    ensures
        r@ == norm_seps(s@),
{
    let slen = s.unicode_len();
    let mut out = String::new();
    let mut i: usize = 0;
    while i < slen
        invariant
            slen == s@.len(),
            i <= slen,
            out@ == norm_seps(s@.take(i as int)),
        decreases slen - i,
    {
        let c = s.get_char(i);
        if c == '\\' {
            out.append("/");
            proof {
                reveal_strlit("/");
            }
        } else {
            out.append(s.substring_char(i, i + 1));
        }
        proof {
            assert(s@.subrange(i as int, i as int + 1) =~= seq![s@[i as int]]);
            assert(norm_seps(s@.take(i as int + 1)) =~= norm_seps(s@.take(i as int)) + seq![
                if s@[i as int] == '\\' {
                    '/'
                } else {
                    s@[i as int]
                },
            ]);
        }
        i += 1;
    }
    proof {
        assert(s@.take(slen as int) =~= s@);
    }
    out
}

/// Replaces every forward slash with a dash; repository names derived
/// from `owner/repo` references must be filesystem-safe.
pub open spec fn dashify(s: Seq<char>) -> Seq<char> {
    s.map_values(|c: char| if c == '/' { '-' } else { c })
}

pub fn dashify_exec(s: &str) -> (r: String)
    ensures
        r@ == dashify(s@),
{
    let slen = s.unicode_len();
    let mut out = String::new();
    let mut i: usize = 0;
    while i < slen
        invariant
            slen == s@.len(),
            i <= slen,
            out@ == dashify(s@.take(i as int)),
        decreases slen - i,
    {
        let c = s.get_char(i);
        if c == '/' {
            out.append("-");
            proof {
                reveal_strlit("-");
            }
        } else {
            out.append(s.substring_char(i, i + 1));
        }
        proof {
            assert(s@.subrange(i as int, i as int + 1) =~= seq![s@[i as int]]);
            assert(dashify(s@.take(i as int + 1)) =~= dashify(s@.take(i as int)) + seq![
                if s@[i as int] == '/' {
                    '-'
                } else {
                    s@[i as int]
                },
            ]);
        }
        i += 1;
    }
    proof {
        assert(s@.take(slen as int) =~= s@);
    }
    out
}

/// Replaces path separators (either kind) with underscores, for use
/// inside artifact file names.
pub open spec fn underscore_seps(s: Seq<char>) -> Seq<char> {
    s.map_values(|c: char| if c == '/' || c == '\\' { '_' } else { c })
}

pub fn underscore_seps_exec(s: &str) -> (r: String)
    ensures
        r@ == underscore_seps(s@),
{
    let slen = s.unicode_len();
    let mut out = String::new();
    let mut i: usize = 0;
    while i < slen
        invariant
            slen == s@.len(),
            i <= slen,
            out@ == underscore_seps(s@.take(i as int)),
        decreases slen - i,
    {
        let c = s.get_char(i);
        if c == '/' || c == '\\' {
            out.append("_");
            proof {
                reveal_strlit("_");
            }
        } else {
            out.append(s.substring_char(i, i + 1));
        }
        proof {
            assert(s@.subrange(i as int, i as int + 1) =~= seq![s@[i as int]]);
            assert(underscore_seps(s@.take(i as int + 1)) =~= underscore_seps(s@.take(i as int))
                + seq![
                if s@[i as int] == '/' || s@[i as int] == '\\' {
                    '_'
                } else {
                    s@[i as int]
                },
            ]);
        }
        i += 1;
    }
    proof {
        assert(s@.take(slen as int) =~= s@);
    }
    out
}

/// Index of the first newline in `s`, or `s.len()` if there is none.
pub open spec fn find_nl(s: Seq<char>) -> int
    decreases s.len(),
{
    if s.len() == 0 {
        0
    } else if s[0] == '\n' {
        0
    } else {
        1 + find_nl(s.skip(1))
    }
}

pub proof fn lemma_find_nl(s: Seq<char>)
    ensures
        0 <= find_nl(s) <= s.len(),
        forall|j: int| 0 <= j < find_nl(s) ==> s[j] != '\n',
        find_nl(s) < s.len() ==> s[find_nl(s)] == '\n',
    decreases s.len(),
{
    if s.len() > 0 && s[0] != '\n' {
        lemma_find_nl(s.skip(1));
        assert forall|j: int| 0 <= j < find_nl(s) implies s[j] != '\n' by {
            if j > 0 {
                assert(s.skip(1)[j - 1] == s[j]);
            }
        }
        if find_nl(s) < s.len() {
            assert(s.skip(1)[find_nl(s) - 1] == s[find_nl(s)]);
        }
    }
}

/// Position of the first newline at or after `from`, or `slen` if none.
pub fn find_nl_from(s: &str, from: usize, slen: usize) -> (r: usize)
    requires
        slen == s@.len(),
        from <= slen,
    ensures
        from <= r <= slen,
        r - from == find_nl(s@.skip(from as int)),
{
    let mut j = from;
    while j < slen
        invariant
            slen == s@.len(),
            from <= j <= slen,
            find_nl(s@.skip(from as int)) == (j - from) + find_nl(s@.skip(j as int)),
        decreases slen - j,
    {
        if s.get_char(j) == '\n' {
            proof {
                assert(s@.skip(j as int)[0] == '\n');
            }
            return j;
        }
        proof {
            assert(s@.skip(j as int).len() > 0 && s@.skip(j as int)[0] != '\n');
            assert(s@.skip(j as int).skip(1) =~= s@.skip(j as int + 1));
        }
        j += 1;
    }
    proof {
        assert(s@.skip(slen as int) =~= Seq::<char>::empty());
    }
    j
}

/// Index of the first non-space character, or `s.len()` if all spaces.
pub open spec fn first_non_space(s: Seq<char>) -> int
    decreases s.len(),
{
    if s.len() == 0 {
        0
    } else if !is_space(s[0]) {
        0
    } else {
        1 + first_non_space(s.skip(1))
    }
}

/// Index of the last non-space character, or `-1` if all spaces.
pub open spec fn last_non_space(s: Seq<char>) -> int
    decreases s.len(),
{
    if s.len() == 0 {
        -1
    } else if !is_space(s[s.len() - 1]) {
        s.len() - 1
    } else {
        last_non_space(s.drop_last())
    }
}

/// `s` with leading and trailing spaces removed.
pub open spec fn trim_spaces(s: Seq<char>) -> Seq<char> {
    if first_non_space(s) == s.len() {
        Seq::empty()
    } else {
        s.subrange(first_non_space(s), last_non_space(s) + 1)
    }
}

pub proof fn lemma_first_non_space(s: Seq<char>)
    ensures
        0 <= first_non_space(s) <= s.len(),
        forall|j: int| 0 <= j < first_non_space(s) ==> is_space(s[j]),
        first_non_space(s) < s.len() ==> !is_space(s[first_non_space(s)]),
    decreases s.len(),
{
    if s.len() > 0 && is_space(s[0]) {
        lemma_first_non_space(s.skip(1));
        assert forall|j: int| 0 <= j < first_non_space(s) implies is_space(s[j]) by {
            if j > 0 {
                assert(s.skip(1)[j - 1] == s[j]);
            }
        }
        if first_non_space(s) < s.len() {
            assert(s.skip(1)[first_non_space(s) - 1] == s[first_non_space(s)]);
        }
    }
}

pub proof fn lemma_last_non_space(s: Seq<char>)
    ensures
        -1 <= last_non_space(s) < s.len(),
        forall|j: int| last_non_space(s) < j < s.len() ==> is_space(s[j]),
        last_non_space(s) >= 0 ==> !is_space(s[last_non_space(s)]),
    decreases s.len(),
{
    if s.len() > 0 && is_space(s[s.len() - 1]) {
        lemma_last_non_space(s.drop_last());
        assert(forall|j: int| 0 <= j < s.len() - 1 ==> s.drop_last()[j] == s[j]);
    }
}

/// `s` with leading and trailing spaces, tabs, and carriage returns
/// removed.
pub fn trim_str<'a>(s: &'a str) -> (r: &'a str)
    ensures
        r@ == trim_spaces(s@),
{
    let slen = s.unicode_len();
    proof {
        lemma_first_non_space(s@);
        lemma_last_non_space(s@);
    }
    let mut a: usize = 0;
    while a < slen
        invariant
            slen == s@.len(),
            a <= slen,
            forall|j: int| 0 <= j < a ==> is_space(s@[j]),
        ensures
            a <= slen,
            forall|j: int| 0 <= j < a ==> is_space(s@[j]),
            a == slen || !is_space(s@[a as int]),
        decreases slen - a,
    {
        if !is_space_exec(s.get_char(a)) {
            break;
        }
        a += 1;
    }
    if a == slen {
        proof {
            if first_non_space(s@) < slen as int {
                assert(is_space(s@[first_non_space(s@)]));
            }
            reveal_strlit("");
            assert(""@ =~= Seq::<char>::empty());
        }
        return "";
    }
    proof {
        assert(a as int == first_non_space(s@));
    }
    let mut b: usize = slen;
    while b > a
        invariant
            slen == s@.len(),
            a <= b <= slen,
            forall|j: int| b <= j < slen ==> is_space(s@[j]),
        ensures
            a <= b <= slen,
            forall|j: int| b <= j < slen ==> is_space(s@[j]),
            b == a || !is_space(s@[b - 1]),
        decreases b,
    {
        if !is_space_exec(s.get_char(b - 1)) {
            break;
        }
        b -= 1;
    }
    proof {
        if b > a {
            assert(!is_space(s@[b - 1]));
            assert(b - 1 == last_non_space(s@));
        } else {
            assert(is_space(s@[a as int]));
        }
    }
    s.substring_char(a, b)
}

/// Index of the last occurrence of `c` in `s`, or `-1` if there is none.
pub open spec fn find_last(s: Seq<char>, c: char) -> int
    decreases s.len(),
{
    if s.len() == 0 {
        -1
    } else if s[s.len() - 1] == c {
        s.len() - 1
    } else {
        find_last(s.drop_last(), c)
    }
}

pub proof fn lemma_find_last(s: Seq<char>, c: char)
    ensures
        -1 <= find_last(s, c) < s.len(),
        find_last(s, c) >= 0 ==> s[find_last(s, c)] == c,
        forall|j: int| find_last(s, c) < j < s.len() ==> s[j] != c,
    decreases s.len(),
{
    if s.len() > 0 && s[s.len() - 1] != c {
        lemma_find_last(s.drop_last(), c);
        assert(forall|j: int| 0 <= j < s.len() - 1 ==> s.drop_last()[j] == s[j]);
    }
}

pub fn find_last_char(s: &str, slen: usize, c: char) -> (r: Option<usize>)
    requires
        slen == s@.len(),
    ensures
        match r {
            Some(i) => i == find_last(s@, c),
            None => find_last(s@, c) == -1,
        },
{
    proof {
        lemma_find_last(s@, c);
    }
    let mut i: usize = slen;
    while i > 0
        invariant
            slen == s@.len(),
            i <= slen,
            forall|j: int| i <= j < slen ==> s@[j] != c,
        decreases i,
    {
        i = i - 1;
        if s.get_char(i) == c {
            proof {
                lemma_find_last(s@, c);
                let fl = find_last(s@, c);
                if fl > i as int {
                    assert(s@[fl] != c);
                }
                if fl < i as int {
                    assert(s@[i as int] != c);
                }
            }
            return Some(i);
        }
    }
    None
}

/// Appends to `acc` each element of `xs`, in order, that is not already
/// present; the result keeps first occurrences only.
pub open spec fn add_unique(acc: Seq<Seq<char>>, xs: Seq<Seq<char>>) -> Seq<Seq<char>>
    decreases xs.len(),
{
    if xs.len() == 0 {
        acc
    } else if acc.contains(xs[0]) {
        add_unique(acc, xs.skip(1))
    } else {
        add_unique(acc.push(xs[0]), xs.skip(1))
    }
}

/// Collecting one more element extends the result exactly when it is
/// new.
pub proof fn lemma_add_unique_push(acc: Seq<Seq<char>>, xs: Seq<Seq<char>>, x: Seq<char>)
    ensures
        add_unique(acc, xs.push(x)) == (if add_unique(acc, xs).contains(x) {
            add_unique(acc, xs)
        } else {
            add_unique(acc, xs).push(x)
        }),
    decreases xs.len(),
{
    if xs.len() == 0 {
        assert(xs.push(x)[0] == x);
        assert(xs.push(x).skip(1) =~= Seq::<Seq<char>>::empty());
        assert(add_unique(acc, Seq::<Seq<char>>::empty()) == acc);
        assert(add_unique(acc.push(x), Seq::<Seq<char>>::empty()) == acc.push(x));
        assert(add_unique(acc, xs) == acc);
    } else {
        assert(xs.push(x)[0] == xs[0]);
        assert(xs.push(x).skip(1) =~= xs.skip(1).push(x));
        if acc.contains(xs[0]) {
            lemma_add_unique_push(acc, xs.skip(1), x);
        } else {
            lemma_add_unique_push(acc.push(xs[0]), xs.skip(1), x);
        }
    }
}

/// No element of `s` occurs twice.
pub open spec fn distinct_seq(s: Seq<Seq<char>>) -> bool {
    forall|i: int, j: int| 0 <= i < j < s.len() ==> s[i] != s[j]
}

pub proof fn lemma_add_unique_membership(acc: Seq<Seq<char>>, xs: Seq<Seq<char>>, y: Seq<char>)
    ensures
        add_unique(acc, xs).contains(y) <==> (acc.contains(y) || xs.contains(y)),
    decreases xs.len(),
{
    broadcast use vstd::seq_lib::lemma_seq_contains_after_push, vstd::seq_lib::lemma_seq_skip_contains;

    if xs.len() == 0 {
        assert(!xs.contains(y));
    } else {
        assert(xs.contains(y) <==> (xs[0] == y || xs.skip(1).contains(y)));
        if acc.contains(xs[0]) {
            lemma_add_unique_membership(acc, xs.skip(1), y);
        } else {
            lemma_add_unique_membership(acc.push(xs[0]), xs.skip(1), y);
        }
    }
}

pub proof fn lemma_add_unique_distinct(acc: Seq<Seq<char>>, xs: Seq<Seq<char>>)
    requires
        distinct_seq(acc),
    ensures
        distinct_seq(add_unique(acc, xs)),
        acc.len() <= add_unique(acc, xs).len(),
        forall|i: int| 0 <= i < acc.len() ==> add_unique(acc, xs)[i] == acc[i],
    decreases xs.len(),
{
    if xs.len() > 0 {
        if acc.contains(xs[0]) {
            lemma_add_unique_distinct(acc, xs.skip(1));
        } else {
            assert(forall|i: int| 0 <= i < acc.len() ==> acc.push(xs[0])[i] == acc[i]);
            assert(distinct_seq(acc.push(xs[0])));
            lemma_add_unique_distinct(acc.push(xs[0]), xs.skip(1));
        }
    }
}

/// An element-for-element copy of a vector of strings.
pub fn clone_strings(v: &Vec<String>) -> (r: Vec<String>)
    ensures
        r.deep_view() == v.deep_view(),
{
    let n = v.len();
    let mut out: Vec<String> = Vec::new();
    let mut i: usize = 0;
    while i < n
        invariant
            n == v.len(),
            i <= n,
            out.deep_view() == v.deep_view().take(i as int),
        decreases n - i,
    {
        let c = v[i].clone();
        let ghost cv = c@;
        let ghost prev = out.deep_view();
        proof {
            assert(cv == v.deep_view()[i as int]);
        }
        out.push(c);
        proof {
            assert(out.deep_view() =~= prev.push(cv));
            assert(prev.push(cv) =~= v.deep_view().take(i as int + 1));
        }
        i += 1;
    }
    proof {
        assert(v.deep_view().take(n as int) =~= v.deep_view());
    }
    out
}

/// Appends to `acc` the elements of `xs` that it does not already hold.
pub fn append_unique(acc: &mut Vec<String>, xs: &Vec<String>)
    ensures
        final(acc).deep_view() == add_unique(old(acc).deep_view(), xs.deep_view()),
{
    let n = xs.len();
    proof {
        assert(xs.deep_view().take(0) =~= Seq::<Seq<char>>::empty());
        assert(add_unique(acc.deep_view(), Seq::<Seq<char>>::empty()) == acc.deep_view());
    }
    let mut i: usize = 0;
    while i < n
        invariant
            n == xs.len(),
            i <= n,
            acc.deep_view() == add_unique(old(acc).deep_view(), xs.deep_view().take(i as int)),
        decreases n - i,
    {
        proof {
            lemma_add_unique_push(
                old(acc).deep_view(),
                xs.deep_view().take(i as int),
                xs.deep_view()[i as int],
            );
            assert(xs.deep_view().take(i as int).push(xs.deep_view()[i as int]) =~= xs.deep_view()
                .take(i as int + 1));
        }
        if !contains_str(acc, xs[i].as_str()) {
            let ghost prev = acc.deep_view();
            acc.push(xs[i].clone());
            proof {
                assert(acc.deep_view() =~= prev.push(xs.deep_view()[i as int]));
            }
        }
        i += 1;
    }
    proof {
        assert(xs.deep_view().take(n as int) =~= xs.deep_view());
    }
}

/// Whether some element of `v` holds exactly the characters of `x`.
pub fn contains_str(v: &Vec<String>, x: &str) -> (r: bool)
    ensures
        r == v.deep_view().contains(x@),
{
    let n = v.len();
    let mut i: usize = 0;
    while i < n
        invariant
            n == v.len(),
            i <= n,
            forall|j: int| 0 <= j < i ==> v.deep_view()[j] != x@,
        decreases n - i,
    {
        if str_eq(v[i].as_str(), x) {
            proof {
                assert(v.deep_view()[i as int] == x@);
            }
            return true;
        }
        i += 1;
    }
    proof {
        if v.deep_view().contains(x@) {
            let j = choose|j: int| 0 <= j < v.deep_view().len() && v.deep_view()[j] == x@;
            assert(v.deep_view()[j] != x@);
        }
    }
    false
}

} // verus!
