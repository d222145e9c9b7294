//! Rendering one file into its annotated block: an optional `File:`
//! header whose depth depends on the aggregation mode, then the content
//! inside a fence. Markdown content has its headings demoted and is
//! wrapped in a five-backtick fence behind a fixed advisory note, so it
//! cannot collide with the aggregator's own headers or with embedded
//! triple-backtick fences.

use vstd::prelude::*;

use crate::file_utils::alias_of;
use crate::file_utils::ext_of;
use crate::file_utils::get_language_alias;
use crate::text::find_nl;
use crate::text::find_nl_from;
use crate::text::is_space;
use crate::text::is_space_exec;
use crate::text::str_eq;

verus! {

/// Whether the line's leading whitespace is followed by `#`.
pub open spec fn starts_hash_after_ws(line: Seq<char>) -> bool
    decreases line.len(),
{
    if line.len() == 0 {
        false
    } else if line[0] == '#' {
        true
    } else if is_space(line[0]) {
        starts_hash_after_ws(line.skip(1))
    } else {
        false
    }
}

/// One line of Markdown with its heading, if any, demoted two levels.
pub open spec fn demote_line(line: Seq<char>) -> Seq<char> {
    if starts_hash_after_ws(line) {
        "##"@ + line
    } else {
        line
    }
}

/// The line with a trailing carriage return removed.
pub open spec fn strip_cr(line: Seq<char>) -> Seq<char> {
    if line.len() > 0 && line[line.len() - 1] == '\r' {
        line.drop_last()
    } else {
        line
    }
}

/// The whole text, line by line, with headings demoted. Lines are
/// delimited as `str::lines` sees them: split at `\n`, a preceding `\r`
/// dropped, and no empty line after a final newline.
pub open spec fn demote_md(s: Seq<char>) -> Seq<char>
    decreases s.len(),
    via demote_md_decreases
{
    if s.len() == 0 {
        s
    } else {
        let n = find_nl(s);
        if n == s.len() {
            demote_line(s)
        } else {
            let line = demote_line(strip_cr(s.take(n)));
            if n == s.len() - 1 {
                line
            } else {
                line + "\n"@ + demote_md(s.skip(n + 1))
            }
        }
    }
}

#[via_fn]
proof fn demote_md_decreases(s: Seq<char>) {
    if s.len() > 0 {
        crate::text::lemma_find_nl(s);
    }
}

/// Whether the characters of `s` in `[a, b)` form a line whose leading
/// whitespace is followed by `#`.
fn line_starts_hash(s: &str, a: usize, b: usize) -> (r: bool)
    requires
        a <= b <= s@.len(),
    ensures
        r == starts_hash_after_ws(s@.subrange(a as int, b as int)),
{
    let mut i = a;
    while i < b
        invariant
            a <= i <= b <= s@.len(),
            starts_hash_after_ws(s@.subrange(a as int, b as int)) == starts_hash_after_ws(
                s@.subrange(i as int, b as int),
            ),
        decreases b - i,
    {
        let c = s.get_char(i);
        proof {
            assert(s@.subrange(i as int, b as int)[0] == s@[i as int]);
            assert(s@.subrange(i as int, b as int).skip(1) =~= s@.subrange(i as int + 1, b as int));
        }
        if c == '#' {
            return true;
        }
        if !is_space_exec(c) {
            return false;
        }
        i += 1;
    }
    proof {
        assert(s@.subrange(b as int, b as int).len() == 0);
    }
    false
}

/// Rewrites Markdown so that every heading is demoted two levels.
pub fn demote_markdown_headings(s: &str) -> (r: String)
    ensures
        r@ == demote_md(s@),
{
    let slen = s.unicode_len();
    let mut out = String::new();
    demote_from(s, 0, slen, &mut out);
    proof {
        assert(s@.skip(0) =~= s@);
    }
    out
}

fn demote_from(s: &str, i: usize, slen: usize, out: &mut String)
    requires
        slen == s@.len(),
        i <= slen,
    ensures
        final(out)@ == old(out)@ + demote_md(s@.skip(i as int)),
    decreases slen - i,
{
    if i == slen {
        proof {
            assert(s@.skip(i as int).len() == 0);
            assert(out@ =~= out@ + demote_md(s@.skip(i as int)));
        }
        return;
    }
    let j = find_nl_from(s, i, slen);
    let line_end = if j < slen && j > i && s.get_char(j - 1) == '\r' {
        j - 1
    } else {
        j
    };
    proof {
        assert(s@.skip(i as int).take(find_nl(s@.skip(i as int))) =~= s@.subrange(
            i as int,
            j as int,
        ));
        if j < slen {
            assert(strip_cr(s@.subrange(i as int, j as int)) =~= s@.subrange(
                i as int,
                line_end as int,
            ));
        } else {
            assert(s@.skip(i as int) =~= s@.subrange(i as int, j as int));
        }
    }
    if line_starts_hash(s, i, line_end) {
        out.append("##");
    }
    out.append(s.substring_char(i, line_end));
    if j == slen {
        proof {
            assert(out@ =~= old(out)@ + demote_md(s@.skip(i as int)));
        }
        return;
    }
    if j + 1 == slen {
        proof {
            assert(out@ =~= old(out)@ + demote_md(s@.skip(i as int)));
        }
        return;
    }
    out.append("\n");
    demote_from(s, j + 1, slen, out);
    proof {
        assert(s@.skip(i as int).skip(find_nl(s@.skip(i as int)) + 1) =~= s@.skip(j as int + 1));
        assert(out@ =~= old(out)@ + demote_md(s@.skip(i as int)));
    }
}

/// The `File:` header line: depth two in single-artifact mode, depth
/// three in merge mode, nothing when headers are off.
pub open spec fn header_of(path: Seq<char>, no_headers: bool, merge: bool) -> Seq<char> {
    if no_headers {
        Seq::empty()
    } else if merge {
        "### File: "@ + path + "\n"@
    } else {
        "## File: "@ + path + "\n"@
    }
}

/// A file's rendered block: header, then fenced content. Markdown gets
/// the advisory note, a five-backtick fence, and demoted headings;
/// everything else a three-backtick fence tagged with its language.
pub open spec fn block_of(path: Seq<char>, content: Seq<char>, no_headers: bool, merge: bool) -> Seq<
    char,
> {
    let alias = alias_of(ext_of(path));
    let body: Seq<char> = if alias == "markdown"@ {
        "Note: Markdown headings in this file have been demoted.\n"@ + "`````markdown\n"@
            + demote_md(content) + "\n`````\n\n"@
    } else {
        "```"@ + alias + "\n"@ + content + "\n```\n\n"@
    };
    header_of(path, no_headers, merge) + body
}

/// Renders one file into its block.
pub fn render_block(path: &str, content: &str, no_headers: bool, merge_files: bool) -> (r: String)
    ensures
        r@ == block_of(path@, content@, no_headers, merge_files),
{
    let mut out = String::new();
    if !no_headers {
        if merge_files {
            out.append("### File: ");
        } else {
            out.append("## File: ");
        }
        out.append(path);
        out.append("\n");
    }
    let alias = get_language_alias(path);
    if str_eq(alias.as_str(), "markdown") {
        out.append("Note: Markdown headings in this file have been demoted.\n");
        out.append("`````markdown\n");
        let demoted = demote_markdown_headings(content);
        out.append(demoted.as_str());
        out.append("\n`````\n\n");
    } else {
        out.append("```");
        out.append(alias.as_str());
        out.append("\n");
        out.append(content);
        out.append("\n```\n\n");
    }
    proof {
        assert(out@ =~= block_of(path@, content@, no_headers, merge_files));
    }
    out
}

/// Count of the `#` characters the line begins with: its heading level.
pub open spec fn hash_prefix_len(s: Seq<char>) -> int
    decreases s.len(),
{
    if s.len() > 0 && s[0] == '#' {
        1 + hash_prefix_len(s.skip(1))
    } else {
        0
    }
}

/// Demotion adds exactly two to the heading level of a line that begins
/// with `#`.
pub proof fn lemma_demote_heading_line(line: Seq<char>)
    requires
        line.len() > 0,
        line[0] == '#',
    ensures
        hash_prefix_len(demote_line(line)) == hash_prefix_len(line) + 2,
{
    reveal_strlit("##");
    assert(starts_hash_after_ws(line));
    let d = "##"@ + line;
    assert(d.len() == line.len() + 2);
    assert(d[0] == '#');
    assert(d.skip(1) =~= seq!['#'] + line);
    assert((seq!['#'] + line)[0] == '#');
    assert((seq!['#'] + line).skip(1) =~= line);
    assert(hash_prefix_len(d) == 1 + hash_prefix_len(seq!['#'] + line));
    assert(hash_prefix_len(seq!['#'] + line) == 1 + hash_prefix_len(line));
}

/// A line with no `#` after its leading whitespace is unchanged by
/// demotion.
pub proof fn lemma_demote_non_heading_line(line: Seq<char>)
    requires
        !starts_hash_after_ws(line),
    ensures
        demote_line(line) == line,
{
}

/// For one and the same file, headers enabled, the single-artifact block
/// starts with a depth-two `File:` header and the merge-mode block with
/// a depth-three one; everything after the header is identical.
pub proof fn lemma_header_depth_by_mode(path: Seq<char>, content: Seq<char>)
    ensures
        block_of(path, content, false, false).take(("## File: "@ + path + "\n"@).len() as int)
            == "## File: "@ + path + "\n"@,
        block_of(path, content, false, true).take(("### File: "@ + path + "\n"@).len() as int)
            == "### File: "@ + path + "\n"@,
        block_of(path, content, false, false).skip(("## File: "@ + path + "\n"@).len() as int)
            == block_of(path, content, false, true).skip(("### File: "@ + path + "\n"@).len()
            as int),
{
    let h2 = "## File: "@ + path + "\n"@;
    let h3 = "### File: "@ + path + "\n"@;
    assert(block_of(path, content, false, false).take(h2.len() as int) =~= h2);
    assert(block_of(path, content, false, true).take(h3.len() as int) =~= h3);
    assert(block_of(path, content, false, false).skip(h2.len() as int) =~= block_of(
        path,
        content,
        false,
        true,
    ).skip(h3.len() as int));
}

} // verus!
