//! File-extension handling: extracting the extension of a relative path
//! and mapping it, case-insensitively, to a syntax-highlighting language
//! tag.

use vstd::prelude::*;

use crate::text::eq_lower;
use crate::text::find_last;
use crate::text::find_last_char;
use crate::text::lemma_find_last;
use crate::text::lower;

verus! {

/// The extension of the final path component: the characters after the
/// last `.`, provided that dot sits strictly inside the final component
/// (so `.gitignore` and dotless names have no extension).
pub open spec fn ext_of(p: Seq<char>) -> Seq<char> {
    let dot = find_last(p, '.');
    let slash = find_last(p, '/');
    if dot > slash + 1 {
        p.subrange(dot + 1, p.len() as int)
    } else {
        Seq::empty()
    }
}

/// The extension of `path`, or the empty string if it has none.
pub fn extension_of(path: &str) -> (r: &str)
    ensures
        r@ == ext_of(path@),
{
    let plen = path.unicode_len();
    let dot = find_last_char(path, plen, '.');
    let slash = find_last_char(path, plen, '/');
    proof {
        lemma_find_last(path@, '.');
        lemma_find_last(path@, '/');
    }
    proof {
        reveal_strlit("");
        assert(""@ =~= Seq::<char>::empty());
    }
    match dot {
        None => "",
        Some(d) => {
            let anchored = match slash {
                None => d > 0,
                Some(s) => d > s + 1,
            };
            if anchored {
                path.substring_char(d + 1, plen)
            } else {
                ""
            }
        },
    }
}

/// The highlighting tag for a lowercased extension; the empty sequence
/// when the extension is unknown or deliberately untagged.
pub open spec fn alias_of(ext: Seq<char>) -> Seq<char> {
    let e = lower(ext);
    if e == "sh"@ || e == "bash"@ {
        "bash"@
    } else if e == "c"@ {
        "c"@
    } else if e == "cc"@ || e == "cxx"@ || e == "c++"@ || e == "cpp"@ {
        "cpp"@
    } else if e == "cs"@ {
        "csharp"@
    } else if e == "css"@ {
        "css"@
    } else if e == "go"@ {
        "go"@
    } else if e == "html"@ || e == "htm"@ {
        "xml"@
    } else if e == "java"@ {
        "java"@
    } else if e == "js"@ || e == "cjs"@ || e == "mjs"@ {
        "javascript"@
    } else if e == "json"@ {
        "json"@
    } else if e == "jsx"@ {
        "jsx"@
    } else if e == "kt"@ || e == "kts"@ {
        "kotlin"@
    } else if e == "md"@ || e == "markdown"@ {
        "markdown"@
    } else if e == "php"@ {
        "php"@
    } else if e == "py"@ {
        "python"@
    } else if e == "rb"@ {
        "ruby"@
    } else if e == "rs"@ {
        "rust"@
    } else if e == "scss"@ {
        "scss"@
    } else if e == "sql"@ {
        "sql"@
    } else if e == "swift"@ {
        "swift"@
    } else if e == "toml"@ {
        "toml"@
    } else if e == "ts"@ || e == "cts"@ || e == "mts"@ {
        "typescript"@
    } else if e == "tsx"@ {
        "tsx"@
    } else if e == "yaml"@ || e == "yml"@ {
        "yaml"@
    } else {
        Seq::empty()
    }
}

/// Maps a path's extension to its highlighting-language tag, ignoring
/// the extension's case; unknown extensions give the empty string.
pub fn get_language_alias(path: &str) -> (r: String)
    ensures
        r@ == alias_of(ext_of(path@)),
{
    let ext = extension_of(path);
    if eq_lower(ext, "sh") || eq_lower(ext, "bash") {
        String::from_str("bash")
    } else if eq_lower(ext, "c") {
        String::from_str("c")
    } else if eq_lower(ext, "cc") || eq_lower(ext, "cxx") || eq_lower(ext, "c++") || eq_lower(
        ext,
        "cpp",
    ) {
        String::from_str("cpp")
    } else if eq_lower(ext, "cs") {
        String::from_str("csharp")
    } else if eq_lower(ext, "css") {
        String::from_str("css")
    } else if eq_lower(ext, "go") {
        String::from_str("go")
    } else if eq_lower(ext, "html") || eq_lower(ext, "htm") {
        String::from_str("xml")
    } else if eq_lower(ext, "java") {
        String::from_str("java")
    } else if eq_lower(ext, "js") || eq_lower(ext, "cjs") || eq_lower(ext, "mjs") {
        String::from_str("javascript")
    } else if eq_lower(ext, "json") {
        String::from_str("json")
    } else if eq_lower(ext, "jsx") {
        String::from_str("jsx")
    } else if eq_lower(ext, "kt") || eq_lower(ext, "kts") {
        String::from_str("kotlin")
    } else if eq_lower(ext, "md") || eq_lower(ext, "markdown") {
        String::from_str("markdown")
    } else if eq_lower(ext, "php") {
        String::from_str("php")
    } else if eq_lower(ext, "py") {
        String::from_str("python")
    } else if eq_lower(ext, "rb") {
        String::from_str("ruby")
    } else if eq_lower(ext, "rs") {
        String::from_str("rust")
    } else if eq_lower(ext, "scss") {
        String::from_str("scss")
    } else if eq_lower(ext, "sql") {
        String::from_str("sql")
    } else if eq_lower(ext, "swift") {
        String::from_str("swift")
    } else if eq_lower(ext, "toml") {
        String::from_str("toml")
    } else if eq_lower(ext, "ts") || eq_lower(ext, "cts") || eq_lower(ext, "mts") {
        String::from_str("typescript")
    } else if eq_lower(ext, "tsx") {
        String::from_str("tsx")
    } else if eq_lower(ext, "yaml") || eq_lower(ext, "yml") {
        String::from_str("yaml")
    } else {
        proof {
            assert(alias_of(ext_of(path@)) =~= Seq::<char>::empty());
        }
        String::new()
    }
}

} // verus!
