use git2prompt::ignore::ignore_due_to_pattern;
use git2prompt::ignore::is_valid_file;
use git2prompt::ignore::parse_ignore_patterns;
use git2prompt::processing::process_repository_files;
use git2prompt::processing::FileEntry;
use git2prompt::render::demote_markdown_headings;
use git2prompt::render::render_block;

fn fe(path: &str, content: &str) -> FileEntry {
    FileEntry { path: path.to_string(), content: content.to_string() }
}

fn strings(xs: &[&str]) -> Vec<String> {
    xs.iter().map(|s| s.to_string()).collect()
}

fn default_content(buckets: &[git2prompt::bucket::Bucket]) -> String {
    buckets
        .iter()
        .find(|b| b.name == "default")
        .map(|b| b.content.clone())
        .unwrap_or_default()
}

#[test]
fn test_process_repository_files() {
    let files = vec![
        fe("src/main.rs", "fn main() { println!(\"Hello\"); }"),
        fe("README.md", "# Test Repo"),
    ];
    let none: Option<String> = None;

    let with_headers =
        process_repository_files(&files, false, false, &Vec::new(), &Vec::new(), &none);
    let content_with_headers = default_content(&with_headers);
    assert!(content_with_headers.contains("## File: src/main.rs"));
    assert!(content_with_headers.contains("fn main() { println!(\"Hello\"); }"));
    assert!(content_with_headers.contains("## File: README.md"));
    assert!(content_with_headers.contains("# Test Repo"));

    let no_headers = process_repository_files(&files, true, false, &Vec::new(), &Vec::new(), &none);
    let content_no_headers = default_content(&no_headers);
    assert!(!content_no_headers.contains("## File: src/main.rs"));
    assert!(content_no_headers.contains("fn main() { println!(\"Hello\"); }"));
    assert!(!content_no_headers.contains("## File: README.md"));
    assert!(content_no_headers.contains("# Test Repo"));

    let merged = process_repository_files(&files, false, true, &Vec::new(), &Vec::new(), &none);
    let content_merged = default_content(&merged);
    assert!(content_merged.contains("### File: src/main.rs"));
    assert!(content_merged.contains("fn main() { println!(\"Hello\"); }"));
    assert!(content_merged.contains("### File: README.md"));
    assert!(content_merged.contains("# Test Repo"));

    let merged_no_headers =
        process_repository_files(&files, true, true, &Vec::new(), &Vec::new(), &none);
    let content_merged_no_headers = default_content(&merged_no_headers);
    assert!(!content_merged_no_headers.contains("### File: src/main.rs"));
    assert!(content_merged_no_headers.contains("fn main() { println!(\"Hello\"); }"));
    assert!(!content_merged_no_headers.contains("### File: README.md"));
    assert!(content_merged_no_headers.contains("# Test Repo"));
}

#[test]
fn test_ignore_patterns_cross_platform() {
    let files = vec![
        fe("data/secret.txt", "This is a secret."),
        fe("README.md", "# README"),
        fe("src/main.rs", "fn main() {}"),
    ];
    let ignore_patterns = strings(&["data/", "README.md", "src\\main.rs"]);
    let none: Option<String> = None;

    let buckets =
        process_repository_files(&files, true, true, &ignore_patterns, &Vec::new(), &none);
    let content = default_content(&buckets);

    assert!(!content.contains("secret.txt"));
    assert!(!content.contains("README.md"));
    assert!(!content.contains("main.rs"));
    assert!(content.is_empty());
}

#[test]
fn test_single_repository_blocks_exact() {
    let files = vec![
        fe("src/main.rs", "fn main() { println!(\"Hello\"); }"),
        fe("README.md", "# Test Repo"),
    ];
    let none: Option<String> = None;
    let buckets = process_repository_files(&files, false, false, &Vec::new(), &Vec::new(), &none);
    assert_eq!(buckets.len(), 1);
    assert_eq!(buckets[0].name, "default");
    let expected = "## File: src/main.rs\n```rust\nfn main() { println!(\"Hello\"); }\n```\n\n## File: README.md\nNote: Markdown headings in this file have been demoted.\n`````markdown\n### Test Repo\n`````\n\n";
    assert_eq!(buckets[0].content, expected);
}

#[test]
fn test_ignored_file_content_absent_everywhere() {
    let files = vec![fe("data/secret.txt", "top secret"), fe("src/lib.rs", "pub fn f() {}")];
    let patterns = strings(&["data/"]);
    let splits = strings(&["src", "data"]);
    let none: Option<String> = None;
    let buckets = process_repository_files(&files, false, false, &patterns, &splits, &none);
    for b in &buckets {
        assert!(!b.content.contains("top secret"));
        assert!(!b.content.contains("secret.txt"));
    }
}

#[test]
fn test_recursive_split_buckets() {
    let files = vec![
        fe("docs/info.md", "# Info"),
        fe("docs/internal/deep.md", "# Deep"),
        fe("README.md", "# Readme"),
    ];
    let splits = strings(&["docs"]);
    let none: Option<String> = None;
    let buckets = process_repository_files(&files, false, false, &Vec::new(), &splits, &none);
    assert_eq!(buckets.len(), 2);
    assert_eq!(buckets[0].name, "default");
    assert_eq!(buckets[1].name, "docs");
    assert!(buckets[1].content.contains("## File: docs/info.md"));
    assert!(buckets[1].content.contains("## File: docs/internal/deep.md"));
    assert!(!buckets[1].content.contains("## File: README.md"));
    assert!(buckets[0].content.contains("## File: README.md"));
    assert!(!buckets[0].content.contains("docs/info.md"));
    assert!(!buckets[0].content.contains("docs/internal/deep.md"));
}

#[test]
fn test_walker_is_deterministic() {
    let files = vec![fe("a.rs", "x"), fe("docs/b.md", "# y"), fe("c.txt", "z")];
    let patterns = strings(&["*.txt"]);
    let splits = strings(&["docs"]);
    let none: Option<String> = None;
    let first = process_repository_files(&files, false, true, &patterns, &splits, &none);
    let second = process_repository_files(&files, false, true, &patterns, &splits, &none);
    assert_eq!(first.len(), second.len());
    for (x, y) in first.iter().zip(second.iter()) {
        assert_eq!(x.name, y.name);
        assert_eq!(x.content, y.content);
    }
}

#[test]
fn test_folder_restriction() {
    let files = vec![fe("src/a.rs", "a"), fe("other/b.rs", "b")];
    let folder = Some("src".to_string());
    let buckets = process_repository_files(&files, false, false, &Vec::new(), &Vec::new(), &folder);
    let content = default_content(&buckets);
    assert!(content.contains("src/a.rs"));
    assert!(!content.contains("other/b.rs"));
}

#[test]
fn test_header_depth_by_mode() {
    let single = render_block("src/main.rs", "fn main() {}", false, false);
    let merged = render_block("src/main.rs", "fn main() {}", false, true);
    assert!(single.starts_with("## File: src/main.rs\n"));
    assert!(merged.starts_with("### File: src/main.rs\n"));
    assert_eq!(
        &single["## File: src/main.rs\n".len()..],
        &merged["### File: src/main.rs\n".len()..]
    );
}

#[test]
fn test_markdown_demotion_levels() {
    assert_eq!(demote_markdown_headings("# A"), "### A");
    assert_eq!(demote_markdown_headings("## B"), "#### B");
    assert_eq!(demote_markdown_headings("# A\nplain\n## B"), "### A\nplain\n#### B");
    assert_eq!(demote_markdown_headings("no heading"), "no heading");
    assert_eq!(demote_markdown_headings("  # indented"), "##  # indented");
    assert_eq!(demote_markdown_headings("line\r\n# X\r\n"), "line\n### X");
    assert_eq!(demote_markdown_headings(""), "");
}

#[test]
fn test_ignore_globs() {
    let star = strings(&["src/*.rs"]);
    assert!(ignore_due_to_pattern("src/main.rs", &star));
    assert!(!ignore_due_to_pattern("src/sub/x.rs", &star));

    let double_star = strings(&["**/*.tmp"]);
    assert!(ignore_due_to_pattern("a/b/c.tmp", &double_star));
    assert!(!ignore_due_to_pattern("a/b/c.rs", &double_star));

    let anchored = strings(&["/build"]);
    assert!(ignore_due_to_pattern("build/out.o", &anchored));
    assert!(!ignore_due_to_pattern("a/build/out.o", &anchored));

    let unanchored = strings(&["data"]);
    assert!(ignore_due_to_pattern("a/data/x.bin", &unanchored));
    assert!(ignore_due_to_pattern("data/x.bin", &unanchored));
    assert!(!ignore_due_to_pattern("database.txt", &unanchored));

    let dir_only = strings(&["internal/"]);
    assert!(ignore_due_to_pattern("docs/internal/deep.md", &dir_only));
    assert!(ignore_due_to_pattern("internal/x.md", &dir_only));
    assert!(!ignore_due_to_pattern("internal", &dir_only));

    let starred_dir = strings(&["*.d/"]);
    assert!(ignore_due_to_pattern("build.d/obj.txt", &starred_dir));
    assert!(!ignore_due_to_pattern("build.d", &starred_dir));
}

#[test]
fn test_split_folder_with_backslash_separator() {
    let files = vec![fe("docs/sub/a.md", "# A"), fe("other.rs", "x")];
    let splits = strings(&["docs\\sub"]);
    let none: Option<String> = None;
    let buckets = process_repository_files(&files, true, false, &Vec::new(), &splits, &none);
    assert_eq!(buckets.len(), 2);
    assert_eq!(buckets[1].name, "docs\\sub");
    assert!(buckets[1].content.contains("# A"));
    assert!(!buckets[0].content.contains("# A"));
}

#[test]
fn test_ignore_negation_last_match_wins() {
    let patterns = strings(&["*.md", "!README.md"]);
    assert!(ignore_due_to_pattern("CHANGES.md", &patterns));
    assert!(!ignore_due_to_pattern("README.md", &patterns));

    let reversed = strings(&["!README.md", "*.md"]);
    assert!(ignore_due_to_pattern("README.md", &reversed));
}

#[test]
fn test_git_directory_and_binary_extensions_always_excluded() {
    let empty: Vec<String> = Vec::new();
    assert!(!is_valid_file(".git/config", &empty));
    assert!(!is_valid_file("x/.git/y", &empty));
    assert!(is_valid_file(".gitignore", &empty));
    assert!(!is_valid_file("img.png", &empty));
    assert!(!is_valid_file("a/b.zip", &empty));
    assert!(!is_valid_file("lib.so", &empty));
    assert!(is_valid_file("src/ok.rs", &empty));
}

#[test]
fn test_parse_ignore_patterns() {
    let parsed = parse_ignore_patterns("a\n\n  b \n\t\nsrc/*.rs\r\n");
    assert_eq!(parsed, strings(&["a", "b", "src/*.rs"]));
    let empty = parse_ignore_patterns("");
    assert!(empty.is_empty());
}

#[test]
fn test_combine_pattern_sources_order() {
    let file_patterns = strings(&["*.md"]);
    let inline = strings(&["!README.md"]);
    let combined = git2prompt::ignore::combine_pattern_sources(&file_patterns, &inline);
    assert_eq!(combined, strings(&["*.md", "!README.md"]));
    assert!(!ignore_due_to_pattern("README.md", &combined));
    assert!(ignore_due_to_pattern("OTHER.md", &combined));
}
