use git2prompt::bucket::Bucket;
use git2prompt::config::Config;
use git2prompt::processing::collect_results;
use git2prompt::processing::handle_results;
use git2prompt::processing::pr_repo_name;
use git2prompt::processing::pr_temp_path;
use git2prompt::repository::Repository;

fn bucket(name: &str, content: &str) -> Bucket {
    Bucket { name: name.to_string(), content: content.to_string() }
}

fn repo_with(name: &str, buckets: Vec<Bucket>) -> Repository {
    Repository {
        url: "local".to_string(),
        name: name.to_string(),
        path: format!("/tmp/{}", name),
        content: Some(buckets),
    }
}

#[test]
fn test_repository_new() {
    let r = Repository::new("./temp_repos", "owner/repo");
    assert_eq!(r.url, "https://github.com/owner/repo.git");
    assert_eq!(r.name, "owner-repo");
    assert_eq!(r.path, "./temp_repos/owner-repo");
    assert!(!r.has_content());
}

#[test]
fn test_repository_from_local_path() {
    let r = Repository::from_local_path("/home/user/project");
    assert_eq!(r.url, "local");
    assert_eq!(r.name, "project");
    assert_eq!(r.path, "/home/user/project");
    assert!(!r.has_content());

    let fallback = Repository::from_local_path("/ends/with/slash/");
    assert_eq!(fallback.name, "local-repo");

    let mut filled = Repository::from_local_path("/a/b");
    filled.content = Some(vec![bucket("default", "x")]);
    assert!(filled.has_content());
}

#[test]
fn test_handle_results_separate_mode() {
    let repos = vec![repo_with("alpha", vec![bucket("default", "alpha body\n")])];
    let artifacts = handle_results(&repos, false, "./output");
    assert_eq!(artifacts.len(), 1);
    assert_eq!(artifacts[0].path, "./output/alpha_processed.md");
    assert_eq!(artifacts[0].content, "# Repository: alpha\nalpha body\n");
}

#[test]
fn test_handle_results_separate_split_buckets() {
    let repos = vec![repo_with(
        "alpha",
        vec![bucket("default", "main\n"), bucket("docs/sub", "docs body\n"), bucket("empty", "")],
    )];
    let artifacts = handle_results(&repos, false, "./out");
    assert_eq!(artifacts.len(), 2);
    assert_eq!(artifacts[0].path, "./out/alpha_processed.md");
    assert_eq!(artifacts[1].path, "./out/alpha_docs_sub_processed.md");
    assert_eq!(artifacts[1].content, "# Repository: alpha (docs/sub)\ndocs body\n");
}

#[test]
fn test_handle_results_separate_skips_empty_default() {
    let repos = vec![repo_with("quiet", vec![bucket("default", "")])];
    let artifacts = handle_results(&repos, false, "./out");
    assert!(artifacts.is_empty());
}

#[test]
fn test_merge_mode_combined_artifact() {
    let repos = vec![
        repo_with("one", vec![bucket("default", "first\n")]),
        repo_with("two", vec![bucket("default", "second\n")]),
    ];
    let artifacts = handle_results(&repos, true, "./output");
    assert_eq!(artifacts.len(), 1);
    assert_eq!(artifacts[0].path, "./output/all_repos_processed.md");
    let expected = "# Merged Repository Contents\n## Repository: one\nfirst\n## Repository: two\nsecond\n";
    assert_eq!(artifacts[0].content, expected);
    let one = artifacts[0].content.find("## Repository: one").unwrap();
    let two = artifacts[0].content.find("## Repository: two").unwrap();
    assert!(one < two);
}

#[test]
fn test_merge_mode_split_bucket_artifacts() {
    let repos = vec![
        repo_with("one", vec![bucket("default", "a\n"), bucket("docs", "one docs\n")]),
        repo_with("two", vec![bucket("default", "b\n"), bucket("docs", "")]),
    ];
    let artifacts = handle_results(&repos, true, "./out");
    assert_eq!(artifacts.len(), 2);
    assert_eq!(artifacts[1].path, "./out/all_repos_docs_processed.md");
    assert_eq!(artifacts[1].content, "## Repository: one\none docs\n");
}

#[test]
fn test_merge_mode_no_repositories() {
    let repos: Vec<Repository> = Vec::new();
    let artifacts = handle_results(&repos, true, "./out");
    assert!(artifacts.is_empty());
}

#[test]
fn test_collect_results_all_ok() {
    let results = vec![Ok(repo_with("a", vec![])), Ok(repo_with("b", vec![]))];
    let collected = collect_results(results).unwrap();
    assert_eq!(collected.len(), 2);
    assert_eq!(collected[0].name, "a");
    assert_eq!(collected[1].name, "b");
}

#[test]
fn test_collect_results_first_error_wins() {
    let results = vec![
        Ok(repo_with("a", vec![])),
        Err("boom".to_string()),
        Err("later".to_string()),
    ];
    let err = collect_results(results).unwrap_err();
    assert_eq!(err, "Failed to process a repository: boom");
}

#[test]
fn test_repository_describe() {
    let r = Repository::new("./temp_repos", "owner/repo");
    assert_eq!(
        r.describe(),
        "Repository(name: owner-repo, url: https://github.com/owner/repo.git, path: ./temp_repos/owner-repo, has_content: false)"
    );
    let filled = repo_with("x", vec![bucket("default", "")]);
    assert_eq!(
        filled.describe(),
        "Repository(name: x, url: local, path: /tmp/x, has_content: true)"
    );
}

#[test]
fn test_pr_helpers() {
    assert_eq!(pr_repo_name("https://github.com/owner/repo.git"), "owner/repo");
    assert_eq!(pr_repo_name("owner/repo"), "owner/repo");
    assert_eq!(pr_temp_path("./temp_repos/owner-repo", 42), "./temp_repos/owner-repo/pr-42");
    assert_eq!(pr_temp_path("/x", 0), "/x/pr-0");
    assert_eq!(pr_temp_path("/x", 1234567890), "/x/pr-1234567890");
}

#[test]
fn test_config_merge_with_cli() {
    let config = Config {
        ignore_patterns: Some(vec!["*.log".to_string()]),
        split_folders: Some(vec!["docs".to_string(), "src".to_string()]),
        no_headers: Some(true),
        ignore_file: Some(".customignore".to_string()),
    };
    let cli_splits = vec!["src".to_string(), "tests".to_string()];
    let opts = config.merge_with_cli(false, None, &cli_splits);
    assert!(opts.no_headers);
    assert_eq!(opts.ignore_file.as_deref(), Some(".customignore"));
    assert_eq!(opts.ignore_patterns, vec!["*.log".to_string()]);
    assert_eq!(
        opts.split_folders,
        vec!["docs".to_string(), "src".to_string(), "tests".to_string()]
    );

    let override_opts = config.merge_with_cli(false, Some(".cliignore"), &Vec::new());
    assert_eq!(override_opts.ignore_file.as_deref(), Some(".cliignore"));

    let defaults = Config::default();
    let plain = defaults.merge_with_cli(false, None, &Vec::new());
    assert!(!plain.no_headers);
    assert!(plain.ignore_file.is_none());
    assert!(plain.ignore_patterns.is_empty());
    assert!(plain.split_folders.is_empty());
}
