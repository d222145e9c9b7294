use git2prompt::file_utils::get_language_alias;

#[test]
fn file_utils_test_get_language_alias() {
    assert_eq!(get_language_alias("main.rs"), "rust");
    assert_eq!(get_language_alias("index.js"), "javascript");
    assert_eq!(get_language_alias("app.jsx"), "jsx");
    assert_eq!(get_language_alias("component.tsx"), "tsx");
    assert_eq!(get_language_alias("script.py"), "python");
    assert_eq!(get_language_alias("Main.java"), "java");
    assert_eq!(get_language_alias("file.c"), "c");
    assert_eq!(get_language_alias("test.cpp"), "cpp");
    assert_eq!(get_language_alias("Program.cs"), "csharp");
    assert_eq!(get_language_alias("main.go"), "go");
    assert_eq!(get_language_alias("utils.rb"), "ruby");
    assert_eq!(get_language_alias("index.php"), "php");
    assert_eq!(get_language_alias("my_file.swift"), "swift");
    assert_eq!(get_language_alias("script.kt"), "kotlin");
    assert_eq!(get_language_alias("run.sh"), "bash");
    assert_eq!(get_language_alias("index.html"), "xml");
    assert_eq!(get_language_alias("style.css"), "css");
    assert_eq!(get_language_alias("variables.scss"), "scss");
    assert_eq!(get_language_alias("data.json"), "json");
    assert_eq!(get_language_alias("config.toml"), "toml");
    assert_eq!(get_language_alias("config.yaml"), "yaml");
    assert_eq!(get_language_alias("schema.sql"), "sql");
    assert_eq!(get_language_alias("README.md"), "markdown");
    assert_eq!(get_language_alias("log.txt"), "");
    assert_eq!(get_language_alias("unrecognized.xyz"), "");
    assert_eq!(get_language_alias("no_extension"), "");
}

#[test]
fn io_utils_test_get_language_alias() {
    assert_eq!(get_language_alias("main.rs"), "rust");
    assert_eq!(get_language_alias("index.js"), "javascript");
    assert_eq!(get_language_alias("app.jsx"), "jsx");
    assert_eq!(get_language_alias("component.tsx"), "tsx");
    assert_eq!(get_language_alias("script.py"), "python");
    assert_eq!(get_language_alias("Main.java"), "java");
    assert_eq!(get_language_alias("file.c"), "c");
    assert_eq!(get_language_alias("test.cpp"), "cpp");
    assert_eq!(get_language_alias("Program.cs"), "csharp");
    assert_eq!(get_language_alias("main.go"), "go");
    assert_eq!(get_language_alias("utils.rb"), "ruby");
    assert_eq!(get_language_alias("index.php"), "php");
    assert_eq!(get_language_alias("my_file.swift"), "swift");
    assert_eq!(get_language_alias("script.kt"), "kotlin");
    assert_eq!(get_language_alias("run.sh"), "bash");
    assert_eq!(get_language_alias("index.html"), "xml");
    assert_eq!(get_language_alias("style.css"), "css");
    assert_eq!(get_language_alias("variables.scss"), "scss");
    assert_eq!(get_language_alias("data.json"), "json");
    assert_eq!(get_language_alias("config.toml"), "toml");
    assert_eq!(get_language_alias("config.yaml"), "yaml");
    assert_eq!(get_language_alias("schema.sql"), "sql");
    assert_eq!(get_language_alias("README.md"), "markdown");
    assert_eq!(get_language_alias("log.txt"), "");
    assert_eq!(get_language_alias("unrecognized.xyz"), "");
    assert_eq!(get_language_alias("no_extension"), "");
}

#[test]
fn test_language_alias_ignores_case() {
    assert_eq!(get_language_alias("MAIN.RS"), "rust");
    assert_eq!(get_language_alias("Page.Html"), "xml");
    assert_eq!(get_language_alias("NOTES.MD"), "markdown");
}

#[test]
fn test_language_alias_dotfiles_and_nested_paths() {
    assert_eq!(get_language_alias(".gitignore"), "");
    assert_eq!(get_language_alias("src/deep/dir/mod.rs"), "rust");
    assert_eq!(get_language_alias("a.tar.gz"), "");
    assert_eq!(get_language_alias("dir.with.dots/file"), "");
}
