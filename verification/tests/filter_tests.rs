use proompt::config::RunConfiguration;
use proompt::filter::file_extension;
use proompt::filter::should_include;

fn config_with(extensions: Vec<&str>, ignore_patterns: Vec<&str>) -> RunConfiguration {
    RunConfiguration {
        extensions: extensions.into_iter().map(|s| s.to_owned()).collect(),
        include_hidden: false,
        ignore_gitignore: false,
        ignore_patterns: ignore_patterns.into_iter().map(|s| s.to_owned()).collect(),
        max_file_size: None,
        max_lines: None,
        add_metadata: false,
    }
}

#[test]
fn extension_of_plain_and_nested_names() {
    assert_eq!(file_extension("a/b.txt"), Some("txt".to_owned()));
    assert_eq!(file_extension("one.py"), Some("py".to_owned()));
    assert_eq!(file_extension("a.b.c"), Some("c".to_owned()));
    assert_eq!(file_extension("noext"), None);
    assert_eq!(file_extension("dir.d/file"), None);
}

#[test]
fn extension_of_dotfiles() {
    assert_eq!(file_extension(".hidden"), None);
    assert_eq!(file_extension(".hidden.txt"), Some("txt".to_owned()));
    assert_eq!(file_extension("sub/.gitignore"), None);
}

#[test]
fn no_rules_include_everything() {
    let cfg = config_with(vec![], vec![]);
    assert_eq!(should_include("anything.txt", &cfg), Some(true));
    assert_eq!(should_include("no_extension", &cfg), Some(true));
}

#[test]
fn dotfiles_pass_the_filter_itself() {
    // Hidden-entry suppression belongs to the traversal, never to the
    // filter: a dotfile reaching the filter is kept by it.
    let cfg = config_with(vec![], vec![]);
    assert_eq!(should_include(".hidden.txt", &cfg), Some(true));
}

#[test]
fn ignore_glob_suppresses_matching_paths() {
    let cfg = config_with(vec![], vec!["*.txt"]);
    assert_eq!(should_include("file_to_ignore.txt", &cfg), Some(false));
    assert_eq!(should_include("file_to_include.rs", &cfg), Some(true));
}

#[test]
fn ignore_glob_on_basename_pattern() {
    let cfg = config_with(vec![], vec!["file_to_ignore.*"]);
    assert_eq!(should_include("file_to_ignore.txt", &cfg), Some(false));
    assert_eq!(should_include("file_to_include.txt", &cfg), Some(true));
}

#[test]
fn extension_allow_list_selects_extensions() {
    let cfg = config_with(vec!["py", "md"], vec![]);
    assert_eq!(should_include("one.py", &cfg), Some(true));
    assert_eq!(should_include("two/two.py", &cfg), Some(true));
    assert_eq!(should_include("three.md", &cfg), Some(true));
    assert_eq!(should_include("one.txt", &cfg), Some(false));
    assert_eq!(should_include("two/two.txt", &cfg), Some(false));
    assert_eq!(should_include("no_extension", &cfg), Some(false));
}

#[test]
fn extension_list_is_case_sensitive() {
    let cfg = config_with(vec!["py"], vec![]);
    assert_eq!(should_include("one.PY", &cfg), Some(false));
}

#[test]
fn rules_combine_with_and() {
    let cfg = config_with(vec!["py", "txt"], vec!["two*"]);
    assert_eq!(should_include("one.py", &cfg), Some(true));
    assert_eq!(should_include("two.py", &cfg), Some(false));
    assert_eq!(should_include("one.md", &cfg), Some(false));
}

#[test]
fn malformed_pattern_is_reported() {
    let cfg = config_with(vec![], vec!["a***"]);
    assert_eq!(should_include("anything", &cfg), None);
}

#[test]
fn malformed_pattern_after_a_match_is_never_reached() {
    let cfg = config_with(vec![], vec!["*.txt", "a***"]);
    assert_eq!(should_include("note.txt", &cfg), Some(false));
    assert_eq!(should_include("note.rs", &cfg), None);
}
