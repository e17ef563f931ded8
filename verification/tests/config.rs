use tweet_memo::config::{answer_or_default, expand_home, Config};

#[test]
fn test_default_config() {
    let config = Config::with_directory(".".to_string());
    assert!(!config.target_directory.is_empty());
    assert_eq!(config.filename_format, "YYYY-MM-DD.md");
    assert_eq!(config.entry_format, "[HH:mm:ss] {text}");
    assert_eq!(config.target_section, "### Tweets");
}

#[test]
fn test_expand_path_with_tilde() {
    let config = Config::with_directory(".".to_string());
    let path = "~/test/path";
    let expanded = config.expand_path(path);

    if let Some(home_dir) = dirs::home_dir() {
        let expected = format!("{}/test/path", home_dir.to_string_lossy());
        assert_eq!(expanded, expected);
    }
}

#[test]
fn test_expand_path_without_tilde() {
    let config = Config::with_directory(".".to_string());
    let path = "/absolute/path";
    let expanded = config.expand_path(path);
    assert_eq!(expanded, path);
}

#[test]
fn with_directory_keeps_the_directory() {
    let config = Config::with_directory("~/notes".to_string());
    assert_eq!(config.target_directory, "~/notes");
}

#[test]
fn clone_copies_every_field() {
    let config = Config {
        target_directory: "a".to_string(),
        filename_format: "b".to_string(),
        entry_format: "c".to_string(),
        target_section: "d".to_string(),
    };
    let copy = config.clone();
    assert_eq!(copy.target_directory, "a");
    assert_eq!(copy.filename_format, "b");
    assert_eq!(copy.entry_format, "c");
    assert_eq!(copy.target_section, "d");
}

#[test]
fn expand_home_replaces_leading_alias() {
    assert_eq!(expand_home("~/test/path", Some("/home/ada")), "/home/ada/test/path");
    assert_eq!(expand_home("~/", Some("/home/ada")), "/home/ada/");
    assert_eq!(expand_home("~/~/x", Some("/h")), "/h/~/x");
    assert_eq!(expand_home("~/x", Some("")), "/x");
}

#[test]
fn expand_home_leaves_other_paths() {
    assert_eq!(expand_home("/absolute/path", Some("/home/ada")), "/absolute/path");
    assert_eq!(expand_home("~", Some("/home/ada")), "~");
    assert_eq!(expand_home("~ada/x", Some("/home/ada")), "~ada/x");
    assert_eq!(expand_home("a/~/b", Some("/home/ada")), "a/~/b");
    assert_eq!(expand_home(" ~/x", Some("/home/ada")), " ~/x");
    assert_eq!(expand_home("", Some("/home/ada")), "");
}

#[test]
fn expand_home_without_home_changes_nothing() {
    assert_eq!(expand_home("~/test/path", None), "~/test/path");
    assert_eq!(expand_home("/absolute/path", None), "/absolute/path");
}

#[test]
fn answer_or_default_takes_default_for_blank() {
    assert_eq!(answer_or_default("", "### Tweets"), "### Tweets");
    assert_eq!(answer_or_default("\n", "### Tweets"), "### Tweets");
    assert_eq!(answer_or_default("  \t\r\n", "### Tweets"), "### Tweets");
}

#[test]
fn answer_or_default_trims_what_was_typed() {
    assert_eq!(answer_or_default("## Log\n", "### Tweets"), "## Log");
    assert_eq!(answer_or_default("  ~/notes  \r\n", "/tmp"), "~/notes");
    assert_eq!(answer_or_default("a b", ""), "a b");
}

#[test]
fn from_answers_mixes_answers_and_defaults() {
    let config = Config::from_answers("/work", "\n", " notes-YYYY.md \n", "\n", "## Log\n");
    assert_eq!(config.target_directory, "/work");
    assert_eq!(config.filename_format, "notes-YYYY.md");
    assert_eq!(config.entry_format, "[HH:mm:ss] {text}");
    assert_eq!(config.target_section, "## Log");

    let all_default = Config::from_answers("/work", "", "", "", "");
    assert_eq!(all_default.target_directory, "/work");
    assert_eq!(all_default.filename_format, "YYYY-MM-DD.md");
    assert_eq!(all_default.entry_format, "[HH:mm:ss] {text}");
    assert_eq!(all_default.target_section, "### Tweets");
}
