use chrono::{Datelike, Local};
use tempfile::TempDir;
use tweet_memo::clock::DateStamp;
use tweet_memo::config::Config;
use tweet_memo::error::TweetError;
use tweet_memo::writer::{FileProbe, TargetFile, TweetWriter};

fn create_test_config() -> Config {
    Config {
        target_directory: "/tmp".to_string(),
        filename_format: "test.md".to_string(),
        entry_format: "[HH:mm:ss] {text}".to_string(),
        target_section: "### Tweets".to_string(),
    }
}

#[test]
fn test_tweet_writer_new() {
    let config = create_test_config();
    let writer = TweetWriter::new(config.clone());
    assert_eq!(writer.config.target_directory, config.target_directory);
}

#[test]
fn test_get_heading_level() {
    let config = create_test_config();
    let writer = TweetWriter::new(config);

    assert_eq!(writer.get_heading_level("# Heading 1"), 1);
    assert_eq!(writer.get_heading_level("## Heading 2"), 2);
    assert_eq!(writer.get_heading_level("### Heading 3"), 3);
    assert_eq!(writer.get_heading_level("#### Heading 4"), 4);
    assert_eq!(writer.get_heading_level("Not a heading"), 0);
}

#[test]
fn test_format_tweet() {
    let config = create_test_config();
    let writer = TweetWriter::new(config);
    let text = "Test tweet";
    let formatted = writer.format_tweet(text);

    assert!(formatted.starts_with("- ["));
    assert!(formatted.contains("] Test tweet"));
}

#[test]
fn test_find_section_end() {
    let config = create_test_config();
    let writer = TweetWriter::new(config);

    let lines = vec![
        "# Main Title",
        "Some content",
        "### Tweets",
        "- Tweet 1",
        "- Tweet 2",
        "## Next Section",
        "More content",
    ];

    let end_pos = writer.find_section_end(&lines, 2);
    assert_eq!(end_pos, 5);
}

#[test]
fn test_insert_tweet_into_content() {
    let config = create_test_config();
    let writer = TweetWriter::new(config);

    let content = "# Daily Notes\n\n## Tasks\n- Do something\n\n### Tweets\n\n### Notes\nSome notes here";

    let result = writer.insert_tweet_into_content(content, "Test tweet").unwrap();
    assert!(result.contains("### Tweets"));
    assert!(result.contains("Test tweet"));
}

#[test]
fn test_insert_tweet_section_not_found() {
    let mut config = create_test_config();
    config.target_section = "### NonExistent".to_string();
    let writer = TweetWriter::new(config);

    let content = "# Daily Notes\n\n## Tasks\n- Do something";

    let result = writer.insert_tweet_into_content(content, "Test tweet");
    assert!(result.is_err());
    assert!(result.unwrap_err().message().contains("not found"));
}

#[test]
fn test_filename_format_replacement() {
    let temp_dir = TempDir::new().unwrap();
    let mut config = create_test_config();
    config.target_directory = temp_dir.path().to_string_lossy().to_string();
    config.filename_format = "YYYY-MM-DD.md".to_string();

    let writer = TweetWriter::new(config);
    let target = writer.get_target_file_path();

    let now = Local::now();
    let expected_filename = format!("{}-{:02}-{:02}.md", now.year(), now.month(), now.day());

    assert_eq!(target.directory, temp_dir.path().to_string_lossy());
    assert!(target.file_name.ends_with(&expected_filename));
    let file_path = temp_dir.path().join(&target.file_name);
    assert!(file_path.to_string_lossy().ends_with(&expected_filename));
}

fn is_clock_text(s: &str) -> bool {
    let b = s.as_bytes();
    let two = |i: usize, max: u8| {
        b[i].is_ascii_digit() && b[i + 1].is_ascii_digit() && (b[i] - b'0') * 10 + (b[i + 1] - b'0') <= max
    };
    b.len() == 8 && b[2] == b':' && b[5] == b':' && two(0, 23) && two(3, 59) && two(6, 60)
}

#[test]
fn format_tweet_has_the_shape_of_an_entry() {
    let writer = TweetWriter::new(create_test_config());
    let formatted = writer.format_tweet("Test tweet");
    assert_eq!(formatted.len(), "- [HH:MM:SS] Test tweet".len());
    assert!(formatted.starts_with("- ["));
    assert!(formatted.ends_with("] Test tweet"));
    assert!(is_clock_text(&formatted[3..11]), "{}", formatted);
}

#[test]
fn format_tweet_reads_the_clock() {
    let writer = TweetWriter::new(create_test_config());
    let before = Local::now().format("%H:%M:%S").to_string();
    let formatted = writer.format_tweet("x");
    let after = Local::now().format("%H:%M:%S").to_string();
    let stamp = &formatted[3..11];
    assert!(stamp == before || stamp == after || (before.as_str() < stamp && stamp < after.as_str()) || after < before);
}

#[test]
fn find_section_end_uses_level_of_target_section() {
    let mut config = create_test_config();
    config.target_section = "## Log".to_string();
    let writer = TweetWriter::new(config);
    let lines = vec!["## Log", "### Sub", "- a", "## Next", "# Top"];
    assert_eq!(writer.find_section_end(&lines, 0), 3);
    let open = vec!["## Log", "### Sub", "- a"];
    assert_eq!(writer.find_section_end(&open, 0), 3);
    assert_eq!(writer.find_section_end(&open, 7), 3);
}

#[test]
fn insert_tweet_puts_entry_before_next_heading() {
    let writer = TweetWriter::new(create_test_config());
    let content = "# Daily Notes\n\n### Tweets\n- old\n### Notes\nSome notes here";
    let result = writer.insert_tweet_into_content(content, "Test tweet").unwrap();
    let lines: Vec<&str> = result.split('\n').collect();
    assert_eq!(lines.len(), 7);
    assert_eq!(&lines[..4], ["# Daily Notes", "", "### Tweets", "- old"]);
    assert!(lines[4].starts_with("- [") && lines[4].ends_with("] Test tweet"));
    assert!(is_clock_text(&lines[4][3..11]));
    assert_eq!(&lines[5..], ["### Notes", "Some notes here"]);
}

#[test]
fn insert_tweet_at_end_when_nothing_closes_the_section() {
    let writer = TweetWriter::new(create_test_config());
    let result = writer.insert_tweet_into_content("### Tweets\n- old\n#### deeper", "last").unwrap();
    let lines: Vec<&str> = result.split('\n').collect();
    assert_eq!(lines.len(), 4);
    assert_eq!(&lines[..3], ["### Tweets", "- old", "#### deeper"]);
    assert!(lines[3].ends_with("] last"));
}

#[test]
fn insert_tweet_twice_gives_two_entries() {
    let writer = TweetWriter::new(create_test_config());
    let content = "### Tweets\n## Next";
    let once = writer.insert_tweet_into_content(content, "same text").unwrap();
    let twice = writer.insert_tweet_into_content(&once, "same text").unwrap();
    let lines: Vec<&str> = twice.split('\n').collect();
    assert_eq!(lines.len(), 4);
    assert_eq!(lines[0], "### Tweets");
    assert!(lines[1].ends_with("] same text"));
    assert!(lines[2].ends_with("] same text"));
    assert_eq!(lines[3], "## Next");
    assert_eq!(twice.matches("same text").count(), 2);
}

#[test]
fn insert_tweet_names_the_missing_section() {
    let mut config = create_test_config();
    config.target_section = "### NonExistent".to_string();
    let writer = TweetWriter::new(config);
    match writer.insert_tweet_into_content("# Daily Notes\n\n## Tasks\n- Do something", "Test tweet") {
        Err(TweetError::SectionNotFound(name)) => assert_eq!(name, "### NonExistent"),
        other => panic!("gave {:?}", other),
    }
}

#[test]
fn target_file_for_given_home_and_date() {
    let mut config = create_test_config();
    config.target_directory = "~/notes".to_string();
    config.filename_format = "YYYY-MM-DD.md".to_string();
    let writer = TweetWriter::new(config);
    let date = DateStamp { year: "2024".to_string(), month: "03".to_string(), day: "07".to_string() };
    let target = writer.target_file_for(Some("/home/ada"), &date);
    assert_eq!(target.directory, "/home/ada/notes");
    assert_eq!(target.file_name, "2024-03-07.md");
    let homeless = writer.target_file_for(None, &date);
    assert_eq!(homeless.directory, "~/notes");
    assert_eq!(homeless.file_name, "2024-03-07.md");
}

fn some_target() -> TargetFile {
    TargetFile { directory: "/notes".to_string(), file_name: "test.md".to_string() }
}

#[test]
fn write_tweet_reports_missing_directory() {
    let writer = TweetWriter::new(create_test_config());
    match writer.write_tweet("x", &some_target(), "/notes/test.md", &FileProbe::DirectoryMissing) {
        Err(TweetError::DirectoryNotFound(dir)) => assert_eq!(dir, "/notes"),
        other => panic!("gave {:?}", other),
    }
}

#[test]
fn write_tweet_reports_missing_file() {
    let writer = TweetWriter::new(create_test_config());
    match writer.write_tweet("x", &some_target(), "/notes/test.md", &FileProbe::FileMissing) {
        Err(TweetError::FileNotFound(path)) => assert_eq!(path, "/notes/test.md"),
        other => panic!("gave {:?}", other),
    }
}

#[test]
fn write_tweet_reports_unreadable_file() {
    let writer = TweetWriter::new(create_test_config());
    match writer.write_tweet("x", &some_target(), "/notes/test.md", &FileProbe::Unreadable) {
        Err(TweetError::ReadError(path)) => assert_eq!(path, "/notes/test.md"),
        other => panic!("gave {:?}", other),
    }
}

#[test]
fn write_tweet_reports_missing_section() {
    let writer = TweetWriter::new(create_test_config());
    let found = FileProbe::Content("# Daily Notes\n## Tasks".to_string());
    match writer.write_tweet("x", &some_target(), "/notes/test.md", &found) {
        Err(TweetError::SectionNotFound(name)) => assert_eq!(name, "### Tweets"),
        other => panic!("gave {:?}", other),
    }
}

#[test]
fn write_tweet_gives_the_text_to_store() {
    let writer = TweetWriter::new(create_test_config());
    let found = FileProbe::Content("# Daily Notes\n### Tweets\n## Tasks\n".to_string());
    let stored = writer.write_tweet("hello", &some_target(), "/notes/test.md", &found).unwrap();
    let lines: Vec<&str> = stored.split('\n').collect();
    assert_eq!(lines.len(), 4);
    assert_eq!(lines[0], "# Daily Notes");
    assert_eq!(lines[1], "### Tweets");
    assert!(lines[2].starts_with("- [") && lines[2].ends_with("] hello"));
    assert_eq!(lines[3], "## Tasks");
}

#[test]
fn error_messages() {
    assert_eq!(
        TweetError::DirectoryNotFound("/notes".to_string()).message(),
        "Target directory does not exist: /notes"
    );
    assert_eq!(
        TweetError::FileNotFound("/notes/a.md".to_string()).message(),
        "Target file does not exist: /notes/a.md"
    );
    assert_eq!(TweetError::ReadError("/notes/a.md".to_string()).message(), "Failed to read file: /notes/a.md");
    assert_eq!(
        TweetError::SectionNotFound("### Tweets".to_string()).message(),
        "Target section '### Tweets' not found"
    );
    assert_eq!(TweetError::WriteError("/notes/a.md".to_string()).message(), "Failed to write file: /notes/a.md");
}
