use tweet_memo::markdown::{
    borrow_lines, find_section, heading_level, insert_line, insertion_point, section_end,
};

const NOTE: &str =
    "# Daily Notes\n\n## Tasks\n- Do something\n\n### Tweets\n\n### Notes\nSome notes here";

#[test]
fn heading_level_counts_leading_hashes() {
    assert_eq!(heading_level("# h"), 1);
    assert_eq!(heading_level("## h"), 2);
    assert_eq!(heading_level("### h"), 3);
    assert_eq!(heading_level("#### h"), 4);
    assert_eq!(heading_level("not a heading"), 0);
}

#[test]
fn heading_level_edge_cases() {
    assert_eq!(heading_level(""), 0);
    assert_eq!(heading_level("   "), 0);
    assert_eq!(heading_level("#"), 1);
    assert_eq!(heading_level("######"), 6);
    assert_eq!(heading_level("#tag"), 1);
    assert_eq!(heading_level("  ## indented  "), 2);
    assert_eq!(heading_level("\t### Tweets\r"), 3);
    assert_eq!(heading_level("a # b"), 0);
    assert_eq!(heading_level("- # item"), 0);
    assert_eq!(heading_level("## a ## b"), 2);
}

#[test]
fn section_end_stops_at_sibling_or_ancestor() {
    let lines = vec![
        "# Main Title",
        "Some content",
        "### Tweets",
        "- Tweet 1",
        "- Tweet 2",
        "## Next Section",
        "More content",
    ];
    assert_eq!(section_end(&lines, 2, 3), 5);
    let siblings = vec!["### Tweets", "- a", "### Notes", "x"];
    assert_eq!(section_end(&siblings, 0, 3), 2);
}

#[test]
fn section_end_without_closing_heading_is_line_count() {
    let lines = vec!["# Title", "### Tweets", "- a", "- b"];
    assert_eq!(section_end(&lines, 1, 3), 4);
    let last = vec!["# Title", "### Tweets"];
    assert_eq!(section_end(&last, 1, 3), 2);
}

#[test]
fn section_end_skips_deeper_headings() {
    let lines = vec!["## Tweets", "### Morning", "- a", "#### Detail", "- b", "## Next", "# Top"];
    assert_eq!(section_end(&lines, 0, 2), 5);
    assert_eq!(section_end(&lines, 1, 3), 5);
    assert_eq!(section_end(&lines, 3, 4), 5);
}

#[test]
fn section_end_of_level_zero_runs_to_the_end() {
    let lines = vec!["Tweets:", "- a", "# Heading", "- b"];
    assert_eq!(section_end(&lines, 0, 0), 4);
}

#[test]
fn section_end_from_beyond_the_last_line() {
    let lines = vec!["# a", "# b"];
    assert_eq!(section_end(&lines, 1, 1), 2);
    assert_eq!(section_end(&lines, 2, 1), 2);
    assert_eq!(section_end(&lines, 9, 1), 2);
    assert_eq!(section_end(&lines, usize::MAX, 1), 2);
    let none: Vec<&str> = Vec::new();
    assert_eq!(section_end(&none, 0, 1), 0);
}

#[test]
fn find_section_compares_trimmed_lines() {
    let lines = vec!["# Title", "  ### Tweets  ", "### Tweets"];
    assert_eq!(find_section(&lines, "### Tweets"), Some(1));
    assert_eq!(find_section(&lines, " ### Tweets\n"), Some(1));
    assert_eq!(find_section(&lines, "### tweets"), None);
    assert_eq!(find_section(&lines, "### Tweet"), None);
    assert_eq!(find_section(&lines, "## Tweets"), None);
}

#[test]
fn insertion_point_is_end_of_first_section() {
    let lines = vec!["### Tweets", "- a", "## Other", "### Tweets", "- b"];
    assert_eq!(insertion_point(&lines, "### Tweets"), Some(2));
    assert_eq!(insertion_point(&lines, "## Other"), Some(5));
    assert_eq!(insertion_point(&lines, "## Missing"), None);
}

#[test]
fn borrow_lines_keeps_every_line() {
    let lines = vec!["a".to_string(), "".to_string(), "# c".to_string()];
    assert_eq!(borrow_lines(&lines), vec!["a", "", "# c"]);
}

#[test]
fn insert_line_before_closing_heading() {
    let out = insert_line(NOTE, "### Tweets", "- [12:34:56] Test tweet");
    assert_eq!(
        out.as_deref(),
        Some(
            "# Daily Notes\n\n## Tasks\n- Do something\n\n### Tweets\n\n- [12:34:56] Test tweet\n### Notes\nSome notes here"
        )
    );
}

#[test]
fn insert_line_at_end_of_note() {
    let out = insert_line("# Notes\n### Tweets\n- one", "### Tweets", "- two");
    assert_eq!(out.as_deref(), Some("# Notes\n### Tweets\n- one\n- two"));
    let alone = insert_line("### Tweets", "### Tweets", "- one");
    assert_eq!(alone.as_deref(), Some("### Tweets\n- one"));
}

#[test]
fn insert_line_drops_final_line_feed() {
    let out = insert_line("### Tweets\n- one\n", "### Tweets", "- two");
    assert_eq!(out.as_deref(), Some("### Tweets\n- one\n- two"));
    let before = insert_line("### Tweets\n## Next\n", "### Tweets", "- one");
    assert_eq!(before.as_deref(), Some("### Tweets\n- one\n## Next"));
}

#[test]
fn insert_line_uses_first_occurrence_only() {
    let out = insert_line("### Tweets\n- a\n## Other\n### Tweets\n- b", "### Tweets", "- new");
    assert_eq!(out.as_deref(), Some("### Tweets\n- a\n- new\n## Other\n### Tweets\n- b"));
}

#[test]
fn insert_line_without_section_gives_nothing() {
    assert_eq!(insert_line("# Daily Notes\n\n## Tasks\n- Do something", "### NonExistent", "- x"), None);
    assert_eq!(insert_line("", "### Tweets", "- x"), None);
}

#[test]
fn insert_line_twice_gives_two_lines() {
    let once = insert_line(NOTE, "### Tweets", "- same").unwrap();
    let twice = insert_line(&once, "### Tweets", "- same").unwrap();
    assert_eq!(
        twice,
        "# Daily Notes\n\n## Tasks\n- Do something\n\n### Tweets\n\n- same\n- same\n### Notes\nSome notes here"
    );
    assert_eq!(twice.matches("- same").count(), 2);
}
