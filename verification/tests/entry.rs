use chrono::{Datelike, NaiveDate, NaiveTime};
use tweet_memo::clock::DateStamp;
use tweet_memo::entry::{file_name, format_entry};

fn stamp_of(year: i32, month: u32, day: u32) -> DateStamp {
    let date = NaiveDate::from_ymd_opt(year, month, day).unwrap();
    DateStamp {
        year: date.format("%Y").to_string(),
        month: date.format("%m").to_string(),
        day: date.format("%d").to_string(),
    }
}

#[test]
fn format_entry_fills_time_and_text() {
    assert_eq!(
        format_entry("[HH:mm:ss] {text}", "09:05:03", "Test tweet"),
        "- [09:05:03] Test tweet"
    );
    assert_eq!(format_entry("{text} at HH:mm:ss", "23:59:60", "late"), "- late at 23:59:60");
    assert_eq!(format_entry("plain", "00:00:00", "ignored"), "- plain");
    assert_eq!(format_entry("", "00:00:00", "ignored"), "- ");
}

#[test]
fn format_entry_with_every_time_of_a_day_sample() {
    for (h, m, s) in [(0, 0, 0), (1, 2, 3), (12, 30, 45), (23, 59, 59)] {
        let stamp = NaiveTime::from_hms_opt(h, m, s).unwrap().format("%H:%M:%S").to_string();
        let line = format_entry("[HH:mm:ss] {text}", &stamp, "Test tweet");
        assert_eq!(line, format!("- [{:02}:{:02}:{:02}] Test tweet", h, m, s));
    }
}

#[test]
fn format_entry_keeps_text_verbatim() {
    assert_eq!(
        format_entry("[HH:mm:ss] {text}", "10:00:00", "# *bold* HH:mm:ss {text}"),
        "- [10:00:00] # *bold* HH:mm:ss {text}"
    );
    assert_eq!(format_entry("{text}{text}", "10:00:00", "ab"), "- abab");
    assert_eq!(format_entry("HH:mm:ss HH:mm:ss", "10:00:00", ""), "- 10:00:00 10:00:00");
}

#[test]
fn file_name_for_known_date() {
    assert_eq!(file_name("YYYY-MM-DD.md", &stamp_of(2024, 3, 7)), "2024-03-07.md");
    let typed = DateStamp { year: "2024".to_string(), month: "03".to_string(), day: "07".to_string() };
    assert_eq!(file_name("YYYY-MM-DD.md", &typed), "2024-03-07.md");
}

#[test]
fn file_name_other_templates() {
    let date = stamp_of(1999, 12, 31);
    assert_eq!(file_name("test.md", &date), "test.md");
    assert_eq!(file_name("DD.MM.YYYY", &date), "31.12.1999");
    assert_eq!(file_name("YYYY/YYYY-MM/DD-DD.txt", &date), "1999/1999-12/31-31.txt");
    assert_eq!(file_name("YYYYMMDD", &date), "19991231");
    assert_eq!(file_name("MMM", &date), "12M");
    assert_eq!(file_name("", &date), "");
}

#[test]
fn file_name_with_years_outside_four_digits() {
    assert_eq!(file_name("YYYY-MM-DD.md", &stamp_of(987, 1, 2)), "0987-01-02.md");
    assert_eq!(file_name("YYYY-MM-DD.md", &stamp_of(12345, 1, 2)), "+12345-01-02.md");
    assert_eq!(file_name("YYYY-MM-DD.md", &stamp_of(-1, 1, 2)), "-0001-01-02.md");
}

#[test]
fn file_name_matches_plain_padding() {
    let date = NaiveDate::from_ymd_opt(2031, 11, 9).unwrap();
    let expected = format!("{}-{:02}-{:02}.md", date.year(), date.month(), date.day());
    assert_eq!(file_name("YYYY-MM-DD.md", &stamp_of(2031, 11, 9)), expected);
}

#[test]
fn file_name_reads_the_template_once() {
    let date = stamp_of(2024, 3, 7);
    assert_eq!(file_name("MYYYYM", &date), "M2024M");
    assert_eq!(file_name("DMMD", &date), "D03D");
    assert_eq!(file_name("YYYYY", &date), "2024Y");
    assert_eq!(file_name("YYMMYY", &date), "YY03YY");
    assert_eq!(file_name("MMDDYYYY", &date), "03072024");
    assert_eq!(file_name("YYYMDY", &date), "YYYMDY");
}
