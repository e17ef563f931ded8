//! The writer: the settings applied to one note.

use crate::clock::{is_clock_text, local_clock, local_today, DateStamp};
use crate::config::{
    default_entry_format, default_filename_format, expand_home, expanded_path, home_directory,
    option_view, Config,
};
use crate::entry::{
    entry_line, file_name, file_name_of, format_entry, lemma_default_entry_line,
    lemma_default_file_name, lemma_entry_is_no_heading,
};
use crate::error::TweetError;
use crate::markdown::{
    borrow_lines, closes_section, heading_level, heading_level_of, insertion_index_of,
    insertion_point, lemma_second_entry_follows_first, lemma_text_written_twice, section_end,
    section_end_of, text_with_entry, with_entry,
};
use crate::lines::{
    has_no_line_feed, join_lines, joined, lines_of, read_back, split_lines, views_of,
};
use vstd::prelude::*;

verus! {

/// Records entries in the note of the day, as its settings say.
pub struct TweetWriter {
    pub config: Config,
}

/// Where the note of a day lies: its directory, with the home alias expanded,
/// and its file name.
#[derive(Debug)]
pub struct TargetFile {
    pub directory: String,
    pub file_name: String,
}

/// What was found on disk where the note of the day should be.
#[derive(Debug)]
pub enum FileProbe {
    /// The target directory does not exist.
    DirectoryMissing,
    /// The directory exists, the note does not.
    FileMissing,
    /// The note exists and could not be read as text.
    Unreadable,
    /// The text of the note.
    Content(String),
}

impl TweetWriter {
    /// The target file that the settings give for the home directory `home`
    /// and the date `date`.
    pub open spec fn target_of(self, home: Option<Seq<char>>, date: DateStamp) -> (Seq<char>, Seq<char>) {
        (
            expanded_path(self.config.target_directory@, home),
            file_name_of(self.config.filename_format@, date.year@, date.month@, date.day@),
        )
    }

    /// The text of the note `content` after `text` was recorded at the time
    /// `stamp`; `None` where the note lacks the target section.
    pub open spec fn recorded(self, content: Seq<char>, text: Seq<char>, stamp: Seq<char>) -> Option<
        Seq<char>,
    > {
        text_with_entry(
            content,
            self.config.target_section@,
            entry_line(self.config.entry_format@, stamp, text),
        )
    }

    /// Whether the note `content` has the target section.
    pub open spec fn has_section(self, content: Seq<char>) -> bool {
        insertion_index_of(lines_of(content), self.config.target_section@).is_some()
    }

    /// A writer with the settings `config`.
    pub fn new(config: Config) -> (writer: Self)
        ensures
            writer.config == config,
    {
        Self { config }
    }

    /// The heading level of `line`: the number of `#` that the trimmed line
    /// starts with.
    pub fn get_heading_level(&self, line: &str) -> (level: usize)
        ensures
            level == heading_level_of(line@),
    {
        heading_level(line)
    }

    /// Where the target section ends when its heading is line
    /// `section_start` of `lines`: the index of the first later heading whose
    /// level is at most that of the target section, or the number of lines
    /// where there is none.
    pub fn find_section_end(&self, lines: &[&str], section_start: usize) -> (end: usize)
        ensures
            end == section_end_of(
                views_of(lines@),
                section_start as nat,
                heading_level_of(self.config.target_section@),
            ),
            end <= lines.len(),
            section_start < lines.len() ==> section_start < end,
            forall|j: int|
                section_start < j < end ==> !closes_section(
                    #[trigger] lines@[j]@,
                    heading_level_of(self.config.target_section@),
                ),
            end < lines.len() ==> closes_section(
                lines@[end as int]@,
                heading_level_of(self.config.target_section@),
            ),
            (forall|j: int|
                section_start < j < lines.len() ==> !closes_section(
                    #[trigger] lines@[j]@,
                    heading_level_of(self.config.target_section@),
                )) ==> end == lines.len(),
    {
        let level = heading_level(self.config.target_section.as_str());
        section_end(lines, section_start, level)
    }

    /// The line of an entry for `text`, made now: the entry template with the
    /// time of day and `text` filled in. With the default template that is
    /// `- [HH:MM:SS] ` and the text.
    pub fn format_tweet(&self, text: &str) -> (line: String)
        ensures
            exists|stamp: Seq<char>|
                is_clock_text(stamp) && line@ == #[trigger] entry_line(
                    self.config.entry_format@,
                    stamp,
                    text@,
                ),
            self.config.entry_format@ == default_entry_format() ==> exists|stamp: Seq<char>|
                #[trigger] is_clock_text(stamp) && line@ == "- ["@ + stamp + "] "@ + text@,
    {
        let stamp = local_clock();
        proof {
            lemma_default_entry_line(stamp@, text@);
        }
        format_entry(self.config.entry_format.as_str(), stamp.as_str(), text)
    }

    /// Where the note of `date` lies when the home directory is `home`.
    pub fn target_file_for(&self, home: Option<&str>, date: &DateStamp) -> (target: TargetFile)
        ensures
            (target.directory@, target.file_name@) == self.target_of(option_view(home), *date),
    {
        TargetFile {
            directory: expand_home(self.config.target_directory.as_str(), home),
            file_name: file_name(self.config.filename_format.as_str(), date),
        }
    }

    /// Where today's note lies: the target directory with the home alias
    /// expanded, and the file name template filled in with today's date. With
    /// the default template the name is the date as `YYYY-MM-DD.md`.
    pub fn get_target_file_path(&self) -> (target: TargetFile)
        ensures
            exists|home: Option<Seq<char>>, date: DateStamp|
                date.well_formed() && (target.directory@, target.file_name@)
                    == #[trigger] self.target_of(home, date),
            self.config.filename_format@ == default_filename_format() ==> exists|date: DateStamp|
                #[trigger] date.well_formed() && target.file_name@ == date.year@ + "-"@
                    + date.month@ + "-"@ + date.day@ + ".md"@,
    {
        let home = home_directory();
        let date = local_today();
        proof {
            lemma_default_file_name(date);
        }
        let target = match &home {
            Some(h) => self.target_file_for(Some(h.as_str()), &date),
            None => self.target_file_for(None, &date),
        };
        proof {
            let known: Option<Seq<char>> = match home {
                Some(h) => Some(h@),
                None => None,
            };
            assert((target.directory@, target.file_name@) == self.target_of(known, date));
        }
        target
    }

    /// Records `text` in the note `content`: the new text of the note, with
    /// the entry as a line of its own where the first target section ends.
    /// Fails where no line of the note is the target section heading.
    pub fn insert_tweet_into_content(&self, content: &str, text: &str) -> (out: Result<
        String,
        TweetError,
    >)
        ensures
            out.is_ok() <==> self.has_section(content@),
            match out {
                Ok(updated) => exists|stamp: Seq<char>|
                    is_clock_text(stamp) && #[trigger] self.recorded(content@, text@, stamp)
                        == Some(updated@),
                Err(e) => e matches TweetError::SectionNotFound(name) && name@
                    == self.config.target_section@,
            },
    {
        let mut lines = split_lines(content);
        let refs = borrow_lines(&lines);
        match insertion_point(refs.as_slice(), self.config.target_section.as_str()) {
            None => Err(TweetError::SectionNotFound(self.config.target_section.clone())),
            Some(end) => {
                let entry = self.format_tweet(text);
                let ghost before = views_of(lines@);
                proof {
                    let stamp = choose|stamp: Seq<char>|
                        is_clock_text(stamp) && entry@ == #[trigger] entry_line(
                            self.config.entry_format@,
                            stamp,
                            text@,
                        );
                    assert(self.recorded(content@, text@, stamp) == Some(
                        joined(before.insert(end as int, entry@)),
                    ));
                }
                lines.insert(end, entry);
                assert(views_of(lines@) =~= before.insert(end as int, entry@));
                Ok(join_lines(&lines))
            },
        }
    }

    /// Decides what recording `text` does, given what was found where the
    /// note at `path` should be: the text to store in its place, or the reason
    /// why nothing is stored.
    pub fn write_tweet(&self, text: &str, target: &TargetFile, path: &str, found: &FileProbe) -> (out:
        Result<String, TweetError>)
        ensures
            out.is_ok() <==> (found matches FileProbe::Content(content) && self.has_section(
                content@,
            )),
            match (found, out) {
                (FileProbe::Content(content), Ok(updated)) => exists|stamp: Seq<char>|
                    is_clock_text(stamp) && #[trigger] self.recorded(content@, text@, stamp)
                        == Some(updated@),
                (_, Ok(_)) => false,
                (FileProbe::DirectoryMissing, Err(e)) => e matches TweetError::DirectoryNotFound(
                    name,
                ) && name@ == target.directory@,
                (FileProbe::FileMissing, Err(e)) => e matches TweetError::FileNotFound(name)
                    && name@ == path@,
                (FileProbe::Unreadable, Err(e)) => e matches TweetError::ReadError(name) && name@
                    == path@,
                (FileProbe::Content(_), Err(e)) => e matches TweetError::SectionNotFound(name)
                    && name@ == self.config.target_section@,
            },
    {
        match found {
            FileProbe::DirectoryMissing => Err(
                TweetError::DirectoryNotFound(target.directory.clone()),
            ),
            FileProbe::FileMissing => Err(TweetError::FileNotFound(path.to_owned())),
            FileProbe::Unreadable => Err(TweetError::ReadError(path.to_owned())),
            FileProbe::Content(content) => self.insert_tweet_into_content(content.as_str(), text),
        }
    }
}

/// Recording is not idempotent: where the same text is recorded twice in the
/// lines of a note, at whatever times, the note holds two entry lines for it,
/// the second right after the first where the target section ends.
pub proof fn lemma_recording_twice_adds_two_lines(
    writer: TweetWriter,
    lines: Seq<Seq<char>>,
    text: Seq<char>,
    first_stamp: Seq<char>,
    second_stamp: Seq<char>,
)
    requires
        insertion_index_of(lines, writer.config.target_section@).is_some(),
    ensures
        ({
            let section = writer.config.target_section@;
            let first = entry_line(writer.config.entry_format@, first_stamp, text);
            let second = entry_line(writer.config.entry_format@, second_stamp, text);
            let end = insertion_index_of(lines, section).unwrap() as int;
            let twice = with_entry(with_entry(lines, section, first).unwrap(), section, second);
            &&& twice == Some(lines.insert(end, first).insert(end + 1, second))
            &&& twice.unwrap().len() == lines.len() + 2
            &&& twice.unwrap()[end] == first
            &&& twice.unwrap()[end + 1] == second
        }),
{
    let section = writer.config.target_section@;
    let first = entry_line(writer.config.entry_format@, first_stamp, text);
    let second = entry_line(writer.config.entry_format@, second_stamp, text);
    lemma_entry_is_no_heading(writer.config.entry_format@, first_stamp, text);
    lemma_second_entry_follows_first(lines, section, first, second);
}

/// Recording is not idempotent on the text of a note: after the same text was
/// recorded twice, the note holds two entry lines for it, the second right
/// after the first. It holds where the line of the first entry holds no line
/// feed and does not end in a carriage return.
pub proof fn lemma_recording_twice_in_text(
    writer: TweetWriter,
    content: Seq<char>,
    text: Seq<char>,
    first_stamp: Seq<char>,
    second_stamp: Seq<char>,
)
    requires
        writer.has_section(content),
        has_no_line_feed(entry_line(writer.config.entry_format@, first_stamp, text)),
        entry_line(writer.config.entry_format@, first_stamp, text).last() != '\r',
    ensures
        ({
            let section = writer.config.target_section@;
            let first = entry_line(writer.config.entry_format@, first_stamp, text);
            let second = entry_line(writer.config.entry_format@, second_stamp, text);
            let end = insertion_index_of(lines_of(content), section).unwrap() as int;
            let once = writer.recorded(content, text, first_stamp).unwrap();
            let kept = read_back(lines_of(content).insert(end, first));
            let lines = kept.insert(end + 1, second);
            &&& lines_of(once) == kept
            &&& writer.recorded(once, text, second_stamp) == Some(joined(lines))
            &&& lines[end] == first
            &&& lines[end + 1] == second
        }),
{
    let section = writer.config.target_section@;
    let first = entry_line(writer.config.entry_format@, first_stamp, text);
    let second = entry_line(writer.config.entry_format@, second_stamp, text);
    reveal_strlit("- ");
    assert(first.len() > 0);
    lemma_entry_is_no_heading(writer.config.entry_format@, first_stamp, text);
    lemma_text_written_twice(content, section, first, second);
}

} // verus!
