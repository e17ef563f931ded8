//! The two templates: the line of an entry and the name of the note of a day.

use crate::clock::{is_clock_text, DateStamp};
use crate::config::{default_entry_format, default_filename_format};
use crate::markdown::heading_level_of;
use crate::replace::{
    lemma_replaced_absent, lemma_replaced_at_match, lemma_replaced_first,
    lemma_replaced_keeps_first, lemma_replaced_skips_prefix, replace_all, replaced, starts_with,
};
use crate::text::lemma_trimmed_keeps_first;
use vstd::prelude::*;

verus! {

/// The line of an entry: a Markdown list item that holds `format` with the
/// token `HH:mm:ss` replaced by `timestamp` and then the token `{text}`
/// replaced by `text` as it is.
pub open spec fn entry_line(format: Seq<char>, timestamp: Seq<char>, text: Seq<char>) -> Seq<char> {
    "- "@ + replaced(replaced(format, "HH:mm:ss"@, timestamp), "{text}"@, text)
}

/// The file name for a date: `format` with the token `YYYY` replaced by
/// `year`, then `MM` by `month`, then `DD` by `day`.
pub open spec fn file_name_of(
    format: Seq<char>,
    year: Seq<char>,
    month: Seq<char>,
    day: Seq<char>,
) -> Seq<char> {
    replaced(replaced(replaced(format, "YYYY"@, year), "MM"@, month), "DD"@, day)
}

/// The file name for a date as one reading of the template gives it: from
/// left to right, each token `YYYY`, `MM` and `DD` gives way to its text, and
/// every other character is kept.
pub open spec fn filled_once(
    format: Seq<char>,
    year: Seq<char>,
    month: Seq<char>,
    day: Seq<char>,
) -> Seq<char>
    decreases format.len(),
{
    if format.len() == 0 {
        Seq::empty()
    } else if format.len() >= 4 && starts_with(format, "YYYY"@) {
        year + filled_once(format.skip(4), year, month, day)
    } else if format.len() >= 2 && starts_with(format, "MM"@) {
        month + filled_once(format.skip(2), year, month, day)
    } else if format.len() >= 2 && starts_with(format, "DD"@) {
        day + filled_once(format.skip(2), year, month, day)
    } else {
        seq![format[0]] + filled_once(format.drop_first(), year, month, day)
    }
}

/// Formats `text` as the line of an entry made at `timestamp`.
pub fn format_entry(format: &str, timestamp: &str, text: &str) -> (line: String)
    ensures
        line@ == entry_line(format@, timestamp@, text@),
{
    let stamped = replace_all(format, "HH:mm:ss", timestamp);
    let filled = replace_all(stamped.as_str(), "{text}", text);
    String::from_str("- ").concat(filled.as_str())
}

/// The name of the note for `date`.
pub fn file_name(format: &str, date: &DateStamp) -> (name: String)
    ensures
        name@ == file_name_of(format@, date.year@, date.month@, date.day@),
{
    let with_year = replace_all(format, "YYYY", date.year.as_str());
    let with_month = replace_all(with_year.as_str(), "MM", date.month.as_str());
    replace_all(with_month.as_str(), "DD", date.day.as_str())
}

/// The line of an entry is never a heading, whatever the template, the time
/// and the text are: it starts with the list marker.
pub proof fn lemma_entry_is_no_heading(format: Seq<char>, timestamp: Seq<char>, text: Seq<char>)
    ensures
        heading_level_of(entry_line(format, timestamp, text)) == 0,
{
    reveal_strlit("- ");
    let line = entry_line(format, timestamp, text);
    assert(line[0] == '-');
    lemma_trimmed_keeps_first(line);
}

/// With the default template, the line of an entry is the list marker, the
/// time of day in square brackets, a space and the text as it was typed:
/// nothing of the text is read as a token.
pub proof fn lemma_default_entry_line(timestamp: Seq<char>, text: Seq<char>)
    requires
        is_clock_text(timestamp),
    ensures
        entry_line(default_entry_format(), timestamp, text) == "- ["@ + timestamp + "] "@ + text,
{
    reveal_strlit("[HH:mm:ss] {text}");
    reveal_strlit("HH:mm:ss");
    reveal_strlit("{text}");
    reveal_strlit("] {text}");
    reveal_strlit("- ");
    reveal_strlit("- [");
    reveal_strlit("] ");
    let time_token = "HH:mm:ss"@;
    let text_token = "{text}"@;
    let open = seq!['['];
    let tail = "] {text}"@;
    assert(default_entry_format() =~= open + (time_token + tail));
    lemma_replaced_skips_prefix(open, time_token + tail, time_token, timestamp);
    lemma_replaced_at_match(time_token, tail, timestamp);
    lemma_replaced_absent(tail, time_token, timestamp);
    let stamped = replaced(default_entry_format(), time_token, timestamp);
    assert(stamped == open + (timestamp + tail));
    let head = open + timestamp + "] "@;
    assert(stamped =~= head + (text_token + Seq::<char>::empty()));
    assert forall|i: int| 0 <= i < head.len() implies head[i] != text_token[0] by {
        assert(timestamp.subrange(0, 2)[0] == timestamp[0]);
        assert(timestamp.subrange(0, 2)[1] == timestamp[1]);
        assert(timestamp.subrange(3, 5)[0] == timestamp[3]);
        assert(timestamp.subrange(3, 5)[1] == timestamp[4]);
        assert(timestamp.subrange(6, 8)[0] == timestamp[6]);
        assert(timestamp.subrange(6, 8)[1] == timestamp[7]);
    }
    lemma_replaced_skips_prefix(head, text_token + Seq::<char>::empty(), text_token, text);
    lemma_replaced_at_match(text_token, Seq::<char>::empty(), text);
    assert(replaced(stamped, text_token, text) =~= head + text);
    assert("- "@ + (head + text) =~= "- ["@ + timestamp + "] "@ + text);
}

/// The texts of a date read from the clock hold none of the letters that the
/// tokens are made of, and none is empty.
pub proof fn lemma_date_texts_hold_no_token_letter(date: DateStamp)
    requires
        date.well_formed(),
    ensures
        date.year@.len() > 0,
        date.month@.len() > 0,
        date.day@.len() > 0,
        forall|i: int|
            0 <= i < date.year@.len() ==> {
                let c = #[trigger] date.year@[i];
                c != 'Y' && c != 'M' && c != 'D'
            },
        forall|i: int|
            0 <= i < date.month@.len() ==> {
                let c = #[trigger] date.month@[i];
                c != 'Y' && c != 'M' && c != 'D'
            },
        forall|i: int|
            0 <= i < date.day@.len() ==> {
                let c = #[trigger] date.day@[i];
                c != 'Y' && c != 'M' && c != 'D'
            },
{
    let year = date.year@;
    assert forall|i: int| 0 <= i < year.len() implies {
        let c = #[trigger] year[i];
        c != 'Y' && c != 'M' && c != 'D'
    } by {
        if year.len() != 4 && i > 0 {
            assert(year.skip(1)[i - 1] == year[i]);
        }
    }
}

/// With the default template, the name of a note is the year, the month and
/// the day of a date read from the clock, with hyphens between them and the
/// ending `.md`: no part of the date is read as a token.
pub proof fn lemma_default_file_name(date: DateStamp)
    requires
        date.well_formed(),
    ensures
        file_name_of(default_filename_format(), date.year@, date.month@, date.day@) == date.year@
            + "-"@ + date.month@ + "-"@ + date.day@ + ".md"@,
{
    reveal_strlit("YYYY-MM-DD.md");
    reveal_strlit("YYYY");
    reveal_strlit("MM");
    reveal_strlit("DD");
    reveal_strlit("-");
    reveal_strlit(".md");
    let (year, month, day) = (date.year@, date.month@, date.day@);
    let hyphen = "-"@;
    let empty = Seq::<char>::empty();
    lemma_date_texts_hold_no_token_letter(date);
    // The year.
    let after_year = hyphen + "MM"@ + hyphen + "DD"@ + ".md"@;
    assert(default_filename_format() =~= "YYYY"@ + after_year);
    lemma_replaced_at_match("YYYY"@, after_year, year);
    lemma_replaced_absent(after_year, "YYYY"@, year);
    let with_year = replaced(default_filename_format(), "YYYY"@, year);
    assert(with_year == year + after_year);
    // The month.
    let after_month = hyphen + "DD"@ + ".md"@;
    assert(with_year =~= (year + hyphen) + ("MM"@ + after_month));
    lemma_replaced_skips_prefix(year + hyphen, "MM"@ + after_month, "MM"@, month);
    lemma_replaced_at_match("MM"@, after_month, month);
    lemma_replaced_absent(after_month, "MM"@, month);
    let with_month = replaced(with_year, "MM"@, month);
    assert(with_month == (year + hyphen) + (month + after_month));
    // The day.
    let head = year + hyphen + month + hyphen;
    assert(with_month =~= head + ("DD"@ + ".md"@));
    lemma_replaced_skips_prefix(head, "DD"@ + ".md"@, "DD"@, day);
    lemma_replaced_at_match("DD"@, ".md"@, day);
    lemma_replaced_absent(".md"@, "DD"@, day);
    assert(replaced(with_month, "DD"@, day) =~= year + hyphen + month + hyphen + day + ".md"@);
}

/// Filling in a file name template token by token, the year first, then the
/// month, then the day, gives what one reading of the template from left to
/// right gives: no later step touches what an earlier one put in. It holds of
/// every template and every date read from the clock.
pub proof fn lemma_file_name_reads_template_once(format: Seq<char>, date: DateStamp)
    requires
        date.well_formed(),
    ensures
        file_name_of(format, date.year@, date.month@, date.day@) == filled_once(
            format,
            date.year@,
            date.month@,
            date.day@,
        ),
    decreases format.len(),
{
    reveal_strlit("YYYY");
    reveal_strlit("MM");
    reveal_strlit("DD");
    lemma_date_texts_hold_no_token_letter(date);
    let (year, month, day) = (date.year@, date.month@, date.day@);
    let (yyyy, mm, dd) = ("YYYY"@, "MM"@, "DD"@);
    if format.len() == 0 {
    } else if starts_with(format, yyyy) {
        let rest = format.skip(4);
        lemma_file_name_reads_template_once(rest, date);
        assert(format =~= yyyy + rest);
        lemma_replaced_at_match(yyyy, rest, year);
        lemma_replaced_skips_prefix(year, replaced(rest, yyyy, year), mm, month);
        lemma_replaced_skips_prefix(year, replaced(replaced(rest, yyyy, year), mm, month), dd, day);
    } else if starts_with(format, mm) {
        let rest = format.skip(2);
        lemma_file_name_reads_template_once(rest, date);
        assert(format =~= mm + rest);
        lemma_replaced_skips_prefix(mm, rest, yyyy, year);
        lemma_replaced_at_match(mm, replaced(rest, yyyy, year), month);
        lemma_replaced_skips_prefix(month, replaced(replaced(rest, yyyy, year), mm, month), dd, day);
    } else if starts_with(format, dd) {
        let rest = format.skip(2);
        lemma_file_name_reads_template_once(rest, date);
        assert(format =~= dd + rest);
        lemma_replaced_skips_prefix(dd, rest, yyyy, year);
        lemma_replaced_skips_prefix(dd, replaced(rest, yyyy, year), mm, month);
        lemma_replaced_at_match(dd, replaced(replaced(rest, yyyy, year), mm, month), day);
    } else {
        let c = format[0];
        let rest = format.drop_first();
        let head = seq![c];
        lemma_file_name_reads_template_once(rest, date);
        let with_year = replaced(rest, yyyy, year);
        let with_month = replaced(with_year, mm, month);
        lemma_replaced_keeps_first(format, yyyy, year);
        assert(replaced(format, yyyy, year) == head + with_year);
        // The month.
        if c == 'M' {
            if rest.len() > 0 && rest[0] == 'M' {
                assert(format.take(2) =~= mm);
            }
            lemma_replaced_first(rest, yyyy, year, 'M');
            assert(!starts_with(head + with_year, mm)) by {
                if with_year.len() > 0 {
                    assert((head + with_year).take(2)[1] == with_year[0]);
                }
            }
            lemma_replaced_keeps_first(head + with_year, mm, month);
            assert((head + with_year).drop_first() =~= with_year);
        } else {
            lemma_replaced_skips_prefix(head, with_year, mm, month);
        }
        assert(replaced(head + with_year, mm, month) == head + with_month);
        // The day.
        if c == 'D' {
            if rest.len() > 0 && rest[0] == 'D' {
                assert(format.take(2) =~= dd);
            }
            lemma_replaced_first(rest, yyyy, year, 'D');
            lemma_replaced_first(with_year, mm, month, 'D');
            assert(!starts_with(head + with_month, dd)) by {
                if with_month.len() > 0 {
                    assert((head + with_month).take(2)[1] == with_month[0]);
                }
            }
            lemma_replaced_keeps_first(head + with_month, dd, day);
            assert((head + with_month).drop_first() =~= with_month);
        } else {
            lemma_replaced_skips_prefix(head, with_month, dd, day);
        }
    }
}

} // verus!
