//! The line model of a Markdown note: heading levels, where a section ends,
//! and the insertion of one line at the end of a section.
//!
//! A note is a sequence of lines. A line is a heading when, trimmed, it starts
//! with `#`; its level is the number of `#` it starts with. A section reaches
//! from its heading to the next heading of the same or a smaller level.

use crate::lines::{
    has_no_line_feed, has_plain_line_endings, join_lines, joined, lemma_joined_insert,
    lemma_joined_lines_of, lemma_joined_split, lemma_lines_hold_no_line_feed,
    lemma_lines_of_joined, lemma_read_back_shape, lemma_trimmed_without_carriage_return,
    lines_of, read_back, split_lines, views_of, without_final_line_feed,
};
use crate::text::{chars_of, trim, trimmed};
use vstd::prelude::*;

verus! {

/// The number of `#` that `s` starts with.
pub open spec fn leading_hashes(s: Seq<char>) -> nat
    decreases s.len(),
{
    if s.len() > 0 && s[0] == '#' {
        1 + leading_hashes(s.drop_first())
    } else {
        0
    }
}

/// The heading level of `line`: the number of `#` that the trimmed line starts
/// with, 0 for a line that is no heading.
pub open spec fn heading_level_of(line: Seq<char>) -> nat {
    leading_hashes(trimmed(line))
}

/// Whether `line` ends a section of level `level`: it is a heading, and not a
/// deeper one.
pub open spec fn closes_section(line: Seq<char>, level: nat) -> bool {
    1 <= heading_level_of(line) <= level
}

/// The first index from `from` on whose line closes a section of level
/// `level`, or the number of lines if there is none.
pub open spec fn first_closing(lines: Seq<Seq<char>>, from: nat, level: nat) -> nat
    decreases lines.len() - from,
{
    if from >= lines.len() {
        lines.len()
    } else if closes_section(lines[from as int], level) {
        from
    } else {
        first_closing(lines, from + 1, level)
    }
}

/// Where the section that starts at line `start` with level `level` ends: the
/// index of the first later heading that closes it, or the number of lines.
pub open spec fn section_end_of(lines: Seq<Seq<char>>, start: nat, level: nat) -> nat {
    first_closing(lines, start + 1, level)
}

/// Whether `line` is the heading line `section`: the two are equal once
/// trimmed.
pub open spec fn is_section_line(line: Seq<char>, section: Seq<char>) -> bool {
    trimmed(line) == trimmed(section)
}

/// The first index from `from` on whose line is the heading `section`.
pub open spec fn first_section_line(
    lines: Seq<Seq<char>>,
    section: Seq<char>,
    from: nat,
) -> Option<nat>
    decreases lines.len() - from,
{
    if from >= lines.len() {
        None
    } else if is_section_line(lines[from as int], section) {
        Some(from)
    } else {
        first_section_line(lines, section, from + 1)
    }
}

/// The index of the first line that is the heading `section`, if any.
pub open spec fn section_index_of(lines: Seq<Seq<char>>, section: Seq<char>) -> Option<nat> {
    first_section_line(lines, section, 0)
}

/// Where an entry goes: the end of the first section headed `section`; `None`
/// where no line is that heading.
pub open spec fn insertion_index_of(lines: Seq<Seq<char>>, section: Seq<char>) -> Option<nat> {
    match section_index_of(lines, section) {
        None => None,
        Some(start) => Some(section_end_of(lines, start, heading_level_of(section))),
    }
}

/// `lines` with `entry` inserted where the first section headed `section`
/// ends; `None` where no line is that heading.
pub open spec fn with_entry(lines: Seq<Seq<char>>, section: Seq<char>, entry: Seq<char>) -> Option<
    Seq<Seq<char>>,
> {
    match insertion_index_of(lines, section) {
        None => None,
        Some(end) => Some(lines.insert(end as int, entry)),
    }
}

/// The text of a note after `entry` was inserted as a line where the first
/// section headed `section` ends; `None` where the note has no such heading.
///
/// The note is read as `lines_of` splits it and written back with one line feed
/// between lines and none after the last, so a line feed that ended `content`
/// is not kept.
pub open spec fn text_with_entry(content: Seq<char>, section: Seq<char>, entry: Seq<char>) -> Option<
    Seq<char>,
> {
    match with_entry(lines_of(content), section, entry) {
        None => None,
        Some(lines) => Some(joined(lines)),
    }
}

/// The heading level of `line`.
pub fn heading_level(line: &str) -> (level: usize)
    ensures
        level == heading_level_of(line@),
{
    let t = trim(line);
    let cs = chars_of(t.as_str());
    let mut count: usize = 0;
    assert(cs@.skip(0) =~= cs@);
    while count < cs.len() && cs[count] == '#'
        invariant
            count <= cs.len(),
            leading_hashes(cs@) == count + leading_hashes(cs@.skip(count as int)),
        decreases cs.len() - count,
    {
        assert(cs@.skip(count as int).drop_first() =~= cs@.skip(count + 1));
        count += 1;
    }
    count
}

/// Where the section that starts at line `start` with level `level` ends: at
/// the first later line that closes it, or at the number of lines where no
/// later line does.
pub fn section_end(lines: &[&str], start: usize, level: usize) -> (end: usize)
    ensures
        end == section_end_of(views_of(lines@), start as nat, level as nat),
        end <= lines.len(),
        start < lines.len() ==> start < end,
        forall|j: int| start < j < end ==> !closes_section(#[trigger] lines@[j]@, level as nat),
        end < lines.len() ==> closes_section(lines@[end as int]@, level as nat),
        (forall|j: int|
            start < j < lines.len() ==> !closes_section(#[trigger] lines@[j]@, level as nat))
            ==> end == lines.len(),
{
    let n = lines.len();
    if start >= n {
        proof {
            lemma_first_closing(views_of(lines@), (start + 1) as nat, level as nat);
        }
        return n;
    }
    let mut i: usize = start + 1;
    while i < n
        invariant
            start < i <= n == lines.len(),
            section_end_of(views_of(lines@), start as nat, level as nat) == first_closing(
                views_of(lines@),
                i as nat,
                level as nat,
            ),
            forall|j: int| start < j < i ==> !closes_section(#[trigger] lines@[j]@, level as nat),
        decreases n - i,
    {
        let l = heading_level(lines[i]);
        if 1 <= l && l <= level {
            return i;
        }
        i += 1;
    }
    n
}

/// The index of the first line that is the heading `section`.
pub fn find_section(lines: &[&str], section: &str) -> (found: Option<usize>)
    ensures
        match found {
            Some(i) => section_index_of(views_of(lines@), section@) == Some(i as nat),
            None => section_index_of(views_of(lines@), section@).is_none(),
        },
        match found {
            Some(i) => {
                &&& i < lines.len()
                &&& is_section_line(lines@[i as int]@, section@)
                &&& forall|j: int| 0 <= j < i ==> !is_section_line(#[trigger] lines@[j]@, section@)
            },
            None => forall|j: int|
                0 <= j < lines.len() ==> !is_section_line(#[trigger] lines@[j]@, section@),
        },
{
    let target = trim(section);
    let mut i: usize = 0;
    while i < lines.len()
        invariant
            i <= lines.len(),
            target@ == trimmed(section@),
            section_index_of(views_of(lines@), section@) == first_section_line(
                views_of(lines@),
                section@,
                i as nat,
            ),
            forall|j: int| 0 <= j < i ==> !is_section_line(#[trigger] lines@[j]@, section@),
        decreases lines.len() - i,
    {
        let t = trim(lines[i]);
        if t == target {
            return Some(i);
        }
        i += 1;
    }
    None
}

/// The index at which an entry is inserted: where the first section headed
/// `section` ends.
pub fn insertion_point(lines: &[&str], section: &str) -> (at: Option<usize>)
    ensures
        match at {
            Some(end) => insertion_index_of(views_of(lines@), section@) == Some(end as nat) && end
                <= lines.len(),
            None => insertion_index_of(views_of(lines@), section@).is_none(),
        },
{
    match find_section(lines, section) {
        None => None,
        Some(start) => Some(section_end(lines, start, heading_level(section))),
    }
}

/// Borrows every line as a string slice.
pub fn borrow_lines(lines: &Vec<String>) -> (refs: Vec<&str>)
    ensures
        views_of(refs@) == views_of(lines@),
{
    let mut refs: Vec<&str> = Vec::new();
    let mut i: usize = 0;
    while i < lines.len()
        invariant
            i <= lines.len(),
            refs.len() == i,
            forall|j: int| 0 <= j < i ==> refs@[j]@ == lines@[j]@,
        decreases lines.len() - i,
    {
        refs.push(lines[i].as_str());
        i += 1;
    }
    assert(views_of(refs@) =~= views_of(lines@));
    refs
}

/// Inserts `entry` as a line of its own where the first section headed
/// `section` ends, and returns the whole text; `None`, and nothing built, where
/// no line of `content` is that heading.
pub fn insert_line(content: &str, section: &str, entry: &str) -> (out: Option<String>)
    ensures
        match out {
            Some(t) => text_with_entry(content@, section@, entry@) == Some(t@),
            None => text_with_entry(content@, section@, entry@).is_none(),
        },
{
    let mut lines = split_lines(content);
    let refs = borrow_lines(&lines);
    match insertion_point(refs.as_slice(), section) {
        None => None,
        Some(end) => {
            let ghost before = views_of(lines@);
            lines.insert(end, entry.to_owned());
            assert(views_of(lines@) =~= before.insert(end as int, entry@));
            Some(join_lines(&lines))
        },
    }
}

/// `first_closing` is the one index in `from..=len` that closes the section
/// with nothing closing it before.
pub proof fn lemma_first_closing(lines: Seq<Seq<char>>, from: nat, level: nat)
    ensures
        from <= lines.len() ==> from <= first_closing(lines, from, level) <= lines.len(),
        from > lines.len() ==> first_closing(lines, from, level) == lines.len(),
        forall|j: int|
            from <= j < first_closing(lines, from, level) ==> !closes_section(
                #[trigger] lines[j],
                level,
            ),
        first_closing(lines, from, level) < lines.len() ==> closes_section(
            lines[first_closing(lines, from, level) as int],
            level,
        ),
    decreases lines.len() - from,
{
    if from < lines.len() && !closes_section(lines[from as int], level) {
        lemma_first_closing(lines, from + 1, level);
    }
}

/// The index `end` is `first_closing(lines, from, level)` where no line from
/// `from` up to `end` closes the section and the line at `end`, if there is
/// one, does.
pub proof fn lemma_first_closing_is(lines: Seq<Seq<char>>, from: nat, level: nat, end: nat)
    requires
        from <= end <= lines.len(),
        forall|j: int| from <= j < end ==> !closes_section(#[trigger] lines[j], level),
        end < lines.len() ==> closes_section(lines[end as int], level),
    ensures
        first_closing(lines, from, level) == end,
    decreases end - from,
{
    if from < end {
        lemma_first_closing_is(lines, from + 1, level, end);
    }
}

/// `first_section_line` finds the first heading line at or after `from`.
pub proof fn lemma_first_section_line(lines: Seq<Seq<char>>, section: Seq<char>, from: nat)
    ensures
        match first_section_line(lines, section, from) {
            Some(i) => {
                &&& from <= i < lines.len()
                &&& is_section_line(lines[i as int], section)
                &&& forall|j: int| from <= j < i ==> !is_section_line(#[trigger] lines[j], section)
            },
            None => forall|j: int|
                from <= j < lines.len() ==> !is_section_line(#[trigger] lines[j], section),
        },
    decreases lines.len() - from,
{
    if from < lines.len() && !is_section_line(lines[from as int], section) {
        lemma_first_section_line(lines, section, from + 1);
    }
}

/// The index `at` is `first_section_line(lines, section, from)` where the line
/// at `at` is the heading and no line from `from` up to `at` is.
pub proof fn lemma_first_section_line_is(
    lines: Seq<Seq<char>>,
    section: Seq<char>,
    from: nat,
    at: nat,
)
    requires
        from <= at < lines.len(),
        forall|j: int| from <= j < at ==> !is_section_line(#[trigger] lines[j], section),
        is_section_line(lines[at as int], section),
    ensures
        first_section_line(lines, section, from) == Some(at),
    decreases at - from,
{
    if from < at {
        lemma_first_section_line_is(lines, section, from + 1, at);
    }
}

/// A note lacks the section exactly when none of its lines, trimmed, equals
/// the trimmed heading; then there is nowhere to insert, and no text results.
pub proof fn lemma_missing_section(lines: Seq<Seq<char>>, section: Seq<char>, entry: Seq<char>)
    ensures
        insertion_index_of(lines, section).is_none() <==> (forall|j: int|
            0 <= j < lines.len() ==> !is_section_line(#[trigger] lines[j], section)),
        with_entry(lines, section, entry).is_none() <==> insertion_index_of(
            lines,
            section,
        ).is_none(),
{
    lemma_first_section_line(lines, section, 0);
}

/// Where an entry is inserted: after the heading line of the first target
/// section and every line of that section, and right before the heading that
/// closes the section, or last where no heading closes it. Every line of the
/// note is kept, in its order.
pub proof fn lemma_entry_placement(lines: Seq<Seq<char>>, section: Seq<char>, entry: Seq<char>)
    requires
        insertion_index_of(lines, section).is_some(),
    ensures
        ({
            let start = section_index_of(lines, section).unwrap() as int;
            let end = insertion_index_of(lines, section).unwrap() as int;
            let level = heading_level_of(section);
            let out = with_entry(lines, section, entry).unwrap();
            &&& 0 <= start < end <= lines.len()
            &&& is_section_line(lines[start], section)
            &&& forall|j: int| 0 <= j < start ==> !is_section_line(#[trigger] lines[j], section)
            &&& forall|j: int| start < j < end ==> !closes_section(#[trigger] lines[j], level)
            &&& end < lines.len() ==> closes_section(lines[end], level)
            &&& out.len() == lines.len() + 1
            &&& out[end] == entry
            &&& out.take(end) == lines.take(end)
            &&& out.skip(end + 1) == lines.skip(end)
        }),
{
    lemma_first_section_line(lines, section, 0);
    let start = section_index_of(lines, section).unwrap();
    let end = insertion_index_of(lines, section).unwrap() as int;
    lemma_first_closing(lines, start + 1, heading_level_of(section));
    let out = lines.insert(end, entry);
    assert(out.take(end) =~= lines.take(end));
    assert(out.skip(end + 1) =~= lines.skip(end));
}

/// An insertion changes nothing else. The text that results is the text of
/// the note with a line feed and the entry put in behind the last line of the
/// section: what stands before and what stands behind is kept character for
/// character. The text of the note is the note itself, less a line feed at its
/// end, where its lines end in plain line feeds.
pub proof fn lemma_insertion_keeps_the_text(
    content: Seq<char>,
    section: Seq<char>,
    entry: Seq<char>,
)
    requires
        text_with_entry(content, section, entry).is_some(),
    ensures
        ({
            let lines = lines_of(content);
            let end = insertion_index_of(lines, section).unwrap() as int;
            let before = joined(lines.take(end));
            let after = if end < lines.len() {
                seq!['\n'] + joined(lines.skip(end))
            } else {
                Seq::empty()
            };
            &&& joined(lines) == before + after
            &&& text_with_entry(content, section, entry) == Some(
                before + seq!['\n'] + entry + after,
            )
            &&& has_plain_line_endings(content) ==> joined(lines) == without_final_line_feed(
                content,
            )
        }),
{
    let lines = lines_of(content);
    let end = insertion_index_of(lines, section).unwrap() as int;
    lemma_entry_placement(lines, section, entry);
    lemma_joined_insert(lines, end, entry);
    if end < lines.len() {
        lemma_joined_split(lines, end);
    } else {
        assert(lines.take(end) =~= lines);
        assert(joined(lines) + Seq::<char>::empty() =~= joined(lines));
    }
    if has_plain_line_endings(content) {
        lemma_joined_lines_of(content);
    }
}

/// Recording is not idempotent. A second entry goes in right after the first,
/// so that a note written twice holds two lines more, the same text twice
/// where the same entry was inserted twice. It holds of every first entry that
/// does not itself close the section.
pub proof fn lemma_second_entry_follows_first(
    lines: Seq<Seq<char>>,
    section: Seq<char>,
    first: Seq<char>,
    second: Seq<char>,
)
    requires
        insertion_index_of(lines, section).is_some(),
        !closes_section(first, heading_level_of(section)),
    ensures
        ({
            let end = insertion_index_of(lines, section).unwrap() as int;
            let once = with_entry(lines, section, first).unwrap();
            let twice = with_entry(once, section, second);
            &&& insertion_index_of(once, section) == Some((end + 1) as nat)
            &&& twice == Some(lines.insert(end, first).insert(end + 1, second))
            &&& twice.unwrap().len() == lines.len() + 2
            &&& twice.unwrap()[end] == first
            &&& twice.unwrap()[end + 1] == second
        }),
{
    lemma_entry_placement(lines, section, first);
    let start = section_index_of(lines, section).unwrap();
    let end = insertion_index_of(lines, section).unwrap();
    let level = heading_level_of(section);
    let once = lines.insert(end as int, first);
    assert forall|j: int| 0 <= j < start implies !is_section_line(
        #[trigger] once[j],
        section,
    ) by {
        assert(once[j] == lines[j]);
    }
    assert(once[start as int] == lines[start as int]);
    lemma_first_section_line_is(once, section, 0, start);
    assert forall|j: int| start + 1 <= j < end + 1 implies !closes_section(
        #[trigger] once[j],
        level,
    ) by {
        if j < end {
            assert(once[j] == lines[j]);
        }
    }
    if end < lines.len() {
        assert(once[end as int + 1] == lines[end as int]);
    }
    lemma_first_closing_is(once, start + 1, level, end + 1);
}

/// Reading a note back keeps the place where an entry goes, unless that place
/// is behind an empty last line.
pub proof fn lemma_read_back_keeps_insertion(lines: Seq<Seq<char>>, section: Seq<char>)
    requires
        insertion_index_of(lines, section).is_some(),
        lines.last().len() > 0 || insertion_index_of(lines, section).unwrap() < lines.len(),
    ensures
        insertion_index_of(read_back(lines), section) == insertion_index_of(lines, section),
{
    let kept = read_back(lines);
    let level = heading_level_of(section);
    lemma_entry_placement(lines, section, Seq::empty());
    lemma_read_back_shape(lines);
    let start = section_index_of(lines, section).unwrap();
    let end = insertion_index_of(lines, section).unwrap();
    assert(trimmed(Seq::<char>::empty()) == Seq::<char>::empty());
    assert forall|i: int| 0 <= i < kept.len() implies trimmed(#[trigger] kept[i]) == trimmed(
        lines[i],
    ) by {
        lemma_trimmed_without_carriage_return(lines[i]);
    }
    assert(end <= kept.len());
    assert forall|j: int| 0 <= j < start implies !is_section_line(#[trigger] kept[j], section) by {
        assert(trimmed(kept[j]) == trimmed(lines[j]));
    }
    assert(trimmed(kept[start as int]) == trimmed(lines[start as int]));
    lemma_first_section_line_is(kept, section, 0, start);
    assert forall|j: int| start + 1 <= j < end implies !closes_section(
        #[trigger] kept[j],
        level,
    ) by {
        assert(trimmed(kept[j]) == trimmed(lines[j]));
    }
    if end < kept.len() {
        assert(trimmed(kept[end as int]) == trimmed(lines[end as int]));
    }
    lemma_first_closing_is(kept, start + 1, level, end);
}

/// Recording is not idempotent on the text of a note either. The text after
/// one entry holds that entry as a line of its own, and a second entry goes
/// in as the line right after it. It holds of every first entry that is one
/// line, does not end in a carriage return and does not close the section.
pub proof fn lemma_text_written_twice(
    content: Seq<char>,
    section: Seq<char>,
    first: Seq<char>,
    second: Seq<char>,
)
    requires
        text_with_entry(content, section, first).is_some(),
        first.len() > 0,
        has_no_line_feed(first),
        first.last() != '\r',
        !closes_section(first, heading_level_of(section)),
    ensures
        ({
            let lines = lines_of(content);
            let end = insertion_index_of(lines, section).unwrap() as int;
            let once = text_with_entry(content, section, first).unwrap();
            let kept = read_back(lines.insert(end, first));
            &&& lines_of(once) == kept
            &&& end < kept.len()
            &&& kept[end] == first
            &&& text_with_entry(once, section, second) == Some(
                joined(kept.insert(end + 1, second)),
            )
            &&& kept.insert(end + 1, second)[end] == first
            &&& kept.insert(end + 1, second)[end + 1] == second
        }),
{
    let lines = lines_of(content);
    let end = insertion_index_of(lines, section).unwrap() as int;
    let updated = lines.insert(end, first);
    lemma_entry_placement(lines, section, first);
    lemma_lines_hold_no_line_feed(content);
    assert forall|i: int| 0 <= i < updated.len() implies has_no_line_feed(
        #[trigger] updated[i],
    ) by {
        if i < end {
            assert(updated[i] == lines[i]);
        } else if i > end {
            assert(updated[i] == lines[i - 1]);
        }
    }
    lemma_lines_of_joined(updated);
    lemma_second_entry_follows_first(lines, section, first, second);
    lemma_read_back_keeps_insertion(updated, section);
    lemma_read_back_shape(updated);
}

} // verus!
