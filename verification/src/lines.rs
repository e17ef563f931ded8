//! A text as a sequence of lines: splitting, joining, and what joining and
//! splitting again keeps.

use crate::text::{chars_of, lemma_trimmed_without_last_whitespace, string_of_range, trimmed};
use vstd::prelude::*;

verus! {

/// The views of a sequence of texts, element by element.
pub open spec fn views_of<T: View<V = Seq<char>>>(texts: Seq<T>) -> Seq<Seq<char>> {
    Seq::new(texts.len(), |i: int| texts[i]@)
}

/// The number of characters of `s` that stand before its first line feed.
pub open spec fn first_line_feed(s: Seq<char>) -> nat
    decreases s.len(),
{
    if s.len() == 0 || s[0] == '\n' {
        0
    } else {
        1 + first_line_feed(s.drop_first())
    }
}

/// `line` without one carriage return at its end.
pub open spec fn without_carriage_return(line: Seq<char>) -> Seq<char> {
    if line.len() > 0 && line.last() == '\r' {
        line.drop_last()
    } else {
        line
    }
}

/// The lines of `s`.
///
/// A line ends at a line feed; a carriage return right before that line feed
/// belongs to the line ending. What follows the last line feed is a line of its
/// own unless it is empty, and keeps a carriage return at its end.
pub open spec fn lines_of(s: Seq<char>) -> Seq<Seq<char>>
    decreases s.len(),
{
    if s.len() == 0 {
        Seq::empty()
    } else {
        let n = first_line_feed(s);
        if n >= s.len() {
            seq![s]
        } else {
            seq![without_carriage_return(s.take(n as int))] + lines_of(s.skip(n as int + 1))
        }
    }
}

/// `lines` with one line feed between each two neighbours.
pub open spec fn joined(lines: Seq<Seq<char>>) -> Seq<char>
    decreases lines.len(),
{
    if lines.len() == 0 {
        Seq::empty()
    } else if lines.len() == 1 {
        lines[0]
    } else {
        joined(lines.drop_last()) + seq!['\n'] + lines.last()
    }
}

/// Whether no character of `s` is a line feed.
pub open spec fn has_no_line_feed(s: Seq<char>) -> bool {
    forall|j: int| 0 <= j < s.len() ==> s[j] != '\n'
}

/// `s` without one line feed at its end.
pub open spec fn without_final_line_feed(s: Seq<char>) -> Seq<char> {
    if s.len() > 0 && s.last() == '\n' {
        s.drop_last()
    } else {
        s
    }
}

/// Whether a carriage return stands at position `at` of `s` with a line feed
/// right behind it.
pub open spec fn is_carriage_return_line_feed(s: Seq<char>, at: int) -> bool {
    0 <= at && at + 1 < s.len() && s[at] == '\r' && s[at + 1] == '\n'
}

/// Whether every line of `s` ends in a line feed alone: no line feed follows a
/// carriage return.
pub open spec fn has_plain_line_endings(s: Seq<char>) -> bool {
    forall|at: int| !#[trigger] is_carriage_return_line_feed(s, at)
}

/// What splitting gives back of lines that were joined: each line but the
/// last loses one carriage return at its end, and the last line is gone where
/// it is empty.
pub open spec fn read_back(lines: Seq<Seq<char>>) -> Seq<Seq<char>>
    decreases lines.len(),
{
    if lines.len() == 0 {
        Seq::empty()
    } else if lines.len() == 1 {
        if lines[0].len() == 0 {
            Seq::empty()
        } else {
            seq![lines[0]]
        }
    } else {
        seq![without_carriage_return(lines[0])] + read_back(lines.drop_first())
    }
}

/// The lines of `s`, as `lines_of` defines them.
pub fn split_lines(s: &str) -> (lines: Vec<String>)
    ensures
        views_of(lines@) == lines_of(s@),
{
    let cs = chars_of(s);
    let n = cs.len();
    let mut lines: Vec<String> = Vec::new();
    let mut start: usize = 0;
    let mut i: usize = 0;
    assert(cs@.skip(0) =~= cs@);
    assert(views_of(lines@) + lines_of(cs@) =~= lines_of(cs@));
    while i < n
        invariant
            start <= i <= n == cs.len(),
            forall|j: int| start <= j < i ==> cs@[j] != '\n',
            lines_of(cs@) == views_of(lines@) + lines_of(cs@.skip(start as int)),
        decreases n - i,
    {
        if cs[i] == '\n' {
            let end = if i > start && cs[i - 1] == '\r' {
                i - 1
            } else {
                i
            };
            let line = string_of_range(&cs, start, end);
            proof {
                let rest = cs@.skip(start as int);
                lemma_first_line_feed(rest, i - start);
                assert(rest.skip(i - start + 1) =~= cs@.skip(i + 1));
                assert(rest.take(i - start) =~= cs@.subrange(start as int, i as int));
                assert(without_carriage_return(cs@.subrange(start as int, i as int)) =~= line@);
                assert(views_of(lines@.push(line)) =~= views_of(lines@) + seq![line@]);
                assert(lines_of(cs@) =~= views_of(lines@.push(line)) + lines_of(
                    cs@.skip(i + 1),
                ));
            }
            lines.push(line);
            start = i + 1;
        }
        i += 1;
    }
    if start < n {
        let line = string_of_range(&cs, start, n);
        proof {
            let rest = cs@.skip(start as int);
            lemma_first_line_feed(rest, n - start);
            assert(rest =~= cs@.subrange(start as int, n as int));
            assert(views_of(lines@.push(line)) =~= views_of(lines@) + seq![line@]);
        }
        lines.push(line);
    } else {
        assert(views_of(lines@) + Seq::<Seq<char>>::empty() =~= views_of(lines@));
    }
    lines
}

/// The lines joined by single line feeds, with none after the last.
pub fn join_lines(lines: &Vec<String>) -> (s: String)
    ensures
        s@ == joined(views_of(lines@)),
{
    let mut s = String::new();
    let mut i: usize = 0;
    while i < lines.len()
        invariant
            i <= lines.len(),
            s@ == joined(views_of(lines@).take(i as int)),
        decreases lines.len() - i,
    {
        proof {
            let next = views_of(lines@).take(i + 1);
            assert(next.drop_last() =~= views_of(lines@).take(i as int));
            assert(next.last() == lines@[i as int]@);
        }
        if i > 0 {
            s.push('\n');
        }
        s.append(lines[i].as_str());
        i += 1;
    }
    assert(views_of(lines@).take(lines.len() as int) =~= views_of(lines@));
    s
}

/// `first_line_feed(s)` is the one position `n` with no line feed before it
/// and a line feed, or the end of `s`, at it.
pub proof fn lemma_first_line_feed(s: Seq<char>, n: int)
    requires
        0 <= n <= s.len(),
        forall|j: int| 0 <= j < n ==> s[j] != '\n',
        n < s.len() ==> s[n] == '\n',
    ensures
        first_line_feed(s) == n,
    decreases s.len(),
{
    if n > 0 {
        lemma_first_line_feed(s.drop_first(), n - 1);
    }
}

/// No line feed stands before position `first_line_feed(s)`, and one stands
/// at it unless it is the end of `s`.
pub proof fn lemma_first_line_feed_found(s: Seq<char>)
    ensures
        first_line_feed(s) <= s.len(),
        forall|j: int| 0 <= j < first_line_feed(s) ==> s[j] != '\n',
        first_line_feed(s) < s.len() ==> s[first_line_feed(s) as int] == '\n',
    decreases s.len(),
{
    if s.len() > 0 && s[0] != '\n' {
        let rest = s.drop_first();
        lemma_first_line_feed_found(rest);
        assert forall|j: int| 0 <= j < first_line_feed(s) implies s[j] != '\n' by {
            if j > 0 {
                assert(s[j] == rest[j - 1]);
            }
        }
    }
}

/// No line of a text holds a line feed.
pub proof fn lemma_lines_hold_no_line_feed(s: Seq<char>)
    ensures
        forall|i: int| 0 <= i < lines_of(s).len() ==> has_no_line_feed(#[trigger] lines_of(s)[i]),
    decreases s.len(),
{
    if s.len() > 0 {
        lemma_first_line_feed_found(s);
        let n = first_line_feed(s) as int;
        if n < s.len() {
            lemma_lines_hold_no_line_feed(s.skip(n + 1));
            let head = without_carriage_return(s.take(n));
            assert(has_no_line_feed(head));
            assert forall|i: int| 0 <= i < lines_of(s).len() implies has_no_line_feed(
                #[trigger] lines_of(s)[i],
            ) by {
                if i > 0 {
                    assert(lines_of(s)[i] == lines_of(s.skip(n + 1))[i - 1]);
                }
            }
        }
    }
}

/// Joined lines are the first line, a line feed, and the other lines joined.
pub proof fn lemma_joined_front(lines: Seq<Seq<char>>)
    requires
        lines.len() >= 2,
    ensures
        joined(lines) == lines[0] + seq!['\n'] + joined(lines.drop_first()),
    decreases lines.len(),
{
    let front = lines.drop_last();
    let back = lines.drop_first();
    if lines.len() == 2 {
        assert(joined(front) == lines[0]);
        assert(joined(back) == lines[1]);
    } else {
        lemma_joined_front(front);
        assert(front.drop_first() =~= back.drop_last());
        assert(joined(back) == joined(back.drop_last()) + seq!['\n'] + back.last());
        assert(joined(lines) =~= lines[0] + seq!['\n'] + joined(back));
    }
}

/// Splitting what was joined gives the lines as `read_back` describes them,
/// where no line holds a line feed.
pub proof fn lemma_lines_of_joined(lines: Seq<Seq<char>>)
    requires
        forall|i: int| 0 <= i < lines.len() ==> has_no_line_feed(#[trigger] lines[i]),
    ensures
        lines_of(joined(lines)) == read_back(lines),
    decreases lines.len(),
{
    if lines.len() == 1 {
        let only = lines[0];
        assert(has_no_line_feed(only));
        if only.len() > 0 {
            lemma_first_line_feed(only, only.len() as int);
        }
    } else if lines.len() >= 2 {
        let first = lines[0];
        let rest = lines.drop_first();
        let text = joined(lines);
        lemma_joined_front(lines);
        assert(has_no_line_feed(first));
        assert forall|i: int| 0 <= i < rest.len() implies has_no_line_feed(#[trigger] rest[i]) by {
            assert(rest[i] == lines[i + 1]);
        }
        lemma_lines_of_joined(rest);
        lemma_first_line_feed(text, first.len() as int);
        assert(text.take(first.len() as int) =~= first);
        assert(text.skip(first.len() as int + 1) =~= joined(rest));
    }
}

/// A carriage return at the end of a line does not show in the trimmed line.
pub proof fn lemma_trimmed_without_carriage_return(line: Seq<char>)
    ensures
        trimmed(without_carriage_return(line)) == trimmed(line),
{
    if line.len() > 0 && line.last() == '\r' {
        lemma_trimmed_without_last_whitespace(line);
    }
}

/// The lines that `read_back` gives, one by one: as many as there were, less
/// an empty last one, each without a carriage return at its end unless it was
/// the last.
pub proof fn lemma_read_back_shape(lines: Seq<Seq<char>>)
    ensures
        lines.len() == 0 ==> read_back(lines).len() == 0,
        lines.len() > 0 ==> read_back(lines).len() == if lines.last().len() == 0 {
            lines.len() - 1
        } else {
            lines.len() as int
        },
        forall|i: int|
            0 <= i < read_back(lines).len() ==> #[trigger] read_back(lines)[i] == if i + 1
                < lines.len() {
                without_carriage_return(lines[i])
            } else {
                lines[i]
            },
    decreases lines.len(),
{
    if lines.len() >= 2 {
        let rest = lines.drop_first();
        lemma_read_back_shape(rest);
        assert(rest.last() == lines.last());
        assert forall|i: int| 0 <= i < read_back(lines).len() implies #[trigger] read_back(
            lines,
        )[i] == if i + 1 < lines.len() {
            without_carriage_return(lines[i])
        } else {
            lines[i]
        } by {
            if i > 0 {
                assert(read_back(lines)[i] == read_back(rest)[i - 1]);
                assert(rest[i - 1] == lines[i]);
            }
        }
    }
}

/// Joined lines are the lines before any place joined, a line feed, and the
/// lines from that place on joined.
pub proof fn lemma_joined_split(lines: Seq<Seq<char>>, at: int)
    requires
        0 < at < lines.len(),
    ensures
        joined(lines) == joined(lines.take(at)) + seq!['\n'] + joined(lines.skip(at)),
    decreases lines.len(),
{
    let front = lines.drop_last();
    if at == lines.len() - 1 {
        assert(lines.take(at) =~= front);
        assert(lines.skip(at) =~= seq![lines.last()]);
    } else {
        lemma_joined_split(front, at);
        let tail = lines.skip(at);
        assert(front.take(at) =~= lines.take(at));
        assert(front.skip(at) =~= tail.drop_last());
        assert(tail.last() == lines.last());
        assert(joined(lines) =~= joined(lines.take(at)) + seq!['\n'] + joined(tail));
    }
}

/// The text of lines with one more line among them: the text of the lines
/// before it, a line feed and the new line, and then, if lines follow, a line
/// feed and their text.
pub proof fn lemma_joined_insert(lines: Seq<Seq<char>>, at: int, line: Seq<char>)
    requires
        0 < at <= lines.len(),
    ensures
        joined(lines.insert(at, line)) == joined(lines.take(at)) + seq!['\n'] + line + if at
            < lines.len() {
            seq!['\n'] + joined(lines.skip(at))
        } else {
            Seq::empty()
        },
{
    let all = lines.insert(at, line);
    if at == lines.len() {
        assert(all.drop_last() =~= lines);
        assert(lines.take(at) =~= lines);
        assert(joined(all) =~= joined(lines) + seq!['\n'] + line + Seq::<char>::empty());
    } else {
        lemma_joined_split(all, at);
        let tail = all.skip(at);
        assert(all.take(at) =~= lines.take(at));
        assert(tail.drop_first() =~= lines.skip(at));
        lemma_joined_front(tail);
        assert(joined(all) =~= joined(lines.take(at)) + seq!['\n'] + line + (seq!['\n']
            + joined(lines.skip(at))));
    }
}

/// Splitting a text with plain line endings and joining the lines gives the
/// text back, less a line feed at its end.
pub proof fn lemma_joined_lines_of(s: Seq<char>)
    requires
        has_plain_line_endings(s),
    ensures
        joined(lines_of(s)) == without_final_line_feed(s),
    decreases s.len(),
{
    if s.len() > 0 {
        lemma_first_line_feed_found(s);
        let n = first_line_feed(s) as int;
        if n < s.len() {
            let head = s.take(n);
            let rest = s.skip(n + 1);
            assert(without_carriage_return(head) == head) by {
                if n > 0 {
                    assert(head.last() == s[n - 1]);
                    assert(!is_carriage_return_line_feed(s, n - 1));
                }
            }
            assert(s =~= head + seq!['\n'] + rest);
            if rest.len() == 0 {
                assert(lines_of(rest).len() == 0);
                assert(lines_of(s) =~= seq![head]);
                assert(s.drop_last() =~= head);
            } else {
                assert forall|at: int| !#[trigger] is_carriage_return_line_feed(rest, at) by {
                    assert(!is_carriage_return_line_feed(s, at + n + 1));
                }
                lemma_joined_lines_of(rest);
                assert(lines_of(rest).len() > 0);
                let lines = lines_of(s);
                assert(lines.drop_first() =~= lines_of(rest));
                lemma_joined_front(lines);
                assert(rest.last() == s.last());
                if rest.last() == '\n' {
                    assert(s.drop_last() =~= head + seq!['\n'] + rest.drop_last());
                }
            }
        } else {
            if s.last() == '\n' {
                assert(s[s.len() - 1] == '\n');
            }
        }
    }
}

} // verus!
