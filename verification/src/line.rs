//! Lines of a request file: how a document falls into lines, and which of
//! them carry content.

use crate::text::{lemma_position, lemma_position_is, position};
use vstd::prelude::*;
use vstd::std_specs::iter::IteratorSpec;
use vstd::string::StringExecFns;

verus! {

/// A line that carries content, with its place in the document.
pub struct SourceLine {
    /// The characters of the line, without its line ending.
    pub text: Seq<char>,
    /// The position of the line in the document, counted from 1 over all
    /// lines, also those that carry no content.
    pub number: nat,
}

/// A line of a request file together with its line number.
#[derive(Debug, PartialEq, Eq)]
pub struct Line {
    pub text: String,
    pub number: usize,
}

impl View for Line {
    type V = SourceLine;

    open spec fn view(&self) -> SourceLine {
        SourceLine { text: self.text@, number: self.number as nat }
    }
}

impl DeepView for Line {
    type V = SourceLine;

    open spec fn deep_view(&self) -> SourceLine {
        self@
    }
}

impl Clone for Line {
    fn clone(&self) -> (copy: Line)
        ensures
            copy == *self,
    {
        Line { text: self.text.clone(), number: self.number }
    }
}

impl Line {
    /// The line `text` at position `number` of its document.
    pub fn new(text: &str, number: usize) -> (line: Line)
        ensures
            line@ == (SourceLine { text: text@, number: number as nat }),
    {
        Line { text: String::from_str(text), number }
    }
}

/// `s` without the carriage return at its end, if it ends with one.
pub open spec fn strip_cr(s: Seq<char>) -> Seq<char> {
    if s.len() > 0 && s.last() == '\r' {
        s.drop_last()
    } else {
        s
    }
}

/// The lines of a document. A line ends with a line feed, or with a
/// carriage return followed by a line feed; neither is part of the line.
/// What follows the last line feed is a line of its own unless it is empty,
/// and keeps a carriage return at its end.
pub open spec fn lines_of(doc: Seq<char>) -> Seq<Seq<char>>
    decreases doc.len(),
{
    let end = position(doc, '\n') as int;
    if doc.len() == 0 {
        Seq::empty()
    } else if end >= doc.len() {
        seq![doc]
    } else {
        seq![strip_cr(doc.take(end))] + lines_of(doc.skip(end + 1))
    }
}

/// Whether the filter drops a line: it is empty, or its first character is
/// `#`.
pub open spec fn is_dropped(text: Seq<char>) -> bool {
    text.len() == 0 || text[0] == '#'
}

/// The lines that carry content, in order, each with its position among all
/// of `lines`, counted from 1.
pub open spec fn content_lines(lines: Seq<Seq<char>>) -> Seq<SourceLine>
    decreases lines.len(),
{
    if lines.len() == 0 {
        Seq::empty()
    } else if is_dropped(lines.last()) {
        content_lines(lines.drop_last())
    } else {
        content_lines(lines.drop_last()).push(
            SourceLine { text: lines.last(), number: lines.len() },
        )
    }
}

/// No line holds a line feed.
pub proof fn lemma_lines_hold_no_line_feed(doc: Seq<char>, k: int, j: int)
    requires
        0 <= k < lines_of(doc).len(),
        0 <= j < lines_of(doc)[k].len(),
    ensures
        lines_of(doc)[k][j] != '\n',
    decreases doc.len(),
{
    let end = position(doc, '\n') as int;
    lemma_position(doc, '\n');
    if end < doc.len() && k > 0 {
        lemma_lines_hold_no_line_feed(doc.skip(end + 1), k - 1, j);
    }
}

/// Every content line is a line of the document that the filter keeps,
/// and its number is the place of that line, counted from 1.
pub proof fn lemma_content_line(lines: Seq<Seq<char>>, k: int)
    requires
        0 <= k < content_lines(lines).len(),
    ensures
        1 <= content_lines(lines)[k].number <= lines.len(),
        lines[content_lines(lines)[k].number - 1] == content_lines(lines)[k].text,
        !is_dropped(content_lines(lines)[k].text),
    decreases lines.len(),
{
    let before = lines.drop_last();
    if is_dropped(lines.last()) || k < content_lines(before).len() {
        lemma_content_line(before, k);
    }
}

/// The content lines stand in the order of the document: their numbers
/// grow.
pub proof fn lemma_content_order(lines: Seq<Seq<char>>, j: int, k: int)
    requires
        0 <= j < k < content_lines(lines).len(),
    ensures
        content_lines(lines)[j].number < content_lines(lines)[k].number,
    decreases lines.len(),
{
    let before = lines.drop_last();
    if is_dropped(lines.last()) || k < content_lines(before).len() {
        lemma_content_order(before, j, k);
    } else {
        lemma_content_line(before, j);
    }
}

/// Every line that the filter keeps is among the content lines, with its
/// place in the document as its number. The result is where it stands.
pub proof fn lemma_content_complete(lines: Seq<Seq<char>>, i: int) -> (k: int)
    requires
        0 <= i < lines.len(),
        !is_dropped(lines[i]),
    ensures
        0 <= k < content_lines(lines).len(),
        content_lines(lines)[k] == (SourceLine { text: lines[i], number: (i + 1) as nat }),
    decreases lines.len(),
{
    let before = lines.drop_last();
    if i == lines.len() - 1 {
        content_lines(before).len() as int
    } else {
        lemma_content_complete(before, i)
    }
}

/// Where the filter drops every line, no content line is left.
pub proof fn lemma_all_dropped(lines: Seq<Seq<char>>)
    requires
        forall|i: int| 0 <= i < lines.len() ==> is_dropped(#[trigger] lines[i]),
    ensures
        content_lines(lines) == Seq::<SourceLine>::empty(),
    decreases lines.len(),
{
    if lines.len() > 0 {
        let before = lines.drop_last();
        assert forall|i: int| 0 <= i < before.len() implies is_dropped(#[trigger] before[i]) by {
            assert(before[i] == lines[i]);
        }
        lemma_all_dropped(before);
    }
}

/// Splits a document into its lines. Each line is cut out of the document
/// counting from its start, so the time taken grows with the length of the
/// document times the number of its lines.
pub fn split_lines(doc: &str) -> (lines: Vec<String>)
    ensures
        lines.deep_view() == lines_of(doc@),
{
    let n = doc.unicode_len();
    let mut lines: Vec<String> = Vec::new();
    let mut start: usize = 0;
    let mut after_cr = false;
    let mut i: usize = 0;
    assert(doc@.skip(0) =~= doc@);
    assert(lines.deep_view() =~= Seq::<Seq<char>>::empty());
    for c in it: doc.chars()
        invariant
            it.seq() == doc@,
            i == it.index(),
            n == doc@.len(),
            start <= i <= n,
            forall|j: int| start <= j < i ==> #[trigger] doc@[j] != '\n',
            after_cr == (start < i && doc@[i - 1] == '\r'),
            lines_of(doc@) == lines.deep_view() + lines_of(doc@.skip(start as int)),
    {
        if c == '\n' {
            let end = if after_cr {
                i - 1
            } else {
                i
            };
            let line = String::from_str(doc.substring_char(start, end));
            proof {
                let rest = doc@.skip(start as int);
                assert forall|j: int| 0 <= j < i - start implies #[trigger] rest[j] != '\n' by {
                    assert(rest[j] == doc@[start + j]);
                }
                lemma_position_is(rest, '\n', i - start);
                assert(rest.take(i - start) =~= doc@.subrange(start as int, i as int));
                assert(rest.skip(i - start + 1) =~= doc@.skip(i + 1));
                assert(strip_cr(doc@.subrange(start as int, i as int)) =~= line@);
                let old_lines = lines.deep_view();
                assert(lines_of(rest) == seq![line@] + lines_of(doc@.skip(i + 1)));
                assert(old_lines + (seq![line@] + lines_of(doc@.skip(i + 1))) =~= old_lines.push(
                    line@,
                ) + lines_of(doc@.skip(i + 1)));
            }
            let ghost before = lines.deep_view();
            lines.push(line);
            assert(lines.deep_view() =~= before.push(line@));
            start = i + 1;
            after_cr = false;
        } else {
            after_cr = c == '\r';
        }
        i += 1;
    }
    let ghost rest = doc@.skip(start as int);
    if start < n {
        let line = String::from_str(doc.substring_char(start, n));
        proof {
            assert forall|j: int| 0 <= j < rest.len() implies #[trigger] rest[j] != '\n' by {
                assert(rest[j] == doc@[start + j]);
            }
            lemma_position_is(rest, '\n', rest.len() as int);
            assert(line@ =~= rest);
        }
        let ghost before = lines.deep_view();
        lines.push(line);
        assert(lines.deep_view() =~= before.push(line@));
        assert(before + seq![rest] =~= before.push(rest));
    } else {
        assert(lines.deep_view() + Seq::<Seq<char>>::empty() =~= lines.deep_view());
    }
    lines
}

/// The line filter: keeps the lines that are neither empty nor comments,
/// and numbers each by its position in `lines`.
pub fn filter_lines(lines: &Vec<String>) -> (kept: Vec<Line>)
    ensures
        kept.deep_view() == content_lines(lines.deep_view()),
{
    let mut kept: Vec<Line> = Vec::new();
    let ghost all = lines.deep_view();
    assert(all.take(0) =~= Seq::<Seq<char>>::empty());
    assert(kept.deep_view() =~= Seq::<SourceLine>::empty());
    let mut i: usize = 0;
    while i < lines.len()
        invariant
            i <= lines.len(),
            all == lines.deep_view(),
            kept.deep_view() == content_lines(all.take(i as int)),
        decreases lines.len() - i,
    {
        let text = lines[i].as_str();
        proof {
            assert(all.take(i + 1).drop_last() =~= all.take(i as int));
            assert(all.take(i + 1).last() == text@);
        }
        if !text.is_empty() && text.get_char(0) != '#' {
            let ghost before = kept.deep_view();
            let line = Line::new(text, i + 1);
            kept.push(line);
            assert(kept.deep_view() =~= before.push(line@));
        }
        i += 1;
    }
    assert(all.take(i as int) =~= all);
    kept
}

} // verus!
