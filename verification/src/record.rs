//! The record of one reported occurrence and the outcome of scanning one file.

use vstd::prelude::*;
use vstd::utf8::encode_utf8;

verus! {

/// One reported occurrence.
#[derive(Debug, PartialEq, Eq)]
pub struct SearchMatch {
    /// The file that holds the line.
    pub path: String,
    /// The number of the line in its file, counted from 1.
    pub line_number: usize,
    /// The text of the line, its terminator left out.
    pub line: String,
    /// Where the occurrence starts, in bytes from the start of the line; absent where the
    /// record stands for a whole line.
    pub start: Option<usize>,
    /// Where the occurrence ends, in bytes from the start of the line; absent with `start`.
    pub end: Option<usize>,
}

/// A record as plain mathematical values.
pub struct MatchView {
    pub path: Seq<char>,
    pub line_number: int,
    pub line: Seq<char>,
    pub start: Option<int>,
    pub end: Option<int>,
}

/// An optional machine offset as a mathematical integer.
pub open spec fn offset_view(offset: Option<usize>) -> Option<int> {
    match offset {
        Some(value) => Some(value as int),
        None => None,
    }
}

impl View for SearchMatch {
    type V = MatchView;

    open spec fn view(&self) -> MatchView {
        MatchView {
            path: self.path@,
            line_number: self.line_number as int,
            line: self.line@,
            start: offset_view(self.start),
            end: offset_view(self.end),
        }
    }
}

/// The records that a sequence of matches stands for.
pub open spec fn match_views(matches: Seq<SearchMatch>) -> Seq<MatchView> {
    Seq::new(matches.len(), |i: int| matches[i]@)
}

impl MatchView {
    /// What holds of every record that a scan reports: lines are counted from 1, the line
    /// holds no NUL byte, the two offsets are present or absent together, and where present
    /// they lie in order within the bytes of the line.
    pub open spec fn well_formed(self) -> bool {
        &&& self.line_number >= 1
        &&& !encode_utf8(self.line).contains(0u8)
        &&& self.start is Some <==> self.end is Some
        &&& self.start matches Some(s) ==> self.end matches Some(e) ==> 0 <= s <= e
            <= encode_utf8(self.line).len()
    }
}

/// Whether every record of a sequence is well formed.
pub open spec fn all_well_formed(records: Seq<MatchView>) -> bool {
    forall|i: int| 0 <= i < records.len() ==> (#[trigger] records[i]).well_formed()
}

/// Whether every record of a sequence stands for a whole line: neither offset is present.
pub open spec fn all_whole_lines(records: Seq<MatchView>) -> bool {
    forall|i: int|
        0 <= i < records.len() ==> (#[trigger] records[i]).start is None && records[i].end is None
}

/// The record that stands for a whole line.
pub open spec fn whole_line_record(path: Seq<char>, line_number: int, line: Seq<char>) -> MatchView {
    MatchView { path, line_number, line, start: None, end: None }
}

/// The record of one occurrence within a line.
pub open spec fn occurrence_record(
    path: Seq<char>,
    line_number: int,
    line: Seq<char>,
    start: int,
    end: int,
) -> MatchView {
    MatchView { path, line_number, line, start: Some(start), end: Some(end) }
}

/// A sequence cut to at most `limit` items, or whole where no limit is set.
pub open spec fn truncated<A>(items: Seq<A>, limit: Option<int>) -> Seq<A> {
    match limit {
        Some(most) => if 0 <= most < items.len() {
            items.take(most)
        } else if most < 0 {
            Seq::empty()
        } else {
            items
        },
        None => items,
    }
}

impl SearchMatch {
    /// The record that stands for a whole line: no offsets.
    pub fn whole_line(path: &str, line_number: usize, line: String) -> (record: SearchMatch)
        ensures
            record@ == whole_line_record(path@, line_number as int, line@),
    {
        SearchMatch { path: String::from_str(path), line_number, line, start: None, end: None }
    }

    /// The record of one occurrence within a line.
    pub fn occurrence(path: &str, line_number: usize, line: String, start: usize, end: usize) -> (record:
        SearchMatch)
        ensures
            record@ == occurrence_record(
                path@,
                line_number as int,
                line@,
                start as int,
                end as int,
            ),
    {
        SearchMatch {
            path: String::from_str(path),
            line_number,
            line,
            start: Some(start),
            end: Some(end),
        }
    }
}

/// What scanning one file gave.
#[derive(Debug)]
pub struct FileOutcome {
    /// The records found, in the order found.
    pub matches: Vec<SearchMatch>,
    /// Whether the file counts as searched: false only where it could not be read.
    pub searched: bool,
}

/// The outcome of a scan as plain mathematical values.
pub struct OutcomeView {
    pub matches: Seq<MatchView>,
    pub searched: bool,
}

impl View for FileOutcome {
    type V = OutcomeView;

    open spec fn view(&self) -> OutcomeView {
        OutcomeView { matches: match_views(self.matches@), searched: self.searched }
    }
}

impl FileOutcome {
    /// The outcome for a file that could not be read: nothing found, not searched.
    pub fn unreadable() -> (outcome: FileOutcome)
        ensures
            outcome@ == (OutcomeView { matches: Seq::empty(), searched: false }),
    {
        let outcome = FileOutcome { matches: Vec::new(), searched: false };
        assert(outcome@.matches =~= Seq::empty());
        outcome
    }
}

} // verus!
