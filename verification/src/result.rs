//! The report of a search and the steps that build it up.

use crate::record::match_views;
use crate::record::FileOutcome;
use crate::record::MatchView;
use crate::record::OutcomeView;
use crate::record::SearchMatch;
use vstd::prelude::*;

verus! {

/// The report of a search.
#[derive(Debug)]
pub struct SearchResult {
    /// The records, in the order found: root by root, file by file, left to right.
    pub matches: Vec<SearchMatch>,
    /// How many files were scanned, with or without a record.
    pub files_searched: usize,
    /// How many files gave at least one record.
    pub files_with_matches: usize,
    /// How many records there are.
    pub total_matches: usize,
    /// False once a root path was found missing.
    pub success: bool,
    /// The message for the root path found missing last, if any was.
    pub error: Option<String>,
}

/// A report as plain mathematical values.
pub struct ResultView {
    pub matches: Seq<MatchView>,
    pub files_searched: int,
    pub files_with_matches: int,
    pub total_matches: int,
    pub success: bool,
    pub error: Option<Seq<char>>,
}

/// The characters of an optional string.
pub open spec fn text_view(text: Option<String>) -> Option<Seq<char>> {
    match text {
        Some(s) => Some(s@),
        None => None,
    }
}

impl View for SearchResult {
    type V = ResultView;

    open spec fn view(&self) -> ResultView {
        ResultView {
            matches: match_views(self.matches@),
            files_searched: self.files_searched as int,
            files_with_matches: self.files_with_matches as int,
            total_matches: self.total_matches as int,
            success: self.success,
            error: text_view(self.error),
        }
    }
}

/// The fixed words that open the message for a missing root path.
pub open spec fn missing_root_prefix() -> Seq<char> {
    "Path does not exist: "@
}

impl ResultView {
    /// The report before anything was visited.
    pub open spec fn empty() -> ResultView {
        ResultView {
            matches: Seq::empty(),
            files_searched: 0,
            files_with_matches: 0,
            total_matches: 0,
            success: true,
            error: None,
        }
    }

    /// The report after a root path was found missing: the search has failed, and the
    /// message names this path, replacing any earlier message.
    pub open spec fn with_missing_root(self, path: Seq<char>) -> ResultView {
        ResultView { success: false, error: Some(missing_root_prefix() + path), ..self }
    }

    /// The report after one file was scanned. A file that could not be read changes
    /// nothing. A file that was searched counts as such, and where it gave records it
    /// counts as a file with matches and its records are appended.
    pub open spec fn with_file(self, outcome: OutcomeView) -> ResultView {
        if !outcome.searched {
            self
        } else if outcome.matches.len() == 0 {
            ResultView { files_searched: self.files_searched + 1, ..self }
        } else {
            ResultView {
                matches: self.matches + outcome.matches,
                files_searched: self.files_searched + 1,
                files_with_matches: self.files_with_matches + 1,
                total_matches: self.total_matches + outcome.matches.len(),
                ..self
            }
        }
    }

    /// What holds of every report: the total is the number of records, no more files gave
    /// records than were searched or than there are records, and the search has failed
    /// exactly where a message is kept.
    pub open spec fn consistent(self) -> bool {
        &&& self.total_matches == self.matches.len()
        &&& 0 <= self.files_with_matches <= self.files_searched
        &&& self.files_with_matches <= self.total_matches
        &&& self.success <==> self.error is None
    }
}

impl SearchResult {
    /// The report before anything was visited: nothing found, no failure.
    pub fn new() -> (result: SearchResult)
        ensures
            result@ == ResultView::empty(),
            result@.consistent(),
    {
        let result = SearchResult {
            matches: Vec::new(),
            files_searched: 0,
            files_with_matches: 0,
            total_matches: 0,
            success: true,
            error: None,
        };
        assert(result@.matches =~= Seq::empty());
        result
    }

    /// Notes that a root path does not exist. The search goes on with the other roots.
    pub fn record_missing_root(&mut self, path: &str)
        ensures
            final(self)@ == old(self)@.with_missing_root(path@),
            old(self)@.consistent() ==> final(self)@.consistent(),
    {
        self.success = false;
        self.error = Some(String::from_str("Path does not exist: ").concat(path));
    }

    /// Folds the outcome of one file into the report.
    pub fn record_file(&mut self, outcome: FileOutcome)
        requires
            old(self)@.consistent(),
            old(self).files_searched < usize::MAX,
        ensures
            final(self)@ == old(self)@.with_file(outcome@),
            final(self)@.consistent(),
    {
        if outcome.searched {
            self.files_searched = self.files_searched + 1;
            let mut fresh = outcome.matches;
            if fresh.len() > 0 {
                let ghost before = match_views(self.matches@);
                let ghost added = match_views(fresh@);
                self.matches.append(&mut fresh);
                self.files_with_matches = self.files_with_matches + 1;
                self.total_matches = self.matches.len();
                assert(match_views(self.matches@) =~= before + added);
            }
        }
    }
}

} // verus!
