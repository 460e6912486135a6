//! The search itself: a pattern, the options, and what a walk of the roots came to.

use crate::error::SearchError;
use crate::laws::lemma_after_visit;
use crate::laws::lemma_search_file_is_a_search_of_one;
use crate::options::resolve;
use crate::options::resolved;
use crate::options::OptionsView;
use crate::options::ResolvedOptions;
use crate::options::SearchOptions;
use crate::pattern::compile_diagnostic;
use crate::pattern::pattern_view;
use crate::pattern::CompiledPattern;
use crate::pattern::PatternView;
use crate::record::all_well_formed;
use crate::record::FileOutcome;
use crate::record::OutcomeView;
use crate::result::ResultView;
use crate::result::SearchResult;
use crate::scanner::file_records;
use crate::scanner::scan_file;
use crate::walker::admission;
use crate::walker::decide;
use crate::walker::is_pruned;
use crate::walker::Admission;
use crate::walker::EntryView;
use crate::walker::IgnoreSet;
use crate::walker::WalkEntry;
use vstd::prelude::*;

verus! {

/// One thing that the walk of the root paths came to, in the order of the walk.
#[derive(Debug)]
pub enum Visit {
    /// A root path that does not exist.
    MissingRoot(String),
    /// An entry, with the bytes of the file where it is one that could be read.
    Entry(WalkEntry, Option<Vec<u8>>),
}

/// A visit as plain mathematical values.
pub enum VisitView {
    MissingRoot(Seq<char>),
    Entry(EntryView, Option<Seq<u8>>),
}

/// The bytes of an optional buffer.
pub open spec fn bytes_view(content: Option<Vec<u8>>) -> Option<Seq<u8>> {
    match content {
        Some(bytes) => Some(bytes@),
        None => None,
    }
}

impl View for Visit {
    type V = VisitView;

    open spec fn view(&self) -> VisitView {
        match self {
            Visit::MissingRoot(path) => VisitView::MissingRoot(path@),
            Visit::Entry(entry, content) => VisitView::Entry(entry@, bytes_view(*content)),
        }
    }
}

/// The visits that a sequence stands for.
pub open spec fn visit_views(visits: Seq<Visit>) -> Seq<VisitView> {
    Seq::new(visits.len(), |i: int| visits[i]@)
}

/// The outcome of an entry: a file that the walk yields is scanned where it could be read;
/// every other entry, and a file that could not be read, counts for nothing.
pub open spec fn entry_outcome(
    entry: EntryView,
    content: Option<Seq<u8>>,
    p: PatternView,
    o: OptionsView,
) -> OutcomeView {
    match content {
        Some(bytes) => if admission(entry, o) == Admission::Yield {
            OutcomeView { matches: file_records(entry.path, bytes, p, o), searched: true }
        } else {
            OutcomeView { matches: Seq::empty(), searched: false }
        },
        None => OutcomeView { matches: Seq::empty(), searched: false },
    }
}

/// The report after one more visit.
pub open spec fn after_visit(r: ResultView, visit: VisitView, p: PatternView, o: OptionsView) -> ResultView {
    match visit {
        VisitView::MissingRoot(path) => r.with_missing_root(path),
        VisitView::Entry(entry, content) => r.with_file(entry_outcome(entry, content, p, o)),
    }
}

/// The report after a sequence of visits, taken in their order.
pub open spec fn after_visits(
    r: ResultView,
    visits: Seq<VisitView>,
    p: PatternView,
    o: OptionsView,
) -> ResultView
    decreases visits.len(),
{
    if visits.len() == 0 {
        r
    } else {
        after_visit(after_visits(r, visits.drop_last(), p, o), visits.last(), p, o)
    }
}

/// What a search gives: the diagnostic where the pattern does not compile under the
/// resolved options, otherwise the report after all visits.
pub open spec fn search_model(
    pattern: Seq<char>,
    visits: Seq<VisitView>,
    options: Option<SearchOptions>,
) -> Result<ResultView, Seq<char>> {
    let o = resolved(options);
    match compile_diagnostic(pattern, o.case_sensitive, o.multiline, o.word_regexp) {
        Some(diagnostic) => Err(diagnostic),
        None => Ok(
            after_visits(
                ResultView::empty(),
                visits,
                pattern_view(pattern, o.case_sensitive, o.multiline, o.word_regexp),
                o,
            ),
        ),
    }
}

/// What a search of one file gives: the diagnostic where the pattern does not compile,
/// otherwise the report after that one visit.
pub open spec fn search_file_model(
    pattern: Seq<char>,
    visit: VisitView,
    options: Option<SearchOptions>,
) -> Result<ResultView, Seq<char>> {
    let o = resolved(options);
    match compile_diagnostic(pattern, o.case_sensitive, o.multiline, o.word_regexp) {
        Some(diagnostic) => Err(diagnostic),
        None => Ok(
            after_visit(
                ResultView::empty(),
                visit,
                pattern_view(pattern, o.case_sensitive, o.multiline, o.word_regexp),
                o,
            ),
        ),
    }
}

/// What an executed search gave, as plain mathematical values.
pub open spec fn outcome_view(r: Result<SearchResult, SearchError>) -> Result<ResultView, Seq<char>> {
    match r {
        Ok(result) => Ok(result@),
        Err(error) => Err(error.diagnostic()),
    }
}

/// All that a search needs besides the files: the resolved options, the compiled pattern
/// and the compiled ignore patterns. Built once, then only read.
pub struct Searcher {
    options: ResolvedOptions,
    pattern: CompiledPattern,
    ignore: IgnoreSet,
}

impl Searcher {
    #[verifier::type_invariant]
    spec fn consistent(self) -> bool {
        self.ignore@ == self.options@.ignore_patterns
    }

    /// The options the searcher was built with.
    pub closed spec fn options(self) -> OptionsView {
        self.options@
    }

    /// The pattern the searcher was built with.
    pub closed spec fn pattern(self) -> PatternView {
        self.pattern@
    }

    /// Resolves the options and compiles the pattern and the ignore patterns. Fails, before
    /// anything is visited, exactly where the pattern does not compile.
    pub fn new(pattern: &str, options: Option<SearchOptions>) -> (r: Result<Searcher, SearchError>)
        ensures
            match r {
                Ok(searcher) => {
                    let o = resolved(options);
                    &&& compile_diagnostic(pattern@, o.case_sensitive, o.multiline, o.word_regexp)
                        is None
                    &&& searcher.options() == o
                    &&& searcher.pattern() == pattern_view(
                        pattern@,
                        o.case_sensitive,
                        o.multiline,
                        o.word_regexp,
                    )
                },
                Err(error) => {
                    let o = resolved(options);
                    compile_diagnostic(pattern@, o.case_sensitive, o.multiline, o.word_regexp)
                        == Some(error.diagnostic())
                },
            },
    {
        let options = resolve(options);
        match CompiledPattern::compile(
            pattern,
            options.case_sensitive,
            options.multiline,
            options.word_regexp,
        ) {
            Ok(compiled) => {
                let ignore = IgnoreSet::compile(&options.ignore_patterns);
                Ok(Searcher { options, pattern: compiled, ignore })
            },
            Err(error) => Err(error),
        }
    }

    /// Decides what the walk does with an entry.
    pub fn judge(&self, entry: &WalkEntry) -> (r: Admission)
        ensures
            r == admission(entry@, self.options()),
    {
        proof {
            use_type_invariant(self);
        }
        decide(entry, &self.options, is_pruned(entry, &self.ignore))
    }

    /// The resolved options, for a walk that wants to read no more than the search needs.
    pub fn settings(&self) -> (options: &ResolvedOptions)
        ensures
            options@ == self.options(),
    {
        &self.options
    }

    /// Scans the bytes of one file.
    pub fn scan(&self, path: &str, content: &[u8]) -> (outcome: FileOutcome)
        ensures
            outcome@ == (OutcomeView {
                matches: file_records(path@, content@, self.pattern(), self.options()),
                searched: true,
            }),
            all_well_formed(outcome@.matches),
    {
        scan_file(path, content, &self.pattern, &self.options)
    }

    /// Takes one visit into the report: a missing root is noted, a file that the walk
    /// yields is scanned where it could be read, anything else changes nothing.
    pub fn visit(&self, result: &mut SearchResult, visit: &Visit)
        requires
            old(result)@.consistent(),
            old(result).files_searched < usize::MAX,
        ensures
            final(result)@ == after_visit(old(result)@, visit@, self.pattern(), self.options()),
            final(result)@.consistent(),
            final(result).files_searched <= old(result).files_searched + 1,
            all_well_formed(old(result)@.matches) ==> all_well_formed(final(result)@.matches),
    {
        proof {
            lemma_after_visit(old(result)@, visit@, self.pattern(), self.options());
        }
        match visit {
            Visit::MissingRoot(path) => {
                result.record_missing_root(path.as_str());
            },
            Visit::Entry(entry, content) => {
                match content {
                    Some(bytes) => {
                        if self.judge(entry) == Admission::Yield {
                            let outcome = self.scan(entry.path.as_str(), bytes.as_slice());
                            result.record_file(outcome);
                        }
                    },
                    None => {},
                }
            },
        }
    }
}

/// Searches what a walk of the root paths came to. Fails only where the pattern does not
/// compile; a missing root is noted in the report and the search goes on. In the report the
/// total is the number of records, no more files gave records than were searched, and
/// every record is well formed.
pub fn search(pattern: &str, visits: &Vec<Visit>, options: Option<SearchOptions>) -> (r: Result<
    SearchResult,
    SearchError,
>)
    ensures
        outcome_view(r) == search_model(pattern@, visit_views(visits@), options),
        r matches Ok(result) ==> {
            &&& result@.consistent()
            &&& all_well_formed(result@.matches)
            &&& result.files_searched <= visits@.len()
        },
{
    let searcher = match Searcher::new(pattern, options) {
        Ok(searcher) => searcher,
        Err(error) => {
            return Err(error);
        },
    };
    let mut result = SearchResult::new();
    let mut i: usize = 0;
    let ghost all = visit_views(visits@);
    assert(all.take(0) =~= Seq::empty());
    while i < visits.len()
        invariant
            i <= visits@.len(),
            all == visit_views(visits@),
            result@.consistent(),
            all_well_formed(result@.matches),
            result.files_searched <= i,
            result@ == after_visits(
                ResultView::empty(),
                all.take(i as int),
                searcher.pattern(),
                searcher.options(),
            ),
        decreases visits@.len() - i,
    {
        searcher.visit(&mut result, &visits[i]);
        proof {
            let next = all.take(i + 1);
            assert(next.drop_last() =~= all.take(i as int));
            assert(next.last() == visits@[i as int]@);
        }
        i += 1;
    }
    assert(all.take(i as int) =~= all);
    Ok(result)
}

/// Searches one file: the same as a search of that one visit alone.
pub fn search_file(pattern: &str, visit: Visit, options: Option<SearchOptions>) -> (r: Result<
    SearchResult,
    SearchError,
>)
    ensures
        outcome_view(r) == search_file_model(pattern@, visit@, options),
        outcome_view(r) == search_model(pattern@, seq![visit@], options),
        r matches Ok(result) ==> {
            &&& result@.consistent()
            &&& all_well_formed(result@.matches)
            &&& result.files_searched <= 1
        },
{
    proof {
        lemma_search_file_is_a_search_of_one(pattern@, visit@, options);
    }
    let visits = vec![visit];
    assert(visit_views(visits@) =~= seq![visit@]);
    search(pattern, &visits, options)
}

} // verus!
