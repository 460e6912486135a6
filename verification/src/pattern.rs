//! Compiling a search pattern and finding its occurrences in a byte buffer.

use crate::error::SearchError;
use grep::matcher::Matcher;
use vstd::prelude::*;

verus! {

/// The matcher of the `grep` crate's regex engine; nothing inside it is visible here.
#[verifier::external_type_specification]
#[verifier::external_body]
pub struct ExRegexMatcher(grep::regex::RegexMatcher);

/// The error that the regex engine of the `grep` crate reports for a pattern it cannot build.
#[verifier::external_type_specification]
#[verifier::external_body]
pub struct ExRegexError(grep::regex::Error);

/// What building a matcher from `pattern` with the two flags yields: `None` where the regex
/// engine accepts the pattern, otherwise the diagnostic that its error displays.
pub uninterp spec fn regex_diagnostic(
    pattern: Seq<char>,
    case_insensitive: bool,
    multi_line: bool,
) -> Option<Seq<char>>;

/// The pattern and the two flags that a matcher was built from.
pub uninterp spec fn matcher_source(matcher: grep::regex::RegexMatcher) -> (Seq<char>, bool, bool);

/// The text that a build error displays.
pub uninterp spec fn error_text(error: grep::regex::Error) -> Seq<char>;

/// The first occurrence that a matcher built from `pattern` and the two flags finds in
/// `haystack` at or after the offset `at`, as start and end offsets into `haystack`.
pub uninterp spec fn regex_find(
    pattern: Seq<char>,
    case_insensitive: bool,
    multi_line: bool,
    haystack: Seq<u8>,
    at: int,
) -> Option<(int, int)>;

/// Calls `RegexMatcherBuilder::build` of `grep::regex` after setting the builder's
/// `case_insensitive` and `multi_line` flags. Trusted: the build succeeds exactly where
/// `regex_diagnostic` is `None`, the matcher is built from the arguments given, and the error
/// displays the diagnostic.
#[verifier::external_body]
fn build_matcher(pattern: &str, case_insensitive: bool, multi_line: bool) -> (r: Result<
    grep::regex::RegexMatcher,
    grep::regex::Error,
>)
    ensures
        r is Ok <==> regex_diagnostic(pattern@, case_insensitive, multi_line) is None,
        r matches Ok(m) ==> matcher_source(m) == (pattern@, case_insensitive, multi_line),
        r matches Err(e) ==> regex_diagnostic(pattern@, case_insensitive, multi_line) == Some(
            error_text(e),
        ),
{
    let mut builder = grep::regex::RegexMatcherBuilder::new();
    builder.case_insensitive(case_insensitive);
    builder.multi_line(multi_line);
    builder.build(pattern)
}

/// Formats a build error of `grep::regex` through its `Display` impl. Trusted: the string
/// holds the text that the error displays.
#[verifier::external_body]
fn describe_error(error: &grep::regex::Error) -> (text: String)
    ensures
        text@ == error_text(*error),
{
    error.to_string()
}

/// Calls `Matcher::find_at` on a `RegexMatcher`. Trusted: the result is the occurrence that
/// `regex_find` names for what the matcher was built from, and an occurrence starts at or
/// after `at`, ends at or after its start, and ends within the haystack.
#[verifier::external_body]
fn matcher_find_at(matcher: &grep::regex::RegexMatcher, haystack: &[u8], at: usize) -> (r: Option<
    (usize, usize),
>)
    requires
        at <= haystack@.len(),
    ensures
        offsets(r) == regex_find(
            matcher_source(*matcher).0,
            matcher_source(*matcher).1,
            matcher_source(*matcher).2,
            haystack@,
            at as int,
        ),
        r matches Some((s, e)) ==> at <= s <= e <= haystack@.len(),
{
    match matcher.find_at(haystack, at) {
        Ok(Some(found)) => Some((found.start(), found.end())),
        _ => None,
    }
}

/// An optional pair of machine offsets as mathematical integers.
pub open spec fn offsets(r: Option<(usize, usize)>) -> Option<(int, int)> {
    match r {
        Some((s, e)) => Some((s as int, e as int)),
        None => None,
    }
}

/// A sequence of machine offset pairs as mathematical integers.
pub open spec fn offset_pairs(found: Seq<(usize, usize)>) -> Seq<(int, int)> {
    Seq::new(found.len(), |i: int| (found[i].0 as int, found[i].1 as int))
}

/// What a compiled pattern stands for: the text handed to the regex engine and the two flags
/// it was compiled with.
pub struct PatternView {
    pub text: Seq<char>,
    pub case_insensitive: bool,
    pub multi_line: bool,
}

/// The two characters of a word-boundary assertion.
pub open spec fn word_boundary() -> Seq<char> {
    seq!['\\', 'b']
}

/// The text handed to the regex engine: the pattern itself, or, for whole-word search, the
/// pattern between two word-boundary assertions. The wrap is textual: it surrounds the whole
/// pattern, not each branch of an alternation in it.
pub open spec fn effective_pattern(pattern: Seq<char>, word_regexp: bool) -> Seq<char> {
    if word_regexp {
        word_boundary() + pattern + word_boundary()
    } else {
        pattern
    }
}

/// What compiling `pattern` under the three options stands for.
pub open spec fn pattern_view(
    pattern: Seq<char>,
    case_sensitive: bool,
    multiline: bool,
    word_regexp: bool,
) -> PatternView {
    PatternView {
        text: effective_pattern(pattern, word_regexp),
        case_insensitive: !case_sensitive,
        multi_line: multiline,
    }
}

/// The diagnostic for `pattern` under the three options, `None` where it compiles.
pub open spec fn compile_diagnostic(
    pattern: Seq<char>,
    case_sensitive: bool,
    multiline: bool,
    word_regexp: bool,
) -> Option<Seq<char>> {
    regex_diagnostic(effective_pattern(pattern, word_regexp), !case_sensitive, multiline)
}

/// The first occurrence of the pattern in `haystack` at or after `at`: none beyond the end of
/// the haystack, and none that would lie outside the searched part.
pub open spec fn first_occurrence(p: PatternView, haystack: Seq<u8>, at: int) -> Option<(int, int)> {
    if 0 <= at <= haystack.len() {
        match regex_find(p.text, p.case_insensitive, p.multi_line, haystack, at) {
            Some((s, e)) => if at <= s <= e <= haystack.len() {
                Some((s, e))
            } else {
                None
            },
            None => None,
        }
    } else {
        None
    }
}

/// Where the search goes on after an occurrence: at its end, or one byte further where the
/// occurrence is empty, so that every step moves forward.
pub open spec fn resume_offset(start: int, end: int) -> int {
    if end > start {
        end
    } else {
        end + 1
    }
}

/// All occurrences of the pattern in `haystack` from `at` on, none overlapping another: the
/// first one, then those found from where the search resumes.
pub open spec fn occurrences(p: PatternView, haystack: Seq<u8>, at: int) -> Seq<(int, int)>
    decreases haystack.len() - at,
{
    match first_occurrence(p, haystack, at) {
        Some((s, e)) => {
            if resume_offset(s, e) <= haystack.len() {
                seq![(s, e)] + occurrences(p, haystack, resume_offset(s, e))
            } else {
                seq![(s, e)]
            }
        },
        None => Seq::empty(),
    }
}

/// There are occurrences exactly where there is a first one, and it leads them.
pub proof fn lemma_occurrences_start_with_the_first(p: PatternView, haystack: Seq<u8>, at: int)
    ensures
        occurrences(p, haystack, at).len() > 0 <==> first_occurrence(p, haystack, at) is Some,
        first_occurrence(p, haystack, at) matches Some(first) ==> occurrences(p, haystack, at)[0]
            == first,
{
}

/// A pattern compiled once for a search and only read afterwards.
pub struct CompiledPattern {
    matcher: grep::regex::RegexMatcher,
}

impl View for CompiledPattern {
    type V = PatternView;

    closed spec fn view(&self) -> PatternView {
        PatternView {
            text: matcher_source(self.matcher).0,
            case_insensitive: matcher_source(self.matcher).1,
            multi_line: matcher_source(self.matcher).2,
        }
    }
}

/// Builds the text handed to the regex engine.
pub fn wrap_pattern(pattern: &str, word_regexp: bool) -> (text: String)
    ensures
        text@ == effective_pattern(pattern@, word_regexp),
{
    if word_regexp {
        proof {
            reveal_strlit("\\b");
            assert("\\b"@ =~= word_boundary());
        }
        String::from_str("\\b").concat(pattern).concat("\\b")
    } else {
        String::from_str(pattern)
    }
}

impl CompiledPattern {
    /// Compiles `pattern` under the three matching options. Fails with `InvalidPattern`,
    /// carrying the regex engine's diagnostic, exactly where the text handed to the engine
    /// is no valid regular expression.
    pub fn compile(pattern: &str, case_sensitive: bool, multiline: bool, word_regexp: bool) -> (r:
        Result<CompiledPattern, SearchError>)
        ensures
            match r {
                Ok(compiled) => {
                    &&& compile_diagnostic(pattern@, case_sensitive, multiline, word_regexp) is None
                    &&& compiled@ == pattern_view(pattern@, case_sensitive, multiline, word_regexp)
                },
                Err(error) => compile_diagnostic(pattern@, case_sensitive, multiline, word_regexp)
                    == Some(error.diagnostic()),
            },
    {
        let text = wrap_pattern(pattern, word_regexp);
        match build_matcher(text.as_str(), !case_sensitive, multiline) {
            Ok(matcher) => Ok(CompiledPattern { matcher }),
            Err(error) => Err(SearchError::invalid_pattern(describe_error(&error))),
        }
    }

    /// The first occurrence at or after `at`, as start and end offsets into `haystack`.
    pub fn find_at(&self, haystack: &[u8], at: usize) -> (r: Option<(usize, usize)>)
        ensures
            offsets(r) == first_occurrence(self@, haystack@, at as int),
            r matches Some((s, e)) ==> at <= s <= e <= haystack@.len(),
    {
        if at > haystack.len() {
            None
        } else {
            matcher_find_at(&self.matcher, haystack, at)
        }
    }

    /// All occurrences from `start_offset` on, none overlapping another, in the order found.
    /// After an empty occurrence the search moves one byte on, so it always ends.
    pub fn find_all_nonoverlapping(&self, haystack: &[u8], start_offset: usize) -> (found: Vec<
        (usize, usize),
    >)
        ensures
            offset_pairs(found@) == occurrences(self@, haystack@, start_offset as int),
    {
        let mut found: Vec<(usize, usize)> = Vec::new();
        let mut at: usize = start_offset;
        let mut open = start_offset <= haystack.len();
        assert(offset_pairs(found@) =~= Seq::empty());
        while open
            invariant
                open ==> at <= haystack@.len(),
                occurrences(self@, haystack@, start_offset as int) == offset_pairs(found@) + (
                if open {
                    occurrences(self@, haystack@, at as int)
                } else {
                    Seq::empty()
                }),
            decreases
                    (if open {
                        haystack@.len() - at + 1
                    } else {
                        0
                    }),
        {
            let ghost before = found@;
            match self.find_at(haystack, at) {
                None => {
                    open = false;
                },
                Some((s, e)) => {
                    found.push((s, e));
                    assert(offset_pairs(found@) =~= offset_pairs(before) + seq![(s as int, e as int)]);
                    if e > s {
                        at = e;
                    } else if e < haystack.len() {
                        at = e + 1;
                    } else {
                        open = false;
                    }
                },
            }
        }
        found
    }
}

/// Whether `pattern` compiles under the default matching options: case-sensitive, no
/// word-boundary wrapping, no multiline flag. Nothing is searched.
pub fn validate_pattern(pattern: &str) -> (valid: bool)
    ensures
        valid == (compile_diagnostic(pattern@, true, false, false) is None),
{
    CompiledPattern::compile(pattern, true, false, false).is_ok()
}

} // verus!
