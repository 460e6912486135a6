//! Search options: the partial form a caller hands in and the resolved form the engine reads.

use vstd::prelude::*;

verus! {

/// Options as a caller gives them: every field may be left out.
#[derive(Debug)]
pub struct SearchOptions {
    /// Match letters exactly as written (default: true).
    pub case_sensitive: Option<bool>,
    /// Search the whole buffer as one unit instead of line by line (default: false).
    pub multiline: Option<bool>,
    /// Match whole words only (default: false).
    pub word_regexp: Option<bool>,
    /// Deepest directory level below a root that is visited (default: no bound).
    pub max_depth: Option<u32>,
    /// Visit hidden files and directories (default: false).
    pub hidden: Option<bool>,
    /// Follow symbolic links (default: false).
    pub follow_links: Option<bool>,
    /// Globs of entries to leave out (default: none).
    pub ignore_patterns: Option<Vec<String>>,
    /// Whether the caller reads line numbers (default: true). Records carry them either way.
    pub line_number: Option<bool>,
    /// Report one record per matching file (default: false).
    pub files_with_matches: Option<bool>,
    /// Report the lines that hold no occurrence (default: false).
    pub invert_match: Option<bool>,
    /// Most records taken from one file (default: no bound).
    pub max_count: Option<u32>,
}

/// Options with every field decided.
#[derive(Debug)]
pub struct ResolvedOptions {
    pub case_sensitive: bool,
    pub multiline: bool,
    pub word_regexp: bool,
    pub max_depth: Option<u32>,
    pub hidden: bool,
    pub follow_links: bool,
    pub ignore_patterns: Vec<String>,
    pub line_number: bool,
    pub files_with_matches: bool,
    pub invert_match: bool,
    pub max_count: Option<u32>,
}

/// Resolved options as plain mathematical values.
pub struct OptionsView {
    pub case_sensitive: bool,
    pub multiline: bool,
    pub word_regexp: bool,
    pub max_depth: Option<u32>,
    pub hidden: bool,
    pub follow_links: bool,
    pub ignore_patterns: Seq<Seq<char>>,
    pub line_number: bool,
    pub files_with_matches: bool,
    pub invert_match: bool,
    pub max_count: Option<u32>,
}

/// The characters of each string of a sequence.
pub open spec fn texts(strings: Seq<String>) -> Seq<Seq<char>> {
    Seq::new(strings.len(), |i: int| strings[i]@)
}

impl View for ResolvedOptions {
    type V = OptionsView;

    open spec fn view(&self) -> OptionsView {
        OptionsView {
            case_sensitive: self.case_sensitive,
            multiline: self.multiline,
            word_regexp: self.word_regexp,
            max_depth: self.max_depth,
            hidden: self.hidden,
            follow_links: self.follow_links,
            ignore_patterns: texts(self.ignore_patterns@),
            line_number: self.line_number,
            files_with_matches: self.files_with_matches,
            invert_match: self.invert_match,
            max_count: self.max_count,
        }
    }
}

/// The options in force where a caller gives none.
pub open spec fn default_options() -> OptionsView {
    OptionsView {
        case_sensitive: true,
        multiline: false,
        word_regexp: false,
        max_depth: None,
        hidden: false,
        follow_links: false,
        ignore_patterns: Seq::empty(),
        line_number: true,
        files_with_matches: false,
        invert_match: false,
        max_count: None,
    }
}

/// A flag as given, or its default.
pub open spec fn flag_or(given: Option<bool>, default: bool) -> bool {
    match given {
        Some(value) => value,
        None => default,
    }
}

/// The resolved form of what a caller gave: each field as given, or its default.
pub open spec fn resolved(options: Option<SearchOptions>) -> OptionsView {
    match options {
        None => default_options(),
        Some(given) => OptionsView {
            case_sensitive: flag_or(given.case_sensitive, true),
            multiline: flag_or(given.multiline, false),
            word_regexp: flag_or(given.word_regexp, false),
            max_depth: given.max_depth,
            hidden: flag_or(given.hidden, false),
            follow_links: flag_or(given.follow_links, false),
            ignore_patterns: match given.ignore_patterns {
                Some(patterns) => texts(patterns@),
                None => Seq::empty(),
            },
            line_number: flag_or(given.line_number, true),
            files_with_matches: flag_or(given.files_with_matches, false),
            invert_match: flag_or(given.invert_match, false),
            max_count: given.max_count,
        },
    }
}

impl Default for SearchOptions {
    /// Options that spell out every default and bound nothing.
    fn default() -> (options: SearchOptions)
        ensures
            options.case_sensitive == Some(true),
            options.multiline == Some(false),
            options.word_regexp == Some(false),
            options.max_depth is None,
            options.hidden == Some(false),
            options.follow_links == Some(false),
            options.ignore_patterns is None,
            options.line_number == Some(true),
            options.files_with_matches == Some(false),
            options.invert_match == Some(false),
            options.max_count is None,
            resolved(Some(options)) == default_options(),
    {
        SearchOptions {
            case_sensitive: Some(true),
            multiline: Some(false),
            word_regexp: Some(false),
            max_depth: None,
            hidden: Some(false),
            follow_links: Some(false),
            ignore_patterns: None,
            line_number: Some(true),
            files_with_matches: Some(false),
            invert_match: Some(false),
            max_count: None,
        }
    }
}

/// A flag as given, or its default.
fn pick(given: Option<bool>, default: bool) -> (value: bool)
    ensures
        value == flag_or(given, default),
{
    match given {
        Some(value) => value,
        None => default,
    }
}

/// Resolves what a caller gave into options with every field decided. Cannot fail.
pub fn resolve(options: Option<SearchOptions>) -> (r: ResolvedOptions)
    ensures
        r@ == resolved(options),
{
    match options {
        None => {
            let r = ResolvedOptions {
                case_sensitive: true,
                multiline: false,
                word_regexp: false,
                max_depth: None,
                hidden: false,
                follow_links: false,
                ignore_patterns: Vec::new(),
                line_number: true,
                files_with_matches: false,
                invert_match: false,
                max_count: None,
            };
            assert(r@.ignore_patterns =~= Seq::empty());
            r
        },
        Some(given) => {
            let ghost declared = given.ignore_patterns;
            let ignore_patterns = match given.ignore_patterns {
                Some(patterns) => patterns,
                None => Vec::new(),
            };
            assert(texts(ignore_patterns@) =~= match declared {
                Some(patterns) => texts(patterns@),
                None => Seq::empty(),
            });
            ResolvedOptions {
                case_sensitive: pick(given.case_sensitive, true),
                multiline: pick(given.multiline, false),
                word_regexp: pick(given.word_regexp, false),
                max_depth: given.max_depth,
                hidden: pick(given.hidden, false),
                follow_links: pick(given.follow_links, false),
                ignore_patterns,
                line_number: pick(given.line_number, true),
                files_with_matches: pick(given.files_with_matches, false),
                invert_match: pick(given.invert_match, false),
                max_count: given.max_count,
            }
        },
    }
}

} // verus!
