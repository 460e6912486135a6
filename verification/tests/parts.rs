use text_search::get_supported_file_types;
use text_search::lines::is_binary;
use text_search::lines::split_lines;
use text_search::options::resolve;
use text_search::pattern::wrap_pattern;
use text_search::pattern::CompiledPattern;
use text_search::record::FileOutcome;
use text_search::result::SearchResult;
use text_search::scanner::records_for_line;
use text_search::scanner::records_for_occurrences;
use text_search::validate_pattern;
use text_search::SearchMatch;
use text_search::SearchOptions;

#[test]
fn validate_pattern_tells_valid_from_invalid() {
    assert!(!validate_pattern("["));
    assert!(validate_pattern("[a-z]+"));
}

#[test]
fn validate_pattern_does_not_wrap_the_pattern() {
    assert!(validate_pattern("a|b"));
    assert!(!validate_pattern("(a"));
    assert!(validate_pattern(""));
}

#[test]
fn supported_file_types_are_the_fixed_list() {
    assert_eq!(
        get_supported_file_types(),
        vec![
            "rust", "rs", "javascript", "js", "typescript", "ts", "python", "py", "go", "java", "c",
            "cpp", "html", "css", "json", "xml", "yaml", "yml", "toml", "markdown", "md", "text",
            "txt"
        ]
    );
}

#[test]
fn resolve_applies_the_defaults() {
    let r = resolve(None);
    assert!(r.case_sensitive);
    assert!(!r.multiline);
    assert!(!r.word_regexp);
    assert_eq!(r.max_depth, None);
    assert!(!r.hidden);
    assert!(!r.follow_links);
    assert!(r.ignore_patterns.is_empty());
    assert!(r.line_number);
    assert!(!r.files_with_matches);
    assert!(!r.invert_match);
    assert_eq!(r.max_count, None);
}

#[test]
fn resolve_keeps_what_was_given() {
    let r = resolve(Some(SearchOptions {
        case_sensitive: Some(false),
        multiline: Some(true),
        word_regexp: None,
        max_depth: Some(3),
        hidden: Some(true),
        follow_links: None,
        ignore_patterns: Some(vec!["*.log".to_string()]),
        line_number: Some(false),
        files_with_matches: None,
        invert_match: Some(true),
        max_count: Some(7),
    }));
    assert!(!r.case_sensitive);
    assert!(r.multiline);
    assert!(!r.word_regexp);
    assert_eq!(r.max_depth, Some(3));
    assert!(r.hidden);
    assert!(!r.follow_links);
    assert_eq!(r.ignore_patterns, vec!["*.log".to_string()]);
    assert!(!r.line_number);
    assert!(!r.files_with_matches);
    assert!(r.invert_match);
    assert_eq!(r.max_count, Some(7));
}

#[test]
fn default_options_spell_out_the_defaults() {
    let d = SearchOptions::default();
    assert_eq!(d.case_sensitive, Some(true));
    assert_eq!(d.multiline, Some(false));
    assert_eq!(d.word_regexp, Some(false));
    assert_eq!(d.max_depth, None);
    assert_eq!(d.hidden, Some(false));
    assert_eq!(d.follow_links, Some(false));
    assert_eq!(d.ignore_patterns, None);
    assert_eq!(d.line_number, Some(true));
    assert_eq!(d.files_with_matches, Some(false));
    assert_eq!(d.invert_match, Some(false));
    assert_eq!(d.max_count, None);
}

#[test]
fn wrap_pattern_adds_word_boundaries() {
    assert_eq!(wrap_pattern("cat", true), "\\bcat\\b");
    assert_eq!(wrap_pattern("a|b", true), "\\ba|b\\b");
    assert_eq!(wrap_pattern("cat", false), "cat");
}

#[test]
fn find_at_takes_the_bytes_before_the_offset_into_account() {
    let pattern = CompiledPattern::compile("at", true, false, true).ok().expect("compiles");
    assert_eq!(pattern.find_at(b"batter at", 0), Some((7, 9)));
    assert_eq!(pattern.find_at(b"batter at", 1), Some((7, 9)));
    assert_eq!(pattern.find_at(b"batter at", 8), None);
    assert_eq!(pattern.find_at(b"batter at", 10), None);
}

#[test]
fn find_all_nonoverlapping_starts_at_the_offset() {
    let pattern = CompiledPattern::compile("aa", true, false, false).ok().expect("compiles");
    assert_eq!(pattern.find_all_nonoverlapping(b"aaaaa", 0), vec![(0, 2), (2, 4)]);
    assert_eq!(pattern.find_all_nonoverlapping(b"aaaaa", 1), vec![(1, 3), (3, 5)]);
    assert_eq!(pattern.find_all_nonoverlapping(b"aaaaa", 6), vec![]);
}

#[test]
fn find_all_nonoverlapping_ends_on_empty_occurrences() {
    let pattern = CompiledPattern::compile("", true, false, false).ok().expect("compiles");
    assert_eq!(pattern.find_all_nonoverlapping(b"ab", 0), vec![(0, 0), (1, 1), (2, 2)]);
    assert_eq!(pattern.find_all_nonoverlapping(b"", 0), vec![(0, 0)]);
}

#[test]
fn split_lines_cuts_at_line_feeds() {
    let spans = split_lines(b"ab\r\n\ncd");
    let triples: Vec<(usize, usize, usize)> = spans.iter().map(|s| (s.start, s.end, s.next)).collect();
    assert_eq!(triples, vec![(0, 2, 4), (4, 4, 5), (5, 7, 7)]);
    assert!(split_lines(b"").is_empty());
    assert_eq!(split_lines(b"\n").len(), 1);
    assert_eq!(split_lines(b"a\n").len(), 1);
}

#[test]
fn is_binary_looks_for_a_nul_byte() {
    assert!(is_binary(b"ab\0cd"));
    assert!(!is_binary(b"abcd\n"));
    assert!(!is_binary(b""));
}

#[test]
fn records_for_line_takes_as_many_as_there_is_room_for() {
    let occurrences = vec![(0, 1), (2, 3), (4, 5)];
    let all = records_for_line("/p", 7, "a a a", &occurrences, false, None);
    assert_eq!(all.len(), 3);
    assert_eq!(
        all[1],
        SearchMatch { path: "/p".to_string(), line_number: 7, line: "a a a".to_string(), start: Some(2), end: Some(3) }
    );
    assert_eq!(records_for_line("/p", 7, "a a a", &occurrences, false, Some(2)).len(), 2);
    assert_eq!(records_for_line("/p", 7, "a a a", &occurrences, false, Some(0)).len(), 0);
    let whole = records_for_line("/p", 7, "a a a", &occurrences, true, Some(5));
    assert_eq!(
        whole,
        vec![SearchMatch { path: "/p".to_string(), line_number: 7, line: "a a a".to_string(), start: None, end: None }]
    );
}

#[test]
fn records_for_occurrences_keep_offsets_within_the_line() {
    let records = records_for_occurrences("/p", b"ab\r\ncd\n", &vec![(1, 5), (3, 4), (6, 7), (7, 7)], false, None);
    let seen: Vec<(usize, &str, Option<usize>, Option<usize>)> =
        records.iter().map(|m| (m.line_number, m.line.as_str(), m.start, m.end)).collect();
    assert_eq!(
        seen,
        vec![
            (1, "ab", Some(1), Some(2)),
            (1, "ab", Some(2), Some(2)),
            (2, "cd", Some(2), Some(2)),
            (2, "cd", Some(2), Some(2)),
        ]
    );
    assert!(records_for_occurrences("/p", b"", &vec![(0, 0)], false, None).is_empty());
}

#[test]
fn a_report_counts_files_and_records() {
    let mut report = SearchResult::new();
    assert!(report.success);
    report.record_file(FileOutcome { matches: vec![], searched: true });
    report.record_file(FileOutcome::unreadable());
    report.record_file(FileOutcome {
        matches: vec![
            SearchMatch::whole_line("/p", 1, "a".to_string()),
            SearchMatch::occurrence("/p", 2, "b".to_string(), 0, 1),
        ],
        searched: true,
    });
    assert_eq!(report.files_searched, 2);
    assert_eq!(report.files_with_matches, 1);
    assert_eq!(report.total_matches, 2);
    assert_eq!(report.matches.len(), 2);
    report.record_missing_root("/gone");
    assert!(!report.success);
    assert_eq!(report.error, Some("Path does not exist: /gone".to_string()));
    assert_eq!(report.total_matches, 2);
}
