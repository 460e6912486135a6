use text_search::search;
use text_search::search_file;
use text_search::EntryKind;
use text_search::SearchError;
use text_search::SearchMatch;
use text_search::SearchOptions;
use text_search::SearchResult;
use text_search::Visit;
use text_search::WalkEntry;

fn root_file(path: &str, content: &[u8]) -> Visit {
    Visit::Entry(
        WalkEntry {
            path: path.to_string(),
            relative_path: String::new(),
            name: path.rsplit('/').next().unwrap_or(path).to_string(),
            depth: 0,
            is_symlink: false,
            kind: EntryKind::File,
        },
        Some(content.to_vec()),
    )
}

fn options() -> SearchOptions {
    SearchOptions {
        case_sensitive: None,
        multiline: None,
        word_regexp: None,
        max_depth: None,
        hidden: None,
        follow_links: None,
        ignore_patterns: None,
        line_number: None,
        files_with_matches: None,
        invert_match: None,
        max_count: None,
    }
}

fn found(path: &str, line_number: usize, line: &str, start: usize, end: usize) -> SearchMatch {
    SearchMatch {
        path: path.to_string(),
        line_number,
        line: line.to_string(),
        start: Some(start),
        end: Some(end),
    }
}

fn whole(path: &str, line_number: usize, line: &str) -> SearchMatch {
    SearchMatch { path: path.to_string(), line_number, line: line.to_string(), start: None, end: None }
}

fn run(pattern: &str, visits: Vec<Visit>, options: Option<SearchOptions>) -> SearchResult {
    match search(pattern, &visits, options) {
        Ok(result) => result,
        Err(error) => panic!("the pattern did not compile: {}", error.message()),
    }
}

#[test]
fn finds_every_occurrence_with_its_offsets() {
    let result = run("ab", vec![root_file("/tmp/t", b"ab cab\nnone\nxab\n")], None);
    assert_eq!(
        result.matches,
        vec![
            found("/tmp/t", 1, "ab cab", 0, 2),
            found("/tmp/t", 1, "ab cab", 4, 6),
            found("/tmp/t", 3, "xab", 1, 3),
        ]
    );
    assert_eq!(result.files_searched, 1);
    assert_eq!(result.files_with_matches, 1);
    assert_eq!(result.total_matches, 3);
    assert!(result.success);
    assert_eq!(result.error, None);
}

#[test]
fn totals_agree_with_the_records() {
    let visits = vec![
        root_file("/a", b"x\nxx\n"),
        root_file("/b", b"nothing\n"),
        Visit::MissingRoot("/gone".to_string()),
        root_file("/c", b"x"),
    ];
    let result = run("x", visits, None);
    assert_eq!(result.total_matches, result.matches.len());
    assert_eq!(result.total_matches, 4);
    assert_eq!(result.files_searched, 3);
    assert_eq!(result.files_with_matches, 2);
    assert!(result.files_with_matches <= result.files_searched);
}

#[test]
fn binary_files_are_searched_but_never_match() {
    let visits = vec![
        root_file("/bin/one", b"match\0match\n"),
        root_file("/bin/two", b"\0"),
        root_file("/bin/three", b"match\nmatch\n\0"),
    ];
    let result = run("match", visits, None);
    assert_eq!(result.files_searched, 3);
    assert_eq!(result.total_matches, 0);
    assert_eq!(result.files_with_matches, 0);
    assert!(result.matches.is_empty());
    assert!(result.success);
}

#[test]
fn search_file_is_a_search_of_one_root() {
    let mut given = options();
    given.case_sensitive = Some(false);
    let mut same = options();
    same.case_sensitive = Some(false);
    let single = search_file("Cat", root_file("/tmp/t", b"cat CAT\ndog\n"), Some(given));
    let listed = search("Cat", &vec![root_file("/tmp/t", b"cat CAT\ndog\n")], Some(same));
    let single = single.ok().expect("the pattern compiles");
    let listed = listed.ok().expect("the pattern compiles");
    assert_eq!(single.matches, listed.matches);
    assert_eq!(single.matches.len(), 2);
    assert_eq!(single.files_searched, listed.files_searched);
    assert_eq!(single.files_with_matches, listed.files_with_matches);
    assert_eq!(single.total_matches, listed.total_matches);
    assert_eq!(single.success, listed.success);
    assert_eq!(single.error, listed.error);
}

#[test]
fn word_regexp_matches_only_the_standalone_word() {
    let mut given = options();
    given.word_regexp = Some(true);
    let result = run("cat", vec![root_file("/tmp/t", b"concatenate cat")], Some(given));
    assert_eq!(result.matches, vec![found("/tmp/t", 1, "concatenate cat", 12, 15)]);
}

#[test]
fn without_word_regexp_the_inner_occurrence_is_found_too() {
    let result = run("cat", vec![root_file("/tmp/t", b"concatenate cat")], None);
    assert_eq!(
        result.matches,
        vec![found("/tmp/t", 1, "concatenate cat", 3, 6), found("/tmp/t", 1, "concatenate cat", 12, 15)]
    );
}

#[test]
fn word_regexp_wraps_the_text_and_not_each_alternative() {
    // The wrapped text is \ba|b\b: "a" at the start of a word, or "b" at the end of one.
    let mut given = options();
    given.word_regexp = Some(true);
    let result = run("a|b", vec![root_file("/tmp/t", b"xa ab bx")], Some(given));
    assert_eq!(
        result.matches,
        vec![found("/tmp/t", 1, "xa ab bx", 3, 4), found("/tmp/t", 1, "xa ab bx", 4, 5)]
    );
}

#[test]
fn invert_match_reports_the_lines_without_an_occurrence() {
    let mut given = options();
    given.invert_match = Some(true);
    let result = run("b", vec![root_file("/tmp/t", b"a\nb\nc\n")], Some(given));
    assert_eq!(result.matches, vec![whole("/tmp/t", 1, "a"), whole("/tmp/t", 3, "c")]);
    assert_eq!(result.total_matches, 2);
    assert_eq!(result.files_with_matches, 1);
}

#[test]
fn max_count_bounds_the_records_of_a_file() {
    let mut given = options();
    given.max_count = Some(2);
    let result = run("hit", vec![root_file("/tmp/t", b"hit 1\nhit 2\nhit 3\nhit 4\nhit 5\n")], Some(given));
    assert_eq!(
        result.matches,
        vec![found("/tmp/t", 1, "hit 1", 0, 3), found("/tmp/t", 2, "hit 2", 0, 3)]
    );
    assert_eq!(result.total_matches, 2);
}

#[test]
fn max_count_cuts_within_a_line() {
    let mut given = options();
    given.max_count = Some(3);
    let result = run("a", vec![root_file("/tmp/t", b"aa\naaaa\na\n")], Some(given));
    assert_eq!(
        result.matches,
        vec![found("/tmp/t", 1, "aa", 0, 1), found("/tmp/t", 1, "aa", 1, 2), found("/tmp/t", 2, "aaaa", 0, 1)]
    );
}

#[test]
fn max_count_holds_for_each_file_on_its_own() {
    let mut given = options();
    given.max_count = Some(1);
    let visits = vec![root_file("/a", b"x\nx\n"), root_file("/b", b"x\nx\n")];
    let result = run("x", visits, Some(given));
    assert_eq!(result.matches, vec![found("/a", 1, "x", 0, 1), found("/b", 1, "x", 0, 1)]);
    assert_eq!(result.files_with_matches, 2);
}

#[test]
fn max_count_of_zero_reports_nothing() {
    let mut given = options();
    given.max_count = Some(0);
    let result = run("x", vec![root_file("/a", b"x\n")], Some(given));
    assert!(result.matches.is_empty());
    assert_eq!(result.files_searched, 1);
    assert_eq!(result.files_with_matches, 0);
}

#[test]
fn missing_root_fails_the_search_without_aborting_it() {
    let result = run("x", vec![Visit::MissingRoot("/does/not/exist".to_string())], None);
    assert!(!result.success);
    assert_eq!(result.files_searched, 0);
    assert!(result.matches.is_empty());
    assert_eq!(result.error, Some("Path does not exist: /does/not/exist".to_string()));
}

#[test]
fn only_the_last_missing_root_is_named() {
    let visits = vec![
        Visit::MissingRoot("/first".to_string()),
        root_file("/a", b"x\n"),
        Visit::MissingRoot("/second".to_string()),
        root_file("/b", b"x\n"),
    ];
    let result = run("x", visits, None);
    assert!(!result.success);
    assert_eq!(result.error, Some("Path does not exist: /second".to_string()));
    assert_eq!(result.matches, vec![found("/a", 1, "x", 0, 1), found("/b", 1, "x", 0, 1)]);
    assert_eq!(result.files_searched, 2);
}

#[test]
fn files_with_matches_reports_one_record_for_a_file() {
    let mut given = options();
    given.files_with_matches = Some(true);
    let result = run("hit", vec![root_file("/tmp/t", b"miss\nhit a\nhit b\nhit c\n")], Some(given));
    assert_eq!(result.matches, vec![whole("/tmp/t", 2, "hit a")]);
    assert_eq!(result.files_with_matches, 1);
    assert_eq!(result.total_matches, 1);
}

#[test]
fn files_with_matches_and_invert_report_the_first_line_without_an_occurrence() {
    let mut given = options();
    given.files_with_matches = Some(true);
    given.invert_match = Some(true);
    let result = run("hit", vec![root_file("/tmp/t", b"hit\nmiss\nother\n")], Some(given));
    assert_eq!(result.matches, vec![whole("/tmp/t", 2, "miss")]);
}

#[test]
fn an_invalid_pattern_fails_the_whole_search() {
    let outcome = search("[", &vec![root_file("/a", b"[\n")], None);
    match outcome {
        Err(SearchError::InvalidPattern(diagnostic)) => assert!(!diagnostic.is_empty()),
        Ok(_) => panic!("the pattern must not compile"),
    }
}

#[test]
fn the_message_of_an_invalid_pattern_opens_with_fixed_words() {
    let error = SearchError::InvalidPattern("unclosed character class".to_string());
    assert_eq!(error.message(), "Invalid regex pattern: unclosed character class");
}

#[test]
fn word_wrapping_is_textual() {
    // A lone trailing backslash is no pattern; wrapped, it escapes the boundary's own backslash.
    let mut given = options();
    given.word_regexp = Some(true);
    assert!(search("a\\", &vec![], None).is_err());
    let result = run("a\\", vec![root_file("/t", b"a\\b a")], Some(given));
    assert_eq!(result.matches, vec![found("/t", 1, "a\\b a", 0, 3)]);
}

#[test]
fn case_insensitive_search_ignores_case() {
    let mut given = options();
    given.case_sensitive = Some(false);
    let result = run("hello", vec![root_file("/t", b"Hello HELLO hello\n")], Some(given));
    assert_eq!(result.total_matches, 3);
    let strict = run("hello", vec![root_file("/t", b"Hello HELLO hello\n")], None);
    assert_eq!(strict.matches, vec![found("/t", 1, "Hello HELLO hello", 12, 17)]);
}

#[test]
fn line_terminators_are_left_out_of_the_line() {
    let result = run("b", vec![root_file("/t", b"ab\r\ncb\nb\r")], None);
    assert_eq!(
        result.matches,
        vec![found("/t", 1, "ab", 1, 2), found("/t", 2, "cb", 1, 2), found("/t", 3, "b\r", 0, 1)]
    );
}

#[test]
fn an_empty_file_is_searched_and_has_no_line() {
    let mut given = options();
    given.invert_match = Some(true);
    let result = run("x", vec![root_file("/t", b"")], Some(given));
    assert_eq!(result.files_searched, 1);
    assert!(result.matches.is_empty());
}

#[test]
fn an_empty_line_is_a_line() {
    let mut given = options();
    given.invert_match = Some(true);
    let result = run("x", vec![root_file("/t", b"\n\nx\n")], Some(given));
    assert_eq!(result.matches, vec![whole("/t", 1, ""), whole("/t", 2, "")]);
}

#[test]
fn empty_occurrences_move_the_search_on() {
    let result = run("a*", vec![root_file("/t", b"baab")], None);
    assert_eq!(
        result.matches,
        vec![
            found("/t", 1, "baab", 0, 0),
            found("/t", 1, "baab", 1, 3),
            found("/t", 1, "baab", 3, 3),
            found("/t", 1, "baab", 4, 4),
        ]
    );
}

#[test]
fn a_hit_that_is_not_utf8_ends_the_scan_of_its_file() {
    let visits = vec![root_file("/a", b"hit\n\xff hit\nhit\n"), root_file("/b", b"hit\n")];
    let result = run("hit", visits, None);
    assert_eq!(result.matches, vec![found("/a", 1, "hit", 0, 3), found("/b", 1, "hit", 0, 3)]);
    assert_eq!(result.files_searched, 2);
    assert_eq!(result.files_with_matches, 2);
}

#[test]
fn a_line_that_is_not_utf8_and_no_hit_is_passed_over() {
    let result = run("hit", vec![root_file("/a", b"\xff\xfe\nhit\n")], None);
    assert_eq!(result.matches, vec![found("/a", 2, "hit", 0, 3)]);
}

#[test]
fn offsets_count_bytes() {
    let result = run("b", vec![root_file("/a", "\u{e9}\u{e9}b\n".as_bytes())], None);
    assert_eq!(result.matches, vec![found("/a", 1, "\u{e9}\u{e9}b", 4, 5)]);
}

#[test]
fn multiline_reports_an_occurrence_at_the_line_where_it_starts() {
    let mut given = options();
    given.multiline = Some(true);
    let result = run("o\nb", vec![root_file("/t", b"foo\nbar\nfoo bar\n")], Some(given));
    assert_eq!(result.matches, vec![found("/t", 1, "foo", 2, 3)]);
}

#[test]
fn multiline_counts_offsets_from_the_start_of_the_line() {
    let mut given = options();
    given.multiline = Some(true);
    let result = run("ar", vec![root_file("/t", b"foo\nbar\nfoo bar")], Some(given));
    assert_eq!(result.matches, vec![found("/t", 2, "bar", 1, 3), found("/t", 3, "foo bar", 5, 7)]);
}

#[test]
fn multiline_anchors_match_at_every_line() {
    let mut given = options();
    given.multiline = Some(true);
    let result = run("^b", vec![root_file("/t", b"a\nb\nab\nb")], Some(given));
    assert_eq!(result.matches, vec![found("/t", 2, "b", 0, 1), found("/t", 4, "b", 0, 1)]);
}

#[test]
fn multiline_invert_reports_every_line_of_a_buffer_without_an_occurrence() {
    let mut given = options();
    given.multiline = Some(true);
    given.invert_match = Some(true);
    let result = run("x", vec![root_file("/t", b"a\nb\n"), root_file("/u", b"a\nx\n")], Some(given));
    assert_eq!(result.matches, vec![whole("/t", 1, "a"), whole("/t", 2, "b")]);
    assert_eq!(result.files_searched, 2);
    assert_eq!(result.files_with_matches, 1);
}

#[test]
fn multiline_files_with_matches_reports_the_first_occurrence_only() {
    let mut given = options();
    given.multiline = Some(true);
    given.files_with_matches = Some(true);
    let result = run("b", vec![root_file("/t", b"a\nb\nb\n")], Some(given));
    assert_eq!(result.matches, vec![whole("/t", 2, "b")]);
}

#[test]
fn an_unreadable_file_does_not_count() {
    let unreadable = Visit::Entry(
        WalkEntry {
            path: "/locked".to_string(),
            relative_path: String::new(),
            name: "locked".to_string(),
            depth: 0,
            is_symlink: false,
            kind: EntryKind::File,
        },
        None,
    );
    let result = run("x", vec![unreadable, root_file("/open", b"x\n")], None);
    assert_eq!(result.files_searched, 1);
    assert_eq!(result.matches, vec![found("/open", 1, "x", 0, 1)]);
    assert!(result.success);
}

#[test]
fn records_keep_the_order_of_the_visits() {
    let visits = vec![root_file("/z", b"x\n"), root_file("/a", b"x\n"), root_file("/m", b"x\n")];
    let result = run("x", visits, None);
    let paths: Vec<&str> = result.matches.iter().map(|m| m.path.as_str()).collect();
    assert_eq!(paths, vec!["/z", "/a", "/m"]);
}

#[test]
fn records_carry_line_numbers_whether_asked_for_or_not() {
    let mut given = options();
    given.line_number = Some(false);
    let result = run("x", vec![root_file("/t", b"a\nx\n")], Some(given));
    assert_eq!(result.matches, vec![found("/t", 2, "x", 0, 1)]);
}
