use text_search::search;
use text_search::Admission;
use text_search::EntryKind;
use text_search::IgnoreSet;
use text_search::SearchOptions;
use text_search::Searcher;
use text_search::Visit;
use text_search::WalkEntry;

fn entry(relative_path: &str, kind: EntryKind) -> WalkEntry {
    WalkEntry {
        path: format!("root/{}", relative_path),
        relative_path: relative_path.to_string(),
        name: relative_path.rsplit('/').next().unwrap_or(relative_path).to_string(),
        depth: relative_path.split('/').count(),
        is_symlink: false,
        kind,
    }
}

fn root(kind: EntryKind) -> WalkEntry {
    WalkEntry {
        path: ".hidden_root".to_string(),
        relative_path: String::new(),
        name: ".hidden_root".to_string(),
        depth: 0,
        is_symlink: false,
        kind,
    }
}

fn options() -> SearchOptions {
    SearchOptions {
        case_sensitive: None,
        multiline: None,
        word_regexp: None,
        max_depth: None,
        hidden: None,
        follow_links: None,
        ignore_patterns: None,
        line_number: None,
        files_with_matches: None,
        invert_match: None,
        max_count: None,
    }
}

fn searcher(options: SearchOptions) -> Searcher {
    match Searcher::new("x", Some(options)) {
        Ok(searcher) => searcher,
        Err(_) => panic!("the pattern compiles"),
    }
}

#[test]
fn files_are_yielded_and_directories_descended_into() {
    let s = searcher(options());
    assert_eq!(s.judge(&entry("a.txt", EntryKind::File)), Admission::Yield);
    assert_eq!(s.judge(&entry("src", EntryKind::Directory)), Admission::Descend);
    assert_eq!(s.judge(&entry("pipe", EntryKind::Other)), Admission::Skip);
}

#[test]
fn the_root_itself_is_never_filtered() {
    let mut given = options();
    given.max_depth = Some(0);
    given.ignore_patterns = Some(vec!["*".to_string()]);
    let s = searcher(given);
    assert_eq!(s.judge(&root(EntryKind::File)), Admission::Yield);
    assert_eq!(s.judge(&root(EntryKind::Directory)), Admission::Descend);
    assert_eq!(s.judge(&root(EntryKind::Other)), Admission::Skip);
}

#[test]
fn hidden_entries_are_skipped_unless_asked_for() {
    let s = searcher(options());
    assert_eq!(s.judge(&entry(".env", EntryKind::File)), Admission::Skip);
    assert_eq!(s.judge(&entry(".git", EntryKind::Directory)), Admission::Skip);
    assert_eq!(s.judge(&entry("src/.cache", EntryKind::Directory)), Admission::Skip);
    let mut given = options();
    given.hidden = Some(true);
    let s = searcher(given);
    assert_eq!(s.judge(&entry(".env", EntryKind::File)), Admission::Yield);
    assert_eq!(s.judge(&entry(".git", EntryKind::Directory)), Admission::Descend);
}

#[test]
fn max_depth_counts_levels_below_the_root() {
    let mut given = options();
    given.max_depth = Some(0);
    let s = searcher(given);
    assert_eq!(s.judge(&entry("a.txt", EntryKind::File)), Admission::Yield);
    assert_eq!(s.judge(&entry("src", EntryKind::Directory)), Admission::Descend);
    assert_eq!(s.judge(&entry("src/a.txt", EntryKind::File)), Admission::Skip);
    let mut given = options();
    given.max_depth = Some(1);
    let s = searcher(given);
    assert_eq!(s.judge(&entry("src/a.txt", EntryKind::File)), Admission::Yield);
    assert_eq!(s.judge(&entry("src/lib/a.txt", EntryKind::File)), Admission::Skip);
}

#[test]
fn symbolic_links_are_skipped_unless_followed() {
    let mut link = entry("link", EntryKind::Directory);
    link.is_symlink = true;
    let mut file_link = entry("file_link", EntryKind::File);
    file_link.is_symlink = true;
    let s = searcher(options());
    assert_eq!(s.judge(&link), Admission::Skip);
    assert_eq!(s.judge(&file_link), Admission::Skip);
    let mut given = options();
    given.follow_links = Some(true);
    let s = searcher(given);
    assert_eq!(s.judge(&link), Admission::Descend);
    assert_eq!(s.judge(&file_link), Admission::Yield);
}

#[test]
fn ignore_patterns_prune_by_name_and_by_path() {
    let mut given = options();
    given.ignore_patterns = Some(vec!["*.log".to_string(), "build/out".to_string()]);
    let s = searcher(given);
    assert_eq!(s.judge(&entry("a.log", EntryKind::File)), Admission::Skip);
    assert_eq!(s.judge(&entry("deep/down/b.log", EntryKind::File)), Admission::Skip);
    assert_eq!(s.judge(&entry("a.txt", EntryKind::File)), Admission::Yield);
    assert_eq!(s.judge(&entry("build/out", EntryKind::Directory)), Admission::Skip);
    assert_eq!(s.judge(&entry("build", EntryKind::Directory)), Admission::Descend);
    assert_eq!(s.judge(&entry("other/build/out", EntryKind::Directory)), Admission::Descend);
}

#[test]
fn a_pattern_that_ends_in_a_slash_prunes_directories_only() {
    let mut given = options();
    given.ignore_patterns = Some(vec!["target/".to_string()]);
    let s = searcher(given);
    assert_eq!(s.judge(&entry("target", EntryKind::Directory)), Admission::Skip);
    assert_eq!(s.judge(&entry("target", EntryKind::File)), Admission::Yield);
}

#[test]
fn an_ignore_set_answers_for_each_pattern_on_its_own() {
    let set = IgnoreSet::compile(&vec!["*.tmp".to_string(), "!keep.tmp".to_string(), "a[".to_string()]);
    assert!(set.prunes("x.tmp", false));
    assert!(set.prunes("keep.tmp", false));
    assert!(!set.prunes("x.txt", false));
    let none = IgnoreSet::compile(&vec![]);
    assert!(!none.prunes("x.tmp", false));
}

#[test]
fn a_search_scans_only_what_the_walk_yields() {
    let mut given = options();
    given.ignore_patterns = Some(vec!["*.log".to_string()]);
    given.max_depth = Some(1);
    let visits = vec![
        Visit::Entry(root(EntryKind::Directory), None),
        Visit::Entry(entry("a.txt", EntryKind::File), Some(b"x\n".to_vec())),
        Visit::Entry(entry("a.log", EntryKind::File), Some(b"x\n".to_vec())),
        Visit::Entry(entry(".secret", EntryKind::File), Some(b"x\n".to_vec())),
        Visit::Entry(entry("src", EntryKind::Directory), None),
        Visit::Entry(entry("src/b.txt", EntryKind::File), Some(b"y\n".to_vec())),
        Visit::Entry(entry("src/deep/c.txt", EntryKind::File), Some(b"x\n".to_vec())),
    ];
    let result = search("x", &visits, Some(given)).ok().expect("the pattern compiles");
    assert_eq!(result.files_searched, 2);
    assert_eq!(result.files_with_matches, 1);
    assert_eq!(result.total_matches, 1);
    assert_eq!(result.matches[0].path, "root/a.txt");
}

#[test]
fn a_directory_is_entered_once() {
    let mut visited = text_search::Visited::new();
    assert!(visited.enter("/srv/data"));
    assert!(visited.enter("/srv/data/logs"));
    assert!(!visited.enter("/srv/data"));
    assert!(visited.enter("/srv"));
    assert!(!visited.enter("/srv/data/logs"));
}
