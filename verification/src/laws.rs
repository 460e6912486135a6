//! What holds of every scan and every search, proved from the definitions.

use crate::engine::after_visit;
use crate::engine::after_visits;
use crate::engine::entry_outcome;
use crate::engine::search_file_model;
use crate::engine::search_model;
use crate::engine::VisitView;
use crate::lines::is_binary_content;
use crate::lines::lemma_lines_from;
use crate::lines::line_bytes;
use crate::lines::lines_of;
use crate::lines::NUL;
use crate::options::resolved;
use crate::options::OptionsView;
use crate::options::SearchOptions;
use crate::pattern::first_occurrence;
use crate::pattern::occurrences;
use crate::pattern::pattern_view;
use crate::pattern::resume_offset;
use crate::pattern::PatternView;
use crate::record::all_well_formed;
use crate::record::all_whole_lines;
use crate::record::truncated;
use crate::record::MatchView;
use crate::result::ResultView;
use crate::scanner::file_records;
use crate::scanner::hit_records;
use crate::scanner::lemma_lines_in_order;
use crate::scanner::lemma_owner_follows_the_offset;
use crate::scanner::lemma_owner_line_is_a_line;
use crate::scanner::offset_in_line;
use crate::scanner::owner_line;
use crate::scanner::record_limit;
use crate::scanner::records_by_line;
use crate::scanner::records_by_occurrence;
use crate::scanner::reports_whole_lines;
use crate::scanner::unbounded_records;
use crate::scanner::unit_is_hit;
use crate::scanner::whole_line_records;
use vstd::prelude::*;
use vstd::utf8::decode_utf8;
use vstd::utf8::decode_utf8_encode_utf8;
use vstd::utf8::encode_utf8;
use vstd::utf8::valid_utf8;

verus! {

/// Every occurrence found from `at` on starts at or after `at`, ends at or after its start,
/// and ends within the haystack.
pub proof fn lemma_occurrences_in_bounds(p: PatternView, haystack: Seq<u8>, at: int)
    ensures
        forall|k: int|
            0 <= k < occurrences(p, haystack, at).len() ==> {
                let found = #[trigger] occurrences(p, haystack, at)[k];
                0 <= at <= found.0 <= found.1 <= haystack.len()
            },
    decreases haystack.len() - at,
{
    match first_occurrence(p, haystack, at) {
        Some((s, e)) => {
            if resume_offset(s, e) <= haystack.len() {
                lemma_occurrences_in_bounds(p, haystack, resume_offset(s, e));
                let rest = occurrences(p, haystack, resume_offset(s, e));
                let all = occurrences(p, haystack, at);
                assert(all =~= seq![(s, e)] + rest);
                assert forall|k: int| 0 <= k < all.len() implies {
                    let found = #[trigger] all[k];
                    0 <= at <= found.0 <= found.1 <= haystack.len()
                } by {
                    if k > 0 {
                        assert(all[k] == rest[k - 1]);
                    }
                }
            }
        },
        None => {},
    }
}

/// Occurrences do not overlap and come in the order of the haystack: each starts at or after
/// the end of the one before it, and after its start.
pub proof fn lemma_occurrences_do_not_overlap(p: PatternView, haystack: Seq<u8>, at: int)
    ensures
        forall|j: int, k: int|
            0 <= j < k < occurrences(p, haystack, at).len() ==> {
                let earlier = #[trigger] occurrences(p, haystack, at)[j];
                let later = #[trigger] occurrences(p, haystack, at)[k];
                earlier.1 <= later.0 && earlier.0 < later.0
            },
    decreases haystack.len() - at,
{
    match first_occurrence(p, haystack, at) {
        Some((s, e)) => {
            if resume_offset(s, e) <= haystack.len() {
                lemma_occurrences_do_not_overlap(p, haystack, resume_offset(s, e));
                lemma_occurrences_in_bounds(p, haystack, resume_offset(s, e));
                let rest = occurrences(p, haystack, resume_offset(s, e));
                let all = occurrences(p, haystack, at);
                assert(all =~= seq![(s, e)] + rest);
                assert forall|j: int, k: int| 0 <= j < k < all.len() implies {
                    let earlier = #[trigger] all[j];
                    let later = #[trigger] all[k];
                    earlier.1 <= later.0 && earlier.0 < later.0
                } by {
                    assert(all[k] == rest[k - 1]);
                    if j > 0 {
                        assert(all[j] == rest[j - 1]);
                    }
                }
            }
        },
        None => {},
    }
}

/// The text of a line of content that is not binary, once decoded, encodes to the bytes of
/// the line, and holds no NUL byte.
pub proof fn lemma_line_text(content: Seq<u8>, i: int)
    requires
        !is_binary_content(content),
        0 <= i < lines_of(content).len(),
        valid_utf8(line_bytes(content, lines_of(content)[i])),
    ensures
        encode_utf8(decode_utf8(line_bytes(content, lines_of(content)[i]))) == line_bytes(
            content,
            lines_of(content)[i],
        ),
        !line_bytes(content, lines_of(content)[i]).contains(NUL),
        0 <= lines_of(content)[i].start <= lines_of(content)[i].end <= content.len(),
{
    lemma_lines_from(content, 0);
    let line = lines_of(content)[i];
    let text = line_bytes(content, line);
    decode_utf8_encode_utf8(text);
    assert forall|j: int| 0 <= j < text.len() implies text[j] != NUL by {
        assert(text[j] == content[line.start + j]);
        assert(content.contains(content[line.start + j]));
    }
}

/// In line mode every record is well formed.
pub proof fn lemma_records_by_line_well_formed(
    path: Seq<char>,
    content: Seq<u8>,
    p: PatternView,
    invert: bool,
    whole_line: bool,
    i: int,
)
    requires
        !is_binary_content(content),
        0 <= i,
    ensures
        all_well_formed(records_by_line(path, content, p, invert, whole_line, i)),
        whole_line ==> all_whole_lines(records_by_line(path, content, p, invert, whole_line, i)),
    decreases lines_of(content).len() - i,
{
    let lines = lines_of(content);
    if i < lines.len() {
        lemma_records_by_line_well_formed(path, content, p, invert, whole_line, i + 1);
        let text = line_bytes(content, lines[i]);
        let all = records_by_line(path, content, p, invert, whole_line, i);
        let rest = records_by_line(path, content, p, invert, whole_line, i + 1);
        if unit_is_hit(p, text, invert) && valid_utf8(text) {
            lemma_line_text(content, i);
            lemma_occurrences_in_bounds(p, text, 0);
            let found = occurrences(p, text, 0);
            let fresh = hit_records(path, i + 1, decode_utf8(text), found, whole_line);
            assert(all == fresh + rest);
            assert forall|k: int| 0 <= k < all.len() implies (#[trigger] all[k]).well_formed() by {
                if k < fresh.len() {
                    assert(all[k] == fresh[k]);
                    if !whole_line {
                        assert(0 <= found[k].0 <= found[k].1 <= text.len());
                    }
                } else {
                    assert(all[k] == rest[k - fresh.len()]);
                }
            }
            if whole_line {
                assert forall|k: int| 0 <= k < all.len() implies (#[trigger] all[k]).start is None
                    && all[k].end is None by {
                    if k < fresh.len() {
                        assert(all[k] == fresh[k]);
                    } else {
                        assert(all[k] == rest[k - fresh.len()]);
                    }
                }
            }
        }
    }
}

/// Whole-line records are well formed and carry no offsets.
pub proof fn lemma_whole_line_records_well_formed(path: Seq<char>, content: Seq<u8>, i: int)
    requires
        !is_binary_content(content),
        0 <= i,
    ensures
        all_well_formed(whole_line_records(path, content, i)),
        all_whole_lines(whole_line_records(path, content, i)),
    decreases lines_of(content).len() - i,
{
    let lines = lines_of(content);
    if i < lines.len() {
        lemma_whole_line_records_well_formed(path, content, i + 1);
        let text = line_bytes(content, lines[i]);
        if valid_utf8(text) {
            lemma_line_text(content, i);
            let all = whole_line_records(path, content, i);
            let rest = whole_line_records(path, content, i + 1);
            assert forall|k: int| 0 <= k < all.len() implies (#[trigger] all[k]).well_formed()
                && all[k].start is None && all[k].end is None by {
                if k > 0 {
                    assert(all[k] == rest[k - 1]);
                }
            }
        }
    }
}

/// In multiline mode every record is well formed, given occurrences that end at or after
/// their start.
pub proof fn lemma_records_by_occurrence_well_formed(
    path: Seq<char>,
    content: Seq<u8>,
    found: Seq<(int, int)>,
    whole_line: bool,
    k: int,
)
    requires
        !is_binary_content(content),
        0 <= k,
        forall|j: int| 0 <= j < found.len() ==> (#[trigger] found[j]).0 <= found[j].1,
    ensures
        all_well_formed(records_by_occurrence(path, content, found, whole_line, k)),
        whole_line ==> all_whole_lines(records_by_occurrence(path, content, found, whole_line, k)),
    decreases found.len() - k,
{
    let lines = lines_of(content);
    if k < found.len() {
        lemma_records_by_occurrence_well_formed(path, content, found, whole_line, k + 1);
        lemma_owner_line_is_a_line(content, found[k].0);
        let i = owner_line(lines, found[k].0);
        if i >= 0 {
            let text = line_bytes(content, lines[i]);
            if valid_utf8(text) {
                lemma_line_text(content, i);
                let all = records_by_occurrence(path, content, found, whole_line, k);
                let rest = records_by_occurrence(path, content, found, whole_line, k + 1);
                assert(found[k].0 <= found[k].1);
                assert forall|j: int| 0 <= j < all.len() implies (#[trigger] all[j]).well_formed()
                    && (whole_line ==> all[j].start is None && all[j].end is None) by {
                    if j > 0 {
                        assert(all[j] == rest[j - 1]);
                    }
                }
            }
        }
    }
}

/// Whether records come in reading order: the line numbers never fall, and in one line the
/// offsets where occurrences start never fall.
pub open spec fn in_reading_order(records: Seq<MatchView>) -> bool {
    forall|j: int, k: int|
        0 <= j < k < records.len() ==> {
            let earlier = #[trigger] records[j];
            let later = #[trigger] records[k];
            ||| earlier.line_number < later.line_number
            ||| earlier.line_number == later.line_number && match (earlier.start, later.start) {
                (Some(a), Some(b)) => a <= b,
                _ => true,
            }
        }
}

/// In line mode every record reports a line of the file that is a hit: it carries the path,
/// the number of the line and its text, and its offsets, where it has any, are those of an
/// occurrence in the line.
pub proof fn lemma_line_mode_reports_hits(
    path: Seq<char>,
    content: Seq<u8>,
    p: PatternView,
    invert: bool,
    whole_line: bool,
    i: int,
)
    requires
        0 <= i,
    ensures
        forall|k: int|
            0 <= k < records_by_line(path, content, p, invert, whole_line, i).len() ==> {
                let record = #[trigger] records_by_line(path, content, p, invert, whole_line, i)[k];
                let n = record.line_number - 1;
                &&& i <= n < lines_of(content).len()
                &&& record.path == path
                &&& unit_is_hit(p, line_bytes(content, lines_of(content)[n]), invert)
                &&& valid_utf8(line_bytes(content, lines_of(content)[n]))
                &&& record.line == decode_utf8(line_bytes(content, lines_of(content)[n]))
                &&& !whole_line ==> record.start is Some && record.end is Some && occurrences(
                    p,
                    line_bytes(content, lines_of(content)[n]),
                    0,
                ).contains((record.start->0, record.end->0))
            },
    decreases lines_of(content).len() - i,
{
    let lines = lines_of(content);
    if i < lines.len() {
        lemma_line_mode_reports_hits(path, content, p, invert, whole_line, i + 1);
        let text = line_bytes(content, lines[i]);
        let all = records_by_line(path, content, p, invert, whole_line, i);
        let rest = records_by_line(path, content, p, invert, whole_line, i + 1);
        if unit_is_hit(p, text, invert) && valid_utf8(text) {
            let found = occurrences(p, text, 0);
            let fresh = hit_records(path, i + 1, decode_utf8(text), found, whole_line);
            assert(all == fresh + rest);
            assert forall|k: int| 0 <= k < all.len() implies {
                let record = #[trigger] all[k];
                let n = record.line_number - 1;
                &&& i <= n < lines.len()
                &&& record.path == path
                &&& unit_is_hit(p, line_bytes(content, lines[n]), invert)
                &&& valid_utf8(line_bytes(content, lines[n]))
                &&& record.line == decode_utf8(line_bytes(content, lines[n]))
                &&& !whole_line ==> record.start is Some && record.end is Some && occurrences(
                    p,
                    line_bytes(content, lines[n]),
                    0,
                ).contains((record.start->0, record.end->0))
            } by {
                if k < fresh.len() {
                    assert(all[k] == fresh[k]);
                    if !whole_line {
                        assert(found[k] == (all[k].start->0, all[k].end->0));
                    }
                } else {
                    assert(all[k] == rest[k - fresh.len()]);
                }
            }
        }
    }
}

/// In line mode the records come in reading order.
pub proof fn lemma_line_mode_reads_in_order(
    path: Seq<char>,
    content: Seq<u8>,
    p: PatternView,
    invert: bool,
    whole_line: bool,
    i: int,
)
    requires
        0 <= i,
    ensures
        in_reading_order(records_by_line(path, content, p, invert, whole_line, i)),
    decreases lines_of(content).len() - i,
{
    let lines = lines_of(content);
    if i < lines.len() {
        lemma_line_mode_reads_in_order(path, content, p, invert, whole_line, i + 1);
        lemma_line_mode_reports_hits(path, content, p, invert, whole_line, i + 1);
        let text = line_bytes(content, lines[i]);
        let all = records_by_line(path, content, p, invert, whole_line, i);
        let rest = records_by_line(path, content, p, invert, whole_line, i + 1);
        if unit_is_hit(p, text, invert) && valid_utf8(text) {
            let found = occurrences(p, text, 0);
            lemma_occurrences_do_not_overlap(p, text, 0);
            let fresh = hit_records(path, i + 1, decode_utf8(text), found, whole_line);
            assert(all == fresh + rest);
            assert forall|j: int, k: int| 0 <= j < k < all.len() implies {
                let earlier = #[trigger] all[j];
                let later = #[trigger] all[k];
                ||| earlier.line_number < later.line_number
                ||| earlier.line_number == later.line_number && match (
                    earlier.start,
                    later.start,
                ) {
                    (Some(a), Some(b)) => a <= b,
                    _ => true,
                }
            } by {
                if k < fresh.len() {
                    assert(all[j] == fresh[j]);
                    assert(all[k] == fresh[k]);
                    if !whole_line {
                        assert(found[j].0 < found[k].0);
                    }
                } else if j < fresh.len() {
                    assert(all[j] == fresh[j]);
                    assert(all[k] == rest[k - fresh.len()]);
                } else {
                    assert(all[j] == rest[j - fresh.len()]);
                    assert(all[k] == rest[k - fresh.len()]);
                }
            }
        }
    }
}

/// In multiline mode the record at place `j` reports the occurrence at place `k + j`: it
/// carries the path, the number and text of the line that owns the start of the occurrence,
/// and, unless it stands for the whole line, the offsets of the occurrence within that line.
pub proof fn lemma_multiline_reports_occurrences(
    path: Seq<char>,
    content: Seq<u8>,
    found: Seq<(int, int)>,
    whole_line: bool,
    k: int,
)
    requires
        0 <= k,
    ensures
        k <= found.len() ==> records_by_occurrence(path, content, found, whole_line, k).len()
            <= found.len() - k,
        forall|j: int|
            0 <= j < records_by_occurrence(path, content, found, whole_line, k).len() ==> {
                let record = #[trigger] records_by_occurrence(path, content, found, whole_line, k)[j];
                let n = owner_line(lines_of(content), found[k + j].0);
                &&& k + j < found.len()
                &&& 0 <= n < lines_of(content).len()
                &&& record.path == path
                &&& record.line_number == n + 1
                &&& record.line == decode_utf8(line_bytes(content, lines_of(content)[n]))
                &&& whole_line ==> record.start is None && record.end is None
                &&& !whole_line ==> record.start == Some(
                    offset_in_line(found[k + j].0, lines_of(content)[n]),
                ) && record.end == Some(offset_in_line(found[k + j].1, lines_of(content)[n]))
            },
    decreases found.len() - k,
{
    let lines = lines_of(content);
    if k < found.len() {
        lemma_multiline_reports_occurrences(path, content, found, whole_line, k + 1);
        lemma_owner_line_is_a_line(content, found[k].0);
        let i = owner_line(lines, found[k].0);
        if i >= 0 && valid_utf8(line_bytes(content, lines[i])) {
            let all = records_by_occurrence(path, content, found, whole_line, k);
            let rest = records_by_occurrence(path, content, found, whole_line, k + 1);
            assert forall|j: int| 0 <= j < all.len() implies {
                let record = #[trigger] all[j];
                let n = owner_line(lines, found[k + j].0);
                &&& k + j < found.len()
                &&& 0 <= n < lines.len()
                &&& record.path == path
                &&& record.line_number == n + 1
                &&& record.line == decode_utf8(line_bytes(content, lines[n]))
                &&& whole_line ==> record.start is None && record.end is None
                &&& !whole_line ==> record.start == Some(offset_in_line(found[k + j].0, lines[n]))
                    && record.end == Some(offset_in_line(found[k + j].1, lines[n]))
            } by {
                if j > 0 {
                    assert(all[j] == rest[j - 1]);
                }
            }
        }
    }
}

/// In multiline mode the records come in reading order, given occurrences that come in the
/// order of the buffer.
pub proof fn lemma_multiline_reads_in_order(
    path: Seq<char>,
    content: Seq<u8>,
    found: Seq<(int, int)>,
    whole_line: bool,
)
    requires
        forall|j: int, k: int|
            0 <= j < k < found.len() ==> (#[trigger] found[j]).0 <= (#[trigger] found[k]).0,
    ensures
        in_reading_order(records_by_occurrence(path, content, found, whole_line, 0)),
{
    let lines = lines_of(content);
    let all = records_by_occurrence(path, content, found, whole_line, 0);
    lemma_multiline_reports_occurrences(path, content, found, whole_line, 0);
    lemma_lines_in_order(content);
    assert forall|j: int, k: int| 0 <= j < k < all.len() implies {
        let earlier = #[trigger] all[j];
        let later = #[trigger] all[k];
        ||| earlier.line_number < later.line_number
        ||| earlier.line_number == later.line_number && match (earlier.start, later.start) {
            (Some(a), Some(b)) => a <= b,
            _ => true,
        }
    } by {
        assert(found[j].0 <= found[k].0);
        lemma_owner_follows_the_offset(lines, found[j].0, found[k].0);
        let first = owner_line(lines, found[0 + j].0);
        let second = owner_line(lines, found[0 + k].0);
        assert(all[j].line_number == first + 1);
        assert(all[k].line_number == second + 1);
        if first == second && !whole_line {
            assert(lines[first].start <= lines[first].end);
            assert(offset_in_line(found[j].0, lines[first]) <= offset_in_line(
                found[k].0,
                lines[first],
            ));
        }
    }
}

/// The records of a file come in reading order.
pub proof fn lemma_file_records_read_in_order(
    path: Seq<char>,
    content: Seq<u8>,
    p: PatternView,
    o: OptionsView,
)
    ensures
        in_reading_order(file_records(path, content, p, o)),
{
    let full = unbounded_records(path, content, p, o);
    if !is_binary_content(content) {
        if !o.multiline {
            lemma_line_mode_reads_in_order(
                path,
                content,
                p,
                o.invert_match,
                reports_whole_lines(o),
                0,
            );
        } else if o.invert_match {
            lemma_whole_line_records_read_in_order(path, content, 0);
        } else {
            let found = occurrences(p, content, 0);
            lemma_occurrences_do_not_overlap(p, content, 0);
            lemma_multiline_reads_in_order(path, content, found, o.files_with_matches);
        }
    }
    lemma_truncated_records(full, record_limit(o));
}

/// Whole-line records of every line come with rising line numbers.
pub proof fn lemma_whole_line_records_read_in_order(path: Seq<char>, content: Seq<u8>, i: int)
    requires
        0 <= i,
    ensures
        in_reading_order(whole_line_records(path, content, i)),
        forall|k: int|
            0 <= k < whole_line_records(path, content, i).len() ==> (#[trigger] whole_line_records(
                path,
                content,
                i,
            )[k]).line_number == i + 1 + k,
    decreases lines_of(content).len() - i,
{
    let lines = lines_of(content);
    if i < lines.len() {
        lemma_whole_line_records_read_in_order(path, content, i + 1);
        let all = whole_line_records(path, content, i);
        let rest = whole_line_records(path, content, i + 1);
        if valid_utf8(line_bytes(content, lines[i])) {
            assert forall|k: int| 0 <= k < all.len() implies (#[trigger] all[k]).line_number == i
                + 1 + k by {
                if k > 0 {
                    assert(all[k] == rest[k - 1]);
                }
            }
        }
    }
}

/// Cutting a sequence of records keeps what holds of each of them, and leaves no more
/// records than the limit.
pub proof fn lemma_truncated_records(records: Seq<MatchView>, limit: Option<int>)
    ensures
        truncated(records, limit).len() <= records.len(),
        limit matches Some(most) ==> most >= 0 ==> truncated(records, limit).len() <= most,
        all_well_formed(records) ==> all_well_formed(truncated(records, limit)),
        all_whole_lines(records) ==> all_whole_lines(truncated(records, limit)),
        forall|i: int|
            0 <= i < truncated(records, limit).len() ==> truncated(records, limit)[i]
                == records[i],
{
}

/// Every record of a file is well formed: its line is counted from 1 and holds no NUL byte,
/// and its offsets, where present, lie in order within the bytes of the line.
pub proof fn lemma_file_records_well_formed(
    path: Seq<char>,
    content: Seq<u8>,
    p: PatternView,
    o: OptionsView,
)
    ensures
        all_well_formed(file_records(path, content, p, o)),
{
    let full = unbounded_records(path, content, p, o);
    if !is_binary_content(content) {
        if !o.multiline {
            lemma_records_by_line_well_formed(
                path,
                content,
                p,
                o.invert_match,
                reports_whole_lines(o),
                0,
            );
        } else if o.invert_match {
            lemma_whole_line_records_well_formed(path, content, 0);
        } else {
            lemma_occurrences_in_bounds(p, content, 0);
            lemma_records_by_occurrence_well_formed(
                path,
                content,
                occurrences(p, content, 0),
                o.files_with_matches,
                0,
            );
        }
    }
    lemma_truncated_records(full, record_limit(o));
}

/// A file gives no more records than `max_count`, and at most one in files-with-matches
/// mode.
pub proof fn lemma_file_records_within_limit(
    path: Seq<char>,
    content: Seq<u8>,
    p: PatternView,
    o: OptionsView,
)
    ensures
        o.max_count matches Some(most) ==> file_records(path, content, p, o).len() <= most,
        o.files_with_matches ==> file_records(path, content, p, o).len() <= 1,
{
    lemma_truncated_records(unbounded_records(path, content, p, o), record_limit(o));
}

/// In files-with-matches mode, and where the match is inverted, no record carries offsets.
pub proof fn lemma_whole_line_modes_carry_no_offsets(
    path: Seq<char>,
    content: Seq<u8>,
    p: PatternView,
    o: OptionsView,
)
    requires
        o.files_with_matches || o.invert_match,
    ensures
        all_whole_lines(file_records(path, content, p, o)),
{
    let full = unbounded_records(path, content, p, o);
    if !is_binary_content(content) {
        if !o.multiline {
            lemma_records_by_line_well_formed(
                path,
                content,
                p,
                o.invert_match,
                reports_whole_lines(o),
                0,
            );
        } else if o.invert_match {
            lemma_whole_line_records_well_formed(path, content, 0);
        } else {
            lemma_occurrences_in_bounds(p, content, 0);
            lemma_records_by_occurrence_well_formed(
                path,
                content,
                occurrences(p, content, 0),
                o.files_with_matches,
                0,
            );
        }
    }
    lemma_truncated_records(full, record_limit(o));
}

/// Binary content gives no record, whatever the pattern and the options.
pub proof fn lemma_binary_content_gives_no_record(
    path: Seq<char>,
    content: Seq<u8>,
    p: PatternView,
    o: OptionsView,
)
    requires
        is_binary_content(content),
    ensures
        file_records(path, content, p, o) == Seq::<MatchView>::empty(),
{
    assert(truncated(Seq::<MatchView>::empty(), record_limit(o)) =~= Seq::empty());
}

/// Whether every file among the visits that could be read is binary.
pub open spec fn all_files_binary(visits: Seq<VisitView>) -> bool {
    forall|i: int|
        0 <= i < visits.len() ==> match #[trigger] visits[i] {
            VisitView::Entry(_, Some(bytes)) => is_binary_content(bytes),
            _ => true,
        }
}

/// How many of the visits are files that the walk yields and that could be read.
pub open spec fn files_scanned(visits: Seq<VisitView>, p: PatternView, o: OptionsView) -> int
    decreases visits.len(),
{
    if visits.len() == 0 {
        0
    } else {
        files_scanned(visits.drop_last(), p, o) + match visits.last() {
            VisitView::Entry(entry, content) => if entry_outcome(entry, content, p, o).searched {
                1int
            } else {
                0int
            },
            VisitView::MissingRoot(_) => 0int,
        }
    }
}

/// One visit keeps a report consistent and keeps its records well formed.
pub proof fn lemma_after_visit(r: ResultView, visit: VisitView, p: PatternView, o: OptionsView)
    requires
        r.consistent(),
    ensures
        after_visit(r, visit, p, o).consistent(),
        all_well_formed(r.matches) ==> all_well_formed(after_visit(r, visit, p, o).matches),
        r.files_searched <= after_visit(r, visit, p, o).files_searched <= r.files_searched + 1,
{
    match visit {
        VisitView::MissingRoot(path) => {},
        VisitView::Entry(entry, content) => {
            match content {
                Some(bytes) => {
                    lemma_file_records_well_formed(entry.path, bytes, p, o);
                },
                None => {},
            }
        },
    }
}

/// In every report of a search the total is the number of records, no more files gave
/// records than were searched, every record is well formed, and the files searched are the
/// files that the walk yielded and that could be read.
pub proof fn lemma_after_visits(r: ResultView, visits: Seq<VisitView>, p: PatternView, o: OptionsView)
    requires
        r.consistent(),
    ensures
        after_visits(r, visits, p, o).consistent(),
        all_well_formed(r.matches) ==> all_well_formed(after_visits(r, visits, p, o).matches),
        after_visits(r, visits, p, o).files_searched == r.files_searched + files_scanned(
            visits,
            p,
            o,
        ),
        0 <= files_scanned(visits, p, o) <= visits.len(),
    decreases visits.len(),
{
    if visits.len() > 0 {
        lemma_after_visits(r, visits.drop_last(), p, o);
        lemma_after_visit(after_visits(r, visits.drop_last(), p, o), visits.last(), p, o);
    }
}

/// Where every file that could be read is binary, the files still count as searched and no
/// record is reported.
pub proof fn lemma_binary_files_are_searched_without_records(
    r: ResultView,
    visits: Seq<VisitView>,
    p: PatternView,
    o: OptionsView,
)
    requires
        r.consistent(),
        all_files_binary(visits),
    ensures
        after_visits(r, visits, p, o).matches == r.matches,
        after_visits(r, visits, p, o).total_matches == r.total_matches,
        after_visits(r, visits, p, o).files_with_matches == r.files_with_matches,
        after_visits(r, visits, p, o).files_searched == r.files_searched + files_scanned(
            visits,
            p,
            o,
        ),
    decreases visits.len(),
{
    if visits.len() > 0 {
        let earlier = visits.drop_last();
        assert(all_files_binary(earlier)) by {
            assert forall|i: int| 0 <= i < earlier.len() implies match #[trigger] earlier[i] {
                VisitView::Entry(_, Some(bytes)) => is_binary_content(bytes),
                _ => true,
            } by {
                assert(earlier[i] == visits[i]);
            }
        }
        lemma_binary_files_are_searched_without_records(r, earlier, p, o);
        lemma_after_visits(r, earlier, p, o);
        let last = visits[visits.len() - 1];
        assert(last == visits.last());
        match last {
            VisitView::Entry(entry, Some(bytes)) => {
                lemma_binary_content_gives_no_record(entry.path, bytes, p, o);
            },
            _ => {},
        }
    }
}

/// A search of one file is the search of the sequence that holds that one visit.
pub proof fn lemma_search_file_is_a_search_of_one(
    pattern: Seq<char>,
    visit: VisitView,
    options: Option<SearchOptions>,
)
    ensures
        search_file_model(pattern, visit, options) == search_model(pattern, seq![visit], options),
{
    let o = resolved(options);
    let p = pattern_view(pattern, o.case_sensitive, o.multiline, o.word_regexp);
    let one = seq![visit];
    assert(one.drop_last() =~= Seq::<VisitView>::empty());
    assert(one.last() == visit);
    assert(after_visits(ResultView::empty(), one.drop_last(), p, o) == ResultView::empty());
}

/// A search that compiles gives a consistent report with well-formed records.
pub proof fn lemma_search_report(
    pattern: Seq<char>,
    visits: Seq<VisitView>,
    options: Option<SearchOptions>,
)
    ensures
        search_model(pattern, visits, options) matches Ok(report) ==> {
            &&& report.total_matches == report.matches.len()
            &&& report.files_with_matches <= report.files_searched
            &&& report.files_searched <= visits.len()
            &&& all_well_formed(report.matches)
        },
{
    let o = resolved(options);
    let p = pattern_view(pattern, o.case_sensitive, o.multiline, o.word_regexp);
    lemma_after_visits(ResultView::empty(), visits, p, o);
}

} // verus!
