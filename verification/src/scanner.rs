//! Scanning the bytes of one file for the occurrences of a compiled pattern.
//!
//! A file is scanned in units. In line mode every line is a unit of its own and is searched
//! by its text alone. In multiline mode the whole buffer is the one unit; an occurrence is
//! then reported at the line that owns the offset where it starts, with offsets that count
//! from the start of that line and stop at the end of its text.
//!
//! A unit without an occurrence is what an inverted match reports, line by line: in line
//! mode each such line, in multiline mode every line of a buffer that holds no occurrence.
//!
//! What a record says is decided here in full: which bytes make a line, which content is
//! binary, which line an occurrence belongs to. Only the search for an occurrence in a
//! haystack is left to the regex engine.

use crate::laws::lemma_file_records_well_formed;
use crate::laws::lemma_file_records_within_limit;
use crate::lines::decode_range;
use crate::lines::is_binary;
use crate::lines::is_binary_content;
use crate::lines::lemma_lines_from;
use crate::lines::line_bytes;
use crate::lines::line_views;
use crate::lines::lines_of;
use crate::lines::split_lines;
use crate::lines::Line;
use crate::lines::LineSpan;
use crate::options::OptionsView;
use crate::options::ResolvedOptions;
use crate::pattern::first_occurrence;
use crate::pattern::lemma_occurrences_start_with_the_first;
use crate::pattern::occurrences;
use crate::pattern::offset_pairs;
use crate::pattern::CompiledPattern;
use crate::pattern::PatternView;
use crate::record::all_well_formed;
use crate::record::match_views;
use crate::record::occurrence_record;
use crate::record::truncated;
use crate::record::whole_line_record;
use crate::record::FileOutcome;
use crate::record::MatchView;
use crate::record::OutcomeView;
use crate::record::SearchMatch;
use vstd::prelude::*;
use vstd::slice::slice_subrange;
use vstd::utf8::decode_utf8;
use vstd::utf8::valid_utf8;

verus! {

/// Whether a unit counts as a hit: it holds an occurrence, or, where the match is inverted,
/// it holds none.
pub open spec fn unit_is_hit(p: PatternView, unit: Seq<u8>, invert: bool) -> bool {
    if invert {
        first_occurrence(p, unit, 0) is None
    } else {
        first_occurrence(p, unit, 0) is Some
    }
}

/// The records of one line that is a hit: one for the whole line, or one for each occurrence
/// found in it, in the order found.
pub open spec fn hit_records(
    path: Seq<char>,
    line_number: int,
    line: Seq<char>,
    found: Seq<(int, int)>,
    whole_line: bool,
) -> Seq<MatchView> {
    if whole_line {
        seq![whole_line_record(path, line_number, line)]
    } else {
        Seq::new(
            found.len(),
            |k: int| occurrence_record(path, line_number, line, found[k].0, found[k].1),
        )
    }
}

/// Line mode, from line `i` on and with no bound on the number of records: each line that is
/// a hit gives its records. The scan ends at the first hit whose text is not valid UTF-8.
pub open spec fn records_by_line(
    path: Seq<char>,
    content: Seq<u8>,
    p: PatternView,
    invert: bool,
    whole_line: bool,
    i: int,
) -> Seq<MatchView>
    decreases lines_of(content).len() - i,
{
    let lines = lines_of(content);
    if 0 <= i < lines.len() {
        let text = line_bytes(content, lines[i]);
        if !unit_is_hit(p, text, invert) {
            records_by_line(path, content, p, invert, whole_line, i + 1)
        } else if !valid_utf8(text) {
            Seq::empty()
        } else {
            hit_records(path, i + 1, decode_utf8(text), occurrences(p, text, 0), whole_line)
                + records_by_line(path, content, p, invert, whole_line, i + 1)
        }
    } else {
        Seq::empty()
    }
}

/// Every line from line `i` on as a whole-line record, up to the first line whose text is
/// not valid UTF-8.
pub open spec fn whole_line_records(path: Seq<char>, content: Seq<u8>, i: int) -> Seq<MatchView>
    decreases lines_of(content).len() - i,
{
    let lines = lines_of(content);
    if 0 <= i < lines.len() {
        let text = line_bytes(content, lines[i]);
        if !valid_utf8(text) {
            Seq::empty()
        } else {
            seq![whole_line_record(path, i + 1, decode_utf8(text))] + whole_line_records(
                path,
                content,
                i + 1,
            )
        }
    } else {
        Seq::empty()
    }
}

/// The index of the line that owns a buffer offset: the last line that starts at or before
/// it; -1 where there is no such line.
pub open spec fn owner_line(lines: Seq<Line>, offset: int) -> int
    decreases lines.len(),
{
    if lines.len() == 0 {
        -1
    } else if lines.last().start <= offset {
        lines.len() - 1
    } else {
        owner_line(lines.drop_last(), offset)
    }
}

/// A buffer offset counted from the start of a line and kept within the line's text.
pub open spec fn offset_in_line(offset: int, line: Line) -> int {
    if offset <= line.start {
        0
    } else if offset >= line.end {
        line.end - line.start
    } else {
        offset - line.start
    }
}

/// Multiline mode, from occurrence `k` on and with no bound on the number of records: each
/// occurrence gives one record at the line that owns its start. The scan ends at the first
/// occurrence whose line is not valid UTF-8, and gives nothing where the buffer has no line.
pub open spec fn records_by_occurrence(
    path: Seq<char>,
    content: Seq<u8>,
    found: Seq<(int, int)>,
    whole_line: bool,
    k: int,
) -> Seq<MatchView>
    decreases found.len() - k,
{
    let lines = lines_of(content);
    if 0 <= k < found.len() {
        let i = owner_line(lines, found[k].0);
        if i < 0 {
            Seq::empty()
        } else {
            let text = line_bytes(content, lines[i]);
            if !valid_utf8(text) {
                Seq::empty()
            } else {
                let record = if whole_line {
                    whole_line_record(path, i + 1, decode_utf8(text))
                } else {
                    occurrence_record(
                        path,
                        i + 1,
                        decode_utf8(text),
                        offset_in_line(found[k].0, lines[i]),
                        offset_in_line(found[k].1, lines[i]),
                    )
                };
                seq![record] + records_by_occurrence(path, content, found, whole_line, k + 1)
            }
        }
    } else {
        Seq::empty()
    }
}

/// Whether records stand for whole lines: in files-with-matches mode and where the match is
/// inverted.
pub open spec fn reports_whole_lines(o: OptionsView) -> bool {
    o.invert_match || o.files_with_matches
}

/// The records of a file with no bound on their number. Binary content gives none.
pub open spec fn unbounded_records(
    path: Seq<char>,
    content: Seq<u8>,
    p: PatternView,
    o: OptionsView,
) -> Seq<MatchView> {
    if is_binary_content(content) {
        Seq::empty()
    } else if !o.multiline {
        records_by_line(path, content, p, o.invert_match, reports_whole_lines(o), 0)
    } else if o.invert_match {
        if first_occurrence(p, content, 0) is None {
            whole_line_records(path, content, 0)
        } else {
            Seq::empty()
        }
    } else {
        records_by_occurrence(path, content, occurrences(p, content, 0), o.files_with_matches, 0)
    }
}

/// The most records taken from one file: `max_count` where it is set, and never more than one
/// in files-with-matches mode.
pub open spec fn record_limit(o: OptionsView) -> Option<int> {
    if o.files_with_matches {
        match o.max_count {
            Some(most) => if most == 0 {
                Some(0int)
            } else {
                Some(1int)
            },
            None => Some(1int),
        }
    } else {
        match o.max_count {
            Some(most) => Some(most as int),
            None => None,
        }
    }
}

/// The records that scanning a file reports: the first ones found, as many as the limit
/// allows.
pub open spec fn file_records(
    path: Seq<char>,
    content: Seq<u8>,
    p: PatternView,
    o: OptionsView,
) -> Seq<MatchView> {
    truncated(unbounded_records(path, content, p, o), record_limit(o))
}

/// A machine limit as a mathematical one.
pub open spec fn limit_view(limit: Option<usize>) -> Option<int> {
    match limit {
        Some(most) => Some(most as int),
        None => None,
    }
}

/// A sequence that starts with `head` and whose tail is either empty or cut off by the limit
/// is, once truncated, `head`.
pub proof fn lemma_truncated_head<A>(full: Seq<A>, head: Seq<A>, tail: Seq<A>, limit: Option<int>)
    requires
        full == head + tail,
        limit matches Some(most) ==> head.len() <= most,
        tail.len() == 0 || limit == Some(head.len() as int),
    ensures
        truncated(full, limit) == head,
{
    if tail.len() == 0 {
        assert(full =~= head);
    } else {
        assert(full.take(head.len() as int) =~= head);
    }
}

/// Whether a limit leaves room for one more record after `used` of them.
fn has_room(limit: Option<usize>, used: usize) -> (room: bool)
    ensures
        room == (limit matches Some(most) ==> used < most),
{
    match limit {
        Some(most) => used < most,
        None => true,
    }
}

/// What a limit leaves after `used` records.
fn room_left(limit: Option<usize>, used: usize) -> (left: Option<usize>)
    requires
        limit matches Some(most) ==> used <= most,
    ensures
        limit is None ==> left is None,
        limit matches Some(most) ==> left == Some((most - used) as usize),
{
    match limit {
        Some(most) => Some(most - used),
        None => None,
    }
}

/// The records of one line that is a hit, as many as `room` allows: one for the whole line,
/// or one for each of the occurrences `found` in it.
pub fn records_for_line(
    path: &str,
    line_number: usize,
    line: &str,
    found: &Vec<(usize, usize)>,
    whole_line: bool,
    room: Option<usize>,
) -> (records: Vec<SearchMatch>)
    ensures
        match_views(records@) == truncated(
            hit_records(path@, line_number as int, line@, offset_pairs(found@), whole_line),
            limit_view(room),
        ),
{
    let mut records: Vec<SearchMatch> = Vec::new();
    let ghost full = hit_records(
        path@,
        line_number as int,
        line@,
        offset_pairs(found@),
        whole_line,
    );
    if whole_line {
        if has_room(room, 0) {
            records.push(SearchMatch::whole_line(path, line_number, String::from_str(line)));
            assert(match_views(records@) =~= full);
        } else {
            assert(match_views(records@) =~= full.take(0));
        }
        return records;
    }
    let mut k: usize = 0;
    assert(match_views(records@) =~= full.take(0));
    while k < found.len() && has_room(room, k)
        invariant
            !whole_line,
            k <= found@.len(),
            records@.len() == k,
            room matches Some(most) ==> k <= most,
            full == hit_records(
                path@,
                line_number as int,
                line@,
                offset_pairs(found@),
                whole_line,
            ),
            match_views(records@) == full.take(k as int),
        decreases found@.len() - k,
    {
        let (start, end) = found[k];
        records.push(SearchMatch::occurrence(path, line_number, String::from_str(line), start, end));
        k += 1;
        assert(match_views(records@) =~= full.take(k as int));
    }
    assert(full.take(full.len() as int) =~= full);
    records
}

/// The lines of a buffer start at offset 0, and a later line starts after an earlier one.
pub open spec fn lines_in_order(lines: Seq<Line>) -> bool {
    &&& lines.len() > 0 ==> lines[0].start == 0
    &&& forall|i: int| 0 <= i < lines.len() ==> (#[trigger] lines[i]).start <= lines[i].end
    &&& forall|i: int, j: int|
        0 <= i < j < lines.len() ==> (#[trigger] lines[i]).start < (#[trigger] lines[j]).start
}

/// The lines that a buffer is split into are in order and lie within it.
pub proof fn lemma_lines_in_order(content: Seq<u8>)
    ensures
        lines_in_order(lines_of(content)),
        lines_of(content).len() <= content.len(),
        forall|i: int|
            0 <= i < lines_of(content).len() ==> (#[trigger] lines_of(content)[i]).end
                <= content.len(),
{
    lemma_lines_from(content, 0);
    let lines = lines_of(content);
    assert forall|i: int, j: int| 0 <= i < j < lines.len() implies (#[trigger] lines[i]).start < (
    #[trigger] lines[j]).start by {
        assert(lines[i].next <= lines[j].start);
    }
}

/// The owner of an offset is a line of the buffer, or -1 where the buffer has no line that
/// starts at or before the offset.
pub proof fn lemma_owner_line_is_a_line(content: Seq<u8>, offset: int)
    ensures
        -1 <= owner_line(lines_of(content), offset) < lines_of(content).len(),
        0 <= offset && lines_of(content).len() > 0 ==> owner_line(lines_of(content), offset) >= 0,
{
    lemma_lines_in_order(content);
    lemma_owner_in_range(lines_of(content), offset);
}

/// The owner of an offset among lines in order is the last of them that starts at or before
/// the offset, or -1 where none does.
pub proof fn lemma_owner_in_range(lines: Seq<Line>, offset: int)
    requires
        lines_in_order(lines),
    ensures
        -1 <= owner_line(lines, offset) < lines.len(),
        0 <= offset && lines.len() > 0 ==> owner_line(lines, offset) >= 0,
        owner_line(lines, offset) >= 0 ==> lines[owner_line(lines, offset)].start <= offset,
        forall|j: int|
            owner_line(lines, offset) < j < lines.len() ==> offset < (#[trigger] lines[j]).start,
    decreases lines.len(),
{
    if lines.len() > 0 && !(lines.last().start <= offset) {
        let shorter = lines.drop_last();
        assert(lines_in_order(shorter)) by {
            assert forall|i: int, j: int| 0 <= i < j < shorter.len() implies (
            #[trigger] shorter[i]).start < (#[trigger] shorter[j]).start by {
                assert(lines[i].start < lines[j].start);
            }
            assert forall|i: int| 0 <= i < shorter.len() implies (#[trigger] shorter[i]).start
                <= shorter[i].end by {
                assert(lines[i].start <= lines[i].end);
            }
            if shorter.len() > 0 {
                assert(shorter[0] == lines[0]);
            }
        }
        lemma_owner_in_range(shorter, offset);
        if owner_line(shorter, offset) >= 0 {
            assert(shorter[owner_line(shorter, offset)] == lines[owner_line(shorter, offset)]);
        }
        if 0 <= offset {
            assert(lines.len() > 1) by {
                if lines.len() == 1 {
                    assert(lines.last() == lines[0]);
                }
            }
        }
        assert forall|j: int| owner_line(lines, offset) < j < lines.len() implies offset < (
        #[trigger] lines[j]).start by {
            if j < shorter.len() {
                assert(lines[j] == shorter[j]);
            }
        }
    }
}

/// A later offset is owned by the same line as an earlier one or by a later line.
pub proof fn lemma_owner_follows_the_offset(lines: Seq<Line>, earlier: int, later: int)
    requires
        lines_in_order(lines),
        earlier <= later,
    ensures
        owner_line(lines, earlier) <= owner_line(lines, later),
{
    lemma_owner_in_range(lines, earlier);
    lemma_owner_in_range(lines, later);
    let a = owner_line(lines, earlier);
    let b = owner_line(lines, later);
    if a > b {
        assert(later < lines[a].start);
    }
}

/// Among lines in order, the owner of an offset is the line that starts at or before it
/// while the next line, if any, starts after it.
pub proof fn lemma_owner_line(lines: Seq<Line>, offset: int, c: int)
    requires
        lines_in_order(lines),
        0 <= c < lines.len(),
        lines[c].start <= offset,
        c + 1 < lines.len() ==> offset < lines[c + 1].start,
    ensures
        owner_line(lines, offset) == c,
{
    lemma_owner_in_range(lines, offset);
    let owner = owner_line(lines, offset);
    if owner < c {
        assert(offset < lines[c].start);
    } else if owner > c {
        if c + 1 < owner {
            assert(lines[c + 1].start < lines[owner].start);
        }
    }
}

/// Finds the line that owns `offset`, looking first at the line `hint`.
fn owner_of(spans: &Vec<LineSpan>, offset: usize, hint: usize) -> (owner: usize)
    requires
        spans@.len() > 0,
        lines_in_order(line_views(spans@)),
    ensures
        owner < spans@.len(),
        owner == owner_line(line_views(spans@), offset as int),
{
    let ghost lines = line_views(spans@);
    let count = spans.len();
    let mut c: usize = if hint < count && spans[hint].start <= offset {
        hint
    } else {
        0
    };
    assert(lines[c as int].start <= offset);
    while c + 1 < count && spans[c + 1].start <= offset
        invariant
            lines == line_views(spans@),
            count == spans@.len(),
            c < count,
            lines[c as int].start <= offset,
        decreases count - c,
    {
        c += 1;
    }
    proof {
        if c + 1 < spans@.len() {
            assert(lines[c + 1].start == spans@[c + 1].start);
        }
        lemma_owner_line(lines, offset as int, c as int);
    }
    c
}

/// A buffer offset counted from the start of a line and kept within the line's text.
fn place_in_line(offset: usize, span: &LineSpan) -> (place: usize)
    requires
        span.start <= span.end,
    ensures
        place == offset_in_line(offset as int, span@),
{
    if offset <= span.start {
        0
    } else if offset >= span.end {
        span.end - span.start
    } else {
        offset - span.start
    }
}

/// Multiline mode with the occurrences already found: one record for each occurrence in
/// `found`, at the line of `content` that owns its start, as many as `limit` allows.
pub fn records_for_occurrences(
    path: &str,
    content: &[u8],
    found: &Vec<(usize, usize)>,
    whole_line: bool,
    limit: Option<usize>,
) -> (records: Vec<SearchMatch>)
    ensures
        match_views(records@) == truncated(
            records_by_occurrence(path@, content@, offset_pairs(found@), whole_line, 0),
            limit_view(limit),
        ),
{
    let spans = split_lines(content);
    let mut records: Vec<SearchMatch> = Vec::new();
    let mut k: usize = 0;
    let mut cursor: usize = 0;
    let ghost full = records_by_occurrence(path@, content@, offset_pairs(found@), whole_line, 0);
    proof {
        lemma_lines_in_order(content@);
        assert(match_views(records@) =~= Seq::empty());
        assert(full =~= match_views(records@) + full);
    }
    while k < found.len()
        invariant
            k <= found@.len(),
            line_views(spans@) == lines_of(content@),
            lines_in_order(lines_of(content@)),
            forall|i: int|
                0 <= i < lines_of(content@).len() ==> (#[trigger] lines_of(content@)[i]).end
                    <= content@.len(),
            limit matches Some(most) ==> records@.len() <= most,
            full == records_by_occurrence(path@, content@, offset_pairs(found@), whole_line, 0),
            full == match_views(records@) + records_by_occurrence(
                path@,
                content@,
                offset_pairs(found@),
                whole_line,
                k as int,
            ),
        decreases found@.len() - k,
    {
        let ghost rest = records_by_occurrence(
            path@,
            content@,
            offset_pairs(found@),
            whole_line,
            k as int,
        );
        if !has_room(limit, records.len()) {
            proof {
                lemma_truncated_head(full, match_views(records@), rest, limit_view(limit));
            }
            return records;
        }
        if spans.len() == 0 {
            proof {
                lemma_truncated_head(full, match_views(records@), rest, limit_view(limit));
            }
            return records;
        }
        let (start, end) = found[k];
        cursor = owner_of(&spans, start, cursor);
        let span = spans[cursor];
        assert(span@ == lines_of(content@)[cursor as int]);
        match decode_range(content, span.start, span.end) {
            None => {
                proof {
                    lemma_truncated_head(full, match_views(records@), rest, limit_view(limit));
                }
                return records;
            },
            Some(line) => {
                let ghost before = match_views(records@);
                let record = if whole_line {
                    SearchMatch::whole_line(path, cursor + 1, line)
                } else {
                    SearchMatch::occurrence(
                        path,
                        cursor + 1,
                        line,
                        place_in_line(start, &span),
                        place_in_line(end, &span),
                    )
                };
                records.push(record);
                proof {
                    let after = records_by_occurrence(
                        path@,
                        content@,
                        offset_pairs(found@),
                        whole_line,
                        k + 1,
                    );
                    assert(match_views(records@) =~= before + seq![record@]);
                    assert(rest == seq![record@] + after);
                    assert(full =~= match_views(records@) + after);
                }
            },
        }
        k += 1;
    }
    proof {
        lemma_truncated_head(
            full,
            match_views(records@),
            Seq::empty(),
            limit_view(limit),
        );
    }
    records
}

/// Every line of a buffer as a whole-line record, as many as `limit` allows, up to the first
/// line whose text is not valid UTF-8.
pub fn records_for_every_line(path: &str, content: &[u8], limit: Option<usize>) -> (records: Vec<
    SearchMatch,
>)
    ensures
        match_views(records@) == truncated(
            whole_line_records(path@, content@, 0),
            limit_view(limit),
        ),
{
    let spans = split_lines(content);
    let mut records: Vec<SearchMatch> = Vec::new();
    let mut i: usize = 0;
    let ghost full = whole_line_records(path@, content@, 0);
    proof {
        lemma_lines_in_order(content@);
        assert(match_views(records@) =~= Seq::empty());
        assert(full =~= match_views(records@) + full);
    }
    while i < spans.len()
        invariant
            i <= spans@.len(),
            line_views(spans@) == lines_of(content@),
            lines_in_order(lines_of(content@)),
            forall|j: int|
                0 <= j < lines_of(content@).len() ==> (#[trigger] lines_of(content@)[j]).end
                    <= content@.len(),
            limit matches Some(most) ==> records@.len() <= most,
            full == whole_line_records(path@, content@, 0),
            full == match_views(records@) + whole_line_records(path@, content@, i as int),
        decreases spans@.len() - i,
    {
        let ghost rest = whole_line_records(path@, content@, i as int);
        if !has_room(limit, records.len()) {
            proof {
                lemma_truncated_head(full, match_views(records@), rest, limit_view(limit));
            }
            return records;
        }
        let span = spans[i];
        assert(span@ == lines_of(content@)[i as int]);
        match decode_range(content, span.start, span.end) {
            None => {
                proof {
                    lemma_truncated_head(full, match_views(records@), rest, limit_view(limit));
                }
                return records;
            },
            Some(line) => {
                let ghost before = match_views(records@);
                let record = SearchMatch::whole_line(path, i + 1, line);
                records.push(record);
                proof {
                    let after = whole_line_records(path@, content@, i + 1);
                    assert(match_views(records@) =~= before + seq![record@]);
                    assert(rest == seq![record@] + after);
                    assert(full =~= match_views(records@) + after);
                }
            },
        }
        i += 1;
    }
    proof {
        lemma_truncated_head(full, match_views(records@), Seq::empty(), limit_view(limit));
    }
    records
}

/// Line mode: searches every line by its text and gives the records of the lines that are
/// hits, as many as `limit` allows.
pub fn scan_lines(
    path: &str,
    content: &[u8],
    pattern: &CompiledPattern,
    invert: bool,
    whole_line: bool,
    limit: Option<usize>,
) -> (records: Vec<SearchMatch>)
    ensures
        match_views(records@) == truncated(
            records_by_line(path@, content@, pattern@, invert, whole_line, 0),
            limit_view(limit),
        ),
{
    let spans = split_lines(content);
    let mut records: Vec<SearchMatch> = Vec::new();
    let mut i: usize = 0;
    let ghost full = records_by_line(path@, content@, pattern@, invert, whole_line, 0);
    proof {
        lemma_lines_in_order(content@);
        assert(match_views(records@) =~= Seq::empty());
        assert(full =~= match_views(records@) + full);
    }
    while i < spans.len()
        invariant
            i <= spans@.len(),
            line_views(spans@) == lines_of(content@),
            lines_in_order(lines_of(content@)),
            forall|j: int|
                0 <= j < lines_of(content@).len() ==> (#[trigger] lines_of(content@)[j]).end
                    <= content@.len(),
            limit matches Some(most) ==> records@.len() <= most,
            full == records_by_line(path@, content@, pattern@, invert, whole_line, 0),
            full == match_views(records@) + records_by_line(
                path@,
                content@,
                pattern@,
                invert,
                whole_line,
                i as int,
            ),
        decreases spans@.len() - i,
    {
        let ghost rest = records_by_line(path@, content@, pattern@, invert, whole_line, i as int);
        let ghost after = records_by_line(path@, content@, pattern@, invert, whole_line, i + 1);
        if !has_room(limit, records.len()) {
            proof {
                lemma_truncated_head(full, match_views(records@), rest, limit_view(limit));
            }
            return records;
        }
        let span = spans[i];
        assert(span@ == lines_of(content@)[i as int]);
        let text = slice_subrange(content, span.start, span.end);
        // Offsets are wanted only where each occurrence gets a record of its own; elsewhere
        // the first occurrence settles whether the line is a hit.
        let found = if whole_line || invert {
            Vec::new()
        } else {
            pattern.find_all_nonoverlapping(text, 0)
        };
        let hit = if whole_line || invert {
            let first = pattern.find_at(text, 0);
            if invert {
                first.is_none()
            } else {
                first.is_some()
            }
        } else {
            found.len() > 0
        };
        proof {
            lemma_occurrences_start_with_the_first(pattern@, text@, 0);
        }
        assert(hit == unit_is_hit(pattern@, text@, invert));
        if hit {
            match decode_range(content, span.start, span.end) {
                None => {
                    proof {
                        lemma_truncated_head(full, match_views(records@), rest, limit_view(limit));
                    }
                    return records;
                },
                Some(line) => {
                    assert(whole_line || offset_pairs(found@) =~= occurrences(pattern@, text@, 0));
                    let ghost before = match_views(records@);
                    let ghost all = hit_records(
                        path@,
                        i + 1,
                        line@,
                        occurrences(pattern@, text@, 0),
                        whole_line,
                    );
                    let room = room_left(limit, records.len());
                    let mut fresh = records_for_line(
                        path,
                        i + 1,
                        line.as_str(),
                        &found,
                        whole_line,
                        room,
                    );
                    let ghost taken = match_views(fresh@);
                    assert(all == hit_records(
                        path@,
                        i + 1,
                        line@,
                        offset_pairs(found@),
                        whole_line,
                    ));
                    assert(taken == truncated(all, limit_view(room)));
                    assert(rest == all + after);
                    let cut = fresh.len() < found.len();
                    records.append(&mut fresh);
                    assert(match_views(records@) =~= before + taken);
                    if cut {
                        proof {
                            assert(taken == all.take(taken.len() as int));
                            let tail = all.skip(taken.len() as int) + after;
                            assert(all =~= taken + all.skip(taken.len() as int));
                            assert(full =~= match_views(records@) + tail);
                            lemma_truncated_head(
                                full,
                                match_views(records@),
                                tail,
                                limit_view(limit),
                            );
                        }
                        return records;
                    }
                    assert(taken =~= all);
                    assert(full =~= match_views(records@) + after);
                },
            }
        }
        i += 1;
    }
    proof {
        lemma_truncated_head(full, match_views(records@), Seq::empty(), limit_view(limit));
    }
    records
}

/// The most records taken from one file under the options.
pub fn limit_of(options: &ResolvedOptions) -> (limit: Option<usize>)
    ensures
        limit_view(limit) == record_limit(options@),
{
    if options.files_with_matches {
        match options.max_count {
            Some(most) => if most == 0 {
                Some(0)
            } else {
                Some(1)
            },
            None => Some(1),
        }
    } else {
        match options.max_count {
            Some(most) => Some(most as usize),
            None => None,
        }
    }
}

/// Scans the bytes of one file that could be read. The file counts as searched whatever it
/// holds; binary content gives no record. Every record is well formed, and there are no
/// more of them than the options allow.
pub fn scan_file(path: &str, content: &[u8], pattern: &CompiledPattern, options: &ResolvedOptions) -> (outcome:
    FileOutcome)
    ensures
        outcome@ == (OutcomeView {
            matches: file_records(path@, content@, pattern@, options@),
            searched: true,
        }),
        all_well_formed(outcome@.matches),
        options.max_count matches Some(most) ==> outcome.matches@.len() <= most,
        options.files_with_matches ==> outcome.matches@.len() <= 1,
        is_binary_content(content@) ==> outcome.matches@.len() == 0,
{
    proof {
        lemma_file_records_well_formed(path@, content@, pattern@, options@);
        lemma_file_records_within_limit(path@, content@, pattern@, options@);
    }
    let limit = limit_of(options);
    let matches = if is_binary(content) {
        let none: Vec<SearchMatch> = Vec::new();
        assert(match_views(none@) =~= Seq::empty());
        none
    } else if !options.multiline {
        scan_lines(
            path,
            content,
            pattern,
            options.invert_match,
            options.invert_match || options.files_with_matches,
            limit,
        )
    } else if options.invert_match {
        if pattern.find_at(content, 0).is_none() {
            records_for_every_line(path, content, limit)
        } else {
            let none: Vec<SearchMatch> = Vec::new();
            assert(match_views(none@) =~= Seq::empty());
            none
        }
    } else {
        let found = pattern.find_all_nonoverlapping(content, 0);
        records_for_occurrences(path, content, &found, options.files_with_matches, limit)
    };
    FileOutcome { matches, searched: true }
}

} // verus!
