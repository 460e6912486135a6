//! Splitting a file's bytes into lines, telling binary content apart, and decoding a line.

use vstd::prelude::*;
use vstd::slice::slice_subrange;
use vstd::slice::slice_to_vec;
use vstd::utf8::decode_utf8;
use vstd::utf8::valid_utf8;

verus! {

/// The line feed that ends a line.
pub const LINE_FEED: u8 = 10;

/// The carriage return that may stand before a line feed.
pub const CARRIAGE_RETURN: u8 = 13;

/// The byte whose presence marks content as binary.
pub const NUL: u8 = 0;

/// A line of a buffer: its text lies at `start..end`, and the next line starts at `next`.
pub struct Line {
    pub start: int,
    pub end: int,
    pub next: int,
}

/// The offset of the first line feed at or after `from`, or the length of the buffer where
/// there is none.
pub open spec fn line_feed_from(content: Seq<u8>, from: int) -> int
    decreases content.len() - from,
{
    if from < 0 || from >= content.len() {
        content.len() as int
    } else if content[from] == LINE_FEED {
        from
    } else {
        line_feed_from(content, from + 1)
    }
}

/// The line that starts at `start`. It ends at the next line feed, which is not part of its
/// text; nor is a carriage return directly before that line feed. Without a line feed the
/// line runs to the end of the buffer.
pub open spec fn line_at(content: Seq<u8>, start: int) -> Line {
    let feed = line_feed_from(content, start);
    if feed < content.len() {
        Line {
            start,
            end: if feed > start && content[feed - 1] == CARRIAGE_RETURN {
                feed - 1
            } else {
                feed
            },
            next: feed + 1,
        }
    } else {
        Line { start, end: content.len() as int, next: content.len() as int }
    }
}

/// The lines of the buffer from `start` on. What follows the last line feed is a line only if
/// it is not empty.
pub open spec fn lines_from(content: Seq<u8>, start: int) -> Seq<Line>
    decreases content.len() - start,
{
    if 0 <= start < content.len() {
        proof {
            lemma_line_feed_bounds(content, start);
        }
        seq![line_at(content, start)] + lines_from(content, line_at(content, start).next)
    } else {
        Seq::empty()
    }
}

/// All lines of the buffer.
pub open spec fn lines_of(content: Seq<u8>) -> Seq<Line> {
    lines_from(content, 0)
}

/// The bytes of a line's text.
pub open spec fn line_bytes(content: Seq<u8>, line: Line) -> Seq<u8> {
    content.subrange(line.start, line.end)
}

/// Content is binary where it holds a NUL byte.
pub open spec fn is_binary_content(content: Seq<u8>) -> bool {
    content.contains(NUL)
}

/// The first line feed at or after `from` lies between `from` and the end of the buffer, and
/// no line feed stands before it.
pub proof fn lemma_line_feed_bounds(content: Seq<u8>, from: int)
    requires
        0 <= from <= content.len(),
    ensures
        from <= line_feed_from(content, from) <= content.len(),
        forall|k: int| from <= k < line_feed_from(content, from) ==> content[k] != LINE_FEED,
        line_feed_from(content, from) < content.len() ==> content[line_feed_from(content, from)]
            == LINE_FEED,
    decreases content.len() - from,
{
    if from < content.len() && content[from] != LINE_FEED {
        lemma_line_feed_bounds(content, from + 1);
    }
}

/// A line lies within the buffer, its text ends before the next line starts, and the next
/// line starts further on.
pub proof fn lemma_line_at_bounds(content: Seq<u8>, start: int)
    requires
        0 <= start < content.len(),
    ensures
        start <= line_at(content, start).end <= line_at(content, start).next <= content.len(),
        start < line_at(content, start).next,
{
    lemma_line_feed_bounds(content, start);
}

/// Every line from `start` on lies within the buffer, a later line starts where an earlier
/// one has handed over or further on, the last line reaches the end of the buffer, and there
/// are no more lines than bytes.
pub proof fn lemma_lines_from(content: Seq<u8>, start: int)
    requires
        0 <= start <= content.len(),
    ensures
        lines_from(content, start).len() <= content.len() - start,
        start < content.len() ==> lines_from(content, start).len() > 0 && lines_from(
            content,
            start,
        )[0].start == start,
        forall|i: int|
            0 <= i < lines_from(content, start).len() ==> {
                let line = #[trigger] lines_from(content, start)[i];
                &&& start <= line.start <= line.end <= line.next <= content.len()
                &&& line.start < line.next
                &&& line == line_at(content, line.start)
            },
        forall|i: int, j: int|
            0 <= i < j < lines_from(content, start).len() ==> (#[trigger] lines_from(
                content,
                start,
            )[i]).next <= (#[trigger] lines_from(content, start)[j]).start,
        lines_from(content, start).len() > 0 ==> lines_from(content, start).last().next
            == content.len(),
    decreases content.len() - start,
{
    if start < content.len() {
        lemma_line_at_bounds(content, start);
        let first = line_at(content, start);
        let rest = lines_from(content, first.next);
        lemma_lines_from(content, first.next);
        let all = lines_from(content, start);
        assert(all =~= seq![first] + rest);
        assert forall|i: int| 0 <= i < all.len() implies {
            let line = #[trigger] all[i];
            &&& start <= line.start <= line.end <= line.next <= content.len()
            &&& line.start < line.next
            &&& line == line_at(content, line.start)
        } by {
            if i > 0 {
                assert(all[i] == rest[i - 1]);
            }
        }
        assert forall|i: int, j: int| 0 <= i < j < all.len() implies (#[trigger] all[i]).next <= (
        #[trigger] all[j]).start by {
            assert(all[j] == rest[j - 1]);
            if i > 0 {
                assert(all[i] == rest[i - 1]);
            }
        }
        if rest.len() > 0 {
            assert(all.last() == rest.last());
        }
    }
}

/// The lines tile the buffer: the first starts at offset 0, each line starts where the one
/// before it hands over, and the last one reaches the end of the buffer.
pub proof fn lemma_lines_tile_the_buffer(content: Seq<u8>, i: int)
    requires
        0 <= i < lines_of(content).len(),
    ensures
        i == 0 ==> lines_of(content)[i].start == 0,
        i > 0 ==> lines_of(content)[i].start == lines_of(content)[i - 1].next,
        i == lines_of(content).len() - 1 ==> lines_of(content)[i].next == content.len(),
{
    lemma_lines_from(content, 0);
    lemma_lines_adjacent(content, 0, i);
}

/// Among the lines from `start` on, each but the first starts where the one before it hands
/// over.
proof fn lemma_lines_adjacent(content: Seq<u8>, start: int, i: int)
    requires
        0 <= start <= content.len(),
        0 <= i < lines_from(content, start).len(),
    ensures
        i > 0 ==> lines_from(content, start)[i].start == lines_from(content, start)[i - 1].next,
    decreases i,
{
    if i > 0 {
        lemma_line_at_bounds(content, start);
        let first = line_at(content, start);
        let rest = lines_from(content, first.next);
        let all = lines_from(content, start);
        assert(all =~= seq![first] + rest);
        assert(all[i] == rest[i - 1]);
        lemma_lines_from(content, first.next);
        if i > 1 {
            assert(all[i - 1] == rest[i - 2]);
            lemma_lines_adjacent(content, first.next, i - 1);
        }
    }
}

/// The text of a line holds no line feed, and what the line leaves out is its terminator:
/// a line feed, with a carriage return before it where there is one, or nothing at the end of
/// the buffer.
pub proof fn lemma_line_leaves_out_its_terminator(content: Seq<u8>, i: int)
    requires
        0 <= i < lines_of(content).len(),
    ensures
        forall|k: int|
            lines_of(content)[i].start <= k < lines_of(content)[i].end ==> content[k]
                != LINE_FEED,
        ({
            let line = lines_of(content)[i];
            ||| line.next == line.end && line.end == content.len()
            ||| line.next == line.end + 1 && content[line.end] == LINE_FEED
            ||| line.next == line.end + 2 && content[line.end] == CARRIAGE_RETURN && content[line.end
                + 1] == LINE_FEED
        }),
{
    lemma_lines_from(content, 0);
    let line = lines_of(content)[i];
    assert(line == line_at(content, line.start));
    lemma_line_feed_bounds(content, line.start);
}

/// A line as machine offsets into the buffer it was cut from.
#[derive(Clone, Copy, Debug)]
pub struct LineSpan {
    /// Where the text starts.
    pub start: usize,
    /// Where the text ends, the terminator left out.
    pub end: usize,
    /// Where the next line starts.
    pub next: usize,
}

impl View for LineSpan {
    type V = Line;

    open spec fn view(&self) -> Line {
        Line { start: self.start as int, end: self.end as int, next: self.next as int }
    }
}

/// The lines that a sequence of spans stands for.
pub open spec fn line_views(spans: Seq<LineSpan>) -> Seq<Line> {
    Seq::new(spans.len(), |i: int| spans[i]@)
}

/// Finds the first line feed at or after `from`.
pub fn find_line_feed(content: &[u8], from: usize) -> (feed: usize)
    ensures
        feed == line_feed_from(content@, from as int),
        feed <= content@.len(),
        from <= content@.len() ==> from <= feed,
{
    if from >= content.len() {
        return content.len();
    }
    let mut feed: usize = from;
    while feed < content.len() && content[feed] != LINE_FEED
        invariant
            from <= feed <= content@.len(),
            line_feed_from(content@, from as int) == line_feed_from(content@, feed as int),
        decreases content@.len() - feed,
    {
        feed += 1;
    }
    feed
}

/// Splits a buffer into its lines, in order.
pub fn split_lines(content: &[u8]) -> (spans: Vec<LineSpan>)
    ensures
        line_views(spans@) == lines_of(content@),
{
    let mut spans: Vec<LineSpan> = Vec::new();
    let mut start: usize = 0;
    assert(line_views(spans@) =~= Seq::empty());
    while start < content.len()
        invariant
            start <= content@.len(),
            lines_of(content@) == line_views(spans@) + lines_from(content@, start as int),
        decreases content@.len() - start,
    {
        let ghost before = spans@;
        let feed = find_line_feed(content, start);
        let span = if feed < content.len() {
            let end = if feed > start && content[feed - 1] == CARRIAGE_RETURN {
                feed - 1
            } else {
                feed
            };
            LineSpan { start, end, next: feed + 1 }
        } else {
            LineSpan { start, end: feed, next: feed }
        };
        assert(span@ == line_at(content@, start as int));
        spans.push(span);
        assert(line_views(spans@) =~= line_views(before) + seq![span@]);
        start = span.next;
    }
    spans
}

/// Tells whether content is binary: whether a NUL byte occurs in it.
pub fn is_binary(content: &[u8]) -> (binary: bool)
    ensures
        binary == is_binary_content(content@),
{
    let mut i: usize = 0;
    while i < content.len()
        invariant
            i <= content@.len(),
            forall|k: int| 0 <= k < i ==> content@[k] != NUL,
        decreases content@.len() - i,
    {
        if content[i] == NUL {
            return true;
        }
        i += 1;
    }
    false
}

/// Calls `String::from_utf8` of std. Trusted: it succeeds exactly on valid UTF-8, and the
/// string then holds the characters that the bytes encode.
#[verifier::external_body]
fn string_from_utf8(bytes: Vec<u8>) -> (text: Option<String>)
    ensures
        text is Some <==> valid_utf8(bytes@),
        text matches Some(s) ==> s@ == decode_utf8(bytes@),
{
    String::from_utf8(bytes).ok()
}

/// The text of the bytes at `start..end`: `None` where they are not valid UTF-8, and where
/// `start..end` is no range of the buffer.
pub fn decode_range(content: &[u8], start: usize, end: usize) -> (text: Option<String>)
    ensures
        text is Some <==> start <= end <= content@.len() && valid_utf8(
            content@.subrange(start as int, end as int),
        ),
        text matches Some(s) ==> s@ == decode_utf8(content@.subrange(start as int, end as int)),
{
    if start <= end && end <= content.len() {
        string_from_utf8(slice_to_vec(slice_subrange(content, start, end)))
    } else {
        None
    }
}

} // verus!
