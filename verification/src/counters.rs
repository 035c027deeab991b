//! The counters that work on raw bytes: bytes, lines and words.
//!
//! None of them decodes the buffer, so each is defined on every byte
//! sequence, whether or not it is valid text.

use vstd::prelude::*;

verus! {

/// The line feed byte, which ends a line.
pub const LINE_FEED: u8 = 0x0A;

/// The number of bytes in a buffer.
pub open spec fn byte_count(buffer: Seq<u8>) -> nat {
    buffer.len()
}

/// True for the bytes that separate words: space, horizontal tab, line
/// feed, vertical tab, form feed and carriage return.
pub open spec fn is_whitespace(b: u8) -> bool {
    b == 0x20 || 0x09 <= b <= 0x0D
}

/// The number of line feeds among the first `n` bytes of `buffer`.
pub open spec fn line_feeds_upto(buffer: Seq<u8>, n: int) -> nat
    decreases n,
{
    if n <= 0 {
        0
    } else {
        line_feeds_upto(buffer, n - 1) + if buffer[n - 1] == LINE_FEED {
            1nat
        } else {
            0nat
        }
    }
}

/// The number of lines of a buffer: one for each line feed, and one more
/// for what follows the last line feed, if anything does.
///
/// A carriage return before a line feed belongs to the line that the
/// line feed ends; a carriage return alone ends nothing.
pub open spec fn line_count(buffer: Seq<u8>) -> nat {
    line_feeds_upto(buffer, buffer.len() as int) + if buffer.len() > 0 && buffer.last()
        != LINE_FEED {
        1nat
    } else {
        0nat
    }
}

/// True when a word starts at index `i`: the byte there is no whitespace,
/// and it is the first byte of the buffer or follows whitespace.
pub open spec fn starts_word(buffer: Seq<u8>, i: int) -> bool {
    &&& 0 <= i < buffer.len()
    &&& !is_whitespace(buffer[i])
    &&& (i == 0 || is_whitespace(buffer[i - 1]))
}

/// The number of words that start among the first `n` bytes of `buffer`.
pub open spec fn word_starts_upto(buffer: Seq<u8>, n: int) -> nat
    decreases n,
{
    if n <= 0 {
        0
    } else {
        word_starts_upto(buffer, n - 1) + if starts_word(buffer, n - 1) {
            1nat
        } else {
            0nat
        }
    }
}

/// The number of words of a buffer: its maximal runs of bytes that are
/// no whitespace, each counted where it starts.
pub open spec fn word_count(buffer: Seq<u8>) -> nat {
    word_starts_upto(buffer, buffer.len() as int)
}

/// Tells whether `b` separates words.
pub fn is_whitespace_byte(b: u8) -> (r: bool)
    ensures
        r == is_whitespace(b),
{
    b == 0x20 || (0x09 <= b && b <= 0x0D)
}

/// Counts the raw bytes of `buffer`.
pub fn count_bytes(buffer: &[u8]) -> (n: usize)
    ensures
        n == byte_count(buffer@),
{
    buffer.len()
}

/// Counts the lines of `buffer`.
pub fn count_lines(buffer: &[u8]) -> (n: usize)
    ensures
        n == line_count(buffer@),
        n <= buffer@.len(),
{
    let len: usize = buffer.len();
    let mut feeds: usize = 0;
    let mut i: usize = 0;
    while i < len
        invariant
            len == buffer@.len(),
            i <= len,
            feeds == line_feeds_upto(buffer@, i as int),
            feeds <= i,
            i > 0 && buffer@[i - 1] != LINE_FEED ==> feeds < i,
        decreases len - i,
    {
        if buffer[i] == LINE_FEED {
            feeds += 1;
        }
        i += 1;
    }
    if len > 0 && buffer[len - 1] != LINE_FEED {
        feeds + 1
    } else {
        feeds
    }
}

/// Counts the words of `buffer`.
pub fn count_words(buffer: &[u8]) -> (n: usize)
    ensures
        n == word_count(buffer@),
        n <= buffer@.len(),
{
    let len: usize = buffer.len();
    let mut words: usize = 0;
    let mut in_word: bool = false;
    let mut i: usize = 0;
    while i < len
        invariant
            len == buffer@.len(),
            i <= len,
            words == word_starts_upto(buffer@, i as int),
            words <= i,
            in_word == (i > 0 && !is_whitespace(buffer@[i - 1])),
        decreases len - i,
    {
        let separator: bool = is_whitespace_byte(buffer[i]);
        if !separator && !in_word {
            words += 1;
        }
        in_word = !separator;
        i += 1;
    }
    words
}

/// The text made of `segments`, each followed by one line feed.
pub open spec fn terminated(segments: Seq<Seq<u8>>) -> Seq<u8>
    decreases segments.len(),
{
    if segments.len() == 0 {
        Seq::empty()
    } else {
        terminated(segments.drop_last()) + segments.last() + seq![LINE_FEED]
    }
}

/// True when every byte of `bytes` is whitespace.
pub open spec fn all_whitespace(bytes: Seq<u8>) -> bool {
    forall|k: int| 0 <= k < bytes.len() ==> is_whitespace(#[trigger] bytes[k])
}

/// True when a word runs across the place where `left` and `right` meet
/// in `left + right`.
pub open spec fn joins_words(left: Seq<u8>, right: Seq<u8>) -> bool {
    &&& left.len() > 0
    &&& right.len() > 0
    &&& !is_whitespace(left.last())
    &&& !is_whitespace(right[0])
}

/// `buffer` with each whitespace byte written twice.
pub open spec fn doubled_whitespace(buffer: Seq<u8>) -> Seq<u8>
    decreases buffer.len(),
{
    if buffer.len() == 0 {
        Seq::empty()
    } else if is_whitespace(buffer.last()) {
        doubled_whitespace(buffer.drop_last()) + seq![buffer.last(), buffer.last()]
    } else {
        doubled_whitespace(buffer.drop_last()) + seq![buffer.last()]
    }
}

proof fn lemma_line_feeds_of_prefix(left: Seq<u8>, right: Seq<u8>, n: int)
    requires
        0 <= n <= left.len(),
    ensures
        line_feeds_upto(left + right, n) == line_feeds_upto(left, n),
    decreases n,
{
    if n > 0 {
        lemma_line_feeds_of_prefix(left, right, n - 1);
    }
}

proof fn lemma_line_feeds_of_suffix(left: Seq<u8>, right: Seq<u8>, n: int)
    requires
        0 <= n <= right.len(),
    ensures
        line_feeds_upto(left + right, left.len() + n) == line_feeds_upto(left, left.len() as int)
            + line_feeds_upto(right, n),
    decreases n,
{
    if n == 0 {
        lemma_line_feeds_of_prefix(left, right, left.len() as int);
    } else {
        lemma_line_feeds_of_suffix(left, right, n - 1);
    }
}

/// The line feeds of two texts written one after the other are those of
/// the first and those of the second.
proof fn lemma_line_feeds_add(left: Seq<u8>, right: Seq<u8>)
    ensures
        line_feeds_upto(left + right, (left + right).len() as int) == line_feeds_upto(
            left,
            left.len() as int,
        ) + line_feeds_upto(right, right.len() as int),
{
    lemma_line_feeds_of_suffix(left, right, right.len() as int);
}

proof fn lemma_no_line_feed(segment: Seq<u8>, n: int)
    requires
        0 <= n <= segment.len(),
        !segment.contains(LINE_FEED),
    ensures
        line_feeds_upto(segment, n) == 0,
    decreases n,
{
    if n > 0 {
        lemma_no_line_feed(segment, n - 1);
        assert(segment.contains(segment[n - 1]));
    }
}

proof fn lemma_line_feeds_of_terminated(segments: Seq<Seq<u8>>)
    requires
        forall|i: int| 0 <= i < segments.len() ==> !(#[trigger] segments[i]).contains(LINE_FEED),
    ensures
        line_feeds_upto(terminated(segments), terminated(segments).len() as int)
            == segments.len(),
        segments.len() > 0 ==> terminated(segments).len() > 0 && terminated(segments).last()
            == LINE_FEED,
    decreases segments.len(),
{
    if segments.len() > 0 {
        let before = terminated(segments.drop_last());
        let last = segments.last();
        let feed = seq![LINE_FEED];
        lemma_line_feeds_of_terminated(segments.drop_last());
        lemma_no_line_feed(last, last.len() as int);
        lemma_line_feeds_add(before, last);
        lemma_line_feeds_add(before + last, feed);
        assert(line_feeds_upto(feed, 1) == 1) by {
            reveal_with_fuel(line_feeds_upto, 2);
        }
    }
}

/// A text of segments without line feeds, each followed by a line feed,
/// has as many lines as segments.
///
/// A segment may end in a carriage return: the segment and the line feed
/// then end in the two-byte terminator, and the count is the same.
pub proof fn law_terminated_segments_are_lines(segments: Seq<Seq<u8>>)
    requires
        forall|i: int| 0 <= i < segments.len() ==> !(#[trigger] segments[i]).contains(LINE_FEED),
    ensures
        line_count(terminated(segments)) == segments.len(),
{
    lemma_line_feeds_of_terminated(segments);
}

/// Without the line feed after the last segment, which is not empty, the
/// text still has as many lines as segments.
pub proof fn law_last_line_needs_no_terminator(segments: Seq<Seq<u8>>)
    requires
        forall|i: int| 0 <= i < segments.len() ==> !(#[trigger] segments[i]).contains(LINE_FEED),
        segments.len() > 0,
        segments.last().len() > 0,
    ensures
        line_count(terminated(segments).drop_last()) == segments.len(),
{
    let before = terminated(segments.drop_last());
    let last = segments.last();
    let text = terminated(segments).drop_last();
    assert(text =~= before + last);
    lemma_line_feeds_of_terminated(segments.drop_last());
    lemma_no_line_feed(last, last.len() as int);
    lemma_line_feeds_add(before, last);
    assert(last.contains(last.last()));
}

proof fn lemma_word_starts_of_prefix(left: Seq<u8>, right: Seq<u8>, n: int)
    requires
        0 <= n <= left.len(),
    ensures
        word_starts_upto(left + right, n) == word_starts_upto(left, n),
    decreases n,
{
    if n > 0 {
        lemma_word_starts_of_prefix(left, right, n - 1);
    }
}

proof fn lemma_word_starts_of_suffix(left: Seq<u8>, right: Seq<u8>, n: int)
    requires
        0 <= n <= right.len(),
    ensures
        word_starts_upto(left + right, left.len() + n) + (if n > 0 && joins_words(left, right) {
            1nat
        } else {
            0nat
        }) == word_count(left) + word_starts_upto(right, n),
    decreases n,
{
    if n == 0 {
        lemma_word_starts_of_prefix(left, right, left.len() as int);
    } else {
        lemma_word_starts_of_suffix(left, right, n - 1);
    }
}

/// The words of two texts written one after the other are those of the
/// first and those of the second, but that a word which runs across the
/// joint is one word.
proof fn lemma_word_count_add(left: Seq<u8>, right: Seq<u8>)
    ensures
        word_count(left + right) + (if joins_words(left, right) {
            1nat
        } else {
            0nat
        }) == word_count(left) + word_count(right),
{
    lemma_word_starts_of_suffix(left, right, right.len() as int);
}

proof fn lemma_whitespace_has_no_words(bytes: Seq<u8>, n: int)
    requires
        0 <= n <= bytes.len(),
        all_whitespace(bytes),
    ensures
        word_starts_upto(bytes, n) == 0,
    decreases n,
{
    if n > 0 {
        lemma_whitespace_has_no_words(bytes, n - 1);
    }
}

/// More whitespace where there is whitespace already, or at either end
/// of the buffer, does not change the number of words.
pub proof fn law_more_whitespace_same_words(buffer: Seq<u8>, at: int, extra: Seq<u8>)
    requires
        0 <= at <= buffer.len(),
        all_whitespace(extra),
        at == 0 || at == buffer.len() || is_whitespace(buffer[at - 1]) || is_whitespace(
            buffer[at],
        ),
    ensures
        word_count(buffer.subrange(0, at) + extra + buffer.subrange(at, buffer.len() as int))
            == word_count(buffer),
{
    let left = buffer.subrange(0, at);
    let right = buffer.subrange(at, buffer.len() as int);
    assert(buffer =~= left + right);
    lemma_word_count_add(left, right);
    lemma_word_count_add(left, extra);
    lemma_word_count_add(left + extra, right);
    lemma_whitespace_has_no_words(extra, extra.len() as int);
    if extra.len() == 0 {
        assert(left + extra =~= left);
    }
}

proof fn lemma_doubled_whitespace(buffer: Seq<u8>)
    ensures
        word_count(doubled_whitespace(buffer)) == word_count(buffer),
        buffer.len() > 0 ==> doubled_whitespace(buffer).len() > 0 && doubled_whitespace(
            buffer,
        ).last() == buffer.last(),
    decreases buffer.len(),
{
    if buffer.len() > 0 {
        let front = buffer.drop_last();
        let last = buffer.last();
        lemma_doubled_whitespace(front);
        assert(buffer =~= front + seq![last]);
        lemma_word_count_add(front, seq![last]);
        if is_whitespace(last) {
            let twice = seq![last, last];
            lemma_word_count_add(doubled_whitespace(front), twice);
            lemma_whitespace_has_no_words(twice, 2);
            lemma_whitespace_has_no_words(seq![last], 1);
        } else {
            lemma_word_count_add(doubled_whitespace(front), seq![last]);
        }
    }
}

/// Writing every whitespace byte twice does not change the number of
/// words.
pub proof fn law_doubled_whitespace_same_words(buffer: Seq<u8>)
    ensures
        word_count(doubled_whitespace(buffer)) == word_count(buffer),
{
    lemma_doubled_whitespace(buffer);
}

} // verus!
