//! From content and flag to the counts, and from the counts to the line
//! that is printed.

use crate::args::Flag;
use crate::chars::{char_count, count_chars};
use crate::counters::{
    byte_count, count_bytes, count_lines, count_words, line_count, word_count,
};
use crate::error::WcError;
use vstd::prelude::*;
use vstd::string::*;
use vstd::utf8::valid_utf8;

verus! {

/// The least width of a number's column where three are printed together.
pub const FIELD_WIDTH: usize = 10;

/// What one invocation counts: the one number that a flag selects, or
/// lines, words and bytes together.
#[derive(Debug, Clone, Copy, PartialEq, Eq, Structural)]
pub enum CountResult {
    Single(usize),
    Triple { lines: usize, words: usize, bytes: usize },
}

impl View for CountResult {
    type V = Seq<nat>;

    /// The numbers in the order in which they are printed.
    open spec fn view(&self) -> Seq<nat> {
        match self {
            CountResult::Single(n) => seq![*n as nat],
            CountResult::Triple { lines, words, bytes } => seq![
                *lines as nat,
                *words as nat,
                *bytes as nat,
            ],
        }
    }
}

/// The decimal digit for `d`, which is below ten.
pub open spec fn digit(d: nat) -> char
    recommends
        d < 10,
{
    seq!['0', '1', '2', '3', '4', '5', '6', '7', '8', '9'][d as int]
}

/// `n` in decimal, without leading zeros.
pub open spec fn decimal(n: nat) -> Seq<char>
    decreases n,
{
    if n < 10 {
        seq![digit(n)]
    } else {
        decimal(n / 10) + seq![digit(n % 10)]
    }
}

/// `count` spaces.
pub open spec fn padding(count: nat) -> Seq<char> {
    Seq::new(count, |i: int| ' ')
}

/// `text` moved to the right end of a column of `width` characters. A
/// text that is wider than the column stays as it is.
pub open spec fn right_aligned(text: Seq<char>, width: nat) -> Seq<char> {
    if text.len() >= width {
        text
    } else {
        padding((width - text.len()) as nat) + text
    }
}

/// `n` in decimal in a column of [`FIELD_WIDTH`] characters.
pub open spec fn field(n: nat) -> Seq<char> {
    right_aligned(decimal(n), FIELD_WIDTH as nat)
}

/// The numbers that `flag` selects of `content`, in the order in which
/// they are printed. Only characters can fail: they need valid UTF-8.
pub open spec fn counts_of(flag: Option<Flag>, content: Seq<u8>) -> Result<Seq<nat>, WcError> {
    match flag {
        None => Ok(seq![line_count(content), word_count(content), byte_count(content)]),
        Some(Flag::Bytes) => Ok(seq![byte_count(content)]),
        Some(Flag::Lines) => Ok(seq![line_count(content)]),
        Some(Flag::Words) => Ok(seq![word_count(content)]),
        Some(Flag::Chars) => if valid_utf8(content) {
            Ok(seq![char_count(content)])
        } else {
            Err(WcError::Encoding)
        },
    }
}

/// The printed line for one number or for three: one number stands
/// alone, three stand in their columns with one space between them. The
/// line ends with a line feed.
pub open spec fn line_of(values: Seq<nat>) -> Seq<char> {
    if values.len() == 3 {
        field(values[0]) + seq![' '] + field(values[1]) + seq![' '] + field(values[2])
            + seq!['\n']
    } else {
        decimal(values[0]) + seq!['\n']
    }
}

/// The line that an invocation with `flag` prints for `content`.
pub open spec fn output_of(flag: Option<Flag>, content: Seq<u8>) -> Result<Seq<char>, WcError> {
    match counts_of(flag, content) {
        Ok(values) => Ok(line_of(values)),
        Err(e) => Err(e),
    }
}

/// The text of one decimal digit.
fn digit_text(d: usize) -> (r: &'static str)
    requires
        d < 10,
    ensures
        r@ == seq![digit(d as nat)],
{
    proof {
        reveal_strlit("0");
        reveal_strlit("1");
        reveal_strlit("2");
        reveal_strlit("3");
        reveal_strlit("4");
        reveal_strlit("5");
        reveal_strlit("6");
        reveal_strlit("7");
        reveal_strlit("8");
        reveal_strlit("9");
    }
    let r: &'static str = if d == 0 {
        "0"
    } else if d == 1 {
        "1"
    } else if d == 2 {
        "2"
    } else if d == 3 {
        "3"
    } else if d == 4 {
        "4"
    } else if d == 5 {
        "5"
    } else if d == 6 {
        "6"
    } else if d == 7 {
        "7"
    } else if d == 8 {
        "8"
    } else {
        "9"
    };
    assert(r@ =~= seq![digit(d as nat)]);
    r
}

/// Appends `n` in decimal to `out`.
fn push_decimal(out: &mut String, n: usize)
    ensures
        final(out)@ == old(out)@ + decimal(n as nat),
    decreases n,
{
    if n >= 10 {
        push_decimal(out, n / 10);
    }
    out.append(digit_text(n % 10));
    assert(out@ =~= old(out)@ + decimal(n as nat));
}

/// Appends `n` in its column to `out`.
fn push_field(out: &mut String, n: usize)
    ensures
        final(out)@ == old(out)@ + field(n as nat),
{
    let mut digits: String = String::new();
    push_decimal(&mut digits, n);
    assert(digits@ =~= decimal(n as nat));
    let width: usize = digits.as_str().unicode_len();
    let mut k: usize = width;
    assert(out@ =~= old(out)@ + padding(0));
    while k < FIELD_WIDTH
        invariant
            width <= k,
            k <= FIELD_WIDTH || k == width,
            out@ == old(out)@ + padding((k - width) as nat),
        decreases FIELD_WIDTH - k,
    {
        proof {
            reveal_strlit(" ");
        }
        out.append(" ");
        k += 1;
        assert(out@ =~= old(out)@ + padding((k - width) as nat));
    }
    out.append(digits.as_str());
    assert(out@ =~= old(out)@ + field(n as nat));
}

/// Counts what `flag` selects of `content`: one number, or lines, words
/// and bytes where there is no flag.
pub fn measure(flag: Option<Flag>, content: &[u8]) -> (r: Result<CountResult, WcError>)
    ensures
        match r {
            Ok(counts) => counts_of(flag, content@) == Ok::<Seq<nat>, WcError>(counts@),
            Err(e) => counts_of(flag, content@) == Err::<Seq<nat>, WcError>(e),
        },
{
    match flag {
        None => Ok(
            CountResult::Triple {
                lines: count_lines(content),
                words: count_words(content),
                bytes: count_bytes(content),
            },
        ),
        Some(Flag::Bytes) => Ok(CountResult::Single(count_bytes(content))),
        Some(Flag::Lines) => Ok(CountResult::Single(count_lines(content))),
        Some(Flag::Words) => Ok(CountResult::Single(count_words(content))),
        Some(Flag::Chars) => match count_chars(content) {
            Ok(n) => Ok(CountResult::Single(n)),
            Err(e) => Err(e),
        },
    }
}

/// Writes the line that is printed for `counts`.
pub fn render(counts: &CountResult) -> (line: String)
    ensures
        line@ == line_of(counts@),
{
    let mut line: String = String::new();
    proof {
        reveal_strlit(" ");
        reveal_strlit("\n");
    }
    match counts {
        CountResult::Single(n) => {
            push_decimal(&mut line, *n);
        },
        CountResult::Triple { lines, words, bytes } => {
            push_field(&mut line, *lines);
            line.append(" ");
            push_field(&mut line, *words);
            line.append(" ");
            push_field(&mut line, *bytes);
        },
    }
    line.append("\n");
    assert(line@ =~= line_of(counts@));
    line
}

/// The line for an invocation without a flag: lines, words and bytes of
/// `content`, in this order, each in its column.
pub fn no_flag(content: &[u8]) -> (line: String)
    ensures
        output_of(None, content@) == Ok::<Seq<char>, WcError>(line@),
{
    let counts = CountResult::Triple {
        lines: count_lines(content),
        words: count_words(content),
        bytes: count_bytes(content),
    };
    render(&counts)
}

/// The line for an invocation with `flag`: the one number that the flag
/// selects of `content`.
///
/// It fails with [`WcError::Encoding`] where characters are asked for and
/// `content` is not valid UTF-8, and on no other input.
pub fn handle_file_contents(content: &[u8], flag: Flag) -> (r: Result<String, WcError>)
    ensures
        match r {
            Ok(line) => output_of(Some(flag), content@) == Ok::<Seq<char>, WcError>(line@),
            Err(e) => output_of(Some(flag), content@) == Err::<Seq<char>, WcError>(e),
        },
{
    let count: usize = match flag {
        Flag::Bytes => count_bytes(content),
        Flag::Lines => count_lines(content),
        Flag::Words => count_words(content),
        Flag::Chars => match count_chars(content) {
            Ok(n) => n,
            Err(e) => {
                return Err(e);
            },
        },
    };
    Ok(render(&CountResult::Single(count)))
}

/// The line that is printed for `content`: with a flag its one number,
/// without a flag lines, words and bytes.
pub fn report(flag: Option<Flag>, content: &[u8]) -> (r: Result<String, WcError>)
    ensures
        match r {
            Ok(line) => output_of(flag, content@) == Ok::<Seq<char>, WcError>(line@),
            Err(e) => output_of(flag, content@) == Err::<Seq<char>, WcError>(e),
        },
{
    match flag {
        None => Ok(no_flag(content)),
        Some(selected) => handle_file_contents(content, selected),
    }
}

/// Of an empty buffer every count is zero, whatever the flag.
pub proof fn law_empty_content_counts_zero(flag: Option<Flag>, content: Seq<u8>)
    requires
        content.len() == 0,
    ensures
        byte_count(content) == 0,
        line_count(content) == 0,
        word_count(content) == 0,
        valid_utf8(content) && char_count(content) == 0,
        counts_of(flag, content) is Ok,
        forall|k: int|
            0 <= k < counts_of(flag, content)->Ok_0.len() ==> counts_of(flag, content)->Ok_0[k]
                == 0,
{
}

/// The three numbers that are counted without a flag are, in this order,
/// the numbers that the flags for lines, for words and for bytes select
/// of the same content.
pub proof fn law_triple_is_three_singles(content: Seq<u8>)
    ensures
        counts_of(None, content) == Ok::<Seq<nat>, WcError>(
            counts_of(Some(Flag::Lines), content)->Ok_0 + counts_of(
                Some(Flag::Words),
                content,
            )->Ok_0 + counts_of(Some(Flag::Bytes), content)->Ok_0,
        ),
{
    let joined = counts_of(Some(Flag::Lines), content)->Ok_0 + counts_of(
        Some(Flag::Words),
        content,
    )->Ok_0 + counts_of(Some(Flag::Bytes), content)->Ok_0;
    assert(joined =~= seq![line_count(content), word_count(content), byte_count(content)]);
}

/// The number that a line with one number shows: the line without the
/// line feed that ends it.
pub open spec fn number_of(line: Seq<char>) -> Seq<char> {
    line.drop_last()
}

/// The line that is printed without a flag holds, in this order, what
/// the lines for the flags for lines, for words and for bytes show of the
/// same content, each moved to the right of its column.
pub proof fn law_triple_line_is_three_single_lines(content: Seq<u8>)
    ensures
        output_of(None, content) == Ok::<Seq<char>, WcError>(
            right_aligned(
                number_of(output_of(Some(Flag::Lines), content)->Ok_0),
                FIELD_WIDTH as nat,
            ) + seq![' '] + right_aligned(
                number_of(output_of(Some(Flag::Words), content)->Ok_0),
                FIELD_WIDTH as nat,
            ) + seq![' '] + right_aligned(
                number_of(output_of(Some(Flag::Bytes), content)->Ok_0),
                FIELD_WIDTH as nat,
            ) + seq!['\n'],
        ),
{
    let lines = decimal(line_count(content));
    let words = decimal(word_count(content));
    let bytes = decimal(byte_count(content));
    assert(number_of(lines + seq!['\n']) =~= lines);
    assert(number_of(words + seq!['\n']) =~= words);
    assert(number_of(bytes + seq!['\n']) =~= bytes);
}

} // verus!
