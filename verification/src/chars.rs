//! The character counter, which decodes the buffer as UTF-8.

use crate::counters::byte_count;
use crate::error::WcError;
use vstd::prelude::*;
use vstd::utf8::*;

verus! {

/// The number of characters that `buffer` decodes to. It means something
/// only where `buffer` is valid UTF-8.
pub open spec fn char_count(buffer: Seq<u8>) -> nat
    recommends
        valid_utf8(buffer),
{
    decode_utf8(buffer).len()
}

/// What is left of `buffer` from index `i` on.
pub open spec fn tail(buffer: Seq<u8>, i: int) -> Seq<u8> {
    buffer.subrange(i, buffer.len() as int)
}

/// Tells whether `b` has the form of a UTF-8 continuation byte.
fn is_continuation(b: u8) -> (r: bool)
    ensures
        r == is_continuation_byte(b),
{
    0x80 <= b && b <= 0xBF
}

/// The width in bytes of the character encoded at index `i`, or 0 where
/// no well-formed encoding of a character starts there.
fn scalar_width(buffer: &[u8], i: usize) -> (w: usize)
    requires
        i < buffer@.len(),
    ensures
        valid_first_scalar(tail(buffer@, i as int)) ==> w == length_of_first_scalar(
            tail(buffer@, i as int),
        ),
        !valid_first_scalar(tail(buffer@, i as int)) ==> w == 0,
        w <= 4,
        i + w <= buffer@.len(),
{
    let rest: usize = buffer.len() - i;
    let b0: u8 = buffer[i];
    let ghost s = tail(buffer@, i as int);
    assert(s.len() == rest && s[0] == b0);
    if b0 <= 0x7F {
        assert(b0 & 0x7F <= 0x7F) by (bit_vector);
        1
    } else if 0xC0 <= b0 && b0 <= 0xDF {
        if rest < 2 {
            return 0;
        }
        let b1: u8 = buffer[i + 1];
        assert(s[1] == b1);
        if !is_continuation(b1) {
            return 0;
        }
        let point: u32 = (((b0 & 0x1F) as u32) << 6) | ((b1 & 0x3F) as u32);
        assert((((b0 & 0x1F) as u32) << 6) | ((b1 & 0x3F) as u32) < 0x800) by (bit_vector);
        if 0x80 <= point {
            2
        } else {
            0
        }
    } else if 0xE0 <= b0 && b0 <= 0xEF {
        if rest < 3 {
            return 0;
        }
        let b1: u8 = buffer[i + 1];
        let b2: u8 = buffer[i + 2];
        assert(s[1] == b1 && s[2] == b2);
        if !is_continuation(b1) || !is_continuation(b2) {
            return 0;
        }
        let point: u32 = (((b0 & 0x0F) as u32) << 12) | (((b1 & 0x3F) as u32) << 6) | ((b2
            & 0x3F) as u32);
        if 0x800 <= point && !(0xD800 <= point && point <= 0xDFFF) {
            3
        } else {
            0
        }
    } else if 0xF0 <= b0 && b0 <= 0xF7 {
        if rest < 4 {
            return 0;
        }
        let b1: u8 = buffer[i + 1];
        let b2: u8 = buffer[i + 2];
        let b3: u8 = buffer[i + 3];
        assert(s[1] == b1 && s[2] == b2 && s[3] == b3);
        if !is_continuation(b1) || !is_continuation(b2) || !is_continuation(b3) {
            return 0;
        }
        let point: u32 = (((b0 & 0x07) as u32) << 18) | (((b1 & 0x3F) as u32) << 12) | (((b2
            & 0x3F) as u32) << 6) | ((b3 & 0x3F) as u32);
        if 0x10000 <= point && point <= 0x10FFFF {
            4
        } else {
            0
        }
    } else {
        0
    }
}

/// Counts the characters of `buffer`, which must be valid UTF-8 for the
/// count to exist.
pub fn count_chars(buffer: &[u8]) -> (r: Result<usize, WcError>)
    ensures
        match r {
            Ok(n) => valid_utf8(buffer@) && n == char_count(buffer@) && n <= buffer@.len(),
            Err(e) => !valid_utf8(buffer@) && e == WcError::Encoding,
        },
{
    let len: usize = buffer.len();
    let mut chars: usize = 0;
    let mut i: usize = 0;
    assert(tail(buffer@, 0) =~= buffer@);
    while i < len
        invariant
            len == buffer@.len(),
            i <= len,
            chars <= i,
            valid_utf8(buffer@) <==> valid_utf8(tail(buffer@, i as int)),
            valid_utf8(buffer@) ==> decode_utf8(buffer@).len() == chars + decode_utf8(
                tail(buffer@, i as int),
            ).len(),
        decreases len - i,
    {
        let width: usize = scalar_width(buffer, i);
        if width == 0 {
            return Err(WcError::Encoding);
        }
        proof {
            let s = tail(buffer@, i as int);
            assert(pop_first_scalar(s) =~= tail(buffer@, i + width));
        }
        chars += 1;
        i += width;
    }
    Ok(chars)
}

/// A valid buffer has no more characters than bytes: each character
/// takes at least one byte.
pub proof fn law_chars_at_most_bytes(buffer: Seq<u8>)
    requires
        valid_utf8(buffer),
    ensures
        char_count(buffer) <= byte_count(buffer),
    decreases buffer.len(),
{
    if buffer.len() > 0 {
        law_chars_at_most_bytes(pop_first_scalar(buffer));
    }
}

} // verus!
