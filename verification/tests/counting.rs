//! The four counters on small inputs, at their edges, and against the
//! standard library on valid text.

use wordcount::{count_bytes, count_chars, count_lines, count_words, WcError};

#[test]
fn empty_buffer_counts_zero_everywhere() {
    assert_eq!(count_bytes(b""), 0);
    assert_eq!(count_lines(b""), 0);
    assert_eq!(count_words(b""), 0);
    assert_eq!(count_chars(b""), Ok(0));
}

#[test]
fn bytes_are_counted_raw() {
    assert_eq!(count_bytes(b"abc"), 3);
    assert_eq!(count_bytes("\u{e9}".as_bytes()), 2);
    assert_eq!(count_bytes(&[0xFF, 0x00, 0x80]), 3);
}

#[test]
fn bytes_never_fewer_than_chars() {
    let texts = ["", "plain", "\u{e9}t\u{e9}", "\u{d55c}\u{ae00}", "\u{1F600} ok", "a\nb\n"];
    for text in texts {
        let bytes = count_bytes(text.as_bytes());
        let chars = count_chars(text.as_bytes()).unwrap();
        assert!(bytes >= chars);
        assert_eq!(chars, text.chars().count());
    }
}

#[test]
fn lines_with_and_without_trailing_terminator() {
    assert_eq!(count_lines(b"one\ntwo\nthree\n"), 3);
    assert_eq!(count_lines(b"one\ntwo\nthree"), 3);
    assert_eq!(count_lines(b"one\r\ntwo\r\n"), 2);
    assert_eq!(count_lines(b"one\r\ntwo"), 2);
    assert_eq!(count_lines(b"one"), 1);
    assert_eq!(count_lines(b"\n"), 1);
}

#[test]
fn empty_lines_are_lines() {
    assert_eq!(count_lines(b"\n\n\n"), 3);
    assert_eq!(count_lines(b"a\n\nb"), 3);
    assert_eq!(count_lines(b"\n\na"), 3);
}

#[test]
fn carriage_return_alone_ends_no_line() {
    assert_eq!(count_lines(b"a\rb"), 1);
    assert_eq!(count_lines(b"a\r"), 1);
    assert_eq!(count_lines(b"\r"), 1);
}

#[test]
fn lines_agree_with_std_on_text() {
    let texts = ["", "a", "a\n", "a\nb", "\n", "\n\n", "a\r\nb\r\n", "a\rb\n", " \n \n ", "x\n\n\ny"];
    for text in texts {
        assert_eq!(count_lines(text.as_bytes()), text.lines().count(), "{:?}", text);
    }
}

#[test]
fn lines_of_binary_content() {
    assert_eq!(count_lines(&[0xFF, 0x0A, 0xFE]), 2);
    assert_eq!(count_lines(&[0xFF, 0xFE, 0x0A]), 1);
}

#[test]
fn words_are_runs_between_whitespace() {
    assert_eq!(count_words(b"a b c\n"), 3);
    assert_eq!(count_words(b"one"), 1);
    assert_eq!(count_words(b"one two"), 2);
    assert_eq!(count_words(b"tab\tseparated\twords"), 3);
    assert_eq!(count_words(b"line\nbreaks\r\ncount"), 3);
}

#[test]
fn whitespace_only_has_no_words() {
    assert_eq!(count_words(b" "), 0);
    assert_eq!(count_words(b" \t\n\r\x0B\x0C "), 0);
}

#[test]
fn leading_and_trailing_whitespace_add_no_words() {
    assert_eq!(count_words(b"  lead"), 1);
    assert_eq!(count_words(b"trail  "), 1);
    assert_eq!(count_words(b" \t both \n"), 1);
}

#[test]
fn each_whitespace_byte_separates() {
    for separator in [0x20u8, 0x09, 0x0A, 0x0B, 0x0C, 0x0D] {
        assert_eq!(count_words(&[b'a', separator, b'b']), 2, "{:#x}", separator);
    }
}

#[test]
fn other_control_bytes_do_not_separate() {
    for byte in [0x00u8, 0x08, 0x0E, 0x1F, 0x21, 0x7F, 0x80, 0xA0, 0xFF] {
        assert_eq!(count_words(&[b'a', byte, b'b']), 1, "{:#x}", byte);
    }
}

#[test]
fn more_whitespace_between_words_changes_nothing() {
    assert_eq!(count_words(b"a b c"), 3);
    assert_eq!(count_words(b"a  b  c"), 3);
    assert_eq!(count_words(b"a \t b\t\t \tc"), 3);
    assert_eq!(count_words(b"  a b c  "), 3);
}

#[test]
fn doubling_each_whitespace_byte_keeps_the_words() {
    let texts: [&[u8]; 5] = [b"a b", b" a\tb\nc ", b"\n\n", b"word", b"x \r\n y"];
    for text in texts {
        let mut doubled: Vec<u8> = Vec::new();
        for &byte in text {
            doubled.push(byte);
            if byte == b' ' || (0x09..=0x0D).contains(&byte) {
                doubled.push(byte);
            }
        }
        assert_eq!(count_words(&doubled), count_words(text));
    }
}

#[test]
fn whitespace_inside_a_word_splits_it() {
    assert_eq!(count_words(b"ab"), 1);
    assert_eq!(count_words(b"a b"), 2);
}

#[test]
fn words_agree_with_std_on_ascii_text() {
    let texts = ["", " ", "a", " a", "a ", "a b", "a\tb\nc\rd", "  x  y  ", "\x0Bv\x0Cf", "one,two three"];
    for text in texts {
        assert_eq!(count_words(text.as_bytes()), text.split_whitespace().count(), "{:?}", text);
    }
}

#[test]
fn words_of_binary_content() {
    assert_eq!(count_words(&[0xFF, 0xFE, 0x20, 0x80]), 2);
    assert_eq!(count_words(&[0x00]), 1);
}

#[test]
fn chars_of_each_encoded_width() {
    assert_eq!(count_chars("a".as_bytes()), Ok(1));
    assert_eq!(count_chars("\u{e9}".as_bytes()), Ok(1));
    assert_eq!(count_chars("\u{d55c}".as_bytes()), Ok(1));
    assert_eq!(count_chars("\u{1F600}".as_bytes()), Ok(1));
    assert_eq!(count_chars("a\u{e9}\u{d55c}\u{1F600}".as_bytes()), Ok(4));
}

#[test]
fn chars_at_the_ends_of_each_range() {
    for point in [0x00u32, 0x7F, 0x80, 0x7FF, 0x800, 0xD7FF, 0xE000, 0xFFFF, 0x10000, 0x10FFFF] {
        let text = char::from_u32(point).unwrap().to_string();
        assert_eq!(count_chars(text.as_bytes()), Ok(1), "{:#x}", point);
    }
}

#[test]
fn two_byte_character_five_times() {
    let text = "\u{e9}\u{e9}\u{e9}\u{e9}\u{e9}";
    assert_eq!(count_bytes(text.as_bytes()), 10);
    assert_eq!(count_chars(text.as_bytes()), Ok(5));
}

#[test]
fn stray_continuation_byte_is_an_encoding_error() {
    assert_eq!(count_chars(&[0x80]), Err(WcError::Encoding));
    assert_eq!(count_chars(&[b'a', 0xBF, b'b']), Err(WcError::Encoding));
}

#[test]
fn truncated_character_is_an_encoding_error() {
    assert_eq!(count_chars(&[0xC3]), Err(WcError::Encoding));
    assert_eq!(count_chars(&[0xE2, 0x82]), Err(WcError::Encoding));
    assert_eq!(count_chars(&[0xF0, 0x9F, 0x98]), Err(WcError::Encoding));
    assert_eq!(count_chars(&[b'o', b'k', 0xC3]), Err(WcError::Encoding));
}

#[test]
fn overlong_encoding_is_an_encoding_error() {
    assert_eq!(count_chars(&[0xC0, 0x80]), Err(WcError::Encoding));
    assert_eq!(count_chars(&[0xC1, 0xBF]), Err(WcError::Encoding));
    assert_eq!(count_chars(&[0xE0, 0x9F, 0xBF]), Err(WcError::Encoding));
    assert_eq!(count_chars(&[0xF0, 0x8F, 0xBF, 0xBF]), Err(WcError::Encoding));
}

#[test]
fn surrogate_is_an_encoding_error() {
    assert_eq!(count_chars(&[0xED, 0xA0, 0x80]), Err(WcError::Encoding));
    assert_eq!(count_chars(&[0xED, 0xBF, 0xBF]), Err(WcError::Encoding));
    assert_eq!(count_chars(&[0xED, 0x9F, 0xBF]), Ok(1));
}

#[test]
fn beyond_the_last_code_point_is_an_encoding_error() {
    assert_eq!(count_chars(&[0xF4, 0x8F, 0xBF, 0xBF]), Ok(1));
    assert_eq!(count_chars(&[0xF4, 0x90, 0x80, 0x80]), Err(WcError::Encoding));
    assert_eq!(count_chars(&[0xF5, 0x80, 0x80, 0x80]), Err(WcError::Encoding));
    assert_eq!(count_chars(&[0xF8, 0x88, 0x80, 0x80, 0x80]), Err(WcError::Encoding));
    assert_eq!(count_chars(&[0xFF]), Err(WcError::Encoding));
}

#[test]
fn invalid_text_still_has_bytes_lines_and_words() {
    let content: [u8; 6] = [0xFF, b' ', 0xC3, b'\n', 0x80, b'x'];
    assert_eq!(count_chars(&content), Err(WcError::Encoding));
    assert_eq!(count_bytes(&content), 6);
    assert_eq!(count_lines(&content), 2);
    assert_eq!(count_words(&content), 3);
}

fn agrees_with_std(content: &[u8]) {
    match std::str::from_utf8(content) {
        Ok(text) => assert_eq!(count_chars(content), Ok(text.chars().count()), "{:x?}", content),
        Err(_) => assert_eq!(count_chars(content), Err(WcError::Encoding), "{:x?}", content),
    }
}

#[test]
fn chars_agree_with_std_on_all_short_sequences() {
    for first in 0..=255u8 {
        agrees_with_std(&[first]);
        for second in 0..=255u8 {
            agrees_with_std(&[first, second]);
        }
    }
}

#[test]
fn chars_agree_with_std_on_three_byte_sequences() {
    let interesting: [u8; 14] =
        [0x00, 0x7F, 0x80, 0x8F, 0x90, 0x9F, 0xA0, 0xBF, 0xC0, 0xC2, 0xDF, 0xE0, 0xF4, 0xFF];
    for first in 0xE0..=0xEFu8 {
        for second in 0..=255u8 {
            for third in interesting {
                agrees_with_std(&[first, second, third]);
            }
        }
    }
}

#[test]
fn chars_agree_with_std_on_four_byte_sequences() {
    let interesting: [u8; 8] = [0x00, 0x7F, 0x80, 0x8F, 0x90, 0xBF, 0xC0, 0xFF];
    for first in 0xF0..=0xFFu8 {
        for second in 0..=255u8 {
            for third in interesting {
                for fourth in interesting {
                    agrees_with_std(&[first, second, third, fourth]);
                    agrees_with_std(&[b'a', first, second, third, fourth, b'z']);
                }
            }
        }
    }
}
