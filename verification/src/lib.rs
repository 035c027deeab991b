//! Counting lines, words, characters and bytes of a byte buffer, and the
//! command-line rules that select what is counted and how it is printed.

pub mod args;
pub mod chars;
pub mod counters;
pub mod error;
pub mod report;

pub use args::{determine_file_and_flag, parse_flag, resolve, Flag, Invocation, Source};
pub use chars::count_chars;
pub use counters::{count_bytes, count_lines, count_words};
pub use error::WcError;
pub use report::{handle_file_contents, measure, no_flag, render, report, CountResult};
