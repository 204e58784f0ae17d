//! Counting lines, words, characters and bytes of a text buffer, and summing
//! the integers in it.
//!
//! - [`text`] says what each count means, over the sequence of Unicode scalar
//!   values of the buffer, and proves what holds of the counts in general.
//! - [`engine`] computes the counts.
//! - [`integer`] and [`sum`] add up the words that write an integer, without a
//!   limit on their size.
//! - [`input`] turns raw bytes into the buffer and classifies failed reads.
//! - [`mode`] picks the one mode of an invocation from its switches.
//! - [`report`] writes the line that reports a result.
//! - [`invocation`] puts these together: from the input that was read, or the
//!   failure to read it, to what is printed, announced and returned.

pub mod text;
pub mod engine;
pub mod input;
pub mod integer;
pub mod invocation;
pub mod mode;
pub mod report;
pub mod strings;
pub mod sum;

pub use engine::{count_bytes, count_chars, count_lines, count_words};
pub use input::{
    announcement, check_path, classify_read_failure, decode, message, InputError, ReadFailure,
    Severity,
};
pub use integer::Integer;
pub use invocation::{conclude, Outcome, StartupError, EXIT_OK, EXIT_STARTUP_FAILURE};
pub use mode::{select_mode, Flags, Mode};
pub use report::{count_all, format_counts, report, Counts};
pub use sum::sum;
pub use text::is_whitespace;
