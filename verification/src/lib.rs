//! A line, word, character and byte counting library.
//!
//! The counting engine scans a source line by line: every line contributes
//! one to the line count and one extra character for its terminating newline,
//! and a word begins at each non-space character that follows the start of a
//! line or a space. Byte counts are the raw UTF-8 byte length of the content,
//! so they diverge from character counts exactly when the content holds a
//! character outside the ASCII range.

pub mod bytes;
pub mod counts;
pub mod lines;
pub mod report;
pub mod scan;
pub mod source;
