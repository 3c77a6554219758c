//! A number-base conversion library.
//!
//! Converts an unsigned 128-bit integer to its textual representation in any
//! radix from 2 to 32, parses numerals back, inserts grouping separators into
//! digit strings, and drives a whole conversion request from parsed options
//! to the lines to print.

pub mod convert;
pub mod process;
pub mod separator;
