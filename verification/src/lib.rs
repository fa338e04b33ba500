//! Reading account numbers that a scanner printed as seven-segment glyphs.
//!
//! An entry is four lines of text: three rows of glyphs, nine cells of three
//! columns each, and a line that closes the entry.
//!
//! - [`segment`]: the strokes of a cell, and the digit that a pattern of
//!   strokes draws.
//! - [`parse`]: the [`Parser`], which assembles the rows of an entry line by
//!   line and recovers from a line at fault with the next entry.
//! - [`checksum`]: the checksum of a number, and the valid numbers one
//!   stroke away from a number.
//! - [`process`]: the [`Processor`], which joins the two into one [`Result`]
//!   for each entry.
//! - [`report`]: a line of text for each result.
//! - [`glyph`]: drawing, and the proof that what is drawn is read back.
//! - [`text`]: characters and the texts of numbers.
//!
//! Each function states what it returns over plain values: texts as
//! sequences of characters, the parser as its [`parse::ParserState`]. What
//! the library promises beyond single calls is stated in the proof functions
//! at the end of each module.

pub mod checksum;
pub mod glyph;
pub mod parse;
pub mod process;
pub mod report;
pub mod segment;
pub mod text;

pub use checksum::{find_adjacent, is_checksum_valid};
pub use parse::{Error, Parser, Status};
pub use process::{Processor, Result};
pub use report::format_line;
