//! Streaming indentation for text that is written piece by piece.
//!
//! An [`Indented`] writer sits between a producer of text and a sink that
//! accepts text. It passes on what it is given and puts a prefix in front of
//! every line: a fixed marker, a number on the first line with spaces of the
//! same width on the lines that follow, or whatever an [`Inserter`] of the
//! caller writes. Nothing is buffered, and a chunk may end anywhere, also in
//! the middle of a line.
//!
//! Blank text in front of the first line is dropped, so that the first
//! prefix stands directly in front of text.
//!
//! ```text
//! let mut out = String::new();
//! indented(&mut out).ind(2).write_str("verify\nthis")?;
//! assert_eq!(out, "   2: verify\n      this");
//! ```
//!
//! What a writer does is stated over sequences of characters:
//!
//! - [`text`] says what a chunk adds to the sink, given the prefixes;
//! - [`format`] says what the prefixes are, and writes them;
//! - [`sink`] says what a sink is;
//! - [`indented`](mod@indented) holds the writer, which takes a chunk piece
//!   by piece as [`pieces`] describes;
//! - [`laws`] states what follows for every text and every way to cut it.

pub mod format;
pub mod indented;
pub mod laws;
pub mod pieces;
pub mod sink;
pub mod text;

pub use format::{Format, Inserter, InserterMut};
pub use indented::{indented, Indented};
pub use sink::{Error, Write};
