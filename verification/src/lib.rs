//! Timestamped memo entries appended under a chosen heading of a daily
//! Markdown note.
//!
//! The crate is the verified core of a small command-line recorder. It reads a
//! note as lines, finds where the target section ends, and builds the text of
//! the note with one entry line inserted there; everything else of the note is
//! kept. Reading and writing files is left to the caller.
//!
//! - [`text`], [`lines`], [`replace`]: texts as sequences of characters.
//! - [`markdown`]: headings, sections, and the insertion of a line.
//! - [`entry`], [`clock`]: the templates and the local date and time.
//! - [`config`], [`writer`], [`session`], [`error`]: the recorder itself.

pub mod clock;
pub mod config;
pub mod entry;
pub mod error;
pub mod lines;
pub mod markdown;
pub mod replace;
pub mod session;
pub mod text;
pub mod writer;
