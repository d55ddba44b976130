//! Autocompletion engine for a line of unique, space-separated tags.
//!
//! The engine owns a fixed catalog of tag strings. On every change of the
//! input line it recomputes which catalog entries are still worth offering:
//! tags already present as whitespace-delimited tokens of the input are
//! excluded, and while the user is in the middle of a word only tags that
//! contain that word as a substring are offered. Accepting a suggestion
//! produces a full replacement line that always ends in a single space, so
//! the next tag can be typed immediately.

pub mod completer;
pub mod laws;
pub mod text;
