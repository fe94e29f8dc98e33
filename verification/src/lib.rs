//! Concatenation of text files into one prompt.
//!
//! The library holds the rules of a run, each with its contract: how root
//! paths are taken in (`input`), which switches the walk gets and whether
//! every root exists (`traversal`), which entries pass the filter
//! (`filter`), how content is numbered (`line_numbers`) and rendered in the
//! default, Markdown or tagged format (`format`, `language`), and what
//! follows each thing that the walk brings (`run`). `unescape` proves that
//! entity escaping can be undone. Walking directories, reading files and
//! writing the output are the caller's part.

pub mod text;
pub mod line_numbers;
pub mod language;
pub mod filter;
pub mod format;
pub mod unescape;
pub mod input;
pub mod traversal;
pub mod run;
