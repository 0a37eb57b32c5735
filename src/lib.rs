//! Reformats a pipe-delimited Markdown table: every column is padded to one
//! width and the separator row is regenerated from the column alignments.

pub mod text;
pub mod table;
pub mod laws;
pub mod reparse;
