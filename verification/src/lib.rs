//! A small grep-style search library.
//!
//! The heart of the crate is the match extractor in [`matcher`]: it locates
//! every non-overlapping occurrence of a query inside a subject byte string
//! and renders a padded context window (with ellipsis markers where the
//! context was truncated) around each one.  [`cli`] parses the command-line
//! flags and query, and [`walk`] models the directory work-list and the
//! entry-filtering decisions; the actual I/O lives outside the library.

pub mod cli;
pub mod matcher;
pub mod walk;
