//! Filters the output of line-oriented lint tools down to the lines whose
//! `path:line` location falls inside a hunk changed since a reference commit.
pub mod hunk_map;
pub mod location;
pub mod pipeline;
pub mod ranges;
