//! Selects files under a directory by glob patterns and renders them as one
//! Markdown document of fenced code blocks.

pub mod cli;
pub mod collect;
pub mod hint;
pub mod path;
pub mod pattern;
pub mod render;
pub mod sort;
pub mod text;
