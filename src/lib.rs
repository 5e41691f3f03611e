//! A `tree`-style directory listing: decide which entries of a directory
//! tree are shown, then render them as an indented diagram.

pub mod display;
pub mod entry;
pub mod glob_pattern;
pub mod order;
pub mod resolve;
pub mod root;
mod text;
pub mod traversal;
pub mod utils;
