//! Line highlighter: each capture group of a regular expression is painted
//! in a terminal style, with nested groups layered over their containers.

pub mod highlight;
pub mod laws;
pub mod paint;
pub mod pattern;
pub mod render;
pub mod style;
pub mod text;
