//! Terminal text annotation: mark byte ranges of a string with foreground
//! colors and underline decorations, then render the string as ANSI
//! escape-coded output.

pub mod color;
pub mod ranges;
pub mod text;
pub mod render;
pub mod pattern;
pub mod engine;
pub mod laws;
