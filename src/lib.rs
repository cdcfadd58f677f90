//! A lexical scanner for a small C-like scripting language: it turns source
//! text into an ordered sequence of classified tokens.
pub mod chars;
pub mod laws;
pub mod model;
pub mod scanner;
pub mod token;
