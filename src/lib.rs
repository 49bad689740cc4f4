//! A scanner for a small C-like scripting language: source text in, classified tokens out.
pub mod lexer;
