//! Lexical and positional analysis of OpenFOAM-style dictionary text: a
//! lexer with exact byte spans, a line/column index, keyword documentation
//! for hovers, structural checks of fixed-shape constructs, and unit hints.

pub mod token;
pub mod lexer;
pub mod position;
pub mod catalog;
pub mod validate;
pub mod analyzer;
