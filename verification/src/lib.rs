//! A parser and canonical formatter for a line- and tag-oriented game trader
//! configuration format.
//!
//! The input text is parsed into a tree of tokens (comments, currency tables,
//! traders, file markers) and rendered back in a canonical layout: fixed
//! indentation, column-aligned currency rows, comments preserved verbatim.
//!
//! The whole pipeline is a pure function of the input text: `process_file`
//! parses, the render methods print. The grammar itself is stated once, as
//! spec functions in `grammar` and `render`, and the executable code is
//! proved to follow it exactly.

pub mod ast;
pub mod grammar;
pub mod parser;
pub mod render;
pub mod laws;
