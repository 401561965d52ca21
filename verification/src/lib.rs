//! A layout-sensitive expression parser: source text in, syntax tree out.
//!
//! The grammar follows the offside rule: the column at which a binding starts
//! decides where its continuation lines, its body and its branches may begin.
//! Every rule is a total function of the input text and an index in it. Its
//! mathematical definition lives in [`grammar`], [`layout`], [`ident`],
//! [`number`] and [`text`]; the executable parsers, gathered in [`parse`],
//! are proved to compute exactly those definitions, and [`laws`] holds what
//! is proved of the definitions themselves.
//!
//! [`expr`] holds the syntax tree, [`error`] the failures, [`parse_state`]
//! the positions, [`chars`] the character classes, and [`repl`] what an
//! interactive session needs around the parser.

pub mod chars;
pub mod error;
pub mod expr;
pub mod grammar;
pub mod ident;
pub mod laws;
pub mod layout;
pub mod number;
pub mod parse;
pub mod parse_state;
pub mod repl;
pub mod text;
