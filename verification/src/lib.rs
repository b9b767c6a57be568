//! An embeddable expression language: a lexer, a precedence-climbing parser and a
//! tree-walking evaluator over booleans, 64-bit integers and 64-bit floats.
//!
//! A text goes through [`lexer::lex_string`] to tokens, through
//! [`parser::parse_tokens`] to a syntax tree, and through
//! [`evaluater::evaluate_expr`] to a value, with variables, macros and
//! functions held in [`table::Table`]s. The functions are the built-in ones
//! and those that the embedding program registers and computes itself.
//! [`debug::expr_to_text`] writes a tree back as text.
//!
//! Floats are carried as IEEE-754 binary64 bit patterns. What can be decided on
//! the bits (sign, zero, finiteness, ordering, conversion to and from integers)
//! is done here, in [`float`]. The operations that round, and the conversion
//! between floats and decimal text, are performed by functions that the
//! embedding program hands in; every contract that depends on them holds for
//! whatever these functions compute, and says what is returned without them
//! where no float is met.
//!
//! The modules [`laws`], [`span_laws`], [`round_trip`], [`placement`],
//! [`reading`] and [`floatless`] hold what is proved of the language as a
//! whole. [`shell`] reads the commands of
//! an interactive shell, [`listing`] lists variables and macros, and
//! [`report`] places an error in its source text.

pub mod debug;
pub mod error;
pub mod evaluater;
pub mod float;
pub mod floatless;
pub mod functions;
pub mod laws;
pub mod lexer;
pub mod listing;
pub mod operator;
pub mod parser;
pub mod placement;
pub mod reading;
pub mod report;
pub mod round_trip;
pub mod shell;
pub mod span;
pub mod span_laws;
pub mod table;
pub mod text;
pub mod token;
pub mod value;
