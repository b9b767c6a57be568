//! Operators of the language and what each of them computes.

pub mod binary;
pub mod integer;
pub mod operator;
pub mod semantics;
pub mod unary;

pub use operator::{BinaryOp, GroupingOp, Operator, TernaryOp, UnaryOp};
