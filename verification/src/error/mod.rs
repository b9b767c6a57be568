//! What can go wrong while lexing, parsing and evaluating.

pub mod error;
pub mod eval_error;
pub mod lexing_error;
pub mod names;

pub use error::{Error, ErrorModel, ErrorType};
pub use eval_error::{Arity, EvalError, EvalErrorModel, NameKind};
pub use lexing_error::{LexingError, LexingErrorModel};
