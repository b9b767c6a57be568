//! The error type shared by the lexer, the parser and the evaluator.

use crate::error::eval_error::{EvalError, EvalErrorModel};
use crate::error::lexing_error::{LexingError, LexingErrorModel};
use vstd::prelude::*;

verus! {

/// An error of the lexer, of the evaluator, or one that marks a defect.
#[derive(Debug, Clone, PartialEq)]
pub enum Error {
    LexingError(LexingError),
    EvalError(EvalError),
    /// An internal invariant did not hold, or the input has no parse.
    UnexpectedError,
}

/// The kinds of [`Error`].
#[derive(Debug, Clone, Copy, PartialEq, Eq, Structural)]
pub enum ErrorType {
    /// No error.
    NoError,
    LexingError,
    EvalError,
    UnexpectedError,
}

/// An error with its texts as sequences of characters.
pub enum ErrorModel {
    LexingError(LexingErrorModel),
    EvalError(EvalErrorModel),
    UnexpectedError,
}

impl View for Error {
    type V = ErrorModel;

    open spec fn view(&self) -> ErrorModel {
        match self {
            Error::LexingError(e) => ErrorModel::LexingError(e@),
            Error::EvalError(e) => ErrorModel::EvalError(e@),
            Error::UnexpectedError => ErrorModel::UnexpectedError,
        }
    }
}

impl Error {
    /// Which stage the error comes from.
    pub fn error_type(self) -> (r: ErrorType)
        ensures
            r == match self {
                Error::LexingError(_) => ErrorType::LexingError,
                Error::EvalError(_) => ErrorType::EvalError,
                Error::UnexpectedError => ErrorType::UnexpectedError,
            },
    {
        match self {
            Error::LexingError(_) => ErrorType::LexingError,
            Error::EvalError(_) => ErrorType::EvalError,
            Error::UnexpectedError => ErrorType::UnexpectedError,
        }
    }

    /// The lexing error inside, if this is one.
    pub fn as_lexing_error(self) -> (r: Option<LexingError>)
        ensures
            match r {
                Some(e) => self == Error::LexingError(e),
                None => !(self is LexingError),
            },
    {
        match self {
            Error::LexingError(err) => Some(err),
            _ => None,
        }
    }

    /// The evaluation error inside, if this is one.
    pub fn as_eval_error(self) -> (r: Option<EvalError>)
        ensures
            match r {
                Some(e) => self == Error::EvalError(e),
                None => !(self is EvalError),
            },
    {
        match self {
            Error::EvalError(err) => Some(err),
            _ => None,
        }
    }
}

} // verus!
