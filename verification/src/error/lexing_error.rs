//! Failures of the lexer.

use crate::text::{decimal_text, push_decimal};
use vstd::prelude::*;

verus! {

/// What can go wrong in lexing.
#[derive(Debug, Clone, PartialEq, Eq)]
pub enum LexingError {
    /// No token can start at byte `index` of `src`.
    InvalidToken { src: String, index: usize },
}

/// A lexing error with its text as a sequence of characters.
pub enum LexingErrorModel {
    InvalidToken { src: Seq<char>, index: usize },
}

impl View for LexingError {
    type V = LexingErrorModel;

    open spec fn view(&self) -> LexingErrorModel {
        match self {
            LexingError::InvalidToken { src, index } => LexingErrorModel::InvalidToken {
                src: src@,
                index: *index,
            },
        }
    }
}

/// The message for a lexing error.
pub open spec fn message_text(err: LexingErrorModel) -> Seq<char> {
    match err {
        LexingErrorModel::InvalidToken { src, index } => "Invalid token at position "@
            + decimal_text(index as nat),
    }
}

/// A one-line message that names the byte position of the error.
pub fn error_to_string(err: LexingError) -> (r: String)
    ensures
        r@ == message_text(err@),
{
    match err {
        LexingError::InvalidToken { src: _, index } => {
            let mut s = String::new();
            s.append("Invalid token at position ");
            push_decimal(&mut s, index as u64);
            assert(s@ =~= "Invalid token at position "@ + decimal_text(index as nat));
            s
        },
    }
}

} // verus!
