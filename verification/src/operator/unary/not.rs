//! `!`: logical not.

use crate::error::Error;
use crate::operator::operator::UnaryOp;
use crate::operator::semantics::{outcome_of, unary_outcome};
use crate::value::{Value, ValueType};
use vstd::prelude::*;

verus! {

/// Converts the value to Boolean and negates it.
pub fn apply(value: &Value) -> (out: Result<(Value, bool), Error>)
    ensures
        outcome_of(out) == unary_outcome(UnaryOp::Not, *value),
        out is Ok,
{
    match value.promote(ValueType::Boolean) {
        Some(Value::Boolean(v)) => Ok((Value::Boolean(!v), false)),
        _ => Err(Error::UnexpectedError),
    }
}

} // verus!
