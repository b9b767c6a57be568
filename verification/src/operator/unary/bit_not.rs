//! `~`: bitwise complement.

use crate::error::{Error, EvalError};
use crate::operator::operator::{Operator, UnaryOp};
use crate::operator::semantics::{outcome_of, unary_outcome};
use crate::value::Value;
use vstd::prelude::*;

verus! {

/// Complements a boolean, or every bit of an integer, which gives `-1 - a`.
/// A float has no complement.
pub fn apply(value: &Value) -> (out: Result<(Value, bool), Error>)
    ensures
        outcome_of(out) == unary_outcome(UnaryOp::BitwiseNot, *value),
{
    match *value {
        Value::Boolean(a) => Ok((Value::Boolean(!a), false)),
        Value::Int(a) => Ok((Value::Int(-1 - a), false)),
        Value::Float(_) => {
            let mut operand_types = Vec::new();
            operand_types.push(value.value_type());
            assert(operand_types@ =~= seq![value.type_of()]);
            Err(
                Error::EvalError(
                    EvalError::OpNotSupported {
                        op: Operator::Unary(UnaryOp::BitwiseNot),
                        operand_types,
                    },
                ),
            )
        },
    }
}

} // verus!
