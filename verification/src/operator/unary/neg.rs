//! `-`: negation.

use crate::error::{Error, EvalError};
use crate::float::float_negate;
use crate::operator::integer::overflowing_neg;
use crate::operator::operator::{Operator, UnaryOp};
use crate::operator::semantics::{outcome_of, unary_outcome};
use crate::value::Value;
use vstd::prelude::*;

verus! {

/// Negates an integer, wrapping, or a float. A boolean cannot be negated.
pub fn apply(value: &Value) -> (out: Result<(Value, bool), Error>)
    ensures
        outcome_of(out) == unary_outcome(UnaryOp::Negation, *value),
{
    match *value {
        Value::Boolean(_) => {
            let mut operand_types = Vec::new();
            operand_types.push(value.value_type());
            assert(operand_types@ =~= seq![value.type_of()]);
            Err(
                Error::EvalError(
                    EvalError::OpNotSupported {
                        op: Operator::Unary(UnaryOp::Negation),
                        operand_types,
                    },
                ),
            )
        },
        Value::Int(a) => {
            let (v, overflow) = overflowing_neg(a);
            Ok((Value::Int(v), overflow))
        },
        Value::Float(a) => Ok((Value::Float(float_negate(a)), false)),
    }
}

} // verus!
