//! `<=`: less than or equal.

use crate::error::Error;
use crate::float::{float_less_equal, FloatOp};
use crate::operator::operator::{BinaryOp, Operator};
use crate::operator::semantics::{binary_outcome, cell, outcome_of, unify_pair, unsupported};
use crate::value::Value;
use vstd::prelude::*;

verus! {

/// Whether `a` is at most `b`, where `false` is less than `true` and floats compare as IEEE says.
///
/// `a` and `b` are the operands, brought to one type. An error names
/// `reported` as the operator and `l`, `r` as the operands.
pub fn combine(a: &Value, b: &Value, reported: Operator, l: &Value, r: &Value) -> (out: Result<
    (Value, bool),
    Error,
>)
    ensures
        forall|fl: spec_fn(FloatOp, u64, u64) -> u64|
            outcome_of(out) == #[trigger] cell(BinaryOp::LessEqual, *a, *b, reported, *l, *r, fl),
{
    match (*a, *b) {
        (Value::Boolean(x), Value::Boolean(y)) => Ok((Value::Boolean(!x || y), false)),
        (Value::Int(x), Value::Int(y)) => Ok((Value::Boolean(x <= y), false)),
        (Value::Float(x), Value::Float(y)) => Ok((Value::Boolean(float_less_equal(x, y)), false)),
        _ => Err(unsupported(reported, l, r)),
    }
}

/// `left <= right`.
pub fn apply(left: &Value, right: &Value) -> (out: Result<(Value, bool), Error>)
    ensures
        forall|fl: spec_fn(FloatOp, u64, u64) -> u64|
            outcome_of(out) == #[trigger] binary_outcome(BinaryOp::LessEqual, *left, *right, fl),
{
    let (a, b) = unify_pair(left, right);
    combine(&a, &b, Operator::Binary(BinaryOp::LessEqual), left, right)
}

} // verus!
