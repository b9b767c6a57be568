//! `&&`: logical and.

use crate::error::Error;
use crate::float::{FloatOp};
use crate::operator::operator::{BinaryOp, Operator};
use crate::operator::semantics::{binary_outcome, cell, outcome_of, unsupported};
use crate::value::{Value, ValueType};
use vstd::prelude::*;

verus! {

/// The conjunction of two booleans.
///
/// `a` and `b` are the operands, brought to one type. An error names
/// `reported` as the operator and `l`, `r` as the operands.
pub fn combine(a: &Value, b: &Value, reported: Operator, l: &Value, r: &Value) -> (out: Result<
    (Value, bool),
    Error,
>)
    ensures
        forall|fl: spec_fn(FloatOp, u64, u64) -> u64|
            outcome_of(out) == #[trigger] cell(BinaryOp::And, *a, *b, reported, *l, *r, fl),
{
    match (*a, *b) {
        (Value::Boolean(x), Value::Boolean(y)) => Ok((Value::Boolean(x && y), false)),
        _ => Err(unsupported(reported, l, r)),
    }
}

/// `left && right`, both converted to Boolean.
pub fn apply(left: &Value, right: &Value) -> (out: Result<(Value, bool), Error>)
    ensures
        forall|fl: spec_fn(FloatOp, u64, u64) -> u64|
            outcome_of(out) == #[trigger] binary_outcome(BinaryOp::And, *left, *right, fl),
{
    let a = match left.promote(ValueType::Boolean) {
        Some(a) => a,
        None => *left,
    };
    let b = match right.promote(ValueType::Boolean) {
        Some(b) => b,
        None => *right,
    };
    combine(&a, &b, Operator::Binary(BinaryOp::And), left, right)
}

} // verus!
