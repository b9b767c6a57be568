//! `&`: bitwise and.

use crate::error::Error;
use crate::float::{FloatOp};
use crate::operator::operator::{BinaryOp, Operator};
use crate::operator::semantics::{binary_outcome, cell, outcome_of, unify_pair, unsupported};
use crate::value::Value;
use vstd::prelude::*;

verus! {

/// The bitwise and of two integers, or of two booleans as the integers 0 and 1.
///
/// `a` and `b` are the operands, brought to one type. An error names
/// `reported` as the operator and `l`, `r` as the operands.
pub fn combine(a: &Value, b: &Value, reported: Operator, l: &Value, r: &Value) -> (out: Result<
    (Value, bool),
    Error,
>)
    ensures
        forall|fl: spec_fn(FloatOp, u64, u64) -> u64|
            outcome_of(out) == #[trigger] cell(BinaryOp::BitwiseAnd, *a, *b, reported, *l, *r, fl),
{
    match (*a, *b) {
        (Value::Boolean(x), Value::Boolean(y)) => {
            let v: i64 = if x && y {
                1
            } else {
                0
            };
            Ok((Value::Int(v), false))
        },
        (Value::Int(x), Value::Int(y)) => Ok((Value::Int(x & y), false)),
        _ => Err(unsupported(reported, l, r)),
    }
}

/// `left & right`. Floats have no bitwise and.
pub fn apply(left: &Value, right: &Value) -> (out: Result<(Value, bool), Error>)
    ensures
        forall|fl: spec_fn(FloatOp, u64, u64) -> u64|
            outcome_of(out) == #[trigger] binary_outcome(BinaryOp::BitwiseAnd, *left, *right, fl),
{
    let (a, b) = unify_pair(left, right);
    combine(&a, &b, Operator::Binary(BinaryOp::BitwiseAnd), left, right)
}

} // verus!
