//! `==`: equality.

use crate::error::Error;
use crate::float::{float_within_epsilon, FloatOp};
use crate::operator::operator::{BinaryOp, Operator};
use crate::operator::semantics::{
    binary_outcome, cell, computes_floats, outcome_of, unify_pair, unsupported,
};
use crate::value::Value;
use vstd::prelude::*;

verus! {

/// Whether two booleans or two integers are equal, or two floats differ by less than `2^-52`.
///
/// `a` and `b` are the operands, brought to one type. An error names
/// `reported` as the operator and `l`, `r` as the operands.
pub fn combine<U: Fn(FloatOp, u64, u64) -> u64>(
    a: &Value,
    b: &Value,
    reported: Operator,
    l: &Value,
    r: &Value,
    unit: &U,
) -> (out: Result<(Value, bool), Error>)
    requires
        forall|op: FloatOp, x: u64, y: u64| call_requires(unit, (op, x, y)),
    ensures
        forall|fl: spec_fn(FloatOp, u64, u64) -> u64| #[trigger]
            computes_floats(unit, fl) ==> outcome_of(out) == cell(
                BinaryOp::Equal,
                *a,
                *b,
                reported,
                *l,
                *r,
                fl,
            ),
        !(a is Float && b is Float) ==> forall|fl: spec_fn(FloatOp, u64, u64) -> u64|
            outcome_of(out) == #[trigger] cell(BinaryOp::Equal, *a, *b, reported, *l, *r, fl),
{
    match (*a, *b) {
        (Value::Boolean(x), Value::Boolean(y)) => Ok((Value::Boolean(x == y), false)),
        (Value::Int(x), Value::Int(y)) => Ok((Value::Boolean(x == y), false)),
        (Value::Float(x), Value::Float(y)) => {
            let difference = unit(FloatOp::Sub, x, y);
            Ok((Value::Boolean(float_within_epsilon(difference)), false))
        },
        _ => Err(unsupported(reported, l, r)),
    }
}

/// `left == right`.
pub fn apply<U: Fn(FloatOp, u64, u64) -> u64>(left: &Value, right: &Value, unit: &U) -> (out: Result<
    (Value, bool),
    Error,
>)
    requires
        forall|op: FloatOp, x: u64, y: u64| call_requires(unit, (op, x, y)),
    ensures
        forall|fl: spec_fn(FloatOp, u64, u64) -> u64| #[trigger]
            computes_floats(unit, fl) ==> outcome_of(out) == binary_outcome(
                BinaryOp::Equal,
                *left,
                *right,
                fl,
            ),
        !(left is Float || right is Float) ==> forall|fl: spec_fn(FloatOp, u64, u64) -> u64|
            outcome_of(out) == #[trigger] binary_outcome(BinaryOp::Equal, *left, *right, fl),
{
    let (a, b) = unify_pair(left, right);
    combine(&a, &b, Operator::Binary(BinaryOp::Equal), left, right, unit)
}

} // verus!
