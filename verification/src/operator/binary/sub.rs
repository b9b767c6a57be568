//! `-`: subtraction.

use crate::error::Error;
use crate::float::{float_is_finite, FloatOp};
use crate::operator::operator::{BinaryOp, Operator};
use crate::operator::semantics::{
    binary_outcome, cell, computes_floats, outcome_of, unify_pair, unsupported,
};
use crate::operator::integer::overflowing_sub;
use crate::value::Value;
use vstd::prelude::*;

verus! {

/// Subtracts two integers, wrapping, or two floats.
///
/// `a` and `b` are the operands, brought to one type. An error names
/// `reported` as the operator and `l`, `r` as the operands.
pub fn combine<U: Fn(FloatOp, u64, u64) -> u64>(
    a: &Value,
    b: &Value,
    reported: Operator,
    l: &Value,
    r: &Value,
    unit: &U,
) -> (out: Result<(Value, bool), Error>)
    requires
        forall|op: FloatOp, x: u64, y: u64| call_requires(unit, (op, x, y)),
    ensures
        forall|fl: spec_fn(FloatOp, u64, u64) -> u64| #[trigger]
            computes_floats(unit, fl) ==> outcome_of(out) == cell(
                BinaryOp::Subtraction,
                *a,
                *b,
                reported,
                *l,
                *r,
                fl,
            ),
        !(a is Float && b is Float) ==> forall|fl: spec_fn(FloatOp, u64, u64) -> u64|
            outcome_of(out) == #[trigger] cell(BinaryOp::Subtraction, *a, *b, reported, *l, *r, fl),
{
    match (*a, *b) {
        (Value::Int(x), Value::Int(y)) => {
            let (v, overflow) = overflowing_sub(x, y);
            Ok((Value::Int(v), overflow))
        },
        (Value::Float(x), Value::Float(y)) => {
            let v = unit(FloatOp::Sub, x, y);
            Ok((Value::Float(v), !float_is_finite(v)))
        },
        _ => Err(unsupported(reported, l, r)),
    }
}

/// `left - right`. Booleans cannot be subtracted.
pub fn apply<U: Fn(FloatOp, u64, u64) -> u64>(left: &Value, right: &Value, unit: &U) -> (out: Result<
    (Value, bool),
    Error,
>)
    requires
        forall|op: FloatOp, x: u64, y: u64| call_requires(unit, (op, x, y)),
    ensures
        forall|fl: spec_fn(FloatOp, u64, u64) -> u64| #[trigger]
            computes_floats(unit, fl) ==> outcome_of(out) == binary_outcome(
                BinaryOp::Subtraction,
                *left,
                *right,
                fl,
            ),
        !(left is Float || right is Float) ==> forall|fl: spec_fn(FloatOp, u64, u64) -> u64|
            outcome_of(out) == #[trigger] binary_outcome(BinaryOp::Subtraction, *left, *right, fl),
{
    let (a, b) = unify_pair(left, right);
    combine(&a, &b, Operator::Binary(BinaryOp::Subtraction), left, right, unit)
}

} // verus!
