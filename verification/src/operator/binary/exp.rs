//! `**`: exponentiation.

use crate::error::Error;
use crate::float::{float_is_finite, FloatOp};
use crate::operator::operator::{BinaryOp, Operator};
use crate::operator::semantics::{
    binary_outcome, cell, computes_floats, outcome_of, unify_pair, exponent_of, unsupported,
};
use crate::operator::integer::overflowing_pow;
use crate::value::Value;
use vstd::prelude::*;

verus! {

/// Raises to a power: two booleans as the integers 0 and 1, an integer to the low 32 bits of an integer, wrapping, or a float to a float.
///
/// `a` and `b` are the operands, brought to one type. An error names
/// `reported` as the operator and `l`, `r` as the operands.
pub fn combine<U: Fn(FloatOp, u64, u64) -> u64>(
    a: &Value,
    b: &Value,
    reported: Operator,
    l: &Value,
    r: &Value,
    unit: &U,
) -> (out: Result<(Value, bool), Error>)
    requires
        forall|op: FloatOp, x: u64, y: u64| call_requires(unit, (op, x, y)),
    ensures
        forall|fl: spec_fn(FloatOp, u64, u64) -> u64| #[trigger]
            computes_floats(unit, fl) ==> outcome_of(out) == cell(
                BinaryOp::Exponentiation,
                *a,
                *b,
                reported,
                *l,
                *r,
                fl,
            ),
        !(a is Float && b is Float) ==> forall|fl: spec_fn(FloatOp, u64, u64) -> u64|
            outcome_of(out) == #[trigger] cell(BinaryOp::Exponentiation, *a, *b, reported, *l, *r, fl),
{
    match (*a, *b) {
        (Value::Boolean(x), Value::Boolean(y)) => {
            let v: i64 = if y {
                if x {
                    1
                } else {
                    0
                }
            } else {
                1
            };
            Ok((Value::Int(v), false))
        },
        (Value::Int(x), Value::Int(y)) => {
            let (v, overflow) = overflowing_pow(x, low_bits(y));
            Ok((Value::Int(v), overflow))
        },
        (Value::Float(x), Value::Float(y)) => {
            let v = unit(FloatOp::Pow, x, y);
            Ok((Value::Float(v), !float_is_finite(v)))
        },
        _ => Err(unsupported(reported, l, r)),
    }
}

/// The low 32 bits of `y`.
fn low_bits(y: i64) -> (e: u32)
    ensures
        e == exponent_of(y),
{
    match y.checked_rem_euclid(0x1_0000_0000) {
        Some(m) => m as u32,
        None => 0,
    }
}

/// `left ** right`.
pub fn apply<U: Fn(FloatOp, u64, u64) -> u64>(left: &Value, right: &Value, unit: &U) -> (out: Result<
    (Value, bool),
    Error,
>)
    requires
        forall|op: FloatOp, x: u64, y: u64| call_requires(unit, (op, x, y)),
    ensures
        forall|fl: spec_fn(FloatOp, u64, u64) -> u64| #[trigger]
            computes_floats(unit, fl) ==> outcome_of(out) == binary_outcome(
                BinaryOp::Exponentiation,
                *left,
                *right,
                fl,
            ),
        !(left is Float || right is Float) ==> forall|fl: spec_fn(FloatOp, u64, u64) -> u64|
            outcome_of(out) == #[trigger] binary_outcome(BinaryOp::Exponentiation, *left, *right, fl),
{
    let (a, b) = unify_pair(left, right);
    combine(&a, &b, Operator::Binary(BinaryOp::Exponentiation), left, right, unit)
}

} // verus!
