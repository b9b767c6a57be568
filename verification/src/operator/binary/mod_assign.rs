//! `%=`: reduce a variable to a remainder.

use crate::error::Error;
use crate::float::FloatOp;
use crate::operator::binary::modulo;
use crate::operator::operator::{BinaryOp, Operator};
use crate::operator::semantics::{assigned, assignment_outcome, computes_floats, outcome_of, store};
use crate::value::Value;
use vstd::prelude::*;

verus! {

/// Stores the remainder of the variable `left` by `right` and returns it.
///
/// `right` is converted to the type of the variable first, and the variable
/// keeps its type. Where the operation fails the variable is left as it is.
pub fn apply<U: Fn(FloatOp, u64, u64) -> u64>(left: &mut Value, right: &Value, unit: &U) -> (out: Result<
    (Value, bool),
    Error,
>)
    requires
        forall|op: FloatOp, x: u64, y: u64| call_requires(unit, (op, x, y)),
    ensures
        final(left).type_of() == old(left).type_of(),
        forall|fl: spec_fn(FloatOp, u64, u64) -> u64| #[trigger]
            computes_floats(unit, fl) ==> outcome_of(out) == assignment_outcome(
                BinaryOp::ModAssign,
                *old(left),
                *right,
                fl,
            ) && *final(left) == assigned(
                *old(left),
                assignment_outcome(BinaryOp::ModAssign, *old(left), *right, fl),
            ),
        !(*old(left) is Float) ==> forall|fl: spec_fn(FloatOp, u64, u64) -> u64|
            outcome_of(out) == #[trigger] assignment_outcome(
                BinaryOp::ModAssign,
                *old(left),
                *right,
                fl,
            ) && *final(left) == assigned(
                *old(left),
                assignment_outcome(BinaryOp::ModAssign, *old(left), *right, fl),
            ),
{
    let current = *left;
    let promoted = match right.promote(current.value_type()) {
        Some(p) => p,
        None => *right,
    };
    let computed = modulo::combine(
        &current,
        &promoted,
        Operator::Binary(BinaryOp::ModAssign),
        &current,
        right,
        unit,
    );
    store(left, computed)
}

} // verus!
