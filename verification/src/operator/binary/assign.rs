//! `=`: assignment.

use crate::error::Error;
use crate::float::FloatOp;
use crate::operator::operator::BinaryOp;
use crate::operator::semantics::{assigned, assignment_outcome, outcome_of, store};
use crate::value::Value;
use vstd::prelude::*;

verus! {

/// Stores `right`, converted to the type of the variable `left`, in the
/// variable, and returns what is stored.
pub fn apply(left: &mut Value, right: &Value) -> (out: Result<(Value, bool), Error>)
    ensures
        final(left).type_of() == old(left).type_of(),
        out == Ok::<(Value, bool), Error>((right.promoted(old(left).type_of()), false)),
        *final(left) == right.promoted(old(left).type_of()),
        forall|fl: spec_fn(FloatOp, u64, u64) -> u64|
            outcome_of(out) == #[trigger] assignment_outcome(
                BinaryOp::Assign,
                *old(left),
                *right,
                fl,
            ) && *final(left) == assigned(
                *old(left),
                assignment_outcome(BinaryOp::Assign, *old(left), *right, fl),
            ),
{
    let promoted = match right.promote(left.value_type()) {
        Some(p) => p,
        None => *right,
    };
    store(left, Ok((promoted, false)))
}

} // verus!
