//! `^=`: bitwise exclusive or into a variable.

use crate::error::Error;
use crate::float::FloatOp;
use crate::operator::binary::bit_xor;
use crate::operator::operator::{BinaryOp, Operator};
use crate::operator::semantics::{assigned, assignment_outcome, outcome_of, store};
use crate::value::Value;
use vstd::prelude::*;

verus! {

/// Stores the bitwise exclusive or of the variable `left` and `right`, and returns it.
///
/// `right` is converted to the type of the variable first, and the variable
/// keeps its type. Where the operation fails the variable is left as it is.
pub fn apply(left: &mut Value, right: &Value) -> (out: Result<(Value, bool), Error>)
    ensures
        final(left).type_of() == old(left).type_of(),
        forall|fl: spec_fn(FloatOp, u64, u64) -> u64|
            outcome_of(out) == #[trigger] assignment_outcome(
                BinaryOp::BitXorAssign,
                *old(left),
                *right,
                fl,
            ) && *final(left) == assigned(
                *old(left),
                assignment_outcome(BinaryOp::BitXorAssign, *old(left), *right, fl),
            ),
{
    let current = *left;
    let promoted = match right.promote(current.value_type()) {
        Some(p) => p,
        None => *right,
    };
    let computed = bit_xor::combine(
        &current,
        &promoted,
        Operator::Binary(BinaryOp::BitXorAssign),
        &current,
        right,
    );
    store(left, computed)
}

} // verus!
