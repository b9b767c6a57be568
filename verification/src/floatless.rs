//! Values that are no floats stay so: no operator and no built-in function
//! but `to_float` makes a float of booleans and integers.

use crate::float::FloatOp;
use crate::functions::{builtin_outcome, extreme, Builtin};
use crate::operator::operator::{BinaryOp, UnaryOp};
use crate::operator::semantics::{assigned, assignment_outcome, binary_outcome, unary_outcome};
use crate::value::{all_promoted, law_widest_is_highest, widest, Value, ValueType};
use vstd::prelude::*;

verus! {

/// Whether none of the values is a float.
pub open spec fn no_float(values: Seq<Value>) -> bool {
    forall|i: int| 0 <= i < values.len() ==> !((#[trigger] values[i]) is Float)
}

/// A binary operator that does not assign makes no float of two values
/// that are no floats.
pub proof fn lemma_binary_makes_no_float(
    op: BinaryOp,
    l: Value,
    r: Value,
    fl: spec_fn(FloatOp, u64, u64) -> u64,
)
    requires
        !(l is Float),
        !(r is Float),
    ensures
        binary_outcome(op, l, r, fl) matches Ok((v, _)) ==> !(v is Float),
{
}

/// A prefix operator makes no float of a value that is no float.
pub proof fn lemma_unary_makes_no_float(op: UnaryOp, v: Value)
    requires
        !(v is Float),
    ensures
        unary_outcome(op, v) matches Ok((w, _)) ==> !(w is Float),
{
}

/// An assignment to a variable that holds no float stores no float.
pub proof fn lemma_assignment_stores_no_float(
    op: BinaryOp,
    slot: Value,
    r: Value,
    fl: spec_fn(FloatOp, u64, u64) -> u64,
)
    requires
        !(slot is Float),
    ensures
        assignment_outcome(op, slot, r, fl) matches Ok((v, _)) ==> !(v is Float),
        !(assigned(slot, assignment_outcome(op, slot, r, fl)) is Float),
{
}

/// The widest type of values that are no floats is not Float.
pub proof fn lemma_widest_is_no_float(values: Seq<Value>)
    requires
        no_float(values),
    ensures
        widest(values) != ValueType::Float,
{
    law_widest_is_highest(values);
}

/// The largest and the smallest of values that are no floats is no float.
pub proof fn lemma_extreme_is_no_float(values: Seq<Value>, largest: bool)
    requires
        values.len() > 0,
        no_float(values),
    ensures
        !(extreme(values, largest) is Float),
    decreases values.len(),
{
    if values.len() > 1 {
        let front = values.drop_last();
        assert forall|i: int| 0 <= i < front.len() implies !((#[trigger] front[i]) is Float) by {
            assert(front[i] == values[i]);
        }
        lemma_extreme_is_no_float(front, largest);
    }
}

/// No built-in function but `to_float` makes a float of values that are no
/// floats.
pub proof fn lemma_builtin_makes_no_float(f: Builtin, input: Seq<Value>)
    requires
        f != Builtin::ToFloat,
        no_float(input),
    ensures
        builtin_outcome(f, input) matches Ok(v) ==> !(v is Float),
{
    lemma_widest_is_no_float(input);
    let unified = all_promoted(input, widest(input));
    if input.len() > 0 {
        assert(no_float(unified));
        lemma_extreme_is_no_float(unified, true);
        lemma_extreme_is_no_float(unified, false);
    }
}

} // verus!
