//! What each operator computes, for each type of operand.
//!
//! The operands of a binary operator are first brought to one type: the wider
//! of their two types, or Boolean for `&&` and `||`. An operator is then
//! defined, or not supported, for that type. Its result comes with a flag that
//! tells whether the result is invalid: an integer that overflowed, a float
//! that is not finite.

use crate::error::{Error, ErrorModel, EvalError, EvalErrorModel};
use crate::float::{is_finite, is_zero, less, less_equal, negated, within_epsilon, FloatOp};
use crate::operator::integer::{fits, truncating_quotient, truncating_remainder, wrapped};
use crate::operator::operator::{BinaryOp, Operator, UnaryOp};
use crate::value::{unify, widest, Value, ValueType};
use vstd::arithmetic::power::pow;
use vstd::prelude::*;

verus! {

/// A value with the flag that tells whether it is invalid, or the error.
pub type Outcome = Result<(Value, bool), ErrorModel>;

/// The outcome of an operator as the functions of this module return it.
pub open spec fn outcome_of(r: Result<(Value, bool), Error>) -> Outcome {
    match r {
        Ok(v) => Ok(v),
        Err(e) => Err(e@),
    }
}

/// Whether the function `unit` computes each float operation as `model` says.
pub open spec fn computes_floats<U: Fn(FloatOp, u64, u64) -> u64>(
    unit: &U,
    model: spec_fn(FloatOp, u64, u64) -> u64,
) -> bool {
    forall|op: FloatOp, a: u64, b: u64, r: u64| #[trigger]
        call_ensures(unit, (op, a, b), r) ==> r == model(op, a, b)
}

/// The wider of two types.
pub open spec fn wider(a: ValueType, b: ValueType) -> ValueType {
    if b.rank_of() >= a.rank_of() {
        b
    } else {
        a
    }
}

/// The error for an operator that is not defined for its operands' types.
pub open spec fn not_supported(op: Operator, l: Value, r: Value) -> ErrorModel {
    ErrorModel::EvalError(
        EvalErrorModel::OpNotSupported { op, operand_types: seq![l.type_of(), r.type_of()] },
    )
}

/// The error for a division, or a remainder, by zero.
pub open spec fn divide_by_zero(l: Value, r: Value) -> ErrorModel {
    ErrorModel::EvalError(EvalErrorModel::DivideByZero { lhs: l, rhs: r })
}

/// A boolean as the integer 0 or 1.
pub open spec fn bit(b: bool) -> i64 {
    if b {
        1
    } else {
        0
    }
}

/// The exponent that `**` takes from its right operand: its low 32 bits.
pub open spec fn exponent_of(y: i64) -> nat {
    ((y as int) % 0x1_0000_0000) as nat
}

/// What the operator `op` computes of `a` and `b`, two operands of one type.
/// Errors name `reported` as the operator and `l`, `r` as the operands.
///
/// The arithmetic operators are defined on integers, where they wrap, and on
/// floats; `**` and the bitwise operators take booleans as the integers 0
/// and 1; the comparisons are defined on all three types; `&&` and `||` are
/// defined on booleans. Every other combination is not supported.
pub open spec fn cell(
    op: BinaryOp,
    a: Value,
    b: Value,
    reported: Operator,
    l: Value,
    r: Value,
    fl: spec_fn(FloatOp, u64, u64) -> u64,
) -> Outcome {
    match (op, a, b) {
        (BinaryOp::Addition, Value::Int(x), Value::Int(y)) => Ok(
            (Value::Int(wrapped(x + y)), !fits(x + y)),
        ),
        (BinaryOp::Addition, Value::Float(x), Value::Float(y)) => Ok(
            (Value::Float(fl(FloatOp::Add, x, y)), !is_finite(fl(FloatOp::Add, x, y))),
        ),
        (BinaryOp::Subtraction, Value::Int(x), Value::Int(y)) => Ok(
            (Value::Int(wrapped(x - y)), !fits(x - y)),
        ),
        (BinaryOp::Subtraction, Value::Float(x), Value::Float(y)) => Ok(
            (Value::Float(fl(FloatOp::Sub, x, y)), !is_finite(fl(FloatOp::Sub, x, y))),
        ),
        (BinaryOp::Multiplication, Value::Int(x), Value::Int(y)) => Ok(
            (Value::Int(wrapped(x * y)), !fits(x * y)),
        ),
        (BinaryOp::Multiplication, Value::Float(x), Value::Float(y)) => Ok(
            (Value::Float(fl(FloatOp::Mul, x, y)), !is_finite(fl(FloatOp::Mul, x, y))),
        ),
        (BinaryOp::Division, Value::Int(x), Value::Int(y)) => if y == 0 {
            Err(divide_by_zero(l, r))
        } else {
            Ok(
                (
                    Value::Int(wrapped(truncating_quotient(x as int, y as int))),
                    !fits(truncating_quotient(x as int, y as int)),
                ),
            )
        },
        (BinaryOp::Division, Value::Float(x), Value::Float(y)) => if is_zero(y) {
            Err(divide_by_zero(l, r))
        } else {
            Ok((Value::Float(fl(FloatOp::Div, x, y)), false))
        },
        (BinaryOp::Modulo, Value::Int(x), Value::Int(y)) => if y == 0 {
            Err(divide_by_zero(l, r))
        } else {
            Ok(
                (
                    Value::Int(truncating_remainder(x as int, y as int) as i64),
                    !fits(truncating_quotient(x as int, y as int)),
                ),
            )
        },
        (BinaryOp::Modulo, Value::Float(x), Value::Float(y)) => Ok(
            (Value::Float(fl(FloatOp::Rem, x, y)), !is_finite(fl(FloatOp::Rem, x, y))),
        ),
        (BinaryOp::Exponentiation, Value::Boolean(x), Value::Boolean(y)) => Ok(
            (Value::Int(if y { bit(x) } else { 1 }), false),
        ),
        (BinaryOp::Exponentiation, Value::Int(x), Value::Int(y)) => Ok(
            (
                Value::Int(wrapped(pow(x as int, exponent_of(y)))),
                !fits(pow(x as int, exponent_of(y))),
            ),
        ),
        (BinaryOp::Exponentiation, Value::Float(x), Value::Float(y)) => Ok(
            (Value::Float(fl(FloatOp::Pow, x, y)), !is_finite(fl(FloatOp::Pow, x, y))),
        ),
        (BinaryOp::BitwiseAnd, Value::Boolean(x), Value::Boolean(y)) => Ok(
            (Value::Int(bit(x && y)), false),
        ),
        (BinaryOp::BitwiseAnd, Value::Int(x), Value::Int(y)) => Ok((Value::Int(x & y), false)),
        (BinaryOp::BitwiseOr, Value::Boolean(x), Value::Boolean(y)) => Ok(
            (Value::Int(bit(x || y)), false),
        ),
        (BinaryOp::BitwiseOr, Value::Int(x), Value::Int(y)) => Ok((Value::Int(x | y), false)),
        (BinaryOp::BitwiseXor, Value::Boolean(x), Value::Boolean(y)) => Ok(
            (Value::Int(bit(x != y)), false),
        ),
        (BinaryOp::BitwiseXor, Value::Int(x), Value::Int(y)) => Ok((Value::Int(x ^ y), false)),
        (BinaryOp::Equal, Value::Boolean(x), Value::Boolean(y)) => Ok(
            (Value::Boolean(x == y), false),
        ),
        (BinaryOp::Equal, Value::Int(x), Value::Int(y)) => Ok((Value::Boolean(x == y), false)),
        (BinaryOp::Equal, Value::Float(x), Value::Float(y)) => Ok(
            (Value::Boolean(within_epsilon(fl(FloatOp::Sub, x, y))), false),
        ),
        (BinaryOp::NotEqual, Value::Boolean(x), Value::Boolean(y)) => Ok(
            (Value::Boolean(x != y), false),
        ),
        (BinaryOp::NotEqual, Value::Int(x), Value::Int(y)) => Ok((Value::Boolean(x != y), false)),
        (BinaryOp::NotEqual, Value::Float(x), Value::Float(y)) => Ok(
            (Value::Boolean(!within_epsilon(fl(FloatOp::Sub, x, y))), false),
        ),
        (BinaryOp::Less, Value::Boolean(x), Value::Boolean(y)) => Ok(
            (Value::Boolean(!x && y), false),
        ),
        (BinaryOp::Less, Value::Int(x), Value::Int(y)) => Ok((Value::Boolean(x < y), false)),
        (BinaryOp::Less, Value::Float(x), Value::Float(y)) => Ok(
            (Value::Boolean(less(x, y)), false),
        ),
        (BinaryOp::LessEqual, Value::Boolean(x), Value::Boolean(y)) => Ok(
            (Value::Boolean(!x || y), false),
        ),
        (BinaryOp::LessEqual, Value::Int(x), Value::Int(y)) => Ok((Value::Boolean(x <= y), false)),
        (BinaryOp::LessEqual, Value::Float(x), Value::Float(y)) => Ok(
            (Value::Boolean(less_equal(x, y)), false),
        ),
        (BinaryOp::Greater, Value::Boolean(x), Value::Boolean(y)) => Ok(
            (Value::Boolean(x && !y), false),
        ),
        (BinaryOp::Greater, Value::Int(x), Value::Int(y)) => Ok((Value::Boolean(x > y), false)),
        (BinaryOp::Greater, Value::Float(x), Value::Float(y)) => Ok(
            (Value::Boolean(less(y, x)), false),
        ),
        (BinaryOp::GreaterEqual, Value::Boolean(x), Value::Boolean(y)) => Ok(
            (Value::Boolean(x || !y), false),
        ),
        (BinaryOp::GreaterEqual, Value::Int(x), Value::Int(y)) => Ok(
            (Value::Boolean(x >= y), false),
        ),
        (BinaryOp::GreaterEqual, Value::Float(x), Value::Float(y)) => Ok(
            (Value::Boolean(less_equal(y, x)), false),
        ),
        (BinaryOp::And, Value::Boolean(x), Value::Boolean(y)) => Ok(
            (Value::Boolean(x && y), false),
        ),
        (BinaryOp::Or, Value::Boolean(x), Value::Boolean(y)) => Ok(
            (Value::Boolean(x || y), false),
        ),
        _ => Err(not_supported(reported, l, r)),
    }
}

/// The type that the operands of `op` are brought to: Boolean for `&&` and
/// `||`, the wider of their types for every other operator.
pub open spec fn operand_type(op: BinaryOp, l: Value, r: Value) -> ValueType {
    match op {
        BinaryOp::And | BinaryOp::Or => ValueType::Boolean,
        _ => wider(l.type_of(), r.type_of()),
    }
}

/// What `l op r` computes, for an operator that does not assign.
pub open spec fn binary_outcome(
    op: BinaryOp,
    l: Value,
    r: Value,
    fl: spec_fn(FloatOp, u64, u64) -> u64,
) -> Outcome {
    let t = operand_type(op, l, r);
    cell(op, l.promoted(t), r.promoted(t), Operator::Binary(op), l, r, fl)
}

/// The operator that a compound assignment applies before it stores.
pub open spec fn applied_operator(op: BinaryOp) -> BinaryOp {
    match op {
        BinaryOp::AddAssign => BinaryOp::Addition,
        BinaryOp::SubAssign => BinaryOp::Subtraction,
        BinaryOp::MulAssign => BinaryOp::Multiplication,
        BinaryOp::DivAssign => BinaryOp::Division,
        BinaryOp::ModAssign => BinaryOp::Modulo,
        BinaryOp::AndAssign => BinaryOp::And,
        BinaryOp::OrAssign => BinaryOp::Or,
        BinaryOp::BitAndAssign => BinaryOp::BitwiseAnd,
        BinaryOp::BitOrAssign => BinaryOp::BitwiseOr,
        BinaryOp::BitXorAssign => BinaryOp::BitwiseXor,
        _ => op,
    }
}

/// What the assignment `op` computes of the variable's value `slot` and the
/// right operand `r`: the value that is stored, in the type of `slot`, with
/// its flag.
///
/// `=` stores `r` converted to the type of `slot`. A compound assignment
/// converts `r` to the type of `slot`, applies its operator to the two, and
/// stores the result converted to the type of `slot`.
pub open spec fn assignment_outcome(
    op: BinaryOp,
    slot: Value,
    r: Value,
    fl: spec_fn(FloatOp, u64, u64) -> u64,
) -> Outcome {
    let b = r.promoted(slot.type_of());
    if op == BinaryOp::Assign {
        Ok((b, false))
    } else {
        match cell(applied_operator(op), slot, b, Operator::Binary(op), slot, r, fl) {
            Ok((v, flag)) => Ok((v.promoted(slot.type_of()), flag)),
            Err(e) => Err(e),
        }
    }
}

/// The value of the variable after the assignment: what was stored, or the
/// old value if the assignment failed.
pub open spec fn assigned(slot: Value, outcome: Outcome) -> Value {
    match outcome {
        Ok((v, _)) => v,
        Err(_) => slot,
    }
}

/// What the prefix operator `op` computes of `v`.
///
/// `!` converts to Boolean and negates. `-` negates an integer, wrapping, or
/// a float. `~` complements a boolean or the bits of an integer.
pub open spec fn unary_outcome(op: UnaryOp, v: Value) -> Outcome {
    match (op, v) {
        (UnaryOp::Not, _) => Ok(
            (Value::Boolean(!(v.promoted(ValueType::Boolean)->Boolean_0)), false),
        ),
        (UnaryOp::Negation, Value::Int(x)) => Ok((Value::Int(wrapped(-x)), !fits(-x))),
        (UnaryOp::Negation, Value::Float(x)) => Ok((Value::Float(negated(x)), false)),
        (UnaryOp::BitwiseNot, Value::Boolean(x)) => Ok((Value::Boolean(!x), false)),
        (UnaryOp::BitwiseNot, Value::Int(x)) => Ok((Value::Int((-1 - x) as i64), false)),
        _ => Err(
            ErrorModel::EvalError(
                EvalErrorModel::OpNotSupported {
                    op: Operator::Unary(op),
                    operand_types: seq![v.type_of()],
                },
            ),
        ),
    }
}

/// The error for the operator `op`, which is not defined for the types of
/// `l` and `r`.
pub fn unsupported(op: Operator, l: &Value, r: &Value) -> (e: Error)
    ensures
        e@ == not_supported(op, *l, *r),
{
    let mut operand_types = Vec::new();
    operand_types.push(l.value_type());
    operand_types.push(r.value_type());
    assert(operand_types@ =~= seq![l.type_of(), r.type_of()]);
    Error::EvalError(EvalError::OpNotSupported { op, operand_types })
}

/// The error for a division of `l` by `r`, which is zero.
pub fn division_by_zero(l: &Value, r: &Value) -> (e: Error)
    ensures
        e@ == divide_by_zero(*l, *r),
{
    Error::EvalError(EvalError::DivideByZero { lhs: *l, rhs: *r })
}

/// The wider of two types is the widest type of the two values.
pub proof fn lemma_wider_is_widest(l: Value, r: Value)
    ensures
        widest(seq![l, r]) == wider(l.type_of(), r.type_of()),
{
    let both = seq![l, r];
    assert(both.drop_last() =~= seq![l]);
    assert(seq![l].drop_last() =~= Seq::<Value>::empty());
    assert(widest(seq![l]) == l.type_of()) by {
        reveal_with_fuel(widest, 2);
    }
}

/// The two operands converted to the wider of their types.
pub fn unify_pair(l: &Value, r: &Value) -> (p: (Value, Value))
    ensures
        p.0 == l.promoted(wider(l.type_of(), r.type_of())),
        p.1 == r.promoted(wider(l.type_of(), r.type_of())),
        p.0.type_of() == p.1.type_of(),
{
    let mut both = Vec::new();
    both.push(*l);
    both.push(*r);
    proof {
        assert(both@ =~= seq![*l, *r]);
        lemma_wider_is_widest(*l, *r);
    }
    match unify(both.as_slice()) {
        Ok(v) => (v[0], v[1]),
        Err(_) => (*l, *r),
    }
}

/// Stores an outcome's value, converted to the type of the variable, in the
/// variable.
pub fn store(slot: &mut Value, computed: Result<(Value, bool), Error>) -> (r: Result<
    (Value, bool),
    Error,
>)
    ensures
        final(slot).type_of() == old(slot).type_of(),
        match computed {
            Ok((v, flag)) => r == Ok::<(Value, bool), Error>(
                (v.promoted(old(slot).type_of()), flag),
            ) && *final(slot) == v.promoted(old(slot).type_of()),
            Err(e) => r == computed && *final(slot) == *old(slot),
        },
{
    match computed {
        Ok((v, flag)) => {
            let kept = match v.promote(slot.value_type()) {
                Some(kept) => kept,
                None => v,
            };
            *slot = kept;
            Ok((kept, flag))
        },
        Err(e) => Err(e),
    }
}

} // verus!
