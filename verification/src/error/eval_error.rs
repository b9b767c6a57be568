//! Failures of evaluation.

use crate::error::names::{
    arity_label, arity_name, kind_name, name_kind_label, operator_name, push_operator_name,
    value_type_name, value_type_text,
};
use crate::operator::Operator;
use crate::text::{decimal_text, push_decimal};
use crate::value::{
    any_float, is_float, literal_text, writes_floats, writes_text, Value, ValueType,
};
use vstd::prelude::*;

verus! {

/// How many operands an operator takes.
#[derive(Debug, Clone, Copy, PartialEq, Eq, Structural)]
pub enum Arity {
    Unary,
    Binary,
}

/// What kind of name a lookup was for.
#[derive(Debug, Clone, Copy, PartialEq, Eq, Structural)]
pub enum NameKind {
    Identifier,
    Function,
    Variable,
    Macro,
}

/// What can go wrong in evaluation.
#[derive(Debug, Clone, PartialEq)]
#[allow(inconsistent_fields)]
pub enum EvalError {
    /// Operand types do not match what the operator requires.
    TypeMismatch { op: Operator, arity: Arity, found: Vec<ValueType>, expected: Vec<ValueType> },
    /// The operator is not defined for the given operand types.
    OpNotSupported { op: Operator, operand_types: Vec<ValueType> },
    /// Division, or remainder, by zero.
    DivideByZero { lhs: Value, rhs: Value },
    /// A set of values could not be brought to one type.
    UnableToUnify { values: Vec<Value> },
    /// A name is not bound in the environment it was looked up in.
    NameNotFound { kind: NameKind, name: String },
    /// The operands are invalid for the operation, though their types are accepted.
    InvalidOperands { op: Operator, operands: Vec<Value> },
    /// The operation overflowed, or its result is not a finite number.
    InvalidResult { op: Operator, operands: Vec<Value>, result: Value },
    /// The target of an assignment is not a plain identifier.
    NotAssignable { op: Operator },
    /// A function was called with the wrong number of arguments.
    ArityMismatch { func: String, expected: usize, found: usize },
}

/// An evaluation error with its lists as sequences and its names as sequences
/// of characters.
#[allow(inconsistent_fields)]
pub enum EvalErrorModel {
    TypeMismatch { op: Operator, arity: Arity, found: Seq<ValueType>, expected: Seq<ValueType> },
    OpNotSupported { op: Operator, operand_types: Seq<ValueType> },
    DivideByZero { lhs: Value, rhs: Value },
    UnableToUnify { values: Seq<Value> },
    NameNotFound { kind: NameKind, name: Seq<char> },
    InvalidOperands { op: Operator, operands: Seq<Value> },
    InvalidResult { op: Operator, operands: Seq<Value>, result: Value },
    NotAssignable { op: Operator },
    ArityMismatch { func: Seq<char>, expected: usize, found: usize },
}

impl View for EvalError {
    type V = EvalErrorModel;

    open spec fn view(&self) -> EvalErrorModel {
        match self {
            EvalError::TypeMismatch { op, arity, found, expected } => EvalErrorModel::TypeMismatch {
                op: *op,
                arity: *arity,
                found: found@,
                expected: expected@,
            },
            EvalError::OpNotSupported { op, operand_types } => EvalErrorModel::OpNotSupported {
                op: *op,
                operand_types: operand_types@,
            },
            EvalError::DivideByZero { lhs, rhs } => EvalErrorModel::DivideByZero {
                lhs: *lhs,
                rhs: *rhs,
            },
            EvalError::UnableToUnify { values } => EvalErrorModel::UnableToUnify {
                values: values@,
            },
            EvalError::NameNotFound { kind, name } => EvalErrorModel::NameNotFound {
                kind: *kind,
                name: name@,
            },
            EvalError::InvalidOperands { op, operands } => EvalErrorModel::InvalidOperands {
                op: *op,
                operands: operands@,
            },
            EvalError::InvalidResult { op, operands, result } => EvalErrorModel::InvalidResult {
                op: *op,
                operands: operands@,
                result: *result,
            },
            EvalError::NotAssignable { op } => EvalErrorModel::NotAssignable { op: *op },
            EvalError::ArityMismatch { func, expected, found } => EvalErrorModel::ArityMismatch {
                func: func@,
                expected: *expected,
                found: *found,
            },
        }
    }
}

/// A value with the name of its type, such as `Int(5)`.
pub open spec fn value_shown(v: Value, ft: spec_fn(u64) -> Seq<char>) -> Seq<char> {
    value_type_text(v.type_of()) + seq!['('] + literal_text(v, ft) + seq![')']
}

/// The values from the `i`-th on, with `, ` between them.
pub open spec fn values_listed(values: Seq<Value>, i: int, ft: spec_fn(u64) -> Seq<char>) -> Seq<
    char,
>
    decreases values.len() - i,
{
    if i < 0 || i >= values.len() {
        Seq::empty()
    } else if i == values.len() - 1 {
        value_shown(values[i], ft)
    } else {
        value_shown(values[i], ft) + ", "@ + values_listed(values, i + 1, ft)
    }
}

/// The names of the types from the `i`-th on, with `, ` between them.
pub open spec fn types_listed(types: Seq<ValueType>, i: int) -> Seq<char>
    decreases types.len() - i,
{
    if i < 0 || i >= types.len() {
        Seq::empty()
    } else if i == types.len() - 1 {
        value_type_text(types[i])
    } else {
        value_type_text(types[i]) + ", "@ + types_listed(types, i + 1)
    }
}

/// A list of values in brackets.
pub open spec fn values_shown(values: Seq<Value>, ft: spec_fn(u64) -> Seq<char>) -> Seq<char> {
    seq!['['] + values_listed(values, 0, ft) + seq![']']
}

/// A list of types in brackets.
pub open spec fn types_shown(types: Seq<ValueType>) -> Seq<char> {
    seq!['['] + types_listed(types, 0) + seq![']']
}

/// The message for an evaluation error, given the text of each float.
pub open spec fn message_text(err: EvalErrorModel, ft: spec_fn(u64) -> Seq<char>) -> Seq<char> {
    match err {
        EvalErrorModel::TypeMismatch { op, arity, found, expected } => "Type mismatch for "@
            + arity_name(arity) + seq![' '] + operator_name(op) + " operator: expected "@
            + types_shown(expected) + ", found "@ + types_shown(found),
        EvalErrorModel::OpNotSupported { op, operand_types } => "Operator "@ + operator_name(op)
            + " is not supported for operand types "@ + types_shown(operand_types),
        EvalErrorModel::DivideByZero { lhs, rhs } => "Division by zero"@,
        EvalErrorModel::UnableToUnify { values } => "Unable to unify values "@ + values_shown(
            values,
            ft,
        ),
        EvalErrorModel::NameNotFound { kind, name } => kind_name(kind) + " '"@ + name
            + "' not found"@,
        EvalErrorModel::InvalidOperands { op, operands } => "Invalid operands "@ + values_shown(
            operands,
            ft,
        ) + " for operator "@ + operator_name(op),
        EvalErrorModel::InvalidResult { op, operands, result } => "Operator "@ + operator_name(op)
            + " applied to "@ + values_shown(operands, ft) + " produced invalid result "@
            + value_shown(result, ft),
        EvalErrorModel::NotAssignable { op } => "Result of operator "@ + operator_name(op)
            + " is not assignable"@,
        EvalErrorModel::ArityMismatch { func, expected, found } => "Function '"@ + func
            + "' takes "@ + decimal_text(expected as nat) + " argument(s), "@ + decimal_text(
            found as nat,
        ) + " given"@,
    }
}

/// Whether the message for the error shows a float.
pub open spec fn shows_float(err: EvalErrorModel) -> bool {
    match err {
        EvalErrorModel::UnableToUnify { values } => any_float(values),
        EvalErrorModel::InvalidOperands { op, operands } => any_float(operands),
        EvalErrorModel::InvalidResult { op, operands, result } => any_float(operands) || is_float(
            result,
        ),
        _ => false,
    }
}

fn push_value<F: Fn(u64) -> String>(out: &mut String, v: &Value, float_text: &F)
    requires
        forall|bits: u64| call_requires(float_text, (bits,)),
    ensures
        forall|ft: spec_fn(u64) -> Seq<char>| #[trigger]
            writes_text(float_text, ft, is_float(*v)) ==> final(out)@ == old(out)@ + value_shown(*v, ft),
{
    out.append(value_type_name(v.value_type()));
    out.push('(');
    let text = v.literal(float_text);
    out.append(text.as_str());
    out.push(')');
    proof {
        assert forall|ft: spec_fn(u64) -> Seq<char>| #[trigger]
            writes_text(float_text, ft, is_float(*v)) implies out@ == old(out)@ + value_shown(*v, ft) by {
            assert(out@ =~= old(out)@ + value_shown(*v, ft));
        }
    }
}

/// A value with the name of its type, such as `Int(5)`, with `float_text`
/// writing a float.
pub fn shown_value<F: Fn(u64) -> String>(v: &Value, float_text: &F) -> (r: String)
    requires
        forall|bits: u64| call_requires(float_text, (bits,)),
    ensures
        !is_float(*v) ==> forall|ft: spec_fn(u64) -> Seq<char>|
            r@ == #[trigger] value_shown(*v, ft),
        forall|ft: spec_fn(u64) -> Seq<char>| #[trigger]
            writes_floats(float_text, ft) ==> r@ == value_shown(*v, ft),
{
    let mut out = String::new();
    push_value(&mut out, v, float_text);
    proof {
        assert forall|ft: spec_fn(u64) -> Seq<char>| #[trigger]
            writes_text(float_text, ft, is_float(*v)) implies out@ == value_shown(*v, ft) by {
            assert(Seq::<char>::empty() + value_shown(*v, ft) =~= value_shown(*v, ft));
        }
        assert forall|ft: spec_fn(u64) -> Seq<char>| #[trigger]
            writes_floats(float_text, ft) implies out@ == value_shown(*v, ft) by {
            assert(writes_text(float_text, ft, is_float(*v)));
        }
        if !is_float(*v) {
            assert forall|ft: spec_fn(u64) -> Seq<char>|
                out@ == #[trigger] value_shown(*v, ft) by {
                assert(writes_text(float_text, ft, is_float(*v)));
            }
        }
    }
    out
}

fn push_values<F: Fn(u64) -> String>(out: &mut String, values: &Vec<Value>, float_text: &F)
    requires
        forall|bits: u64| call_requires(float_text, (bits,)),
    ensures
        forall|ft: spec_fn(u64) -> Seq<char>| #[trigger]
            writes_text(float_text, ft, any_float(values@)) ==> final(out)@ == old(out)@ + values_shown(values@, ft),
{
    out.push('[');
    let ghost start = out@;
    let mut i: usize = 0;
    while i < values.len()
        invariant
            i <= values.len(),
            forall|bits: u64| call_requires(float_text, (bits,)),
            forall|ft: spec_fn(u64) -> Seq<char>| #[trigger]
                writes_text(float_text, ft, any_float(values@)) ==> out@ + values_listed(values@, i as int, ft)
                    == start + values_listed(values@, 0, ft),
        decreases values.len() - i,
    {
        let ghost before = out@;
        push_value(out, &values[i], float_text);
        if i + 1 < values.len() {
            out.append(", ");
        }
        proof {
            assert forall|ft: spec_fn(u64) -> Seq<char>| #[trigger]
                writes_text(float_text, ft, any_float(values@)) implies out@ + values_listed(
                values@,
                i + 1,
                ft,
            ) == start + values_listed(values@, 0, ft) by {
                assert(is_float(values@[i as int]) ==> any_float(values@));
                assert(writes_text(float_text, ft, is_float(values@[i as int])));
                let shown = value_shown(values@[i as int], ft);
                let rest = values_listed(values@, i + 1, ft);
                if i + 1 < values.len() {
                    assert(out@ + rest =~= before + (shown + ", "@ + rest));
                } else {
                    assert(out@ + rest =~= before + shown);
                }
            }
        }
        i = i + 1;
    }
    out.push(']');
    proof {
        assert forall|ft: spec_fn(u64) -> Seq<char>| #[trigger]
            writes_text(float_text, ft, any_float(values@)) implies out@ == old(out)@ + values_shown(values@, ft) by {
            let listed = values_listed(values@, 0, ft);
            assert(values_listed(values@, values.len() as int, ft) =~= Seq::<char>::empty());
            assert(out@ =~= old(out)@ + (seq!['['] + listed + seq![']']));
        }
    }
}

fn push_types(out: &mut String, types: &Vec<ValueType>)
    ensures
        final(out)@ == old(out)@ + types_shown(types@),
{
    out.push('[');
    let ghost start = out@;
    let mut i: usize = 0;
    while i < types.len()
        invariant
            i <= types.len(),
            out@ + types_listed(types@, i as int) == start + types_listed(types@, 0),
        decreases types.len() - i,
    {
        let ghost before = out@;
        out.append(value_type_name(types[i]));
        if i + 1 < types.len() {
            out.append(", ");
        }
        proof {
            let shown = value_type_text(types@[i as int]);
            let rest = types_listed(types@, i + 1);
            if i + 1 < types.len() {
                assert(out@ + rest =~= before + (shown + ", "@ + rest));
            } else {
                assert(out@ + rest =~= before + shown);
            }
        }
        i = i + 1;
    }
    out.push(']');
    proof {
        let listed = types_listed(types@, 0);
        assert(types_listed(types@, types.len() as int) =~= Seq::<char>::empty());
        assert(out@ =~= old(out)@ + (seq!['['] + listed + seq![']']));
    }
}

/// A one-line message for an evaluation error, with `float_text` writing
/// the floats.
pub fn error_to_string<F: Fn(u64) -> String>(err: EvalError, float_text: &F) -> (r: String)
    requires
        forall|bits: u64| call_requires(float_text, (bits,)),
    ensures
        !shows_float(err@) ==> forall|ft: spec_fn(u64) -> Seq<char>|
            r@ == #[trigger] message_text(err@, ft),
        forall|ft: spec_fn(u64) -> Seq<char>| #[trigger]
            writes_floats(float_text, ft) ==> r@ == message_text(err@, ft),
{
    let mut out = String::new();
    match err {
        EvalError::TypeMismatch { op, arity, found, expected } => {
            out.append("Type mismatch for ");
            out.append(arity_label(arity));
            out.push(' ');
            push_operator_name(&mut out, op);
            out.append(" operator: expected ");
            push_types(&mut out, &expected);
            out.append(", found ");
            push_types(&mut out, &found);
            proof {
                assert forall|ft: spec_fn(u64) -> Seq<char>| #[trigger]
                    writes_text(float_text, ft, shows_float(err@)) implies out@ == message_text(err@, ft) by {
                    assert(out@ =~= message_text(err@, ft));
                }
            }
        },
        EvalError::OpNotSupported { op, operand_types } => {
            out.append("Operator ");
            push_operator_name(&mut out, op);
            out.append(" is not supported for operand types ");
            push_types(&mut out, &operand_types);
            proof {
                assert forall|ft: spec_fn(u64) -> Seq<char>| #[trigger]
                    writes_text(float_text, ft, shows_float(err@)) implies out@ == message_text(err@, ft) by {
                    assert(out@ =~= message_text(err@, ft));
                }
            }
        },
        EvalError::DivideByZero { .. } => {
            out.append("Division by zero");
            proof {
                assert forall|ft: spec_fn(u64) -> Seq<char>| #[trigger]
                    writes_text(float_text, ft, shows_float(err@)) implies out@ == message_text(err@, ft) by {
                    assert(out@ =~= message_text(err@, ft));
                }
            }
        },
        EvalError::UnableToUnify { values } => {
            out.append("Unable to unify values ");
            push_values(&mut out, &values, float_text);
            proof {
                assert forall|ft: spec_fn(u64) -> Seq<char>| #[trigger]
                    writes_text(float_text, ft, shows_float(err@)) implies out@ == message_text(err@, ft) by {
                    assert(writes_text(float_text, ft, any_float(values@)));
                    assert(out@ =~= message_text(err@, ft));
                }
            }
        },
        EvalError::NameNotFound { kind, name } => {
            out.append(name_kind_label(kind));
            out.append(" '");
            out.append(name.as_str());
            out.append("' not found");
            proof {
                assert forall|ft: spec_fn(u64) -> Seq<char>| #[trigger]
                    writes_text(float_text, ft, shows_float(err@)) implies out@ == message_text(err@, ft) by {
                    assert(out@ =~= message_text(err@, ft));
                }
            }
        },
        EvalError::InvalidOperands { op, operands } => {
            out.append("Invalid operands ");
            push_values(&mut out, &operands, float_text);
            out.append(" for operator ");
            push_operator_name(&mut out, op);
            proof {
                assert forall|ft: spec_fn(u64) -> Seq<char>| #[trigger]
                    writes_text(float_text, ft, shows_float(err@)) implies out@ == message_text(err@, ft) by {
                    assert(writes_text(float_text, ft, any_float(operands@)));
                    assert(out@ =~= message_text(err@, ft));
                }
            }
        },
        EvalError::InvalidResult { op, operands, result } => {
            out.append("Operator ");
            push_operator_name(&mut out, op);
            out.append(" applied to ");
            push_values(&mut out, &operands, float_text);
            out.append(" produced invalid result ");
            push_value(&mut out, &result, float_text);
            proof {
                assert forall|ft: spec_fn(u64) -> Seq<char>| #[trigger]
                    writes_text(float_text, ft, shows_float(err@)) implies out@ == message_text(err@, ft) by {
                    assert(writes_text(float_text, ft, any_float(operands@)));
                    assert(writes_text(float_text, ft, is_float(result)));
                    assert(out@ =~= message_text(err@, ft));
                }
            }
        },
        EvalError::NotAssignable { op } => {
            out.append("Result of operator ");
            push_operator_name(&mut out, op);
            out.append(" is not assignable");
            proof {
                assert forall|ft: spec_fn(u64) -> Seq<char>| #[trigger]
                    writes_text(float_text, ft, shows_float(err@)) implies out@ == message_text(err@, ft) by {
                    assert(out@ =~= message_text(err@, ft));
                }
            }
        },
        EvalError::ArityMismatch { func, expected, found } => {
            out.append("Function '");
            out.append(func.as_str());
            out.append("' takes ");
            push_decimal(&mut out, expected as u64);
            out.append(" argument(s), ");
            push_decimal(&mut out, found as u64);
            out.append(" given");
            proof {
                assert forall|ft: spec_fn(u64) -> Seq<char>| #[trigger]
                    writes_text(float_text, ft, shows_float(err@)) implies out@ == message_text(err@, ft) by {
                    assert(out@ =~= message_text(err@, ft));
                }
            }
        },
    }
    proof {
        assert forall|ft: spec_fn(u64) -> Seq<char>| #[trigger]
            writes_floats(float_text, ft) implies out@ == message_text(err@, ft) by {
            assert(writes_text(float_text, ft, shows_float(err@)));
        }
        if !shows_float(err@) {
            assert forall|ft: spec_fn(u64) -> Seq<char>|
                out@ == #[trigger] message_text(err@, ft) by {
                assert(writes_text(float_text, ft, shows_float(err@)));
            }
        }
    }
    out
}

} // verus!
