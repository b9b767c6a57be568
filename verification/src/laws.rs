//! Laws of evaluation, proved from the definitions.

use crate::error::NameKind;
use crate::evaluater::{
    arguments, evaluated, evaluated_binary, failure, invalid_result, name_not_found, operand,
    persists, sequence, slot_to_assign, stored, success, Context, EvalResult,
};
use crate::float::{is_zero, lemma_zero_of_int, FloatOp};
use crate::operator::integer::{fits, wrapped};
use crate::operator::operator::{BinaryOp, Operator};
use crate::operator::semantics::{binary_outcome, divide_by_zero};
use crate::parser::ExprModel;
use crate::span::{Span, Spanned};
use crate::table::{distinct_names, index_of};
use crate::value::{Value, ValueType};
use vstd::prelude::*;

verus! {

/// The node for `lhs op rhs` with the span `span`.
pub open spec fn binary(
    span: Span,
    op: BinaryOp,
    lhs: Spanned<ExprModel>,
    rhs: Spanned<ExprModel>,
) -> Spanned<ExprModel> {
    Spanned {
        span,
        data: ExprModel::Binary {
            op: Operator::Binary(op),
            lhs: Box::new(lhs),
            rhs: Box::new(rhs),
        },
    }
}

/// The node for `cond ? first : second` with the span `span`.
pub open spec fn conditional(
    span: Span,
    cond: Spanned<ExprModel>,
    first: Spanned<ExprModel>,
    second: Spanned<ExprModel>,
) -> Spanned<ExprModel> {
    Spanned {
        span,
        data: ExprModel::Ternary {
            cond: Box::new(cond),
            statement1: Box::new(first),
            statement2: Box::new(second),
        },
    }
}

/// The node for the literal `v` with the span `span`.
pub open spec fn literal(span: Span, v: Value) -> Spanned<ExprModel> {
    Spanned { span, data: ExprModel::Value(v) }
}

/// The node for the identifier `name` with the span `span`.
pub open spec fn identifier(span: Span, name: Seq<char>) -> Spanned<ExprModel> {
    Spanned { span, data: ExprModel::Identifier(name) }
}

/// A literal evaluates to its value and leaves the variables as they are.
pub proof fn lemma_operand_of_literal(
    span: Span,
    v: Value,
    variables: Seq<(Seq<char>, Value)>,
    cx: Context,
    depth: nat,
)
    ensures
        operand(literal(span, v), variables, cx, depth) == (
            Ok::<Value, Spanned<crate::error::ErrorModel>>(v),
            variables,
        ),
{
    reveal_with_fuel(evaluated, 2);
    reveal_with_fuel(operand, 2);
}

/// Every value can be converted to every type, and the result has that type.
/// Converting a value to its own type leaves it as it is.
pub proof fn law_promotion_is_total(v: Value, t: ValueType)
    ensures
        v.promoted(t).type_of() == t,
        v.promoted(v.type_of()) == v,
{
}

/// `lhs && rhs` where `lhs` is false, and `lhs || rhs` where `lhs` is true,
/// is that boolean, and `rhs` is not evaluated: the variables are as `lhs`
/// left them.
pub proof fn law_short_circuit(
    span: Span,
    op: BinaryOp,
    lhs: Spanned<ExprModel>,
    rhs: Spanned<ExprModel>,
    variables: Seq<(Seq<char>, Value)>,
    cx: Context,
    depth: nat,
)
    requires
        op == BinaryOp::And || op == BinaryOp::Or,
        operand(lhs, variables, cx, depth).0 is Ok,
        operand(lhs, variables, cx, depth).0->Ok_0.promoted(ValueType::Boolean) == Value::Boolean(
            op == BinaryOp::Or,
        ),
    ensures
        evaluated(binary(span, op, lhs, rhs), variables, cx, depth) == success(
            Value::Boolean(op == BinaryOp::Or),
            operand(lhs, variables, cx, depth).1,
        ),
{
    reveal_with_fuel(evaluated, 2);
    reveal_with_fuel(evaluated_binary, 2);
    reveal_with_fuel(operand, 2);
}

/// `false && rhs` and `true || rhs` leave every variable as it was, whatever
/// `rhs` is.
pub proof fn law_short_circuit_of_literal(
    span: Span,
    lhs_span: Span,
    op: BinaryOp,
    rhs: Spanned<ExprModel>,
    variables: Seq<(Seq<char>, Value)>,
    cx: Context,
    depth: nat,
)
    requires
        op == BinaryOp::And || op == BinaryOp::Or,
    ensures
        evaluated(
            binary(span, op, literal(lhs_span, Value::Boolean(op == BinaryOp::Or)), rhs),
            variables,
            cx,
            depth,
        ) == success(Value::Boolean(op == BinaryOp::Or), variables),
{
    lemma_operand_of_literal(lhs_span, Value::Boolean(op == BinaryOp::Or), variables, cx, depth);
    reveal_with_fuel(evaluated, 2);
    reveal_with_fuel(evaluated_binary, 2);
    reveal_with_fuel(operand, 2);
}

/// `name = v`, where `name` is not bound, binds `name` to `v` in a new last
/// slot and is `v`.
pub proof fn law_assignment_binds(
    span: Span,
    name_span: Span,
    value_span: Span,
    name: Seq<char>,
    v: Value,
    variables: Seq<(Seq<char>, Value)>,
    cx: Context,
    depth: nat,
)
    requires
        index_of(variables, name) is None,
    ensures
        evaluated(
            binary(span, BinaryOp::Assign, identifier(name_span, name), literal(value_span, v)),
            variables,
            cx,
            depth,
        ) == success(v, variables.push((name, v))),
{
    lemma_operand_of_literal(value_span, v, variables, cx, depth);
    reveal_with_fuel(evaluated, 2);
    reveal_with_fuel(evaluated_binary, 2);
    reveal_with_fuel(operand, 2);
    let with_slot = variables.push((name, Value::zero_of(v.type_of())));
    assert(with_slot.update(variables.len() as int, (name, v)) =~= variables.push((name, v)));
}

/// A compound assignment to a name that is not bound fails with
/// `NameNotFound`, over the span of the assignment, and binds nothing.
pub proof fn law_compound_assignment_needs_binding(
    span: Span,
    name_span: Span,
    value_span: Span,
    op: BinaryOp,
    name: Seq<char>,
    v: Value,
    variables: Seq<(Seq<char>, Value)>,
    cx: Context,
    depth: nat,
)
    requires
        op.assigns(),
        op != BinaryOp::Assign,
        index_of(variables, name) is None,
    ensures
        evaluated(
            binary(span, op, identifier(name_span, name), literal(value_span, v)),
            variables,
            cx,
            depth,
        ) == failure(span, name_not_found(NameKind::Variable, name), variables),
{
    lemma_operand_of_literal(value_span, v, variables, cx, depth);
    reveal_with_fuel(evaluated, 2);
    reveal_with_fuel(evaluated_binary, 2);
    reveal_with_fuel(operand, 2);
}

/// Division by the integer zero, or by a float zero, is the error
/// `DivideByZero` with both operands, whatever is divided and whatever the
/// float operations compute; it is never a value.
pub proof fn law_division_by_zero(l: Value, r: Value, fl: spec_fn(FloatOp, u64, u64) -> u64)
    requires
        r == Value::Int(0) || (r is Float && is_zero(r->Float_0)),
    ensures
        binary_outcome(BinaryOp::Division, l, r, fl) == Err::<(Value, bool), _>(
            divide_by_zero(l, r),
        ),
{
    lemma_zero_of_int();
}

/// The sum of two integer literals that does not fit in 64 bits is the error
/// `InvalidResult`, over the span of the addition, with the operands and the
/// wrapped sum.
pub proof fn law_overflow_is_an_error(
    span: Span,
    left_span: Span,
    right_span: Span,
    x: i64,
    y: i64,
    variables: Seq<(Seq<char>, Value)>,
    cx: Context,
    depth: nat,
)
    requires
        !fits(x + y),
    ensures
        evaluated(
            binary(
                span,
                BinaryOp::Addition,
                literal(left_span, Value::Int(x)),
                literal(right_span, Value::Int(y)),
            ),
            variables,
            cx,
            depth,
        ) == failure(
            span,
            invalid_result(
                Operator::Binary(BinaryOp::Addition),
                seq![Value::Int(x), Value::Int(y)],
                Value::Int(wrapped(x + y)),
            ),
            variables,
        ),
{
    lemma_operand_of_literal(left_span, Value::Int(x), variables, cx, depth);
    lemma_operand_of_literal(right_span, Value::Int(y), variables, cx, depth);
    reveal_with_fuel(evaluated, 2);
    reveal_with_fuel(evaluated_binary, 2);
    reveal_with_fuel(operand, 2);
}

/// A conditional is what one of its branches is, evaluated after the
/// condition: the first branch where the condition is true, the second where
/// it is false. The other branch is not evaluated.
pub proof fn law_conditional_evaluates_one_branch(
    span: Span,
    cond: Spanned<ExprModel>,
    first: Spanned<ExprModel>,
    second: Spanned<ExprModel>,
    variables: Seq<(Seq<char>, Value)>,
    cx: Context,
    depth: nat,
)
    requires
        operand(cond, variables, cx, depth).0 is Ok,
    ensures
        ({
            let (c, after) = operand(cond, variables, cx, depth);
            evaluated(conditional(span, cond, first, second), variables, cx, depth) == if c->Ok_0.promoted(
                ValueType::Boolean,
            ) == Value::Boolean(true) {
                evaluated(first, after, cx, depth)
            } else {
                evaluated(second, after, cx, depth)
            }
        }),
{
    reveal_with_fuel(evaluated, 2);
    reveal_with_fuel(evaluated_binary, 2);
    reveal_with_fuel(operand, 2);
}

/// Evaluation keeps every variable in its slot, under its name and with its
/// type, and binds no name twice. Where it ends in the slot of a variable, the
/// slot is one of the variables it leaves.
pub proof fn law_variables_persist(
    e: Spanned<ExprModel>,
    variables: Seq<(Seq<char>, Value)>,
    cx: Context,
    depth: nat,
)
    requires
        distinct_names(variables),
    ensures
        persists(variables, evaluated(e, variables, cx, depth).variables),
        distinct_names(evaluated(e, variables, cx, depth).variables),
        evaluated(e, variables, cx, depth).result matches Ok(EvalResult::Ref(slot)) ==> slot
            < evaluated(e, variables, cx, depth).variables.len(),
    decreases depth, e, 2int,
{
    match e.data {
        ExprModel::Macro(s) => {
            if index_of(cx.macros, s) is Some && depth > 0 {
                law_variables_persist(
                    cx.macros[index_of(cx.macros, s)->Some_0].1,
                    variables,
                    cx,
                    (depth - 1) as nat,
                );
            }
        },
        ExprModel::Unary { op, rhs } => {
            lemma_operand_persists(*rhs, variables, cx, depth);
        },
        ExprModel::Binary { op, lhs, rhs } => {
            lemma_binary_persists(e, variables, cx, depth);
        },
        ExprModel::Ternary { cond, statement1, statement2 } => {
            lemma_operand_persists(*cond, variables, cx, depth);
            let after = operand(*cond, variables, cx, depth).1;
            law_variables_persist(*statement1, after, cx, depth);
            law_variables_persist(*statement2, after, cx, depth);
        },
        ExprModel::Call { func, args } => {
            lemma_arguments_persist(args, 0, variables, Seq::empty(), cx, depth);
        },
        ExprModel::Comma { exprs } => {
            if exprs.len() > 0 {
                lemma_sequence_persists(exprs, 0, variables, cx, depth);
            }
        },
        _ => {},
    }
}

proof fn lemma_operand_persists(
    e: Spanned<ExprModel>,
    variables: Seq<(Seq<char>, Value)>,
    cx: Context,
    depth: nat,
)
    requires
        distinct_names(variables),
    ensures
        persists(variables, operand(e, variables, cx, depth).1),
        distinct_names(operand(e, variables, cx, depth).1),
    decreases depth, e, 3int,
{
    law_variables_persist(e, variables, cx, depth);
}

proof fn lemma_arguments_persist(
    args: Seq<Spanned<ExprModel>>,
    i: int,
    variables: Seq<(Seq<char>, Value)>,
    acc: Seq<Value>,
    cx: Context,
    depth: nat,
)
    requires
        distinct_names(variables),
    ensures
        persists(variables, arguments(args, i, variables, acc, cx, depth).1),
        distinct_names(arguments(args, i, variables, acc, cx, depth).1),
    decreases depth, args, args.len() - i,
{
    if 0 <= i < args.len() {
        lemma_operand_persists(args[i], variables, cx, depth);
        let (v, after) = operand(args[i], variables, cx, depth);
        if v is Ok {
            lemma_arguments_persist(args, i + 1, after, acc.push(v->Ok_0), cx, depth);
        }
    }
}

proof fn lemma_sequence_persists(
    exprs: Seq<Spanned<ExprModel>>,
    i: int,
    variables: Seq<(Seq<char>, Value)>,
    cx: Context,
    depth: nat,
)
    requires
        distinct_names(variables),
        0 <= i < exprs.len(),
    ensures
        persists(variables, sequence(exprs, i, variables, cx, depth).variables),
        distinct_names(sequence(exprs, i, variables, cx, depth).variables),
        sequence(exprs, i, variables, cx, depth).result matches Ok(EvalResult::Ref(slot)) ==> slot
            < sequence(exprs, i, variables, cx, depth).variables.len(),
    decreases depth, exprs, exprs.len() - i,
{
    law_variables_persist(exprs[i], variables, cx, depth);
    if i < exprs.len() - 1 && evaluated(exprs[i], variables, cx, depth).result is Ok {
        lemma_sequence_persists(
            exprs,
            i + 1,
            evaluated(exprs[i], variables, cx, depth).variables,
            cx,
            depth,
        );
    }
}

/// Storing in a slot keeps every variable in its slot, under its name and
/// with its type.
proof fn lemma_stored_persists(
    node_span: Span,
    across: Span,
    b: BinaryOp,
    i: int,
    variables: Seq<(Seq<char>, Value)>,
    r: Value,
    cx: Context,
)
    requires
        distinct_names(variables),
        0 <= i < variables.len(),
    ensures
        persists(variables, stored(node_span, across, b, i, variables, r, cx).variables),
        distinct_names(stored(node_span, across, b, i, variables, r, cx).variables),
{
    let after = stored(node_span, across, b, i, variables, r, cx).variables;
    assert forall|j: int, k: int| 0 <= j < k < after.len() implies (#[trigger] after[j]).0 != (
    #[trigger] after[k]).0 by {
        assert(variables[j].0 != variables[k].0);
    }
}

proof fn lemma_binary_persists(
    e: Spanned<ExprModel>,
    variables: Seq<(Seq<char>, Value)>,
    cx: Context,
    depth: nat,
)
    requires
        distinct_names(variables),
    ensures
        persists(variables, evaluated_binary(e, variables, cx, depth).variables),
        distinct_names(evaluated_binary(e, variables, cx, depth).variables),
        !(evaluated_binary(e, variables, cx, depth).result matches Ok(EvalResult::Ref(_))),
    decreases depth, e, 1int,
{
    match e.data {
        ExprModel::Binary { op, lhs, rhs } => {
            let across = Span { start: lhs.span.start, end: rhs.span.end };
            match op {
                Operator::Binary(b) => {
                    if b.assigns() {
                        lemma_operand_persists(*rhs, variables, cx, depth);
                        let (r, after) = operand(*rhs, variables, cx, depth);
                        if r is Ok {
                            match lhs.data {
                                ExprModel::Identifier(name) => {
                                    if b == BinaryOp::Assign {
                                        let (i, with_slot) = slot_to_assign(
                                            after,
                                            name,
                                            Value::zero_of(r->Ok_0.type_of()),
                                        );
                                        assert(distinct_names(with_slot)) by {
                                            if index_of(after, name) is None {
                                                assert forall|j: int, k: int|
                                                    0 <= j < k < with_slot.len() implies (
                                                #[trigger] with_slot[j]).0 != (
                                                #[trigger] with_slot[k]).0 by {
                                                    if k < after.len() {
                                                        assert(after[j].0 != after[k].0);
                                                    } else {
                                                        assert(after[j].0 != name);
                                                    }
                                                }
                                            }
                                        }
                                        lemma_stored_persists(
                                            e.span,
                                            across,
                                            b,
                                            i,
                                            with_slot,
                                            r->Ok_0,
                                            cx,
                                        );
                                    } else if index_of(after, name) is Some {
                                        lemma_stored_persists(
                                            e.span,
                                            across,
                                            b,
                                            index_of(after, name)->Some_0,
                                            after,
                                            r->Ok_0,
                                            cx,
                                        );
                                    }
                                },
                                _ => {},
                            }
                        }
                    } else {
                        lemma_operand_persists(*lhs, variables, cx, depth);
                        let (l, after_left) = operand(*lhs, variables, cx, depth);
                        if l is Ok {
                            lemma_operand_persists(*rhs, after_left, cx, depth);
                        }
                    }
                },
                _ => {
                    lemma_operand_persists(*lhs, variables, cx, depth);
                    let (l, after_left) = operand(*lhs, variables, cx, depth);
                    if l is Ok {
                        lemma_operand_persists(*rhs, after_left, cx, depth);
                    }
                },
            }
        },
        _ => {},
    }
}

} // verus!
