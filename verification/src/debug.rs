//! Expressions and tokens as text: an expression as it is written in source,
//! an expression as a tree of lines, and tokens as a listing.

use crate::error::eval_error::value_shown;
use crate::error::names::{operator_name, push_operator_name, value_type_name};
use crate::evaluater::is_assign;
use crate::operator::operator::{BinaryOp, Operator};
use crate::parser::{
    expr_models, lemma_list_models, Expr, ExprModel, COMMA_BP, IMPLICIT_MUL_BP, PREFIX_BP,
};
use crate::span::{Span, Spanned};
use crate::text::{decimal_text, push_decimal};
use crate::lexer::token_models;
use crate::token::{operator_binding_power, operator_lbp, token_text, Token, TokenModel};
use crate::value::{literal_text, writes_floats, writes_text, Value};
use vstd::prelude::*;

verus! {

/// The threshold with which the callee of a call is written: above every
/// binding power, so that a callee with an operator is put in parentheses.
pub const CALLEE_PRECEDENCE: u32 = u32::MAX;

/// The binding power of a conditional.
pub const CONDITIONAL_PRECEDENCE: u32 = 5;

/// `text` in parentheses if `wrap` holds, else `text`.
pub open spec fn parenthesized(text: Seq<char>, wrap: bool) -> Seq<char> {
    if wrap {
        seq!['('] + text + seq![')']
    } else {
        text
    }
}

/// Whether the operator takes its right operand first: `**` and the
/// assignments.
pub open spec fn associates_right(op: Operator) -> bool {
    op matches Operator::Binary(b) && (b == BinaryOp::Exponentiation || b.assigns())
}

/// How tightly the top of an expression binds: a literal, a name and a call
/// above everything, a prefix operator as its operand is parsed, a binary
/// operator by its binding power, and a conditional and a comma sequence by theirs.
pub open spec fn precedence(e: ExprModel) -> u32 {
    match e {
        ExprModel::Unary { .. } => PREFIX_BP,
        ExprModel::Binary { op, .. } => operator_binding_power(op),
        ExprModel::Ternary { .. } => CONDITIONAL_PRECEDENCE,
        ExprModel::Comma { .. } => COMMA_BP,
        _ => CALLEE_PRECEDENCE,
    }
}

/// The threshold under which the left operand of a binary operator is written.
pub open spec fn left_parent(op: Operator) -> u32 {
    if associates_right(op) {
        (operator_binding_power(op) + 1) as u32
    } else {
        operator_binding_power(op)
    }
}

/// The threshold under which the right operand of a binary operator is written.
pub open spec fn right_parent(op: Operator) -> u32 {
    if associates_right(op) {
        operator_binding_power(op)
    } else {
        (operator_binding_power(op) + 1) as u32
    }
}

/// Whether a multiplication is written without its operator, the left
/// operand in parentheses and the right one behind it: where the right
/// operand starts with the call of something that is no name, which is read
/// as a call only behind a juxtaposition, a prefix operator or `**`.
pub open spec fn juxtaposed(e: Spanned<ExprModel>) -> bool
    decreases e, 0int,
{
    match e.data {
        ExprModel::Binary { op, lhs, rhs } => op == Operator::Binary(BinaryOp::Multiplication)
            && precedence(rhs.data) > IMPLICIT_MUL_BP && leads_with_call(*rhs),
        _ => false,
    }
}

/// Whether the expression, written without parentheses around it, starts
/// with the call of something that is no name: `3(4)`, `3(4) ** 2`,
/// `f(1)(2)`. Such a text is read as a product where products are read.
pub open spec fn leads_with_call(e: Spanned<ExprModel>) -> bool
    decreases e, 1int,
{
    match e.data {
        ExprModel::Call { func, .. } => !(func.data is Identifier),
        ExprModel::Binary { op, lhs, rhs } => !juxtaposed(e) && precedence(lhs.data)
            >= left_parent(op) && leads_with_call(*lhs),
        ExprModel::Ternary { cond, .. } => precedence(cond.data) >= CONDITIONAL_PRECEDENCE + 1
            && leads_with_call(*cond),
        ExprModel::Comma { exprs } => exprs.len() > 0 && precedence(exprs[0].data) >= COMMA_BP + 1
            && leads_with_call(exprs[0]),
        _ => false,
    }
}

/// Whether the expression holds a float literal.
pub open spec fn holds_float(e: Spanned<ExprModel>) -> bool
    decreases e,
{
    match e.data {
        ExprModel::Value(v) => v is Float,
        ExprModel::Identifier(_) | ExprModel::Macro(_) => false,
        ExprModel::Unary { op, rhs } => holds_float(*rhs),
        ExprModel::Binary { op, lhs, rhs } => holds_float(*lhs) || holds_float(*rhs),
        ExprModel::Ternary { cond, statement1, statement2 } => holds_float(*cond) || holds_float(
            *statement1,
        ) || holds_float(*statement2),
        ExprModel::Comma { exprs } => exists|i: int|
            0 <= i < exprs.len() && holds_float(#[trigger] exprs[i]),
        ExprModel::Call { func, args } => holds_float(*func) || exists|i: int|
            0 <= i < args.len() && holds_float(#[trigger] args[i]),
    }
}

/// Whether one of the expressions holds a float literal.
pub open spec fn holds_floats(exprs: Seq<Spanned<ExprModel>>) -> bool {
    exists|i: int| 0 <= i < exprs.len() && holds_float(#[trigger] exprs[i])
}

/// The text of an expression that stands where only what binds at least as
/// tightly as `parent` can stand without parentheses.
///
/// Operators stand between spaces, a prefix operator before a space, a macro
/// in braces, and the arguments of a call and the members of a sequence are
/// separated by a comma and a space. An operand is written so that it is
/// read as the same operand again: the left operand of an operator that
/// associates to the left, and the right operand of one that associates to
/// the right, may bind as tightly as the operator, the other one must bind
/// tighter. A multiplication whose right operand starts with the call of
/// something that is no name is written as a juxtaposition, `(2) 3(4)`.
pub open spec fn text_of(
    e: Spanned<ExprModel>,
    parent: u32,
    float_text: spec_fn(u64) -> Seq<char>,
) -> Seq<char>
    decreases e, 0int,
{
    parenthesized(
        match e.data {
            ExprModel::Value(v) => literal_text(v, float_text),
            ExprModel::Identifier(name) => name,
            ExprModel::Macro(name) => seq!['{'] + name + seq!['}'],
            ExprModel::Unary { op, rhs } => op.text() + seq![' '] + text_of(
                *rhs,
                (PREFIX_BP + 1) as u32,
                float_text,
            ),
            ExprModel::Binary { op, lhs, rhs } => if juxtaposed(e) {
                seq!['('] + text_of(*lhs, 0, float_text) + seq![')'] + seq![' '] + text_of(
                    *rhs,
                    (IMPLICIT_MUL_BP + 1) as u32,
                    float_text,
                )
            } else {
                text_of(*lhs, left_parent(op), float_text) + seq![' '] + op.text() + seq![' ']
                    + text_of(*rhs, right_parent(op), float_text)
            },
            ExprModel::Comma { exprs } => list_text(exprs, 0, (COMMA_BP + 1) as u32, float_text),
            ExprModel::Ternary { cond, statement1, statement2 } => text_of(
                *cond,
                (CONDITIONAL_PRECEDENCE + 1) as u32,
                float_text,
            ) + " ? "@ + text_of(*statement1, 0, float_text) + " : "@ + text_of(
                *statement2,
                CONDITIONAL_PRECEDENCE,
                float_text,
            ),
            ExprModel::Call { func, args } => text_of(*func, CALLEE_PRECEDENCE, float_text)
                + seq!['('] + list_text(args, 0, (COMMA_BP + 1) as u32, float_text) + seq![')'],
        },
        precedence(e.data) < parent,
    )
}

/// The texts of the expressions from the `i`-th on, each written under
/// `parent`, with `, ` between them.
pub open spec fn list_text(
    exprs: Seq<Spanned<ExprModel>>,
    i: int,
    parent: u32,
    float_text: spec_fn(u64) -> Seq<char>,
) -> Seq<char>
    decreases exprs, exprs.len() - i,
{
    if i < 0 || i >= exprs.len() {
        Seq::empty()
    } else if i == exprs.len() - 1 {
        text_of(exprs[i], parent, float_text)
    } else {
        text_of(exprs[i], parent, float_text) + ", "@ + list_text(
            exprs,
            i + 1,
            parent,
            float_text,
        )
    }
}

/// Appends the texts of the expressions from the `i`-th on to `out`.
fn write_list<F: Fn(u64) -> String>(
    out: &mut String,
    exprs: &Vec<Spanned<Expr>>,
    i: usize,
    parent: u32,
    float_text: &F,
)
    requires
        forall|bits: u64| call_requires(float_text, (bits,)),
    ensures
        forall|ft: spec_fn(u64) -> Seq<char>| #[trigger]
            writes_text(float_text, ft, holds_floats(expr_models(exprs@))) ==> final(out)@ == old(
                out,
            )@ + list_text(expr_models(exprs@), i as int, parent, ft),
    decreases exprs, exprs@.len() - i,
{
    if i >= exprs.len() {
        proof {
            assert(out@ =~= old(out)@ + Seq::<char>::empty());
        }
        return ;
    }
    write_expr(out, &exprs[i], parent, float_text);
    let ghost one = out@;
    if i + 1 < exprs.len() {
        out.append(", ");
        write_list(out, exprs, i + 1, parent, float_text);
    }
    proof {
        assert forall|ft: spec_fn(u64) -> Seq<char>| #[trigger]
            writes_text(float_text, ft, holds_floats(expr_models(exprs@))) implies out@ == old(
            out,
        )@ + list_text(expr_models(exprs@), i as int, parent, ft) by {
            let models = expr_models(exprs@);
            assert(models[i as int] == exprs@[i as int]@);
            assert(writes_text(float_text, ft, holds_float(exprs@[i as int]@)));
            if i + 1 < exprs.len() {
                let head = text_of(models[i as int], parent, ft);
                let tail = list_text(models, i + 1, parent, ft);
                assert(out@ =~= old(out)@ + (head + ", "@ + tail));
            }
        }
    }
}

fn is_name(e: &Spanned<Expr>) -> (r: bool)
    ensures
        r == (e@.data is Identifier),
{
    match &e.data {
        Expr::Identifier(_) => true,
        _ => false,
    }
}

/// Whether a multiplication with this right operand is written as a
/// juxtaposition.
fn is_juxtaposed(op: Operator, rhs: &Spanned<Expr>) -> (r: bool)
    ensures
        r == (op == Operator::Binary(BinaryOp::Multiplication) && precedence(rhs@.data)
            > IMPLICIT_MUL_BP && leads_with_call(rhs@)),
    decreases rhs, 2int,
{
    match op {
        Operator::Binary(BinaryOp::Multiplication) => precedence_of(&rhs.data) > IMPLICIT_MUL_BP
            && starts_with_call(rhs),
        _ => false,
    }
}

/// Whether the expression, written without parentheses around it, starts
/// with the call of something that is no name.
fn starts_with_call(e: &Spanned<Expr>) -> (r: bool)
    ensures
        r == leads_with_call(e@),
    decreases e, 1int,
{
    match &e.data {
        Expr::Call { func, args } => {
            proof {
                lemma_list_models(*args, *func);
            }
            !is_name(func)
        },
        Expr::Binary { op, lhs, rhs } => {
            let prec = operator_lbp(*op);
            let left_parent = if binds_right(*op) { prec + 1 } else { prec };
            let side_by_side = is_juxtaposed(*op, rhs);
            assert(side_by_side == juxtaposed(e@));
            let r = !side_by_side && precedence_of(&lhs.data) >= left_parent && starts_with_call(
                lhs,
            );
            assert(r == leads_with_call(e@));
            r
        },
        Expr::Ternary { cond, .. } => {
            let r = precedence_of(&cond.data) >= CONDITIONAL_PRECEDENCE + 1 && starts_with_call(
                cond,
            );
            assert(r == leads_with_call(e@));
            r
        },
        Expr::Comma { exprs } => {
            proof {
                lemma_list_models(*exprs, arbitrary());
            }
            let r = exprs.len() > 0 && precedence_of(&exprs[0].data) >= COMMA_BP + 1
                && starts_with_call(&exprs[0]);
            assert(r == leads_with_call(e@));
            r
        },
        _ => false,
    }
}

fn binds_right(op: Operator) -> (r: bool)
    ensures
        r == associates_right(op),
{
    match op {
        Operator::Binary(BinaryOp::Exponentiation) => true,
        _ => is_assign(op),
    }
}

fn precedence_of(e: &Expr) -> (r: u32)
    ensures
        r == precedence(e@),
{
    match e {
        Expr::Unary { .. } => PREFIX_BP,
        Expr::Binary { op, .. } => operator_lbp(*op),
        Expr::Ternary { .. } => CONDITIONAL_PRECEDENCE,
        Expr::Comma { .. } => COMMA_BP,
        _ => CALLEE_PRECEDENCE,
    }
}

/// Appends the text of a binary operation, without parentheses around it.
fn write_binary<F: Fn(u64) -> String>(out: &mut String, e: &Spanned<Expr>, float_text: &F)
    requires
        e@.data is Binary,
        forall|bits: u64| call_requires(float_text, (bits,)),
    ensures
        forall|ft: spec_fn(u64) -> Seq<char>| #[trigger]
            writes_text(float_text, ft, holds_float(e@)) ==> final(out)@ == old(out)@ + text_of(
                e@,
                0,
                ft,
            ),
    decreases e, 0int,
{
    let ghost start = out@;
    match &e.data {
        Expr::Binary { op, lhs, rhs } => {
            if is_juxtaposed(*op, rhs) {
                out.push('(');
                write_expr(out, lhs, 0, float_text);
                out.push(')');
                out.push(' ');
                write_expr(out, rhs, IMPLICIT_MUL_BP + 1, float_text);
                proof {
                    assert forall|ft: spec_fn(u64) -> Seq<char>| #[trigger]
                        writes_text(float_text, ft, holds_float(e@)) implies out@ == start + (
                    seq!['('] + text_of(lhs@, 0, ft) + seq![')'] + seq![' '] + text_of(
                        rhs@,
                        (IMPLICIT_MUL_BP + 1) as u32,
                        ft,
                    )) by {
                        let l = text_of(lhs@, 0, ft);
                        let r = text_of(rhs@, (IMPLICIT_MUL_BP + 1) as u32, ft);
                        assert(writes_text(float_text, ft, holds_float(lhs@)));
                        assert(writes_text(float_text, ft, holds_float(rhs@)));
                        assert(out@ =~= start + (seq!['('] + l + seq![')'] + seq![' '] + r));
                    }
                }
            } else {
                let prec = operator_lbp(*op);
                let right = binds_right(*op);
                let left_parent = if right { prec + 1 } else { prec };
                let right_parent = if right { prec } else { prec + 1 };
                write_expr(out, lhs, left_parent, float_text);
                out.push(' ');
                out.append(op.symbol());
                out.push(' ');
                write_expr(out, rhs, right_parent, float_text);
                proof {
                    assert forall|ft: spec_fn(u64) -> Seq<char>| #[trigger]
                        writes_text(float_text, ft, holds_float(e@)) implies out@ == start + (
                    text_of(lhs@, left_parent, ft) + seq![' '] + op.text() + seq![' '] + text_of(
                        rhs@,
                        right_parent,
                        ft,
                    )) by {
                        let l = text_of(lhs@, left_parent, ft);
                        let r = text_of(rhs@, right_parent, ft);
                        assert(writes_text(float_text, ft, holds_float(lhs@)));
                        assert(writes_text(float_text, ft, holds_float(rhs@)));
                        assert(out@ =~= start + (l + seq![' '] + op.text() + seq![' '] + r));
                    }
                }
            }
        },
        _ => {},
    }
}

/// Appends the text of an expression to `out`, in parentheses where it binds
/// less tightly than `parent`.
fn write_expr<F: Fn(u64) -> String>(
    out: &mut String,
    e: &Spanned<Expr>,
    parent: u32,
    float_text: &F,
)
    requires
        forall|bits: u64| call_requires(float_text, (bits,)),
    ensures
        forall|ft: spec_fn(u64) -> Seq<char>| #[trigger]
            writes_text(float_text, ft, holds_float(e@)) ==> final(out)@ == old(out)@ + text_of(
                e@,
                parent,
                ft,
            ),
    decreases e, 1int,
{
    let wrap = precedence_of(&e.data) < parent;
    if wrap {
        out.push('(');
    }
    let ghost start = out@;
    match &e.data {
        Expr::Value(v) => {
            let s = v.literal(float_text);
            out.append(s.as_str());
        },
        Expr::Identifier(name) => {
            out.append(name.as_str());
        },
        Expr::Macro(name) => {
            out.push('{');
            out.append(name.as_str());
            out.push('}');
            proof {
                assert(out@ =~= start + (seq!['{'] + name@ + seq!['}']));
            }
        },
        Expr::Unary { op, rhs } => {
            out.append(op.symbol());
            out.push(' ');
            write_expr(out, rhs, PREFIX_BP + 1, float_text);
            proof {
                assert forall|ft: spec_fn(u64) -> Seq<char>| #[trigger]
                    writes_text(float_text, ft, holds_float(e@)) implies out@ == start + (op.text() + seq![' ']
                    + text_of(rhs@, (PREFIX_BP + 1) as u32, ft)) by {
                    let inner = text_of(rhs@, (PREFIX_BP + 1) as u32, ft);
                    assert(writes_text(float_text, ft, holds_float(rhs@)));
                    assert(out@ =~= start + (op.text() + seq![' '] + inner));
                }
            }
        },
        Expr::Binary { .. } => {
            write_binary(out, e, float_text);
        },
        Expr::Comma { exprs } => {
            proof {
                lemma_list_models(*exprs, arbitrary());
            }
            write_list(out, exprs, 0, COMMA_BP + 1, float_text);
            proof {
                assert forall|ft: spec_fn(u64) -> Seq<char>| #[trigger]
                    writes_text(float_text, ft, holds_float(e@)) implies out@ == start
                    + list_text(expr_models(exprs@), 0, (COMMA_BP + 1) as u32, ft) by {
                    let models = expr_models(exprs@);
                    if holds_floats(models) {
                        let k = choose|k: int| 0 <= k < models.len() && holds_float(models[k]);
                        assert(holds_float(e@.data->Comma_exprs[k]));
                    }
                    assert(writes_text(float_text, ft, holds_floats(models)));
                }
            }
        },
        Expr::Ternary { cond, statement1, statement2 } => {
            write_expr(out, cond, CONDITIONAL_PRECEDENCE + 1, float_text);
            out.append(" ? ");
            write_expr(out, statement1, 0, float_text);
            out.append(" : ");
            write_expr(out, statement2, CONDITIONAL_PRECEDENCE, float_text);
            proof {
                assert forall|ft: spec_fn(u64) -> Seq<char>| #[trigger]
                    writes_text(float_text, ft, holds_float(e@)) implies out@ == start + (text_of(
                    cond@,
                    (CONDITIONAL_PRECEDENCE + 1) as u32,
                    ft,
                ) + " ? "@ + text_of(statement1@, 0, ft) + " : "@ + text_of(
                    statement2@,
                    CONDITIONAL_PRECEDENCE,
                    ft,
                )) by {
                    assert(writes_text(float_text, ft, holds_float(cond@)));
                    assert(writes_text(float_text, ft, holds_float(statement1@)));
                    assert(writes_text(float_text, ft, holds_float(statement2@)));
                    let inner = text_of(cond@, (CONDITIONAL_PRECEDENCE + 1) as u32, ft) + " ? "@
                        + text_of(statement1@, 0, ft) + " : "@ + text_of(
                        statement2@,
                        CONDITIONAL_PRECEDENCE,
                        ft,
                    );
                    assert(out@ =~= start + inner);
                }
            }
        },
        Expr::Call { func, args } => {
            proof {
                lemma_list_models(*args, *func);
            }
            write_expr(out, func, CALLEE_PRECEDENCE, float_text);
            out.push('(');
            write_list(out, args, 0, COMMA_BP + 1, float_text);
            out.push(')');
            proof {
                assert forall|ft: spec_fn(u64) -> Seq<char>| #[trigger]
                    writes_text(float_text, ft, holds_float(e@)) implies out@ == start + (text_of(
                    func@,
                    CALLEE_PRECEDENCE,
                    ft,
                ) + seq!['('] + list_text(expr_models(args@), 0, (COMMA_BP + 1) as u32, ft)
                    + seq![')']) by {
                    assert(writes_text(float_text, ft, holds_float(func@)));
                    let models = expr_models(args@);
                    if holds_floats(models) {
                        let k = choose|k: int| 0 <= k < models.len() && holds_float(models[k]);
                        assert(holds_float(e@.data->Call_args[k]));
                    }
                    assert(writes_text(float_text, ft, holds_floats(models)));
                    let f = text_of(func@, CALLEE_PRECEDENCE, ft);
                    let a = list_text(expr_models(args@), 0, (COMMA_BP + 1) as u32, ft);
                    assert(out@ =~= start + (f + seq!['('] + a + seq![')']));
                }
            }
        },
    }
    let ghost body_end = out@;
    if wrap {
        out.push(')');
    }
    proof {
        assert forall|ft: spec_fn(u64) -> Seq<char>| #[trigger]
            writes_text(float_text, ft, holds_float(e@)) implies out@ == old(out)@ + text_of(e@, parent, ft) by {
            let whole = text_of(e@, parent, ft);
            if wrap {
                let body = body_end.subrange(start.len() as int, body_end.len() as int);
                assert(body_end =~= start + body);
                assert(whole =~= seq!['('] + body + seq![')']);
                assert(out@ =~= old(out)@ + whole);
            } else {
                assert(out@ =~= old(out)@ + whole);
            }
        }
    }
}

/// The text of an expression, with `float_text` writing the floats.
///
/// Operators stand between spaces, and parentheses are written where an
/// operand would else be read as part of another operand.
pub fn expr_to_text<F: Fn(u64) -> String>(expr: &Spanned<Expr>, float_text: &F) -> (r: String)
    requires
        forall|bits: u64| call_requires(float_text, (bits,)),
    ensures
        !holds_float(expr@) ==> forall|ft: spec_fn(u64) -> Seq<char>|
            r@ == #[trigger] text_of(expr@, 0, ft),
        forall|ft: spec_fn(u64) -> Seq<char>| #[trigger]
            writes_floats(float_text, ft) ==> r@ == text_of(expr@, 0, ft),
{
    let mut out = String::new();
    write_expr(&mut out, expr, 0, float_text);
    proof {
        assert forall|ft: spec_fn(u64) -> Seq<char>| #[trigger]
            writes_text(float_text, ft, holds_float(expr@)) implies out@ == text_of(
            expr@,
            0,
            ft,
        ) by {
            assert(Seq::<char>::empty() + text_of(expr@, 0, ft) =~= text_of(expr@, 0, ft));
        }
        assert forall|ft: spec_fn(u64) -> Seq<char>| #[trigger]
            writes_floats(float_text, ft) implies out@ == text_of(expr@, 0, ft) by {
            assert(writes_text(float_text, ft, holds_float(expr@)));
        }
        if !holds_float(expr@) {
            assert forall|ft: spec_fn(u64) -> Seq<char>|
                out@ == #[trigger] text_of(expr@, 0, ft) by {
                assert(writes_text(float_text, ft, holds_float(expr@)));
            }
        }
    }
    out
}

/// `n` times two spaces.
pub open spec fn padding(n: nat) -> Seq<char> {
    Seq::new(2 * n, |i: int| ' ')
}

/// The position of a span as it is shown: its first and its last byte, the
/// last being `end - 1`, or 0 for a span that ends at 0.
pub open spec fn position_text(span: Span) -> Seq<char> {
    decimal_text(span.start as nat) + ".."@ + decimal_text(
        if span.end == 0 {
            0
        } else {
            (span.end - 1) as nat
        },
    )
}

/// The indentation `k` levels below `indent`, as far as it can be counted.
pub open spec fn deeper(indent: usize, k: usize) -> usize {
    if indent + k > usize::MAX {
        usize::MAX
    } else {
        (indent + k) as usize
    }
}

/// The tree of an expression as lines of text, indented by `indent` levels:
/// each node on a line with its position, and its children below it, two
/// levels deeper, under the names of their roles.
pub open spec fn tree_text(
    e: Spanned<ExprModel>,
    indent: usize,
    ft: spec_fn(u64) -> Seq<char>,
) -> Seq<char>
    decreases e, 0int,
{
    let pad = padding(indent as nat);
    let at = " @ "@ + position_text(e.span) + seq!['\n'];
    match e.data {
        ExprModel::Value(v) => pad + "Value "@ + value_shown(v, ft) + at,
        ExprModel::Identifier(s) => pad + "Identifier \""@ + s + seq!['"'] + at,
        ExprModel::Macro(s) => pad + "Macro \""@ + s + seq!['"'] + at,
        ExprModel::Binary { op, lhs, rhs } => pad + operator_name(op) + at + pad + "  lhs:\n"@
            + tree_text(*lhs, deeper(indent, 2), ft) + pad + "  rhs:\n"@ + tree_text(
            *rhs,
            deeper(indent, 2),
            ft,
        ),
        ExprModel::Unary { op, rhs } => pad + operator_name(op) + at + pad + "  rhs:\n"@
            + tree_text(*rhs, deeper(indent, 2), ft),
        ExprModel::Ternary { cond, statement1, statement2 } => pad + "@ "@ + position_text(e.span)
            + seq!['\n'] + pad + "  cond:\n"@ + tree_text(*cond, deeper(indent, 2), ft) + pad
            + "  then:\n"@ + tree_text(*statement1, deeper(indent, 2), ft) + pad + "  else:\n"@
            + tree_text(*statement2, deeper(indent, 2), ft),
        ExprModel::Call { func, args } => pad + "Call"@ + at + pad + "  func:\n"@ + tree_text(
            *func,
            deeper(indent, 2),
            ft,
        ) + pad + "  args ("@ + decimal_text(args.len()) + "):\n"@ + items_text(
            args,
            0,
            indent,
            ft,
        ),
        ExprModel::Comma { exprs } => pad + "Comma Operator"@ + at + pad + "  statements:\n"@
            + items_text(exprs, 0, indent, ft),
    }
}

/// The trees of the expressions from the `i`-th on, each under its number.
pub open spec fn items_text(
    exprs: Seq<Spanned<ExprModel>>,
    i: int,
    indent: usize,
    ft: spec_fn(u64) -> Seq<char>,
) -> Seq<char>
    decreases exprs, exprs.len() - i,
{
    if i < 0 || i >= exprs.len() {
        Seq::empty()
    } else {
        padding(indent as nat) + "    ["@ + decimal_text(i as nat) + "]:\n"@ + tree_text(
            exprs[i],
            deeper(indent, 3),
            ft,
        ) + items_text(exprs, i + 1, indent, ft)
    }
}

fn push_padding(out: &mut String, indent: usize)
    ensures
        final(out)@ == old(out)@ + padding(indent as nat),
{
    let mut i: usize = 0;
    proof {
        assert(out@ =~= old(out)@ + padding(0));
    }
    while i < indent
        invariant
            i <= indent,
            out@ == old(out)@ + padding(i as nat),
        decreases indent - i,
    {
        out.push(' ');
        out.push(' ');
        i = i + 1;
        proof {
            assert(out@ =~= old(out)@ + padding(i as nat));
        }
    }
}

fn push_position(out: &mut String, span: Span)
    ensures
        final(out)@ == old(out)@ + position_text(span),
{
    push_decimal(out, span.start as u64);
    out.append("..");
    let last = if span.end == 0 { 0 } else { span.end - 1 };
    push_decimal(out, last as u64);
    proof {
        assert(out@ =~= old(out)@ + position_text(span));
    }
}

fn push_at(out: &mut String, span: Span)
    ensures
        final(out)@ == old(out)@ + (" @ "@ + position_text(span) + seq!['\n']),
{
    out.append(" @ ");
    push_position(out, span);
    out.push('\n');
    proof {
        assert(out@ =~= old(out)@ + (" @ "@ + position_text(span) + seq!['\n']));
    }
}

fn one_deeper(indent: usize, k: usize) -> (r: usize)
    ensures
        r == deeper(indent, k),
{
    if indent > usize::MAX - k {
        usize::MAX
    } else {
        indent + k
    }
}

fn push_items<F: Fn(u64) -> String>(
    out: &mut String,
    exprs: &Vec<Spanned<Expr>>,
    i: usize,
    indent: usize,
    float_text: &F,
)
    requires
        forall|bits: u64| call_requires(float_text, (bits,)),
    ensures
        forall|ft: spec_fn(u64) -> Seq<char>| #[trigger]
            writes_text(float_text, ft, holds_floats(expr_models(exprs@))) ==> final(out)@ == old(out)@ + items_text(
                expr_models(exprs@),
                i as int,
                indent,
                ft,
            ),
    decreases exprs, exprs@.len() - i,
{
    if i >= exprs.len() {
        proof {
            assert(out@ =~= old(out)@ + Seq::<char>::empty());
        }
        return ;
    }
    push_padding(out, indent);
    out.append("    [");
    push_decimal(out, i as u64);
    out.append("]:\n");
    let ghost head = out@;
    push_tree(out, &exprs[i], one_deeper(indent, 3), float_text);
    push_items(out, exprs, i + 1, indent, float_text);
    proof {
        assert forall|ft: spec_fn(u64) -> Seq<char>| #[trigger]
            writes_text(float_text, ft, holds_floats(expr_models(exprs@))) implies out@ == old(out)@ + items_text(
            expr_models(exprs@),
            i as int,
            indent,
            ft,
        ) by {
            let models = expr_models(exprs@);
            assert(models[i as int] == exprs@[i as int]@);
            assert(holds_float(models[i as int]) ==> holds_floats(models));
            assert(writes_text(float_text, ft, holds_float(exprs@[i as int]@)));
            let label = padding(indent as nat) + "    ["@ + decimal_text(i as nat) + "]:\n"@;
            assert(head =~= old(out)@ + label);
            let tree = tree_text(models[i as int], deeper(indent, 3), ft);
            let rest = items_text(models, i + 1, indent, ft);
            assert(out@ =~= old(out)@ + (label + tree + rest));
        }
    }
}

/// Appends a label, indented by `indent` levels, and below it the tree of
/// `child`, two levels deeper.
fn push_labelled<F: Fn(u64) -> String>(
    out: &mut String,
    indent: usize,
    label: &str,
    child: &Spanned<Expr>,
    float_text: &F,
)
    requires
        forall|bits: u64| call_requires(float_text, (bits,)),
    ensures
        forall|ft: spec_fn(u64) -> Seq<char>| #[trigger]
            writes_text(float_text, ft, holds_float(child@)) ==> final(out)@ == old(out)@ + padding(indent as nat)
                + label@ + tree_text(child@, deeper(indent, 2), ft),
    decreases child, 2int,
{
    push_padding(out, indent);
    out.append(label);
    push_tree(out, child, one_deeper(indent, 2), float_text);
}

/// Appends the first line of a node: its indentation, `head` and its position.
fn push_head(out: &mut String, indent: usize, head: &str, span: Span)
    ensures
        final(out)@ == old(out)@ + padding(indent as nat) + head@ + (" @ "@ + position_text(span)
            + seq!['\n']),
{
    push_padding(out, indent);
    out.append(head);
    push_at(out, span);
}

/// Appends the first line of a node with an operator.
fn push_operator_head(out: &mut String, indent: usize, op: Operator, span: Span)
    ensures
        final(out)@ == old(out)@ + padding(indent as nat) + operator_name(op) + (" @ "@
            + position_text(span) + seq!['\n']),
{
    push_padding(out, indent);
    push_operator_name(out, op);
    push_at(out, span);
}

/// Appends the line of a name in quotes.
fn push_quoted(out: &mut String, indent: usize, head: &str, name: &String, span: Span)
    ensures
        final(out)@ == old(out)@ + padding(indent as nat) + head@ + name@ + seq!['"'] + (" @ "@
            + position_text(span) + seq!['\n']),
{
    push_padding(out, indent);
    out.append(head);
    out.append(name.as_str());
    out.push('"');
    push_at(out, span);
}

/// Appends the line of a literal.
fn push_value_tree<F: Fn(u64) -> String>(
    out: &mut String,
    e: &Spanned<Expr>,
    indent: usize,
    float_text: &F,
)
    requires
        e.data is Value,
        forall|bits: u64| call_requires(float_text, (bits,)),
    ensures
        forall|ft: spec_fn(u64) -> Seq<char>| #[trigger]
            writes_text(float_text, ft, holds_float(e@)) ==> final(out)@ == old(out)@ + tree_text(e@, indent, ft),
    decreases e, 0int,
{
    let ghost pad = padding(indent as nat);
    let ghost at = " @ "@ + position_text(e.span) + seq!['\n'];
    match &e.data {
        Expr::Value(v) => {
            push_padding(out, indent);
            out.append("Value ");
            out.append(value_type_name(v.value_type()));
            out.push('(');
            let text = v.literal(float_text);
            out.append(text.as_str());
            out.push(')');
            push_at(out, e.span);
            proof {
                assert forall|ft: spec_fn(u64) -> Seq<char>| #[trigger]
                    writes_text(float_text, ft, holds_float(e@)) implies out@ == old(out)@ + tree_text(
                    e@,
                    indent,
                    ft,
                ) by {
                    assert(out@ =~= old(out)@ + (pad + "Value "@ + value_shown(*v, ft) + at));
                }
            }
        },
        _ => {},
    }
}

/// Appends the tree of a binary node.
fn push_binary_tree<F: Fn(u64) -> String>(
    out: &mut String,
    e: &Spanned<Expr>,
    indent: usize,
    float_text: &F,
)
    requires
        e.data is Binary,
        forall|bits: u64| call_requires(float_text, (bits,)),
    ensures
        forall|ft: spec_fn(u64) -> Seq<char>| #[trigger]
            writes_text(float_text, ft, holds_float(e@)) ==> final(out)@ == old(out)@ + tree_text(e@, indent, ft),
    decreases e, 0int,
{
    let ghost pad = padding(indent as nat);
    let ghost at = " @ "@ + position_text(e.span) + seq!['\n'];
    match &e.data {
        Expr::Binary { op, lhs, rhs } => {
            push_operator_head(out, indent, *op, e.span);
            push_labelled(out, indent, "  lhs:\n", lhs, float_text);
            push_labelled(out, indent, "  rhs:\n", rhs, float_text);
            proof {
                assert forall|ft: spec_fn(u64) -> Seq<char>| #[trigger]
                    writes_text(float_text, ft, holds_float(e@)) implies out@ == old(out)@ + tree_text(
                    e@,
                    indent,
                    ft,
                ) by {
                    assert(writes_text(float_text, ft, holds_float(lhs@)));
                    assert(writes_text(float_text, ft, holds_float(rhs@)));
                    let l = tree_text(lhs@, deeper(indent, 2), ft);
                    let r = tree_text(rhs@, deeper(indent, 2), ft);
                    assert(out@ =~= old(out)@ + (pad + operator_name(*op) + at + pad + "  lhs:\n"@
                        + l + pad + "  rhs:\n"@ + r));
                }
            }
        },
        _ => {},
    }
}

/// Appends the tree of a prefix operator.
fn push_unary_tree<F: Fn(u64) -> String>(
    out: &mut String,
    e: &Spanned<Expr>,
    indent: usize,
    float_text: &F,
)
    requires
        e.data is Unary,
        forall|bits: u64| call_requires(float_text, (bits,)),
    ensures
        forall|ft: spec_fn(u64) -> Seq<char>| #[trigger]
            writes_text(float_text, ft, holds_float(e@)) ==> final(out)@ == old(out)@ + tree_text(e@, indent, ft),
    decreases e, 0int,
{
    let ghost pad = padding(indent as nat);
    let ghost at = " @ "@ + position_text(e.span) + seq!['\n'];
    match &e.data {
        Expr::Unary { op, rhs } => {
            push_operator_head(out, indent, *op, e.span);
            push_labelled(out, indent, "  rhs:\n", rhs, float_text);
            proof {
                assert forall|ft: spec_fn(u64) -> Seq<char>| #[trigger]
                    writes_text(float_text, ft, holds_float(e@)) implies out@ == old(out)@ + tree_text(
                    e@,
                    indent,
                    ft,
                ) by {
                    assert(writes_text(float_text, ft, holds_float(rhs@)));
                    let r = tree_text(rhs@, deeper(indent, 2), ft);
                    assert(out@ =~= old(out)@ + (pad + operator_name(*op) + at + pad + "  rhs:\n"@
                        + r));
                }
            }
        },
        _ => {},
    }
}

/// Appends the tree of a conditional.
#[verifier::rlimit(60)]
fn push_ternary_tree<F: Fn(u64) -> String>(
    out: &mut String,
    e: &Spanned<Expr>,
    indent: usize,
    float_text: &F,
)
    requires
        e.data is Ternary,
        forall|bits: u64| call_requires(float_text, (bits,)),
    ensures
        forall|ft: spec_fn(u64) -> Seq<char>| #[trigger]
            writes_text(float_text, ft, holds_float(e@)) ==> final(out)@ == old(out)@ + tree_text(e@, indent, ft),
    decreases e, 0int,
{
    let ghost pad = padding(indent as nat);
    match &e.data {
        Expr::Ternary { cond, statement1, statement2 } => {
            push_padding(out, indent);
            out.append("@ ");
            push_position(out, e.span);
            out.push('\n');
            let ghost o1 = out@;
            push_labelled(out, indent, "  cond:\n", cond, float_text);
            push_labelled(out, indent, "  then:\n", statement1, float_text);
            push_labelled(out, indent, "  else:\n", statement2, float_text);
            proof {
                assert forall|ft: spec_fn(u64) -> Seq<char>| #[trigger]
                    writes_text(float_text, ft, holds_float(e@)) implies out@ == old(out)@ + tree_text(
                    e@,
                    indent,
                    ft,
                ) by {
                    assert(writes_text(float_text, ft, holds_float(cond@)));
                    assert(writes_text(float_text, ft, holds_float(statement1@)));
                    assert(writes_text(float_text, ft, holds_float(statement2@)));
                    let c = tree_text(cond@, deeper(indent, 2), ft);
                    let a = tree_text(statement1@, deeper(indent, 2), ft);
                    let b = tree_text(statement2@, deeper(indent, 2), ft);
                    let head = pad + "@ "@ + position_text(e.span) + seq!['\n'];
                    assert(o1 =~= old(out)@ + head);
                    assert(out@ =~= old(out)@ + (head + pad + "  cond:\n"@ + c + pad
                        + "  then:\n"@ + a + pad + "  else:\n"@ + b));
                }
            }
        },
        _ => {},
    }
}

/// Appends the tree of a call.
fn push_call_tree<F: Fn(u64) -> String>(
    out: &mut String,
    e: &Spanned<Expr>,
    indent: usize,
    float_text: &F,
)
    requires
        e.data is Call,
        forall|bits: u64| call_requires(float_text, (bits,)),
    ensures
        forall|ft: spec_fn(u64) -> Seq<char>| #[trigger]
            writes_text(float_text, ft, holds_float(e@)) ==> final(out)@ == old(out)@ + tree_text(e@, indent, ft),
    decreases e, 0int,
{
    let ghost pad = padding(indent as nat);
    let ghost at = " @ "@ + position_text(e.span) + seq!['\n'];
    match &e.data {
        Expr::Call { func, args } => {
            proof {
                lemma_list_models(*args, *func);
            }
            push_head(out, indent, "Call", e.span);
            push_labelled(out, indent, "  func:\n", func, float_text);
            let ghost o2 = out@;
            push_padding(out, indent);
            out.append("  args (");
            push_decimal(out, args.len() as u64);
            out.append("):\n");
            let ghost o3 = out@;
            push_items(out, args, 0, indent, float_text);
            proof {
                assert forall|ft: spec_fn(u64) -> Seq<char>| #[trigger]
                    writes_text(float_text, ft, holds_float(e@)) implies out@ == old(out)@ + tree_text(
                    e@,
                    indent,
                    ft,
                ) by {
                    assert(writes_text(float_text, ft, holds_float(func@)));
                    if holds_floats(expr_models(args@)) {
                        let k = choose|k: int|
                            0 <= k < expr_models(args@).len() && holds_float(
                                expr_models(args@)[k],
                            );
                        assert(holds_float(e@.data->Call_args[k]));
                    }
                    assert(writes_text(float_text, ft, holds_floats(expr_models(args@))));
                    let f = tree_text(func@, deeper(indent, 2), ft);
                    let items = items_text(expr_models(args@), 0, indent, ft);
                    let count = pad + "  args ("@ + decimal_text(args@.len()) + "):\n"@;
                    assert(o3 =~= o2 + count);
                    assert(out@ =~= old(out)@ + (pad + "Call"@ + at + pad + "  func:\n"@ + f + pad
                        + "  args ("@ + decimal_text(args@.len()) + "):\n"@ + items));
                }
            }
        },
        _ => {},
    }
}

/// Appends the tree of a comma sequence.
fn push_comma_tree<F: Fn(u64) -> String>(
    out: &mut String,
    e: &Spanned<Expr>,
    indent: usize,
    float_text: &F,
)
    requires
        e.data is Comma,
        forall|bits: u64| call_requires(float_text, (bits,)),
    ensures
        forall|ft: spec_fn(u64) -> Seq<char>| #[trigger]
            writes_text(float_text, ft, holds_float(e@)) ==> final(out)@ == old(out)@ + tree_text(e@, indent, ft),
    decreases e, 0int,
{
    let ghost pad = padding(indent as nat);
    let ghost at = " @ "@ + position_text(e.span) + seq!['\n'];
    match &e.data {
        Expr::Comma { exprs } => {
            proof {
                lemma_list_models(*exprs, arbitrary());
            }
            push_head(out, indent, "Comma Operator", e.span);
            push_padding(out, indent);
            out.append("  statements:\n");
            let ghost o1 = out@;
            push_items(out, exprs, 0, indent, float_text);
            proof {
                assert forall|ft: spec_fn(u64) -> Seq<char>| #[trigger]
                    writes_text(float_text, ft, holds_float(e@)) implies out@ == old(out)@ + tree_text(
                    e@,
                    indent,
                    ft,
                ) by {
                    if holds_floats(expr_models(exprs@)) {
                        let k = choose|k: int|
                            0 <= k < expr_models(exprs@).len() && holds_float(
                                expr_models(exprs@)[k],
                            );
                        assert(holds_float(e@.data->Comma_exprs[k]));
                    }
                    assert(writes_text(float_text, ft, holds_floats(expr_models(exprs@))));
                    let items = items_text(expr_models(exprs@), 0, indent, ft);
                    let head = pad + "Comma Operator"@ + at + pad + "  statements:\n"@;
                    assert(o1 =~= old(out)@ + head);
                    assert(out@ =~= old(out)@ + (head + items));
                }
            }
        },
        _ => {},
    }
}

/// Appends the tree of an expression to `out`.
fn push_tree<F: Fn(u64) -> String>(
    out: &mut String,
    e: &Spanned<Expr>,
    indent: usize,
    float_text: &F,
)
    requires
        forall|bits: u64| call_requires(float_text, (bits,)),
    ensures
        forall|ft: spec_fn(u64) -> Seq<char>| #[trigger]
            writes_text(float_text, ft, holds_float(e@)) ==> final(out)@ == old(out)@ + tree_text(e@, indent, ft),
    decreases e, 1int,
{
    let ghost pad = padding(indent as nat);
    let ghost at = " @ "@ + position_text(e.span) + seq!['\n'];
    match &e.data {
        Expr::Value(_) => push_value_tree(out, e, indent, float_text),
        Expr::Identifier(name) => {
            push_quoted(out, indent, "Identifier \"", name, e.span);
            proof {
                assert(out@ =~= old(out)@ + (pad + "Identifier \""@ + name@ + seq!['"'] + at));
            }
        },
        Expr::Macro(name) => {
            push_quoted(out, indent, "Macro \"", name, e.span);
            proof {
                assert(out@ =~= old(out)@ + (pad + "Macro \""@ + name@ + seq!['"'] + at));
            }
        },
        Expr::Binary { .. } => push_binary_tree(out, e, indent, float_text),
        Expr::Unary { .. } => push_unary_tree(out, e, indent, float_text),
        Expr::Ternary { .. } => push_ternary_tree(out, e, indent, float_text),
        Expr::Call { .. } => push_call_tree(out, e, indent, float_text),
        Expr::Comma { .. } => push_comma_tree(out, e, indent, float_text),
    }
}

/// The tree of an expression as lines of text, indented by `indent` levels,
/// with `float_text` writing the floats.
pub fn expr_tree_text<F: Fn(u64) -> String>(
    expr: &Spanned<Expr>,
    indent: usize,
    float_text: &F,
) -> (r: String)
    requires
        forall|bits: u64| call_requires(float_text, (bits,)),
    ensures
        !holds_float(expr@) ==> forall|ft: spec_fn(u64) -> Seq<char>|
            r@ == #[trigger] tree_text(expr@, indent, ft),
        forall|ft: spec_fn(u64) -> Seq<char>| #[trigger]
            writes_floats(float_text, ft) ==> r@ == tree_text(expr@, indent, ft),
{
    let mut out = String::new();
    push_tree(&mut out, expr, indent, float_text);
    proof {
        assert forall|ft: spec_fn(u64) -> Seq<char>| #[trigger]
            writes_text(float_text, ft, holds_float(expr@)) implies out@ == tree_text(
            expr@,
            indent,
            ft,
        ) by {
            assert(Seq::<char>::empty() + tree_text(expr@, indent, ft) =~= tree_text(
                expr@,
                indent,
                ft,
            ));
        }
        assert forall|ft: spec_fn(u64) -> Seq<char>| #[trigger]
            writes_floats(float_text, ft) implies out@ == tree_text(expr@, indent, ft) by {
            assert(writes_text(float_text, ft, holds_float(expr@)));
        }
        if !holds_float(expr@) {
            assert forall|ft: spec_fn(u64) -> Seq<char>|
                out@ == #[trigger] tree_text(expr@, indent, ft) by {
                assert(writes_text(float_text, ft, holds_float(expr@)));
            }
        }
    }
    out
}

/// `n` spaces.
pub open spec fn spaces(n: nat) -> Seq<char> {
    Seq::new(n, |i: int| ' ')
}

/// The line of the `i`-th token of a listing: its number in two digits or
/// more, its text in a column of 20 characters or more, and its position.
pub open spec fn token_line(
    t: Spanned<TokenModel>,
    i: nat,
    ft: spec_fn(u64) -> Seq<char>,
) -> Seq<char> {
    let text = token_text(t.data, ft);
    "  ["@ + (if i < 10 { seq!['0'] } else { Seq::<char>::empty() }) + decimal_text(i) + "] "@
        + text + spaces(if text.len() < 20 { (20 - text.len()) as nat } else { 0 }) + " @ "@
        + position_text(t.span) + seq!['\n']
}

/// The lines of the tokens from the `i`-th on.
pub open spec fn token_lines(
    tokens: Seq<Spanned<TokenModel>>,
    i: int,
    ft: spec_fn(u64) -> Seq<char>,
) -> Seq<char>
    decreases tokens.len() - i,
{
    if i < 0 || i >= tokens.len() {
        Seq::empty()
    } else {
        token_line(tokens[i], i as nat, ft) + token_lines(tokens, i + 1, ft)
    }
}

fn push_spaces(out: &mut String, n: usize)
    ensures
        final(out)@ == old(out)@ + spaces(n as nat),
{
    let mut i: usize = 0;
    proof {
        assert(out@ =~= old(out)@ + spaces(0));
    }
    while i < n
        invariant
            i <= n,
            out@ == old(out)@ + spaces(i as nat),
        decreases n - i,
    {
        out.push(' ');
        i = i + 1;
        proof {
            assert(out@ =~= old(out)@ + spaces(i as nat));
        }
    }
}

/// Whether a token is a float literal.
pub open spec fn is_float_token(t: TokenModel) -> bool {
    t matches TokenModel::Value(Value::Float(_))
}

/// Whether one of the tokens is a float literal.
pub open spec fn holds_float_token(tokens: Seq<Spanned<TokenModel>>) -> bool {
    exists|i: int| 0 <= i < tokens.len() && is_float_token((#[trigger] tokens[i]).data)
}

fn push_token_line<F: Fn(u64) -> String>(
    out: &mut String,
    t: &Spanned<Token>,
    i: usize,
    float_text: &F,
)
    requires
        forall|bits: u64| call_requires(float_text, (bits,)),
    ensures
        forall|ft: spec_fn(u64) -> Seq<char>| #[trigger]
            writes_text(float_text, ft, is_float_token(t@.data)) ==> final(out)@ == old(out)@ + token_line(
                t@,
                i as nat,
                ft,
            ),
{
    out.append("  [");
    if i < 10 {
        out.push('0');
    }
    push_decimal(out, i as u64);
    out.append("] ");
    let ghost head = out@;
    let text = t.data.symbol(float_text);
    let width = text.as_str().unicode_len();
    out.append(text.as_str());
    let fill = if width < 20 { 20 - width } else { 0 };
    push_spaces(out, fill);
    push_at(out, t.span);
    proof {
        assert forall|ft: spec_fn(u64) -> Seq<char>| #[trigger]
            writes_text(float_text, ft, is_float_token(t@.data)) implies out@ == old(out)@ + token_line(
            t@,
            i as nat,
            ft,
        ) by {
            let number = "  ["@ + (if i < 10 { seq!['0'] } else { Seq::<char>::empty() })
                + decimal_text(i as nat) + "] "@;
            assert(head =~= old(out)@ + number);
            assert(out@ =~= old(out)@ + token_line(t@, i as nat, ft));
        }
    }
}

/// The tokens as lines of text, one token on a line, with `float_text`
/// writing the floats.
pub fn tokens_listing<F: Fn(u64) -> String>(tokens: &[Spanned<Token>], float_text: &F) -> (r: String)
    requires
        forall|bits: u64| call_requires(float_text, (bits,)),
    ensures
        !holds_float_token(token_models(tokens@)) ==> forall|ft: spec_fn(u64) -> Seq<char>|
            r@ == #[trigger] token_lines(token_models(tokens@), 0, ft),
        forall|ft: spec_fn(u64) -> Seq<char>| #[trigger]
            writes_floats(float_text, ft) ==> r@ == token_lines(
                token_models(tokens@),
                0,
                ft,
            ),
{
    let mut out = String::new();
    let mut i: usize = 0;
    while i < tokens.len()
        invariant
            i <= tokens.len(),
            forall|bits: u64| call_requires(float_text, (bits,)),
            forall|ft: spec_fn(u64) -> Seq<char>| #[trigger]
                writes_text(float_text, ft, holds_float_token(token_models(tokens@))) ==> out@ + token_lines(
                    token_models(tokens@),
                    i as int,
                    ft,
                ) == token_lines(token_models(tokens@), 0, ft),
        decreases tokens.len() - i,
    {
        let ghost before = out@;
        push_token_line(&mut out, &tokens[i], i, float_text);
        proof {
            assert forall|ft: spec_fn(u64) -> Seq<char>| #[trigger]
                writes_text(float_text, ft, holds_float_token(token_models(tokens@))) implies out@ + token_lines(
                token_models(tokens@),
                i + 1,
                ft,
            ) == token_lines(token_models(tokens@), 0, ft) by {
                let models = token_models(tokens@);
                assert(models[i as int] == tokens@[i as int]@);
                assert(is_float_token(models[i as int].data) ==> holds_float_token(models));
                assert(writes_text(float_text, ft, is_float_token(tokens@[i as int]@.data)));
                let line = token_line(models[i as int], i as nat, ft);
                let rest = token_lines(models, i + 1, ft);
                assert(out@ + rest =~= before + (line + rest));
            }
        }
        i = i + 1;
    }
    proof {
        assert forall|ft: spec_fn(u64) -> Seq<char>| #[trigger]
            writes_text(float_text, ft, holds_float_token(token_models(tokens@))) implies out@ == token_lines(
            token_models(tokens@),
            0,
            ft,
        ) by {
            let models = token_models(tokens@);
            assert(out@ + token_lines(models, tokens.len() as int, ft) =~= out@);
        }
        assert forall|ft: spec_fn(u64) -> Seq<char>| #[trigger]
            writes_floats(float_text, ft) implies out@ == token_lines(
            token_models(tokens@),
            0,
            ft,
        ) by {
            assert(writes_text(float_text, ft, holds_float_token(token_models(tokens@))));
        }
        if !holds_float_token(token_models(tokens@)) {
            assert forall|ft: spec_fn(u64) -> Seq<char>|
                out@ == #[trigger] token_lines(token_models(tokens@), 0, ft) by {
                assert(writes_text(float_text, ft, holds_float_token(token_models(tokens@))));
            }
        }
    }
    out
}

} // verus!
