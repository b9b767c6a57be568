//! What the shape of an expression decides, and where the calls of what is
//! no name stand in a parsed expression.
//!
//! The text of an expression, and whether it can be read back, depend on its
//! shape alone, not on its spans. In every expression that the parser makes,
//! the call of something that is no name stands where a product is not read,
//! which is what [`placed`] asks.

use crate::debug::{
    juxtaposed, leads_with_call, left_parent, list_text, precedence, right_parent, text_of,
    CALLEE_PRECEDENCE, CONDITIONAL_PRECEDENCE,
};
use crate::operator::operator::{BinaryOp, GroupingOp, Operator, TernaryOp};
use crate::parser::{
    binary_node, can_start_expression, is_bare_name, is_operator, opens_group, parsed_expression,
    parsed_infix, parsed_infixes, parsed_list, parsed_prefix, right_binding_power, sequence_start,
    ExprModel, COMMA_BP, ELSE_BP, IMPLICIT_MUL_BP, PREFIX_BP,
};
use crate::round_trip::{kept, placed, same_shape, stripped};
use crate::span::Spanned;
use crate::token::{binary_binding_power, binding_power, TokenModel};
use vstd::prelude::*;

verus! {

/// Two lists of the same shapes, member by member.
pub open spec fn same_shapes(a: Seq<Spanned<ExprModel>>, b: Seq<Spanned<ExprModel>>) -> bool {
    a.len() == b.len() && forall|i: int| 0 <= i < a.len() ==> same_shape(#[trigger] a[i], b[i])
}

/// Two expressions of the same shape have nodes of the same kind, and
/// children of the same shapes.
pub proof fn lemma_shape_of_children(a: Spanned<ExprModel>, b: Spanned<ExprModel>)
    requires
        same_shape(a, b),
    ensures
        match a.data {
            ExprModel::Value(v) => b.data == ExprModel::Value(v),
            ExprModel::Identifier(s) => b.data == ExprModel::Identifier(s),
            ExprModel::Macro(s) => b.data == ExprModel::Macro(s),
            ExprModel::Unary { op, rhs } => b.data is Unary && b.data->Unary_op == op
                && same_shape(*rhs, *b.data->Unary_rhs),
            ExprModel::Binary { op, lhs, rhs } => b.data is Binary && b.data->Binary_op == op
                && same_shape(*lhs, *b.data->Binary_lhs) && same_shape(*rhs, *b.data->Binary_rhs),
            ExprModel::Ternary { cond, statement1, statement2 } => b.data is Ternary && same_shape(
                *cond,
                *b.data->Ternary_cond,
            ) && same_shape(*statement1, *b.data->Ternary_statement1) && same_shape(
                *statement2,
                *b.data->Ternary_statement2,
            ),
            ExprModel::Comma { exprs } => b.data is Comma && same_shapes(
                exprs,
                b.data->Comma_exprs,
            ),
            ExprModel::Call { func, args } => b.data is Call && same_shape(
                *func,
                *b.data->Call_func,
            ) && same_shapes(args, b.data->Call_args),
        },
{
    let x = stripped(a);
    let y = stripped(b);
    assert(x.data == y.data);
    match a.data {
        ExprModel::Comma { exprs } => {
            let others = b.data->Comma_exprs;
            assert(x.data->Comma_exprs.len() == y.data->Comma_exprs.len());
            assert forall|i: int| 0 <= i < exprs.len() implies same_shape(
                #[trigger] exprs[i],
                others[i],
            ) by {
                assert(x.data->Comma_exprs[i] == stripped(exprs[i]));
                assert(y.data->Comma_exprs[i] == stripped(others[i]));
            }
        },
        ExprModel::Call { func, args } => {
            let others = b.data->Call_args;
            assert(x.data->Call_args.len() == y.data->Call_args.len());
            assert forall|i: int| 0 <= i < args.len() implies same_shape(
                #[trigger] args[i],
                others[i],
            ) by {
                assert(x.data->Call_args[i] == stripped(args[i]));
                assert(y.data->Call_args[i] == stripped(others[i]));
            }
        },
        _ => {},
    }
}

/// Two expressions of the same shape bind as tightly, and start with the
/// call of something that is no name, or are written as a juxtaposition,
/// both or neither.
pub proof fn lemma_shape_leads(a: Spanned<ExprModel>, b: Spanned<ExprModel>)
    requires
        same_shape(a, b),
    ensures
        precedence(a.data) == precedence(b.data),
        a.data is Identifier == b.data is Identifier,
        leads_with_call(a) == leads_with_call(b),
        juxtaposed(a) == juxtaposed(b),
    decreases a,
{
    lemma_shape_of_children(a, b);
    match a.data {
        ExprModel::Binary { op, lhs, rhs } => {
            lemma_shape_leads(*lhs, *b.data->Binary_lhs);
            lemma_shape_leads(*rhs, *b.data->Binary_rhs);
            assert(juxtaposed(a) == juxtaposed(b));
            assert(leads_with_call(a) == (!juxtaposed(a) && precedence(lhs.data) >= left_parent(op)
                && leads_with_call(*lhs)));
            assert(leads_with_call(b) == (!juxtaposed(b) && precedence(b.data->Binary_lhs.data)
                >= left_parent(op) && leads_with_call(*b.data->Binary_lhs)));
        },
        ExprModel::Ternary { cond, statement1, statement2 } => {
            lemma_shape_leads(*cond, *b.data->Ternary_cond);
        },
        ExprModel::Comma { exprs } => {
            if exprs.len() > 0 {
                lemma_shape_leads(exprs[0], b.data->Comma_exprs[0]);
            }
        },
        ExprModel::Call { func, args } => {
            lemma_shape_leads(*func, *b.data->Call_func);
        },
        _ => {},
    }
}

/// Of two expressions of the same shape, both or neither have their calls
/// where text can say them.
pub proof fn lemma_shape_placed(a: Spanned<ExprModel>, b: Spanned<ExprModel>)
    requires
        same_shape(a, b),
        placed(a),
    ensures
        placed(b),
    decreases a,
{
    lemma_shape_of_children(a, b);
    lemma_shape_leads(a, b);
    match a.data {
        ExprModel::Unary { op, rhs } => {
            lemma_shape_placed(*rhs, *b.data->Unary_rhs);
            lemma_shape_leads(*rhs, *b.data->Unary_rhs);
        },
        ExprModel::Binary { op, lhs, rhs } => {
            lemma_shape_placed(*lhs, *b.data->Binary_lhs);
            lemma_shape_placed(*rhs, *b.data->Binary_rhs);
            lemma_shape_leads(*lhs, *b.data->Binary_lhs);
            lemma_shape_leads(*rhs, *b.data->Binary_rhs);
        },
        ExprModel::Ternary { cond, statement1, statement2 } => {
            lemma_shape_placed(*cond, *b.data->Ternary_cond);
            lemma_shape_placed(*statement1, *b.data->Ternary_statement1);
            lemma_shape_placed(*statement2, *b.data->Ternary_statement2);
            lemma_shape_leads(*cond, *b.data->Ternary_cond);
            lemma_shape_leads(*statement1, *b.data->Ternary_statement1);
            lemma_shape_leads(*statement2, *b.data->Ternary_statement2);
        },
        ExprModel::Comma { exprs } => {
            let others = b.data->Comma_exprs;
            assert forall|i: int| 0 <= i < others.len() implies placed(#[trigger] others[i]) && if i
                == 0 {
                kept(others[i], (COMMA_BP + 1) as u32)
            } else {
                !leads_with_call(others[i])
            } by {
                assert(placed(exprs[i]));
                lemma_shape_placed(exprs[i], others[i]);
                lemma_shape_leads(exprs[i], others[i]);
            }
        },
        ExprModel::Call { func, args } => {
            let others = b.data->Call_args;
            lemma_shape_placed(*func, *b.data->Call_func);
            lemma_shape_leads(*func, *b.data->Call_func);
            assert forall|i: int| 0 <= i < others.len() implies placed(#[trigger] others[i])
                && !leads_with_call(others[i]) by {
                assert(placed(args[i]));
                lemma_shape_placed(args[i], others[i]);
                lemma_shape_leads(args[i], others[i]);
            }
        },
        _ => {},
    }
}

/// Two expressions of the same shape are written as the same text: the text
/// of an expression does not depend on its spans.
pub proof fn law_same_shape_same_text(
    a: Spanned<ExprModel>,
    b: Spanned<ExprModel>,
    parent: u32,
    float_text: spec_fn(u64) -> Seq<char>,
)
    requires
        same_shape(a, b),
    ensures
        text_of(a, parent, float_text) == text_of(b, parent, float_text),
    decreases a,
{
    lemma_shape_of_children(a, b);
    lemma_shape_leads(a, b);
    match a.data {
        ExprModel::Unary { op, rhs } => {
            law_same_shape_same_text(*rhs, *b.data->Unary_rhs, (PREFIX_BP + 1) as u32, float_text);
        },
        ExprModel::Binary { op, lhs, rhs } => {
            let other_lhs = *b.data->Binary_lhs;
            let other_rhs = *b.data->Binary_rhs;
            law_same_shape_same_text(*lhs, other_lhs, 0, float_text);
            law_same_shape_same_text(*lhs, other_lhs, left_parent(op), float_text);
            law_same_shape_same_text(*rhs, other_rhs, (IMPLICIT_MUL_BP + 1) as u32, float_text);
            law_same_shape_same_text(*rhs, other_rhs, right_parent(op), float_text);
        },
        ExprModel::Ternary { cond, statement1, statement2 } => {
            law_same_shape_same_text(
                *cond,
                *b.data->Ternary_cond,
                (CONDITIONAL_PRECEDENCE + 1) as u32,
                float_text,
            );
            law_same_shape_same_text(*statement1, *b.data->Ternary_statement1, 0, float_text);
            law_same_shape_same_text(
                *statement2,
                *b.data->Ternary_statement2,
                CONDITIONAL_PRECEDENCE,
                float_text,
            );
        },
        ExprModel::Comma { exprs } => {
            lemma_same_shapes_same_text(exprs, b.data->Comma_exprs, 0, float_text);
        },
        ExprModel::Call { func, args } => {
            law_same_shape_same_text(*func, *b.data->Call_func, CALLEE_PRECEDENCE, float_text);
            lemma_same_shapes_same_text(args, b.data->Call_args, 0, float_text);
        },
        _ => {},
    }
}

/// Two lists of the same shapes are written as the same text.
proof fn lemma_same_shapes_same_text(
    a: Seq<Spanned<ExprModel>>,
    b: Seq<Spanned<ExprModel>>,
    i: int,
    float_text: spec_fn(u64) -> Seq<char>,
)
    requires
        same_shapes(a, b),
        0 <= i,
    ensures
        list_text(a, i, (COMMA_BP + 1) as u32, float_text) == list_text(
            b,
            i,
            (COMMA_BP + 1) as u32,
            float_text,
        ),
    decreases a, a.len() - i,
{
    if i < a.len() {
        law_same_shape_same_text(a[i], b[i], (COMMA_BP + 1) as u32, float_text);
        if i < a.len() - 1 {
            lemma_same_shapes_same_text(a, b, i + 1, float_text);
        }
    }
}

/// Only `**` binds tighter than a juxtaposition, and no right operand is
/// parsed at a threshold above that of `**`.
proof fn lemma_tight_operators(o: BinaryOp)
    ensures
        binary_binding_power(o) > IMPLICIT_MUL_BP ==> o == BinaryOp::Exponentiation,
        right_binding_power(o) <= 79,
        right_binding_power(o) + 1 == right_parent(Operator::Binary(o)),
        left_parent(Operator::Binary(BinaryOp::Exponentiation)) == 81,
        o == BinaryOp::Multiplication ==> right_binding_power(o) < IMPLICIT_MUL_BP,
{
}

/// What holds of the operand `left` of the infix loop at the threshold `m`,
/// with the next token at `pos`: its calls are placed, and where it starts
/// with the call of something that is no name the threshold is that of a
/// juxtaposition or above, and `left` is a call or `**` cannot follow.
pub open spec fn standing(
    left: Spanned<ExprModel>,
    tokens: Seq<Spanned<TokenModel>>,
    pos: int,
    m: u32,
) -> bool {
    placed(left) && has_members(left) && (leads_with_call(left) ==> m >= IMPLICIT_MUL_BP
        && precedence(left.data) > m && (precedence(left.data) == CALLEE_PRECEDENCE || !(0 <= pos
        < tokens.len()) || binding_power(tokens[pos].data) <= 79))
}

/// Whether the expression is no comma sequence without members.
pub open spec fn has_members(e: Spanned<ExprModel>) -> bool {
    e.data matches ExprModel::Comma { exprs } ==> exprs.len() > 0
}

/// What holds of an expression that was parsed at the threshold `m` and
/// ends before `pos`: its calls are placed, it starts with the call of
/// something that is no name only at the threshold of a juxtaposition or
/// above, and the token that follows binds no tighter than `m`.
pub open spec fn settled(
    e: Spanned<ExprModel>,
    tokens: Seq<Spanned<TokenModel>>,
    pos: int,
    m: u32,
) -> bool {
    placed(e) && has_members(e) && (leads_with_call(e) ==> m >= IMPLICIT_MUL_BP && precedence(
        e.data,
    ) > m) && (0 <= pos < tokens.len() ==> binding_power(tokens[pos].data) <= m)
}

proof fn lemma_expression_settled(tokens: Seq<Spanned<TokenModel>>, pos: int, m: u32)
    requires
        parsed_expression(tokens, pos, m) is Some,
    ensures
        settled(
            parsed_expression(tokens, pos, m)->Some_0.0,
            tokens,
            parsed_expression(tokens, pos, m)->Some_0.1,
            m,
        ),
    decreases tokens.len() - pos, 0int,
{
    lemma_prefix_settled(tokens, pos + 1, tokens[pos]);
    let (left, p) = parsed_prefix(tokens, pos + 1, tokens[pos])->Some_0;
    lemma_infixes_settled(tokens, p, left, m, opens_group(tokens[pos]));
}

proof fn lemma_prefix_settled(tokens: Seq<Spanned<TokenModel>>, pos: int, t: Spanned<TokenModel>)
    requires
        parsed_prefix(tokens, pos, t) is Some,
    ensures
        placed(parsed_prefix(tokens, pos, t)->Some_0.0),
        has_members(parsed_prefix(tokens, pos, t)->Some_0.0),
        !leads_with_call(parsed_prefix(tokens, pos, t)->Some_0.0),
    decreases tokens.len() - pos, 1int,
{
    match t.data {
        TokenModel::Operator(Operator::Grouping(_)) => {
            lemma_expression_settled(tokens, pos, 0);
        },
        TokenModel::Operator(_) => {
            lemma_expression_settled(tokens, pos, PREFIX_BP);
        },
        _ => {},
    }
}

proof fn lemma_infixes_settled(
    tokens: Seq<Spanned<TokenModel>>,
    pos: int,
    left: Spanned<ExprModel>,
    m: u32,
    grouped: bool,
)
    requires
        standing(left, tokens, pos, m),
        parsed_infixes(tokens, pos, left, m, grouped) is Some,
    ensures
        settled(
            parsed_infixes(tokens, pos, left, m, grouped)->Some_0.0,
            tokens,
            parsed_infixes(tokens, pos, left, m, grouped)->Some_0.1,
            m,
        ),
    decreases tokens.len() - pos, 1int,
{
    if 0 <= pos < tokens.len() {
        if can_start_expression(tokens[pos].data) && !is_bare_name(left, grouped)
            && IMPLICIT_MUL_BP > m {
            lemma_expression_settled(tokens, pos, IMPLICIT_MUL_BP);
            let (rhs, p) = parsed_expression(tokens, pos, IMPLICIT_MUL_BP)->Some_0;
            let next = binary_node(BinaryOp::Multiplication, left, rhs);
            lemma_tight_operators(BinaryOp::Multiplication);
            assert(juxtaposed(next) == leads_with_call(rhs));
            assert(placed(next));
            assert(!leads_with_call(next));
            lemma_infixes_settled(tokens, p, next, m, false);
        } else if binding_power(tokens[pos].data) > m {
            lemma_infix_standing(tokens, pos + 1, left, tokens[pos], m, grouped);
            let (next, p) = parsed_infix(tokens, pos + 1, left, tokens[pos])->Some_0;
            lemma_infixes_settled(tokens, p, next, m, false);
        }
    }
}

proof fn lemma_infix_standing(
    tokens: Seq<Spanned<TokenModel>>,
    pos: int,
    left: Spanned<ExprModel>,
    t: Spanned<TokenModel>,
    m: u32,
    grouped: bool,
)
    requires
        0 < pos <= tokens.len(),
        t == tokens[pos - 1],
        standing(left, tokens, pos - 1, m),
        binding_power(t.data) > m,
        !(can_start_expression(t.data) && !is_bare_name(left, grouped) && IMPLICIT_MUL_BP > m),
        parsed_infix(tokens, pos, left, t) is Some,
    ensures
        standing(
            parsed_infix(tokens, pos, left, t)->Some_0.0,
            tokens,
            parsed_infix(tokens, pos, left, t)->Some_0.1,
            m,
        ),
    decreases tokens.len() - pos, 2int,
{
    let next = parsed_infix(tokens, pos, left, t)->Some_0.0;
    match t.data {
        TokenModel::Operator(Operator::Binary(o)) => {
            let threshold = right_binding_power(o);
            lemma_expression_settled(tokens, pos, threshold);
            let (rhs, p) = parsed_expression(tokens, pos, threshold)->Some_0;
            lemma_tight_operators(o);
            assert(next == binary_node(o, left, rhs));
            assert(!juxtaposed(next));
            assert(kept(left, left_parent(Operator::Binary(o))));
            assert(placed(next));
        },
        TokenModel::Operator(Operator::Grouping(GroupingOp::LeftParen)) => {
            if pos < tokens.len() && !is_operator(
                tokens[pos],
                Operator::Grouping(GroupingOp::RightParen),
            ) {
                lemma_list_settled(tokens, pos, (COMMA_BP + 1) as u32, Seq::empty());
            }
            assert(kept(left, CALLEE_PRECEDENCE));
            assert(placed(next));
        },
        TokenModel::Operator(Operator::Grouping(GroupingOp::Comma)) => {
            let first = sequence_start(left);
            assert(!leads_with_call(left));
            assert forall|i: int| 0 <= i < first.len() implies placed(#[trigger] first[i]) && if i
                == 0 {
                kept(first[i], (COMMA_BP + 1) as u32)
            } else {
                !leads_with_call(first[i])
            } by {}
            lemma_list_settled(tokens, pos, COMMA_BP, first);
            let all = parsed_list(tokens, pos, COMMA_BP, first)->Some_0.0;
            assert(all[0] == first[0]);
            assert forall|i: int| 0 <= i < all.len() implies placed(#[trigger] all[i]) && if i
                == 0 {
                kept(all[i], (COMMA_BP + 1) as u32)
            } else {
                !leads_with_call(all[i])
            } by {
                if i < first.len() {
                    assert(all[i] == first[i]);
                }
            }
            assert(placed(next));
            assert(!leads_with_call(all[0]));
            assert(!leads_with_call(next));
        },
        TokenModel::Operator(Operator::TernaryOp(TernaryOp::TernaryCond)) => {
            lemma_expression_settled(tokens, pos, 0);
            let (statement1, p) = parsed_expression(tokens, pos, 0)->Some_0;
            lemma_expression_settled(tokens, p + 1, ELSE_BP);
            assert(placed(next));
            assert(!leads_with_call(next));
        },
        _ => {},
    }
}

proof fn lemma_list_settled(
    tokens: Seq<Spanned<TokenModel>>,
    pos: int,
    bp: u32,
    acc: Seq<Spanned<ExprModel>>,
)
    requires
        bp < IMPLICIT_MUL_BP,
        parsed_list(tokens, pos, bp, acc) is Some,
    ensures
        parsed_list(tokens, pos, bp, acc)->Some_0.0.len() > acc.len(),
        forall|i: int|
            0 <= i < acc.len() ==> parsed_list(tokens, pos, bp, acc)->Some_0.0[i] == acc[i],
        forall|i: int|
            acc.len() <= i < parsed_list(tokens, pos, bp, acc)->Some_0.0.len() ==> placed(
                #[trigger] parsed_list(tokens, pos, bp, acc)->Some_0.0[i],
            ) && !leads_with_call(parsed_list(tokens, pos, bp, acc)->Some_0.0[i]),
    decreases tokens.len() - pos, 1int,
{
    lemma_expression_settled(tokens, pos, bp);
    let (e, p) = parsed_expression(tokens, pos, bp)->Some_0;
    let next = acc.push(e);
    if pos <= p < tokens.len() && is_operator(tokens[p], Operator::Grouping(GroupingOp::Comma)) {
        lemma_list_settled(tokens, p + 1, bp, next);
        let all = parsed_list(tokens, p + 1, bp, next)->Some_0.0;
        assert forall|i: int| 0 <= i < acc.len() implies all[i] == acc[i] by {
            assert(all[i] == next[i]);
        }
        assert forall|i: int| acc.len() <= i < all.len() implies placed(#[trigger] all[i])
            && !leads_with_call(all[i]) by {
            if i == acc.len() {
                assert(all[i] == next[i]);
            }
        }
    }
}

/// In the expression that is parsed from tokens, every call of something
/// that is no name stands where text can say it, and none starts the
/// expression.
pub proof fn law_parsed_calls_are_placed(tokens: Seq<Spanned<TokenModel>>)
    requires
        parsed_expression(tokens, 0, 0) is Some,
    ensures
        placed(parsed_expression(tokens, 0, 0)->Some_0.0),
        !leads_with_call(parsed_expression(tokens, 0, 0)->Some_0.0),
{
    lemma_expression_settled(tokens, 0, 0);
}

} // verus!
