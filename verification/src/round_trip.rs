//! Writing an expression as tokens and parsing the tokens gives the
//! expression back.
//!
//! [`unparse`] writes an expression as the tokens of its text, with
//! parentheses where [`crate::debug::text_of`] writes them. The law of this
//! module is that the parser reads these tokens as the expression that was
//! written, up to spans.

use crate::debug::{
    associates_right, juxtaposed, leads_with_call, left_parent, precedence, right_parent,
    CALLEE_PRECEDENCE, CONDITIONAL_PRECEDENCE,
};
use crate::operator::operator::{BinaryOp, GroupingOp, Operator, TernaryOp, UnaryOp};
use crate::parser::{
    binary_node, can_start_expression, is_bare_name, opens_group, parse_of_tokens,
    parsed_expression, parsed_infix, parsed_infixes, parsed_list, parsed_prefix, respanned,
    right_binding_power, sequence_start, ExprModel, COMMA_BP, ELSE_BP, IMPLICIT_MUL_BP,
    PREFIX_BP,
};
use crate::span::{Span, Spanned};
use crate::token::{binary_binding_power, binding_power, operator_binding_power, TokenModel};
use vstd::prelude::*;

verus! {

/// The expression with every span set to the empty span at 0.
pub open spec fn stripped(e: Spanned<ExprModel>) -> Spanned<ExprModel>
    decreases e,
{
    Spanned {
        span: Span { start: 0, end: 0 },
        data: match e.data {
            ExprModel::Value(v) => ExprModel::Value(v),
            ExprModel::Identifier(s) => ExprModel::Identifier(s),
            ExprModel::Macro(s) => ExprModel::Macro(s),
            ExprModel::Unary { op, rhs } => ExprModel::Unary { op, rhs: Box::new(stripped(*rhs)) },
            ExprModel::Binary { op, lhs, rhs } => ExprModel::Binary {
                op,
                lhs: Box::new(stripped(*lhs)),
                rhs: Box::new(stripped(*rhs)),
            },
            ExprModel::Ternary { cond, statement1, statement2 } => ExprModel::Ternary {
                cond: Box::new(stripped(*cond)),
                statement1: Box::new(stripped(*statement1)),
                statement2: Box::new(stripped(*statement2)),
            },
            ExprModel::Comma { exprs } => ExprModel::Comma {
                exprs: Seq::new(
                    exprs.len(),
                    |i: int| if 0 <= i < exprs.len() { stripped(exprs[i]) } else { arbitrary() },
                ),
            },
            ExprModel::Call { func, args } => ExprModel::Call {
                func: Box::new(stripped(*func)),
                args: Seq::new(
                    args.len(),
                    |i: int| if 0 <= i < args.len() { stripped(args[i]) } else { arbitrary() },
                ),
            },
        },
    }
}

/// Whether two expressions are equal up to their spans.
pub open spec fn same_shape(a: Spanned<ExprModel>, b: Spanned<ExprModel>) -> bool {
    stripped(a) == stripped(b)
}

/// Whether the nodes of an expression are such as text can say: its prefix
/// operators are `-` and `~`, its binary nodes hold binary operators, and
/// its comma sequences have two members or more and do not start with a
/// comma sequence.
pub open spec fn formed(e: Spanned<ExprModel>) -> bool
    decreases e,
{
    match e.data {
        ExprModel::Value(_) | ExprModel::Identifier(_) | ExprModel::Macro(_) => true,
        ExprModel::Unary { op, rhs } => (op == Operator::Unary(UnaryOp::Negation) || op
            == Operator::Unary(UnaryOp::BitwiseNot)) && formed(*rhs),
        ExprModel::Binary { op, lhs, rhs } => op is Binary && formed(*lhs) && formed(*rhs),
        ExprModel::Ternary { cond, statement1, statement2 } => formed(*cond) && formed(
            *statement1,
        ) && formed(*statement2),
        ExprModel::Comma { exprs } => exprs.len() >= 2 && !(exprs[0].data is Comma) && forall|
            i: int,
        |
            0 <= i < exprs.len() ==> formed(#[trigger] exprs[i]),
        ExprModel::Call { func, args } => formed(*func) && forall|i: int|
            0 <= i < args.len() ==> formed(#[trigger] args[i]),
    }
}

/// Whether an operand that is written in parentheses under `parent` does
/// not start with the call of something that is no name.
pub open spec fn kept(e: Spanned<ExprModel>, parent: u32) -> bool {
    precedence(e.data) < parent ==> !leads_with_call(e)
}

/// Whether the calls of what is no name stand where text can say them. The
/// text `3(4)` is a call only where a product is not read: behind a
/// juxtaposition, a prefix operator or `**`. So no operand that is written
/// in parentheses, and no operand of another operator, of a conditional or
/// of a list, starts with such a call.
pub open spec fn placed(e: Spanned<ExprModel>) -> bool
    decreases e,
{
    match e.data {
        ExprModel::Value(_) | ExprModel::Identifier(_) | ExprModel::Macro(_) => true,
        ExprModel::Unary { op, rhs } => placed(*rhs) && kept(*rhs, (PREFIX_BP + 1) as u32),
        ExprModel::Binary { op, lhs, rhs } => placed(*lhs) && placed(*rhs) && if juxtaposed(e) {
            !leads_with_call(*lhs)
        } else {
            kept(*lhs, left_parent(op)) && (!leads_with_call(*rhs) || (op matches Operator::Binary(
                o,
            ) && right_binding_power(o) >= IMPLICIT_MUL_BP && kept(*rhs, right_parent(op))))
        },
        ExprModel::Ternary { cond, statement1, statement2 } => placed(*cond) && placed(
            *statement1,
        ) && placed(*statement2) && kept(*cond, (CONDITIONAL_PRECEDENCE + 1) as u32)
            && !leads_with_call(*statement1) && !leads_with_call(*statement2),
        ExprModel::Comma { exprs } => forall|i: int|
            0 <= i < exprs.len() ==> placed(#[trigger] exprs[i]) && if i == 0 {
                kept(exprs[i], (COMMA_BP + 1) as u32)
            } else {
                !leads_with_call(exprs[i])
            },
        ExprModel::Call { func, args } => placed(*func) && kept(*func, CALLEE_PRECEDENCE)
            && forall|i: int|
            0 <= i < args.len() ==> placed(#[trigger] args[i]) && !leads_with_call(args[i]),
    }
}

/// Whether an expression can be written as tokens and read again.
pub open spec fn writable(e: Spanned<ExprModel>) -> bool {
    formed(e) && placed(e)
}

/// The token that a prefix operator is written as: `-` is the token of
/// subtraction.
pub open spec fn prefix_token(op: Operator) -> TokenModel {
    if op == Operator::Unary(UnaryOp::Negation) {
        TokenModel::Operator(Operator::Binary(BinaryOp::Subtraction))
    } else {
        TokenModel::Operator(op)
    }
}

/// The token `(`.
pub open spec fn left_paren() -> TokenModel {
    TokenModel::Operator(Operator::Grouping(GroupingOp::LeftParen))
}

/// The token `)`.
pub open spec fn right_paren() -> TokenModel {
    TokenModel::Operator(Operator::Grouping(GroupingOp::RightParen))
}

/// The token `,`.
pub open spec fn comma() -> TokenModel {
    TokenModel::Operator(Operator::Grouping(GroupingOp::Comma))
}

/// The tokens of an expression, without parentheses around the whole.
pub open spec fn unparse_body(e: Spanned<ExprModel>) -> Seq<TokenModel>
    decreases e, 0int,
{
    match e.data {
        ExprModel::Value(v) => seq![TokenModel::Value(v)],
        ExprModel::Identifier(s) => seq![TokenModel::Identifier(s)],
        ExprModel::Macro(s) => seq![TokenModel::Macro(s)],
        ExprModel::Unary { op, rhs } => seq![prefix_token(op)] + unparse(
            *rhs,
            (PREFIX_BP + 1) as u32,
        ),
        ExprModel::Binary { op, lhs, rhs } => if juxtaposed(e) {
            seq![left_paren()] + unparse_body(*lhs) + seq![right_paren()] + unparse(
                *rhs,
                (IMPLICIT_MUL_BP + 1) as u32,
            )
        } else {
            unparse(*lhs, left_parent(op)) + seq![TokenModel::Operator(op)] + unparse(
                *rhs,
                right_parent(op),
            )
        },
        ExprModel::Ternary { cond, statement1, statement2 } => unparse(
            *cond,
            (CONDITIONAL_PRECEDENCE + 1) as u32,
        ) + seq![TokenModel::Operator(Operator::TernaryOp(TernaryOp::TernaryCond))] + unparse(
            *statement1,
            0,
        ) + seq![TokenModel::Operator(Operator::TernaryOp(TernaryOp::TernaryElse))] + unparse(
            *statement2,
            CONDITIONAL_PRECEDENCE,
        ),
        ExprModel::Comma { exprs } => unparse_list(exprs, 0),
        ExprModel::Call { func, args } => unparse(*func, CALLEE_PRECEDENCE) + seq![left_paren()]
            + unparse_list(args, 0) + seq![right_paren()],
    }
}

/// The tokens of an expression that stands where only what binds at least as
/// tightly as `parent` can stand without parentheses.
pub open spec fn unparse(e: Spanned<ExprModel>, parent: u32) -> Seq<TokenModel>
    decreases e, 1int,
{
    if precedence(e.data) < parent {
        seq![left_paren()] + unparse_body(e) + seq![right_paren()]
    } else {
        unparse_body(e)
    }
}

/// The tokens of the expressions from the `i`-th on, with commas between them.
pub open spec fn unparse_list(exprs: Seq<Spanned<ExprModel>>, i: int) -> Seq<TokenModel>
    decreases exprs, exprs.len() - i,
{
    if i < 0 || i >= exprs.len() {
        Seq::empty()
    } else if i == exprs.len() - 1 {
        unparse(exprs[i], (COMMA_BP + 1) as u32)
    } else {
        unparse(exprs[i], (COMMA_BP + 1) as u32) + seq![comma()] + unparse_list(exprs, i + 1)
    }
}

/// Whether the tokens from `pos` on start with `expected`.
pub open spec fn reads(tokens: Seq<Spanned<TokenModel>>, pos: int, expected: Seq<TokenModel>) -> bool {
    0 <= pos && pos + expected.len() <= tokens.len() && forall|i: int|
        0 <= i < expected.len() ==> (#[trigger] tokens[pos + i]).data == expected[i]
}

/// Whether a token of binding power `b` that follows the expression, written
/// without parentheses, ends it: no operand at the right edge of the
/// expression would take the token as its own operator.
pub open spec fn closed(e: Spanned<ExprModel>, b: u32) -> bool
    decreases e,
{
    match e.data {
        ExprModel::Unary { op, rhs } => b <= PREFIX_BP && (precedence(rhs.data) < PREFIX_BP + 1
            || closed(*rhs, b)),
        ExprModel::Binary { op, lhs, rhs } => op matches Operator::Binary(o) && b
            <= right_binding_power(o) && (precedence(rhs.data) < right_parent(op) || closed(
            *rhs,
            b,
        )),
        ExprModel::Ternary { cond, statement1, statement2 } => b <= ELSE_BP && (precedence(
            statement2.data,
        ) < CONDITIONAL_PRECEDENCE || closed(*statement2, b)),
        ExprModel::Comma { exprs } => b < COMMA_BP && exprs.len() > 0 && (precedence(
            exprs.last().data,
        ) < COMMA_BP + 1 || closed(exprs.last(), b)),
        _ => true,
    }
}

/// Whether every operator of binding power `b` associates to the left.
pub open spec fn left_tier(b: u32) -> bool {
    b == 10 || b == 15 || b == 20 || b == 25 || b == 30 || b == 35 || b == 40 || b == 50 || b
        == 60 || b == PREFIX_BP
}

/// What may follow an expression written under `parent` that ends at `end`:
/// anything where it is written in parentheses or is a literal, a name or a
/// call, else nothing or a token that starts no expression and ends it.
pub open spec fn followed(
    e: Spanned<ExprModel>,
    parent: u32,
    tokens: Seq<Spanned<TokenModel>>,
    end: int,
) -> bool {
    precedence(e.data) < parent || precedence(e.data) == CALLEE_PRECEDENCE || body_followed(
        e,
        tokens,
        end,
    )
}

/// Every expression binds with a power of 1 or more, and a binary operator
/// with 3 to 80.
pub proof fn lemma_precedence_bounds(e: ExprModel)
    requires
        e matches ExprModel::Binary { op, .. } ==> op is Binary,
    ensures
        precedence(e) >= 1,
        precedence(e) != 2,
        e matches ExprModel::Binary { op: Operator::Binary(o), .. } ==> 3 <= precedence(e) <= 80
            && precedence(e) == binary_binding_power(o) && right_binding_power(o) + 1
            == right_parent(Operator::Binary(o)) && (associates_right(Operator::Binary(o))
            <==> !left_tier(precedence(e))),
{
}

/// An expression that binds tighter than `b`, or as tightly where operators
/// of that power associate to the left, is ended by a token of binding power `b`.
pub proof fn lemma_closed(e: Spanned<ExprModel>, b: u32)
    requires
        writable(e),
        precedence(e.data) > b || (precedence(e.data) == b && left_tier(b)),
    ensures
        closed(e, b),
    decreases e,
{
    lemma_precedence_bounds(e.data);
    match e.data {
        ExprModel::Unary { op, rhs } => {
            if precedence(rhs.data) >= PREFIX_BP + 1 {
                lemma_closed(*rhs, b);
            }
        },
        ExprModel::Binary { op, lhs, rhs } => {
            if precedence(rhs.data) >= right_parent(op) {
                lemma_closed(*rhs, b);
            }
        },
        ExprModel::Ternary { cond, statement1, statement2 } => {
            if precedence(statement2.data) >= CONDITIONAL_PRECEDENCE {
                lemma_closed(*statement2, b);
            }
        },
        ExprModel::Comma { exprs } => {
            if precedence(exprs.last().data) >= COMMA_BP + 1 {
                lemma_closed(exprs.last(), b);
            }
        },
        _ => {},
    }
}

/// An expression that is ended by a token of some binding power is ended by
/// a token of less.
pub proof fn lemma_closed_below(e: Spanned<ExprModel>, b: u32, lower: u32)
    requires
        closed(e, b),
        lower <= b,
    ensures
        closed(e, lower),
    decreases e,
{
    match e.data {
        ExprModel::Unary { op, rhs } => {
            if precedence(rhs.data) >= PREFIX_BP + 1 {
                lemma_closed_below(*rhs, b, lower);
            }
        },
        ExprModel::Binary { op, lhs, rhs } => {
            if precedence(rhs.data) >= right_parent(op) {
                lemma_closed_below(*rhs, b, lower);
            }
        },
        ExprModel::Ternary { cond, statement1, statement2 } => {
            if precedence(statement2.data) >= CONDITIONAL_PRECEDENCE {
                lemma_closed_below(*statement2, b, lower);
            }
        },
        ExprModel::Comma { exprs } => {
            if precedence(exprs.last().data) >= COMMA_BP + 1 {
                lemma_closed_below(exprs.last(), b, lower);
            }
        },
        _ => {},
    }
}

/// Reading a concatenation is reading its parts one behind the other.
pub proof fn lemma_reads_split(
    tokens: Seq<Spanned<TokenModel>>,
    pos: int,
    first: Seq<TokenModel>,
    second: Seq<TokenModel>,
)
    requires
        reads(tokens, pos, first + second),
    ensures
        reads(tokens, pos, first),
        reads(tokens, pos + first.len(), second),
{
    assert forall|i: int| 0 <= i < first.len() implies (#[trigger] tokens[pos + i]).data
        == first[i] by {
        assert((first + second)[i] == first[i]);
    }
    assert forall|i: int| 0 <= i < second.len() implies (#[trigger] tokens[pos + first.len()
        + i]).data == second[i] by {
        assert((first + second)[first.len() + i] == second[i]);
        assert(tokens[pos + (first.len() + i)].data == (first + second)[first.len() + i]);
    }
}

/// The tokens of an expression are one or more, and the first of them is no
/// closing parenthesis.
pub proof fn lemma_unparse_starts(e: Spanned<ExprModel>, parent: u32)
    requires
        writable(e),
    ensures
        unparse(e, parent).len() >= 1,
        unparse(e, parent)[0] != right_paren(),
        unparse_body(e).len() >= 1,
        unparse_body(e)[0] != right_paren(),
    decreases e,
{
    let body = unparse_body(e);
    match e.data {
        ExprModel::Unary { op, rhs } => {
            assert(body[0] == prefix_token(op));
        },
        ExprModel::Binary { op, lhs, rhs } => {
            if juxtaposed(e) {
                assert(body[0] == left_paren());
            } else {
                lemma_unparse_starts(*lhs, left_parent(op));
                let first = unparse(*lhs, left_parent(op));
                assert(body[0] == first[0]);
            }
        },
        ExprModel::Ternary { cond, statement1, statement2 } => {
            lemma_unparse_starts(*cond, (CONDITIONAL_PRECEDENCE + 1) as u32);
            let first = unparse(*cond, (CONDITIONAL_PRECEDENCE + 1) as u32);
            assert(body[0] == first[0]);
        },
        ExprModel::Comma { exprs } => {
            lemma_unparse_starts(exprs[0], (COMMA_BP + 1) as u32);
            let first = unparse(exprs[0], (COMMA_BP + 1) as u32);
            assert(body == unparse_list(exprs, 0));
            assert(body == first + seq![comma()] + unparse_list(exprs, 1));
            assert(body[0] == first[0]);
        },
        ExprModel::Call { func, args } => {
            lemma_unparse_starts(*func, CALLEE_PRECEDENCE);
            let first = unparse(*func, CALLEE_PRECEDENCE);
            assert(body[0] == first[0]);
        },
        _ => {},
    }
    if precedence(e.data) < parent {
        assert(unparse(e, parent)[0] == left_paren());
    }
}

/// Where the token that follows starts no expression and binds no tighter
/// than the threshold, nothing more is added to what was parsed.
pub proof fn lemma_stops(
    tokens: Seq<Spanned<TokenModel>>,
    end: int,
    x: Spanned<ExprModel>,
    m: u32,
    grouped: bool,
)
    requires
        end == tokens.len() || (0 <= end < tokens.len() && !can_start_expression(
            tokens[end].data,
        ) && binding_power(tokens[end].data) <= m),
    ensures
        parsed_infixes(tokens, end, x, m, grouped) == Some((x, end)),
{
}

/// What may follow an expression that is written without parentheses and
/// ends at `end`.
pub open spec fn body_followed(
    e: Spanned<ExprModel>,
    tokens: Seq<Spanned<TokenModel>>,
    end: int,
) -> bool {
    end == tokens.len() || (0 <= end < tokens.len() && !can_start_expression(tokens[end].data)
        && closed(e, binding_power(tokens[end].data)))
}

/// The first token of an expression that starts with the call of something
/// that is no name can start an expression.
pub proof fn lemma_leading_token(e: Spanned<ExprModel>, parent: u32)
    requires
        writable(e),
        precedence(e.data) < parent || precedence(e.data) == CALLEE_PRECEDENCE || leads_with_call(
            e,
        ),
    ensures
        unparse(e, parent).len() >= 1,
        can_start_expression(unparse(e, parent)[0]),
    decreases e,
{
    lemma_unparse_starts(e, parent);
    let body = unparse_body(e);
    if precedence(e.data) < parent {
        assert(unparse(e, parent)[0] == left_paren());
    } else {
        match e.data {
            ExprModel::Binary { op, lhs, rhs } => {
                lemma_leading_token(*lhs, left_parent(op));
                lemma_unparse_starts(*lhs, left_parent(op));
                assert(body[0] == unparse(*lhs, left_parent(op))[0]);
            },
            ExprModel::Ternary { cond, statement1, statement2 } => {
                let parent = (CONDITIONAL_PRECEDENCE + 1) as u32;
                lemma_leading_token(*cond, parent);
                lemma_unparse_starts(*cond, parent);
                assert(body[0] == unparse(*cond, parent)[0]);
            },
            ExprModel::Comma { exprs } => {
                let parent = (COMMA_BP + 1) as u32;
                lemma_leading_token(exprs[0], parent);
                lemma_unparse_starts(exprs[0], parent);
                assert(body == unparse_list(exprs, 0));
                assert(body == unparse(exprs[0], parent) + seq![comma()] + unparse_list(exprs, 1));
                assert(body[0] == unparse(exprs[0], parent)[0]);
            },
            ExprModel::Call { func, args } => {
                if precedence(func.data) >= CALLEE_PRECEDENCE {
                    assert(precedence(func.data) == CALLEE_PRECEDENCE);
                }
                lemma_leading_token(*func, CALLEE_PRECEDENCE);
                lemma_unparse_starts(*func, CALLEE_PRECEDENCE);
                assert(body[0] == unparse(*func, CALLEE_PRECEDENCE)[0]);
            },
            _ => {
                assert(can_start_expression(body[0]));
            },
        }
    }
}

/// Parsing the tokens of an expression at a threshold below its binding
/// power is going on with the expression behind its tokens.
pub proof fn lemma_reparse(
    e: Spanned<ExprModel>,
    parent: u32,
    m: u32,
    tokens: Seq<Spanned<TokenModel>>,
    pos: int,
) -> (x: Spanned<ExprModel>)
    requires
        writable(e),
        kept(e, parent),
        leads_with_call(e) ==> m >= IMPLICIT_MUL_BP,
        m < 90,
        reads(tokens, pos, unparse(e, parent)),
        precedence(e.data) < parent || precedence(e.data) > m,
        followed(e, parent, tokens, pos + unparse(e, parent).len()),
    ensures
        same_shape(x, e),
        parsed_expression(tokens, pos, m) == parsed_infixes(
            tokens,
            pos + unparse(e, parent).len(),
            x,
            m,
            precedence(e.data) < parent,
        ),
    decreases e, (if precedence(e.data) < parent { 3int } else { 1int }),
{
    lemma_precedence_bounds(e.data);
    lemma_unparse_starts(e, parent);
    if precedence(e.data) < parent {
        lemma_reparse_grouped(e, m, tokens, pos)
    } else {
        match e.data {
            ExprModel::Value(v) => {
                assert(tokens[pos + 0].data == TokenModel::Value(v));
                let x = Spanned { span: tokens[pos].span, data: ExprModel::Value(v) };
                assert(parsed_prefix(tokens, pos + 1, tokens[pos]) == Some((x, pos + 1)));
                x
            },
            ExprModel::Identifier(s) => {
                assert(tokens[pos + 0].data == TokenModel::Identifier(s));
                let x = Spanned { span: tokens[pos].span, data: ExprModel::Identifier(s) };
                assert(parsed_prefix(tokens, pos + 1, tokens[pos]) == Some((x, pos + 1)));
                x
            },
            ExprModel::Macro(s) => {
                assert(tokens[pos + 0].data == TokenModel::Macro(s));
                let x = Spanned { span: tokens[pos].span, data: ExprModel::Macro(s) };
                assert(parsed_prefix(tokens, pos + 1, tokens[pos]) == Some((x, pos + 1)));
                x
            },
            ExprModel::Unary { op, rhs } => lemma_reparse_unary(e, m, tokens, pos),
            ExprModel::Binary { op, lhs, rhs } => if juxtaposed(e) {
                lemma_reparse_juxtaposed(e, m, tokens, pos)
            } else {
                lemma_reparse_binary(e, m, tokens, pos)
            },
            ExprModel::Ternary { cond, statement1, statement2 } => lemma_reparse_ternary(
                e,
                m,
                tokens,
                pos,
            ),
            ExprModel::Comma { exprs } => lemma_reparse_comma(e, m, tokens, pos),
            ExprModel::Call { func, args } => lemma_reparse_call(e, m, tokens, pos),
        }
    }
}

/// The law for an expression that is written in parentheses.
proof fn lemma_reparse_grouped(
    e: Spanned<ExprModel>,
    m: u32,
    tokens: Seq<Spanned<TokenModel>>,
    pos: int,
) -> (x: Spanned<ExprModel>)
    requires
        writable(e),
        !leads_with_call(e),
        m < 90,
        reads(tokens, pos, seq![left_paren()] + unparse_body(e) + seq![right_paren()]),
    ensures
        same_shape(x, e),
        parsed_expression(tokens, pos, m) == parsed_infixes(
            tokens,
            pos + unparse_body(e).len() + 2,
            x,
            m,
            true,
        ),
    decreases e, 2int,
{
    lemma_precedence_bounds(e.data);
    lemma_unparse_starts(e, 0);
    let body = unparse_body(e);
    lemma_reads_split(tokens, pos, seq![left_paren()] + body, seq![right_paren()]);
    lemma_reads_split(tokens, pos, seq![left_paren()], body);
    assert(tokens[pos + 0].data == left_paren());
    assert(tokens[pos + 1 + body.len() + 0].data == right_paren());
    let close = pos + 1 + body.len();
    assert(unparse(e, 0) == body);
    lemma_closed(e, 0);
    let x = lemma_reparse(e, 0, 0, tokens, pos + 1);
    lemma_stops(tokens, close, x, 0, false);
    assert(parsed_expression(tokens, pos + 1, 0) == Some((x, close)));
    assert(parsed_prefix(tokens, pos + 1, tokens[pos]) == Some((x, close + 1)));
    assert(opens_group(tokens[pos]));
    x
}

/// The law for a multiplication that is written as a juxtaposition.
proof fn lemma_reparse_juxtaposed(
    e: Spanned<ExprModel>,
    m: u32,
    tokens: Seq<Spanned<TokenModel>>,
    pos: int,
) -> (x: Spanned<ExprModel>)
    requires
        juxtaposed(e),
        writable(e),
        m < 90,
        precedence(e.data) > m,
        reads(tokens, pos, unparse_body(e)),
        body_followed(e, tokens, pos + unparse_body(e).len()),
    ensures
        same_shape(x, e),
        parsed_expression(tokens, pos, m) == parsed_infixes(
            tokens,
            pos + unparse_body(e).len(),
            x,
            m,
            false,
        ),
    decreases e, 0int,
{
    let op = e.data->Binary_op;
    let lhs = *e.data->Binary_lhs;
    let rhs = *e.data->Binary_rhs;
    let parent = (IMPLICIT_MUL_BP + 1) as u32;
    let left = seq![left_paren()] + unparse_body(lhs) + seq![right_paren()];
    let right = unparse(rhs, parent);
    let end = pos + unparse_body(e).len();
    let at = pos + left.len();
    assert(writable(lhs) && writable(rhs));
    lemma_leading_token(rhs, parent);
    lemma_reads_split(tokens, pos, left, right);
    assert(tokens[at + 0].data == right[0]);
    let l = lemma_reparse_grouped(lhs, m, tokens, pos);
    let r = lemma_reparse(rhs, parent, IMPLICIT_MUL_BP, tokens, at);
    lemma_stops(tokens, end, r, IMPLICIT_MUL_BP, false);
    assert(parsed_expression(tokens, at, IMPLICIT_MUL_BP) == Some((r, end)));
    let x = binary_node(BinaryOp::Multiplication, l, r);
    assert(parsed_infixes(tokens, at, l, m, true) == parsed_infixes(tokens, end, x, m, false));
    x
}

/// The law for a prefix operator with its operand.
proof fn lemma_reparse_unary(
    e: Spanned<ExprModel>,
    m: u32,
    tokens: Seq<Spanned<TokenModel>>,
    pos: int,
) -> (x: Spanned<ExprModel>)
    requires
        e.data is Unary,
        writable(e),
        m < 90,
        reads(tokens, pos, unparse_body(e)),
        body_followed(e, tokens, pos + unparse_body(e).len()),
    ensures
        same_shape(x, e),
        parsed_expression(tokens, pos, m) == parsed_infixes(
            tokens,
            pos + unparse_body(e).len(),
            x,
            m,
            false,
        ),
    decreases e, 0int,
{
    let op = e.data->Unary_op;
    let rhs = *e.data->Unary_rhs;
    let inner = unparse(rhs, (PREFIX_BP + 1) as u32);
    let end = pos + unparse_body(e).len();
    lemma_reads_split(tokens, pos, seq![prefix_token(op)], inner);
    assert(tokens[pos + 0].data == prefix_token(op));
    let r = lemma_reparse(rhs, (PREFIX_BP + 1) as u32, PREFIX_BP, tokens, pos + 1);
    lemma_stops(tokens, end, r, PREFIX_BP, precedence(rhs.data) < PREFIX_BP + 1);
    assert(parsed_expression(tokens, pos + 1, PREFIX_BP) == Some((r, end)));
    let x = Spanned { span: tokens[pos].span, data: ExprModel::Unary { op, rhs: Box::new(r) } };
    assert(parsed_prefix(tokens, pos + 1, tokens[pos]) == Some((x, end)));
    lemma_unparse_starts(rhs, (PREFIX_BP + 1) as u32);
    x
}

/// The law for a binary operator with its operands.
proof fn lemma_reparse_binary(
    e: Spanned<ExprModel>,
    m: u32,
    tokens: Seq<Spanned<TokenModel>>,
    pos: int,
) -> (x: Spanned<ExprModel>)
    requires
        e.data is Binary,
        !juxtaposed(e),
        writable(e),
        leads_with_call(e) ==> m >= IMPLICIT_MUL_BP,
        m < 90,
        precedence(e.data) > m,
        reads(tokens, pos, unparse_body(e)),
        body_followed(e, tokens, pos + unparse_body(e).len()),
    ensures
        same_shape(x, e),
        parsed_expression(tokens, pos, m) == parsed_infixes(
            tokens,
            pos + unparse_body(e).len(),
            x,
            m,
            false,
        ),
    decreases e, 0int,
{
    let op = e.data->Binary_op;
    let o = op->Binary_0;
    let lhs = *e.data->Binary_lhs;
    let rhs = *e.data->Binary_rhs;
    let p = operator_binding_power(op);
    lemma_precedence_bounds(e.data);
    let left = unparse(lhs, left_parent(op));
    let right = unparse(rhs, right_parent(op));
    let end = pos + unparse_body(e).len();
    let at = pos + left.len();
    lemma_unparse_starts(lhs, left_parent(op));
    lemma_unparse_starts(rhs, right_parent(op));
    lemma_reads_split(tokens, pos, left + seq![TokenModel::Operator(op)], right);
    lemma_reads_split(tokens, pos, left, seq![TokenModel::Operator(op)]);
    assert(tokens[at + 0].data == TokenModel::Operator(op));
    // the left operand, behind which the operator stands
    assert(writable(lhs) && writable(rhs));
    if precedence(lhs.data) >= left_parent(op) {
        if lhs.data is Binary {
            assert(lhs.data->Binary_op is Binary);
        }
        lemma_precedence_bounds(lhs.data);
        lemma_closed(lhs, p);
    }
    let l = lemma_reparse(lhs, left_parent(op), m, tokens, pos);
    // the right operand, which ends where the whole ends
    let r = lemma_reparse(rhs, right_parent(op), right_binding_power(o), tokens, at + 1);
    lemma_stops(tokens, end, r, right_binding_power(o), precedence(rhs.data) < right_parent(op));
    assert(parsed_expression(tokens, at + 1, right_binding_power(o)) == Some((r, end)));
    let x = binary_node(o, l, r);
    assert(parsed_infix(tokens, at + 1, l, tokens[at]) == Some((x, end)));
    assert(parsed_infixes(tokens, at, l, m, precedence(lhs.data) < left_parent(op)) == parsed_infixes(
        tokens,
        end,
        x,
        m,
        false,
    ));
    x
}

/// The law for a conditional.
proof fn lemma_reparse_ternary(
    e: Spanned<ExprModel>,
    m: u32,
    tokens: Seq<Spanned<TokenModel>>,
    pos: int,
) -> (x: Spanned<ExprModel>)
    requires
        e.data is Ternary,
        writable(e),
        leads_with_call(e) ==> m >= IMPLICIT_MUL_BP,
        m < 90,
        precedence(e.data) > m,
        reads(tokens, pos, unparse_body(e)),
        body_followed(e, tokens, pos + unparse_body(e).len()),
    ensures
        same_shape(x, e),
        parsed_expression(tokens, pos, m) == parsed_infixes(
            tokens,
            pos + unparse_body(e).len(),
            x,
            m,
            false,
        ),
    decreases e, 0int,
{
    let cond = *e.data->Ternary_cond;
    let first = *e.data->Ternary_statement1;
    let second = *e.data->Ternary_statement2;
    let question = TokenModel::Operator(Operator::TernaryOp(TernaryOp::TernaryCond));
    let colon = TokenModel::Operator(Operator::TernaryOp(TernaryOp::TernaryElse));
    let c_tokens = unparse(cond, (CONDITIONAL_PRECEDENCE + 1) as u32);
    let a_tokens = unparse(first, 0);
    let b_tokens = unparse(second, CONDITIONAL_PRECEDENCE);
    let end = pos + unparse_body(e).len();
    assert(writable(cond) && writable(first) && writable(second));
    lemma_unparse_starts(cond, (CONDITIONAL_PRECEDENCE + 1) as u32);
    lemma_unparse_starts(first, 0);
    lemma_unparse_starts(second, CONDITIONAL_PRECEDENCE);
    lemma_reads_split(
        tokens,
        pos,
        c_tokens + seq![question] + a_tokens + seq![colon],
        b_tokens,
    );
    lemma_reads_split(tokens, pos, c_tokens + seq![question] + a_tokens, seq![colon]);
    lemma_reads_split(tokens, pos, c_tokens + seq![question], a_tokens);
    lemma_reads_split(tokens, pos, c_tokens, seq![question]);
    let at_question = pos + c_tokens.len();
    let at_colon = at_question + 1 + a_tokens.len();
    assert(tokens[at_question + 0].data == question);
    assert(tokens[at_colon + 0].data == colon);
    if cond.data is Binary {
        assert(cond.data->Binary_op is Binary);
    }
    if first.data is Binary {
        assert(first.data->Binary_op is Binary);
    }
    lemma_precedence_bounds(cond.data);
    lemma_precedence_bounds(first.data);
    if precedence(cond.data) >= CONDITIONAL_PRECEDENCE + 1 {
        lemma_closed(cond, CONDITIONAL_PRECEDENCE);
    }
    let c = lemma_reparse(cond, (CONDITIONAL_PRECEDENCE + 1) as u32, m, tokens, pos);
    lemma_closed(first, 0);
    let a = lemma_reparse(first, 0, 0, tokens, at_question + 1);
    lemma_stops(tokens, at_colon, a, 0, false);
    assert(parsed_expression(tokens, at_question + 1, 0) == Some((a, at_colon)));
    let b = lemma_reparse(second, CONDITIONAL_PRECEDENCE, ELSE_BP, tokens, at_colon + 1);
    lemma_stops(tokens, end, b, ELSE_BP, precedence(second.data) < CONDITIONAL_PRECEDENCE);
    assert(parsed_expression(tokens, at_colon + 1, ELSE_BP) == Some((b, end)));
    let x = Spanned {
        span: Span { start: c.span.start, end: b.span.end },
        data: ExprModel::Ternary {
            cond: Box::new(c),
            statement1: Box::new(a),
            statement2: Box::new(b),
        },
    };
    assert(parsed_infix(tokens, at_question + 1, c, tokens[at_question]) == Some((x, end)));
    assert(parsed_infixes(tokens, at_question, c, m, precedence(cond.data) < CONDITIONAL_PRECEDENCE + 1)
        == parsed_infixes(tokens, end, x, m, false));
    x
}

/// The law for the expressions of a list from the `i`-th on: they are read as
/// a list behind `acc`.
proof fn lemma_reparse_list(
    exprs: Seq<Spanned<ExprModel>>,
    i: int,
    bp: u32,
    acc: Seq<Spanned<ExprModel>>,
    tokens: Seq<Spanned<TokenModel>>,
    pos: int,
) -> (xs: Seq<Spanned<ExprModel>>)
    requires
        forall|j: int| 0 <= j < exprs.len() ==> writable(#[trigger] exprs[j]),
        forall|j: int| i <= j < exprs.len() ==> !leads_with_call(#[trigger] exprs[j]),
        0 <= i < exprs.len(),
        bp == COMMA_BP || bp == COMMA_BP + 1,
        reads(tokens, pos, unparse_list(exprs, i)),
        ({
            let end = pos + unparse_list(exprs, i).len();
            end == tokens.len() || (0 <= end < tokens.len() && !can_start_expression(
                tokens[end].data,
            ) && binding_power(tokens[end].data) == 0 && (precedence(exprs.last().data)
                < COMMA_BP + 1 || closed(exprs.last(), 0)))
        }),
    ensures
        parsed_list(tokens, pos, bp, acc) == Some((xs, pos + unparse_list(exprs, i).len())),
        xs.len() == acc.len() + exprs.len() - i,
        forall|k: int| 0 <= k < acc.len() ==> xs[k] == acc[k],
        forall|j: int| i <= j < exprs.len() ==> same_shape(#[trigger] xs[acc.len() + j - i], exprs[j]),
    decreases exprs, exprs.len() - i,
{
    let member = exprs[i];
    let member_tokens = unparse(member, (COMMA_BP + 1) as u32);
    let end = pos + unparse_list(exprs, i).len();
    assert(writable(member) && !leads_with_call(member));
    if member.data is Binary {
        assert(member.data->Binary_op is Binary);
    }
    lemma_precedence_bounds(member.data);
    lemma_unparse_starts(member, (COMMA_BP + 1) as u32);
    if i == exprs.len() - 1 {
        let x = lemma_reparse(member, (COMMA_BP + 1) as u32, bp, tokens, pos);
        lemma_stops(tokens, end, x, bp, precedence(member.data) < COMMA_BP + 1);
        assert(parsed_expression(tokens, pos, bp) == Some((x, end)));
        let xs = acc.push(x);
        assert(xs[acc.len() + i - i] == x);
        xs
    } else {
        let rest = unparse_list(exprs, i + 1);
        lemma_reads_split(tokens, pos, member_tokens + seq![comma()], rest);
        lemma_reads_split(tokens, pos, member_tokens, seq![comma()]);
        let at_comma = pos + member_tokens.len();
        assert(tokens[at_comma + 0].data == comma());
        if precedence(member.data) >= COMMA_BP + 1 {
            lemma_closed(member, COMMA_BP);
        }
        let x = lemma_reparse(member, (COMMA_BP + 1) as u32, bp, tokens, pos);
        lemma_stops(tokens, at_comma, x, bp, precedence(member.data) < COMMA_BP + 1);
        assert(parsed_expression(tokens, pos, bp) == Some((x, at_comma)));
        let xs = lemma_reparse_list(exprs, i + 1, bp, acc.push(x), tokens, at_comma + 1);
        assert(xs[acc.len() as int] == acc.push(x)[acc.len() as int]);
        assert forall|k: int| 0 <= k < acc.len() implies xs[k] == acc[k] by {
            assert(xs[k] == acc.push(x)[k]);
        }
        assert forall|j: int| i <= j < exprs.len() implies same_shape(
            #[trigger] xs[acc.len() + j - i],
            exprs[j],
        ) by {
            if j > i {
                assert(xs[acc.len() + j - i] == xs[acc.push(x).len() + j - (i + 1)]);
            }
        }
        xs
    }
}

/// The law for a comma sequence.
proof fn lemma_reparse_comma(
    e: Spanned<ExprModel>,
    m: u32,
    tokens: Seq<Spanned<TokenModel>>,
    pos: int,
) -> (x: Spanned<ExprModel>)
    requires
        e.data is Comma,
        writable(e),
        leads_with_call(e) ==> m >= IMPLICIT_MUL_BP,
        m < 90,
        precedence(e.data) > m,
        reads(tokens, pos, unparse_body(e)),
        body_followed(e, tokens, pos + unparse_body(e).len()),
    ensures
        same_shape(x, e),
        parsed_expression(tokens, pos, m) == parsed_infixes(
            tokens,
            pos + unparse_body(e).len(),
            x,
            m,
            false,
        ),
    decreases e, 0int,
{
    let exprs = e.data->Comma_exprs;
    let head = exprs[0];
    let head_tokens = unparse(head, (COMMA_BP + 1) as u32);
    let rest = unparse_list(exprs, 1);
    let end = pos + unparse_body(e).len();
    assert(writable(head));
    assert forall|j: int| 0 <= j < exprs.len() implies writable(#[trigger] exprs[j]) by {}
    assert forall|j: int| 1 <= j < exprs.len() implies !leads_with_call(#[trigger] exprs[j]) by {
        assert(placed(exprs[j]));
    }
    if head.data is Binary {
        assert(head.data->Binary_op is Binary);
    }
    lemma_precedence_bounds(head.data);
    lemma_unparse_starts(head, (COMMA_BP + 1) as u32);
    assert(unparse_body(e) == unparse_list(exprs, 0));
    assert(unparse_body(e) == head_tokens + seq![comma()] + rest);
    lemma_reads_split(tokens, pos, head_tokens + seq![comma()], rest);
    lemma_reads_split(tokens, pos, head_tokens, seq![comma()]);
    let at_comma = pos + head_tokens.len();
    assert(tokens[at_comma + 0].data == comma());
    if precedence(head.data) >= COMMA_BP + 1 {
        lemma_closed(head, COMMA_BP);
    }
    let x0 = lemma_reparse(head, (COMMA_BP + 1) as u32, m, tokens, pos);
    assert(!(x0.data is Comma));
    assert(sequence_start(x0) == seq![x0]);
    let xs = lemma_reparse_list(exprs, 1, COMMA_BP, seq![x0], tokens, at_comma + 1);
    assert(xs[0] == seq![x0][0]);
    assert forall|j: int| 0 <= j < exprs.len() implies same_shape(#[trigger] xs[j], exprs[j]) by {
        if j >= 1 {
            assert(xs[j] == xs[seq![x0].len() + j - 1]);
        }
    }
    let x = Spanned {
        span: Span { start: xs[0].span.start, end: xs.last().span.end },
        data: ExprModel::Comma { exprs: xs },
    };
    assert(stripped(x).data->Comma_exprs =~= stripped(e).data->Comma_exprs);
    assert(parsed_infix(tokens, at_comma + 1, x0, tokens[at_comma]) == Some((x, end)));
    assert(parsed_infixes(tokens, at_comma, x0, m, precedence(head.data) < COMMA_BP + 1)
        == parsed_infixes(tokens, end, x, m, false));
    x
}

/// The law for a call.
proof fn lemma_reparse_call(
    e: Spanned<ExprModel>,
    m: u32,
    tokens: Seq<Spanned<TokenModel>>,
    pos: int,
) -> (x: Spanned<ExprModel>)
    requires
        e.data is Call,
        writable(e),
        leads_with_call(e) ==> m >= IMPLICIT_MUL_BP,
        m < 90,
        reads(tokens, pos, unparse_body(e)),
    ensures
        same_shape(x, e),
        parsed_expression(tokens, pos, m) == parsed_infixes(
            tokens,
            pos + unparse_body(e).len(),
            x,
            m,
            false,
        ),
    decreases e, 0int,
{
    let func = *e.data->Call_func;
    let args = e.data->Call_args;
    let callee = unparse(func, CALLEE_PRECEDENCE);
    let list = unparse_list(args, 0);
    let end = pos + unparse_body(e).len();
    assert(writable(func));
    lemma_reads_split(tokens, pos, callee + seq![left_paren()] + list, seq![right_paren()]);
    lemma_reads_split(tokens, pos, callee + seq![left_paren()], list);
    lemma_reads_split(tokens, pos, callee, seq![left_paren()]);
    let at = pos + callee.len();
    assert(tokens[at + 0].data == left_paren());
    let close = at + 1 + list.len();
    assert(tokens[close + 0].data == right_paren());
    let f = lemma_reparse(func, CALLEE_PRECEDENCE, m, tokens, pos);
    let grouped = precedence(func.data) < CALLEE_PRECEDENCE;
    assert(stripped(f).data is Identifier == stripped(func).data is Identifier);
    assert forall|j: int| 0 <= j < args.len() implies writable(#[trigger] args[j]) by {}
    assert forall|j: int| 0 <= j < args.len() implies !leads_with_call(#[trigger] args[j]) by {
        assert(placed(args[j]));
    }
    let xs = if args.len() == 0 {
        assert(list.len() == 0);
        Seq::<Spanned<ExprModel>>::empty()
    } else {
        assert(writable(args[0]));
        lemma_unparse_starts(args[0], (COMMA_BP + 1) as u32);
        assert(list[0] == unparse(args[0], (COMMA_BP + 1) as u32)[0]);
        assert(tokens[at + 1 + 0].data == list[0]);
        let last = args.last();
        assert(writable(last));
        if last.data is Binary {
            assert(last.data->Binary_op is Binary);
        }
        lemma_precedence_bounds(last.data);
        if precedence(last.data) >= COMMA_BP + 1 {
            lemma_closed(last, 0);
        }
        lemma_reparse_list(args, 0, (COMMA_BP + 1) as u32, Seq::empty(), tokens, at + 1)
    };
    assert forall|j: int| 0 <= j < args.len() implies same_shape(#[trigger] xs[j], args[j]) by {
        assert(xs[j] == xs[0 + j - 0]);
    }
    let x = Spanned {
        span: Span { start: f.span.start, end: tokens[close].span.end },
        data: ExprModel::Call { func: Box::new(f), args: xs },
    };
    assert(parsed_infix(tokens, at + 1, f, tokens[at]) == Some((x, end)));
    assert(!is_bare_name(f, grouped) ==> m >= IMPLICIT_MUL_BP);
    assert(parsed_infixes(tokens, at, f, m, grouped) == parsed_infixes(tokens, end, x, m, false));
    assert(stripped(x).data->Call_args =~= stripped(e).data->Call_args);
    x
}

/// Computing the spans of an expression anew leaves its shape.
pub proof fn lemma_respanned_shape(e: Spanned<ExprModel>)
    ensures
        same_shape(respanned(e), e),
    decreases e,
{
    match e.data {
        ExprModel::Unary { op, rhs } => {
            lemma_respanned_shape(*rhs);
        },
        ExprModel::Binary { op, lhs, rhs } => {
            lemma_respanned_shape(*lhs);
            lemma_respanned_shape(*rhs);
        },
        ExprModel::Ternary { cond, statement1, statement2 } => {
            lemma_respanned_shape(*cond);
            lemma_respanned_shape(*statement1);
            lemma_respanned_shape(*statement2);
        },
        ExprModel::Comma { exprs } => {
            assert forall|i: int| 0 <= i < exprs.len() implies same_shape(
                respanned(#[trigger] exprs[i]),
                exprs[i],
            ) by {
                lemma_respanned_shape(exprs[i]);
            }
            assert(stripped(respanned(e)).data->Comma_exprs =~= stripped(e).data->Comma_exprs);
        },
        ExprModel::Call { func, args } => {
            lemma_respanned_shape(*func);
            assert forall|i: int| 0 <= i < args.len() implies same_shape(
                respanned(#[trigger] args[i]),
                args[i],
            ) by {
                lemma_respanned_shape(args[i]);
            }
            assert(stripped(respanned(e)).data->Call_args =~= stripped(e).data->Call_args);
        },
        _ => {},
    }
}

/// The tokens of a sequence, without their spans.
pub open spec fn token_data(tokens: Seq<Spanned<TokenModel>>) -> Seq<TokenModel> {
    Seq::new(tokens.len(), |i: int| tokens[i].data)
}

/// Parsing the tokens that an expression is written as gives an expression
/// of the same shape, whatever spans the tokens have.
pub proof fn law_unparse_then_parse(e: Spanned<ExprModel>, tokens: Seq<Spanned<TokenModel>>)
    requires
        writable(e),
        !leads_with_call(e),
        token_data(tokens) == unparse(e, 0),
    ensures
        parse_of_tokens(tokens) is Ok,
        same_shape(parse_of_tokens(tokens)->Ok_0, e),
{
    let expected = unparse(e, 0);
    assert(tokens.len() == expected.len());
    assert forall|i: int| 0 <= i < expected.len() implies (#[trigger] tokens[0 + i]).data
        == expected[i] by {
        assert(token_data(tokens)[i] == tokens[i].data);
    }
    if e.data is Binary {
        assert(e.data->Binary_op is Binary);
    }
    lemma_precedence_bounds(e.data);
    let x = lemma_reparse(e, 0, 0, tokens, 0);
    lemma_stops(tokens, tokens.len() as int, x, 0, false);
    lemma_respanned_shape(x);
}

} // verus!
