//! Spans never end before they start: the lexer gives its tokens spans that
//! lie one behind the other inside the text, and the parser gives every node
//! of its tree a span that covers the node's tokens.

use crate::lexer::{is_space, skip_spaces, spans_in_order, token_at, tokens_from, tokens_of};
use crate::operator::operator::{BinaryOp, GroupingOp, Operator, TernaryOp};
use crate::parser::{
    binary_node, can_start_expression, is_operator, merged_spans, parse_of, parse_of_tokens,
    is_bare_name, opens_group, parsed_expression, parsed_infix, parsed_infixes, parsed_list, parsed_prefix, respanned,
    right_binding_power, sequence_start, ExprModel, COMMA_BP, ELSE_BP, IMPLICIT_MUL_BP, PREFIX_BP,
};
use crate::span::{Span, Spanned};
use crate::token::{binding_power, TokenModel};
use vstd::prelude::*;

verus! {

proof fn lemma_skip_forward(bytes: Seq<u8>, pos: int)
    requires
        0 <= pos <= bytes.len(),
    ensures
        pos <= skip_spaces(bytes, pos) <= bytes.len(),
    decreases bytes.len() - pos,
{
    if pos < bytes.len() && is_space(bytes[pos]) {
        lemma_skip_forward(bytes, pos + 1);
    }
}

/// The tokens that are read from `pos` on have spans that lie one behind the
/// other between `pos` and the end of the text.
pub proof fn lemma_token_spans(
    bytes: Seq<u8>,
    pos: int,
    pf: spec_fn(Seq<char>) -> Option<u64>,
)
    requires
        0 <= pos <= bytes.len(),
        bytes.len() <= usize::MAX,
        tokens_from(bytes, pos, pf) is Ok,
    ensures
        spans_in_order(tokens_from(bytes, pos, pf)->Ok_0, pos, bytes.len() as int),
    decreases bytes.len() - pos,
{
    lemma_skip_forward(bytes, pos);
    let start = skip_spaces(bytes, pos);
    if start < bytes.len() {
        let n = token_at(bytes, start, pf)->Ok_0.1;
        lemma_token_spans(bytes, start + n, pf);
        let rest = tokens_from(bytes, start + n, pf)->Ok_0;
        let all = tokens_from(bytes, pos, pf)->Ok_0;
        assert forall|i: int| 0 <= i < all.len() implies pos <= (#[trigger] all[i]).span.start
            < all[i].span.end <= bytes.len() by {
            if i > 0 {
                assert(all[i] == rest[i - 1]);
            }
        }
        assert forall|i: int, j: int| 0 <= i < j < all.len() implies (#[trigger] all[i]).span.end
            <= (#[trigger] all[j]).span.start by {
            assert(all[j] == rest[j - 1]);
            if i > 0 {
                assert(all[i] == rest[i - 1]);
            }
        }
    }
}

/// The tokens of a text have spans that lie one behind the other inside the
/// text, and none of them is empty.
pub proof fn law_token_spans(bytes: Seq<u8>, pf: spec_fn(Seq<char>) -> Option<u64>)
    requires
        bytes.len() <= usize::MAX,
        tokens_of(bytes, pf) is Ok,
    ensures
        spans_in_order(tokens_of(bytes, pf)->Ok_0, 0, bytes.len() as int),
{
    lemma_token_spans(bytes, 0, pf);
}

/// Whether the byte at `p` lies in the span of one of the tokens.
pub open spec fn in_a_token(tokens: Seq<Spanned<TokenModel>>, p: int) -> bool {
    exists|i: int| 0 <= i < tokens.len() && (#[trigger] tokens[i]).span.start <= p < tokens[i].span.end
}

/// Every byte from `pos` on is white space or lies in a token that is read
/// from `pos` on.
proof fn lemma_tokens_cover(bytes: Seq<u8>, pos: int, pf: spec_fn(Seq<char>) -> Option<u64>)
    requires
        0 <= pos <= bytes.len(),
        bytes.len() <= usize::MAX,
        tokens_from(bytes, pos, pf) is Ok,
    ensures
        forall|p: int|
            pos <= p < bytes.len() ==> is_space(#[trigger] bytes[p]) || in_a_token(
                tokens_from(bytes, pos, pf)->Ok_0,
                p,
            ),
    decreases bytes.len() - pos,
{
    lemma_skip_forward(bytes, pos);
    lemma_spaces_skipped(bytes, pos);
    let start = skip_spaces(bytes, pos);
    let all = tokens_from(bytes, pos, pf)->Ok_0;
    if start < bytes.len() {
        let n = token_at(bytes, start, pf)->Ok_0.1;
        lemma_tokens_cover(bytes, start + n, pf);
        let rest = tokens_from(bytes, start + n, pf)->Ok_0;
        assert forall|p: int| pos <= p < bytes.len() implies is_space(#[trigger] bytes[p])
            || in_a_token(all, p) by {
            if p < start {
            } else if p < start + n {
                assert(all[0].span.start <= p < all[0].span.end);
            } else if !is_space(bytes[p]) {
                let i = choose|i: int|
                    0 <= i < rest.len() && (#[trigger] rest[i]).span.start <= p < rest[i].span.end;
                assert(all[i + 1] == rest[i]);
            }
        }
    }
}

/// The bytes that are passed over as white space are white space.
proof fn lemma_spaces_skipped(bytes: Seq<u8>, pos: int)
    requires
        0 <= pos <= bytes.len(),
    ensures
        forall|p: int| pos <= p < skip_spaces(bytes, pos) ==> is_space(#[trigger] bytes[p]),
    decreases bytes.len() - pos,
{
    if pos < bytes.len() && is_space(bytes[pos]) {
        lemma_spaces_skipped(bytes, pos + 1);
    }
}

/// Every byte of a text that has tokens is white space or lies in the span
/// of one of its tokens.
pub proof fn law_tokens_cover_text(bytes: Seq<u8>, pf: spec_fn(Seq<char>) -> Option<u64>)
    requires
        bytes.len() <= usize::MAX,
        tokens_of(bytes, pf) is Ok,
    ensures
        forall|p: int|
            0 <= p < bytes.len() ==> is_space(#[trigger] bytes[p]) || in_a_token(
                tokens_of(bytes, pf)->Ok_0,
                p,
            ),
{
    lemma_tokens_cover(bytes, 0, pf);
}

/// Whether every span in the expression ends no earlier than it starts.
pub open spec fn well_spanned(e: Spanned<ExprModel>) -> bool
    decreases e,
{
    e.span.well_formed() && match e.data {
        ExprModel::Unary { op, rhs } => well_spanned(*rhs),
        ExprModel::Binary { op, lhs, rhs } => well_spanned(*lhs) && well_spanned(*rhs),
        ExprModel::Ternary { cond, statement1, statement2 } => well_spanned(*cond) && well_spanned(
            *statement1,
        ) && well_spanned(*statement2),
        ExprModel::Comma { exprs } => forall|i: int|
            0 <= i < exprs.len() ==> well_spanned(#[trigger] exprs[i]),
        ExprModel::Call { func, args } => well_spanned(*func) && forall|i: int|
            0 <= i < args.len() ==> well_spanned(#[trigger] args[i]),
        _ => true,
    }
}

/// Whether the span of every literal and name in the expression ends no
/// earlier than it starts, and every comma sequence has a member.
pub open spec fn leaves_well_spanned(e: Spanned<ExprModel>) -> bool
    decreases e,
{
    match e.data {
        ExprModel::Unary { op, rhs } => leaves_well_spanned(*rhs),
        ExprModel::Binary { op, lhs, rhs } => leaves_well_spanned(*lhs) && leaves_well_spanned(
            *rhs,
        ),
        ExprModel::Ternary { cond, statement1, statement2 } => leaves_well_spanned(*cond)
            && leaves_well_spanned(*statement1) && leaves_well_spanned(*statement2),
        ExprModel::Comma { exprs } => exprs.len() > 0 && forall|i: int|
            0 <= i < exprs.len() ==> leaves_well_spanned(#[trigger] exprs[i]),
        ExprModel::Call { func, args } => leaves_well_spanned(*func) && forall|i: int|
            0 <= i < args.len() ==> leaves_well_spanned(#[trigger] args[i]),
        _ => e.span.well_formed(),
    }
}

/// Spans merged into a span that is well formed, or of which one is well
/// formed, give a span that is well formed.
proof fn lemma_merged_spans(start: Span, members: Seq<Spanned<ExprModel>>)
    requires
        start.well_formed() || exists|i: int|
            0 <= i < members.len() && (#[trigger] members[i]).span.well_formed(),
    ensures
        merged_spans(start, members).well_formed(),
    decreases members.len(),
{
    if members.len() > 0 {
        if !members.last().span.well_formed() {
            if !start.well_formed() {
                let i = choose|i: int|
                    0 <= i < members.len() && (#[trigger] members[i]).span.well_formed();
                assert(members.drop_last()[i] == members[i]);
            }
            lemma_merged_spans(start, members.drop_last());
        }
    }
}

/// Computing the spans anew gives every node a span that ends no earlier
/// than it starts, where the literals and names have such spans.
pub proof fn law_respanned_is_well_spanned(e: Spanned<ExprModel>)
    requires
        leaves_well_spanned(e),
    ensures
        well_spanned(respanned(e)),
    decreases e,
{
    match e.data {
        ExprModel::Unary { op, rhs } => {
            law_respanned_is_well_spanned(*rhs);
        },
        ExprModel::Binary { op, lhs, rhs } => {
            law_respanned_is_well_spanned(*lhs);
            law_respanned_is_well_spanned(*rhs);
        },
        ExprModel::Ternary { cond, statement1, statement2 } => {
            law_respanned_is_well_spanned(*cond);
            law_respanned_is_well_spanned(*statement1);
            law_respanned_is_well_spanned(*statement2);
        },
        ExprModel::Comma { exprs } => {
            let members = respanned(e).data->Comma_exprs;
            assert forall|i: int| 0 <= i < members.len() implies well_spanned(
                #[trigger] members[i],
            ) by {
                law_respanned_is_well_spanned(exprs[i]);
            }
            assert(members[0].span.well_formed());
            lemma_merged_spans(e.span, members);
        },
        ExprModel::Call { func, args } => {
            law_respanned_is_well_spanned(*func);
            let members = respanned(e).data->Call_args;
            assert forall|i: int| 0 <= i < members.len() implies well_spanned(
                #[trigger] members[i],
            ) by {
                law_respanned_is_well_spanned(args[i]);
            }
            lemma_merged_spans(respanned(*func).span, members);
        },
        _ => {},
    }
}

/// Whether every token has a span that ends no earlier than it starts.
pub open spec fn tokens_well_spanned(tokens: Seq<Spanned<TokenModel>>) -> bool {
    forall|i: int| 0 <= i < tokens.len() ==> (#[trigger] tokens[i]).span.well_formed()
}

/// What the parser reads at a position has literals and names with the spans
/// of their tokens.
proof fn lemma_parsed_expression_leaves(tokens: Seq<Spanned<TokenModel>>, pos: int, min_bp: u32)
    requires
        tokens_well_spanned(tokens),
        parsed_expression(tokens, pos, min_bp) is Some,
    ensures
        leaves_well_spanned(parsed_expression(tokens, pos, min_bp)->Some_0.0),
    decreases tokens.len() - pos, 0int,
{
    lemma_parsed_prefix_leaves(tokens, pos + 1, tokens[pos]);
    let (left, p) = parsed_prefix(tokens, pos + 1, tokens[pos])->Some_0;
    lemma_parsed_infixes_leaves(tokens, p, left, min_bp, opens_group(tokens[pos]));
}

proof fn lemma_parsed_prefix_leaves(
    tokens: Seq<Spanned<TokenModel>>,
    pos: int,
    t: Spanned<TokenModel>,
)
    requires
        tokens_well_spanned(tokens),
        t.span.well_formed(),
        parsed_prefix(tokens, pos, t) is Some,
    ensures
        leaves_well_spanned(parsed_prefix(tokens, pos, t)->Some_0.0),
    decreases tokens.len() - pos, 1int,
{
    match t.data {
        TokenModel::Operator(_) => {
            if parsed_expression(tokens, pos, PREFIX_BP) is Some {
                lemma_parsed_expression_leaves(tokens, pos, PREFIX_BP);
            }
            if parsed_expression(tokens, pos, 0) is Some {
                lemma_parsed_expression_leaves(tokens, pos, 0);
            }
        },
        _ => {},
    }
}

proof fn lemma_parsed_infixes_leaves(
    tokens: Seq<Spanned<TokenModel>>,
    pos: int,
    left: Spanned<ExprModel>,
    min_bp: u32,
    grouped: bool,
)
    requires
        tokens_well_spanned(tokens),
        leaves_well_spanned(left),
        parsed_infixes(tokens, pos, left, min_bp, grouped) is Some,
    ensures
        leaves_well_spanned(parsed_infixes(tokens, pos, left, min_bp, grouped)->Some_0.0),
    decreases tokens.len() - pos, 1int,
{
    if 0 <= pos < tokens.len() {
        if can_start_expression(tokens[pos].data) && !is_bare_name(left, grouped)
            && IMPLICIT_MUL_BP > min_bp {
            lemma_parsed_expression_leaves(tokens, pos, IMPLICIT_MUL_BP);
            let (rhs, p) = parsed_expression(tokens, pos, IMPLICIT_MUL_BP)->Some_0;
            lemma_parsed_infixes_leaves(
                tokens,
                p,
                binary_node(BinaryOp::Multiplication, left, rhs),
                min_bp,
                false,
            );
        } else if binding_power(tokens[pos].data) > min_bp {
            lemma_parsed_infix_leaves(tokens, pos + 1, left, tokens[pos]);
            let (next, p) = parsed_infix(tokens, pos + 1, left, tokens[pos])->Some_0;
            lemma_parsed_infixes_leaves(tokens, p, next, min_bp, false);
        }
    }
}

proof fn lemma_parsed_infix_leaves(
    tokens: Seq<Spanned<TokenModel>>,
    pos: int,
    left: Spanned<ExprModel>,
    t: Spanned<TokenModel>,
)
    requires
        tokens_well_spanned(tokens),
        leaves_well_spanned(left),
        parsed_infix(tokens, pos, left, t) is Some,
    ensures
        leaves_well_spanned(parsed_infix(tokens, pos, left, t)->Some_0.0),
    decreases tokens.len() - pos, 2int,
{
    match t.data {
        TokenModel::Operator(Operator::Binary(op)) => {
            lemma_parsed_expression_leaves(tokens, pos, right_binding_power(op));
        },
        TokenModel::Operator(Operator::Grouping(GroupingOp::LeftParen)) => {
            if pos < tokens.len() && !is_operator(
                tokens[pos],
                Operator::Grouping(
                    GroupingOp::RightParen,
                ),
            ) {
                lemma_parsed_list_leaves(
                    tokens,
                    pos,
                    (COMMA_BP + 1) as u32,
                    Seq::empty(),
                );
            }
        },
        TokenModel::Operator(Operator::Grouping(GroupingOp::Comma)) => {
            let first = sequence_start(left);
            assert forall|i: int| 0 <= i < first.len() implies leaves_well_spanned(
                #[trigger] first[i],
            ) by {}
            lemma_parsed_list_leaves(tokens, pos, COMMA_BP, first);
        },
        TokenModel::Operator(Operator::TernaryOp(TernaryOp::TernaryCond)) => {
            lemma_parsed_expression_leaves(tokens, pos, 0);
            let (statement1, p) = parsed_expression(tokens, pos, 0)->Some_0;
            lemma_parsed_expression_leaves(tokens, p + 1, ELSE_BP);
        },
        _ => {},
    }
}

proof fn lemma_parsed_list_leaves(
    tokens: Seq<Spanned<TokenModel>>,
    pos: int,
    bp: u32,
    acc: Seq<Spanned<ExprModel>>,
)
    requires
        tokens_well_spanned(tokens),
        forall|i: int| 0 <= i < acc.len() ==> leaves_well_spanned(#[trigger] acc[i]),
        parsed_list(tokens, pos, bp, acc) is Some,
    ensures
        parsed_list(tokens, pos, bp, acc)->Some_0.0.len() > 0,
        forall|i: int|
            0 <= i < parsed_list(tokens, pos, bp, acc)->Some_0.0.len() ==> leaves_well_spanned(
                #[trigger] parsed_list(tokens, pos, bp, acc)->Some_0.0[i],
            ),
    decreases tokens.len() - pos, 1int,
{
    lemma_parsed_expression_leaves(tokens, pos, bp);
    let (e, p) = parsed_expression(tokens, pos, bp)->Some_0;
    let next = acc.push(e);
    assert forall|i: int| 0 <= i < next.len() implies leaves_well_spanned(#[trigger] next[i]) by {
        if i < acc.len() {
            assert(next[i] == acc[i]);
        }
    }
    if pos <= p < tokens.len() && is_operator(
        tokens[p],
        Operator::Grouping(GroupingOp::Comma),
    ) {
        lemma_parsed_list_leaves(tokens, p + 1, bp, next);
    }
}

/// The tree that is parsed from tokens whose spans end no earlier than they
/// start has such a span at every node.
pub proof fn law_parsed_tree_is_well_spanned(tokens: Seq<Spanned<TokenModel>>)
    requires
        tokens_well_spanned(tokens),
        parse_of_tokens(tokens) is Ok,
    ensures
        well_spanned(parse_of_tokens(tokens)->Ok_0),
{
    lemma_parsed_expression_leaves(tokens, 0, 0);
    law_respanned_is_well_spanned(parsed_expression(tokens, 0, 0)->Some_0.0);
}

/// The tree that is parsed from a text has a span that ends no earlier than
/// it starts at every node.
pub proof fn law_parsed_text_is_well_spanned(
    src: Seq<char>,
    bytes: Seq<u8>,
    pf: spec_fn(Seq<char>) -> Option<u64>,
)
    requires
        bytes.len() <= usize::MAX,
        parse_of(src, bytes, pf) is Ok,
    ensures
        well_spanned(parse_of(src, bytes, pf)->Ok_0),
{
    law_token_spans(bytes, pf);
    let tokens = tokens_of(bytes, pf)->Ok_0;
    assert(tokens_well_spanned(tokens));
    law_parsed_tree_is_well_spanned(tokens);
}

} // verus!
