//! The parser: a precedence-climbing parser from tokens to a spanned syntax tree.
//!
//! Every token has a left binding power. An operand is parsed with a threshold:
//! an infix operator is taken only while its binding power is above the
//! threshold. Two operands that stand side by side multiply, unless the left
//! one is an identifier that is not written in parentheses, which is kept
//! for calls: `f(x)` is a call, `(f)(x)` and `2(x)` are products.

use crate::error::{Error, ErrorModel};
use crate::lexer::{
    holds_point, invalid_token, lex_string, reads_floats, token_models, tokens_of,
};
use crate::operator::{BinaryOp, GroupingOp, Operator, TernaryOp, UnaryOp};
use crate::span::{Span, Spanned};
use crate::token::{binary_binding_power, binding_power, operator_lbp, Token, TokenModel};
use crate::value::Value;
use vstd::prelude::*;
use vstd::string::StringSliceAdditionalSpecFns;

verus! {

/// The binding power of multiplication by juxtaposition.
pub const IMPLICIT_MUL_BP: u32 = 65;

/// The threshold at which the operand of a prefix operator is parsed.
pub const PREFIX_BP: u32 = 70;

/// The threshold at which the members of a comma sequence are parsed.
pub const COMMA_BP: u32 = 1;

/// The threshold at which the else branch of a conditional is parsed.
pub const ELSE_BP: u32 = 4;

/// A node of the syntax tree.
#[derive(Debug, PartialEq)]
pub enum Expr {
    Value(Value),
    Identifier(String),
    Macro(String),
    Unary { op: Operator, rhs: Box<Spanned<Expr>> },
    Binary { op: Operator, lhs: Box<Spanned<Expr>>, rhs: Box<Spanned<Expr>> },
    Comma { exprs: Vec<Spanned<Expr>> },
    Ternary {
        cond: Box<Spanned<Expr>>,
        statement1: Box<Spanned<Expr>>,
        statement2: Box<Spanned<Expr>>,
    },
    Call { func: Box<Spanned<Expr>>, args: Vec<Spanned<Expr>> },
}

/// An expression with its names as sequences of characters and its lists as
/// sequences.
pub enum ExprModel {
    Value(Value),
    Identifier(Seq<char>),
    Macro(Seq<char>),
    Unary { op: Operator, rhs: Box<Spanned<ExprModel>> },
    Binary { op: Operator, lhs: Box<Spanned<ExprModel>>, rhs: Box<Spanned<ExprModel>> },
    Comma { exprs: Seq<Spanned<ExprModel>> },
    Ternary {
        cond: Box<Spanned<ExprModel>>,
        statement1: Box<Spanned<ExprModel>>,
        statement2: Box<Spanned<ExprModel>>,
    },
    Call { func: Box<Spanned<ExprModel>>, args: Seq<Spanned<ExprModel>> },
}

impl Expr {
    /// The expression with its names as sequences of characters and its
    /// lists as sequences.
    pub open spec fn model(self) -> ExprModel
        decreases self,
    {
        match self {
            Expr::Value(v) => ExprModel::Value(v),
            Expr::Identifier(s) => ExprModel::Identifier(s@),
            Expr::Macro(s) => ExprModel::Macro(s@),
            Expr::Unary { op, rhs } => ExprModel::Unary {
                op,
                rhs: Box::new(Spanned { span: rhs.span, data: rhs.data.model() }),
            },
            Expr::Binary { op, lhs, rhs } => ExprModel::Binary {
                op,
                lhs: Box::new(Spanned { span: lhs.span, data: lhs.data.model() }),
                rhs: Box::new(Spanned { span: rhs.span, data: rhs.data.model() }),
            },
            Expr::Comma { exprs } => ExprModel::Comma {
                exprs: Seq::new(
                    exprs@.len(),
                    |i: int|
                        if 0 <= i < exprs@.len() {
                            Spanned { span: exprs@[i].span, data: exprs@[i].data.model() }
                        } else {
                            arbitrary()
                        },
                ),
            },
            Expr::Ternary { cond, statement1, statement2 } => ExprModel::Ternary {
                cond: Box::new(Spanned { span: cond.span, data: cond.data.model() }),
                statement1: Box::new(
                    Spanned { span: statement1.span, data: statement1.data.model() },
                ),
                statement2: Box::new(
                    Spanned { span: statement2.span, data: statement2.data.model() },
                ),
            },
            Expr::Call { func, args } => ExprModel::Call {
                func: Box::new(Spanned { span: func.span, data: func.data.model() }),
                args: Seq::new(
                    args@.len(),
                    |i: int|
                        if 0 <= i < args@.len() {
                            Spanned { span: args@[i].span, data: args@[i].data.model() }
                        } else {
                            arbitrary()
                        },
                ),
            },
        }
    }
}

impl View for Expr {
    type V = ExprModel;

    open spec fn view(&self) -> ExprModel {
        self.model()
    }
}

/// The models of a list of expressions.
pub open spec fn expr_models(exprs: Seq<Spanned<Expr>>) -> Seq<Spanned<ExprModel>> {
    Seq::new(exprs.len(), |i: int| exprs[i]@)
}

/// The model of a comma node, or of a call, holds the models of its list.
pub proof fn lemma_list_models(exprs: Vec<Spanned<Expr>>, func: Box<Spanned<Expr>>)
    ensures
        (Expr::Comma { exprs })@ == (ExprModel::Comma { exprs: expr_models(exprs@) }),
        (Expr::Call { func, args: exprs })@ == (ExprModel::Call {
            func: Box::new(func@),
            args: expr_models(exprs@),
        }),
{
    assert((Expr::Comma { exprs }).model()->Comma_exprs =~= expr_models(exprs@));
    assert((Expr::Call { func, args: exprs }).model()->Call_args =~= expr_models(exprs@));
}

impl Clone for Expr {
    fn clone(&self) -> (r: Self)
        ensures
            r@ == self@,
        decreases self,
    {
        match self {
            Expr::Value(v) => Expr::Value(*v),
            Expr::Identifier(s) => Expr::Identifier(s.clone()),
            Expr::Macro(s) => Expr::Macro(s.clone()),
            Expr::Unary { op, rhs } => Expr::Unary {
                op: *op,
                rhs: Box::new(Spanned { span: rhs.span, data: rhs.data.clone() }),
            },
            Expr::Binary { op, lhs, rhs } => Expr::Binary {
                op: *op,
                lhs: Box::new(Spanned { span: lhs.span, data: lhs.data.clone() }),
                rhs: Box::new(Spanned { span: rhs.span, data: rhs.data.clone() }),
            },
            Expr::Comma { exprs } => {
                let copies = clone_list(exprs);
                proof {
                    lemma_list_models(*exprs, arbitrary());
                    lemma_list_models(copies, arbitrary());
                }
                Expr::Comma { exprs: copies }
            },
            Expr::Ternary { cond, statement1, statement2 } => Expr::Ternary {
                cond: Box::new(Spanned { span: cond.span, data: cond.data.clone() }),
                statement1: Box::new(
                    Spanned { span: statement1.span, data: statement1.data.clone() },
                ),
                statement2: Box::new(
                    Spanned { span: statement2.span, data: statement2.data.clone() },
                ),
            },
            Expr::Call { func, args } => {
                let copies = clone_list(args);
                let f = Box::new(Spanned { span: func.span, data: func.data.clone() });
                proof {
                    lemma_list_models(*args, *func);
                    lemma_list_models(copies, f);
                }
                Expr::Call { func: f, args: copies }
            },
        }
    }
}

/// A copy of a list of expressions.
pub fn clone_list(exprs: &Vec<Spanned<Expr>>) -> (r: Vec<Spanned<Expr>>)
    ensures
        expr_models(r@) == expr_models(exprs@),
    decreases exprs,
{
    let mut out: Vec<Spanned<Expr>> = Vec::new();
    let mut i: usize = 0;
    while i < exprs.len()
        invariant
            i <= exprs.len(),
            out.len() == i,
            forall|j: int| 0 <= j < i ==> out@[j]@ == exprs@[j]@,
        decreases exprs.len() - i,
    {
        let c = exprs[i].data.clone();
        out.push(Spanned { span: exprs[i].span, data: c });
        i = i + 1;
    }
    assert(expr_models(out@) =~= expr_models(exprs@));
    out
}

/// Whether a token can be the first of an expression.
pub open spec fn can_start_expression(t: TokenModel) -> bool {
    match t {
        TokenModel::Value(_) | TokenModel::Identifier(_) | TokenModel::Macro(_) => true,
        TokenModel::Operator(Operator::Unary(_)) => true,
        TokenModel::Operator(Operator::Grouping(GroupingOp::LeftParen)) => true,
        _ => false,
    }
}

/// The threshold at which the right operand of a binary operator is parsed:
/// one below its own binding power for the operators that associate to the
/// right, which are `**` and the assignments.
pub open spec fn right_binding_power(op: BinaryOp) -> u32 {
    if op == BinaryOp::Exponentiation || op.assigns() {
        (binary_binding_power(op) - 1) as u32
    } else {
        binary_binding_power(op)
    }
}

/// Whether the token is the operator `op`.
pub open spec fn is_operator(t: Spanned<TokenModel>, op: Operator) -> bool {
    t.data == TokenModel::Operator(op)
}

/// A node for `lhs op rhs`, which spans from the start of `lhs` to the end of `rhs`.
pub open spec fn binary_node(
    op: BinaryOp,
    lhs: Spanned<ExprModel>,
    rhs: Spanned<ExprModel>,
) -> Spanned<ExprModel> {
    Spanned {
        span: Span { start: lhs.span.start, end: rhs.span.end },
        data: ExprModel::Binary {
            op: Operator::Binary(op),
            lhs: Box::new(lhs),
            rhs: Box::new(rhs),
        },
    }
}

/// The members that a comma sequence starts with: those of `left` if it is a
/// sequence itself, else `left` alone.
pub open spec fn sequence_start(left: Spanned<ExprModel>) -> Seq<Spanned<ExprModel>> {
    match left.data {
        ExprModel::Comma { exprs } => exprs,
        _ => seq![left],
    }
}

/// The expression that starts at `pos`, parsed while infix operators bind
/// tighter than `min_bp`, and the position behind it.
pub open spec fn parsed_expression(tokens: Seq<Spanned<TokenModel>>, pos: int, min_bp: u32) -> Option<
    (Spanned<ExprModel>, int),
>
    decreases tokens.len() - pos, 0int,
{
    if pos < 0 || pos >= tokens.len() {
        None
    } else {
        match parsed_prefix(tokens, pos + 1, tokens[pos]) {
            None => None,
            Some((left, p)) => if p <= pos || p > tokens.len() {
                None
            } else {
                parsed_infixes(tokens, p, left, min_bp, opens_group(tokens[pos]))
            },
        }
    }
}

/// Whether a token is the `(` that opens a parenthesized operand.
pub open spec fn opens_group(t: Spanned<TokenModel>) -> bool {
    is_operator(t, Operator::Grouping(GroupingOp::LeftParen))
}

/// The operand that the token `t` starts, where `pos` is the position behind `t`:
/// a literal or a name by itself, `-` or `~` with its operand, or an
/// expression in parentheses.
pub open spec fn parsed_prefix(
    tokens: Seq<Spanned<TokenModel>>,
    pos: int,
    t: Spanned<TokenModel>,
) -> Option<(Spanned<ExprModel>, int)>
    decreases tokens.len() - pos, 1int,
{
    if pos < 0 || pos > tokens.len() {
        None
    } else {
        match t.data {
            TokenModel::Value(v) => Some((Spanned { span: t.span, data: ExprModel::Value(v) }, pos)),
            TokenModel::Identifier(s) => Some(
                (Spanned { span: t.span, data: ExprModel::Identifier(s) }, pos),
            ),
            TokenModel::Macro(s) => Some((Spanned { span: t.span, data: ExprModel::Macro(s) }, pos)),
            TokenModel::Operator(Operator::Binary(BinaryOp::Subtraction)) => match parsed_expression(
                tokens,
                pos,
                PREFIX_BP,
            ) {
                None => None,
                Some((rhs, p)) => Some(
                    (
                        Spanned {
                            span: t.span,
                            data: ExprModel::Unary {
                                op: Operator::Unary(UnaryOp::Negation),
                                rhs: Box::new(rhs),
                            },
                        },
                        p,
                    ),
                ),
            },
            TokenModel::Operator(Operator::Unary(UnaryOp::BitwiseNot)) => match parsed_expression(
                tokens,
                pos,
                PREFIX_BP,
            ) {
                None => None,
                Some((rhs, p)) => Some(
                    (
                        Spanned {
                            span: t.span,
                            data: ExprModel::Unary {
                                op: Operator::Unary(UnaryOp::BitwiseNot),
                                rhs: Box::new(rhs),
                            },
                        },
                        p,
                    ),
                ),
            },
            TokenModel::Operator(Operator::Grouping(GroupingOp::LeftParen)) => match parsed_expression(
                tokens,
                pos,
                0,
            ) {
                None => None,
                Some((e, p)) => if 0 <= p < tokens.len() && is_operator(
                    tokens[p],
                    Operator::Grouping(GroupingOp::RightParen),
                ) {
                    Some((e, p + 1))
                } else {
                    None
                },
            },
            _ => None,
        }
    }
}

/// Whether `left` is a name written by itself, not in parentheses: the one
/// operand behind which an operand that follows is not multiplied with it,
/// so that `f(x)` is a call.
pub open spec fn is_bare_name(left: Spanned<ExprModel>, grouped: bool) -> bool {
    left.data is Identifier && !grouped
}

/// What `left` grows into by the infix operators and juxtaposed operands
/// that follow it at `pos` and bind tighter than `min_bp`. `grouped` says
/// whether `left` was written in parentheses.
pub open spec fn parsed_infixes(
    tokens: Seq<Spanned<TokenModel>>,
    pos: int,
    left: Spanned<ExprModel>,
    min_bp: u32,
    grouped: bool,
) -> Option<(Spanned<ExprModel>, int)>
    decreases tokens.len() - pos, 1int,
{
    if pos < 0 || pos >= tokens.len() {
        Some((left, pos))
    } else if can_start_expression(tokens[pos].data) && !is_bare_name(left, grouped)
        && IMPLICIT_MUL_BP > min_bp {
        match parsed_expression(tokens, pos, IMPLICIT_MUL_BP) {
            None => None,
            Some((rhs, p)) => if p <= pos || p > tokens.len() {
                None
            } else {
                parsed_infixes(
                    tokens,
                    p,
                    binary_node(BinaryOp::Multiplication, left, rhs),
                    min_bp,
                    false,
                )
            },
        }
    } else if binding_power(tokens[pos].data) <= min_bp {
        Some((left, pos))
    } else {
        match parsed_infix(tokens, pos + 1, left, tokens[pos]) {
            None => None,
            Some((next, p)) => if p <= pos || p > tokens.len() {
                None
            } else {
                parsed_infixes(tokens, p, next, min_bp, false)
            },
        }
    }
}

/// The node that the infix token `t` makes of `left` and of what follows at
/// `pos`, the position behind `t`: a binary operation, a call, a comma
/// sequence or a conditional.
pub open spec fn parsed_infix(
    tokens: Seq<Spanned<TokenModel>>,
    pos: int,
    left: Spanned<ExprModel>,
    t: Spanned<TokenModel>,
) -> Option<(Spanned<ExprModel>, int)>
    decreases tokens.len() - pos, 2int,
{
    if pos < 0 || pos > tokens.len() {
        None
    } else {
        match t.data {
            TokenModel::Operator(Operator::Binary(op)) => match parsed_expression(
                tokens,
                pos,
                right_binding_power(op),
            ) {
                None => None,
                Some((right, p)) => Some((binary_node(op, left, right), p)),
            },
            TokenModel::Operator(Operator::Grouping(GroupingOp::LeftParen)) => {
                let args = if pos < tokens.len() && !is_operator(
                    tokens[pos],
                    Operator::Grouping(GroupingOp::RightParen),
                ) {
                    parsed_list(tokens, pos, (COMMA_BP + 1) as u32, Seq::empty())
                } else {
                    Some((Seq::empty(), pos))
                };
                match args {
                    None => None,
                    Some((args, p)) => if 0 <= p < tokens.len() && is_operator(
                        tokens[p],
                        Operator::Grouping(GroupingOp::RightParen),
                    ) {
                        Some(
                            (
                                Spanned {
                                    span: Span { start: left.span.start, end: tokens[p].span.end },
                                    data: ExprModel::Call { func: Box::new(left), args },
                                },
                                p + 1,
                            ),
                        )
                    } else {
                        None
                    },
                }
            },
            TokenModel::Operator(Operator::Grouping(GroupingOp::Comma)) => match parsed_list(
                tokens,
                pos,
                COMMA_BP,
                sequence_start(left),
            ) {
                None => None,
                Some((exprs, p)) => Some(
                    (
                        Spanned {
                            span: Span { start: exprs[0].span.start, end: exprs.last().span.end },
                            data: ExprModel::Comma { exprs },
                        },
                        p,
                    ),
                ),
            },
            TokenModel::Operator(Operator::TernaryOp(TernaryOp::TernaryCond)) => match parsed_expression(
                tokens,
                pos,
                0,
            ) {
                None => None,
                Some((statement1, p)) => if pos <= p < tokens.len() && is_operator(
                    tokens[p],
                    Operator::TernaryOp(TernaryOp::TernaryElse),
                ) {
                    match parsed_expression(tokens, p + 1, ELSE_BP) {
                        None => None,
                        Some((statement2, q)) => Some(
                            (
                                Spanned {
                                    span: Span { start: left.span.start, end: statement2.span.end },
                                    data: ExprModel::Ternary {
                                        cond: Box::new(left),
                                        statement1: Box::new(statement1),
                                        statement2: Box::new(statement2),
                                    },
                                },
                                q,
                            ),
                        ),
                    }
                } else {
                    None
                },
            },
            _ => None,
        }
    }
}

/// The expressions, separated by commas, that start at `pos`, each parsed at
/// the threshold `bp`, behind those in `acc`.
pub open spec fn parsed_list(
    tokens: Seq<Spanned<TokenModel>>,
    pos: int,
    bp: u32,
    acc: Seq<Spanned<ExprModel>>,
) -> Option<(Seq<Spanned<ExprModel>>, int)>
    decreases tokens.len() - pos, 1int,
{
    match parsed_expression(tokens, pos, bp) {
        None => None,
        Some((e, p)) => if pos <= p < tokens.len() && is_operator(
            tokens[p],
            Operator::Grouping(GroupingOp::Comma),
        ) {
            parsed_list(tokens, p + 1, bp, acc.push(e))
        } else {
            Some((acc.push(e), p))
        },
    }
}

/// The spans of `exprs` merged into `start`, one after the other.
pub open spec fn merged_spans(start: Span, exprs: Seq<Spanned<ExprModel>>) -> Span
    decreases exprs.len(),
{
    if exprs.len() == 0 {
        start
    } else {
        merged_spans(start, exprs.drop_last()).merged(exprs.last().span)
    }
}

/// The expression with the span of every node that has children computed
/// anew from below: a unary node spans its own span and its operand; a
/// binary node and a conditional span their children; a comma sequence
/// spans its own span and its members; a call spans its callee and its
/// arguments.
pub open spec fn respanned(e: Spanned<ExprModel>) -> Spanned<ExprModel>
    decreases e,
{
    match e.data {
        ExprModel::Value(_) | ExprModel::Identifier(_) | ExprModel::Macro(_) => e,
        ExprModel::Unary { op, rhs } => {
            let r = respanned(*rhs);
            Spanned { span: e.span.merged(r.span), data: ExprModel::Unary { op, rhs: Box::new(r) } }
        },
        ExprModel::Binary { op, lhs, rhs } => {
            let l = respanned(*lhs);
            let r = respanned(*rhs);
            Spanned {
                span: l.span.merged(r.span),
                data: ExprModel::Binary { op, lhs: Box::new(l), rhs: Box::new(r) },
            }
        },
        ExprModel::Ternary { cond, statement1, statement2 } => {
            let c = respanned(*cond);
            let s1 = respanned(*statement1);
            let s2 = respanned(*statement2);
            Spanned {
                span: c.span.merged(s1.span).merged(s2.span),
                data: ExprModel::Ternary {
                    cond: Box::new(c),
                    statement1: Box::new(s1),
                    statement2: Box::new(s2),
                },
            }
        },
        ExprModel::Comma { exprs } => {
            let members = Seq::new(
                exprs.len(),
                |i: int| if 0 <= i < exprs.len() { respanned(exprs[i]) } else { arbitrary() },
            );
            Spanned {
                span: merged_spans(e.span, members),
                data: ExprModel::Comma { exprs: members },
            }
        },
        ExprModel::Call { func, args } => {
            let f = respanned(*func);
            let members = Seq::new(
                args.len(),
                |i: int| if 0 <= i < args.len() { respanned(args[i]) } else { arbitrary() },
            );
            Spanned {
                span: merged_spans(f.span, members),
                data: ExprModel::Call { func: Box::new(f), args: members },
            }
        },
    }
}

/// The error for a sequence of tokens that has no parse.
pub open spec fn no_parse() -> Spanned<ErrorModel> {
    Spanned { span: Span { start: 0, end: 0 }, data: ErrorModel::UnexpectedError }
}

/// The syntax tree of a sequence of tokens: the expression that starts at the
/// first token, with its spans computed anew. Tokens behind that expression
/// are not looked at.
pub open spec fn parse_of_tokens(tokens: Seq<Spanned<TokenModel>>) -> Result<
    Spanned<ExprModel>,
    Spanned<ErrorModel>,
> {
    match parsed_expression(tokens, 0, 0) {
        Some((e, _)) => Ok(respanned(e)),
        None => Err(no_parse()),
    }
}

/// The syntax tree of a text.
pub open spec fn parse_of(
    src: Seq<char>,
    bytes: Seq<u8>,
    parse_float: spec_fn(Seq<char>) -> Option<u64>,
) -> Result<Spanned<ExprModel>, Spanned<ErrorModel>> {
    match tokens_of(bytes, parse_float) {
        Err(i) => Err(invalid_token(src, i)),
        Ok(tokens) => parse_of_tokens(tokens),
    }
}

struct Cursor<'a> {
    src: &'a [Spanned<Token>],
    i: usize,
}

impl<'a> Cursor<'a> {
    spec fn tokens(&self) -> Seq<Spanned<TokenModel>> {
        token_models(self.src@)
    }

    spec fn well_formed(&self) -> bool {
        self.i <= self.src@.len()
    }

    fn new(src: &'a [Spanned<Token>]) -> (r: Self)
        ensures
            r.src == src,
            r.i == 0,
            r.well_formed(),
    {
        Cursor { src, i: 0 }
    }

    fn is_eof(&self) -> (r: bool)
        ensures
            r == (self.i >= self.src@.len()),
    {
        self.i >= self.src.len()
    }

    fn peek(&self) -> (r: Option<&'a Spanned<Token>>)
        requires
            self.well_formed(),
        ensures
            r == if self.i < self.src@.len() {
                Some(&self.src@[self.i as int])
            } else {
                None
            },
    {
        if self.i < self.src.len() {
            Some(&self.src[self.i])
        } else {
            None
        }
    }

    fn next(&mut self) -> (r: Option<&'a Spanned<Token>>)
        requires
            old(self).well_formed(),
        ensures
            final(self).src == old(self).src,
            final(self).well_formed(),
            r == if old(self).i < old(self).src@.len() {
                Some(&old(self).src@[old(self).i as int])
            } else {
                None
            },
            final(self).i == if r is Some { old(self).i + 1 } else { old(self).i as int },
    {
        let t = self.peek();
        if t.is_some() {
            self.advance(1);
        }
        t
    }

    fn advance(&mut self, n: usize) -> (r: bool)
        requires
            old(self).i + n <= old(self).src@.len(),
        ensures
            final(self).src == old(self).src,
            final(self).i == old(self).i + n,
            final(self).well_formed(),
            r == (final(self).i >= final(self).src@.len()),
    {
        let len = self.src.len();
        self.i = self.i + n;
        self.i >= len
    }

    /// Moves past the next token if it is the operator `target`.
    fn expect(&mut self, target: Operator) -> (r: bool)
        requires
            old(self).well_formed(),
        ensures
            final(self).src == old(self).src,
            final(self).well_formed(),
            r == (old(self).i < old(self).src@.len() && is_operator(
                old(self).tokens()[old(self).i as int],
                target,
            )),
            final(self).i == if r { old(self).i + 1 } else { old(self).i as int },
    {
        if self.next_is(target) {
            self.advance(1);
            true
        } else {
            false
        }
    }

    /// Whether the next token is the operator `target`.
    fn next_is(&self, target: Operator) -> (r: bool)
        requires
            self.well_formed(),
        ensures
            r == (self.i < self.src@.len() && is_operator(self.tokens()[self.i as int], target)),
    {
        match self.peek() {
            Some(t) => match &t.data {
                Token::Operator(op) => *op == target,
                _ => false,
            },
            None => false,
        }
    }
}

/// Parses the operand that the token `t`, just read, starts.
fn nud(cursor: &mut Cursor, t: &Spanned<Token>) -> (r: Option<Spanned<Expr>>)
    requires
        old(cursor).well_formed(),
    ensures
        final(cursor).src == old(cursor).src,
        final(cursor).well_formed(),
        match parsed_prefix(old(cursor).tokens(), old(cursor).i as int, t@) {
            Some((e, p)) => r is Some && r->Some_0@ == e && final(cursor).i == p && p >= old(
                cursor,
            ).i,
            None => r is None,
        },
    decreases old(cursor).src@.len() - old(cursor).i, 1int,
{
    match &t.data {
        Token::Value(v) => Some(Spanned { span: t.span, data: Expr::Value(*v) }),
        Token::Identifier(s) => Some(Spanned { span: t.span, data: Expr::Identifier(s.clone()) }),
        Token::Macro(s) => Some(Spanned { span: t.span, data: Expr::Macro(s.clone()) }),
        Token::Operator(Operator::Binary(BinaryOp::Subtraction)) => {
            match parse_expression(cursor, PREFIX_BP) {
                Some(rhs) => Some(
                    Spanned {
                        span: t.span,
                        data: Expr::Unary {
                            op: Operator::Unary(UnaryOp::Negation),
                            rhs: Box::new(rhs),
                        },
                    },
                ),
                None => None,
            }
        },
        Token::Operator(Operator::Unary(UnaryOp::BitwiseNot)) => {
            match parse_expression(cursor, PREFIX_BP) {
                Some(rhs) => Some(
                    Spanned {
                        span: t.span,
                        data: Expr::Unary {
                            op: Operator::Unary(UnaryOp::BitwiseNot),
                            rhs: Box::new(rhs),
                        },
                    },
                ),
                None => None,
            }
        },
        Token::Operator(Operator::Grouping(GroupingOp::LeftParen)) => {
            match parse_expression(cursor, 0) {
                Some(e) => {
                    if cursor.expect(Operator::Grouping(GroupingOp::RightParen)) {
                        Some(e)
                    } else {
                        None
                    }
                },
                None => None,
            }
        },
        _ => None,
    }
}

/// Parses expressions separated by commas, each at the threshold `bp`, and
/// appends them to `acc`.
fn parse_list(cursor: &mut Cursor, bp: u32, acc: Vec<Spanned<Expr>>) -> (r: Option<
    Vec<Spanned<Expr>>,
>)
    requires
        old(cursor).well_formed(),
    ensures
        final(cursor).src == old(cursor).src,
        final(cursor).well_formed(),
        match parsed_list(old(cursor).tokens(), old(cursor).i as int, bp, expr_models(acc@)) {
            Some((es, p)) => r is Some && expr_models(r->Some_0@) == es && final(cursor).i == p
                && p > old(cursor).i && es.len() > acc@.len(),
            None => r is None,
        },
    decreases old(cursor).src@.len() - old(cursor).i, 1int,
{
    let mut acc = acc;
    let ghost before = expr_models(acc@);
    match parse_expression(cursor, bp) {
        Some(e) => {
            let ghost m = e@;
            acc.push(e);
            proof {
                assert(expr_models(acc@) =~= before.push(m));
            }
            if cursor.next_is(Operator::Grouping(GroupingOp::Comma)) {
                cursor.advance(1);
                parse_list(cursor, bp, acc)
            } else {
                Some(acc)
            }
        },
        None => None,
    }
}

/// Parses what the infix token `t`, just read, makes of `left`.
fn led(cursor: &mut Cursor, left: Spanned<Expr>, t: &Spanned<Token>) -> (r: Option<Spanned<Expr>>)
    requires
        old(cursor).well_formed(),
    ensures
        final(cursor).src == old(cursor).src,
        final(cursor).well_formed(),
        match parsed_infix(old(cursor).tokens(), old(cursor).i as int, left@, t@) {
            Some((e, p)) => r is Some && r->Some_0@ == e && final(cursor).i == p && p >= old(
                cursor,
            ).i,
            None => r is None,
        },
    decreases old(cursor).src@.len() - old(cursor).i, 2int,
{
    match &t.data {
        Token::Operator(Operator::Binary(op)) => {
            let lbp = operator_lbp(Operator::Binary(*op));
            let rbp: u32 = match op {
                BinaryOp::Exponentiation => lbp - 1,
                BinaryOp::Assign
                | BinaryOp::AddAssign
                | BinaryOp::SubAssign
                | BinaryOp::MulAssign
                | BinaryOp::DivAssign
                | BinaryOp::ModAssign
                | BinaryOp::AndAssign
                | BinaryOp::OrAssign
                | BinaryOp::BitAndAssign
                | BinaryOp::BitOrAssign
                | BinaryOp::BitXorAssign => lbp - 1,
                _ => lbp,
            };
            match parse_expression(cursor, rbp) {
                Some(right) => Some(
                    Spanned {
                        span: Span { start: left.span.start, end: right.span.end },
                        data: Expr::Binary {
                            op: Operator::Binary(*op),
                            lhs: Box::new(left),
                            rhs: Box::new(right),
                        },
                    },
                ),
                None => None,
            }
        },
        Token::Operator(Operator::Grouping(GroupingOp::LeftParen)) => {
            let mut args: Vec<Spanned<Expr>> = Vec::new();
            proof {
                assert(expr_models(args@) =~= Seq::empty());
            }
            if !cursor.is_eof() && !cursor.next_is(Operator::Grouping(GroupingOp::RightParen)) {
                match parse_list(cursor, COMMA_BP + 1, args) {
                    Some(list) => {
                        args = list;
                    },
                    None => {
                        return None;
                    },
                }
            }
            if cursor.next_is(Operator::Grouping(GroupingOp::RightParen)) {
                let end = match cursor.peek() {
                    Some(rparen) => rparen.span.end,
                    None => left.span.end,
                };
                cursor.advance(1);
                let func = Box::new(left);
                proof {
                    lemma_list_models(args, func);
                }
                Some(
                    Spanned {
                        span: Span { start: func.span.start, end },
                        data: Expr::Call { func, args },
                    },
                )
            } else {
                None
            }
        },
        Token::Operator(Operator::Grouping(GroupingOp::Comma)) => {
            let first: Vec<Spanned<Expr>> = match left.data {
                Expr::Comma { exprs } => {
                    proof {
                        lemma_list_models(exprs, arbitrary());
                    }
                    exprs
                },
                other => {
                    let mut v = Vec::new();
                    v.push(Spanned { span: left.span, data: other });
                    proof {
                        assert(expr_models(v@) =~= seq![left@]);
                    }
                    v
                },
            };
            match parse_list(cursor, COMMA_BP, first) {
                Some(exprs) => {
                    let end = exprs[exprs.len() - 1].span.end;
                    let start = exprs[0].span.start;
                    proof {
                        lemma_list_models(exprs, arbitrary());
                    }
                    Some(Spanned { span: Span { start, end }, data: Expr::Comma { exprs } })
                },
                None => None,
            }
        },
        Token::Operator(Operator::TernaryOp(TernaryOp::TernaryCond)) => {
            let statement1 = match parse_expression(cursor, 0) {
                Some(e) => e,
                None => {
                    return None;
                },
            };
            if !cursor.expect(Operator::TernaryOp(TernaryOp::TernaryElse)) {
                return None;
            }
            let statement2 = match parse_expression(cursor, ELSE_BP) {
                Some(e) => e,
                None => {
                    return None;
                },
            };
            Some(
                Spanned {
                    span: Span { start: left.span.start, end: statement2.span.end },
                    data: Expr::Ternary {
                        cond: Box::new(left),
                        statement1: Box::new(statement1),
                        statement2: Box::new(statement2),
                    },
                },
            )
        },
        _ => None,
    }
}

/// Whether a token can be the first of an expression.
fn starts_expression(t: &Spanned<Token>) -> (r: bool)
    ensures
        r == can_start_expression(t@.data),
{
    match &t.data {
        Token::Value(_) | Token::Identifier(_) | Token::Macro(_) => true,
        Token::Operator(Operator::Unary(_)) => true,
        Token::Operator(Operator::Grouping(GroupingOp::LeftParen)) => true,
        _ => false,
    }
}

fn is_left_paren(t: &Spanned<Token>) -> (r: bool)
    ensures
        r == opens_group(t@),
{
    match &t.data {
        Token::Operator(Operator::Grouping(GroupingOp::LeftParen)) => true,
        _ => false,
    }
}

fn is_identifier(e: &Spanned<Expr>) -> (r: bool)
    ensures
        r == (e@.data is Identifier),
{
    match &e.data {
        Expr::Identifier(_) => true,
        _ => false,
    }
}

/// Parses one expression at the cursor while infix operators bind tighter
/// than `min_bp`.
fn parse_expression(cursor: &mut Cursor, min_bp: u32) -> (r: Option<Spanned<Expr>>)
    requires
        old(cursor).well_formed(),
    ensures
        final(cursor).src == old(cursor).src,
        final(cursor).well_formed(),
        match parsed_expression(old(cursor).tokens(), old(cursor).i as int, min_bp) {
            Some((e, p)) => r is Some && r->Some_0@ == e && final(cursor).i == p && p > old(
                cursor,
            ).i,
            None => r is None,
        },
    decreases old(cursor).src@.len() - old(cursor).i, 0int,
{
    let ghost tokens = cursor.tokens();
    let ghost entry = cursor.i as int;
    let t = match cursor.next() {
        Some(t) => t,
        None => {
            return None;
        },
    };
    assert(t@ == tokens[entry]);
    let mut grouped = is_left_paren(t);
    let mut left = match nud(cursor, t) {
        Some(e) => e,
        None => {
            return None;
        },
    };
    loop
        invariant
            cursor.src == old(cursor).src,
            cursor.well_formed(),
            tokens == cursor.tokens(),
            entry == old(cursor).i,
            cursor.i > entry,
            parsed_expression(tokens, entry, min_bp) == parsed_infixes(
                tokens,
                cursor.i as int,
                left@,
                min_bp,
                grouped,
            ),
        ensures
            cursor.src == old(cursor).src,
            cursor.well_formed(),
            cursor.i > entry,
            parsed_expression(tokens, entry, min_bp) == Some((left@, cursor.i as int)),
        decreases cursor.src@.len() - cursor.i,
    {
        let t = match cursor.peek() {
            Some(t) => t,
            None => {
                break ;
            },
        };
        assert(t@ == tokens[cursor.i as int]);
        if starts_expression(t) && !(is_identifier(&left) && !grouped) && IMPLICIT_MUL_BP
            > min_bp {
            let rhs = match parse_expression(cursor, IMPLICIT_MUL_BP) {
                Some(e) => e,
                None => {
                    return None;
                },
            };
            left =
            Spanned {
                span: Span { start: left.span.start, end: rhs.span.end },
                data: Expr::Binary {
                    op: Operator::Binary(BinaryOp::Multiplication),
                    lhs: Box::new(left),
                    rhs: Box::new(rhs),
                },
            };
            grouped = false;
            continue ;
        }
        if t.data.lbp() <= min_bp {
            break ;
        }
        cursor.advance(1);
        left = match led(cursor, left, t) {
            Some(e) => e,
            None => {
                return None;
            },
        };
        grouped = false;
    }
    Some(left)
}

/// The spans of the expressions of a list merged into `start`, in order.
fn merge_spans(start: Span, exprs: &Vec<Spanned<Expr>>) -> (r: Span)
    ensures
        r == merged_spans(start, expr_models(exprs@)),
{
    let mut span = start;
    let mut i: usize = 0;
    proof {
        assert(expr_models(exprs@).take(0) =~= Seq::empty());
    }
    while i < exprs.len()
        invariant
            i <= exprs.len(),
            span == merged_spans(start, expr_models(exprs@).take(i as int)),
        decreases exprs.len() - i,
    {
        span = span.merge(&exprs[i].span);
        proof {
            let models = expr_models(exprs@);
            assert(models.take(i + 1).drop_last() =~= models.take(i as int));
        }
        i = i + 1;
    }
    proof {
        assert(expr_models(exprs@).take(i as int) =~= expr_models(exprs@));
    }
    span
}

/// The members of a list with their spans computed anew, in the same order.
fn respan_list(list: Vec<Spanned<Expr>>) -> (r: Vec<Spanned<Expr>>)
    ensures
        r@.len() == list@.len(),
        forall|j: int| 0 <= j < r@.len() ==> (#[trigger] r@[j])@ == respanned(list@[j]@),
    decreases list,
{
    let ghost original = list@;
    let mut rest = list;
    let mut reversed: Vec<Spanned<Expr>> = Vec::new();
    while rest.len() > 0
        invariant
            original == list@,
            rest@.len() + reversed@.len() == original.len(),
            rest@ == original.take(rest@.len() as int),
            forall|j: int|
                0 <= j < reversed@.len() ==> (#[trigger] reversed@[j])@ == respanned(
                    original[original.len() - 1 - j]@,
                ),
        decreases rest@.len(),
    {
        let e = rest.pop().unwrap();
        assert(e == list@[rest@.len() as int]);
        let done = respan(e);
        reversed.push(done);
    }
    let ghost turned = reversed@;
    let mut out: Vec<Spanned<Expr>> = Vec::new();
    while reversed.len() > 0
        invariant
            turned.len() == original.len(),
            reversed@.len() + out@.len() == turned.len(),
            reversed@ == turned.take(reversed@.len() as int),
            forall|j: int|
                0 <= j < turned.len() ==> (#[trigger] turned[j])@ == respanned(
                    original[original.len() - 1 - j]@,
                ),
            forall|j: int| 0 <= j < out@.len() ==> (#[trigger] out@[j])@ == respanned(original[j]@),
        decreases reversed@.len(),
    {
        let e = reversed.pop().unwrap();
        assert(e == turned[reversed@.len() as int]);
        out.push(e);
    }
    out
}

/// The expression with the span of every node that has children computed anew
/// from below.
pub fn respan(expr: Spanned<Expr>) -> (r: Spanned<Expr>)
    ensures
        r@ == respanned(expr@),
    decreases expr,
{
    let span = expr.span;
    match expr.data {
        Expr::Value(v) => Spanned { span, data: Expr::Value(v) },
        Expr::Identifier(s) => Spanned { span, data: Expr::Identifier(s) },
        Expr::Macro(s) => Spanned { span, data: Expr::Macro(s) },
        Expr::Unary { op, rhs } => {
            let r = respan(*rhs);
            Spanned { span: span.merge(&r.span), data: Expr::Unary { op, rhs: Box::new(r) } }
        },
        Expr::Binary { op, lhs, rhs } => {
            let l = respan(*lhs);
            let r = respan(*rhs);
            Spanned {
                span: l.span.merge(&r.span),
                data: Expr::Binary { op, lhs: Box::new(l), rhs: Box::new(r) },
            }
        },
        Expr::Ternary { cond, statement1, statement2 } => {
            let c = respan(*cond);
            let s1 = respan(*statement1);
            let s2 = respan(*statement2);
            Spanned {
                span: c.span.merge(&s1.span).merge(&s2.span),
                data: Expr::Ternary {
                    cond: Box::new(c),
                    statement1: Box::new(s1),
                    statement2: Box::new(s2),
                },
            }
        },
        Expr::Comma { exprs } => {
            proof {
                lemma_list_models(exprs, arbitrary());
            }
            let members = respan_list(exprs);
            let merged = merge_spans(span, &members);
            proof {
                lemma_list_models(members, arbitrary());
                assert(expr_models(members@) =~= respanned(expr@).data->Comma_exprs);
            }
            Spanned { span: merged, data: Expr::Comma { exprs: members } }
        },
        Expr::Call { func, args } => {
            proof {
                lemma_list_models(args, func);
            }
            let f = Box::new(respan(*func));
            let members = respan_list(args);
            let merged = merge_spans(f.span, &members);
            proof {
                lemma_list_models(members, f);
                assert(expr_models(members@) =~= respanned(expr@).data->Call_args);
            }
            Spanned { span: merged, data: Expr::Call { func: f, args: members } }
        },
    }
}

/// Computes the span of every node that has children anew from below, so that
/// it covers the node's children and nothing that was only written around
/// them, such as parentheses.
pub fn recompute_expr_span(expr: &mut Spanned<Expr>)
    ensures
        final(expr)@ == respanned(old(expr)@),
{
    let mut taken = Spanned { span: expr.span, data: Expr::Value(Value::Boolean(false)) };
    std::mem::swap(expr, &mut taken);
    *expr = respan(taken);
}

/// Parses the expression that starts at the first token.
///
/// Fails, with an error that spans nothing, where a token is missing or out
/// of place. Tokens behind the expression are not looked at.
pub fn parse_tokens(tokens: &[Spanned<Token>]) -> (r: Result<Box<Spanned<Expr>>, Spanned<Error>>)
    ensures
        match parse_of_tokens(token_models(tokens@)) {
            Ok(e) => r is Ok && (*r->Ok_0)@ == e,
            Err(err) => r is Err && r->Err_0@ == err,
        },
{
    let mut cursor = Cursor::new(tokens);
    match parse_expression(&mut cursor, 0) {
        Some(e) => Ok(Box::new(respan(e))),
        None => Err(Spanned { span: Span { start: 0, end: 0 }, data: Error::UnexpectedError }),
    }
}

/// Lexes and parses a text.
///
/// Fails with the lexer's error where the text has no tokens, and with an
/// error that spans nothing where the tokens have no parse.
pub fn parse_string<P: Fn(String) -> Option<u64>>(s: &str, parse_float: &P) -> (r: Result<
    Box<Spanned<Expr>>,
    Spanned<Error>,
>)
    requires
        s.spec_bytes().len() < usize::MAX,
        forall|text: String| call_requires(parse_float, (text,)),
    ensures
        !holds_point(s.spec_bytes()) ==> forall|pf: spec_fn(Seq<char>) -> Option<u64>|
            match #[trigger] parse_of(s@, s.spec_bytes(), pf) {
                Ok(e) => r is Ok && (*r->Ok_0)@ == e,
                Err(err) => r is Err && r->Err_0@ == err,
            },
        forall|pf: spec_fn(Seq<char>) -> Option<u64>| #[trigger]
            reads_floats(parse_float, pf) ==> match parse_of(s@, s.spec_bytes(), pf) {
                Ok(e) => r is Ok && (*r->Ok_0)@ == e,
                Err(err) => r is Err && r->Err_0@ == err,
            },
{
    match lex_string(s, parse_float) {
        Ok(tokens) => {
            let r = parse_tokens(tokens.as_slice());
            proof {
                if !holds_point(s.spec_bytes()) {
                    assert forall|pf: spec_fn(Seq<char>) -> Option<u64>|
                        match #[trigger] parse_of(s@, s.spec_bytes(), pf) {
                            Ok(e) => r is Ok && (*r->Ok_0)@ == e,
                            Err(err) => r is Err && r->Err_0@ == err,
                        } by {}
                }
            }
            r
        },
        Err(err) => {
            proof {
                if !holds_point(s.spec_bytes()) {
                    assert forall|pf: spec_fn(Seq<char>) -> Option<u64>|
                        match #[trigger] parse_of(s@, s.spec_bytes(), pf) {
                            Ok(e) => false,
                            Err(other) => err@ == other,
                        } by {}
                }
            }
            Err(err)
        },
    }
}

} // verus!
