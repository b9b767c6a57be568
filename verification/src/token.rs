//! Tokens: what the lexer produces and the parser consumes.

use crate::operator::{BinaryOp, GroupingOp, Operator, TernaryOp};
use crate::value::{writes_floats, Value};
use vstd::prelude::*;

verus! {

/// A token: an operator, a literal, an identifier or a reference to a macro.
#[derive(Debug, PartialEq)]
pub enum Token {
    Operator(Operator),
    Value(Value),
    Identifier(String),
    Macro(String),
}

/// A token with its names as sequences of characters.
pub enum TokenModel {
    Operator(Operator),
    Value(Value),
    Identifier(Seq<char>),
    Macro(Seq<char>),
}

impl View for Token {
    type V = TokenModel;

    open spec fn view(&self) -> TokenModel {
        match self {
            Token::Operator(op) => TokenModel::Operator(*op),
            Token::Value(v) => TokenModel::Value(*v),
            Token::Identifier(s) => TokenModel::Identifier(s@),
            Token::Macro(s) => TokenModel::Macro(s@),
        }
    }
}

impl Clone for Token {
    fn clone(&self) -> (r: Token)
        ensures
            r@ == self@,
    {
        match self {
            Token::Operator(op) => Token::Operator(*op),
            Token::Value(v) => Token::Value(*v),
            Token::Identifier(s) => Token::Identifier(s.clone()),
            Token::Macro(s) => Token::Macro(s.clone()),
        }
    }
}

/// The left binding power of a binary operator: the higher, the tighter it binds.
pub open spec fn binary_binding_power(op: BinaryOp) -> u32 {
    match op {
        BinaryOp::Exponentiation => 80,
        BinaryOp::Multiplication | BinaryOp::Division | BinaryOp::Modulo => 60,
        BinaryOp::Addition | BinaryOp::Subtraction => 50,
        BinaryOp::Less | BinaryOp::LessEqual | BinaryOp::Greater | BinaryOp::GreaterEqual => 40,
        BinaryOp::Equal | BinaryOp::NotEqual => 35,
        BinaryOp::BitwiseAnd => 30,
        BinaryOp::BitwiseXor => 25,
        BinaryOp::BitwiseOr => 20,
        BinaryOp::And => 15,
        BinaryOp::Or => 10,
        _ => 3,
    }
}

/// The left binding power of an operator.
pub open spec fn operator_binding_power(op: Operator) -> u32 {
    match op {
        Operator::Binary(v) => binary_binding_power(v),
        Operator::Unary(_) => 0,
        Operator::TernaryOp(TernaryOp::TernaryCond) => 5,
        Operator::TernaryOp(TernaryOp::TernaryElse) => 0,
        Operator::Grouping(GroupingOp::LeftParen) => 90,
        Operator::Grouping(GroupingOp::RightParen) => 0,
        Operator::Grouping(GroupingOp::Comma) => 1,
    }
}

/// The left binding power of a token: that of its operator, 0 for anything else.
pub open spec fn binding_power(t: TokenModel) -> u32 {
    match t {
        TokenModel::Operator(op) => operator_binding_power(op),
        _ => 0,
    }
}

/// The text of a token, given the text of each float.
pub open spec fn token_text(t: TokenModel, float_text: spec_fn(u64) -> Seq<char>) -> Seq<char> {
    match t {
        TokenModel::Operator(op) => op.text(),
        TokenModel::Value(v) => v.text(float_text),
        TokenModel::Identifier(s) => s,
        TokenModel::Macro(s) => s,
    }
}

/// The left binding power of an operator.
pub fn operator_lbp(op: Operator) -> (r: u32)
    ensures
        r == operator_binding_power(op),
{
    match op {
        Operator::Binary(v) => match v {
            BinaryOp::Exponentiation => 80,
            BinaryOp::Multiplication | BinaryOp::Division | BinaryOp::Modulo => 60,
            BinaryOp::Addition | BinaryOp::Subtraction => 50,
            BinaryOp::Less
            | BinaryOp::LessEqual
            | BinaryOp::Greater
            | BinaryOp::GreaterEqual => 40,
            BinaryOp::Equal | BinaryOp::NotEqual => 35,
            BinaryOp::BitwiseAnd => 30,
            BinaryOp::BitwiseXor => 25,
            BinaryOp::BitwiseOr => 20,
            BinaryOp::And => 15,
            BinaryOp::Or => 10,
            _ => 3,
        },
        Operator::Unary(_) => 0,
        Operator::TernaryOp(v) => match v {
            TernaryOp::TernaryCond => 5,
            TernaryOp::TernaryElse => 0,
        },
        Operator::Grouping(v) => match v {
            GroupingOp::LeftParen => 90,
            GroupingOp::RightParen => 0,
            GroupingOp::Comma => 1,
        },
    }
}

impl Token {
    /// The text of the token: an operator's symbol, a literal as it is written,
    /// or a name.
    pub fn symbol<F: Fn(u64) -> String>(&self, float_text: &F) -> (r: String)
        requires
            forall|bits: u64| call_requires(float_text, (bits,)),
        ensures
            !(self@ matches TokenModel::Value(Value::Float(_))) ==> forall|
                ft: spec_fn(u64) -> Seq<char>,
            |
                r@ == #[trigger] token_text(self@, ft),
            forall|ft: spec_fn(u64) -> Seq<char>| #[trigger]
                writes_floats(float_text, ft) ==> r@ == token_text(self@, ft),
    {
        match self {
            Token::Operator(s) => {
                let mut r = String::new();
                r.append(s.symbol());
                assert(r@ =~= s.text());
                r
            },
            Token::Value(v) => v.symbol(float_text),
            Token::Identifier(s) => s.clone(),
            Token::Macro(s) => s.clone(),
        }
    }

    /// The left binding power of the token.
    pub fn lbp(&self) -> (r: u32)
        ensures
            r == binding_power(self@),
    {
        match self {
            Token::Operator(s) => operator_lbp(*s),
            Token::Value(_) => 0,
            Token::Identifier(_) => 0,
            Token::Macro(_) => 0,
        }
    }
}

} // verus!
