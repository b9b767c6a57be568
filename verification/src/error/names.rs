//! The names of operators, types and kinds as they stand in messages.

use crate::error::eval_error::{Arity, NameKind};
use crate::operator::operator::{BinaryOp, GroupingOp, Operator, TernaryOp, UnaryOp};
use crate::value::ValueType;
use vstd::prelude::*;

verus! {

/// The name of a prefix operator.
pub open spec fn unary_name(op: UnaryOp) -> Seq<char> {
    match op {
        UnaryOp::Not => "Not"@,
        UnaryOp::Negation => "Negation"@,
        UnaryOp::BitwiseNot => "BitwiseNot"@,
    }
}

/// The name of a binary operator.
pub open spec fn binary_name(op: BinaryOp) -> Seq<char> {
    match op {
        BinaryOp::Addition => "Addition"@,
        BinaryOp::Subtraction => "Subtraction"@,
        BinaryOp::Multiplication => "Multiplication"@,
        BinaryOp::Division => "Division"@,
        BinaryOp::Modulo => "Modulo"@,
        BinaryOp::Exponentiation => "Exponentiation"@,
        BinaryOp::And => "And"@,
        BinaryOp::Or => "Or"@,
        BinaryOp::BitwiseAnd => "BitwiseAnd"@,
        BinaryOp::BitwiseOr => "BitwiseOr"@,
        BinaryOp::BitwiseXor => "BitwiseXor"@,
        BinaryOp::Equal => "Equal"@,
        BinaryOp::NotEqual => "NotEqual"@,
        BinaryOp::Less => "Less"@,
        BinaryOp::Greater => "Greater"@,
        BinaryOp::LessEqual => "LessEqual"@,
        BinaryOp::GreaterEqual => "GreaterEqual"@,
        BinaryOp::Assign => "Assign"@,
        BinaryOp::AddAssign => "AddAssign"@,
        BinaryOp::SubAssign => "SubAssign"@,
        BinaryOp::MulAssign => "MulAssign"@,
        BinaryOp::DivAssign => "DivAssign"@,
        BinaryOp::ModAssign => "ModAssign"@,
        BinaryOp::AndAssign => "AndAssign"@,
        BinaryOp::OrAssign => "OrAssign"@,
        BinaryOp::BitAndAssign => "BitAndAssign"@,
        BinaryOp::BitOrAssign => "BitOrAssign"@,
        BinaryOp::BitXorAssign => "BitXorAssign"@,
    }
}

/// The name of an operator of the conditional.
pub open spec fn ternary_name(op: TernaryOp) -> Seq<char> {
    match op {
        TernaryOp::TernaryCond => "TernaryCond"@,
        TernaryOp::TernaryElse => "TernaryElse"@,
    }
}

/// The name of a parenthesis or of the comma.
pub open spec fn grouping_name(op: GroupingOp) -> Seq<char> {
    match op {
        GroupingOp::LeftParen => "LeftParen"@,
        GroupingOp::RightParen => "RightParen"@,
        GroupingOp::Comma => "Comma"@,
    }
}

/// The name of an operator: its group, and its own name in parentheses.
pub open spec fn operator_name(op: Operator) -> Seq<char> {
    match op {
        Operator::Unary(o) => "Unary("@ + unary_name(o) + ")"@,
        Operator::Binary(o) => "Binary("@ + binary_name(o) + ")"@,
        Operator::TernaryOp(o) => "TernaryOp("@ + ternary_name(o) + ")"@,
        Operator::Grouping(o) => "Grouping("@ + grouping_name(o) + ")"@,
    }
}

/// The name of a type.
pub open spec fn value_type_text(t: ValueType) -> Seq<char> {
    match t {
        ValueType::Int => "Int"@,
        ValueType::Float => "Float"@,
        ValueType::Boolean => "Boolean"@,
    }
}

/// The name of an arity.
pub open spec fn arity_name(a: Arity) -> Seq<char> {
    match a {
        Arity::Unary => "Unary"@,
        Arity::Binary => "Binary"@,
    }
}

/// The name of a kind of name.
pub open spec fn kind_name(k: NameKind) -> Seq<char> {
    match k {
        NameKind::Identifier => "Identifier"@,
        NameKind::Function => "Function"@,
        NameKind::Variable => "Variable"@,
        NameKind::Macro => "Macro"@,
    }
}

fn unary_op_name(op: UnaryOp) -> (r: &'static str)
    ensures
        r@ == unary_name(op),
{
    match op {
        UnaryOp::Not => "Not",
        UnaryOp::Negation => "Negation",
        UnaryOp::BitwiseNot => "BitwiseNot",
    }
}

fn binary_op_name(op: BinaryOp) -> (r: &'static str)
    ensures
        r@ == binary_name(op),
{
    match op {
        BinaryOp::Addition => "Addition",
        BinaryOp::Subtraction => "Subtraction",
        BinaryOp::Multiplication => "Multiplication",
        BinaryOp::Division => "Division",
        BinaryOp::Modulo => "Modulo",
        BinaryOp::Exponentiation => "Exponentiation",
        BinaryOp::And => "And",
        BinaryOp::Or => "Or",
        BinaryOp::BitwiseAnd => "BitwiseAnd",
        BinaryOp::BitwiseOr => "BitwiseOr",
        BinaryOp::BitwiseXor => "BitwiseXor",
        BinaryOp::Equal => "Equal",
        BinaryOp::NotEqual => "NotEqual",
        BinaryOp::Less => "Less",
        BinaryOp::Greater => "Greater",
        BinaryOp::LessEqual => "LessEqual",
        BinaryOp::GreaterEqual => "GreaterEqual",
        BinaryOp::Assign => "Assign",
        BinaryOp::AddAssign => "AddAssign",
        BinaryOp::SubAssign => "SubAssign",
        BinaryOp::MulAssign => "MulAssign",
        BinaryOp::DivAssign => "DivAssign",
        BinaryOp::ModAssign => "ModAssign",
        BinaryOp::AndAssign => "AndAssign",
        BinaryOp::OrAssign => "OrAssign",
        BinaryOp::BitAndAssign => "BitAndAssign",
        BinaryOp::BitOrAssign => "BitOrAssign",
        BinaryOp::BitXorAssign => "BitXorAssign",
    }
}

fn ternary_op_name(op: TernaryOp) -> (r: &'static str)
    ensures
        r@ == ternary_name(op),
{
    match op {
        TernaryOp::TernaryCond => "TernaryCond",
        TernaryOp::TernaryElse => "TernaryElse",
    }
}

fn grouping_op_name(op: GroupingOp) -> (r: &'static str)
    ensures
        r@ == grouping_name(op),
{
    match op {
        GroupingOp::LeftParen => "LeftParen",
        GroupingOp::RightParen => "RightParen",
        GroupingOp::Comma => "Comma",
    }
}

/// Appends the name of an operator to `out`.
pub fn push_operator_name(out: &mut String, op: Operator)
    ensures
        final(out)@ == old(out)@ + operator_name(op),
{
    match op {
        Operator::Unary(o) => {
            out.append("Unary(");
            out.append(unary_op_name(o));
        },
        Operator::Binary(o) => {
            out.append("Binary(");
            out.append(binary_op_name(o));
        },
        Operator::TernaryOp(o) => {
            out.append("TernaryOp(");
            out.append(ternary_op_name(o));
        },
        Operator::Grouping(o) => {
            out.append("Grouping(");
            out.append(grouping_op_name(o));
        },
    }
    out.append(")");
    assert(out@ =~= old(out)@ + operator_name(op));
}

/// The name of a type.
pub fn value_type_name(t: ValueType) -> (r: &'static str)
    ensures
        r@ == value_type_text(t),
{
    match t {
        ValueType::Int => "Int",
        ValueType::Float => "Float",
        ValueType::Boolean => "Boolean",
    }
}

/// The name of an arity.
pub fn arity_label(a: Arity) -> (r: &'static str)
    ensures
        r@ == arity_name(a),
{
    match a {
        Arity::Unary => "Unary",
        Arity::Binary => "Binary",
    }
}

/// The name of a kind of name.
pub fn name_kind_label(k: NameKind) -> (r: &'static str)
    ensures
        r@ == kind_name(k),
{
    match k {
        NameKind::Identifier => "Identifier",
        NameKind::Function => "Function",
        NameKind::Variable => "Variable",
        NameKind::Macro => "Macro",
    }
}

} // verus!
