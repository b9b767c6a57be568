//! The operator tags that tokens and expression nodes carry.

use vstd::prelude::*;

verus! {

/// The prefix operators.
#[derive(Debug, Clone, Copy, PartialEq, Eq, Hash, Structural)]
pub enum UnaryOp {
    /// `!`
    Not,
    /// `-`
    Negation,
    /// `~`
    BitwiseNot,
}

/// The binary operators.
#[derive(Debug, Clone, Copy, PartialEq, Eq, Hash, Structural)]
pub enum BinaryOp {
    /// `+`
    Addition,
    /// `-`
    Subtraction,
    /// `*`
    Multiplication,
    /// `/`
    Division,
    /// `%`
    Modulo,
    /// `**`
    Exponentiation,
    /// `&&`
    And,
    /// `||`
    Or,
    /// `&`
    BitwiseAnd,
    /// `|`
    BitwiseOr,
    /// `^`
    BitwiseXor,
    /// `==`
    Equal,
    /// `!=`
    NotEqual,
    /// `<`
    Less,
    /// `>`
    Greater,
    /// `<=`
    LessEqual,
    /// `>=`
    GreaterEqual,
    /// `=`
    Assign,
    /// `+=`
    AddAssign,
    /// `-=`
    SubAssign,
    /// `*=`
    MulAssign,
    /// `/=`
    DivAssign,
    /// `%=`
    ModAssign,
    /// `&&=`
    AndAssign,
    /// `||=`
    OrAssign,
    /// `&=`
    BitAndAssign,
    /// `|=`
    BitOrAssign,
    /// `^=`
    BitXorAssign,
}

/// The two operators of a conditional.
#[derive(Debug, Clone, Copy, PartialEq, Eq, Hash, Structural)]
pub enum TernaryOp {
    /// `?`
    TernaryCond,
    /// `:`
    TernaryElse,
}

/// The parentheses and the comma.
#[derive(Debug, Clone, Copy, PartialEq, Eq, Hash, Structural)]
pub enum GroupingOp {
    /// `(`
    LeftParen,
    /// `)`
    RightParen,
    /// `,`
    Comma,
}

/// An operator of any group.
#[derive(Debug, Clone, Copy, PartialEq, Eq, Hash, Structural)]
pub enum Operator {
    Unary(UnaryOp),
    Binary(BinaryOp),
    TernaryOp(TernaryOp),
    Grouping(GroupingOp),
}

impl BinaryOp {
    /// Whether this is `=` or one of the compound assignments.
    pub open spec fn assigns(self) -> bool {
        match self {
            BinaryOp::Assign
            | BinaryOp::AddAssign
            | BinaryOp::SubAssign
            | BinaryOp::MulAssign
            | BinaryOp::DivAssign
            | BinaryOp::ModAssign
            | BinaryOp::AndAssign
            | BinaryOp::OrAssign
            | BinaryOp::BitAndAssign
            | BinaryOp::BitOrAssign
            | BinaryOp::BitXorAssign => true,
            _ => false,
        }
    }

    /// The source text of the operator.
    pub open spec fn text(self) -> Seq<char> {
        match self {
            BinaryOp::Addition => seq!['+'],
            BinaryOp::Subtraction => seq!['-'],
            BinaryOp::Multiplication => seq!['*'],
            BinaryOp::Division => seq!['/'],
            BinaryOp::Modulo => seq!['%'],
            BinaryOp::Exponentiation => seq!['*', '*'],
            BinaryOp::And => seq!['&', '&'],
            BinaryOp::Or => seq!['|', '|'],
            BinaryOp::BitwiseAnd => seq!['&'],
            BinaryOp::BitwiseOr => seq!['|'],
            BinaryOp::BitwiseXor => seq!['^'],
            BinaryOp::Equal => seq!['=', '='],
            BinaryOp::NotEqual => seq!['!', '='],
            BinaryOp::Less => seq!['<'],
            BinaryOp::Greater => seq!['>'],
            BinaryOp::LessEqual => seq!['<', '='],
            BinaryOp::GreaterEqual => seq!['>', '='],
            BinaryOp::Assign => seq!['='],
            BinaryOp::AddAssign => seq!['+', '='],
            BinaryOp::SubAssign => seq!['-', '='],
            BinaryOp::MulAssign => seq!['*', '='],
            BinaryOp::DivAssign => seq!['/', '='],
            BinaryOp::ModAssign => seq!['%', '='],
            BinaryOp::AndAssign => seq!['&', '&', '='],
            BinaryOp::OrAssign => seq!['|', '|', '='],
            BinaryOp::BitAndAssign => seq!['&', '='],
            BinaryOp::BitOrAssign => seq!['|', '='],
            BinaryOp::BitXorAssign => seq!['^', '='],
        }
    }
}

impl Operator {
    /// The source text of the operator.
    pub open spec fn text(self) -> Seq<char> {
        match self {
            Operator::Unary(UnaryOp::Not) => seq!['!'],
            Operator::Unary(UnaryOp::Negation) => seq!['-'],
            Operator::Unary(UnaryOp::BitwiseNot) => seq!['~'],
            Operator::Binary(op) => op.text(),
            Operator::TernaryOp(TernaryOp::TernaryCond) => seq!['?'],
            Operator::TernaryOp(TernaryOp::TernaryElse) => seq![':'],
            Operator::Grouping(GroupingOp::LeftParen) => seq!['('],
            Operator::Grouping(GroupingOp::RightParen) => seq![')'],
            Operator::Grouping(GroupingOp::Comma) => seq![','],
        }
    }

    /// The source text of the operator, one to three ASCII characters.
    pub fn symbol(self) -> (r: &'static str)
        ensures
            r@ == self.text(),
    {
        proof {
            reveal_strlit("!");
            reveal_strlit("-");
            reveal_strlit("~");
            reveal_strlit("+");
            reveal_strlit("*");
            reveal_strlit("/");
            reveal_strlit("%");
            reveal_strlit("**");
            reveal_strlit("&&");
            reveal_strlit("||");
            reveal_strlit("&");
            reveal_strlit("|");
            reveal_strlit("^");
            reveal_strlit("=");
            reveal_strlit("+=");
            reveal_strlit("-=");
            reveal_strlit("*=");
            reveal_strlit("/=");
            reveal_strlit("%=");
            reveal_strlit("&&=");
            reveal_strlit("||=");
            reveal_strlit("&=");
            reveal_strlit("|=");
            reveal_strlit("^=");
            reveal_strlit("==");
            reveal_strlit("!=");
            reveal_strlit("<");
            reveal_strlit("<=");
            reveal_strlit(">");
            reveal_strlit(">=");
            reveal_strlit("?");
            reveal_strlit(":");
            reveal_strlit("(");
            reveal_strlit(")");
            reveal_strlit(",");
        }
        let r = match self {
            Operator::Unary(UnaryOp::Not) => "!",
            Operator::Unary(UnaryOp::Negation) => "-",
            Operator::Unary(UnaryOp::BitwiseNot) => "~",
            Operator::Binary(BinaryOp::Addition) => "+",
            Operator::Binary(BinaryOp::Subtraction) => "-",
            Operator::Binary(BinaryOp::Multiplication) => "*",
            Operator::Binary(BinaryOp::Division) => "/",
            Operator::Binary(BinaryOp::Modulo) => "%",
            Operator::Binary(BinaryOp::Exponentiation) => "**",
            Operator::Binary(BinaryOp::And) => "&&",
            Operator::Binary(BinaryOp::Or) => "||",
            Operator::Binary(BinaryOp::BitwiseAnd) => "&",
            Operator::Binary(BinaryOp::BitwiseOr) => "|",
            Operator::Binary(BinaryOp::BitwiseXor) => "^",
            Operator::Binary(BinaryOp::Assign) => "=",
            Operator::Binary(BinaryOp::AddAssign) => "+=",
            Operator::Binary(BinaryOp::SubAssign) => "-=",
            Operator::Binary(BinaryOp::MulAssign) => "*=",
            Operator::Binary(BinaryOp::DivAssign) => "/=",
            Operator::Binary(BinaryOp::ModAssign) => "%=",
            Operator::Binary(BinaryOp::AndAssign) => "&&=",
            Operator::Binary(BinaryOp::OrAssign) => "||=",
            Operator::Binary(BinaryOp::BitAndAssign) => "&=",
            Operator::Binary(BinaryOp::BitOrAssign) => "|=",
            Operator::Binary(BinaryOp::BitXorAssign) => "^=",
            Operator::Binary(BinaryOp::Equal) => "==",
            Operator::Binary(BinaryOp::NotEqual) => "!=",
            Operator::Binary(BinaryOp::Less) => "<",
            Operator::Binary(BinaryOp::LessEqual) => "<=",
            Operator::Binary(BinaryOp::Greater) => ">",
            Operator::Binary(BinaryOp::GreaterEqual) => ">=",
            Operator::TernaryOp(TernaryOp::TernaryCond) => "?",
            Operator::TernaryOp(TernaryOp::TernaryElse) => ":",
            Operator::Grouping(GroupingOp::LeftParen) => "(",
            Operator::Grouping(GroupingOp::RightParen) => ")",
            Operator::Grouping(GroupingOp::Comma) => ",",
        };
        assert(r@ =~= self.text());
        r
    }
}

} // verus!
