use expr_eval::error::{lexing_error, Error, ErrorType, LexingError};
use expr_eval::lexer::lex_string;
use expr_eval::operator::{BinaryOp, GroupingOp, Operator, TernaryOp};
use expr_eval::span::{Span, Spanned};
use expr_eval::token::Token;
use expr_eval::value::Value;

fn parse_float(text: String) -> Option<u64> {
    text.parse::<f64>().ok().map(f64::to_bits)
}

fn lex(text: &str) -> Result<Vec<Spanned<Token>>, Spanned<Error>> {
    lex_string(text, &parse_float)
}

fn tokens(text: &str) -> Vec<Token> {
    lex(text).unwrap().into_iter().map(|t| t.data).collect()
}

fn spans(text: &str) -> Vec<(usize, usize)> {
    lex(text).unwrap().into_iter().map(|t| (t.span.start, t.span.end)).collect()
}

fn error_index(text: &str) -> usize {
    match lex(text) {
        Err(Spanned { span, data: Error::LexingError(LexingError::InvalidToken { src, index }) }) => {
            assert_eq!(src, text);
            assert_eq!(span, Span { start: index, end: index + 1 });
            index
        }
        other => panic!("expected a lexing error, got {:?}", other),
    }
}

fn operator_token(op: BinaryOp) -> Token {
    Token::Operator(Operator::Binary(op))
}

fn int_token(v: i64) -> Token {
    Token::Value(Value::Int(v))
}

fn float_token(v: f64) -> Token {
    Token::Value(Value::Float(v.to_bits()))
}

fn name_token(s: &str) -> Token {
    Token::Identifier(s.to_string())
}

#[test]
fn empty_text_has_no_tokens() {
    assert_eq!(tokens(""), vec![]);
    assert_eq!(tokens("  \t\r\n \x0C"), vec![]);
}

#[test]
fn tokens_carry_their_byte_spans() {
    assert_eq!(tokens("a + 12"), vec![name_token("a"), operator_token(BinaryOp::Addition), int_token(12)]);
    assert_eq!(spans("a + 12"), vec![(0, 1), (2, 3), (4, 6)]);
    assert_eq!(spans("  foo&&=3.5"), vec![(2, 5), (5, 8), (8, 11)]);
    assert_eq!(tokens("  foo&&=3.5"), vec![name_token("foo"), operator_token(BinaryOp::AndAssign), float_token(3.5)]);
}

#[test]
fn boolean_literals_come_before_identifiers() {
    assert_eq!(
        tokens("true false"),
        vec![Token::Value(Value::Boolean(true)), Token::Value(Value::Boolean(false))]
    );
    assert_eq!(tokens("truest"), vec![Token::Value(Value::Boolean(true)), name_token("st")]);
    assert_eq!(spans("truest"), vec![(0, 4), (4, 6)]);
    assert_eq!(tokens("falsetto"), vec![Token::Value(Value::Boolean(false)), name_token("tto")]);
    assert_eq!(tokens("tru"), vec![name_token("tru")]);
}

#[test]
fn integer_literals() {
    assert_eq!(tokens("0"), vec![int_token(0)]);
    assert_eq!(tokens("007"), vec![int_token(7)]);
    assert_eq!(tokens("1_000_000"), vec![int_token(1_000_000)]);
    assert_eq!(spans("1_000_000"), vec![(0, 9)]);
    assert_eq!(tokens("-5"), vec![int_token(-5)]);
    assert_eq!(tokens("9223372036854775807"), vec![int_token(i64::MAX)]);
    assert_eq!(tokens("-9223372036854775808"), vec![int_token(i64::MIN)]);
    assert_eq!(tokens("_1"), vec![int_token(1)]);
    assert_eq!(tokens("1_"), vec![int_token(1)]);
}

#[test]
fn a_minus_before_digits_belongs_to_the_number() {
    assert_eq!(tokens("1-2"), vec![int_token(1), int_token(-2)]);
    assert_eq!(tokens("1 - 2"), vec![int_token(1), operator_token(BinaryOp::Subtraction), int_token(2)]);
    assert_eq!(tokens("a -b"), vec![name_token("a"), operator_token(BinaryOp::Subtraction), name_token("b")]);
}

#[test]
fn float_literals() {
    assert_eq!(tokens("1.5"), vec![float_token(1.5)]);
    assert_eq!(tokens("1."), vec![float_token(1.0)]);
    assert_eq!(tokens(".5"), vec![float_token(0.5)]);
    assert_eq!(tokens("-.5"), vec![float_token(-0.5)]);
    assert_eq!(tokens("-2.25"), vec![float_token(-2.25)]);
    assert_eq!(tokens("1_0.2_5"), vec![float_token(10.25)]);
    assert_eq!(tokens("0.1"), vec![float_token(0.1)]);
    assert_eq!(spans("1_0.2_5 x"), vec![(0, 7), (8, 9)]);
    assert_eq!(tokens("1.2.3"), vec![float_token(1.2), float_token(0.3)]);
}

#[test]
fn numbers_without_a_value_fail_behind_the_number() {
    assert_eq!(error_index("_"), 1);
    assert_eq!(error_index("__ + 1"), 2);
    assert_eq!(error_index("_abc"), 1);
    assert_eq!(error_index("-_"), 2);
    assert_eq!(error_index("_._"), 3);
    assert_eq!(error_index("9223372036854775808"), 19);
    assert_eq!(error_index("-9223372036854775809"), 20);
    assert_eq!(error_index("1 + 99999999999999999999 + 2"), 24);
}

#[test]
fn a_lone_point_or_minus_is_no_number() {
    assert_eq!(error_index("."), 0);
    assert_eq!(tokens("-"), vec![operator_token(BinaryOp::Subtraction)]);
    assert_eq!(error_index("-."), 1);
}

#[test]
fn operators_are_matched_longest_first() {
    assert_eq!(tokens("&&="), vec![operator_token(BinaryOp::AndAssign)]);
    assert_eq!(tokens("||="), vec![operator_token(BinaryOp::OrAssign)]);
    assert_eq!(tokens("**"), vec![operator_token(BinaryOp::Exponentiation)]);
    assert_eq!(tokens("*="), vec![operator_token(BinaryOp::MulAssign)]);
    assert_eq!(tokens("**="), vec![operator_token(BinaryOp::Exponentiation), operator_token(BinaryOp::Assign)]);
    assert_eq!(tokens("=="), vec![operator_token(BinaryOp::Equal)]);
    assert_eq!(tokens("==="), vec![operator_token(BinaryOp::Equal), operator_token(BinaryOp::Assign)]);
    assert_eq!(tokens("<="), vec![operator_token(BinaryOp::LessEqual)]);
    assert_eq!(tokens(">="), vec![operator_token(BinaryOp::GreaterEqual)]);
    assert_eq!(tokens("+="), vec![operator_token(BinaryOp::AddAssign)]);
    assert_eq!(tokens("-="), vec![operator_token(BinaryOp::SubAssign)]);
    assert_eq!(tokens("/="), vec![operator_token(BinaryOp::DivAssign)]);
    assert_eq!(tokens("%="), vec![operator_token(BinaryOp::ModAssign)]);
    assert_eq!(tokens("&="), vec![operator_token(BinaryOp::BitAndAssign)]);
    assert_eq!(tokens("|="), vec![operator_token(BinaryOp::BitOrAssign)]);
    assert_eq!(tokens("^="), vec![operator_token(BinaryOp::BitXorAssign)]);
    assert_eq!(tokens("&&"), vec![operator_token(BinaryOp::BitwiseAnd), operator_token(BinaryOp::BitwiseAnd)]);
    assert_eq!(tokens("||"), vec![operator_token(BinaryOp::BitwiseOr), operator_token(BinaryOp::BitwiseOr)]);
}

#[test]
fn single_character_operators() {
    assert_eq!(
        tokens("+ % = * / < > & | ^ ( ) , ? :"),
        vec![
            operator_token(BinaryOp::Addition),
            operator_token(BinaryOp::Modulo),
            operator_token(BinaryOp::Assign),
            operator_token(BinaryOp::Multiplication),
            operator_token(BinaryOp::Division),
            operator_token(BinaryOp::Less),
            operator_token(BinaryOp::Greater),
            operator_token(BinaryOp::BitwiseAnd),
            operator_token(BinaryOp::BitwiseOr),
            operator_token(BinaryOp::BitwiseXor),
            Token::Operator(Operator::Grouping(GroupingOp::LeftParen)),
            Token::Operator(Operator::Grouping(GroupingOp::RightParen)),
            Token::Operator(Operator::Grouping(GroupingOp::Comma)),
            Token::Operator(Operator::TernaryOp(TernaryOp::TernaryCond)),
            Token::Operator(Operator::TernaryOp(TernaryOp::TernaryElse)),
        ]
    );
}

#[test]
fn identifiers() {
    assert_eq!(tokens("abc"), vec![name_token("abc")]);
    assert_eq!(tokens("a1_b2"), vec![name_token("a1_b2")]);
    assert_eq!(tokens("Zeta x9"), vec![name_token("Zeta"), name_token("x9")]);
    assert_eq!(tokens("a.5"), vec![name_token("a"), float_token(0.5)]);
}

#[test]
fn bytes_that_start_no_token_are_errors() {
    assert_eq!(error_index("1 + $"), 4);
    assert_eq!(error_index("!"), 0);
    assert_eq!(error_index("~a"), 0);
    assert_eq!(error_index("a != b"), 2);
    assert_eq!(error_index("  #"), 2);
    assert_eq!(error_index("x é"), 2);
    assert_eq!(error_index("{m}"), 0);
}

#[test]
fn lexing_error_message_and_type() {
    let err = LexingError::InvalidToken { src: "1 + $".to_string(), index: 4 };
    assert_eq!(lexing_error::error_to_string(err.clone()), "Invalid token at position 4");
    let err = LexingError::InvalidToken { src: String::new(), index: 1234567890 };
    assert_eq!(lexing_error::error_to_string(err.clone()), "Invalid token at position 1234567890");
    let err0 = LexingError::InvalidToken { src: String::new(), index: 0 };
    assert_eq!(lexing_error::error_to_string(err0), "Invalid token at position 0");
    assert_eq!(Error::LexingError(err.clone()).error_type(), ErrorType::LexingError);
    assert_eq!(Error::UnexpectedError.error_type(), ErrorType::UnexpectedError);
    assert_eq!(Error::LexingError(err.clone()).as_lexing_error(), Some(err.clone()));
    assert_eq!(Error::UnexpectedError.as_lexing_error(), None);
    assert_eq!(Error::LexingError(err).as_eval_error(), None);
}

#[test]
fn a_float_parser_that_refuses_makes_the_literal_an_error() {
    let refuse = |_text: String| -> Option<u64> { None };
    match lex_string("1 + 2.5", &refuse) {
        Err(Spanned { data: Error::LexingError(LexingError::InvalidToken { index, .. }), .. }) => {
            assert_eq!(index, 7)
        }
        other => panic!("unexpected {:?}", other),
    }
    assert!(lex_string("1 + 2", &refuse).is_ok());
}

#[test]
fn the_float_parser_gets_the_text_without_separators() {
    let seen = std::cell::RefCell::new(Vec::new());
    let spy = |text: String| -> Option<u64> {
        seen.borrow_mut().push(text);
        Some(0)
    };
    let _ = lex_string("-1_2.3_4 + .5 + 7.", &spy);
    assert_eq!(*seen.borrow(), vec!["-12.34".to_string(), ".5".to_string(), "7.".to_string()]);
}

#[test]
fn token_spans_lie_one_behind_the_other() {
    for text in ["a + 12 * (b - 3.5)", "  x=1,y  =2 ", "f(1,2)?true:false", "1-2", "a&&=b||=c**d"] {
        let tokens = lex(text).unwrap();
        let mut at = 0;
        for t in &tokens {
            assert!(at <= t.span.start, "{:?}", text);
            assert!(t.span.start < t.span.end, "{:?}", text);
            assert!(t.span.end <= text.len(), "{:?}", text);
            at = t.span.end;
        }
    }
}
