use expr_eval::debug::{expr_tree_text, tokens_listing};
use expr_eval::error::eval_error::{error_to_string, shown_value};
use expr_eval::error::{Arity, Error, ErrorType, EvalError, NameKind};
use expr_eval::evaluater::{define_macro, Environment, MacroTable};
use expr_eval::lexer::lex_string;
use expr_eval::listing::{macros_listing, sorted_slots, variables_listing};
use expr_eval::operator::{BinaryOp, GroupingOp, Operator, TernaryOp, UnaryOp};
use expr_eval::parser::{parse_string, Expr};
use expr_eval::report::{error_window, marker, Window};
use expr_eval::span::{Span, Spanned};
use expr_eval::value::{Value, ValueType};

fn float_text(bits: u64) -> String {
    f64::from_bits(bits).to_string()
}

fn parse_float(text: String) -> Option<u64> {
    text.parse::<f64>().ok().map(f64::to_bits)
}

fn message(err: EvalError) -> String {
    error_to_string(err, &float_text)
}

#[test]
fn evaluation_error_messages() {
    assert_eq!(
        message(EvalError::TypeMismatch {
            op: Operator::Binary(BinaryOp::Addition),
            arity: Arity::Binary,
            found: vec![ValueType::Boolean, ValueType::Int],
            expected: vec![ValueType::Int, ValueType::Int],
        }),
        "Type mismatch for Binary Binary(Addition) operator: expected [Int, Int], found [Boolean, Int]"
    );
    assert_eq!(
        message(EvalError::OpNotSupported {
            op: Operator::Unary(UnaryOp::Negation),
            operand_types: vec![ValueType::Boolean],
        }),
        "Operator Unary(Negation) is not supported for operand types [Boolean]"
    );
    assert_eq!(
        message(EvalError::OpNotSupported {
            op: Operator::Binary(BinaryOp::BitXorAssign),
            operand_types: vec![],
        }),
        "Operator Binary(BitXorAssign) is not supported for operand types []"
    );
    assert_eq!(
        message(EvalError::DivideByZero { lhs: Value::Int(1), rhs: Value::Int(0) }),
        "Division by zero"
    );
    assert_eq!(
        message(EvalError::UnableToUnify {
            values: vec![Value::Int(5), Value::Float(1.5f64.to_bits()), Value::Boolean(true)]
        }),
        "Unable to unify values [Int(5), Float(1.5), Boolean(true)]"
    );
    assert_eq!(
        message(EvalError::NameNotFound { kind: NameKind::Variable, name: "x".to_string() }),
        "Variable 'x' not found"
    );
    assert_eq!(
        message(EvalError::NameNotFound { kind: NameKind::Macro, name: "area".to_string() }),
        "Macro 'area' not found"
    );
    assert_eq!(
        message(EvalError::NameNotFound { kind: NameKind::Function, name: "f".to_string() }),
        "Function 'f' not found"
    );
    assert_eq!(
        message(EvalError::NameNotFound { kind: NameKind::Identifier, name: "".to_string() }),
        "Identifier '' not found"
    );
    assert_eq!(
        message(EvalError::InvalidOperands {
            op: Operator::Grouping(GroupingOp::LeftParen),
            operands: vec![Value::Int(3), Value::Int(1)],
        }),
        "Invalid operands [Int(3), Int(1)] for operator Grouping(LeftParen)"
    );
    assert_eq!(
        message(EvalError::InvalidResult {
            op: Operator::Binary(BinaryOp::Addition),
            operands: vec![Value::Int(i64::MAX), Value::Int(1)],
            result: Value::Int(i64::MIN),
        }),
        "Operator Binary(Addition) applied to [Int(9223372036854775807), Int(1)] produced invalid result Int(-9223372036854775808)"
    );
    assert_eq!(
        message(EvalError::NotAssignable { op: Operator::TernaryOp(TernaryOp::TernaryCond) }),
        "Result of operator TernaryOp(TernaryCond) is not assignable"
    );
    assert_eq!(
        message(EvalError::ArityMismatch { func: "clamp".to_string(), expected: 3, found: 12 }),
        "Function 'clamp' takes 3 argument(s), 12 given"
    );
}

#[test]
fn shown_values() {
    assert_eq!(shown_value(&Value::Int(-3), &float_text), "Int(-3)");
    assert_eq!(shown_value(&Value::Boolean(false), &float_text), "Boolean(false)");
    assert_eq!(shown_value(&Value::Float(2.0f64.to_bits()), &float_text), "Float(2.0)");
    assert_eq!(shown_value(&Value::Float(0.25f64.to_bits()), &float_text), "Float(0.25)");
    assert_eq!(Value::Float(2.0f64.to_bits()).literal(&float_text), "2.0");
    assert_eq!(Value::Int(7).literal(&float_text), "7");
}

#[test]
fn error_kinds() {
    let e = EvalError::NotAssignable { op: Operator::Binary(BinaryOp::Assign) };
    assert_eq!(Error::EvalError(e.clone()).error_type(), ErrorType::EvalError);
    assert_eq!(Error::EvalError(e.clone()).as_eval_error(), Some(e.clone()));
    assert_eq!(Error::EvalError(e).as_lexing_error(), None);
    assert_eq!(Error::UnexpectedError.as_eval_error(), None);
}

#[test]
fn expression_tree_text() {
    let e = parse_string("f(1, x) + -2.5", &parse_float).unwrap();
    let text = expr_tree_text(&e, 0, &float_text);
    let expected = "\
Binary(Addition) @ 0..13
  lhs:
    Call @ 0..5
      func:
        Identifier \"f\" @ 0..0
      args (2):
        [0]:
          Value Int(1) @ 2..2
        [1]:
          Identifier \"x\" @ 5..5
  rhs:
    Value Float(-2.5) @ 10..13
";
    assert_eq!(text, expected);

    let e = parse_string("a ? (1, 2) : - b", &parse_float).unwrap();
    let text = expr_tree_text(&e, 1, &float_text);
    let expected = "  @ 0..15
    cond:
      Identifier \"a\" @ 0..0
    then:
      Comma Operator @ 5..8
        statements:
          [0]:
            Value Int(1) @ 5..5
          [1]:
            Value Int(2) @ 8..8
    else:
      Unary(Negation) @ 13..15
        rhs:
          Identifier \"b\" @ 15..15
";
    assert_eq!(text, expected);

    let m = Spanned { span: Span { start: 0, end: 0 }, data: Expr::Macro("m".to_string()) };
    assert_eq!(expr_tree_text(&m, 0, &float_text), "Macro \"m\" @ 0..0\n");
}

#[test]
fn token_listing_text() {
    let tokens = lex_string("a += 12.5", &parse_float).unwrap();
    let expected = "  [00] a                    @ 0..0
  [01] +=                   @ 2..3
  [02] 12.5                 @ 5..8
";
    assert_eq!(tokens_listing(&tokens, &float_text), expected);
    let long = lex_string("a_very_long_identifier_name", &parse_float).unwrap();
    assert_eq!(
        tokens_listing(&long, &float_text),
        "  [00] a_very_long_identifier_name @ 0..26\n"
    );
    let many = lex_string("1 2 3 4 5 6 7 8 9 10 11", &parse_float).unwrap();
    let listing = tokens_listing(&many, &float_text);
    assert!(listing.contains("  [09] 10                   @ 18..19\n"));
    assert!(listing.ends_with("  [10] 11                   @ 21..22\n"));
    assert_eq!(tokens_listing(&[], &float_text), "");
}

fn window_as_the_shell_computes_it(len: usize, span: Span) -> Window {
    let span_start = span.start.min(len);
    let span_end = span.end.wrapping_sub(1).min(len);
    let mid = (span_start + span_end) / 2;
    let half = 50 / 2;
    let mut win_start = mid.saturating_sub(half);
    let win_end = (win_start + 50).min(len);
    if win_end - win_start < 50 {
        win_start = win_end.saturating_sub(50);
    }
    let caret_start = span_start.saturating_sub(win_start);
    let caret_end = span_end.saturating_sub(win_start).min(win_end - win_start);
    Window { start: win_start, end: win_end, caret_start, caret_end }
}

#[test]
fn error_windows() {
    assert_eq!(
        error_window(5, Span { start: 4, end: 5 }),
        Window { start: 0, end: 5, caret_start: 4, caret_end: 4 }
    );
    assert_eq!(
        error_window(200, Span { start: 100, end: 110 }),
        Window { start: 79, end: 129, caret_start: 21, caret_end: 30 }
    );
    assert_eq!(
        error_window(0, Span { start: 0, end: 0 }),
        Window { start: 0, end: 0, caret_start: 0, caret_end: 0 }
    );
    for len in [0usize, 1, 5, 49, 50, 51, 75, 100, 200] {
        for start in [0usize, 1, 3, 24, 25, 26, 49, 50, 60, 99, 150, 199, 200, 300] {
            for width in [0usize, 1, 2, 10, 60] {
                let span = Span { start, end: start + width };
                let w = error_window(len, span);
                assert_eq!(w, window_as_the_shell_computes_it(len, span), "{} {:?}", len, span);
                assert!(w.start <= w.end && w.end <= len && w.end - w.start <= 50);
            }
        }
    }
}

#[test]
fn caret_lines() {
    let w = Window { start: 0, end: 5, caret_start: 4, caret_end: 4 };
    assert_eq!(marker(&w), "    ^");
    let w = Window { start: 10, end: 20, caret_start: 2, caret_end: 6 };
    assert_eq!(marker(&w), "  ^   ^   ");
    let w = Window { start: 0, end: 3, caret_start: 0, caret_end: 3 };
    assert_eq!(marker(&w), "^  ");
    let w = Window { start: 7, end: 7, caret_start: 0, caret_end: 0 };
    assert_eq!(marker(&w), "");
}

#[test]
fn listings_are_in_the_order_of_the_names() {
    let mut vars = Environment::new();
    assert_eq!(variables_listing(&vars, &float_text), (vec![], "  <empty>\n".to_string()));
    vars.insert("pear", Value::Int(3));
    vars.insert("apple", Value::Float(1.5f64.to_bits()));
    vars.insert("Zebra", Value::Boolean(true));
    vars.insert("app", Value::Int(-1));
    vars.insert("\u{e9}t\u{e9}", Value::Int(0));
    vars.insert("", Value::Int(9));
    let (order, text) = variables_listing(&vars, &float_text);
    assert_eq!(order, vec![5, 2, 3, 1, 0, 4]);
    assert_eq!(
        text,
        "   = Int(9)\n  Zebra = Boolean(true)\n  app = Int(-1)\n  apple = Float(1.5)\n  pear = Int(3)\n  \u{e9}t\u{e9} = Int(0)\n"
    );
    let mut names: Vec<String> = (0..vars.len()).map(|i| vars.name(i).clone()).collect();
    names.sort();
    let listed: Vec<String> = sorted_slots(&vars).iter().map(|s| vars.name(*s).clone()).collect();
    assert_eq!(listed, names);

    let mut macros = MacroTable::new();
    assert_eq!(macros_listing(&macros, true, &float_text).1, "  <empty>\n");
    define_macro(&mut macros, "twice", &parse_string("2 x", &parse_float).unwrap());
    define_macro(&mut macros, "one", &parse_string("1", &parse_float).unwrap());
    assert_eq!(
        macros_listing(&macros, false, &float_text),
        (vec![1, 0], "  MACRO {one} = 1\n  MACRO {twice} = 2 * x\n".to_string())
    );
    let with_trees = "  MACRO {one} = 1
    Value Int(1) @ 0..0
  MACRO {twice} = 2 * x
    Binary(Multiplication) @ 0..2
      lhs:
        Value Int(2) @ 0..0
      rhs:
        Identifier \"x\" @ 2..2
";
    assert_eq!(macros_listing(&macros, true, &float_text).1, with_trees);
}

fn no_float_text(bits: u64) -> String {
    panic!("the float writer was asked for {:#x}", bits)
}

#[test]
fn without_floats_the_float_writer_is_not_asked() {
    let text = "f(1, true) ? x + 2 : (y = 3)";
    let tree = parse_string(text, &parse_float).unwrap();
    assert_eq!(expr_tree_text(&tree, 1, &no_float_text), expr_tree_text(&tree, 1, &float_text));
    let tokens = lex_string(text, &parse_float).unwrap();
    assert_eq!(tokens_listing(&tokens, &no_float_text), tokens_listing(&tokens, &float_text));
    let mut vars = Environment::new();
    vars.insert("b", Value::Int(2));
    vars.insert("a", Value::Boolean(true));
    assert_eq!(
        variables_listing(&vars, &no_float_text),
        (vec![1, 0], "  a = Boolean(true)\n  b = Int(2)\n".to_string())
    );
    let mut macros = MacroTable::new();
    define_macro(&mut macros, "m", &tree);
    assert_eq!(macros_listing(&macros, true, &no_float_text), macros_listing(&macros, true, &float_text));
    assert_eq!(shown_value(&Value::Int(-4), &no_float_text), "Int(-4)");
    let overflow = EvalError::InvalidResult {
        op: Operator::Binary(BinaryOp::Addition),
        operands: vec![Value::Int(i64::MAX), Value::Int(1)],
        result: Value::Int(i64::MIN),
    };
    assert_eq!(error_to_string(overflow.clone(), &no_float_text), message(overflow));
    let zero = EvalError::DivideByZero { lhs: Value::Float(0), rhs: Value::Float(0) };
    assert_eq!(error_to_string(zero, &no_float_text), "Division by zero");
}
