use expr_eval::error::{Error, EvalError, LexingError, NameKind};
use expr_eval::evaluater::{
    define_macro, evaluate_at, evaluate_expr, Environment, EvalResult, MacroTable,
};
use expr_eval::float::FloatOp;
use expr_eval::functions::{builtins, no_host, Function, FunctionRegistry};
use expr_eval::operator::{BinaryOp, Operator};
use expr_eval::parser::{parse_string, Expr};
use expr_eval::span::{Span, Spanned};
use expr_eval::value::Value;

fn float_unit(op: FloatOp, a: u64, b: u64) -> u64 {
    let x = f64::from_bits(a);
    let y = f64::from_bits(b);
    let r = match op {
        FloatOp::Add => x + y,
        FloatOp::Sub => x - y,
        FloatOp::Mul => x * y,
        FloatOp::Div => x / y,
        FloatOp::Rem => x % y,
        FloatOp::Pow => x.powf(y),
    };
    r.to_bits()
}

fn parse_float(text: String) -> Option<u64> {
    text.parse::<f64>().ok().map(f64::to_bits)
}

fn float(x: f64) -> Value {
    Value::Float(x.to_bits())
}

struct Session {
    variables: Environment,
    macros: MacroTable,
    functions: FunctionRegistry,
}

fn session() -> Session {
    Session { variables: Environment::new(), macros: MacroTable::new(), functions: builtins() }
}

fn run(s: &mut Session, text: &str) -> Result<Value, Spanned<Error>> {
    let expr = parse_string(text, &parse_float)?;
    let r = evaluate_expr(&expr, &mut s.variables, &s.macros, &s.functions, &float_unit, &no_host)?;
    Ok(r.value(&s.variables))
}

fn variable(s: &Session, name: &str) -> Option<Value> {
    s.variables.lookup(name).copied()
}

fn eval_error(r: Result<Value, Spanned<Error>>) -> EvalError {
    match r {
        Err(Spanned { data: Error::EvalError(e), .. }) => e,
        other => panic!("expected an evaluation error, got {:?}", other),
    }
}

#[test]
fn exponentiation_associates_to_the_right() {
    let mut s = session();
    assert_eq!(run(&mut s, "2 ** 3 ** 2"), Ok(Value::Int(512)));
    assert_eq!(run(&mut s, "(2 ** 3) ** 2"), Ok(Value::Int(64)));
}

#[test]
fn juxtaposition_multiplies() {
    let mut s = session();
    assert_eq!(run(&mut s, "2(3+4)"), Ok(Value::Int(14)));
    assert_eq!(run(&mut s, "(2)(3)"), Ok(Value::Int(6)));
}

#[test]
fn identifier_before_parenthesis_is_a_call() {
    let expr = parse_string("x(1,2)", &parse_float).unwrap();
    match &expr.data {
        Expr::Call { func, args } => {
            assert_eq!(func.data, Expr::Identifier("x".to_string()));
            assert_eq!(args.len(), 2);
            assert_eq!(args[0].data, Expr::Value(Value::Int(1)));
            assert_eq!(args[1].data, Expr::Value(Value::Int(2)));
        }
        other => panic!("expected a call, got {:?}", other),
    }
}

#[test]
fn logical_and_leaves_right_operand_unevaluated() {
    let mut s = session();
    let assign = Spanned {
        span: Span { start: 9, end: 17 },
        data: Expr::Binary {
            op: Operator::Binary(BinaryOp::Assign),
            lhs: Box::new(Spanned {
                span: Span { start: 10, end: 11 },
                data: Expr::Identifier("y".to_string()),
            }),
            rhs: Box::new(Spanned {
                span: Span { start: 14, end: 18 },
                data: Expr::Value(Value::Boolean(true)),
            }),
        },
    };
    let and = Spanned {
        span: Span { start: 0, end: 18 },
        data: Expr::Binary {
            op: Operator::Binary(BinaryOp::And),
            lhs: Box::new(Spanned {
                span: Span { start: 0, end: 5 },
                data: Expr::Value(Value::Boolean(false)),
            }),
            rhs: Box::new(assign.clone()),
        },
    };
    let r = evaluate_expr(&and, &mut s.variables, &s.macros, &s.functions, &float_unit, &no_host);
    assert_eq!(r, Ok(EvalResult::Value(Value::Boolean(false))));
    assert_eq!(variable(&s, "y"), None);

    let or = Spanned {
        span: Span { start: 0, end: 18 },
        data: Expr::Binary {
            op: Operator::Binary(BinaryOp::Or),
            lhs: Box::new(Spanned {
                span: Span { start: 0, end: 4 },
                data: Expr::Value(Value::Boolean(true)),
            }),
            rhs: Box::new(assign.clone()),
        },
    };
    let r = evaluate_expr(&or, &mut s.variables, &s.macros, &s.functions, &float_unit, &no_host);
    assert_eq!(r, Ok(EvalResult::Value(Value::Boolean(true))));
    assert_eq!(variable(&s, "y"), None);

    let or_evaluating = Spanned {
        span: Span { start: 0, end: 18 },
        data: Expr::Binary {
            op: Operator::Binary(BinaryOp::Or),
            lhs: Box::new(Spanned {
                span: Span { start: 0, end: 5 },
                data: Expr::Value(Value::Boolean(false)),
            }),
            rhs: Box::new(assign),
        },
    };
    let r = evaluate_expr(&or_evaluating, &mut s.variables, &s.macros, &s.functions, &float_unit, &no_host);
    assert_eq!(r, Ok(EvalResult::Value(Value::Boolean(true))));
    assert_eq!(variable(&s, "y"), Some(Value::Boolean(true)));
}

#[test]
fn assignment_binds_on_first_use() {
    let mut s = session();
    assert_eq!(run(&mut s, "a = 5"), Ok(Value::Int(5)));
    assert_eq!(variable(&s, "a"), Some(Value::Int(5)));
    match eval_error(run(&mut s, "b += 1")) {
        EvalError::NameNotFound { kind, name } => {
            assert_eq!(kind, NameKind::Variable);
            assert_eq!(name, "b");
        }
        other => panic!("unexpected error {:?}", other),
    }
    assert_eq!(variable(&s, "b"), None);
}

#[test]
fn division_by_zero_is_an_error() {
    let mut s = session();
    assert_eq!(
        eval_error(run(&mut s, "5 / 0")),
        EvalError::DivideByZero { lhs: Value::Int(5), rhs: Value::Int(0) }
    );
    assert_eq!(
        eval_error(run(&mut s, "5.0 / 0.0")),
        EvalError::DivideByZero { lhs: float(5.0), rhs: float(0.0) }
    );
    assert_eq!(run(&mut s, "7 / 2"), Ok(Value::Int(3)));
    assert_eq!(run(&mut s, "7.0 / 2"), Ok(float(3.5)));
}

#[test]
fn integer_overflow_is_an_error() {
    let mut s = session();
    match eval_error(run(&mut s, "9223372036854775807 + 1")) {
        EvalError::InvalidResult { op, operands, result } => {
            assert_eq!(op, Operator::Binary(BinaryOp::Addition));
            assert_eq!(operands, vec![Value::Int(i64::MAX), Value::Int(1)]);
            assert_eq!(result, Value::Int(i64::MIN));
        }
        other => panic!("unexpected error {:?}", other),
    }
}

#[test]
fn conditional_evaluates_one_branch() {
    let mut s = session();
    assert_eq!(run(&mut s, "true ? (a = 1) : (a = 2)"), Ok(Value::Int(1)));
    assert_eq!(variable(&s, "a"), Some(Value::Int(1)));
    assert_eq!(run(&mut s, "false ? (b = 1) : (c = 2)"), Ok(Value::Int(2)));
    assert_eq!(variable(&s, "b"), None);
    assert_eq!(variable(&s, "c"), Some(Value::Int(2)));
}

#[test]
fn clamp_and_min() {
    let mut s = session();
    assert_eq!(run(&mut s, "clamp(0, 10, 15)"), Ok(Value::Int(10)));
    assert_eq!(run(&mut s, "clamp(0, 10, -3)"), Ok(Value::Int(0)));
    assert_eq!(run(&mut s, "min(1, 2.5, true)"), Ok(float(1.0)));
    assert_eq!(run(&mut s, "max(1, 2.5, true)"), Ok(float(2.5)));
}

#[test]
fn lexing_error_names_the_byte() {
    let mut s = session();
    match run(&mut s, "1 + $") {
        Err(Spanned { span, data: Error::LexingError(LexingError::InvalidToken { src, index }) }) => {
            assert_eq!(span, Span { start: 4, end: 5 });
            assert_eq!(src, "1 + $");
            assert_eq!(index, 4);
        }
        other => panic!("unexpected {:?}", other),
    }
}

fn at(start: usize, end: usize, data: Expr) -> Spanned<Expr> {
    Spanned { span: Span { start, end }, data }
}

fn lit(v: Value) -> Spanned<Expr> {
    at(0, 1, Expr::Value(v))
}

fn name(s: &str) -> Spanned<Expr> {
    at(0, 1, Expr::Identifier(s.to_string()))
}

fn failure(r: Result<Value, Spanned<Error>>) -> Spanned<Error> {
    match r {
        Err(e) => e,
        Ok(v) => panic!("expected a failure, got {:?}", v),
    }
}

#[test]
fn an_identifier_evaluates_to_the_slot_of_its_variable() {
    let mut s = session();
    run(&mut s, "a = 1").unwrap();
    run(&mut s, "b = 2.5").unwrap();
    let r = evaluate_expr(&name("b"), &mut s.variables, &s.macros, &s.functions, &float_unit, &no_host)
        .unwrap();
    assert_eq!(r, EvalResult::Ref(1));
    assert_eq!(r.result_type(), expr_eval::evaluater::EvalResultType::Ref);
    assert_eq!(r.as_ref(), Some(1));
    assert_eq!(r.as_value(), None);
    assert_eq!(r.value(&s.variables), float(2.5));
    let r = evaluate_expr(&lit(Value::Int(3)), &mut s.variables, &s.macros, &s.functions, &float_unit, &no_host)
        .unwrap();
    assert_eq!(r.result_type(), expr_eval::evaluater::EvalResultType::Value);
    assert_eq!(r.as_value(), Some(Value::Int(3)));
    assert_eq!(r.as_ref(), None);
    assert_eq!(r.value(&s.variables), Value::Int(3));
}

#[test]
fn an_unbound_identifier_is_not_found() {
    let mut s = session();
    let e = failure(run(&mut s, "1 + zz"));
    assert_eq!(e.span, Span { start: 4, end: 6 });
    assert_eq!(
        e.data,
        Error::EvalError(EvalError::NameNotFound {
            kind: NameKind::Variable,
            name: "zz".to_string()
        })
    );
}

#[test]
fn a_variable_keeps_the_type_it_was_bound_with() {
    let mut s = session();
    assert_eq!(run(&mut s, "a = 5"), Ok(Value::Int(5)));
    assert_eq!(run(&mut s, "a = 2.9"), Ok(Value::Int(2)));
    assert_eq!(variable(&s, "a"), Some(Value::Int(2)));
    assert_eq!(run(&mut s, "f = 1.5"), Ok(float(1.5)));
    assert_eq!(run(&mut s, "f = 2"), Ok(float(2.0)));
    assert_eq!(run(&mut s, "t = true"), Ok(Value::Boolean(true)));
    assert_eq!(run(&mut s, "t = 0"), Ok(Value::Boolean(false)));
    assert_eq!(run(&mut s, "a += 1.5"), Ok(Value::Int(3)));
    assert_eq!(run(&mut s, "f *= 4"), Ok(float(8.0)));
    assert_eq!(run(&mut s, "f /= 16"), Ok(float(0.5)));
    assert_eq!(run(&mut s, "a -= 1"), Ok(Value::Int(2)));
    assert_eq!(run(&mut s, "a %= 2"), Ok(Value::Int(0)));
    assert_eq!(run(&mut s, "a |= 6"), Ok(Value::Int(6)));
    assert_eq!(run(&mut s, "a &= 3"), Ok(Value::Int(2)));
    assert_eq!(run(&mut s, "a ^= 7"), Ok(Value::Int(5)));
    assert_eq!(run(&mut s, "t &&= 1"), Ok(Value::Boolean(false)));
    assert_eq!(run(&mut s, "t ||= 1"), Ok(Value::Boolean(true)));
    assert_eq!(variable(&s, "a"), Some(Value::Int(5)));
    assert_eq!(variable(&s, "f"), Some(float(0.5)));
    assert_eq!(variable(&s, "t"), Some(Value::Boolean(true)));
}

#[test]
fn assignments_chain_to_the_right() {
    let mut s = session();
    assert_eq!(run(&mut s, "a = b = 3"), Ok(Value::Int(3)));
    assert_eq!(variable(&s, "a"), Some(Value::Int(3)));
    assert_eq!(variable(&s, "b"), Some(Value::Int(3)));
    assert_eq!(run(&mut s, "a += b *= 2"), Ok(Value::Int(9)));
    assert_eq!(variable(&s, "b"), Some(Value::Int(6)));
}

#[test]
fn only_an_identifier_can_be_assigned() {
    let mut s = session();
    let e = failure(run(&mut s, "1 + 2 = 3"));
    assert_eq!(
        e.data,
        Error::EvalError(EvalError::NotAssignable { op: Operator::Binary(BinaryOp::Assign) })
    );
    assert_eq!(e.span, Span { start: 0, end: 9 });
    let e = failure(run(&mut s, "(a) += 3"));
    match e.data {
        Error::EvalError(EvalError::NameNotFound { .. }) => {}
        other => panic!("unexpected {:?}", other),
    }
    let e = failure(run(&mut s, "7 -= 3"));
    assert_eq!(
        e.data,
        Error::EvalError(EvalError::NotAssignable { op: Operator::Binary(BinaryOp::SubAssign) })
    );
}

#[test]
fn an_overflowing_assignment_is_an_error_and_stores_the_wrapped_value() {
    let mut s = session();
    run(&mut s, "a = 9223372036854775807").unwrap();
    let e = failure(run(&mut s, "a += 1"));
    assert_eq!(e.span, Span { start: 0, end: 6 });
    assert_eq!(
        e.data,
        Error::EvalError(EvalError::InvalidResult {
            op: Operator::Binary(BinaryOp::AddAssign),
            operands: vec![Value::Int(i64::MAX), Value::Int(1)],
            result: Value::Int(i64::MIN),
        })
    );
    assert_eq!(variable(&s, "a"), Some(Value::Int(i64::MIN)));
}

#[test]
fn errors_carry_the_span_of_their_operands() {
    let mut s = session();
    let e = failure(run(&mut s, "1 + (5 / 0)"));
    assert_eq!(e.span, Span { start: 5, end: 10 });
    let e = failure(run(&mut s, "true + false"));
    assert_eq!(e.span, Span { start: 0, end: 12 });
    assert_eq!(
        e.data,
        Error::EvalError(EvalError::OpNotSupported {
            op: Operator::Binary(BinaryOp::Addition),
            operand_types: vec![
                expr_eval::value::ValueType::Boolean,
                expr_eval::value::ValueType::Boolean
            ],
        })
    );
    let e = failure(run(&mut s, "- true"));
    assert_eq!(e.span, Span { start: 0, end: 6 });
    let e = failure(run(&mut s, "  - -9223372036854775808"));
    assert_eq!(e.span, Span { start: 2, end: 24 });
    assert_eq!(
        e.data,
        Error::EvalError(EvalError::InvalidResult {
            op: Operator::Unary(expr_eval::operator::UnaryOp::Negation),
            operands: vec![Value::Int(i64::MIN)],
            result: Value::Int(i64::MIN),
        })
    );
}

#[test]
fn float_results_that_are_not_finite_are_errors() {
    let mut s = session();
    match eval_error(run(&mut s, "10.0 ** 400")) {
        EvalError::InvalidResult { op, operands, result } => {
            assert_eq!(op, Operator::Binary(BinaryOp::Exponentiation));
            assert_eq!(operands, vec![float(10.0), Value::Int(400)]);
            assert_eq!(result, float(f64::INFINITY));
        }
        other => panic!("unexpected {:?}", other),
    }
    assert_eq!(run(&mut s, "1.5 + 2"), Ok(float(3.5)));
    assert_eq!(run(&mut s, "7.5 % 2"), Ok(float(1.5)));
    assert_eq!(run(&mut s, "0.1 + 0.2 == 0.3"), Ok(Value::Boolean(true)));
}

#[test]
fn arithmetic_on_mixed_types() {
    let mut s = session();
    assert_eq!(run(&mut s, "1 + 2 * 3"), Ok(Value::Int(7)));
    assert_eq!(run(&mut s, "(1 + 2) * 3"), Ok(Value::Int(9)));
    assert_eq!(run(&mut s, "true + 1"), Ok(Value::Int(2)));
    assert_eq!(run(&mut s, "1 < 2"), Ok(Value::Boolean(true)));
    assert_eq!(run(&mut s, "1 < 2 == true"), Ok(Value::Boolean(true)));
    assert_eq!(run(&mut s, "7 % 3 + 2 ** 3"), Ok(Value::Int(9)));
    assert_eq!(run(&mut s, "6 & 3 | 8"), Ok(Value::Int(10)));
    assert_eq!(run(&mut s, "- 3 + 5"), Ok(Value::Int(2)));
    assert_eq!(run(&mut s, "- 2 ** 2"), Ok(Value::Int(-4)));
    assert_eq!(run(&mut s, "-2 ** 2"), Ok(Value::Int(4)));
    assert_eq!(run(&mut s, "1-2"), Ok(Value::Int(-2)));
}

#[test]
fn prefix_operators_in_expressions() {
    let mut s = session();
    let not = at(
        0,
        2,
        Expr::Unary {
            op: Operator::Unary(expr_eval::operator::UnaryOp::Not),
            rhs: Box::new(at(1, 2, Expr::Value(Value::Int(0)))),
        },
    );
    let r = evaluate_expr(&not, &mut s.variables, &s.macros, &s.functions, &float_unit, &no_host);
    assert_eq!(r, Ok(EvalResult::Value(Value::Boolean(true))));
    let complement = at(
        0,
        2,
        Expr::Unary {
            op: Operator::Unary(expr_eval::operator::UnaryOp::BitwiseNot),
            rhs: Box::new(at(1, 2, Expr::Value(Value::Int(5)))),
        },
    );
    let r = evaluate_expr(&complement, &mut s.variables, &s.macros, &s.functions, &float_unit, &no_host);
    assert_eq!(r, Ok(EvalResult::Value(Value::Int(-6))));
    let wrong = at(
        0,
        2,
        Expr::Unary {
            op: Operator::Binary(BinaryOp::Addition),
            rhs: Box::new(at(1, 2, Expr::Value(Value::Int(5)))),
        },
    );
    let r = evaluate_expr(&wrong, &mut s.variables, &s.macros, &s.functions, &float_unit, &no_host);
    assert_eq!(r, Err(Spanned { span: Span { start: 0, end: 2 }, data: Error::UnexpectedError }));
}

#[test]
fn a_conditional_converts_its_condition() {
    let mut s = session();
    assert_eq!(run(&mut s, "2 ? 10 : 20"), Ok(Value::Int(10)));
    assert_eq!(run(&mut s, "0.0 ? 10 : 20"), Ok(Value::Int(20)));
    assert_eq!(run(&mut s, "1 < 2 ? 10 : 20"), Ok(Value::Int(10)));
    assert_eq!(run(&mut s, "false ? 1 : true ? 2 : 3"), Ok(Value::Int(2)));
    run(&mut s, "v = 7").unwrap();
    let expr = parse_string("true ? v : 0", &parse_float).unwrap();
    let r = evaluate_expr(&expr, &mut s.variables, &s.macros, &s.functions, &float_unit, &no_host);
    assert_eq!(r, Ok(EvalResult::Ref(0)));
    let e = failure(run(&mut s, "(1 / 0) ? (w = 1) : (w = 2)"));
    assert_eq!(
        e.data,
        Error::EvalError(EvalError::DivideByZero { lhs: Value::Int(1), rhs: Value::Int(0) })
    );
    assert_eq!(variable(&s, "w"), None);
}

#[test]
fn calls_evaluate_their_arguments_from_left_to_right() {
    let mut s = session();
    assert_eq!(run(&mut s, "max(a = 1, a += 10, a *= 2)"), Ok(Value::Int(22)));
    assert_eq!(variable(&s, "a"), Some(Value::Int(22)));
    assert_eq!(run(&mut s, "min(a, 3)"), Ok(Value::Int(3)));
    assert_eq!(run(&mut s, "to_float(a)"), Ok(float(22.0)));
    assert_eq!(run(&mut s, "to_bool(0)"), Ok(Value::Boolean(false)));
    assert_eq!(run(&mut s, "to_int(2.9) + 1"), Ok(Value::Int(3)));
    assert_eq!(run(&mut s, "any(0, 0.0, a)"), Ok(Value::Boolean(true)));
    assert_eq!(run(&mut s, "all(1, 0.0, a)"), Ok(Value::Boolean(false)));
    assert_eq!(run(&mut s, "any()"), Ok(Value::Boolean(false)));
    assert_eq!(run(&mut s, "clamp(0.0, 1, 2)"), Ok(float(1.0)));
}

#[test]
fn a_failing_argument_ends_the_call() {
    let mut s = session();
    let e = failure(run(&mut s, "max(p = 1, 1 / 0, q = 2)"));
    assert_eq!(
        e.data,
        Error::EvalError(EvalError::DivideByZero { lhs: Value::Int(1), rhs: Value::Int(0) })
    );
    assert_eq!(variable(&s, "p"), Some(Value::Int(1)));
    assert_eq!(variable(&s, "q"), None);
}

#[test]
fn call_errors_span_the_call() {
    let mut s = session();
    let e = failure(run(&mut s, " sqrt(2, 30)"));
    assert_eq!(e.span, Span { start: 1, end: 11 });
    assert_eq!(
        e.data,
        Error::EvalError(EvalError::NameNotFound {
            kind: NameKind::Function,
            name: "sqrt".to_string()
        })
    );
    let e = failure(run(&mut s, "nothing()"));
    assert_eq!(e.span, Span { start: 0, end: 7 });
    let e = failure(run(&mut s, "to_int(1, 22)"));
    assert_eq!(e.span, Span { start: 0, end: 12 });
    assert_eq!(
        e.data,
        Error::EvalError(EvalError::ArityMismatch {
            func: "to_int".to_string(),
            expected: 1,
            found: 2
        })
    );
    let e = failure(run(&mut s, "clamp(3, 1, 2)"));
    assert_eq!(
        e.data,
        Error::EvalError(EvalError::InvalidOperands {
            op: Operator::Grouping(expr_eval::operator::GroupingOp::LeftParen),
            operands: vec![Value::Int(3), Value::Int(1), Value::Int(2)],
        })
    );
    let e = failure(run(&mut s, "max()"));
    assert_eq!(e.data, Error::UnexpectedError);
    // a function is looked up before its arguments are evaluated
    let e = failure(run(&mut s, "sqrt(z = 1)"));
    assert!(matches!(e.data, Error::EvalError(EvalError::NameNotFound { .. })));
    assert_eq!(variable(&s, "z"), None);
}

#[test]
fn a_call_needs_an_identifier() {
    let mut s = session();
    let e = failure(run(&mut s, "2 ** 3 (4)"));
    assert_eq!(e.data, Error::UnexpectedError);
}

#[test]
fn a_comma_sequence_is_its_last_member() {
    let mut s = session();
    assert_eq!(run(&mut s, "a = 1, b = a + 1, a + b"), Ok(Value::Int(3)));
    assert_eq!(variable(&s, "a"), Some(Value::Int(1)));
    assert_eq!(variable(&s, "b"), Some(Value::Int(2)));
    // a member that fails ends the sequence
    let e = failure(run(&mut s, "c = 4, 1 / 0, g = 5"));
    assert_eq!(
        e.data,
        Error::EvalError(EvalError::DivideByZero { lhs: Value::Int(1), rhs: Value::Int(0) })
    );
    assert_eq!(e.span, Span { start: 7, end: 12 });
    assert_eq!(variable(&s, "c"), Some(Value::Int(4)));
    assert_eq!(variable(&s, "g"), None);
    let e = failure(run(&mut s, "d = 1, 1 / 0"));
    assert_eq!(
        e.data,
        Error::EvalError(EvalError::DivideByZero { lhs: Value::Int(1), rhs: Value::Int(0) })
    );
    assert_eq!(variable(&s, "d"), Some(Value::Int(1)));
    let empty = at(3, 4, Expr::Comma { exprs: vec![] });
    let r = evaluate_expr(&empty, &mut s.variables, &s.macros, &s.functions, &float_unit, &no_host);
    assert_eq!(r, Err(Spanned { span: Span { start: 3, end: 4 }, data: Error::UnexpectedError }));
}

#[test]
fn macros_are_evaluated_at_each_reference() {
    let mut s = session();
    let body = *parse_string("n = n + 1", &parse_float).unwrap();
    s.macros.insert("bump", body);
    run(&mut s, "n = 0").unwrap();
    let reference = at(0, 6, Expr::Macro("bump".to_string()));
    for expected in 1..=3 {
        let r = evaluate_expr(&reference, &mut s.variables, &s.macros, &s.functions, &float_unit, &no_host);
        assert_eq!(r, Ok(EvalResult::Value(Value::Int(expected))));
    }
    assert_eq!(variable(&s, "n"), Some(Value::Int(3)));

    let twice = at(
        0,
        9,
        Expr::Binary {
            op: Operator::Binary(BinaryOp::Addition),
            lhs: Box::new(reference.clone()),
            rhs: Box::new(reference.clone()),
        },
    );
    let r = evaluate_expr(&twice, &mut s.variables, &s.macros, &s.functions, &float_unit, &no_host);
    assert_eq!(r, Ok(EvalResult::Value(Value::Int(9))));
}

#[test]
fn an_unbound_macro_is_not_found() {
    let mut s = session();
    let reference = at(2, 8, Expr::Macro("mystery".to_string()));
    let r = evaluate_expr(&reference, &mut s.variables, &s.macros, &s.functions, &float_unit, &no_host);
    assert_eq!(
        r,
        Err(Spanned {
            span: Span { start: 2, end: 8 },
            data: Error::EvalError(EvalError::NameNotFound {
                kind: NameKind::Macro,
                name: "mystery".to_string()
            })
        })
    );
}

#[test]
fn macros_that_refer_to_themselves_fail() {
    let mut s = session();
    s.macros.insert("loop", at(0, 4, Expr::Macro("loop".to_string())));
    let reference = at(10, 14, Expr::Macro("loop".to_string()));
    let r = evaluate_expr(&reference, &mut s.variables, &s.macros, &s.functions, &float_unit, &no_host);
    assert_eq!(r, Err(Spanned { span: Span { start: 0, end: 4 }, data: Error::UnexpectedError }));
}

#[test]
fn macros_nest_up_to_the_limit() {
    let mut s = session();
    let depth = expr_eval::evaluater::MAX_MACRO_DEPTH;
    s.macros.insert("m0", lit(Value::Int(7)));
    for k in 1..=depth {
        s.macros.insert(&format!("m{}", k), at(0, 1, Expr::Macro(format!("m{}", k - 1))));
    }
    let deepest_allowed = at(0, 1, Expr::Macro(format!("m{}", depth - 1)));
    let r = evaluate_expr(&deepest_allowed, &mut s.variables, &s.macros, &s.functions, &float_unit, &no_host);
    assert_eq!(r, Ok(EvalResult::Value(Value::Int(7))));
    let too_deep = at(0, 1, Expr::Macro(format!("m{}", depth)));
    let r = evaluate_expr(&too_deep, &mut s.variables, &s.macros, &s.functions, &float_unit, &no_host);
    assert!(matches!(r, Err(Spanned { data: Error::UnexpectedError, .. })));
}

#[test]
fn a_binary_node_needs_a_binary_operator() {
    let mut s = session();
    let wrong = at(
        0,
        5,
        Expr::Binary {
            op: Operator::Unary(expr_eval::operator::UnaryOp::Not),
            lhs: Box::new(at(0, 1, Expr::Value(Value::Int(1)))),
            rhs: Box::new(at(4, 5, Expr::Value(Value::Int(2)))),
        },
    );
    let r = evaluate_expr(&wrong, &mut s.variables, &s.macros, &s.functions, &float_unit, &no_host);
    assert_eq!(r, Err(Spanned { span: Span { start: 0, end: 5 }, data: Error::UnexpectedError }));
}

#[test]
fn what_was_assigned_before_a_failure_stays() {
    let mut s = session();
    let e = failure(run(&mut s, "(k = 3) + (1 / 0)"));
    assert!(matches!(e.data, Error::EvalError(EvalError::DivideByZero { .. })));
    assert_eq!(variable(&s, "k"), Some(Value::Int(3)));
}

#[test]
fn an_operand_is_read_when_it_is_evaluated() {
    let mut s = session();
    run(&mut s, "a = 1").unwrap();
    assert_eq!(run(&mut s, "a + (a = 5)"), Ok(Value::Int(6)));
    assert_eq!(run(&mut s, "(a = 7) + a"), Ok(Value::Int(14)));
}

#[test]
fn a_macro_is_defined_as_a_copy() {
    let mut s = session();
    let body = parse_string("r * r * 3", &parse_float).unwrap();
    let slot = expr_eval::evaluater::define_macro(&mut s.macros, "area", &body);
    assert_eq!(slot, 0);
    assert_eq!(s.macros.lookup("area"), Some(&*body));
    let other = expr_eval::evaluater::define_macro(&mut s.macros, "side", &lit(Value::Int(2)));
    assert_eq!(other, 1);
    let again = expr_eval::evaluater::define_macro(&mut s.macros, "area", &lit(Value::Int(9)));
    assert_eq!(again, 0);
    assert_eq!(s.macros.len(), 2);
    assert_eq!(s.macros.lookup("area"), Some(&lit(Value::Int(9))));
    assert_eq!(s.macros.lookup("side"), Some(&lit(Value::Int(2))));
}

fn host(id: usize, input: &Vec<Value>) -> Result<Value, Error> {
    match (id, input.as_slice()) {
        (0, [Value::Int(v)]) => Ok(Value::Int(2 * v)),
        (0, _) => Err(Error::EvalError(EvalError::ArityMismatch {
            func: "double".to_string(),
            expected: 1,
            found: input.len(),
        })),
        (1, values) => Ok(Value::Int(values.len() as i64)),
        _ => Err(Error::UnexpectedError),
    }
}

fn run_hosted(s: &mut Session, text: &str) -> Result<Value, Spanned<Error>> {
    let expr = parse_string(text, &parse_float)?;
    let r = evaluate_expr(&expr, &mut s.variables, &s.macros, &s.functions, &float_unit, &host)?;
    Ok(r.value(&s.variables))
}

#[test]
fn a_program_registers_functions_of_its_own() {
    let mut s = session();
    assert_eq!(s.functions.insert("double", Function::Hosted(0)), 8);
    assert_eq!(s.functions.insert("count", Function::Hosted(1)), 9);
    assert_eq!(run_hosted(&mut s, "double(21)"), Ok(Value::Int(42)));
    assert_eq!(run_hosted(&mut s, "double(x = 4) + x"), Ok(Value::Int(12)));
    assert_eq!(run_hosted(&mut s, "count()"), Ok(Value::Int(0)));
    assert_eq!(run_hosted(&mut s, "count(1, true, 2.5)"), Ok(Value::Int(3)));
    assert_eq!(run_hosted(&mut s, "max(double(2), count(1))"), Ok(Value::Int(4)));
    // the built-in functions are still there
    assert_eq!(run_hosted(&mut s, "to_int(2.5)"), Ok(Value::Int(2)));
}

#[test]
fn the_error_of_a_function_of_the_program_comes_with_the_span_of_the_call() {
    let mut s = session();
    s.functions.insert("double", Function::Hosted(0));
    s.functions.insert("other", Function::Hosted(7));
    let r = run_hosted(&mut s, "1 + double(1, 2)");
    assert_eq!(
        r,
        Err(Spanned {
            span: Span { start: 4, end: 15 },
            data: Error::EvalError(EvalError::ArityMismatch {
                func: "double".to_string(),
                expected: 1,
                found: 2,
            }),
        })
    );
    let r = run_hosted(&mut s, "other(1)");
    assert_eq!(r, Err(Spanned { span: Span { start: 0, end: 7 }, data: Error::UnexpectedError }));
    // without a host, a function of the program fails
    let r = run(&mut s, "double(1)");
    assert_eq!(r, Err(Spanned { span: Span { start: 0, end: 8 }, data: Error::UnexpectedError }));
}

#[test]
fn a_function_of_the_program_can_take_the_place_of_a_built_in_one() {
    let mut s = session();
    assert_eq!(s.functions.insert("max", Function::Hosted(1)), 5);
    assert_eq!(run_hosted(&mut s, "max(7, 8, 9)"), Ok(Value::Int(3)));
    assert_eq!(s.functions.remove("max"), Some(Function::Hosted(1)));
    let r = run_hosted(&mut s, "max(7, 8, 9)");
    assert!(matches!(
        eval_error(r),
        EvalError::NameNotFound { kind: NameKind::Function, .. }
    ));
}

fn no_unit(_op: FloatOp, _a: u64, _b: u64) -> u64 {
    panic!("a float operation was asked for")
}

#[test]
fn without_floats_the_float_unit_is_not_asked() {
    let mut variables = Environment::new();
    let mut macros = MacroTable::new();
    let functions = builtins();
    let body = parse_string("n * n + 1", &parse_float).unwrap();
    define_macro(&mut macros, "square", &body);
    let texts = [
        ("n = 7", Value::Int(7)),
        ("n += 2 ** 3", Value::Int(15)),
        ("n / 2 - n % 4", Value::Int(4)),
        ("n > 3 ? max(n, 20, true) : min(1, 2)", Value::Int(20)),
        ("clamp(0, 10, n), to_int(true) + to_bool(n)", Value::Int(2)),
        ("any(0, n) | all(1, n) ^ 5", Value::Int(5)),
    ];
    for (text, expected) in texts {
        let expr = match parse_string(text, &parse_float) {
            Ok(expr) => expr,
            Err(err) => panic!("{:?} does not parse: {:?}", text, err),
        };
        let r = evaluate_expr(&expr, &mut variables, &macros, &functions, &no_unit, &no_host);
        assert_eq!(r.map(|v| v.value(&variables)), Ok(expected), "{}", text);
    }
    let macro_use = Spanned { span: Span { start: 0, end: 6 }, data: Expr::Macro("square".to_string()) };
    let r = evaluate_expr(&macro_use, &mut variables, &macros, &functions, &no_unit, &no_host);
    assert_eq!(r.map(|v| v.value(&variables)), Ok(Value::Int(226)));
}

#[test]
fn the_program_chooses_how_deep_macros_nest() {
    let mut s = session();
    let span = Span { start: 0, end: 0 };
    let at = |data: Expr| Spanned { span, data };
    // down: n > 0 ? (n -= 1, {down}) : 7
    let body = at(Expr::Ternary {
        cond: parse_string("n > 0", &parse_float).unwrap(),
        statement1: Box::new(at(Expr::Comma {
            exprs: vec![
                *parse_string("n -= 1", &parse_float).unwrap(),
                at(Expr::Macro("down".to_string())),
            ],
        })),
        statement2: Box::new(at(Expr::Value(Value::Int(7)))),
    });
    define_macro(&mut s.macros, "down", &body);
    let start = at(Expr::Macro("down".to_string()));

    assert_eq!(run(&mut s, "n = 200"), Ok(Value::Int(200)));
    let r = evaluate_at(&start, &mut s.variables, &s.macros, &s.functions, &float_unit, &no_host, 201);
    assert_eq!(r, Ok(EvalResult::Value(Value::Int(7))));
    assert_eq!(variable(&s, "n"), Some(Value::Int(0)));

    assert_eq!(run(&mut s, "n = 200"), Ok(Value::Int(200)));
    let r = evaluate_at(&start, &mut s.variables, &s.macros, &s.functions, &float_unit, &no_host, 200);
    assert_eq!(r, Err(Spanned { span, data: Error::UnexpectedError }));
    assert_eq!(variable(&s, "n"), Some(Value::Int(0)));

    assert_eq!(run(&mut s, "n = 200"), Ok(Value::Int(200)));
    let r = evaluate_expr(&start, &mut s.variables, &s.macros, &s.functions, &float_unit, &no_host);
    assert_eq!(r, Err(Spanned { span, data: Error::UnexpectedError }));
    assert_eq!(variable(&s, "n"), Some(Value::Int(72)));

    let r = evaluate_at(&start, &mut s.variables, &s.macros, &s.functions, &float_unit, &no_host, 0);
    assert_eq!(r, Err(Spanned { span, data: Error::UnexpectedError }));
    assert_eq!(variable(&s, "n"), Some(Value::Int(72)));
}
