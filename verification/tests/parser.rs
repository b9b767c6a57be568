use expr_eval::debug::expr_to_text;
use expr_eval::error::Error;
use expr_eval::operator::{BinaryOp, GroupingOp, Operator, TernaryOp, UnaryOp};
use expr_eval::parser::{parse_string, parse_tokens, recompute_expr_span, respan, Expr};
use expr_eval::span::{Span, Spanned};
use expr_eval::token::Token;
use expr_eval::value::Value;

fn parse_float(text: String) -> Option<u64> {
    text.parse::<f64>().ok().map(f64::to_bits)
}

fn float_text(bits: u64) -> String {
    f64::from_bits(bits).to_string()
}

fn parse(text: &str) -> Spanned<Expr> {
    *parse_string(text, &parse_float).unwrap()
}

/// The shape of an expression, in prefix form, without spans.
fn shape(e: &Spanned<Expr>) -> String {
    match &e.data {
        Expr::Value(Value::Int(i)) => format!("{}", i),
        Expr::Value(Value::Boolean(b)) => format!("{}", b),
        Expr::Value(Value::Float(f)) => format!("{:?}", f64::from_bits(*f)),
        Expr::Identifier(s) => s.clone(),
        Expr::Macro(s) => format!("{{{}}}", s),
        Expr::Unary { op, rhs } => format!("({} {})", op.symbol(), shape(rhs)),
        Expr::Binary { op, lhs, rhs } => {
            format!("({} {} {})", op.symbol(), shape(lhs), shape(rhs))
        }
        Expr::Comma { exprs } => {
            format!("(, {})", exprs.iter().map(shape).collect::<Vec<_>>().join(" "))
        }
        Expr::Ternary { cond, statement1, statement2 } => {
            format!("(? {} {} {})", shape(cond), shape(statement1), shape(statement2))
        }
        Expr::Call { func, args } => {
            let mut parts = vec![shape(func)];
            parts.extend(args.iter().map(shape));
            format!("(call {})", parts.join(" "))
        }
    }
}

fn parsed(text: &str) -> String {
    shape(&parse(text))
}

fn fails(text: &str) -> bool {
    match parse_string(text, &parse_float) {
        Err(Spanned { span, data: Error::UnexpectedError }) => {
            assert_eq!(span, Span { start: 0, end: 0 });
            true
        }
        Err(other) => panic!("unexpected error {:?}", other),
        Ok(_) => false,
    }
}

#[test]
fn literals_and_names() {
    assert_eq!(parsed("42"), "42");
    assert_eq!(parsed("true"), "true");
    assert_eq!(parsed("2.5"), "2.5");
    assert_eq!(parsed("x"), "x");
}

#[test]
fn binary_operators_by_binding_power() {
    assert_eq!(parsed("1 + 2 * 3"), "(+ 1 (* 2 3))");
    assert_eq!(parsed("1 * 2 + 3"), "(+ (* 1 2) 3)");
    assert_eq!(parsed("1 + 2 < 3 + 4"), "(< (+ 1 2) (+ 3 4))");
    assert_eq!(parsed("a < b == c < d"), "(== (< a b) (< c d))");
    assert_eq!(parsed("a & b ^ c | d"), "(| (^ (& a b) c) d)");
    assert_eq!(parsed("a | b ^ c & d"), "(| a (^ b (& c d)))");
    assert_eq!(parsed("a == b & c"), "(& (== a b) c)");
    assert_eq!(parsed("2 * 3 ** 2"), "(* 2 (** 3 2))");
    assert_eq!(parsed("a % b / c"), "(/ (% a b) c)");
}

#[test]
fn left_associative_operators() {
    assert_eq!(parsed("1 - 2 - 3"), "(- (- 1 2) 3)");
    assert_eq!(parsed("8 / 4 / 2"), "(/ (/ 8 4) 2)");
    assert_eq!(parsed("a < b < c"), "(< (< a b) c)");
}

#[test]
fn right_associative_operators() {
    assert_eq!(parsed("2 ** 3 ** 2"), "(** 2 (** 3 2))");
    assert_eq!(parsed("a = b = 3"), "(= a (= b 3))");
    assert_eq!(parsed("a += b *= 3"), "(+= a (*= b 3))");
    assert_eq!(parsed("a = 1 + 2"), "(= a (+ 1 2))");
    assert_eq!(parsed("a &&= b ||= c"), "(&&= a (||= b c))");
}

#[test]
fn prefix_minus() {
    assert_eq!(parsed("- x"), "(- x)");
    assert_eq!(parsed("- x + y"), "(+ (- x) y)");
    assert_eq!(parsed("- x * y"), "(* (- x) y)");
    assert_eq!(parsed("- x ** y"), "(- (** x y))");
    assert_eq!(parsed("- - x"), "(- (- x))");
    assert_eq!(parsed("-5"), "-5");
}

#[test]
fn parentheses_group() {
    assert_eq!(parsed("(1 + 2) * 3"), "(* (+ 1 2) 3)");
    assert_eq!(parsed("((x))"), "x");
    assert_eq!(parsed("(2 ** 3) ** 2"), "(** (** 2 3) 2)");
}

#[test]
fn juxtaposition_multiplies_unless_the_left_is_a_bare_identifier() {
    assert_eq!(parsed("2(3+4)"), "(* 2 (+ 3 4))");
    assert_eq!(parsed("(a)(b)"), "(* a b)");
    assert_eq!(parsed("((a))(b)"), "(* a b)");
    assert_eq!(parsed("(a) b"), "(* a b)");
    assert_eq!(parsed("(a)(b)(c)"), "(* a (call b c))");
    assert_eq!(parsed("(a)(b) (c + 1)"), "(* a (call b (+ c 1)))");
    assert_eq!(parsed("a(b)"), "(call a b)");
    assert_eq!(parsed("a (b)"), "(call a b)");
    assert_eq!(parsed("(a + 1)(b)"), "(* (+ a 1) b)");
    assert_eq!(parsed("2 x"), "(* 2 x)");
    assert_eq!(parsed("2 3 4"), "(* (* 2 3) 4)");
    assert_eq!(parsed("1 + 2 x"), "(+ 1 (* 2 x))");
    assert_eq!(parsed("2 x * 3"), "(* (* 2 x) 3)");
    assert_eq!(parsed("2 x ** 3"), "(* 2 (** x 3))");
    assert_eq!(parsed("1-2"), "(* 1 -2)");
    assert_eq!(parsed("x(1,2)"), "(call x 1 2)");
    assert_eq!(parsed("x (1,2)"), "(call x 1 2)");
}

#[test]
fn calls() {
    assert_eq!(parsed("f()"), "(call f)");
    assert_eq!(parsed("f(1)"), "(call f 1)");
    assert_eq!(parsed("f(1, 2 + 3, g(4))"), "(call f 1 (+ 2 3) (call g 4))");
    assert_eq!(parsed("f((1, 2), 3)"), "(call f (, 1 2) 3)");
    assert_eq!(parsed("f(a = 1, b)"), "(call f (= a 1) b)");
    assert_eq!(parsed("f(1)(2)"), "(* (call f 1) 2)");
    assert_eq!(parsed("2 ** 3 (4)"), "(** 2 (call 3 4))");
}

#[test]
fn comma_sequences_are_flat() {
    assert_eq!(parsed("1, 2"), "(, 1 2)");
    assert_eq!(parsed("1, 2, 3"), "(, 1 2 3)");
    assert_eq!(parsed("a = 1, b = 2"), "(, (= a 1) (= b 2))");
    assert_eq!(parsed("(1, 2), 3"), "(, 1 2 3)");
    assert_eq!(parsed("1, (2, 3)"), "(, 1 (, 2 3))");
}

#[test]
fn conditionals() {
    assert_eq!(parsed("a ? b : c"), "(? a b c)");
    assert_eq!(parsed("a ? b : c ? d : e"), "(? a b (? c d e))");
    assert_eq!(parsed("a ? b ? c : d : e"), "(? a (? b c d) e)");
    assert_eq!(parsed("a + 1 ? b : c"), "(? (+ a 1) b c)");
    assert_eq!(parsed("a ? 1, 2 : 3"), "(? a (, 1 2) 3)");
    assert_eq!(parsed("x = a ? b : c"), "(= x (? a b c))");
    assert_eq!(parsed("a ? b : c, d"), "(, (? a b c) d)");
}

#[test]
fn what_follows_a_complete_expression_is_not_read() {
    assert_eq!(parsed("1 )"), "1");
    assert_eq!(parsed("1 : 2"), "1");
    assert_eq!(parsed("x )))"), "x");
}

#[test]
fn missing_tokens_fail() {
    assert!(fails(""));
    assert!(fails("   "));
    assert!(fails("(1 + 2"));
    assert!(fails("1 +"));
    assert!(fails("* 2"));
    assert!(fails(")"));
    assert!(fails("a ? b"));
    assert!(fails("a ? b :"));
    assert!(fails("f(1, 2"));
    assert!(fails("f(1,)"));
    assert!(fails("1,"));
    assert!(fails("a = "));
    assert!(fails("2 & & 3"));
    assert!(fails("2 && 3"));
}

#[test]
fn token_kinds_that_the_lexer_never_makes() {
    let at = |start: usize, data: Token| Spanned { span: Span { start, end: start + 1 }, data };
    let tokens = vec![
        at(0, Token::Operator(Operator::Unary(UnaryOp::BitwiseNot))),
        at(1, Token::Macro("m".to_string())),
    ];
    let e = parse_tokens(&tokens).unwrap();
    assert_eq!(shape(&e), "(~ {m})");
    assert_eq!(e.span, Span { start: 0, end: 2 });

    let tokens = vec![
        at(0, Token::Operator(Operator::Unary(UnaryOp::Not))),
        at(1, Token::Identifier("a".to_string())),
    ];
    assert!(parse_tokens(&tokens).is_err());

    let tokens = vec![
        at(0, Token::Value(Value::Int(2))),
        at(1, Token::Operator(Operator::Unary(UnaryOp::BitwiseNot))),
        at(2, Token::Value(Value::Int(3))),
    ];
    assert_eq!(shape(&parse_tokens(&tokens).unwrap()), "(* 2 (~ 3))");

    let tokens = vec![
        at(0, Token::Value(Value::Boolean(true))),
        at(1, Token::Operator(Operator::Binary(BinaryOp::And))),
        at(3, Token::Value(Value::Boolean(false))),
        at(5, Token::Operator(Operator::Binary(BinaryOp::Or))),
        at(7, Token::Value(Value::Boolean(true))),
    ];
    assert_eq!(shape(&parse_tokens(&tokens).unwrap()), "(|| (&& true false) true)");

    let tokens = vec![
        at(0, Token::Operator(Operator::TernaryOp(TernaryOp::TernaryElse))),
        at(1, Token::Operator(Operator::Grouping(GroupingOp::Comma))),
    ];
    assert!(parse_tokens(&tokens).is_err());
}

#[test]
fn spans_cover_the_children() {
    let e = parse("  1 + 23");
    assert_eq!(e.span, Span { start: 2, end: 8 });
    match &e.data {
        Expr::Binary { lhs, rhs, .. } => {
            assert_eq!(lhs.span, Span { start: 2, end: 3 });
            assert_eq!(rhs.span, Span { start: 6, end: 8 });
        }
        other => panic!("unexpected {:?}", other),
    }
}

#[test]
fn spans_leave_parentheses_out() {
    let e = parse("(1 + 2)");
    assert_eq!(e.span, Span { start: 1, end: 6 });
    let e = parse("((x)) * (y)");
    assert_eq!(e.span, Span { start: 2, end: 10 });
    let e = parse("f(1, 22)");
    assert_eq!(e.span, Span { start: 0, end: 7 });
    let e = parse("f()");
    assert_eq!(e.span, Span { start: 0, end: 1 });
    let e = parse("- (x)");
    assert_eq!(e.span, Span { start: 0, end: 4 });
    let e = parse("a ? (b) : (c)");
    assert_eq!(e.span, Span { start: 0, end: 12 });
    let e = parse("(1), (2)");
    assert_eq!(e.span, Span { start: 1, end: 7 });
}

#[test]
fn recompute_expr_span_merges_from_below() {
    let leaf = |start: usize, end: usize, v: i64| Spanned {
        span: Span { start, end },
        data: Expr::Value(Value::Int(v)),
    };
    let mut e = Spanned {
        span: Span { start: 100, end: 200 },
        data: Expr::Binary {
            op: Operator::Binary(BinaryOp::Addition),
            lhs: Box::new(leaf(7, 9, 1)),
            rhs: Box::new(Spanned {
                span: Span { start: 50, end: 60 },
                data: Expr::Unary {
                    op: Operator::Unary(UnaryOp::Negation),
                    rhs: Box::new(leaf(3, 4, 2)),
                },
            }),
        },
    };
    recompute_expr_span(&mut e);
    assert_eq!(e.span, Span { start: 3, end: 60 });
    match &e.data {
        Expr::Binary { lhs, rhs, .. } => {
            assert_eq!(lhs.span, Span { start: 7, end: 9 });
            assert_eq!(rhs.span, Span { start: 3, end: 60 });
        }
        other => panic!("unexpected {:?}", other),
    }

    let comma = Spanned {
        span: Span { start: 10, end: 11 },
        data: Expr::Comma { exprs: vec![leaf(1, 2, 1), leaf(20, 30, 2), leaf(5, 6, 3)] },
    };
    let comma = respan(comma);
    assert_eq!(comma.span, Span { start: 1, end: 30 });
    match &comma.data {
        Expr::Comma { exprs } => {
            assert_eq!(exprs[0].data, Expr::Value(Value::Int(1)));
            assert_eq!(exprs[1].data, Expr::Value(Value::Int(2)));
            assert_eq!(exprs[2].data, Expr::Value(Value::Int(3)));
        }
        other => panic!("unexpected {:?}", other),
    }

    let call = Spanned {
        span: Span { start: 0, end: 100 },
        data: Expr::Call {
            func: Box::new(Spanned {
                span: Span { start: 4, end: 5 },
                data: Expr::Identifier("f".to_string()),
            }),
            args: vec![leaf(6, 7, 1), leaf(9, 12, 2)],
        },
    };
    assert_eq!(respan(call).span, Span { start: 4, end: 12 });
}

#[test]
fn cloning_an_expression_copies_it() {
    let e = parse("f(a, 1 + 2) ? (x, y) : -z");
    let c = e.clone();
    assert_eq!(c, e);
}

fn round_trip(text: &str) {
    let first = parse(text);
    let printed = expr_to_text(&first, &float_text);
    let second = parse(&printed);
    assert_eq!(shape(&second), shape(&first), "through {:?}", printed);
    assert_eq!(expr_to_text(&second, &float_text), printed);
}

#[test]
fn printing_and_parsing_again_gives_the_same_tree() {
    round_trip("1 + 2 * 3");
    round_trip("(1 + 2) * 3");
    round_trip("2 ** 3 ** 2");
    round_trip("(2 ** 3) ** 2");
    round_trip("a = b = 3");
    round_trip("(a = b) = 3");
    round_trip("a < b == c < d");
    round_trip("f(1, 2 + 3, g(4))");
    round_trip("f((1, 2), 3)");
    round_trip("x ? y : z");
    round_trip("(a ? b : c) ? d : e");
    round_trip("a ? b : c ? d : e");
    round_trip("a ? b : (c = d)");
    round_trip("(a = 1) ? b : c");
    round_trip("a = 1, b = 2");
    round_trip("1, (2, 3)");
    round_trip("1 - (2 - 3)");
    round_trip("1 - 2 - 3");
    round_trip("a & b | c ^ d");
    round_trip("2.5 * x + 10");
    round_trip("1. + 2");
    round_trip("f()");
    round_trip("true ? 1 : 0");
    round_trip("- x");
    round_trip("- 5");
    round_trip("-5");
    round_trip("- (a + b)");
    round_trip("(- a) ** b");
    round_trip("- a ** b");
    round_trip("- - x");
    round_trip("2(3+4)");
    round_trip("2 x ** 3");
    round_trip("a / 2 x");
    round_trip("1-2");
    round_trip("2 ** (x + 1)(y)");
    round_trip("10000000000000000000000.0 + 1");
    round_trip("0.000001 * 3");
}

struct Generator {
    state: u64,
}

impl Generator {
    fn next(&mut self, bound: u64) -> u64 {
        self.state ^= self.state << 13;
        self.state ^= self.state >> 7;
        self.state ^= self.state << 17;
        (self.state >> 11) % bound
    }

    fn at(data: Expr) -> Spanned<Expr> {
        Spanned { span: Span { start: 0, end: 1 }, data }
    }

    fn leaf(&mut self) -> Spanned<Expr> {
        let names = ["a", "b", "x1", "foo", "y_2", "t", "f"];
        match self.next(6) {
            0 => Self::at(Expr::Value(Value::Int(self.next(1000) as i64))),
            1 => Self::at(Expr::Value(Value::Int(-(self.next(1000) as i64) - 1))),
            2 => Self::at(Expr::Value(Value::Boolean(self.next(2) == 0))),
            3 => Self::at(Expr::Value(Value::Float(
                ((self.next(100000) as f64) / 64.0 - 300.0).to_bits(),
            ))),
            _ => Self::at(Expr::Identifier(names[self.next(7) as usize].to_string())),
        }
    }

    fn binary_op(&mut self) -> BinaryOp {
        let ops = [
            BinaryOp::Addition,
            BinaryOp::Subtraction,
            BinaryOp::Multiplication,
            BinaryOp::Division,
            BinaryOp::Modulo,
            BinaryOp::Exponentiation,
            BinaryOp::BitwiseAnd,
            BinaryOp::BitwiseOr,
            BinaryOp::BitwiseXor,
            BinaryOp::Equal,
            BinaryOp::Less,
            BinaryOp::Greater,
            BinaryOp::LessEqual,
            BinaryOp::GreaterEqual,
            BinaryOp::Assign,
            BinaryOp::AddAssign,
            BinaryOp::SubAssign,
            BinaryOp::MulAssign,
            BinaryOp::DivAssign,
            BinaryOp::ModAssign,
            BinaryOp::AndAssign,
            BinaryOp::OrAssign,
            BinaryOp::BitAndAssign,
            BinaryOp::BitOrAssign,
            BinaryOp::BitXorAssign,
        ];
        ops[self.next(ops.len() as u64) as usize]
    }

    fn list(&mut self, depth: u32, least: u64) -> Vec<Spanned<Expr>> {
        let n = least + self.next(3);
        (0..n).map(|_| self.expr(depth)).collect()
    }

    fn expr(&mut self, depth: u32) -> Spanned<Expr> {
        if depth == 0 {
            return self.leaf();
        }
        match self.next(10) {
            0 | 1 => self.leaf(),
            2 => Self::at(Expr::Unary {
                op: Operator::Unary(UnaryOp::Negation),
                rhs: Box::new(self.expr(depth - 1)),
            }),
            3 => Self::at(Expr::Ternary {
                cond: Box::new(self.expr(depth - 1)),
                statement1: Box::new(self.expr(depth - 1)),
                statement2: Box::new(self.expr(depth - 1)),
            }),
            4 => {
                let mut exprs = self.list(depth - 1, 2);
                if let Expr::Comma { .. } = exprs[0].data {
                    exprs[0] = self.leaf();
                }
                Self::at(Expr::Comma { exprs })
            }
            5 => Self::at(Expr::Call {
                func: Box::new(Self::at(Expr::Identifier("f".to_string()))),
                args: self.list(depth - 1, 0),
            }),
            _ => Self::at(Expr::Binary {
                op: Operator::Binary(self.binary_op()),
                lhs: Box::new(self.expr(depth - 1)),
                rhs: Box::new(self.expr(depth - 1)),
            }),
        }
    }
}

#[test]
fn printed_trees_parse_to_themselves() {
    let mut g = Generator { state: 0x1234_5678_9ABC_DEF1 };
    for round in 0..3000 {
        let e = g.expr(1 + (round % 5) as u32);
        let printed = expr_to_text(&e, &float_text);
        let back = match parse_string(&printed, &parse_float) {
            Ok(back) => back,
            Err(err) => panic!("{:?} does not parse: {:?}", printed, err),
        };
        assert_eq!(shape(&back), shape(&e), "through {:?}", printed);
    }
}

#[test]
fn expression_text() {
    let text = |s: &str| expr_to_text(&parse(s), &float_text);
    assert_eq!(text("1+2*3"), "1 + 2 * 3");
    assert_eq!(text("(1+2)*3"), "(1 + 2) * 3");
    assert_eq!(text("1 - (2 - 3)"), "1 - (2 - 3)");
    assert_eq!(text("(1 - 2) - 3"), "1 - 2 - 3");
    assert_eq!(text("2 ** 3 ** 2"), "2 ** 3 ** 2");
    assert_eq!(text("(2 ** 3) ** 2"), "(2 ** 3) ** 2");
    assert_eq!(text("a = (b = 1)"), "a = b = 1");
    assert_eq!(text("f(1,2)"), "f(1, 2)");
    assert_eq!(text("f((1,2))"), "f((1, 2))");
    assert_eq!(text("a?b:c"), "a ? b : c");
    assert_eq!(text("(a ? b : c) + 1"), "(a ? b : c) + 1");
    assert_eq!(text("1,2,3"), "1, 2, 3");
    assert_eq!(text("- x"), "- x");
    assert_eq!(text("- (x + y)"), "- (x + y)");
    assert_eq!(text("2.50"), "2.5");
    assert_eq!(text("1."), "1.0");
    assert_eq!(text("true"), "true");
    assert_eq!(text("-7"), "-7");
    assert_eq!(text("x = (a ? b : c)"), "x = a ? b : c");
    assert_eq!(text("2(3+4)"), "2 * (3 + 4)");
    let m = Spanned { span: Span { start: 0, end: 1 }, data: Expr::Macro("area".to_string()) };
    assert_eq!(expr_to_text(&m, &float_text), "{area}");
}

fn well_spanned(e: &Spanned<Expr>) -> bool {
    let own = e.span.start <= e.span.end;
    own && match &e.data {
        Expr::Unary { rhs, .. } => well_spanned(rhs),
        Expr::Binary { lhs, rhs, .. } => well_spanned(lhs) && well_spanned(rhs),
        Expr::Ternary { cond, statement1, statement2 } => {
            well_spanned(cond) && well_spanned(statement1) && well_spanned(statement2)
        }
        Expr::Comma { exprs } => exprs.iter().all(well_spanned),
        Expr::Call { func, args } => well_spanned(func) && args.iter().all(well_spanned),
        _ => true,
    }
}

#[test]
fn parsed_trees_have_spans_that_end_behind_their_start() {
    for text in [
        "1 + 2 * 3",
        "f(a, (b, c)) ? - x : y = 2",
        "((((1))))",
        "2(3)(4)",
        "a = b = c, d",
        "f()",
    ] {
        assert!(well_spanned(&parse(text)), "{:?}", text);
    }
}

#[test]
fn a_call_of_a_literal_is_written_behind_a_juxtaposition() {
    // `3(4)` is a call only where a product is not read, so the product is
    // written without its operator
    let first = parse("2 3(4)");
    assert_eq!(shape(&first), "(* 2 (call 3 4))");
    let printed = expr_to_text(&first, &float_text);
    assert_eq!(printed, "(2) 3(4)");
    assert_eq!(shape(&parse(&printed)), "(* 2 (call 3 4))");
    assert_eq!(expr_to_text(&parse("2 * 3(4)"), &float_text), "2 * (3 * 4)");
    assert_eq!(expr_to_text(&parse("(x) 3(4) ** 2"), &float_text), "(x) 3(4) ** 2");
    assert_eq!(expr_to_text(&parse("(1 + 2) f(1)(2)"), &float_text), "(1 + 2) f(1)(2)");
    assert_eq!(expr_to_text(&parse("2 ** 3(4)"), &float_text), "2 ** 3(4)");
    assert_eq!(expr_to_text(&parse("- 3(4)"), &float_text), "- 3(4)");
    assert_eq!(expr_to_text(&parse("2 f(4)"), &float_text), "2 * f(4)");
}

#[test]
fn calls_of_what_is_no_name_are_read_back() {
    round_trip("2 3(4)");
    round_trip("2 ** 3(4)");
    round_trip("2 ** 3(4)(5)");
    round_trip("- 3(4)");
    round_trip("- (a + b)(c)");
    round_trip("2 3(4) ** 2");
    round_trip("2 3(4) ** 5(6)");
    round_trip("(x) 3(4)");
    round_trip("(x + 1) 3(4) * 2");
    round_trip("1 + 2 3(4)");
    round_trip("2 f(1)(2)");
    round_trip("f(1)(2)");
    round_trip("(a)(b)");
    round_trip("2 (3)(4)");
    round_trip("2 3(4) 5(6)");
    round_trip("a = 2 3(4)");
    round_trip("f(2 3(4), 5)");
    round_trip("2 3(4) ? 5 6(7) : 8 9(1)");
}

#[test]
fn a_name_in_parentheses_is_multiplied() {
    let tree = parse("(a)(b)");
    match &tree.data {
        Expr::Binary { op, lhs, rhs } => {
            assert_eq!(*op, Operator::Binary(BinaryOp::Multiplication));
            assert_eq!(lhs.data, Expr::Identifier("a".to_string()));
            assert_eq!(rhs.data, Expr::Identifier("b".to_string()));
        }
        other => panic!("not a product: {:?}", other),
    }
    match &parse("x(1,2)").data {
        Expr::Call { func, args } => {
            assert_eq!(func.data, Expr::Identifier("x".to_string()));
            assert_eq!(args.len(), 2);
        }
        other => panic!("not a call: {:?}", other),
    }
    assert_eq!(parsed("2 ** (a)(b)"), "(** 2 (call a b))");
    assert_eq!(parsed("- (a)(b)"), "(- (call a b))");
}

#[test]
fn every_text_that_parses_is_read_back_from_its_tree() {
    let pieces = [
        "1", "2", "x", "f", "(", ")", "+", "-", "*", "**", ",", "?", ":", " ", "=", "<", "/",
        "true", "1.5", "&&", "+=",
    ];
    let mut state: u64 = 0x9E37_79B9_7F4A_7C15;
    let mut parsed_texts = 0;
    for _ in 0..40000 {
        let mut text = String::new();
        state = state.wrapping_mul(6364136223846793005).wrapping_add(1442695040888963407);
        let length = 1 + (state >> 60) as usize % 12;
        for _ in 0..length {
            state = state.wrapping_mul(6364136223846793005).wrapping_add(1442695040888963407);
            text.push_str(pieces[(state >> 33) as usize % pieces.len()]);
            text.push(' ');
        }
        let first = match parse_string(&text, &parse_float) {
            Ok(first) => first,
            Err(_) => continue,
        };
        parsed_texts += 1;
        let printed = expr_to_text(&first, &float_text);
        let second = match parse_string(&printed, &parse_float) {
            Ok(second) => second,
            Err(err) => panic!("{:?}, the text of {:?}, does not parse: {:?}", printed, text, err),
        };
        assert_eq!(shape(&second), shape(&first), "{:?} through {:?}", text, printed);
        assert_eq!(expr_to_text(&second, &float_text), printed);
    }
    assert!(parsed_texts > 1000);
}

#[test]
fn a_float_beyond_the_range_is_not_read_back() {
    let literal = format!("1{}.", "0".repeat(400));
    let first = parse(&literal);
    assert_eq!(first.data, Expr::Value(Value::Float(f64::INFINITY.to_bits())));
    let printed = expr_to_text(&first, &float_text);
    assert_eq!(printed, "inf.0");
    assert_eq!(shape(&parse(&printed)), "inf");
}

fn no_float_parser(text: String) -> Option<u64> {
    panic!("the float parser was asked for {:?}", text)
}

fn no_float_text(bits: u64) -> String {
    panic!("the float writer was asked for {:#x}", bits)
}

#[test]
fn without_a_point_the_float_parser_and_writer_are_not_asked() {
    let texts = ["1 + 2 * x", "f(1, true) ? -3 : (a = 4, b)", "2 3(4) ** 5", "x = y = 9223372036854775807"];
    for text in texts {
        let with = parse_string(text, &parse_float).unwrap();
        let without = parse_string(text, &no_float_parser).unwrap();
        assert_eq!(without, with, "{}", text);
        assert_eq!(expr_to_text(&without, &no_float_text), expr_to_text(&with, &float_text));
    }
    // a number without a value fails without the float parser, too
    assert!(parse_string("99999999999999999999", &no_float_parser).is_err());
}
