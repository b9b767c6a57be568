use expr_eval::error::{Error, EvalError};
use expr_eval::functions::{
    all, any, builtins, call, clamp, invoke, max, min, no_host, to_bool, to_float, to_int, Builtin,
    Function,
};
use expr_eval::operator::{BinaryOp, GroupingOp, Operator, TernaryOp, UnaryOp};
use expr_eval::span::{Span, Spanned};
use expr_eval::table::Table;
use expr_eval::token::Token;
use expr_eval::value::{unify, unify_ret_type, unify_to, widest_type, Value, ValueType};

fn float_text(bits: u64) -> String {
    f64::from_bits(bits).to_string()
}

fn fl(x: f64) -> Value {
    Value::Float(x.to_bits())
}

fn i(x: i64) -> Value {
    Value::Int(x)
}

fn b(x: bool) -> Value {
    Value::Boolean(x)
}

fn invalid(input: &[Value]) -> Result<Value, Error> {
    Err(Error::EvalError(EvalError::InvalidOperands {
        op: Operator::Grouping(GroupingOp::LeftParen),
        operands: input.to_vec(),
    }))
}

#[test]
fn spans() {
    assert_eq!(Span::single(4), Span { start: 4, end: 5 });
    assert_eq!(Span::from(4, 3), Span { start: 4, end: 7 });
    assert_eq!(Span::from(4, 0), Span { start: 4, end: 4 });
    let a = Span { start: 2, end: 5 };
    let c = Span { start: 4, end: 9 };
    assert_eq!(a.merge(&c), Span { start: 2, end: 9 });
    assert_eq!(c.merge(&a), Span { start: 2, end: 9 });
    assert_eq!(a.merge(&a), a);
    let inner = Span { start: 3, end: 4 };
    assert_eq!(a.merge(&inner), a);
    let apart = Span { start: 20, end: 21 };
    assert_eq!(a.merge(&apart), Span { start: 2, end: 21 });
}

#[test]
fn type_ranks() {
    assert_eq!(ValueType::Boolean.rank(), 0);
    assert_eq!(ValueType::Int.rank(), 1);
    assert_eq!(ValueType::Float.rank(), 2);
    assert_eq!(i(1).value_type(), ValueType::Int);
    assert_eq!(fl(1.0).value_type(), ValueType::Float);
    assert_eq!(b(true).value_type(), ValueType::Boolean);
}

#[test]
fn every_promotion_is_defined() {
    let values = [b(false), b(true), i(0), i(-3), i(7), fl(0.0), fl(-0.0), fl(2.75), fl(-2.75), fl(f64::NAN)];
    for v in values {
        for t in [ValueType::Boolean, ValueType::Int, ValueType::Float] {
            let p = v.promote(t);
            assert!(p.is_some());
            assert_eq!(p.unwrap().value_type(), t);
        }
        assert_eq!(v.promote(v.value_type()), Some(v));
    }
}

#[test]
fn promotions() {
    assert_eq!(b(false).promote(ValueType::Int), Some(i(0)));
    assert_eq!(b(true).promote(ValueType::Int), Some(i(1)));
    assert_eq!(b(false).promote(ValueType::Float), Some(fl(0.0)));
    assert_eq!(b(true).promote(ValueType::Float), Some(fl(1.0)));
    assert_eq!(i(0).promote(ValueType::Boolean), Some(b(false)));
    assert_eq!(i(-2).promote(ValueType::Boolean), Some(b(true)));
    assert_eq!(i(3).promote(ValueType::Float), Some(fl(3.0)));
    assert_eq!(i(-3).promote(ValueType::Float), Some(fl(-3.0)));
    assert_eq!(fl(0.0).promote(ValueType::Boolean), Some(b(false)));
    assert_eq!(fl(-0.0).promote(ValueType::Boolean), Some(b(false)));
    assert_eq!(fl(0.1).promote(ValueType::Boolean), Some(b(true)));
    assert_eq!(fl(f64::NAN).promote(ValueType::Boolean), Some(b(true)));
    assert_eq!(fl(2.9).promote(ValueType::Int), Some(i(2)));
    assert_eq!(fl(-2.9).promote(ValueType::Int), Some(i(-2)));
    assert_eq!(fl(1e30).promote(ValueType::Int), Some(i(i64::MAX)));
    assert_eq!(fl(f64::NAN).promote(ValueType::Int), Some(i(0)));
}

#[test]
fn accessors() {
    assert_eq!(i(5).as_int(), Some(5));
    assert_eq!(i(5).as_float(), None);
    assert_eq!(i(5).as_boolean(), None);
    assert_eq!(fl(1.5).as_float(), Some(1.5f64.to_bits()));
    assert_eq!(fl(1.5).as_int(), None);
    assert_eq!(b(true).as_boolean(), Some(true));
    assert_eq!(b(true).as_int(), None);
    assert_eq!(Value::zero(ValueType::Int), i(0));
    assert_eq!(Value::zero(ValueType::Float), fl(0.0));
    assert_eq!(Value::zero(ValueType::Boolean), b(false));
}

#[test]
fn setters_keep_the_type() {
    let mut v = i(1);
    assert!(v.set_int(9));
    assert_eq!(v, i(9));
    assert!(!v.set_float(1.5f64.to_bits()));
    assert!(!v.set_boolean(true));
    assert_eq!(v, i(9));
    let mut v = fl(1.0);
    assert!(v.set_float(2.5f64.to_bits()));
    assert_eq!(v, fl(2.5));
    assert!(!v.set_int(1));
    assert_eq!(v, fl(2.5));
    let mut v = b(false);
    assert!(v.set_boolean(true));
    assert_eq!(v, b(true));
    assert!(!v.set_int(0));
    assert_eq!(v, b(true));
}

#[test]
fn value_text() {
    assert_eq!(b(true).symbol(&float_text), "true");
    assert_eq!(b(false).symbol(&float_text), "false");
    assert_eq!(i(0).symbol(&float_text), "0");
    assert_eq!(i(42).symbol(&float_text), "42");
    assert_eq!(i(-42).symbol(&float_text), "-42");
    assert_eq!(i(i64::MAX).symbol(&float_text), "9223372036854775807");
    assert_eq!(i(i64::MIN).symbol(&float_text), "-9223372036854775808");
    assert_eq!(i(1000).symbol(&float_text), "1000");
    assert_eq!(fl(2.5).symbol(&float_text), "2.5");
    assert_eq!(fl(1.0).symbol(&float_text), "1");
}

#[test]
fn token_text_and_binding_power() {
    let op = |o: Operator| Token::Operator(o);
    assert_eq!(op(Operator::Binary(BinaryOp::Exponentiation)).symbol(&float_text), "**");
    assert_eq!(Token::Value(i(12)).symbol(&float_text), "12");
    assert_eq!(Token::Value(fl(0.5)).symbol(&float_text), "0.5");
    assert_eq!(Token::Identifier("abc".to_string()).symbol(&float_text), "abc");
    assert_eq!(Token::Macro("m".to_string()).symbol(&float_text), "m");

    assert_eq!(op(Operator::Grouping(GroupingOp::LeftParen)).lbp(), 90);
    assert_eq!(op(Operator::Binary(BinaryOp::Exponentiation)).lbp(), 80);
    for o in [BinaryOp::Multiplication, BinaryOp::Division, BinaryOp::Modulo] {
        assert_eq!(op(Operator::Binary(o)).lbp(), 60);
    }
    for o in [BinaryOp::Addition, BinaryOp::Subtraction] {
        assert_eq!(op(Operator::Binary(o)).lbp(), 50);
    }
    for o in [BinaryOp::Less, BinaryOp::LessEqual, BinaryOp::Greater, BinaryOp::GreaterEqual] {
        assert_eq!(op(Operator::Binary(o)).lbp(), 40);
    }
    for o in [BinaryOp::Equal, BinaryOp::NotEqual] {
        assert_eq!(op(Operator::Binary(o)).lbp(), 35);
    }
    assert_eq!(op(Operator::Binary(BinaryOp::BitwiseAnd)).lbp(), 30);
    assert_eq!(op(Operator::Binary(BinaryOp::BitwiseXor)).lbp(), 25);
    assert_eq!(op(Operator::Binary(BinaryOp::BitwiseOr)).lbp(), 20);
    assert_eq!(op(Operator::Binary(BinaryOp::And)).lbp(), 15);
    assert_eq!(op(Operator::Binary(BinaryOp::Or)).lbp(), 10);
    assert_eq!(op(Operator::TernaryOp(TernaryOp::TernaryCond)).lbp(), 5);
    for o in [
        BinaryOp::Assign,
        BinaryOp::AddAssign,
        BinaryOp::SubAssign,
        BinaryOp::MulAssign,
        BinaryOp::DivAssign,
        BinaryOp::ModAssign,
        BinaryOp::AndAssign,
        BinaryOp::OrAssign,
        BinaryOp::BitAndAssign,
        BinaryOp::BitOrAssign,
        BinaryOp::BitXorAssign,
    ] {
        assert_eq!(op(Operator::Binary(o)).lbp(), 3);
    }
    assert_eq!(op(Operator::Grouping(GroupingOp::Comma)).lbp(), 1);
    assert_eq!(op(Operator::Grouping(GroupingOp::RightParen)).lbp(), 0);
    assert_eq!(op(Operator::TernaryOp(TernaryOp::TernaryElse)).lbp(), 0);
    assert_eq!(op(Operator::Unary(UnaryOp::Not)).lbp(), 0);
    assert_eq!(Token::Value(i(1)).lbp(), 0);
    assert_eq!(Token::Identifier("a".to_string()).lbp(), 0);
    assert_eq!(Token::Macro("a".to_string()).lbp(), 0);
    let t = Token::Identifier("a".to_string());
    assert_eq!(t.clone(), t);
}

#[test]
fn unification() {
    assert_eq!(unify(&[]), Ok(vec![]));
    assert_eq!(unify(&[b(true), b(false)]), Ok(vec![b(true), b(false)]));
    assert_eq!(unify(&[b(true), i(5)]), Ok(vec![i(1), i(5)]));
    assert_eq!(unify(&[i(1), fl(2.5), b(true)]), Ok(vec![fl(1.0), fl(2.5), fl(1.0)]));
    assert_eq!(unify(&[fl(2.5), i(1)]), Ok(vec![fl(2.5), fl(1.0)]));
    assert_eq!(unify_to(&[i(1), fl(0.0), b(true)], ValueType::Boolean), Ok(vec![b(true), b(false), b(true)]));
    assert_eq!(unify_to(&[i(1), fl(2.5), b(true)], ValueType::Int), Ok(vec![i(1), i(2), i(1)]));
    assert_eq!(unify_to(&[], ValueType::Float), Ok(vec![]));
    assert_eq!(unify_ret_type(&[b(true), i(5)]), Ok((vec![i(1), i(5)], ValueType::Int)));
    assert_eq!(unify_ret_type(&[]), Ok((vec![], ValueType::Boolean)));
    assert_eq!(widest_type(&[i(1), fl(1.0), i(2)]), ValueType::Float);
    assert_eq!(widest_type(&[b(true)]), ValueType::Boolean);
}

#[test]
fn conversion_functions() {
    assert_eq!(to_bool(&vec![i(3)]), Ok(b(true)));
    assert_eq!(to_bool(&vec![fl(0.0)]), Ok(b(false)));
    assert_eq!(to_int(&vec![fl(3.99)]), Ok(i(3)));
    assert_eq!(to_int(&vec![b(true)]), Ok(i(1)));
    assert_eq!(to_float(&vec![i(3)]), Ok(fl(3.0)));
    assert_eq!(to_float(&vec![b(false)]), Ok(fl(0.0)));
    let arity = |func: &str, found: usize| {
        Err(Error::EvalError(EvalError::ArityMismatch { func: func.to_string(), expected: 1, found }))
    };
    assert_eq!(to_bool(&vec![]), arity("to_bool", 0));
    assert_eq!(to_int(&vec![i(1), i(2)]), arity("to_int", 2));
    assert_eq!(to_float(&vec![i(1), i(2), i(3)]), arity("to_float", 3));
}

#[test]
fn any_and_all() {
    assert_eq!(any(&vec![]), Ok(b(false)));
    assert_eq!(all(&vec![]), Ok(b(true)));
    assert_eq!(any(&vec![i(0), fl(0.0), b(false)]), Ok(b(false)));
    assert_eq!(any(&vec![i(0), fl(0.5), b(false)]), Ok(b(true)));
    assert_eq!(all(&vec![i(1), fl(0.5), b(true)]), Ok(b(true)));
    assert_eq!(all(&vec![i(1), fl(0.0), b(true)]), Ok(b(false)));
}

#[test]
fn max_and_min() {
    assert_eq!(max(&vec![i(3), i(9), i(-2)]), Ok(i(9)));
    assert_eq!(min(&vec![i(3), i(9), i(-2)]), Ok(i(-2)));
    assert_eq!(max(&vec![i(3)]), Ok(i(3)));
    assert_eq!(min(&vec![i(1), fl(2.5), b(true)]), Ok(fl(1.0)));
    assert_eq!(max(&vec![i(1), fl(2.5), b(true)]), Ok(fl(2.5)));
    assert_eq!(max(&vec![b(false), b(true), b(false)]), Ok(b(true)));
    assert_eq!(min(&vec![b(true), b(true)]), Ok(b(true)));
    assert_eq!(min(&vec![b(true), b(false)]), Ok(b(false)));
    assert_eq!(max(&vec![fl(f64::NEG_INFINITY), fl(f64::INFINITY), fl(0.0)]), Ok(fl(f64::INFINITY)));
    // among equal extremes, max is the last and min the first
    assert_eq!(max(&vec![fl(0.0), fl(-0.0)]), Ok(fl(-0.0)));
    assert_eq!(max(&vec![fl(-0.0), fl(0.0)]), Ok(fl(0.0)));
    assert_eq!(min(&vec![fl(0.0), fl(-0.0)]), Ok(fl(0.0)));
    assert_eq!(min(&vec![fl(-0.0), fl(0.0)]), Ok(fl(-0.0)));
    assert_eq!(max(&vec![]), Err(Error::UnexpectedError));
    assert_eq!(min(&vec![]), Err(Error::UnexpectedError));
    let with_nan = vec![fl(1.0), fl(f64::NAN)];
    assert_eq!(max(&with_nan), invalid(&with_nan));
    assert_eq!(min(&with_nan), invalid(&with_nan));
}

#[test]
fn clamping() {
    assert_eq!(clamp(&vec![i(0), i(10), i(15)]), Ok(i(10)));
    assert_eq!(clamp(&vec![i(0), i(10), i(-3)]), Ok(i(0)));
    assert_eq!(clamp(&vec![i(0), i(10), i(4)]), Ok(i(4)));
    assert_eq!(clamp(&vec![i(5), i(5), i(4)]), Ok(i(5)));
    assert_eq!(clamp(&vec![i(0), fl(1.5), i(4)]), Ok(fl(1.5)));
    assert_eq!(clamp(&vec![fl(0.5), i(2), b(false)]), Ok(fl(0.5)));
    assert_eq!(clamp(&vec![fl(0.0), fl(1.0), fl(0.25)]), Ok(fl(0.25)));
    assert_eq!(clamp(&vec![b(false), b(true), b(true)]), Ok(i(1)));
    assert_eq!(clamp(&vec![b(false), b(false), b(true)]), Ok(i(0)));
    match clamp(&vec![fl(0.0), fl(1.0), fl(f64::NAN)]) {
        Ok(Value::Float(bits)) => assert!(f64::from_bits(bits).is_nan()),
        other => panic!("unexpected {:?}", other),
    }
    let reversed = vec![i(10), i(0), i(5)];
    assert_eq!(clamp(&reversed), invalid(&reversed));
    let reversed = vec![b(true), b(false), b(true)];
    assert_eq!(clamp(&reversed), invalid(&reversed));
    let nan_bound = vec![fl(f64::NAN), fl(1.0), fl(0.5)];
    assert_eq!(clamp(&nan_bound), invalid(&nan_bound));
    let nan_bound = vec![fl(0.0), fl(f64::NAN), fl(0.5)];
    assert_eq!(clamp(&nan_bound), invalid(&nan_bound));
    assert_eq!(
        clamp(&vec![i(1), i(2)]),
        Err(Error::EvalError(EvalError::ArityMismatch { func: "clamp".to_string(), expected: 3, found: 2 }))
    );
    assert_eq!(
        clamp(&vec![i(1), i(2), i(3), i(4)]),
        Err(Error::EvalError(EvalError::ArityMismatch { func: "clamp".to_string(), expected: 3, found: 4 }))
    );
}

#[test]
fn the_registry_holds_the_built_in_functions() {
    let r = builtins();
    assert_eq!(r.len(), 8);
    let names = ["to_bool", "to_int", "to_float", "any", "all", "max", "min", "clamp"];
    let items = [
        Builtin::ToBool,
        Builtin::ToInt,
        Builtin::ToFloat,
        Builtin::Any,
        Builtin::All,
        Builtin::Max,
        Builtin::Min,
        Builtin::Clamp,
    ];
    for k in 0..8 {
        assert_eq!(r.find(names[k]), Some(k));
        assert_eq!(r.lookup(names[k]), Some(&Function::Builtin(items[k])));
        assert_eq!(r.name(k), names[k]);
    }
    assert_eq!(r.find("sqrt"), None);
    assert_eq!(call(Builtin::Max, &vec![i(1), i(2)]), Ok(i(2)));
    assert_eq!(call(Builtin::Min, &vec![i(1), i(2)]), Ok(i(1)));
    assert_eq!(call(Builtin::ToBool, &vec![i(2)]), Ok(b(true)));
    assert_eq!(call(Builtin::ToInt, &vec![b(true)]), Ok(i(1)));
    assert_eq!(call(Builtin::ToFloat, &vec![i(2)]), Ok(fl(2.0)));
    assert_eq!(call(Builtin::Any, &vec![i(0)]), Ok(b(false)));
    assert_eq!(call(Builtin::All, &vec![i(0)]), Ok(b(false)));
    assert_eq!(call(Builtin::Clamp, &vec![i(0), i(1), i(2)]), Ok(i(1)));
}

#[test]
fn tables() {
    let mut t: Table<i32> = Table::new();
    assert_eq!(t.len(), 0);
    assert_eq!(t.find("a"), None);
    assert_eq!(t.lookup("a"), None);
    assert_eq!(t.insert("a", 1), 0);
    assert_eq!(t.insert("b", 2), 1);
    assert_eq!(t.insert("a", 3), 0);
    assert_eq!(t.len(), 2);
    assert_eq!(t.find("a"), Some(0));
    assert_eq!(t.find("b"), Some(1));
    assert_eq!(t.lookup("a"), Some(&3));
    assert_eq!(*t.get(1), 2);
    assert_eq!(t.name(1), "b");
    t.set(1, 20);
    assert_eq!(t.lookup("b"), Some(&20));
    assert_eq!(t.insert("c", 30), 2);
    assert_eq!(t.remove("b"), Some(20));
    assert_eq!(t.remove("b"), None);
    assert_eq!(t.len(), 2);
    assert_eq!(t.find("c"), Some(1));
    assert_eq!(t.find("a"), Some(0));
    t.clear();
    assert_eq!(t.len(), 0);
    assert_eq!(t.find("a"), None);
}

#[test]
fn spanned_values_compare_with_their_spans() {
    let a = Spanned { span: Span { start: 0, end: 1 }, data: 5 };
    let c = Spanned { span: Span { start: 0, end: 2 }, data: 5 };
    assert_ne!(a, c);
    assert_eq!(a.clone(), a);
}

#[test]
fn a_function_is_called_by_itself_or_through_the_host() {
    let twice = |id: usize, input: &Vec<Value>| match (id, input.first()) {
        (3, Some(Value::Int(v))) => Ok(Value::Int(2 * v)),
        _ => Err(Error::UnexpectedError),
    };
    let input = vec![Value::Int(4), Value::Int(9)];
    assert_eq!(invoke(Function::Builtin(Builtin::Max), &input, &twice), Ok(Value::Int(9)));
    assert_eq!(invoke(Function::Hosted(3), &input, &twice), Ok(Value::Int(8)));
    assert_eq!(invoke(Function::Hosted(4), &input, &twice), Err(Error::UnexpectedError));
    assert_eq!(invoke(Function::Hosted(3), &input, &no_host), Err(Error::UnexpectedError));
    assert_eq!(no_host(0, &input), Err(Error::UnexpectedError));
}
