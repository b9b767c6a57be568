use expr_eval::error::{Error, EvalError};
use expr_eval::evaluater::{apply_assignment, apply_binary, apply_unary};
use expr_eval::float::FloatOp;
use expr_eval::operator::binary::{
    add, add_assign, and, and_assign, assign, bit_and, bit_or, bit_xor, bitand_assign,
    bitor_assign, bitxor_assign, div, div_assign, equal, exp, gequal, greater, lequal, less,
    mod_assign, modulo, mul, mul_assign, nequal, or, or_assign, sub, sub_assign,
};
use expr_eval::operator::integer::{
    overflowing_add, overflowing_div, overflowing_mul, overflowing_neg, overflowing_pow,
    overflowing_rem, overflowing_sub,
};
use expr_eval::operator::unary::{bit_not, neg, not};
use expr_eval::operator::{BinaryOp, GroupingOp, Operator, TernaryOp, UnaryOp};
use expr_eval::value::{Value, ValueType};

fn unit(op: FloatOp, a: u64, b: u64) -> u64 {
    let x = f64::from_bits(a);
    let y = f64::from_bits(b);
    let r = match op {
        FloatOp::Add => x + y,
        FloatOp::Sub => x - y,
        FloatOp::Mul => x * y,
        FloatOp::Div => x / y,
        FloatOp::Rem => x % y,
        FloatOp::Pow => x.powf(y),
    };
    r.to_bits()
}

fn fl(x: f64) -> Value {
    Value::Float(x.to_bits())
}

fn i(x: i64) -> Value {
    Value::Int(x)
}

fn b(x: bool) -> Value {
    Value::Boolean(x)
}

fn ok(v: Value) -> Result<(Value, bool), Error> {
    Ok((v, false))
}

fn flagged(v: Value) -> Result<(Value, bool), Error> {
    Ok((v, true))
}

fn unsupported(op: BinaryOp, l: ValueType, r: ValueType) -> Result<(Value, bool), Error> {
    Err(Error::EvalError(EvalError::OpNotSupported {
        op: Operator::Binary(op),
        operand_types: vec![l, r],
    }))
}

#[test]
fn addition() {
    assert_eq!(add::apply(&i(2), &i(3), &unit), ok(i(5)));
    assert_eq!(add::apply(&i(2), &fl(0.5), &unit), ok(fl(2.5)));
    assert_eq!(add::apply(&fl(0.1), &fl(0.2), &unit), ok(fl(0.1 + 0.2)));
    assert_eq!(add::apply(&b(true), &i(2), &unit), ok(i(3)));
    assert_eq!(add::apply(&b(true), &fl(2.0), &unit), ok(fl(3.0)));
    assert_eq!(add::apply(&i(i64::MAX), &i(1), &unit), flagged(i(i64::MIN)));
    assert_eq!(add::apply(&i(i64::MIN), &i(-1), &unit), flagged(i(i64::MAX)));
    assert_eq!(add::apply(&fl(f64::MAX), &fl(f64::MAX), &unit), flagged(fl(f64::INFINITY)));
    assert_eq!(
        add::apply(&b(true), &b(false), &unit),
        unsupported(BinaryOp::Addition, ValueType::Boolean, ValueType::Boolean)
    );
}

#[test]
fn subtraction() {
    assert_eq!(sub::apply(&i(2), &i(3), &unit), ok(i(-1)));
    assert_eq!(sub::apply(&fl(2.0), &i(3), &unit), ok(fl(-1.0)));
    assert_eq!(sub::apply(&i(i64::MIN), &i(1), &unit), flagged(i(i64::MAX)));
    assert_eq!(sub::apply(&i(0), &i(i64::MIN), &unit), flagged(i(i64::MIN)));
    assert_eq!(
        sub::apply(&b(true), &b(true), &unit),
        unsupported(BinaryOp::Subtraction, ValueType::Boolean, ValueType::Boolean)
    );
    match sub::apply(&fl(f64::INFINITY), &fl(f64::INFINITY), &unit) {
        Ok((Value::Float(bits), true)) => assert!(f64::from_bits(bits).is_nan()),
        other => panic!("unexpected {:?}", other),
    }
}

#[test]
fn multiplication() {
    assert_eq!(mul::apply(&i(6), &i(7), &unit), ok(i(42)));
    assert_eq!(mul::apply(&i(-6), &fl(0.5), &unit), ok(fl(-3.0)));
    assert_eq!(mul::apply(&i(i64::MAX), &i(2), &unit), flagged(i(-2)));
    assert_eq!(mul::apply(&i(i64::MIN), &i(-1), &unit), flagged(i(i64::MIN)));
    assert_eq!(mul::apply(&i(1 << 32), &i(1 << 32), &unit), flagged(i(0)));
    assert_eq!(mul::apply(&fl(1e200), &fl(1e200), &unit), flagged(fl(f64::INFINITY)));
    assert_eq!(
        mul::apply(&b(true), &b(true), &unit),
        unsupported(BinaryOp::Multiplication, ValueType::Boolean, ValueType::Boolean)
    );
}

#[test]
fn division() {
    assert_eq!(div::apply(&i(7), &i(2), &unit), ok(i(3)));
    assert_eq!(div::apply(&i(-7), &i(2), &unit), ok(i(-3)));
    assert_eq!(div::apply(&i(7), &i(-2), &unit), ok(i(-3)));
    assert_eq!(div::apply(&i(-7), &i(-2), &unit), ok(i(3)));
    assert_eq!(div::apply(&i(i64::MIN), &i(-1), &unit), flagged(i(i64::MIN)));
    assert_eq!(div::apply(&fl(1.0), &fl(4.0), &unit), ok(fl(0.25)));
    assert_eq!(div::apply(&i(1), &fl(4.0), &unit), ok(fl(0.25)));
    assert_eq!(div::apply(&fl(1e308), &fl(1e-308), &unit), ok(fl(f64::INFINITY)));
    for (l, r) in [(i(5), i(0)), (fl(5.0), fl(0.0)), (fl(5.0), fl(-0.0)), (i(5), fl(0.0)), (fl(5.0), i(0)), (b(true), i(0))] {
        assert_eq!(
            div::apply(&l, &r, &unit),
            Err(Error::EvalError(EvalError::DivideByZero { lhs: l, rhs: r }))
        );
    }
    assert_eq!(
        div::apply(&b(true), &b(true), &unit),
        unsupported(BinaryOp::Division, ValueType::Boolean, ValueType::Boolean)
    );
}

#[test]
fn remainder() {
    assert_eq!(modulo::apply(&i(7), &i(3), &unit), ok(i(1)));
    assert_eq!(modulo::apply(&i(-7), &i(3), &unit), ok(i(-1)));
    assert_eq!(modulo::apply(&i(7), &i(-3), &unit), ok(i(1)));
    assert_eq!(modulo::apply(&i(-7), &i(-3), &unit), ok(i(-1)));
    assert_eq!(modulo::apply(&i(i64::MIN), &i(-1), &unit), flagged(i(0)));
    assert_eq!(modulo::apply(&fl(7.5), &fl(2.0), &unit), ok(fl(1.5)));
    assert_eq!(
        modulo::apply(&i(7), &i(0), &unit),
        Err(Error::EvalError(EvalError::DivideByZero { lhs: i(7), rhs: i(0) }))
    );
    match modulo::apply(&fl(7.5), &fl(0.0), &unit) {
        Ok((Value::Float(bits), true)) => assert!(f64::from_bits(bits).is_nan()),
        other => panic!("unexpected {:?}", other),
    }
    assert_eq!(
        modulo::apply(&b(true), &b(true), &unit),
        unsupported(BinaryOp::Modulo, ValueType::Boolean, ValueType::Boolean)
    );
}

#[test]
fn exponentiation() {
    assert_eq!(exp::apply(&i(2), &i(10), &unit), ok(i(1024)));
    assert_eq!(exp::apply(&i(-2), &i(3), &unit), ok(i(-8)));
    assert_eq!(exp::apply(&i(-2), &i(63), &unit), ok(i(i64::MIN)));
    assert_eq!(exp::apply(&i(2), &i(63), &unit), flagged(i(i64::MIN)));
    assert_eq!(exp::apply(&i(2), &i(64), &unit), flagged(i(0)));
    assert_eq!(exp::apply(&i(3), &i(41), &unit), flagged(i(3i64.wrapping_pow(41))));
    assert_eq!(exp::apply(&i(0), &i(0), &unit), ok(i(1)));
    assert_eq!(exp::apply(&i(7), &i(0), &unit), ok(i(1)));
    assert_eq!(exp::apply(&i(-1), &i(1_000_001), &unit), ok(i(-1)));
    assert_eq!(exp::apply(&i(1), &i(-1), &unit), ok(i(1)));
    // the exponent is the low 32 bits of the right operand
    assert_eq!(exp::apply(&i(5), &i(1 << 32), &unit), ok(i(1)));
    assert_eq!(exp::apply(&i(5), &i((1 << 32) + 2), &unit), ok(i(25)));
    assert_eq!(
        exp::apply(&i(2), &i(-1), &unit),
        flagged(i(2i64.overflowing_pow(u32::MAX).0))
    );
    assert_eq!(
        exp::apply(&i(3), &i(-1), &unit),
        flagged(i(3i64.overflowing_pow(u32::MAX).0))
    );
    assert_eq!(exp::apply(&fl(2.0), &fl(0.5), &unit), ok(fl(2.0f64.powf(0.5))));
    assert_eq!(exp::apply(&fl(10.0), &i(400), &unit), flagged(fl(f64::INFINITY)));
    assert_eq!(exp::apply(&b(false), &b(false), &unit), ok(i(1)));
    assert_eq!(exp::apply(&b(false), &b(true), &unit), ok(i(0)));
    assert_eq!(exp::apply(&b(true), &b(false), &unit), ok(i(1)));
    assert_eq!(exp::apply(&b(true), &b(true), &unit), ok(i(1)));
}

#[test]
fn wrapping_integer_arithmetic_agrees_with_the_machine() {
    let samples = [
        0i64,
        1,
        -1,
        2,
        -2,
        3,
        -3,
        7,
        10,
        -10,
        255,
        1 << 31,
        (1 << 32) + 1,
        -(1 << 33),
        3037000499,
        3037000500,
        -3037000500,
        i64::MAX,
        i64::MIN,
        i64::MAX - 1,
        i64::MIN + 1,
        i64::MAX / 2,
        i64::MIN / 2,
    ];
    for &x in &samples {
        assert_eq!(overflowing_neg(x), x.overflowing_neg());
        for &y in &samples {
            assert_eq!(overflowing_add(x, y), x.overflowing_add(y), "{} + {}", x, y);
            assert_eq!(overflowing_sub(x, y), x.overflowing_sub(y), "{} - {}", x, y);
            assert_eq!(overflowing_mul(x, y), x.overflowing_mul(y), "{} * {}", x, y);
            if y != 0 {
                assert_eq!(overflowing_div(x, y), x.overflowing_div(y), "{} / {}", x, y);
                assert_eq!(overflowing_rem(x, y), x.overflowing_rem(y), "{} % {}", x, y);
            }
        }
        for e in [0u32, 1, 2, 3, 5, 7, 31, 32, 62, 63, 64, 65, 127, 1000, 65537, u32::MAX - 1, u32::MAX] {
            assert_eq!(overflowing_pow(x, e), x.overflowing_pow(e), "{} ** {}", x, e);
        }
    }
}

#[test]
fn bitwise_operators() {
    assert_eq!(bit_and::apply(&i(0b1100), &i(0b1010)), ok(i(0b1000)));
    assert_eq!(bit_or::apply(&i(0b1100), &i(0b1010)), ok(i(0b1110)));
    assert_eq!(bit_xor::apply(&i(0b1100), &i(0b1010)), ok(i(0b0110)));
    assert_eq!(bit_and::apply(&i(-1), &i(i64::MIN)), ok(i(i64::MIN)));
    assert_eq!(bit_xor::apply(&i(-1), &i(5)), ok(i(!5)));
    assert_eq!(bit_and::apply(&b(true), &b(true)), ok(i(1)));
    assert_eq!(bit_and::apply(&b(true), &b(false)), ok(i(0)));
    assert_eq!(bit_or::apply(&b(false), &b(true)), ok(i(1)));
    assert_eq!(bit_or::apply(&b(false), &b(false)), ok(i(0)));
    assert_eq!(bit_xor::apply(&b(true), &b(true)), ok(i(0)));
    assert_eq!(bit_xor::apply(&b(true), &b(false)), ok(i(1)));
    assert_eq!(bit_and::apply(&b(true), &i(3)), ok(i(1)));
    assert_eq!(
        bit_and::apply(&fl(1.0), &i(3)),
        unsupported(BinaryOp::BitwiseAnd, ValueType::Float, ValueType::Int)
    );
    assert_eq!(
        bit_or::apply(&fl(1.0), &fl(3.0)),
        unsupported(BinaryOp::BitwiseOr, ValueType::Float, ValueType::Float)
    );
    assert_eq!(
        bit_xor::apply(&b(true), &fl(3.0)),
        unsupported(BinaryOp::BitwiseXor, ValueType::Boolean, ValueType::Float)
    );
}

#[test]
fn equality() {
    assert_eq!(equal::apply(&i(3), &i(3), &unit), ok(b(true)));
    assert_eq!(equal::apply(&i(3), &i(4), &unit), ok(b(false)));
    assert_eq!(equal::apply(&b(true), &b(true), &unit), ok(b(true)));
    assert_eq!(equal::apply(&b(true), &i(1), &unit), ok(b(true)));
    assert_eq!(equal::apply(&i(3), &fl(3.0), &unit), ok(b(true)));
    assert_eq!(equal::apply(&fl(0.1 + 0.2), &fl(0.3), &unit), ok(b(true)));
    assert_eq!(equal::apply(&fl(1.0), &fl(1.0 + f64::EPSILON), &unit), ok(b(false)));
    assert_eq!(equal::apply(&fl(1.0), &fl(1.0 + 1e-17), &unit), ok(b(true)));
    assert_eq!(nequal::apply(&i(3), &i(3), &unit), ok(b(false)));
    assert_eq!(nequal::apply(&i(3), &i(4), &unit), ok(b(true)));
    assert_eq!(nequal::apply(&b(true), &b(false), &unit), ok(b(true)));
    assert_eq!(nequal::apply(&fl(0.1 + 0.2), &fl(0.3), &unit), ok(b(false)));
    assert_eq!(nequal::apply(&fl(1.0), &fl(2.0), &unit), ok(b(true)));
    let inf = fl(f64::INFINITY);
    assert_eq!(equal::apply(&inf, &inf, &unit), ok(b(false)));
    assert_eq!(nequal::apply(&inf, &inf, &unit), ok(b(true)));
}

#[test]
fn ordering() {
    assert_eq!(less::apply(&i(1), &i(2)), ok(b(true)));
    assert_eq!(less::apply(&i(2), &i(2)), ok(b(false)));
    assert_eq!(lequal::apply(&i(2), &i(2)), ok(b(true)));
    assert_eq!(lequal::apply(&i(3), &i(2)), ok(b(false)));
    assert_eq!(greater::apply(&i(3), &i(2)), ok(b(true)));
    assert_eq!(greater::apply(&i(2), &i(2)), ok(b(false)));
    assert_eq!(gequal::apply(&i(2), &i(2)), ok(b(true)));
    assert_eq!(gequal::apply(&i(1), &i(2)), ok(b(false)));
    assert_eq!(less::apply(&b(false), &b(true)), ok(b(true)));
    assert_eq!(less::apply(&b(true), &b(true)), ok(b(false)));
    assert_eq!(lequal::apply(&b(true), &b(false)), ok(b(false)));
    assert_eq!(lequal::apply(&b(true), &b(true)), ok(b(true)));
    assert_eq!(greater::apply(&b(true), &b(false)), ok(b(true)));
    assert_eq!(greater::apply(&b(false), &b(false)), ok(b(false)));
    assert_eq!(gequal::apply(&b(false), &b(true)), ok(b(false)));
    assert_eq!(gequal::apply(&b(false), &b(false)), ok(b(true)));
    assert_eq!(less::apply(&fl(1.5), &i(2)), ok(b(true)));
    assert_eq!(less::apply(&i(2), &fl(1.5)), ok(b(false)));
    assert_eq!(lequal::apply(&fl(-0.0), &fl(0.0)), ok(b(true)));
    assert_eq!(greater::apply(&fl(2.5), &fl(-1.0)), ok(b(true)));
    assert_eq!(gequal::apply(&fl(f64::NAN), &fl(1.0)), ok(b(false)));
    assert_eq!(lequal::apply(&fl(f64::NAN), &fl(1.0)), ok(b(false)));
    assert_eq!(less::apply(&b(true), &i(2)), ok(b(true)));
}

#[test]
fn logical_operators() {
    assert_eq!(and::apply(&b(true), &b(true)), ok(b(true)));
    assert_eq!(and::apply(&b(true), &b(false)), ok(b(false)));
    assert_eq!(and::apply(&i(2), &fl(0.5)), ok(b(true)));
    assert_eq!(and::apply(&i(2), &fl(0.0)), ok(b(false)));
    assert_eq!(or::apply(&b(false), &b(false)), ok(b(false)));
    assert_eq!(or::apply(&b(false), &b(true)), ok(b(true)));
    assert_eq!(or::apply(&i(0), &fl(-0.0)), ok(b(false)));
    assert_eq!(or::apply(&i(0), &i(7)), ok(b(true)));
}

#[test]
fn prefix_operators() {
    assert_eq!(not::apply(&b(true)), ok(b(false)));
    assert_eq!(not::apply(&i(0)), ok(b(true)));
    assert_eq!(not::apply(&i(5)), ok(b(false)));
    assert_eq!(not::apply(&fl(0.0)), ok(b(true)));
    assert_eq!(not::apply(&fl(f64::NAN)), ok(b(false)));
    assert_eq!(neg::apply(&i(5)), ok(i(-5)));
    assert_eq!(neg::apply(&i(i64::MIN)), flagged(i(i64::MIN)));
    assert_eq!(neg::apply(&fl(2.5)), ok(fl(-2.5)));
    assert_eq!(neg::apply(&fl(0.0)), ok(fl(-0.0)));
    assert_eq!(
        neg::apply(&b(true)),
        Err(Error::EvalError(EvalError::OpNotSupported {
            op: Operator::Unary(UnaryOp::Negation),
            operand_types: vec![ValueType::Boolean],
        }))
    );
    assert_eq!(bit_not::apply(&b(true)), ok(b(false)));
    assert_eq!(bit_not::apply(&i(0)), ok(i(-1)));
    assert_eq!(bit_not::apply(&i(5)), ok(i(!5)));
    assert_eq!(bit_not::apply(&i(i64::MIN)), ok(i(i64::MAX)));
    assert_eq!(
        bit_not::apply(&fl(1.0)),
        Err(Error::EvalError(EvalError::OpNotSupported {
            op: Operator::Unary(UnaryOp::BitwiseNot),
            operand_types: vec![ValueType::Float],
        }))
    );
    assert_eq!(apply_unary(UnaryOp::Not, &i(3)), ok(b(false)));
    assert_eq!(apply_unary(UnaryOp::Negation, &i(3)), ok(i(-3)));
    assert_eq!(apply_unary(UnaryOp::BitwiseNot, &i(3)), ok(i(-4)));
}

#[test]
fn plain_assignment_keeps_the_type_of_the_variable() {
    let mut slot = i(1);
    assert_eq!(assign::apply(&mut slot, &fl(2.9)), ok(i(2)));
    assert_eq!(slot, i(2));
    let mut slot = fl(0.0);
    assert_eq!(assign::apply(&mut slot, &i(3)), ok(fl(3.0)));
    assert_eq!(slot, fl(3.0));
    let mut slot = b(false);
    assert_eq!(assign::apply(&mut slot, &i(7)), ok(b(true)));
    assert_eq!(slot, b(true));
    let mut slot = i(0);
    assert_eq!(assign::apply(&mut slot, &b(true)), ok(i(1)));
    assert_eq!(slot, i(1));
}

#[test]
fn compound_assignments() {
    let mut slot = i(10);
    assert_eq!(add_assign::apply(&mut slot, &i(5), &unit), ok(i(15)));
    assert_eq!(slot, i(15));
    assert_eq!(sub_assign::apply(&mut slot, &fl(5.9), &unit), ok(i(10)));
    assert_eq!(slot, i(10));
    assert_eq!(mul_assign::apply(&mut slot, &b(true), &unit), ok(i(10)));
    assert_eq!(div_assign::apply(&mut slot, &i(3), &unit), ok(i(3)));
    assert_eq!(slot, i(3));
    assert_eq!(mod_assign::apply(&mut slot, &i(2), &unit), ok(i(1)));
    assert_eq!(slot, i(1));

    let mut slot = fl(1.5);
    assert_eq!(add_assign::apply(&mut slot, &i(1), &unit), ok(fl(2.5)));
    assert_eq!(mul_assign::apply(&mut slot, &fl(2.0), &unit), ok(fl(5.0)));
    assert_eq!(div_assign::apply(&mut slot, &i(2), &unit), ok(fl(2.5)));
    assert_eq!(sub_assign::apply(&mut slot, &b(true), &unit), ok(fl(1.5)));
    assert_eq!(mod_assign::apply(&mut slot, &fl(1.0), &unit), ok(fl(0.5)));
    assert_eq!(slot, fl(0.5));
}

#[test]
fn compound_assignments_that_fail_leave_the_variable() {
    let mut slot = i(10);
    assert_eq!(
        div_assign::apply(&mut slot, &i(0), &unit),
        Err(Error::EvalError(EvalError::DivideByZero { lhs: i(10), rhs: i(0) }))
    );
    assert_eq!(slot, i(10));
    assert_eq!(
        div_assign::apply(&mut slot, &fl(0.4), &unit),
        Err(Error::EvalError(EvalError::DivideByZero { lhs: i(10), rhs: fl(0.4) }))
    );
    assert_eq!(
        mod_assign::apply(&mut slot, &i(0), &unit),
        Err(Error::EvalError(EvalError::DivideByZero { lhs: i(10), rhs: i(0) }))
    );
    let mut slot = b(true);
    assert_eq!(
        add_assign::apply(&mut slot, &i(1), &unit),
        unsupported(BinaryOp::AddAssign, ValueType::Boolean, ValueType::Int)
    );
    assert_eq!(
        mul_assign::apply(&mut slot, &b(true), &unit),
        unsupported(BinaryOp::MulAssign, ValueType::Boolean, ValueType::Boolean)
    );
    assert_eq!(slot, b(true));
    let mut slot = fl(1.0);
    assert_eq!(
        bitand_assign::apply(&mut slot, &i(1)),
        unsupported(BinaryOp::BitAndAssign, ValueType::Float, ValueType::Int)
    );
    let mut slot = i(1);
    assert_eq!(
        and_assign::apply(&mut slot, &b(true)),
        unsupported(BinaryOp::AndAssign, ValueType::Int, ValueType::Boolean)
    );
    assert_eq!(
        or_assign::apply(&mut slot, &b(true)),
        unsupported(BinaryOp::OrAssign, ValueType::Int, ValueType::Boolean)
    );
    assert_eq!(slot, i(1));
}

#[test]
fn an_overflowing_compound_assignment_stores_the_wrapped_value() {
    let mut slot = i(i64::MAX);
    assert_eq!(add_assign::apply(&mut slot, &i(1), &unit), flagged(i(i64::MIN)));
    assert_eq!(slot, i(i64::MIN));
}

#[test]
fn logical_and_bitwise_compound_assignments() {
    let mut slot = b(true);
    assert_eq!(and_assign::apply(&mut slot, &b(true)), ok(b(true)));
    assert_eq!(and_assign::apply(&mut slot, &i(0)), ok(b(false)));
    assert_eq!(slot, b(false));
    assert_eq!(or_assign::apply(&mut slot, &b(false)), ok(b(false)));
    assert_eq!(or_assign::apply(&mut slot, &fl(2.0)), ok(b(true)));
    assert_eq!(slot, b(true));

    let mut slot = i(0b1100);
    assert_eq!(bitand_assign::apply(&mut slot, &i(0b1010)), ok(i(0b1000)));
    assert_eq!(bitor_assign::apply(&mut slot, &i(0b0001)), ok(i(0b1001)));
    assert_eq!(bitxor_assign::apply(&mut slot, &i(0b1111)), ok(i(0b0110)));
    assert_eq!(slot, i(0b0110));

    let mut slot = b(true);
    assert_eq!(bitand_assign::apply(&mut slot, &b(true)), ok(b(true)));
    assert_eq!(bitxor_assign::apply(&mut slot, &b(true)), ok(b(false)));
    assert_eq!(bitor_assign::apply(&mut slot, &i(5)), ok(b(true)));
    assert_eq!(slot, b(true));
}

#[test]
fn dispatch_by_operator() {
    assert_eq!(apply_binary(BinaryOp::Addition, &i(1), &i(2), &unit), ok(i(3)));
    assert_eq!(apply_binary(BinaryOp::Subtraction, &i(1), &i(2), &unit), ok(i(-1)));
    assert_eq!(apply_binary(BinaryOp::Multiplication, &i(3), &i(2), &unit), ok(i(6)));
    assert_eq!(apply_binary(BinaryOp::Division, &i(6), &i(2), &unit), ok(i(3)));
    assert_eq!(apply_binary(BinaryOp::Modulo, &i(7), &i(2), &unit), ok(i(1)));
    assert_eq!(apply_binary(BinaryOp::Exponentiation, &i(3), &i(2), &unit), ok(i(9)));
    assert_eq!(apply_binary(BinaryOp::And, &i(3), &i(0), &unit), ok(b(false)));
    assert_eq!(apply_binary(BinaryOp::Or, &i(3), &i(0), &unit), ok(b(true)));
    assert_eq!(apply_binary(BinaryOp::BitwiseAnd, &i(3), &i(2), &unit), ok(i(2)));
    assert_eq!(apply_binary(BinaryOp::BitwiseOr, &i(1), &i(2), &unit), ok(i(3)));
    assert_eq!(apply_binary(BinaryOp::BitwiseXor, &i(3), &i(2), &unit), ok(i(1)));
    assert_eq!(apply_binary(BinaryOp::Equal, &i(3), &i(2), &unit), ok(b(false)));
    assert_eq!(apply_binary(BinaryOp::NotEqual, &i(3), &i(2), &unit), ok(b(true)));
    assert_eq!(apply_binary(BinaryOp::Less, &i(3), &i(2), &unit), ok(b(false)));
    assert_eq!(apply_binary(BinaryOp::Greater, &i(3), &i(2), &unit), ok(b(true)));
    assert_eq!(apply_binary(BinaryOp::LessEqual, &i(3), &i(3), &unit), ok(b(true)));
    assert_eq!(apply_binary(BinaryOp::GreaterEqual, &i(2), &i(3), &unit), ok(b(false)));
    let mut slot = i(5);
    assert_eq!(apply_assignment(BinaryOp::Assign, &mut slot, &i(2), &unit), ok(i(2)));
    assert_eq!(apply_assignment(BinaryOp::AddAssign, &mut slot, &i(2), &unit), ok(i(4)));
    assert_eq!(apply_assignment(BinaryOp::SubAssign, &mut slot, &i(1), &unit), ok(i(3)));
    assert_eq!(apply_assignment(BinaryOp::MulAssign, &mut slot, &i(4), &unit), ok(i(12)));
    assert_eq!(apply_assignment(BinaryOp::DivAssign, &mut slot, &i(5), &unit), ok(i(2)));
    assert_eq!(apply_assignment(BinaryOp::ModAssign, &mut slot, &i(2), &unit), ok(i(0)));
    assert_eq!(apply_assignment(BinaryOp::BitOrAssign, &mut slot, &i(6), &unit), ok(i(6)));
    assert_eq!(apply_assignment(BinaryOp::BitAndAssign, &mut slot, &i(3), &unit), ok(i(2)));
    assert_eq!(apply_assignment(BinaryOp::BitXorAssign, &mut slot, &i(3), &unit), ok(i(1)));
    let mut flag = b(true);
    assert_eq!(apply_assignment(BinaryOp::AndAssign, &mut flag, &b(false), &unit), ok(b(false)));
    assert_eq!(apply_assignment(BinaryOp::OrAssign, &mut flag, &b(true), &unit), ok(b(true)));
}

#[test]
fn operator_symbols() {
    let cases = [
        (Operator::Unary(UnaryOp::Not), "!"),
        (Operator::Unary(UnaryOp::Negation), "-"),
        (Operator::Unary(UnaryOp::BitwiseNot), "~"),
        (Operator::Binary(BinaryOp::Addition), "+"),
        (Operator::Binary(BinaryOp::Subtraction), "-"),
        (Operator::Binary(BinaryOp::Multiplication), "*"),
        (Operator::Binary(BinaryOp::Division), "/"),
        (Operator::Binary(BinaryOp::Modulo), "%"),
        (Operator::Binary(BinaryOp::Exponentiation), "**"),
        (Operator::Binary(BinaryOp::And), "&&"),
        (Operator::Binary(BinaryOp::Or), "||"),
        (Operator::Binary(BinaryOp::BitwiseAnd), "&"),
        (Operator::Binary(BinaryOp::BitwiseOr), "|"),
        (Operator::Binary(BinaryOp::BitwiseXor), "^"),
        (Operator::Binary(BinaryOp::Assign), "="),
        (Operator::Binary(BinaryOp::AddAssign), "+="),
        (Operator::Binary(BinaryOp::SubAssign), "-="),
        (Operator::Binary(BinaryOp::MulAssign), "*="),
        (Operator::Binary(BinaryOp::DivAssign), "/="),
        (Operator::Binary(BinaryOp::ModAssign), "%="),
        (Operator::Binary(BinaryOp::AndAssign), "&&="),
        (Operator::Binary(BinaryOp::OrAssign), "||="),
        (Operator::Binary(BinaryOp::BitAndAssign), "&="),
        (Operator::Binary(BinaryOp::BitOrAssign), "|="),
        (Operator::Binary(BinaryOp::BitXorAssign), "^="),
        (Operator::Binary(BinaryOp::Equal), "=="),
        (Operator::Binary(BinaryOp::NotEqual), "!="),
        (Operator::Binary(BinaryOp::Less), "<"),
        (Operator::Binary(BinaryOp::LessEqual), "<="),
        (Operator::Binary(BinaryOp::Greater), ">"),
        (Operator::Binary(BinaryOp::GreaterEqual), ">="),
        (Operator::TernaryOp(TernaryOp::TernaryCond), "?"),
        (Operator::TernaryOp(TernaryOp::TernaryElse), ":"),
        (Operator::Grouping(GroupingOp::LeftParen), "("),
        (Operator::Grouping(GroupingOp::RightParen), ")"),
        (Operator::Grouping(GroupingOp::Comma), ","),
    ];
    for (op, text) in cases {
        assert_eq!(op.symbol(), text);
    }
}
