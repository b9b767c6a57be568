//! The built-in functions that a call can name.

use crate::error::{Error, ErrorModel, EvalError, EvalErrorModel};
use crate::float::{float_is_nan, float_less, float_less_equal, is_nan, less, less_equal};
use crate::operator::operator::{GroupingOp, Operator};
use crate::table::{index_of, Table};
use crate::value::{all_promoted, unify_ret_type, unify_to, widest, Value, ValueType};
use vstd::prelude::*;

verus! {

/// A built-in function.
#[derive(Debug, Clone, Copy, PartialEq, Eq, Structural)]
pub enum Builtin {
    ToBool,
    ToInt,
    ToFloat,
    Any,
    All,
    Max,
    Min,
    Clamp,
}

/// A function that calls can name: one of the built-in functions, or a
/// function of the program that embeds the language, which the program
/// knows by a number. The function that is handed to the evaluator as the
/// host computes the functions of the program.
#[derive(Debug, Clone, Copy, PartialEq, Eq, Structural)]
pub enum Function {
    Builtin(Builtin),
    Hosted(usize),
}

/// The functions that calls can name.
pub type FunctionRegistry = Table<Function>;

impl Builtin {
    /// The name under which the function is registered.
    pub open spec fn name(self) -> Seq<char> {
        match self {
            Builtin::ToBool => "to_bool"@,
            Builtin::ToInt => "to_int"@,
            Builtin::ToFloat => "to_float"@,
            Builtin::Any => "any"@,
            Builtin::All => "all"@,
            Builtin::Max => "max"@,
            Builtin::Min => "min"@,
            Builtin::Clamp => "clamp"@,
        }
    }
}

/// The error for a call with the wrong number of arguments.
pub open spec fn arity_mismatch(func: Seq<char>, expected: usize, found: usize) -> ErrorModel {
    ErrorModel::EvalError(EvalErrorModel::ArityMismatch { func, expected, found })
}

/// The error for a call whose arguments have accepted types and no result: a
/// NaN among floats that are to be compared, or bounds that are out of order.
pub open spec fn invalid_arguments(input: Seq<Value>) -> ErrorModel {
    ErrorModel::EvalError(
        EvalErrorModel::InvalidOperands {
            op: Operator::Grouping(GroupingOp::LeftParen),
            operands: input,
        },
    )
}

/// What a conversion function returns: its one argument converted to `target`.
pub open spec fn conversion_outcome(
    func: Seq<char>,
    input: Seq<Value>,
    target: ValueType,
) -> Result<Value, ErrorModel> {
    if input.len() != 1 {
        Err(arity_mismatch(func, 1, input.len() as usize))
    } else {
        Ok(input[0].promoted(target))
    }
}

/// Whether the value, converted to Boolean, is true.
pub open spec fn truthy(v: Value) -> bool {
    v.promoted(ValueType::Boolean) == Value::Boolean(true)
}

/// Whether some value is true.
pub open spec fn any_of(input: Seq<Value>) -> bool {
    exists|i: int| 0 <= i < input.len() && truthy(#[trigger] input[i])
}

/// Whether every value is true.
pub open spec fn all_of(input: Seq<Value>) -> bool {
    forall|i: int| 0 <= i < input.len() ==> truthy(#[trigger] input[i])
}

/// Whether `a` is less than `b`, for two values of one type: `false` is less
/// than `true`, and floats compare as IEEE says.
pub open spec fn value_less(a: Value, b: Value) -> bool {
    match (a, b) {
        (Value::Boolean(x), Value::Boolean(y)) => !x && y,
        (Value::Int(x), Value::Int(y)) => x < y,
        (Value::Float(x), Value::Float(y)) => less(x, y),
        _ => false,
    }
}

/// Whether one of the values is a NaN.
pub open spec fn has_nan(values: Seq<Value>) -> bool {
    exists|i: int| 0 <= i < values.len() && is_nan_value(#[trigger] values[i])
}

/// Whether the value is a float that is a NaN.
pub open spec fn is_nan_value(v: Value) -> bool {
    v matches Value::Float(f) && is_nan(f)
}

/// The largest, or the smallest, of a sequence of values of one type that is
/// not empty. Among equal largest values it is the last, among equal
/// smallest values the first.
pub open spec fn extreme(values: Seq<Value>, largest: bool) -> Value
    decreases values.len(),
{
    if values.len() <= 1 {
        values[0]
    } else {
        let best = extreme(values.drop_last(), largest);
        let next = values.last();
        if largest {
            if value_less(next, best) {
                best
            } else {
                next
            }
        } else {
            if value_less(next, best) {
                next
            } else {
                best
            }
        }
    }
}

/// Whether the values are of one type, and none of them is a NaN.
pub open spec fn comparable(values: Seq<Value>) -> bool {
    !has_nan(values) && forall|i: int, j: int|
        0 <= i < values.len() && 0 <= j < values.len() ==> (#[trigger] values[i]).type_of() == (
        #[trigger] values[j]).type_of()
}

/// The largest of values that can be compared is one of them, and none of
/// them is larger; the smallest is one of them, and none of them is smaller.
pub proof fn law_extreme_bounds(values: Seq<Value>, largest: bool)
    requires
        values.len() > 0,
        comparable(values),
    ensures
        exists|i: int| 0 <= i < values.len() && (#[trigger] values[i]) == extreme(values, largest),
        forall|i: int|
            0 <= i < values.len() ==> if largest {
                !value_less(extreme(values, largest), #[trigger] values[i])
            } else {
                !value_less(#[trigger] values[i], extreme(values, largest))
            },
    decreases values.len(),
{
    let best = extreme(values, largest);
    if values.len() == 1 {
        assert(values[0] == best);
        assert(!is_nan_value(values[0]));
    } else {
        let front = values.drop_last();
        let next = values.last();
        assert forall|i: int, j: int| 0 <= i < front.len() && 0 <= j < front.len() implies (
        #[trigger] front[i]).type_of() == (#[trigger] front[j]).type_of() by {
            assert(front[i] == values[i] && front[j] == values[j]);
        }
        if has_nan(front) {
            let w = choose|w: int| 0 <= w < front.len() && is_nan_value(#[trigger] front[w]);
            assert(is_nan_value(values[w]));
        }
        law_extreme_bounds(front, largest);
        let before = extreme(front, largest);
        let w = choose|w: int| 0 <= w < front.len() && (#[trigger] front[w]) == before;
        assert(values[w] == before);
        assert(!is_nan_value(values[w]));
        assert(!is_nan_value(values[values.len() - 1]));
        assert(values[w].type_of() == values[values.len() - 1].type_of());
        if best == next {
            assert(values[values.len() - 1] == best);
        } else {
            assert(values[w] == best);
        }
        assert forall|i: int| 0 <= i < values.len() implies if largest {
            !value_less(best, #[trigger] values[i])
        } else {
            !value_less(#[trigger] values[i], best)
        } by {
            assert(!is_nan_value(values[i]));
            assert(values[i].type_of() == values[w].type_of());
            if i < front.len() {
                assert(front[i] == values[i]);
            }
        }
    }
}

/// What `clamp` returns lies between its bounds.
pub proof fn law_clamp_bounds(input: Seq<Value>)
    requires
        clamp_outcome(input) is Ok,
    ensures
        ({
            let t = clamp_type(input);
            let lo = input[0].promoted(t);
            let hi = input[1].promoted(t);
            let v = input[2].promoted(t);
            let r = clamp_outcome(input)->Ok_0;
            &&& r == lo || r == hi || r == v
            &&& !is_nan_value(v) ==> !value_less(r, lo) && !value_less(hi, r)
        }),
{
}

/// What `max` and `min` return: the largest, or smallest, of the arguments
/// converted to the widest of their types.
pub open spec fn extreme_outcome(input: Seq<Value>, largest: bool) -> Result<Value, ErrorModel> {
    let unified = all_promoted(input, widest(input));
    if input.len() == 0 {
        Err(ErrorModel::UnexpectedError)
    } else if has_nan(unified) {
        Err(invalid_arguments(input))
    } else {
        Ok(extreme(unified, largest))
    }
}

/// The type in which `clamp` works: the widest type of its arguments, and Int
/// where that is Boolean.
pub open spec fn clamp_type(input: Seq<Value>) -> ValueType {
    if widest(input) == ValueType::Boolean {
        ValueType::Int
    } else {
        widest(input)
    }
}

/// What `clamp` returns for the arguments `min`, `max`, `value`: `value`
/// brought into the range from `min` to `max`.
pub open spec fn clamp_outcome(input: Seq<Value>) -> Result<Value, ErrorModel> {
    if input.len() != 3 {
        Err(arity_mismatch("clamp"@, 3, input.len() as usize))
    } else {
        let t = clamp_type(input);
        match (input[0].promoted(t), input[1].promoted(t), input[2].promoted(t)) {
            (Value::Int(lo), Value::Int(hi), Value::Int(v)) => if lo > hi {
                Err(invalid_arguments(input))
            } else {
                Ok(
                    Value::Int(
                        if v < lo {
                            lo
                        } else if v > hi {
                            hi
                        } else {
                            v
                        },
                    ),
                )
            },
            (Value::Float(lo), Value::Float(hi), Value::Float(v)) => if !less_equal(lo, hi) {
                Err(invalid_arguments(input))
            } else {
                Ok(
                    Value::Float(
                        if less(v, lo) {
                            lo
                        } else if less(hi, v) {
                            hi
                        } else {
                            v
                        },
                    ),
                )
            },
            _ => Err(ErrorModel::UnexpectedError),
        }
    }
}

/// What a built-in function returns for its arguments.
pub open spec fn builtin_outcome(f: Builtin, input: Seq<Value>) -> Result<Value, ErrorModel> {
    match f {
        Builtin::ToBool => conversion_outcome("to_bool"@, input, ValueType::Boolean),
        Builtin::ToInt => conversion_outcome("to_int"@, input, ValueType::Int),
        Builtin::ToFloat => conversion_outcome("to_float"@, input, ValueType::Float),
        Builtin::Any => Ok(Value::Boolean(any_of(input))),
        Builtin::All => Ok(Value::Boolean(all_of(input))),
        Builtin::Max => extreme_outcome(input, true),
        Builtin::Min => extreme_outcome(input, false),
        Builtin::Clamp => clamp_outcome(input),
    }
}

/// The result of a function as the functions of this module return it.
pub open spec fn result_of(r: Result<Value, Error>) -> Result<Value, ErrorModel> {
    match r {
        Ok(v) => Ok(v),
        Err(e) => Err(e@),
    }
}

fn wrong_arity(func: &str, expected: usize, found: usize) -> (e: Error)
    ensures
        e@ == arity_mismatch(func@, expected, found),
{
    Error::EvalError(EvalError::ArityMismatch { func: String::from_str(func), expected, found })
}

fn copy_of(input: &Vec<Value>) -> (r: Vec<Value>)
    ensures
        r@ == input@,
{
    let mut out: Vec<Value> = Vec::new();
    let mut i: usize = 0;
    while i < input.len()
        invariant
            i <= input.len(),
            out@ == input@.take(i as int),
        decreases input.len() - i,
    {
        out.push(input[i]);
        i = i + 1;
        proof {
            assert(out@ =~= input@.take(i as int));
        }
    }
    proof {
        assert(input@.take(i as int) =~= input@);
    }
    out
}

fn invalid(input: &Vec<Value>) -> (e: Error)
    ensures
        e@ == invalid_arguments(input@),
{
    Error::EvalError(
        EvalError::InvalidOperands {
            op: Operator::Grouping(GroupingOp::LeftParen),
            operands: copy_of(input),
        },
    )
}

fn convert(func: &str, input: &Vec<Value>, target: ValueType) -> (r: Result<Value, Error>)
    ensures
        result_of(r) == conversion_outcome(func@, input@, target),
{
    if input.len() != 1 {
        Err(wrong_arity(func, 1, input.len()))
    } else {
        match input[0].promote(target) {
            Some(v) => Ok(v),
            None => Err(Error::UnexpectedError),
        }
    }
}

/// `to_bool(x)`: `x` converted to Boolean.
pub fn to_bool(input: &Vec<Value>) -> (r: Result<Value, Error>)
    ensures
        result_of(r) == builtin_outcome(Builtin::ToBool, input@),
{
    convert("to_bool", input, ValueType::Boolean)
}

/// `to_int(x)`: `x` converted to Int.
pub fn to_int(input: &Vec<Value>) -> (r: Result<Value, Error>)
    ensures
        result_of(r) == builtin_outcome(Builtin::ToInt, input@),
{
    convert("to_int", input, ValueType::Int)
}

/// `to_float(x)`: `x` converted to Float.
pub fn to_float(input: &Vec<Value>) -> (r: Result<Value, Error>)
    ensures
        result_of(r) == builtin_outcome(Builtin::ToFloat, input@),
{
    convert("to_float", input, ValueType::Float)
}

fn is_true(v: &Value) -> (r: bool)
    ensures
        r == truthy(*v),
{
    match v.promote(ValueType::Boolean) {
        Some(Value::Boolean(b)) => b,
        _ => false,
    }
}

/// `any(..)`: whether some argument, converted to Boolean, is true.
pub fn any(input: &Vec<Value>) -> (r: Result<Value, Error>)
    ensures
        result_of(r) == builtin_outcome(Builtin::Any, input@),
{
    let mut found = false;
    let mut i: usize = 0;
    while i < input.len()
        invariant
            i <= input.len(),
            found == any_of(input@.take(i as int)),
        decreases input.len() - i,
    {
        let ghost before = input@.take(i as int);
        let here = is_true(&input[i]);
        i = i + 1;
        proof {
            let now = input@.take(i as int);
            if found {
                let w = choose|w: int| 0 <= w < before.len() && truthy(#[trigger] before[w]);
                assert(truthy(now[w]));
            } else if here {
                assert(truthy(now[i - 1]));
            } else {
                assert forall|j: int| 0 <= j < now.len() implies !truthy(#[trigger] now[j]) by {
                    if j < i - 1 {
                        assert(before[j] == now[j]);
                    }
                }
            }
        }
        found = found || here;
    }
    proof {
        assert(input@.take(i as int) =~= input@);
    }
    Ok(Value::Boolean(found))
}

/// `all(..)`: whether every argument, converted to Boolean, is true.
pub fn all(input: &Vec<Value>) -> (r: Result<Value, Error>)
    ensures
        result_of(r) == builtin_outcome(Builtin::All, input@),
{
    let mut holds = true;
    let mut i: usize = 0;
    while i < input.len()
        invariant
            i <= input.len(),
            holds == all_of(input@.take(i as int)),
        decreases input.len() - i,
    {
        let ghost before = input@.take(i as int);
        let here = is_true(&input[i]);
        i = i + 1;
        proof {
            let now = input@.take(i as int);
            if holds && here {
                assert forall|j: int| 0 <= j < now.len() implies truthy(#[trigger] now[j]) by {
                    if j < i - 1 {
                        assert(before[j] == now[j]);
                    }
                }
            } else if !here {
                assert(!truthy(now[i - 1]));
            } else {
                let w = choose|w: int| 0 <= w < before.len() && !truthy(#[trigger] before[w]);
                assert(!truthy(now[w]));
            }
        }
        holds = holds && here;
    }
    proof {
        assert(input@.take(i as int) =~= input@);
    }
    Ok(Value::Boolean(holds))
}

fn less_than(a: &Value, b: &Value) -> (r: bool)
    ensures
        r == value_less(*a, *b),
{
    match (*a, *b) {
        (Value::Boolean(x), Value::Boolean(y)) => !x && y,
        (Value::Int(x), Value::Int(y)) => x < y,
        (Value::Float(x), Value::Float(y)) => float_less(x, y),
        _ => false,
    }
}

fn holds_nan(values: &Vec<Value>) -> (r: bool)
    ensures
        r == has_nan(values@),
{
    let mut i: usize = 0;
    while i < values.len()
        invariant
            i <= values.len(),
            forall|j: int| 0 <= j < i ==> !is_nan_value(#[trigger] values@[j]),
        decreases values.len() - i,
    {
        let nan = match values[i] {
            Value::Float(f) => float_is_nan(f),
            _ => false,
        };
        if nan {
            assert(is_nan_value(values@[i as int]));
            return true;
        }
        i = i + 1;
    }
    false
}

fn pick(input: &Vec<Value>, largest: bool) -> (r: Result<Value, Error>)
    ensures
        result_of(r) == extreme_outcome(input@, largest),
{
    let (promoted, _) = match unify_ret_type(input.as_slice()) {
        Ok(p) => p,
        Err(e) => {
            return Err(e);
        },
    };
    if promoted.len() == 0 {
        return Err(Error::UnexpectedError);
    }
    if holds_nan(&promoted) {
        return Err(invalid(input));
    }
    let mut best = promoted[0];
    let mut i: usize = 1;
    proof {
        assert(promoted@.take(1)[0] == promoted@[0]);
    }
    while i < promoted.len()
        invariant
            1 <= i <= promoted.len(),
            best == extreme(promoted@.take(i as int), largest),
        decreases promoted.len() - i,
    {
        let next = promoted[i];
        proof {
            assert(promoted@.take(i + 1).drop_last() =~= promoted@.take(i as int));
        }
        let smaller = less_than(&next, &best);
        if largest {
            if !smaller {
                best = next;
            }
        } else {
            if smaller {
                best = next;
            }
        }
        i = i + 1;
    }
    proof {
        assert(promoted@.take(i as int) =~= promoted@);
    }
    Ok(best)
}

/// `max(..)`: the largest argument, all converted to the widest of their
/// types. Fails without arguments, and where a float argument is a NaN.
pub fn max(input: &Vec<Value>) -> (r: Result<Value, Error>)
    ensures
        result_of(r) == builtin_outcome(Builtin::Max, input@),
{
    pick(input, true)
}

/// `min(..)`: the smallest argument, all converted to the widest of their
/// types. Fails without arguments, and where a float argument is a NaN.
pub fn min(input: &Vec<Value>) -> (r: Result<Value, Error>)
    ensures
        result_of(r) == builtin_outcome(Builtin::Min, input@),
{
    pick(input, false)
}

/// `clamp(min, max, value)`: `value` brought into the range from `min` to
/// `max`, all three converted to the widest of their types, booleans to
/// integers. Fails where `min` is greater than `max` or one of the two is a NaN.
pub fn clamp(input: &Vec<Value>) -> (r: Result<Value, Error>)
    ensures
        result_of(r) == builtin_outcome(Builtin::Clamp, input@),
{
    if input.len() != 3 {
        return Err(wrong_arity("clamp", 3, input.len()));
    }
    let (_, widest_type) = match unify_ret_type(input.as_slice()) {
        Ok(p) => p,
        Err(e) => {
            return Err(e);
        },
    };
    let target = match widest_type {
        ValueType::Boolean => ValueType::Int,
        other => other,
    };
    let promoted = match unify_to(input.as_slice(), target) {
        Ok(p) => p,
        Err(e) => {
            return Err(e);
        },
    };
    match (promoted[0], promoted[1], promoted[2]) {
        (Value::Int(lo), Value::Int(hi), Value::Int(v)) => {
            if lo > hi {
                Err(invalid(input))
            } else if v < lo {
                Ok(Value::Int(lo))
            } else if v > hi {
                Ok(Value::Int(hi))
            } else {
                Ok(Value::Int(v))
            }
        },
        (Value::Float(lo), Value::Float(hi), Value::Float(v)) => {
            if !float_less_equal(lo, hi) {
                Err(invalid(input))
            } else if float_less(v, lo) {
                Ok(Value::Float(lo))
            } else if float_less(hi, v) {
                Ok(Value::Float(hi))
            } else {
                Ok(Value::Float(v))
            }
        },
        _ => Err(Error::UnexpectedError),
    }
}

/// Calls a built-in function on its arguments.
pub fn call(f: Builtin, input: &Vec<Value>) -> (r: Result<Value, Error>)
    ensures
        result_of(r) == builtin_outcome(f, input@),
{
    match f {
        Builtin::ToBool => to_bool(input),
        Builtin::ToInt => to_int(input),
        Builtin::ToFloat => to_float(input),
        Builtin::Any => any(input),
        Builtin::All => all(input),
        Builtin::Max => max(input),
        Builtin::Min => min(input),
        Builtin::Clamp => clamp(input),
    }
}

/// Whether the function `host` computes each function of the program as
/// `model` says.
pub open spec fn answers<H: Fn(usize, &Vec<Value>) -> Result<Value, Error>>(
    host: &H,
    model: spec_fn(usize, Seq<Value>) -> Result<Value, ErrorModel>,
) -> bool {
    forall|id: usize, input: &Vec<Value>, r: Result<Value, Error>| #[trigger]
        call_ensures(host, (id, input), r) ==> result_of(r) == model(id, input@)
}

/// What a function returns for its arguments, where `hosted` says what the
/// functions of the program return.
pub open spec fn function_outcome(
    f: Function,
    input: Seq<Value>,
    hosted: spec_fn(usize, Seq<Value>) -> Result<Value, ErrorModel>,
) -> Result<Value, ErrorModel> {
    match f {
        Function::Builtin(b) => builtin_outcome(b, input),
        Function::Hosted(id) => hosted(id, input),
    }
}

/// Calls a function on its arguments: a built-in function itself, a
/// function of the program through `host`.
pub fn invoke<H: Fn(usize, &Vec<Value>) -> Result<Value, Error>>(
    f: Function,
    input: &Vec<Value>,
    host: &H,
) -> (r: Result<Value, Error>)
    requires
        forall|id: usize, values: &Vec<Value>| call_requires(host, (id, values)),
    ensures
        f matches Function::Builtin(b) ==> result_of(r) == builtin_outcome(b, input@),
        f matches Function::Hosted(id) ==> call_ensures(host, (id, input), r),
        forall|hosted: spec_fn(usize, Seq<Value>) -> Result<Value, ErrorModel>| #[trigger]
            answers(host, hosted) ==> result_of(r) == function_outcome(f, input@, hosted),
{
    match f {
        Function::Builtin(b) => call(b, input),
        Function::Hosted(id) => host(id, input),
    }
}

/// The host of a program that has no functions of its own: every call fails.
pub fn no_host(id: usize, input: &Vec<Value>) -> (r: Result<Value, Error>)
    ensures
        r == Err::<Value, Error>(Error::UnexpectedError),
{
    Err(Error::UnexpectedError)
}

/// The entries of the registry that holds every built-in function under its name.
pub open spec fn builtin_entries() -> Seq<(Seq<char>, Function)> {
    seq![
        (Builtin::ToBool.name(), Function::Builtin(Builtin::ToBool)),
        (Builtin::ToInt.name(), Function::Builtin(Builtin::ToInt)),
        (Builtin::ToFloat.name(), Function::Builtin(Builtin::ToFloat)),
        (Builtin::Any.name(), Function::Builtin(Builtin::Any)),
        (Builtin::All.name(), Function::Builtin(Builtin::All)),
        (Builtin::Max.name(), Function::Builtin(Builtin::Max)),
        (Builtin::Min.name(), Function::Builtin(Builtin::Min)),
        (Builtin::Clamp.name(), Function::Builtin(Builtin::Clamp)),
    ]
}

/// A name that no entry holds is not bound.
proof fn lemma_unbound(entries: Seq<(Seq<char>, Function)>, name: Seq<char>)
    requires
        forall|i: int| 0 <= i < entries.len() ==> (#[trigger] entries[i]).0 != name,
    ensures
        index_of(entries, name) is None,
{
}

/// The registry that holds every built-in function under its name.
pub fn builtins() -> (r: FunctionRegistry)
    ensures
        r@ == builtin_entries(),
{
    proof {
        reveal_strlit("to_bool");
        reveal_strlit("to_int");
        reveal_strlit("to_float");
        reveal_strlit("any");
        reveal_strlit("all");
        reveal_strlit("max");
        reveal_strlit("min");
        reveal_strlit("clamp");
    }
    proof {
        assert("to_bool"@.len() == 7 && "to_int"@.len() == 6 && "to_float"@.len() == 8);
        assert("any"@.len() == 3 && "all"@.len() == 3 && "max"@.len() == 3 && "min"@.len() == 3);
        assert("clamp"@.len() == 5);
    }
    let mut r: FunctionRegistry = Table::new();
    r.insert("to_bool", Function::Builtin(Builtin::ToBool));
    assert(r@ =~= builtin_entries().take(1));
    proof {
        lemma_unbound(r@, "to_int"@);
    }
    r.insert("to_int", Function::Builtin(Builtin::ToInt));
    assert(r@ =~= builtin_entries().take(2));
    proof {
        lemma_unbound(r@, "to_float"@);
    }
    r.insert("to_float", Function::Builtin(Builtin::ToFloat));
    assert(r@ =~= builtin_entries().take(3));
    proof {
        lemma_unbound(r@, "any"@);
    }
    r.insert("any", Function::Builtin(Builtin::Any));
    assert(r@ =~= builtin_entries().take(4));
    proof {
        assert("any"@[1] != "all"@[1]);
        lemma_unbound(r@, "all"@);
    }
    r.insert("all", Function::Builtin(Builtin::All));
    assert(r@ =~= builtin_entries().take(5));
    proof {
        assert("max"@[0] != "any"@[0]);
        assert("max"@[0] != "all"@[0]);
        lemma_unbound(r@, "max"@);
    }
    r.insert("max", Function::Builtin(Builtin::Max));
    assert(r@ =~= builtin_entries().take(6));
    proof {
        assert("min"@[0] != "any"@[0]);
        assert("min"@[0] != "all"@[0]);
        assert("max"@[1] != "min"@[1]);
        lemma_unbound(r@, "min"@);
    }
    r.insert("min", Function::Builtin(Builtin::Min));
    assert(r@ =~= builtin_entries().take(7));
    proof {
        lemma_unbound(r@, "clamp"@);
    }
    r.insert("clamp", Function::Builtin(Builtin::Clamp));
    assert(r@ =~= builtin_entries());
    r
}

} // verus!
