//! Runtime values, their types, and promotion between the types.

use crate::error::Error;
use crate::float::{float_is_zero, float_of_bool, float_of_int, float_to_int, is_zero, of_bool, of_int, to_int};
use crate::text::{push_signed_decimal, signed_decimal_text};
use vstd::prelude::*;

verus! {

/// The type of a value. The types are ranked Boolean < Int < Float.
#[derive(Debug, Clone, Copy, PartialEq, Eq, Structural)]
pub enum ValueType {
    Int,
    Float,
    Boolean,
}

impl ValueType {
    /// The rank of the type: 0 for Boolean, 1 for Int, 2 for Float.
    pub open spec fn rank_of(self) -> int {
        match self {
            ValueType::Boolean => 0,
            ValueType::Int => 1,
            ValueType::Float => 2,
        }
    }

    /// The rank of the type: 0 for Boolean, 1 for Int, 2 for Float.
    pub fn rank(self) -> (r: i8)
        ensures
            r == self.rank_of(),
    {
        match self {
            ValueType::Boolean => 0,
            ValueType::Int => 1,
            ValueType::Float => 2,
        }
    }
}

/// A value of the language. A float is held as its IEEE-754 binary64 bits.
#[derive(Debug, Clone, Copy, PartialEq, Eq, Structural)]
pub enum Value {
    Int(i64),
    Float(u64),
    Boolean(bool),
}

impl Value {
    /// The type of the value.
    pub open spec fn type_of(self) -> ValueType {
        match self {
            Value::Int(_) => ValueType::Int,
            Value::Float(_) => ValueType::Float,
            Value::Boolean(_) => ValueType::Boolean,
        }
    }

    /// The value converted to `target`.
    ///
    /// To Boolean: whether the number is not zero. To Int: 0 or 1 for a boolean,
    /// the integer part for a float. To Float: `0.0` or `1.0` for a boolean, the
    /// nearest float for an integer.
    pub open spec fn promoted(self, target: ValueType) -> Value {
        match (self, target) {
            (Value::Int(v), ValueType::Boolean) => Value::Boolean(v != 0),
            (Value::Int(v), ValueType::Int) => self,
            (Value::Int(v), ValueType::Float) => Value::Float(of_int(v)),
            (Value::Float(v), ValueType::Boolean) => Value::Boolean(!is_zero(v)),
            (Value::Float(v), ValueType::Int) => Value::Int(to_int(v)),
            (Value::Float(v), ValueType::Float) => self,
            (Value::Boolean(v), ValueType::Boolean) => self,
            (Value::Boolean(v), ValueType::Int) => Value::Int(if v { 1i64 } else { 0i64 }),
            (Value::Boolean(v), ValueType::Float) => Value::Float(of_bool(v)),
        }
    }

    /// The zero of a type: `false`, `0` or `0.0`.
    pub open spec fn zero_of(t: ValueType) -> Value {
        match t {
            ValueType::Boolean => Value::Boolean(false),
            ValueType::Int => Value::Int(0),
            ValueType::Float => Value::Float(0),
        }
    }

    /// The type of the value.
    pub fn value_type(&self) -> (r: ValueType)
        ensures
            r == self.type_of(),
    {
        match self {
            Value::Int(_) => ValueType::Int,
            Value::Float(_) => ValueType::Float,
            Value::Boolean(_) => ValueType::Boolean,
        }
    }

    /// Converts the value to `target`. Every conversion among the three types is
    /// defined, so the result is never `None`.
    pub fn promote(&self, target: ValueType) -> (r: Option<Value>)
        ensures
            r == Some(self.promoted(target)),
            self.promoted(target).type_of() == target,
    {
        match (*self, target) {
            (Value::Int(v), ValueType::Boolean) => Some(Value::Boolean(v != 0)),
            (Value::Int(v), ValueType::Int) => Some(Value::Int(v)),
            (Value::Int(v), ValueType::Float) => Some(Value::Float(float_of_int(v))),
            (Value::Float(v), ValueType::Boolean) => Some(Value::Boolean(!float_is_zero(v))),
            (Value::Float(v), ValueType::Int) => Some(Value::Int(float_to_int(v))),
            (Value::Float(v), ValueType::Float) => Some(Value::Float(v)),
            (Value::Boolean(v), ValueType::Boolean) => Some(Value::Boolean(v)),
            (Value::Boolean(v), ValueType::Int) => Some(Value::Int(if v { 1i64 } else { 0i64 })),
            (Value::Boolean(v), ValueType::Float) => Some(Value::Float(float_of_bool(v))),
        }
    }

    /// The zero of a type: `false`, `0` or `0.0`.
    pub fn zero(t: ValueType) -> (r: Value)
        ensures
            r == Value::zero_of(t),
    {
        match t {
            ValueType::Boolean => Value::Boolean(false),
            ValueType::Int => Value::Int(0),
            ValueType::Float => Value::Float(0),
        }
    }

    /// The integer, if the value is one.
    pub fn as_int(&self) -> (r: Option<i64>)
        ensures
            r == match *self {
                Value::Int(v) => Some(v),
                _ => None,
            },
    {
        match self {
            Value::Int(val) => Some(*val),
            _ => None,
        }
    }

    /// The bits of the float, if the value is one.
    pub fn as_float(&self) -> (r: Option<u64>)
        ensures
            r == match *self {
                Value::Float(v) => Some(v),
                _ => None,
            },
    {
        match self {
            Value::Float(val) => Some(*val),
            _ => None,
        }
    }

    /// The boolean, if the value is one.
    pub fn as_boolean(&self) -> (r: Option<bool>)
        ensures
            r == match *self {
                Value::Boolean(v) => Some(v),
                _ => None,
            },
    {
        match self {
            Value::Boolean(val) => Some(*val),
            _ => None,
        }
    }

    /// Stores `value` if `self` is an integer; otherwise leaves `self` as it is.
    pub fn set_int(&mut self, value: i64) -> (r: bool)
        ensures
            r == (*old(self) is Int),
            *final(self) == if r { Value::Int(value) } else { *old(self) },
    {
        match self {
            Value::Int(_) => {
                *self = Value::Int(value);
                true
            },
            _ => false,
        }
    }

    /// Stores the float with bits `value` if `self` is a float; otherwise leaves
    /// `self` as it is.
    pub fn set_float(&mut self, value: u64) -> (r: bool)
        ensures
            r == (*old(self) is Float),
            *final(self) == if r { Value::Float(value) } else { *old(self) },
    {
        match self {
            Value::Float(_) => {
                *self = Value::Float(value);
                true
            },
            _ => false,
        }
    }

    /// Stores `value` if `self` is a boolean; otherwise leaves `self` as it is.
    pub fn set_boolean(&mut self, value: bool) -> (r: bool)
        ensures
            r == (*old(self) is Boolean),
            *final(self) == if r { Value::Boolean(value) } else { *old(self) },
    {
        match self {
            Value::Boolean(_) => {
                *self = Value::Boolean(value);
                true
            },
            _ => false,
        }
    }

    /// The text of the value, given the text of each float.
    pub open spec fn text(self, float_text: spec_fn(u64) -> Seq<char>) -> Seq<char> {
        match self {
            Value::Boolean(b) => if b { "true"@ } else { "false"@ },
            Value::Int(i) => signed_decimal_text(i as int),
            Value::Float(f) => float_text(f),
        }
    }

    /// The text of the value as it is written in source: `true` or `false`, an
    /// integer in decimal, or a float as `float_text` writes it.
    pub fn symbol<F: Fn(u64) -> String>(&self, float_text: &F) -> (r: String)
        requires
            forall|bits: u64| call_requires(float_text, (bits,)),
        ensures
            match *self {
                Value::Boolean(b) => r@ == if b { "true"@ } else { "false"@ },
                Value::Int(i) => r@ == signed_decimal_text(i as int),
                Value::Float(f) => call_ensures(float_text, (f,), r),
            },
            forall|ft: spec_fn(u64) -> Seq<char>| #[trigger]
                writes_floats(float_text, ft) ==> r@ == self.text(ft),
    {
        match self {
            Value::Boolean(b) => {
                let mut s = String::new();
                if *b {
                    s.append("true");
                } else {
                    s.append("false");
                }
                assert(s@ =~= if *b { "true"@ } else { "false"@ });
                s
            },
            Value::Int(i) => {
                let mut s = String::new();
                push_signed_decimal(&mut s, *i);
                assert(s@ =~= signed_decimal_text(*i as int));
                s
            },
            Value::Float(f) => float_text(*f),
        }
    }

    /// The text of the value as a literal that reads back as the value: a
    /// float is written with a point.
    pub fn literal<F: Fn(u64) -> String>(&self, float_text: &F) -> (r: String)
        requires
            forall|bits: u64| call_requires(float_text, (bits,)),
        ensures
            !(*self is Float) ==> forall|ft: spec_fn(u64) -> Seq<char>|
                r@ == #[trigger] literal_text(*self, ft),
            forall|ft: spec_fn(u64) -> Seq<char>| #[trigger]
                writes_floats(float_text, ft) ==> r@ == literal_text(*self, ft),
    {
        let mut s = self.symbol(float_text);
        let is_float = match self {
            Value::Float(_) => true,
            _ => false,
        };
        if is_float && !holds_point(s.as_str()) {
            let ghost before = s@;
            s.append(".0");
            proof {
                reveal_strlit(".0");
                assert(s@ =~= before + seq!['.', '0']);
            }
        }
        s
    }
}

/// The text of a float literal: as `float_text` writes it, with `.0` behind
/// it where it holds no point, so that it reads as a float again.
pub open spec fn float_literal(text: Seq<char>) -> Seq<char> {
    if text.contains('.') {
        text
    } else {
        text + seq!['.', '0']
    }
}

/// The text of a literal.
pub open spec fn literal_text(v: Value, float_text: spec_fn(u64) -> Seq<char>) -> Seq<char> {
    match v {
        Value::Float(f) => float_literal(float_text(f)),
        _ => v.text(float_text),
    }
}

/// Whether the text holds a point.
fn holds_point(text: &str) -> (r: bool)
    ensures
        r == text@.contains('.'),
{
    let n = text.unicode_len();
    let mut i: usize = 0;
    while i < n
        invariant
            i <= n,
            n == text@.len(),
            forall|j: int| 0 <= j < i ==> text@[j] != '.',
        decreases n - i,
    {
        if text.get_char(i) == '.' {
            return true;
        }
        i = i + 1;
    }
    false
}

/// Whether the function `f` writes each float as `model` says.
pub open spec fn writes_floats<F: Fn(u64) -> String>(
    f: &F,
    model: spec_fn(u64) -> Seq<char>,
) -> bool {
    forall|bits: u64, s: String| #[trigger] call_ensures(f, (bits,), s) ==> s@ == model(bits)
}

/// Whether `model` says what is written of something: it is what
/// `float_text` computes, or no float is written.
pub open spec fn writes_text<F: Fn(u64) -> String>(
    float_text: &F,
    model: spec_fn(u64) -> Seq<char>,
    with_floats: bool,
) -> bool {
    !with_floats || writes_floats(float_text, model)
}

/// Whether the value is a float.
pub open spec fn is_float(v: Value) -> bool {
    v is Float
}

/// Whether one of the values is a float.
pub open spec fn any_float(values: Seq<Value>) -> bool {
    exists|i: int| 0 <= i < values.len() && is_float(#[trigger] values[i])
}

/// The highest-ranked type among the values; Boolean for no values.
pub open spec fn widest(values: Seq<Value>) -> ValueType
    decreases values.len(),
{
    if values.len() == 0 {
        ValueType::Boolean
    } else {
        let rest = widest(values.drop_last());
        let t = values.last().type_of();
        if t.rank_of() >= rest.rank_of() {
            t
        } else {
            rest
        }
    }
}

/// Every value converted to `target`.
pub open spec fn all_promoted(values: Seq<Value>, target: ValueType) -> Seq<Value> {
    Seq::new(values.len(), |i: int| values[i].promoted(target))
}

/// The type that `widest` picks ranks at least as high as the type of each value,
/// and, unless there are no values, it is the type of one of them.
pub proof fn law_widest_is_highest(values: Seq<Value>)
    ensures
        forall|i: int| 0 <= i < values.len() ==> (#[trigger] values[i]).type_of().rank_of() <= widest(values).rank_of(),
        values.len() > 0 ==> exists|i: int| 0 <= i < values.len() && (#[trigger] values[i]).type_of() == widest(values),
    decreases values.len(),
{
    if values.len() > 0 {
        let front = values.drop_last();
        law_widest_is_highest(front);
        assert forall|i: int| 0 <= i < values.len() implies (#[trigger] values[i]).type_of().rank_of()
            <= widest(values).rank_of() by {
            if i < values.len() - 1 {
                assert(front[i] == values[i]);
            }
        }
        if widest(values) == values.last().type_of() {
            assert(values[values.len() - 1].type_of() == widest(values));
        } else {
            let i = choose|i: int| 0 <= i < front.len() && (#[trigger] front[i]).type_of() == widest(front);
            assert(front[i] == values[i]);
        }
    }
}

/// The highest-ranked type among the values; Boolean for no values.
pub fn widest_type(values: &[Value]) -> (r: ValueType)
    ensures
        r == widest(values@),
{
    let mut target = ValueType::Boolean;
    let mut i: usize = 0;
    while i < values.len()
        invariant
            i <= values.len(),
            target == widest(values@.take(i as int)),
        decreases values.len() - i,
    {
        let t = values[i].value_type();
        proof {
            assert(values@.take(i + 1).drop_last() =~= values@.take(i as int));
        }
        if t.rank() >= target.rank() {
            target = t;
        }
        i = i + 1;
    }
    proof {
        assert(values@.take(i as int) =~= values@);
    }
    target
}

/// Converts every value to `target`. Over the three types this always succeeds.
pub fn unify_to(values: &[Value], target: ValueType) -> (r: Result<Vec<Value>, Error>)
    ensures
        r matches Ok(v) && v@ == all_promoted(values@, target),
{
    let mut out: Vec<Value> = Vec::new();
    let mut i: usize = 0;
    while i < values.len()
        invariant
            i <= values.len(),
            out@ == all_promoted(values@.take(i as int), target),
        decreases values.len() - i,
    {
        let p = match values[i].promote(target) {
            Some(p) => p,
            None => values[i],
        };
        out.push(p);
        i = i + 1;
        proof {
            assert(out@ =~= all_promoted(values@.take(i as int), target));
        }
    }
    proof {
        assert(values@.take(i as int) =~= values@);
    }
    Ok(out)
}

/// Converts every value to the highest-ranked type among them.
pub fn unify(values: &[Value]) -> (r: Result<Vec<Value>, Error>)
    ensures
        r matches Ok(v) && v@ == all_promoted(values@, widest(values@)),
{
    let target = widest_type(values);
    unify_to(values, target)
}

/// Converts every value to the highest-ranked type among them, and returns that
/// type with the converted values.
pub fn unify_ret_type(values: &[Value]) -> (r: Result<(Vec<Value>, ValueType), Error>)
    ensures
        r matches Ok((v, t)) && t == widest(values@) && v@ == all_promoted(values@, t),
{
    let target = widest_type(values);
    match unify_to(values, target) {
        Ok(v) => Ok((v, target)),
        Err(e) => Err(e),
    }
}

} // verus!
