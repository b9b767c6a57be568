//! The evaluator: a walk over the syntax tree that computes a value, or finds
//! the variable that an identifier names, and binds variables on the way.

use crate::error::{Error, ErrorModel, EvalError, EvalErrorModel, NameKind};
use crate::float::FloatOp;
use crate::floatless::{
    lemma_assignment_stores_no_float, lemma_binary_makes_no_float, lemma_builtin_makes_no_float,
    lemma_unary_makes_no_float, no_float,
};
use crate::functions::{answers, function_outcome, invoke, Builtin, Function, FunctionRegistry};
use crate::operator::binary::{
    add, add_assign, and, and_assign, assign, bit_and, bit_or, bit_xor, bitand_assign,
    bitor_assign, bitxor_assign, div, div_assign, equal, exp, gequal, greater, lequal, less,
    mod_assign, modulo, mul, mul_assign, nequal, or, or_assign, sub, sub_assign,
};
use crate::operator::operator::{BinaryOp, Operator, UnaryOp};
use crate::operator::semantics::{
    assigned, assignment_outcome, binary_outcome, computes_floats, outcome_of, unary_outcome,
    Outcome,
};
use crate::operator::unary::{bit_not, neg, not};
use crate::parser::{expr_models, lemma_list_models, Expr, ExprModel};
use crate::span::{Span, Spanned};
use crate::table::{distinct_names, index_of, lemma_index_of_found, Table};
use crate::value::{Value, ValueType};
use vstd::prelude::*;

verus! {

/// The variables: values by name.
pub type Environment = Table<Value>;

/// The macros: expressions by name.
pub type MacroTable = Table<Spanned<Expr>>;

/// How deep macros may refer to macros. A reference nested deeper fails.
pub const MAX_MACRO_DEPTH: usize = 128;

/// What an expression evaluates to: a value, or the slot of a variable in the
/// environment. The slot lets an assignment change the variable without
/// looking its name up again.
#[derive(Debug, Clone, Copy, PartialEq, Eq, Structural)]
pub enum EvalResult {
    Value(Value),
    Ref(usize),
}

/// The kinds of [`EvalResult`].
#[derive(Debug, Clone, Copy, PartialEq, Eq, Structural)]
pub enum EvalResultType {
    Value,
    Ref,
}

impl EvalResult {
    /// Whether this is a value or the slot of a variable.
    pub fn result_type(&self) -> (r: EvalResultType)
        ensures
            r == match *self {
                EvalResult::Value(_) => EvalResultType::Value,
                EvalResult::Ref(_) => EvalResultType::Ref,
            },
    {
        match self {
            EvalResult::Value(_) => EvalResultType::Value,
            EvalResult::Ref(_) => EvalResultType::Ref,
        }
    }

    /// The value, if this is one.
    pub fn as_value(&self) -> (r: Option<Value>)
        ensures
            r == match *self {
                EvalResult::Value(v) => Some(v),
                EvalResult::Ref(_) => None,
            },
    {
        match self {
            EvalResult::Value(v) => Some(*v),
            _ => None,
        }
    }

    /// The slot of the variable, if this is one.
    pub fn as_ref(&self) -> (r: Option<usize>)
        ensures
            r == match *self {
                EvalResult::Value(_) => None,
                EvalResult::Ref(slot) => Some(slot),
            },
    {
        match self {
            EvalResult::Ref(slot) => Some(*slot),
            _ => None,
        }
    }

    /// The value that the result stands for in `variables`.
    pub open spec fn settled(self, variables: Seq<(Seq<char>, Value)>) -> Value {
        match self {
            EvalResult::Value(v) => v,
            EvalResult::Ref(slot) => variables[slot as int].1,
        }
    }

    /// The value, or the value of the variable in `variables`.
    pub fn value(&self, variables: &Environment) -> (r: Value)
        requires
            *self matches EvalResult::Ref(slot) ==> slot < variables@.len(),
        ensures
            r == self.settled(variables@),
    {
        match self {
            EvalResult::Value(v) => *v,
            EvalResult::Ref(slot) => *variables.get(*slot),
        }
    }
}

/// Whether the operator is `=` or a compound assignment.
pub fn is_assign(op: Operator) -> (r: bool)
    ensures
        r == (op matches Operator::Binary(b) && b.assigns()),
{
    match op {
        Operator::Binary(BinaryOp::Assign)
        | Operator::Binary(BinaryOp::AddAssign)
        | Operator::Binary(BinaryOp::SubAssign)
        | Operator::Binary(BinaryOp::MulAssign)
        | Operator::Binary(BinaryOp::DivAssign)
        | Operator::Binary(BinaryOp::ModAssign)
        | Operator::Binary(BinaryOp::AndAssign)
        | Operator::Binary(BinaryOp::OrAssign)
        | Operator::Binary(BinaryOp::BitAndAssign)
        | Operator::Binary(BinaryOp::BitOrAssign)
        | Operator::Binary(BinaryOp::BitXorAssign) => true,
        _ => false,
    }
}

/// Whether the operator is `&&` or `||`, which may leave its right operand
/// unevaluated.
pub fn is_cond(op: Operator) -> (r: bool)
    ensures
        r == (op == Operator::Binary(BinaryOp::And) || op == Operator::Binary(BinaryOp::Or)),
{
    match op {
        Operator::Binary(BinaryOp::And) | Operator::Binary(BinaryOp::Or) => true,
        _ => false,
    }
}

/// Whether the variables `after` are the variables `before`, each in its
/// slot, under its name and with its type, and possibly more behind them.
pub open spec fn persists(before: Seq<(Seq<char>, Value)>, after: Seq<(Seq<char>, Value)>) -> bool {
    before.len() <= after.len() && forall|i: int|
        0 <= i < before.len() ==> (#[trigger] after[i]).0 == before[i].0 && after[i].1.type_of()
            == before[i].1.type_of()
}

/// What evaluation depends on beside the expression and the variables.
pub struct Context {
    pub macros: Seq<(Seq<char>, Spanned<ExprModel>)>,
    pub functions: Seq<(Seq<char>, Function)>,
    pub floats: spec_fn(FloatOp, u64, u64) -> u64,
    pub hosted: spec_fn(usize, Seq<Value>) -> Result<Value, ErrorModel>,
}

/// What an evaluation leaves: its result, and the variables as they are
/// after it, whether it succeeded or failed.
pub struct Evaluated {
    pub result: Result<EvalResult, Spanned<ErrorModel>>,
    pub variables: Seq<(Seq<char>, Value)>,
}

/// An evaluation that failed with `data` over `span`.
pub open spec fn failure(
    span: Span,
    data: ErrorModel,
    variables: Seq<(Seq<char>, Value)>,
) -> Evaluated {
    Evaluated { result: Err(Spanned { span, data }), variables }
}

/// An evaluation that gave the value `v`.
pub open spec fn success(v: Value, variables: Seq<(Seq<char>, Value)>) -> Evaluated {
    Evaluated { result: Ok(EvalResult::Value(v)), variables }
}

/// The error for a name that is not bound.
pub open spec fn name_not_found(kind: NameKind, name: Seq<char>) -> ErrorModel {
    ErrorModel::EvalError(EvalErrorModel::NameNotFound { kind, name })
}

/// The error for a result that overflowed or is not finite.
pub open spec fn invalid_result(op: Operator, operands: Seq<Value>, result: Value) -> ErrorModel {
    ErrorModel::EvalError(EvalErrorModel::InvalidResult { op, operands, result })
}

/// The error for an assignment to what is no identifier.
pub open spec fn not_assignable(op: Operator) -> ErrorModel {
    ErrorModel::EvalError(EvalErrorModel::NotAssignable { op })
}

/// The result of an operator's outcome: its error over `error_span`, an
/// invalid result as an error over `node_span`, or its value.
pub open spec fn conclusion(
    out: Outcome,
    op: Operator,
    operands: Seq<Value>,
    error_span: Span,
    node_span: Span,
) -> Result<EvalResult, Spanned<ErrorModel>> {
    match out {
        Err(err) => Err(Spanned { span: error_span, data: err }),
        Ok((v, flag)) => if flag {
            Err(Spanned { span: node_span, data: invalid_result(op, operands, v) })
        } else {
            Ok(EvalResult::Value(v))
        },
    }
}

/// The conclusion of an outcome, with the variables that it leaves.
pub open spec fn concluded(
    out: Outcome,
    op: Operator,
    operands: Seq<Value>,
    error_span: Span,
    node_span: Span,
    variables: Seq<(Seq<char>, Value)>,
) -> Evaluated {
    Evaluated { result: conclusion(out, op, operands, error_span, node_span), variables }
}

/// The span of a call for its errors: from the callee to the last argument.
pub open spec fn call_span(func: Spanned<ExprModel>, args: Seq<Spanned<ExprModel>>) -> Span {
    Span {
        start: func.span.start,
        end: if args.len() > 0 {
            args.last().span.end
        } else {
            func.span.end
        },
    }
}

/// The models of the macros of a table.
pub open spec fn macro_models(macros: Seq<(Seq<char>, Spanned<Expr>)>) -> Seq<
    (Seq<char>, Spanned<ExprModel>),
> {
    Seq::new(macros.len(), |i: int| (macros[i].0, macros[i].1@))
}

/// What evaluating `e` leaves, where macros may still nest `depth` deep.
///
/// A literal is its value. An identifier is the slot of its variable. A macro
/// is what its expression evaluates to, each time anew, and fails where
/// macros nest deeper than `depth`. A conditional evaluates its condition
/// and one branch. A call evaluates its arguments from left to right and
/// hands them to the function. A comma sequence evaluates its members from
/// left to right and is the last one. The first failure ends the evaluation;
/// what was assigned before it stays assigned.
pub open spec fn evaluated(
    e: Spanned<ExprModel>,
    variables: Seq<(Seq<char>, Value)>,
    cx: Context,
    depth: nat,
) -> Evaluated
    decreases depth, e, 2int,
{
    match e.data {
        ExprModel::Value(v) => success(v, variables),
        ExprModel::Identifier(s) => match index_of(variables, s) {
            Some(i) => Evaluated { result: Ok(EvalResult::Ref(i as usize)), variables },
            None => failure(e.span, name_not_found(NameKind::Variable, s), variables),
        },
        ExprModel::Macro(s) => match index_of(cx.macros, s) {
            Some(i) => if depth == 0 {
                failure(e.span, ErrorModel::UnexpectedError, variables)
            } else {
                evaluated(cx.macros[i].1, variables, cx, (depth - 1) as nat)
            },
            None => failure(e.span, name_not_found(NameKind::Macro, s), variables),
        },
        ExprModel::Unary { op, rhs } => {
            let (v, after) = operand(*rhs, variables, cx, depth);
            let span = e.span.merged(rhs.span);
            match v {
                Err(x) => Evaluated { result: Err(x), variables: after },
                Ok(v) => match op {
                    Operator::Unary(u) => concluded(
                        unary_outcome(u, v),
                        op,
                        seq![v],
                        span,
                        span,
                        after,
                    ),
                    _ => failure(span, ErrorModel::UnexpectedError, after),
                },
            }
        },
        ExprModel::Binary { op, lhs, rhs } => evaluated_binary(e, variables, cx, depth),
        ExprModel::Ternary { cond, statement1, statement2 } => {
            let (c, after) = operand(*cond, variables, cx, depth);
            match c {
                Err(x) => Evaluated { result: Err(x), variables: after },
                Ok(c) => if c.promoted(ValueType::Boolean) == Value::Boolean(true) {
                    evaluated(*statement1, after, cx, depth)
                } else {
                    evaluated(*statement2, after, cx, depth)
                },
            }
        },
        ExprModel::Call { func, args } => match func.data {
            ExprModel::Identifier(s) => match index_of(cx.functions, s) {
                None => failure(
                    call_span(*func, args),
                    name_not_found(NameKind::Function, s),
                    variables,
                ),
                Some(i) => {
                    let (values, after) = arguments(args, 0, variables, Seq::empty(), cx, depth);
                    match values {
                        Err(x) => Evaluated { result: Err(x), variables: after },
                        Ok(values) => match function_outcome(cx.functions[i].1, values, cx.hosted) {
                            Ok(v) => success(v, after),
                            Err(err) => failure(call_span(*func, args), err, after),
                        },
                    }
                },
            },
            _ => failure(e.span, ErrorModel::UnexpectedError, variables),
        },
        ExprModel::Comma { exprs } => if exprs.len() == 0 {
            failure(e.span, ErrorModel::UnexpectedError, variables)
        } else {
            sequence(exprs, 0, variables, cx, depth)
        },
    }
}

/// The value that `e` evaluates to: its value, or the value of its variable.
pub open spec fn operand(
    e: Spanned<ExprModel>,
    variables: Seq<(Seq<char>, Value)>,
    cx: Context,
    depth: nat,
) -> (Result<Value, Spanned<ErrorModel>>, Seq<(Seq<char>, Value)>)
    decreases depth, e, 3int,
{
    let ev = evaluated(e, variables, cx, depth);
    match ev.result {
        Ok(r) => (Ok(r.settled(ev.variables)), ev.variables),
        Err(x) => (Err(x), ev.variables),
    }
}

/// The values of the arguments from the `i`-th on, behind those in `acc`.
pub open spec fn arguments(
    args: Seq<Spanned<ExprModel>>,
    i: int,
    variables: Seq<(Seq<char>, Value)>,
    acc: Seq<Value>,
    cx: Context,
    depth: nat,
) -> (Result<Seq<Value>, Spanned<ErrorModel>>, Seq<(Seq<char>, Value)>)
    decreases depth, args, args.len() - i,
{
    if i < 0 || i >= args.len() {
        (Ok(acc), variables)
    } else {
        let (v, after) = operand(args[i], variables, cx, depth);
        match v {
            Err(x) => (Err(x), after),
            Ok(v) => arguments(args, i + 1, after, acc.push(v), cx, depth),
        }
    }
}

/// What the members of a comma sequence from the `i`-th on leave: each is
/// evaluated, the first failure ends the sequence, and the last member is
/// the result.
pub open spec fn sequence(
    exprs: Seq<Spanned<ExprModel>>,
    i: int,
    variables: Seq<(Seq<char>, Value)>,
    cx: Context,
    depth: nat,
) -> Evaluated
    decreases depth, exprs, exprs.len() - i,
{
    if i < 0 || i >= exprs.len() {
        Evaluated { result: Err(arbitrary()), variables }
    } else if i == exprs.len() - 1 {
        evaluated(exprs[i], variables, cx, depth)
    } else {
        let ev = evaluated(exprs[i], variables, cx, depth);
        match ev.result {
            Err(x) => ev,
            Ok(_) => sequence(exprs, i + 1, ev.variables, cx, depth),
        }
    }
}

/// The slot in which `=` stores for `name`, and the variables with that slot:
/// the slot of `name`, or a new last slot that holds `fresh`.
pub open spec fn slot_to_assign(
    variables: Seq<(Seq<char>, Value)>,
    name: Seq<char>,
    fresh: Value,
) -> (int, Seq<(Seq<char>, Value)>) {
    match index_of(variables, name) {
        Some(i) => (i, variables),
        None => (variables.len() as int, variables.push((name, fresh))),
    }
}

/// What the assignment `b` of `r` to the variable `name` leaves: `=` binds
/// the name if it is not bound, to the zero of the type of `r`, and stores;
/// a compound assignment needs the name bound.
pub open spec fn assigned_to(
    node_span: Span,
    across: Span,
    b: BinaryOp,
    name: Seq<char>,
    variables: Seq<(Seq<char>, Value)>,
    r: Value,
    cx: Context,
) -> Evaluated {
    if b == BinaryOp::Assign {
        let (i, with_slot) = slot_to_assign(variables, name, Value::zero_of(r.type_of()));
        stored(node_span, across, b, i, with_slot, r, cx)
    } else {
        match index_of(variables, name) {
            Some(i) => stored(node_span, across, b, i, variables, r, cx),
            None => failure(node_span, name_not_found(NameKind::Variable, name), variables),
        }
    }
}

/// What evaluating a binary node leaves.
///
/// An operator that does not assign evaluates its left operand, then its
/// right one, and applies itself; `&&` and `||` leave the right operand
/// unevaluated where the left one decides. An assignment evaluates its right
/// operand, and then needs a plain identifier on its left: `=` binds it if it
/// is not bound, to the zero of the type of the right operand, and the
/// compound assignments need it bound.
pub open spec fn evaluated_binary(
    e: Spanned<ExprModel>,
    variables: Seq<(Seq<char>, Value)>,
    cx: Context,
    depth: nat,
) -> Evaluated
    decreases depth, e, 1int,
{
    match e.data {
        ExprModel::Binary { op, lhs, rhs } => {
            let across = Span { start: lhs.span.start, end: rhs.span.end };
            match op {
                Operator::Binary(b) => if b.assigns() {
                    let (r, after) = operand(*rhs, variables, cx, depth);
                    match r {
                        Err(x) => Evaluated { result: Err(x), variables: after },
                        Ok(r) => match lhs.data {
                            ExprModel::Identifier(name) => assigned_to(
                                e.span,
                                across,
                                b,
                                name,
                                after,
                                r,
                                cx,
                            ),
                            _ => failure(across, not_assignable(op), after),
                        },
                    }
                } else {
                    let (l, after_left) = operand(*lhs, variables, cx, depth);
                    match l {
                        Err(x) => Evaluated { result: Err(x), variables: after_left },
                        Ok(l) => if b == BinaryOp::And && l.promoted(ValueType::Boolean)
                            == Value::Boolean(false) {
                            success(Value::Boolean(false), after_left)
                        } else if b == BinaryOp::Or && l.promoted(ValueType::Boolean)
                            == Value::Boolean(true) {
                            success(Value::Boolean(true), after_left)
                        } else {
                            let (r, after) = operand(*rhs, after_left, cx, depth);
                            match r {
                                Err(x) => Evaluated { result: Err(x), variables: after },
                                Ok(r) => concluded(
                                    binary_outcome(b, l, r, cx.floats),
                                    op,
                                    seq![l, r],
                                    across,
                                    e.span,
                                    after,
                                ),
                            }
                        },
                    }
                },
                _ => {
                    let (l, after_left) = operand(*lhs, variables, cx, depth);
                    match l {
                        Err(x) => Evaluated { result: Err(x), variables: after_left },
                        Ok(l) => {
                            let (r, after) = operand(*rhs, after_left, cx, depth);
                            match r {
                                Err(x) => Evaluated { result: Err(x), variables: after },
                                Ok(r) => failure(across, ErrorModel::UnexpectedError, after),
                            }
                        },
                    }
                },
            }
        },
        _ => failure(e.span, ErrorModel::UnexpectedError, variables),
    }
}

/// What the assignment `b` of `r` to the variable in slot `i` leaves: the
/// variable holds what the assignment stores.
pub open spec fn stored(
    node_span: Span,
    across: Span,
    b: BinaryOp,
    i: int,
    variables: Seq<(Seq<char>, Value)>,
    r: Value,
    cx: Context,
) -> Evaluated {
    let slot = variables[i].1;
    let out = assignment_outcome(b, slot, r, cx.floats);
    concluded(
        out,
        Operator::Binary(b),
        seq![slot, r],
        across,
        node_span,
        variables.update(i, (variables[i].0, assigned(slot, out))),
    )
}

/// Whether no variable holds a float.
pub open spec fn holds_no_float(variables: Seq<(Seq<char>, Value)>) -> bool {
    forall|i: int| 0 <= i < variables.len() ==> !((#[trigger] variables[i]).1 is Float)
}

/// Whether the expression holds no float literal and no call of `to_float`
/// or of a function of the program.
pub open spec fn without_floats(
    e: Spanned<ExprModel>,
    functions: Seq<(Seq<char>, Function)>,
) -> bool
    decreases e,
{
    match e.data {
        ExprModel::Value(v) => !(v is Float),
        ExprModel::Identifier(_) | ExprModel::Macro(_) => true,
        ExprModel::Unary { op, rhs } => without_floats(*rhs, functions),
        ExprModel::Binary { op, lhs, rhs } => without_floats(*lhs, functions) && without_floats(
            *rhs,
            functions,
        ),
        ExprModel::Ternary { cond, statement1, statement2 } => without_floats(*cond, functions)
            && without_floats(*statement1, functions) && without_floats(*statement2, functions),
        ExprModel::Comma { exprs } => forall|i: int|
            0 <= i < exprs.len() ==> without_floats(#[trigger] exprs[i], functions),
        ExprModel::Call { func, args } => (func.data matches ExprModel::Identifier(s) ==> (
        index_of(functions, s) matches Some(i) ==> functions[i].1 is Builtin && functions[i].1
            != Function::Builtin(Builtin::ToFloat))) && forall|
            i: int,
        |
            0 <= i < args.len() ==> without_floats(#[trigger] args[i], functions),
    }
}

/// Whether every expression of the list is without floats.
pub open spec fn all_without_floats(
    exprs: Seq<Spanned<ExprModel>>,
    functions: Seq<(Seq<char>, Function)>,
) -> bool {
    forall|i: int| 0 <= i < exprs.len() ==> without_floats(#[trigger] exprs[i], functions)
}

/// Whether the tables hold no float and no way to one: no variable holds a
/// float, and no macro holds a float literal, a call of `to_float` or a call
/// of a function of the program.
pub open spec fn float_free_tables(
    variables: Seq<(Seq<char>, Value)>,
    macros: Seq<(Seq<char>, Spanned<Expr>)>,
    functions: Seq<(Seq<char>, Function)>,
) -> bool {
    holds_no_float(variables) && forall|i: int|
        0 <= i < macros.len() ==> without_floats((#[trigger] macros[i]).1@, functions)
}

/// Whether an evaluation meets no float: the expression is without floats,
/// and the tables are float-free.
pub open spec fn float_free(
    e: Spanned<ExprModel>,
    variables: Seq<(Seq<char>, Value)>,
    macros: Seq<(Seq<char>, Spanned<Expr>)>,
    functions: Seq<(Seq<char>, Function)>,
) -> bool {
    without_floats(e, functions) && float_free_tables(variables, macros, functions)
}

/// Whether the result holds no float in a value of its own.
pub open spec fn is_no_float(r: Result<EvalResult, Spanned<Error>>) -> bool {
    r matches Ok(EvalResult::Value(v)) ==> !(v is Float)
}

/// The result of an evaluation as `evaluate_expr` returns it.
pub open spec fn result_model(r: Result<EvalResult, Spanned<Error>>) -> Result<
    EvalResult,
    Spanned<ErrorModel>,
> {
    match r {
        Ok(v) => Ok(v),
        Err(e) => Err(e@),
    }
}

/// What evaluation depends on, for tables as they are held and one model of
/// the float operations.
pub open spec fn context(
    macros: Seq<(Seq<char>, Spanned<Expr>)>,
    functions: Seq<(Seq<char>, Function)>,
    floats: spec_fn(FloatOp, u64, u64) -> u64,
    hosted: spec_fn(usize, Seq<Value>) -> Result<Value, ErrorModel>,
) -> Context {
    Context { macros: macro_models(macros), functions, floats, hosted }
}

/// Whether `floats` and `hosted` say what the float unit and the host of
/// the program compute.
pub open spec fn runs<
    U: Fn(FloatOp, u64, u64) -> u64,
    H: Fn(usize, &Vec<Value>) -> Result<Value, Error>,
>(
    unit: &U,
    host: &H,
    floats: spec_fn(FloatOp, u64, u64) -> u64,
    hosted: spec_fn(usize, Seq<Value>) -> Result<Value, ErrorModel>,
) -> bool {
    computes_floats(unit, floats) && answers(host, hosted)
}

/// The slot of a name among the macros is its slot among their models.
proof fn lemma_macro_slot(macros: Seq<(Seq<char>, Spanned<Expr>)>, name: Seq<char>)
    requires
        distinct_names(macros),
    ensures
        index_of(macro_models(macros), name) == index_of(macros, name),
        distinct_names(macro_models(macros)),
{
    let models = macro_models(macros);
    assert forall|i: int, j: int| 0 <= i < j < models.len() implies (#[trigger] models[i]).0 != (
    #[trigger] models[j]).0 by {
        assert(macros[i].0 != macros[j].0);
    }
    match index_of(macros, name) {
        Some(i) => {
            assert(models[i].0 == name);
            lemma_index_of_found(models, name, i);
        },
        None => {
            if index_of(models, name) is Some {
                let i = index_of(models, name)->Some_0;
                assert(macros[i].0 == name);
            }
        },
    }
}

fn error_over(span: Span, data: Error) -> (r: Spanned<Error>)
    ensures
        r@ == (Spanned { span, data: data@ }),
{
    Spanned { span, data }
}

fn missing_name(kind: NameKind, name: &String) -> (e: Error)
    ensures
        e@ == name_not_found(kind, name@),
{
    Error::EvalError(EvalError::NameNotFound { kind, name: name.clone() })
}

/// Turns an operator's outcome into the result of its node.
fn conclude(
    out: Result<(Value, bool), Error>,
    op: Operator,
    operands: Vec<Value>,
    error_span: Span,
    node_span: Span,
) -> (r: Result<EvalResult, Spanned<Error>>)
    ensures
        result_model(r) == conclusion(outcome_of(out), op, operands@, error_span, node_span),
        r is Ok ==> r->Ok_0 is Value,
{
    match out {
        Err(err) => Err(error_over(error_span, err)),
        Ok((v, flag)) => {
            if flag {
                Err(
                    error_over(
                        node_span,
                        Error::EvalError(EvalError::InvalidResult { op, operands, result: v }),
                    ),
                )
            } else {
                Ok(EvalResult::Value(v))
            }
        },
    }
}

fn pair_of(first: Value, second: Value) -> (r: Vec<Value>)
    ensures
        r@ == seq![first, second],
{
    let mut v = Vec::new();
    v.push(first);
    v.push(second);
    assert(v@ =~= seq![first, second]);
    v
}

fn one_of(first: Value) -> (r: Vec<Value>)
    ensures
        r@ == seq![first],
{
    let mut v = Vec::new();
    v.push(first);
    assert(v@ =~= seq![first]);
    v
}

/// Applies a binary operator that does not assign.
pub fn apply_binary<U: Fn(FloatOp, u64, u64) -> u64>(
    op: BinaryOp,
    left: &Value,
    right: &Value,
    unit: &U,
) -> (out: Result<(Value, bool), Error>)
    requires
        !op.assigns(),
        forall|o: FloatOp, x: u64, y: u64| call_requires(unit, (o, x, y)),
    ensures
        forall|fl: spec_fn(FloatOp, u64, u64) -> u64| #[trigger]
            computes_floats(unit, fl) ==> outcome_of(out) == binary_outcome(op, *left, *right, fl),
        !(left is Float || right is Float) ==> forall|fl: spec_fn(FloatOp, u64, u64) -> u64|
            outcome_of(out) == #[trigger] binary_outcome(op, *left, *right, fl),
{
    match op {
        BinaryOp::Addition => add::apply(left, right, unit),
        BinaryOp::Subtraction => sub::apply(left, right, unit),
        BinaryOp::Multiplication => mul::apply(left, right, unit),
        BinaryOp::Division => div::apply(left, right, unit),
        BinaryOp::Modulo => modulo::apply(left, right, unit),
        BinaryOp::Exponentiation => exp::apply(left, right, unit),
        BinaryOp::BitwiseAnd => bit_and::apply(left, right),
        BinaryOp::BitwiseOr => bit_or::apply(left, right),
        BinaryOp::BitwiseXor => bit_xor::apply(left, right),
        BinaryOp::And => and::apply(left, right),
        BinaryOp::Or => or::apply(left, right),
        BinaryOp::Equal => equal::apply(left, right, unit),
        BinaryOp::NotEqual => nequal::apply(left, right, unit),
        BinaryOp::Less => less::apply(left, right),
        BinaryOp::LessEqual => lequal::apply(left, right),
        BinaryOp::Greater => greater::apply(left, right),
        BinaryOp::GreaterEqual => gequal::apply(left, right),
        _ => Err(Error::UnexpectedError),
    }
}

/// Applies `=` or a compound assignment to the variable `slot`.
pub fn apply_assignment<U: Fn(FloatOp, u64, u64) -> u64>(
    op: BinaryOp,
    slot: &mut Value,
    right: &Value,
    unit: &U,
) -> (out: Result<(Value, bool), Error>)
    requires
        op.assigns(),
        forall|o: FloatOp, x: u64, y: u64| call_requires(unit, (o, x, y)),
    ensures
        final(slot).type_of() == old(slot).type_of(),
        forall|fl: spec_fn(FloatOp, u64, u64) -> u64| #[trigger]
            computes_floats(unit, fl) ==> outcome_of(out) == assignment_outcome(
                op,
                *old(slot),
                *right,
                fl,
            ) && *final(slot) == assigned(
                *old(slot),
                assignment_outcome(op, *old(slot), *right, fl),
            ),
        !(*old(slot) is Float) ==> forall|fl: spec_fn(FloatOp, u64, u64) -> u64|
            outcome_of(out) == #[trigger] assignment_outcome(op, *old(slot), *right, fl)
                && *final(slot) == assigned(
                *old(slot),
                assignment_outcome(op, *old(slot), *right, fl),
            ),
{
    match op {
        BinaryOp::Assign => assign::apply(slot, right),
        BinaryOp::AddAssign => add_assign::apply(slot, right, unit),
        BinaryOp::SubAssign => sub_assign::apply(slot, right, unit),
        BinaryOp::MulAssign => mul_assign::apply(slot, right, unit),
        BinaryOp::DivAssign => div_assign::apply(slot, right, unit),
        BinaryOp::ModAssign => mod_assign::apply(slot, right, unit),
        BinaryOp::AndAssign => and_assign::apply(slot, right),
        BinaryOp::OrAssign => or_assign::apply(slot, right),
        BinaryOp::BitAndAssign => bitand_assign::apply(slot, right),
        BinaryOp::BitOrAssign => bitor_assign::apply(slot, right),
        BinaryOp::BitXorAssign => bitxor_assign::apply(slot, right),
        _ => Err(Error::UnexpectedError),
    }
}

/// Applies a prefix operator.
pub fn apply_unary(op: UnaryOp, value: &Value) -> (out: Result<(Value, bool), Error>)
    ensures
        outcome_of(out) == unary_outcome(op, *value),
{
    match op {
        UnaryOp::Not => not::apply(value),
        UnaryOp::Negation => neg::apply(value),
        UnaryOp::BitwiseNot => bit_not::apply(value),
    }
}

/// Evaluates an expression to a value: its value, or the value of the
/// variable that it names.
fn evaluate_operand<
    U: Fn(FloatOp, u64, u64) -> u64,
    H: Fn(usize, &Vec<Value>) -> Result<Value, Error>,
>(
    expr: &Spanned<Expr>,
    variables: &mut Environment,
    macros: &MacroTable,
    functions: &FunctionRegistry,
    unit: &U,
    host: &H,
    depth: usize,
) -> (r: Result<Value, Spanned<Error>>)
    requires
        forall|o: FloatOp, x: u64, y: u64| call_requires(unit, (o, x, y)),
        forall|id: usize, values: &Vec<Value>| call_requires(host, (id, values)),
    ensures
        persists(old(variables)@, final(variables)@),
        float_free(expr@, old(variables)@, macros@, functions@) ==> holds_no_float(
            final(variables)@,
        ) && (r matches Ok(value) ==> !(value is Float)) && forall|
            fl: spec_fn(FloatOp, u64, u64) -> u64,
            hosted: spec_fn(usize, Seq<Value>) -> Result<Value, ErrorModel>,
        |
            ({
                let (v, after) = operand(
                    expr@,
                    old(variables)@,
                    #[trigger] context(macros@, functions@, fl, hosted),
                    depth as nat,
                );
                &&& final(variables)@ == after
                &&& match r {
                    Ok(value) => v == Ok::<Value, Spanned<ErrorModel>>(value),
                    Err(e) => v == Err::<Value, Spanned<ErrorModel>>(e@),
                }
            }),
        forall|
            fl: spec_fn(FloatOp, u64, u64) -> u64,
            hosted: spec_fn(usize, Seq<Value>) -> Result<Value, ErrorModel>,
        | #[trigger]
            runs(unit, host, fl, hosted) ==> ({
                let (v, after) = operand(
                    expr@,
                    old(variables)@,
                    context(macros@, functions@, fl, hosted),
                    depth as nat,
                );
                &&& final(variables)@ == after
                &&& match r {
                    Ok(value) => v == Ok::<Value, Spanned<ErrorModel>>(value),
                    Err(e) => v == Err::<Value, Spanned<ErrorModel>>(e@),
                }
            }),
    decreases depth, expr, 3int,
{
    match evaluate_at(expr, variables, macros, functions, unit, host, depth) {
        Ok(result) => Ok(result.value(variables)),
        Err(e) => Err(e),
    }
}

/// Evaluates the arguments of a call from the `i`-th on, and appends their
/// values to `acc`.
fn evaluate_arguments<
    U: Fn(FloatOp, u64, u64) -> u64,
    H: Fn(usize, &Vec<Value>) -> Result<Value, Error>,
>(
    args: &Vec<Spanned<Expr>>,
    i: usize,
    variables: &mut Environment,
    acc: Vec<Value>,
    macros: &MacroTable,
    functions: &FunctionRegistry,
    unit: &U,
    host: &H,
    depth: usize,
) -> (r: Result<Vec<Value>, Spanned<Error>>)
    requires
        i <= args@.len(),
        forall|o: FloatOp, x: u64, y: u64| call_requires(unit, (o, x, y)),
        forall|id: usize, values: &Vec<Value>| call_requires(host, (id, values)),
    ensures
        persists(old(variables)@, final(variables)@),
        all_without_floats(expr_models(args@), functions@) && float_free_tables(
            old(variables)@,
            macros@,
            functions@,
        ) && no_float(acc@) ==> holds_no_float(final(variables)@) && (r matches Ok(values)
            ==> no_float(values@)) && forall|
            fl: spec_fn(FloatOp, u64, u64) -> u64,
            hosted: spec_fn(usize, Seq<Value>) -> Result<Value, ErrorModel>,
        |
            ({
                let (v, after) = arguments(
                    expr_models(args@),
                    i as int,
                    old(variables)@,
                    acc@,
                    #[trigger] context(macros@, functions@, fl, hosted),
                    depth as nat,
                );
                &&& final(variables)@ == after
                &&& match r {
                    Ok(values) => v == Ok::<Seq<Value>, Spanned<ErrorModel>>(values@),
                    Err(e) => v == Err::<Seq<Value>, Spanned<ErrorModel>>(e@),
                }
            }),
        forall|
            fl: spec_fn(FloatOp, u64, u64) -> u64,
            hosted: spec_fn(usize, Seq<Value>) -> Result<Value, ErrorModel>,
        | #[trigger]
            runs(unit, host, fl, hosted) ==> ({
                let (v, after) = arguments(
                    expr_models(args@),
                    i as int,
                    old(variables)@,
                    acc@,
                    context(macros@, functions@, fl, hosted),
                    depth as nat,
                );
                &&& final(variables)@ == after
                &&& match r {
                    Ok(values) => v == Ok::<Seq<Value>, Spanned<ErrorModel>>(values@),
                    Err(e) => v == Err::<Seq<Value>, Spanned<ErrorModel>>(e@),
                }
            }),
    decreases depth, args, args@.len() - i,
{
    if i >= args.len() {
        return Ok(acc);
    }
    let ghost quiet = all_without_floats(expr_models(args@), functions@) && float_free_tables(
        variables@,
        macros@,
        functions@,
    ) && no_float(acc@);
    proof {
        assert(expr_models(args@)[i as int] == args@[i as int]@);
    }
    let mut acc = acc;
    match evaluate_operand(&args[i], variables, macros, functions, unit, host, depth) {
        Ok(v) => {
            let ghost before = acc@;
            acc.push(v);
            proof {
                if quiet {
                    assert forall|k: int| 0 <= k < acc@.len() implies !((#[trigger] acc@[k])
                        is Float) by {
                        if k < before.len() {
                            assert(acc@[k] == before[k]);
                        }
                    }
                }
            }
            evaluate_arguments(args, i + 1, variables, acc, macros, functions, unit, host, depth)
        },
        Err(e) => Err(e),
    }
}

/// Evaluates the members of a comma sequence from the `i`-th on.
fn evaluate_sequence<
    U: Fn(FloatOp, u64, u64) -> u64,
    H: Fn(usize, &Vec<Value>) -> Result<Value, Error>,
>(
    exprs: &Vec<Spanned<Expr>>,
    i: usize,
    variables: &mut Environment,
    macros: &MacroTable,
    functions: &FunctionRegistry,
    unit: &U,
    host: &H,
    depth: usize,
) -> (r: Result<EvalResult, Spanned<Error>>)
    requires
        i < exprs@.len(),
        forall|o: FloatOp, x: u64, y: u64| call_requires(unit, (o, x, y)),
        forall|id: usize, values: &Vec<Value>| call_requires(host, (id, values)),
    ensures
        r matches Ok(EvalResult::Ref(slot)) ==> slot < final(variables)@.len(),
        persists(old(variables)@, final(variables)@),
        all_without_floats(expr_models(exprs@), functions@) && float_free_tables(
            old(variables)@,
            macros@,
            functions@,
        ) ==> holds_no_float(final(variables)@) && is_no_float(r) && forall|
            fl: spec_fn(FloatOp, u64, u64) -> u64,
            hosted: spec_fn(usize, Seq<Value>) -> Result<Value, ErrorModel>,
        |
            ({
                let ev = sequence(
                    expr_models(exprs@),
                    i as int,
                    old(variables)@,
                    #[trigger] context(macros@, functions@, fl, hosted),
                    depth as nat,
                );
                final(variables)@ == ev.variables && result_model(r) == ev.result
            }),
        forall|
            fl: spec_fn(FloatOp, u64, u64) -> u64,
            hosted: spec_fn(usize, Seq<Value>) -> Result<Value, ErrorModel>,
        | #[trigger]
            runs(unit, host, fl, hosted) ==> ({
                let ev = sequence(
                    expr_models(exprs@),
                    i as int,
                    old(variables)@,
                    context(macros@, functions@, fl, hosted),
                    depth as nat,
                );
                final(variables)@ == ev.variables && result_model(r) == ev.result
            }),
    decreases depth, exprs, exprs@.len() - i,
{
    proof {
        assert(expr_models(exprs@)[i as int] == exprs@[i as int]@);
    }
    if i == exprs.len() - 1 {
        evaluate_at(&exprs[i], variables, macros, functions, unit, host, depth)
    } else {
        match evaluate_at(&exprs[i], variables, macros, functions, unit, host, depth) {
            Ok(_) => evaluate_sequence(exprs, i + 1, variables, macros, functions, unit, host, depth),
            Err(e) => Err(e),
        }
    }
}

/// Assigns `right` to the variable `name` with the assignment `b`.
fn assign_to<
    U: Fn(FloatOp, u64, u64) -> u64,
    H: Fn(usize, &Vec<Value>) -> Result<Value, Error>,
>(
    node_span: Span,
    across: Span,
    b: BinaryOp,
    name: &String,
    variables: &mut Environment,
    right: Value,
    macros: &MacroTable,
    functions: &FunctionRegistry,
    unit: &U,
    host: &H,
) -> (r: Result<EvalResult, Spanned<Error>>)
    requires
        b.assigns(),
        forall|o: FloatOp, x: u64, y: u64| call_requires(unit, (o, x, y)),
        forall|id: usize, values: &Vec<Value>| call_requires(host, (id, values)),
    ensures
        !(r matches Ok(EvalResult::Ref(_))),
        persists(old(variables)@, final(variables)@),
        holds_no_float(old(variables)@) && !(right is Float) ==> holds_no_float(
            final(variables)@,
        ) && is_no_float(r) && forall|
            fl: spec_fn(FloatOp, u64, u64) -> u64,
            hosted: spec_fn(usize, Seq<Value>) -> Result<Value, ErrorModel>,
        |
            ({
                let ev = assigned_to(
                    node_span,
                    across,
                    b,
                    name@,
                    old(variables)@,
                    right,
                    #[trigger] context(macros@, functions@, fl, hosted),
                );
                final(variables)@ == ev.variables && result_model(r) == ev.result
            }),
        forall|
            fl: spec_fn(FloatOp, u64, u64) -> u64,
            hosted: spec_fn(usize, Seq<Value>) -> Result<Value, ErrorModel>,
        | #[trigger]
            runs(unit, host, fl, hosted) ==> ({
                let ev = assigned_to(
                    node_span,
                    across,
                    b,
                    name@,
                    old(variables)@,
                    right,
                    context(macros@, functions@, fl, hosted),
                );
                final(variables)@ == ev.variables && result_model(r) == ev.result
            }),
{
    let slot = match variables.find(name.as_str()) {
        Some(slot) => slot,
        None => {
            if b == BinaryOp::Assign {
                variables.insert(name.as_str(), Value::zero(right.value_type()))
            } else {
                return Err(error_over(node_span, missing_name(NameKind::Variable, name)));
            }
        },
    };
    let ghost quiet = holds_no_float(old(variables)@) && !(right is Float);
    let ghost bound = variables@;
    proof {
        if quiet {
            assert forall|k: int| 0 <= k < bound.len() implies !((#[trigger] bound[k]).1
                is Float) by {
                if k < old(variables)@.len() {
                    assert(bound[k] == old(variables)@[k]);
                }
            }
        }
    }
    let before = *variables.get(slot);
    let mut current = before;
    let out = apply_assignment(b, &mut current, &right, unit);
    variables.set(slot, current);
    proof {
        if quiet {
            let none = |o: FloatOp, x: u64, y: u64| 0u64;
            lemma_assignment_stores_no_float(b, before, right, none);
            assert(current == assigned(before, assignment_outcome(b, before, right, none)));
            assert forall|k: int| 0 <= k < variables@.len() implies !((#[trigger] variables@[k]).1
                is Float) by {
                if k != slot {
                    assert(variables@[k] == bound[k]);
                }
            }
        }
    }
    conclude(out, Operator::Binary(b), pair_of(before, right), across, node_span)
}

/// Evaluates a binary node.
fn evaluate_binary<
    U: Fn(FloatOp, u64, u64) -> u64,
    H: Fn(usize, &Vec<Value>) -> Result<Value, Error>,
>(
    expr: &Spanned<Expr>,
    variables: &mut Environment,
    macros: &MacroTable,
    functions: &FunctionRegistry,
    unit: &U,
    host: &H,
    depth: usize,
) -> (r: Result<EvalResult, Spanned<Error>>)
    requires
        forall|o: FloatOp, x: u64, y: u64| call_requires(unit, (o, x, y)),
        forall|id: usize, values: &Vec<Value>| call_requires(host, (id, values)),
    ensures
        r matches Ok(EvalResult::Ref(slot)) ==> slot < final(variables)@.len(),
        persists(old(variables)@, final(variables)@),
        float_free(expr@, old(variables)@, macros@, functions@) ==> holds_no_float(
            final(variables)@,
        ) && is_no_float(r),
        float_free(expr@, old(variables)@, macros@, functions@) ==> forall|
            fl: spec_fn(FloatOp, u64, u64) -> u64,
            hosted: spec_fn(usize, Seq<Value>) -> Result<Value, ErrorModel>,
        |
            ({
                let ev = evaluated_binary(
                    expr@,
                    old(variables)@,
                    #[trigger] context(macros@, functions@, fl, hosted),
                    depth as nat,
                );
                final(variables)@ == ev.variables && result_model(r) == ev.result
            }),
        forall|
            fl: spec_fn(FloatOp, u64, u64) -> u64,
            hosted: spec_fn(usize, Seq<Value>) -> Result<Value, ErrorModel>,
        | #[trigger]
            runs(unit, host, fl, hosted) ==> ({
                let ev = evaluated_binary(
                    expr@,
                    old(variables)@,
                    context(macros@, functions@, fl, hosted),
                    depth as nat,
                );
                final(variables)@ == ev.variables && result_model(r) == ev.result
            }),
    decreases depth, expr, 1int,
{
    match &expr.data {
        Expr::Binary { op, lhs, rhs } => {
            let across = Span { start: lhs.span.start, end: rhs.span.end };
            match *op {
                Operator::Binary(b) => {
                    if is_assign(*op) {
                        let right = match evaluate_operand(
                            rhs,
                            variables,
                            macros,
                            functions,
                            unit,
                            host,
                            depth,
                        ) {
                            Ok(v) => v,
                            Err(e) => {
                                return Err(e);
                            },
                        };
                        match &lhs.data {
                            Expr::Identifier(name) => assign_to(
                                expr.span,
                                across,
                                b,
                                name,
                                variables,
                                right,
                                macros,
                                functions,
                                unit,
                                host,
                            ),
                            _ => Err(
                                error_over(
                                    across,
                                    Error::EvalError(EvalError::NotAssignable { op: *op }),
                                ),
                            ),
                        }
                    } else {
                        let left = match evaluate_operand(
                            lhs,
                            variables,
                            macros,
                            functions,
                            unit,
                            host,
                            depth,
                        ) {
                            Ok(v) => v,
                            Err(e) => {
                                return Err(e);
                            },
                        };
                        if is_cond(*op) {
                            let decided = match left.promote(ValueType::Boolean) {
                                Some(Value::Boolean(l)) => (b == BinaryOp::And && !l) || (b
                                    == BinaryOp::Or && l),
                                _ => false,
                            };
                            if decided {
                                return Ok(EvalResult::Value(Value::Boolean(b == BinaryOp::Or)));
                            }
                        }
                        let right = match evaluate_operand(
                            rhs,
                            variables,
                            macros,
                            functions,
                            unit,
                            host,
                            depth,
                        ) {
                            Ok(v) => v,
                            Err(e) => {
                                return Err(e);
                            },
                        };
                        let out = apply_binary(b, &left, &right, unit);
                        proof {
                            if !(left is Float) && !(right is Float) {
                                let none = |o: FloatOp, x: u64, y: u64| 0u64;
                                lemma_binary_makes_no_float(b, left, right, none);
                                assert(outcome_of(out) == binary_outcome(b, left, right, none));
                            }
                        }
                        conclude(out, *op, pair_of(left, right), across, expr.span)
                    }
                },
                _ => {
                    match evaluate_operand(lhs, variables, macros, functions, unit, host, depth) {
                        Ok(_) => {},
                        Err(e) => {
                            return Err(e);
                        },
                    };
                    match evaluate_operand(rhs, variables, macros, functions, unit, host, depth) {
                        Ok(_) => {},
                        Err(e) => {
                            return Err(e);
                        },
                    };
                    Err(error_over(across, Error::UnexpectedError))
                },
            }
        },
        _ => Err(error_over(expr.span, Error::UnexpectedError)),
    }
}

/// Evaluates an expression, where macros may still nest `depth` deep: a
/// macro that is reached through more than `depth` macros fails. The
/// program that embeds the language chooses the depth;
/// [`evaluate_expr`] takes [`MAX_MACRO_DEPTH`].
pub fn evaluate_at<
    U: Fn(FloatOp, u64, u64) -> u64,
    H: Fn(usize, &Vec<Value>) -> Result<Value, Error>,
>(
    expr: &Spanned<Expr>,
    variables: &mut Environment,
    macros: &MacroTable,
    functions: &FunctionRegistry,
    unit: &U,
    host: &H,
    depth: usize,
) -> (r: Result<EvalResult, Spanned<Error>>)
    requires
        forall|o: FloatOp, x: u64, y: u64| call_requires(unit, (o, x, y)),
        forall|id: usize, values: &Vec<Value>| call_requires(host, (id, values)),
    ensures
        r matches Ok(EvalResult::Ref(slot)) ==> slot < final(variables)@.len(),
        persists(old(variables)@, final(variables)@),
        float_free(expr@, old(variables)@, macros@, functions@) ==> holds_no_float(
            final(variables)@,
        ) && is_no_float(r),
        float_free(expr@, old(variables)@, macros@, functions@) ==> forall|
            fl: spec_fn(FloatOp, u64, u64) -> u64,
            hosted: spec_fn(usize, Seq<Value>) -> Result<Value, ErrorModel>,
        |
            ({
                let ev = evaluated(
                    expr@,
                    old(variables)@,
                    #[trigger] context(macros@, functions@, fl, hosted),
                    depth as nat,
                );
                final(variables)@ == ev.variables && result_model(r) == ev.result
            }),
        forall|
            fl: spec_fn(FloatOp, u64, u64) -> u64,
            hosted: spec_fn(usize, Seq<Value>) -> Result<Value, ErrorModel>,
        | #[trigger]
            runs(unit, host, fl, hosted) ==> ({
                let ev = evaluated(
                    expr@,
                    old(variables)@,
                    context(macros@, functions@, fl, hosted),
                    depth as nat,
                );
                final(variables)@ == ev.variables && result_model(r) == ev.result
            }),
    decreases depth, expr, 2int,
{
    match &expr.data {
        Expr::Value(v) => Ok(EvalResult::Value(*v)),
        Expr::Identifier(s) => {
            match variables.find(s.as_str()) {
                Some(slot) => Ok(EvalResult::Ref(slot)),
                None => Err(error_over(expr.span, missing_name(NameKind::Variable, s))),
            }
        },
        Expr::Macro(s) => {
            let found = macros.find(s.as_str());
            proof {
                lemma_macro_slot(macros@, s@);
            }
            match found {
                Some(slot) => {
                    if depth == 0 {
                        Err(error_over(expr.span, Error::UnexpectedError))
                    } else {
                        evaluate_at(
                            macros.get(slot),
                            variables,
                            macros,
                            functions,
                            unit,
                            host,
                            depth - 1,
                        )
                    }
                },
                None => Err(error_over(expr.span, missing_name(NameKind::Macro, s))),
            }
        },
        Expr::Binary { op, lhs, rhs } => evaluate_binary(
            expr,
            variables,
            macros,
            functions,
            unit,
            host,
            depth,
        ),
        Expr::Unary { op, rhs } => {
            let value = match evaluate_operand(rhs, variables, macros, functions, unit, host, depth) {
                Ok(v) => v,
                Err(e) => {
                    return Err(e);
                },
            };
            let span = expr.span.merge(&rhs.span);
            match *op {
                Operator::Unary(u) => {
                    let out = apply_unary(u, &value);
                    proof {
                        if !(value is Float) {
                            lemma_unary_makes_no_float(u, value);
                        }
                    }
                    conclude(out, *op, one_of(value), span, span)
                },
                _ => Err(error_over(span, Error::UnexpectedError)),
            }
        },
        Expr::Ternary { cond, statement1, statement2 } => {
            let cond_value = match evaluate_operand(
                cond,
                variables,
                macros,
                functions,
                unit,
                host,
                depth,
            ) {
                Ok(v) => v,
                Err(e) => {
                    return Err(e);
                },
            };
            let chosen = match cond_value.promote(ValueType::Boolean) {
                Some(Value::Boolean(b)) => b,
                _ => false,
            };
            if chosen {
                evaluate_at(statement1, variables, macros, functions, unit, host, depth)
            } else {
                evaluate_at(statement2, variables, macros, functions, unit, host, depth)
            }
        },
        Expr::Call { func, args } => {
            proof {
                lemma_list_models(*args, *func);
            }
            let over = Span {
                start: func.span.start,
                end: if args.len() > 0 {
                    args[args.len() - 1].span.end
                } else {
                    func.span.end
                },
            };
            match &func.data {
                Expr::Identifier(s) => {
                    let f = match functions.find(s.as_str()) {
                        Some(slot) => *functions.get(slot),
                        None => {
                            return Err(error_over(over, missing_name(NameKind::Function, s)));
                        },
                    };
                    let values = match evaluate_arguments(
                        args,
                        0,
                        variables,
                        Vec::new(),
                        macros,
                        functions,
                        unit,
                        host,
                        depth,
                    ) {
                        Ok(values) => values,
                        Err(e) => {
                            return Err(e);
                        },
                    };
                    proof {
                        if f matches Function::Builtin(b) && b != Builtin::ToFloat && no_float(
                            values@,
                        ) {
                            lemma_builtin_makes_no_float(f->Builtin_0, values@);
                        }
                    }
                    match invoke(f, &values, host) {
                        Ok(v) => Ok(EvalResult::Value(v)),
                        Err(err) => Err(error_over(over, err)),
                    }
                },
                _ => Err(error_over(expr.span, Error::UnexpectedError)),
            }
        },
        Expr::Comma { exprs } => {
            proof {
                lemma_list_models(*exprs, arbitrary());
            }
            if exprs.len() == 0 {
                Err(error_over(expr.span, Error::UnexpectedError))
            } else {
                evaluate_sequence(exprs, 0, variables, macros, functions, unit, host, depth)
            }
        },
    }
}

/// Binds a copy of `expr` to the macro name `name`, in place of what the name
/// was bound to, if it was bound.
pub fn define_macro(macros: &mut MacroTable, name: &str, expr: &Spanned<Expr>) -> (slot: usize)
    ensures
        slot < final(macros)@.len(),
        index_of(final(macros)@, name@) == Some(slot as int),
        final(macros)@.len() == if index_of(old(macros)@, name@) is Some {
            old(macros)@.len()
        } else {
            old(macros)@.len() + 1
        },
        final(macros)@[slot as int].0 == name@,
        final(macros)@[slot as int].1@ == expr@,
        forall|i: int|
            0 <= i < old(macros)@.len() && i != slot ==> final(macros)@[i] == old(macros)@[i],
{
    let copy = Spanned { span: expr.span, data: expr.data.clone() };
    let slot = macros.insert(name, copy);
    proof {
        let before = old(macros)@;
        match index_of(before, name@) {
            Some(i) => {
                assert(macros@ == before.update(i, (name@, copy)));
            },
            None => {
                assert(macros@ == before.push((name@, copy)));
            },
        }
    }
    slot
}

/// Evaluates an expression.
///
/// `variables` holds the variables and is changed by assignments; what was
/// assigned before a failure stays assigned. `user_def_functions` holds the
/// macros, `functions` the functions that calls can name, and `unit` performs
/// the float operations. The result is a value, or the slot in `variables` of
/// the variable that the expression names.
pub fn evaluate_expr<
    U: Fn(FloatOp, u64, u64) -> u64,
    H: Fn(usize, &Vec<Value>) -> Result<Value, Error>,
>(
    expr: &Spanned<Expr>,
    variables: &mut Environment,
    user_def_functions: &MacroTable,
    functions: &FunctionRegistry,
    unit: &U,
    host: &H,
) -> (r: Result<EvalResult, Spanned<Error>>)
    requires
        forall|o: FloatOp, x: u64, y: u64| call_requires(unit, (o, x, y)),
        forall|id: usize, values: &Vec<Value>| call_requires(host, (id, values)),
    ensures
        r matches Ok(EvalResult::Ref(slot)) ==> slot < final(variables)@.len(),
        persists(old(variables)@, final(variables)@),
        float_free(expr@, old(variables)@, user_def_functions@, functions@) ==> holds_no_float(
            final(variables)@,
        ) && is_no_float(r) && forall|
            fl: spec_fn(FloatOp, u64, u64) -> u64,
            hosted: spec_fn(usize, Seq<Value>) -> Result<Value, ErrorModel>,
        |
            ({
                let ev = evaluated(
                    expr@,
                    old(variables)@,
                    #[trigger] context(user_def_functions@, functions@, fl, hosted),
                    MAX_MACRO_DEPTH as nat,
                );
                final(variables)@ == ev.variables && result_model(r) == ev.result
            }),
        forall|
            fl: spec_fn(FloatOp, u64, u64) -> u64,
            hosted: spec_fn(usize, Seq<Value>) -> Result<Value, ErrorModel>,
        | #[trigger]
            runs(unit, host, fl, hosted) ==> ({
                let ev = evaluated(
                    expr@,
                    old(variables)@,
                    context(user_def_functions@, functions@, fl, hosted),
                    MAX_MACRO_DEPTH as nat,
                );
                final(variables)@ == ev.variables && result_model(r) == ev.result
            }),
{
    evaluate_at(expr, variables, user_def_functions, functions, unit, host, MAX_MACRO_DEPTH)
}

} // verus!
