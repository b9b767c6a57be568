//! The lexer: source text to a sequence of spanned tokens.
//!
//! The text is read as bytes. At each position, after white space, the
//! recognizers are tried in a fixed order: the literals `true` and `false`, a
//! number, an operator, an identifier. A number that has been read but has no
//! value (no digit beside its `_` separators, an integer outside the 64-bit
//! range, a float that `parse_float` refuses) ends lexing with an error at the
//! byte that follows it.

use crate::error::{Error, ErrorModel, LexingError, LexingErrorModel};
use crate::operator::{BinaryOp, GroupingOp, Operator, TernaryOp};
use crate::span::{Span, Spanned};
use crate::token::{Token, TokenModel};
use crate::value::Value;
use vstd::prelude::*;
use vstd::string::StringSliceAdditionalSpecFns;

verus! {

/// Space, tab, line feed, form feed or carriage return.
pub open spec fn is_space(b: u8) -> bool {
    b == 0x20 || b == 0x09 || b == 0x0A || b == 0x0C || b == 0x0D
}

/// An ASCII digit.
pub open spec fn is_digit(b: u8) -> bool {
    0x30 <= b <= 0x39
}

/// A digit or the separator `_`.
pub open spec fn is_digit_like(b: u8) -> bool {
    is_digit(b) || b == 0x5F
}

/// An ASCII letter.
pub open spec fn is_letter(b: u8) -> bool {
    (0x41 <= b <= 0x5A) || (0x61 <= b <= 0x7A)
}

/// A byte that can start a name: a letter or `_`.
pub open spec fn is_name_start(b: u8) -> bool {
    is_letter(b) || b == 0x5F
}

/// A byte that can stand in a name: a letter, a digit or `_`.
pub open spec fn is_name_part(b: u8) -> bool {
    is_letter(b) || is_digit(b) || b == 0x5F
}

/// The first position at or after `pos` that holds no white space.
pub open spec fn skip_spaces(bytes: Seq<u8>, pos: int) -> int
    decreases bytes.len() - pos,
{
    if 0 <= pos < bytes.len() && is_space(bytes[pos]) {
        skip_spaces(bytes, pos + 1)
    } else {
        pos
    }
}

/// Whether the bytes of `word` stand at `pos`.
pub open spec fn has_word(bytes: Seq<u8>, pos: int, word: Seq<u8>) -> bool {
    0 <= pos && pos + word.len() <= bytes.len() && bytes.subrange(pos, pos + word.len()) == word
}

/// The end of the run of digits and `_` that starts at `pos`.
pub open spec fn digit_run_end(bytes: Seq<u8>, pos: int) -> int
    decreases bytes.len() - pos,
{
    if 0 <= pos < bytes.len() && is_digit_like(bytes[pos]) {
        digit_run_end(bytes, pos + 1)
    } else {
        pos
    }
}

/// The end of the run of name characters that starts at `pos`.
pub open spec fn name_run_end(bytes: Seq<u8>, pos: int) -> int
    decreases bytes.len() - pos,
{
    if 0 <= pos < bytes.len() && is_name_part(bytes[pos]) {
        name_run_end(bytes, pos + 1)
    } else {
        pos
    }
}

/// The digits among `bytes[from..to]`, as characters, without the `_` separators.
pub open spec fn digits_between(bytes: Seq<u8>, from: int, to: int) -> Seq<char>
    decreases to - from,
{
    if to <= from {
        Seq::empty()
    } else if bytes[to - 1] == 0x5F {
        digits_between(bytes, from, to - 1)
    } else {
        digits_between(bytes, from, to - 1).push(bytes[to - 1] as char)
    }
}

/// The number that the digits among `bytes[from..to]` write in decimal.
pub open spec fn decimal_between(bytes: Seq<u8>, from: int, to: int) -> nat
    decreases to - from,
{
    if to <= from {
        0
    } else if bytes[to - 1] == 0x5F {
        decimal_between(bytes, from, to - 1)
    } else {
        (decimal_between(bytes, from, to - 1) * 10 + (bytes[to - 1] - 0x30)) as nat
    }
}

/// How many digits stand among `bytes[from..to]`.
pub open spec fn digit_count(bytes: Seq<u8>, from: int, to: int) -> nat
    decreases to - from,
{
    if to <= from {
        0
    } else if bytes[to - 1] == 0x5F {
        digit_count(bytes, from, to - 1)
    } else {
        digit_count(bytes, from, to - 1) + 1
    }
}

/// The layout of the numeric text that starts at `pos`.
pub struct NumberShape {
    /// Whether it starts with `-`.
    pub negative: bool,
    /// Where the digits before the point start.
    pub whole_start: int,
    /// Where the digits before the point end.
    pub whole_end: int,
    /// Whether a `.` follows them.
    pub has_point: bool,
    /// Where the text ends.
    pub end: int,
}

impl NumberShape {
    /// Where the digits after the point start.
    pub open spec fn fraction_start(self) -> int {
        self.whole_end + 1
    }

    /// Whether a digit or a `_` was read before or after the point: only then is
    /// the text taken for a number.
    pub open spec fn taken(self) -> bool {
        self.whole_end > self.whole_start || (self.has_point && self.end > self.fraction_start())
    }
}

/// The layout of the longest numeric text at `pos`: an optional `-`, digits and
/// `_`, and optionally a `.` with more digits and `_`.
pub open spec fn number_shape(bytes: Seq<u8>, pos: int) -> NumberShape {
    let negative = 0 <= pos < bytes.len() && bytes[pos] == 0x2D;
    let whole_start = if negative { pos + 1 } else { pos };
    let whole_end = digit_run_end(bytes, whole_start);
    let has_point = 0 <= whole_end < bytes.len() && bytes[whole_end] == 0x2E;
    NumberShape {
        negative,
        whole_start,
        whole_end,
        has_point,
        end: if has_point { digit_run_end(bytes, whole_end + 1) } else { whole_end },
    }
}

/// The text of a float literal as it is handed to the float parser: the sign,
/// the digits, the point and the digits after it, without separators.
pub open spec fn float_literal_text(bytes: Seq<u8>, shape: NumberShape) -> Seq<char> {
    (if shape.negative { seq!['-'] } else { Seq::<char>::empty() })
        + digits_between(bytes, shape.whole_start, shape.whole_end)
        + seq!['.']
        + digits_between(bytes, shape.fraction_start(), shape.end)
}

/// The value of an integer literal: `None` when it has no digit or does not fit
/// in 64 bits.
pub open spec fn integer_literal(bytes: Seq<u8>, shape: NumberShape) -> Option<i64> {
    let magnitude = decimal_between(bytes, shape.whole_start, shape.whole_end);
    let v: int = if shape.negative { -(magnitude as int) } else { magnitude as int };
    if digit_count(bytes, shape.whole_start, shape.whole_end) == 0 || v < i64::MIN || v > i64::MAX {
        None
    } else {
        Some(v as i64)
    }
}

/// What the value recognizer finds at a position.
pub enum Scan {
    /// A token of the given length.
    Found(TokenModel, int),
    /// Text of the given length that was read as a number and has no value.
    Malformed(int),
    /// Nothing that this recognizer accepts.
    Absent,
}

/// The literal at `pos`: `true`, `false` or a number.
pub open spec fn value_at(
    bytes: Seq<u8>,
    pos: int,
    parse_float: spec_fn(Seq<char>) -> Option<u64>,
) -> Scan {
    let shape = number_shape(bytes, pos);
    if has_word(bytes, pos, seq![0x74u8, 0x72, 0x75, 0x65]) {
        Scan::Found(TokenModel::Value(Value::Boolean(true)), 4)
    } else if has_word(bytes, pos, seq![0x66u8, 0x61, 0x6C, 0x73, 0x65]) {
        Scan::Found(TokenModel::Value(Value::Boolean(false)), 5)
    } else if !shape.taken() {
        Scan::Absent
    } else if shape.has_point {
        match parse_float(float_literal_text(bytes, shape)) {
            Some(bits) => Scan::Found(TokenModel::Value(Value::Float(bits)), shape.end - pos),
            None => Scan::Malformed(shape.end - pos),
        }
    } else {
        match integer_literal(bytes, shape) {
            Some(v) => Scan::Found(TokenModel::Value(Value::Int(v)), shape.end - pos),
            None => Scan::Malformed(shape.end - pos),
        }
    }
}

/// Whether the two bytes `a`, `b` stand at `pos`.
pub open spec fn has_pair(bytes: Seq<u8>, pos: int, a: u8, b: u8) -> bool {
    0 <= pos && pos + 1 < bytes.len() && bytes[pos] == a && bytes[pos + 1] == b
}

/// Whether the three bytes `a`, `b`, `c` stand at `pos`.
pub open spec fn has_triple(bytes: Seq<u8>, pos: int, a: u8, b: u8, c: u8) -> bool {
    0 <= pos && pos + 2 < bytes.len() && bytes[pos] == a && bytes[pos + 1] == b && bytes[pos + 2]
        == c
}

/// The operator of one character.
pub open spec fn single_operator(b: u8) -> Option<Operator> {
    if b == 0x2B {
        Some(Operator::Binary(BinaryOp::Addition))
    } else if b == 0x2D {
        Some(Operator::Binary(BinaryOp::Subtraction))
    } else if b == 0x25 {
        Some(Operator::Binary(BinaryOp::Modulo))
    } else if b == 0x3D {
        Some(Operator::Binary(BinaryOp::Assign))
    } else if b == 0x2A {
        Some(Operator::Binary(BinaryOp::Multiplication))
    } else if b == 0x2F {
        Some(Operator::Binary(BinaryOp::Division))
    } else if b == 0x3C {
        Some(Operator::Binary(BinaryOp::Less))
    } else if b == 0x3E {
        Some(Operator::Binary(BinaryOp::Greater))
    } else if b == 0x26 {
        Some(Operator::Binary(BinaryOp::BitwiseAnd))
    } else if b == 0x7C {
        Some(Operator::Binary(BinaryOp::BitwiseOr))
    } else if b == 0x5E {
        Some(Operator::Binary(BinaryOp::BitwiseXor))
    } else if b == 0x28 {
        Some(Operator::Grouping(GroupingOp::LeftParen))
    } else if b == 0x29 {
        Some(Operator::Grouping(GroupingOp::RightParen))
    } else if b == 0x2C {
        Some(Operator::Grouping(GroupingOp::Comma))
    } else if b == 0x3F {
        Some(Operator::TernaryOp(TernaryOp::TernaryCond))
    } else if b == 0x3A {
        Some(Operator::TernaryOp(TernaryOp::TernaryElse))
    } else {
        None
    }
}

/// The operator of two characters whose second is `=`, by its first character.
pub open spec fn assigning_operator(b: u8) -> Option<BinaryOp> {
    if b == 0x3D {
        Some(BinaryOp::Equal)
    } else if b == 0x3C {
        Some(BinaryOp::LessEqual)
    } else if b == 0x3E {
        Some(BinaryOp::GreaterEqual)
    } else if b == 0x2B {
        Some(BinaryOp::AddAssign)
    } else if b == 0x2D {
        Some(BinaryOp::SubAssign)
    } else if b == 0x2A {
        Some(BinaryOp::MulAssign)
    } else if b == 0x2F {
        Some(BinaryOp::DivAssign)
    } else if b == 0x25 {
        Some(BinaryOp::ModAssign)
    } else if b == 0x26 {
        Some(BinaryOp::BitAndAssign)
    } else if b == 0x7C {
        Some(BinaryOp::BitOrAssign)
    } else if b == 0x5E {
        Some(BinaryOp::BitXorAssign)
    } else {
        None
    }
}

/// The operator at `pos` and its length: the longest of `&&=` and `||=`, then
/// `**` and the operators that end in `=`, then the operators of one character.
pub open spec fn operator_at(bytes: Seq<u8>, pos: int) -> Option<(Operator, int)> {
    if has_triple(bytes, pos, 0x26, 0x26, 0x3D) {
        Some((Operator::Binary(BinaryOp::AndAssign), 3))
    } else if has_triple(bytes, pos, 0x7C, 0x7C, 0x3D) {
        Some((Operator::Binary(BinaryOp::OrAssign), 3))
    } else if has_pair(bytes, pos, 0x2A, 0x2A) {
        Some((Operator::Binary(BinaryOp::Exponentiation), 2))
    } else if 0 <= pos && pos + 1 < bytes.len() && bytes[pos + 1] == 0x3D && assigning_operator(
        bytes[pos],
    ) is Some {
        Some((Operator::Binary(assigning_operator(bytes[pos])->Some_0), 2))
    } else if 0 <= pos < bytes.len() && single_operator(bytes[pos]) is Some {
        Some((single_operator(bytes[pos])->Some_0, 1))
    } else {
        None
    }
}

/// The length of the identifier at `pos`: 0 when none starts there.
pub open spec fn identifier_len(bytes: Seq<u8>, pos: int) -> int {
    if 0 <= pos < bytes.len() && is_name_start(bytes[pos]) {
        name_run_end(bytes, pos + 1) - pos
    } else {
        0
    }
}

/// The characters of `bytes[from..to]`, each byte taken as one character.
pub open spec fn chars_between(bytes: Seq<u8>, from: int, to: int) -> Seq<char> {
    Seq::new((to - from) as nat, |i: int| bytes[from + i] as char)
}

/// The token at `pos` and its length, or the position of the error.
pub open spec fn token_at(
    bytes: Seq<u8>,
    pos: int,
    parse_float: spec_fn(Seq<char>) -> Option<u64>,
) -> Result<(TokenModel, int), int> {
    match value_at(bytes, pos, parse_float) {
        Scan::Found(t, n) => Ok((t, n)),
        Scan::Malformed(n) => Err(pos + n),
        Scan::Absent => match operator_at(bytes, pos) {
            Some((op, n)) => Ok((TokenModel::Operator(op), n)),
            None => if identifier_len(bytes, pos) > 0 {
                Ok(
                    (
                        TokenModel::Identifier(
                            chars_between(bytes, pos, pos + identifier_len(bytes, pos)),
                        ),
                        identifier_len(bytes, pos),
                    ),
                )
            } else {
                Err(pos)
            },
        },
    }
}

/// The tokens of `bytes` from `pos` on, or the position of the first error.
pub open spec fn tokens_from(
    bytes: Seq<u8>,
    pos: int,
    parse_float: spec_fn(Seq<char>) -> Option<u64>,
) -> Result<Seq<Spanned<TokenModel>>, int>
    decreases bytes.len() - pos,
{
    let start = skip_spaces(bytes, pos);
    if start < pos || start >= bytes.len() {
        Ok(Seq::empty())
    } else {
        match token_at(bytes, start, parse_float) {
            Err(i) => Err(i),
            Ok((t, n)) => if n <= 0 || start + n > bytes.len() {
                Err(start)
            } else {
                match tokens_from(bytes, start + n, parse_float) {
                    Err(i) => Err(i),
                    Ok(rest) => Ok(
                        seq![
                            Spanned {
                                span: Span { start: start as usize, end: (start + n) as usize },
                                data: t,
                            },
                        ] + rest,
                    ),
                }
            },
        }
    }
}

/// The tokens of a text, or the byte position at which no token can be read.
pub open spec fn tokens_of(
    bytes: Seq<u8>,
    parse_float: spec_fn(Seq<char>) -> Option<u64>,
) -> Result<Seq<Spanned<TokenModel>>, int> {
    tokens_from(bytes, 0, parse_float)
}

/// Whether the spans of the tokens lie one behind the other between `from`
/// and `limit`, and none is empty.
pub open spec fn spans_in_order(tokens: Seq<Spanned<TokenModel>>, from: int, limit: int) -> bool {
    &&& forall|i: int|
        0 <= i < tokens.len() ==> from <= (#[trigger] tokens[i]).span.start < tokens[i].span.end
            <= limit
    &&& forall|i: int, j: int|
        0 <= i < j < tokens.len() ==> (#[trigger] tokens[i]).span.end <= (
        #[trigger] tokens[j]).span.start
}

/// Whether the function `f` reads each float literal as `model` says.
pub open spec fn reads_floats<P: Fn(String) -> Option<u64>>(
    f: &P,
    model: spec_fn(Seq<char>) -> Option<u64>,
) -> bool {
    forall|text: String, r: Option<u64>| #[trigger]
        call_ensures(f, (text,), r) ==> r == model(text@)
}

/// Whether the text holds a point. A text without one holds no float
/// literal.
pub open spec fn holds_point(bytes: Seq<u8>) -> bool {
    bytes.contains(0x2Eu8)
}

/// Whether `model` says what is read of a text: it says what `f` reads, or
/// the text holds no float literal.
pub open spec fn reads_text<P: Fn(String) -> Option<u64>>(
    f: &P,
    model: spec_fn(Seq<char>) -> Option<u64>,
    with_floats: bool,
) -> bool {
    !with_floats || reads_floats(f, model)
}

/// The tokens of a vector, each with its names as sequences of characters.
pub open spec fn token_models(tokens: Seq<Spanned<Token>>) -> Seq<Spanned<TokenModel>> {
    Seq::new(tokens.len(), |i: int| tokens[i]@)
}

/// The error for a text in which no token can be read at byte `index`.
pub open spec fn invalid_token(src: Seq<char>, index: int) -> Spanned<ErrorModel> {
    Spanned {
        span: Span { start: index as usize, end: (index + 1) as usize },
        data: ErrorModel::LexingError(
            LexingErrorModel::InvalidToken { src, index: index as usize },
        ),
    }
}

struct Cursor<'a> {
    src: &'a [u8],
    i: usize,
}

impl<'a> Cursor<'a> {
    spec fn well_formed(&self) -> bool {
        self.i <= self.src@.len()
    }

    fn new(src: &'a [u8]) -> (r: Self)
        ensures
            r.src == src,
            r.i == 0,
            r.well_formed(),
    {
        Cursor { src, i: 0 }
    }

    fn is_eof(&self) -> (r: bool)
        ensures
            r == (self.i >= self.src@.len()),
    {
        self.i >= self.src.len()
    }

    /// The byte `offset` positions after the cursor, if there is one.
    fn peek_at(&self, offset: usize) -> (r: Option<u8>)
        requires
            self.well_formed(),
        ensures
            r == if self.i + offset < self.src@.len() {
                Some(self.src@[self.i + offset])
            } else {
                None
            },
    {
        if offset < self.src.len() - self.i {
            Some(self.src[self.i + offset])
        } else {
            None
        }
    }

    fn peek(&self) -> (r: Option<u8>)
        requires
            self.well_formed(),
        ensures
            r == if self.i < self.src@.len() {
                Some(self.src@[self.i as int])
            } else {
                None
            },
    {
        self.peek_at(0)
    }

    fn advance(&mut self, n: usize) -> (r: bool)
        requires
            old(self).i + n <= old(self).src@.len(),
        ensures
            final(self).src == old(self).src,
            final(self).i == old(self).i + n,
            final(self).well_formed(),
            r == (final(self).i >= final(self).src@.len()),
    {
        let len = self.src.len();
        self.i = self.i + n;
        self.i >= len
    }
}

fn byte_is_space(b: u8) -> (r: bool)
    ensures
        r == is_space(b),
{
    b == 0x20 || b == 0x09 || b == 0x0A || b == 0x0C || b == 0x0D
}

fn byte_is_digit_like(b: u8) -> (r: bool)
    ensures
        r == is_digit_like(b),
{
    (0x30 <= b && b <= 0x39) || b == 0x5F
}

fn byte_is_name_start(b: u8) -> (r: bool)
    ensures
        r == is_name_start(b),
{
    (0x41 <= b && b <= 0x5A) || (0x61 <= b && b <= 0x7A) || b == 0x5F
}

fn byte_is_name_part(b: u8) -> (r: bool)
    ensures
        r == is_name_part(b),
{
    (0x41 <= b && b <= 0x5A) || (0x61 <= b && b <= 0x7A) || (0x30 <= b && b <= 0x39) || b == 0x5F
}

/// Moves the cursor past white space; tells whether it moved.
fn lex_ws(cursor: &mut Cursor) -> (r: bool)
    requires
        old(cursor).well_formed(),
    ensures
        final(cursor).src == old(cursor).src,
        final(cursor).i == skip_spaces(old(cursor).src@, old(cursor).i as int),
        final(cursor).well_formed(),
        skip_spaces(old(cursor).src@, final(cursor).i as int) == final(cursor).i,
        old(cursor).i <= final(cursor).i,
        r == (final(cursor).i != old(cursor).i),
{
    let start = cursor.i;
    while cursor.i < cursor.src.len() && byte_is_space(cursor.src[cursor.i])
        invariant
            cursor.src == old(cursor).src,
            start <= cursor.i <= cursor.src@.len(),
            skip_spaces(cursor.src@, start as int) == skip_spaces(cursor.src@, cursor.i as int),
        decreases cursor.src@.len() - cursor.i,
    {
        cursor.i = cursor.i + 1;
    }
    cursor.i != start
}

fn operator_token(cursor: &mut Cursor, op: Operator, n: usize) -> (r: Option<Spanned<Token>>)
    requires
        old(cursor).i + n <= old(cursor).src@.len(),
    ensures
        final(cursor).src == old(cursor).src,
        final(cursor).i == old(cursor).i + n,
        final(cursor).well_formed(),
        r == Some(
            Spanned {
                span: Span { start: old(cursor).i, end: (old(cursor).i + n) as usize },
                data: Token::Operator(op),
            },
        ),
{
    cursor.advance(n);
    Some(Spanned { span: Span::from(cursor.i - n, n), data: Token::Operator(op) })
}

fn assigning_operator_of(b: u8) -> (r: Option<BinaryOp>)
    ensures
        r == assigning_operator(b),
{
    if b == 0x3D {
        Some(BinaryOp::Equal)
    } else if b == 0x3C {
        Some(BinaryOp::LessEqual)
    } else if b == 0x3E {
        Some(BinaryOp::GreaterEqual)
    } else if b == 0x2B {
        Some(BinaryOp::AddAssign)
    } else if b == 0x2D {
        Some(BinaryOp::SubAssign)
    } else if b == 0x2A {
        Some(BinaryOp::MulAssign)
    } else if b == 0x2F {
        Some(BinaryOp::DivAssign)
    } else if b == 0x25 {
        Some(BinaryOp::ModAssign)
    } else if b == 0x26 {
        Some(BinaryOp::BitAndAssign)
    } else if b == 0x7C {
        Some(BinaryOp::BitOrAssign)
    } else if b == 0x5E {
        Some(BinaryOp::BitXorAssign)
    } else {
        None
    }
}

fn single_operator_of(b: u8) -> (r: Option<Operator>)
    ensures
        r == single_operator(b),
{
    if b == 0x2B {
        Some(Operator::Binary(BinaryOp::Addition))
    } else if b == 0x2D {
        Some(Operator::Binary(BinaryOp::Subtraction))
    } else if b == 0x25 {
        Some(Operator::Binary(BinaryOp::Modulo))
    } else if b == 0x3D {
        Some(Operator::Binary(BinaryOp::Assign))
    } else if b == 0x2A {
        Some(Operator::Binary(BinaryOp::Multiplication))
    } else if b == 0x2F {
        Some(Operator::Binary(BinaryOp::Division))
    } else if b == 0x3C {
        Some(Operator::Binary(BinaryOp::Less))
    } else if b == 0x3E {
        Some(Operator::Binary(BinaryOp::Greater))
    } else if b == 0x26 {
        Some(Operator::Binary(BinaryOp::BitwiseAnd))
    } else if b == 0x7C {
        Some(Operator::Binary(BinaryOp::BitwiseOr))
    } else if b == 0x5E {
        Some(Operator::Binary(BinaryOp::BitwiseXor))
    } else if b == 0x28 {
        Some(Operator::Grouping(GroupingOp::LeftParen))
    } else if b == 0x29 {
        Some(Operator::Grouping(GroupingOp::RightParen))
    } else if b == 0x2C {
        Some(Operator::Grouping(GroupingOp::Comma))
    } else if b == 0x3F {
        Some(Operator::TernaryOp(TernaryOp::TernaryCond))
    } else if b == 0x3A {
        Some(Operator::TernaryOp(TernaryOp::TernaryElse))
    } else {
        None
    }
}

/// Reads the operator at the cursor, the longest first.
fn lex_operator(cursor: &mut Cursor) -> (r: Option<Spanned<Token>>)
    requires
        old(cursor).well_formed(),
    ensures
        final(cursor).src == old(cursor).src,
        final(cursor).well_formed(),
        match operator_at(old(cursor).src@, old(cursor).i as int) {
            Some((op, n)) => final(cursor).i == old(cursor).i + n && r == Some(
                Spanned {
                    span: Span { start: old(cursor).i, end: (old(cursor).i + n) as usize },
                    data: Token::Operator(op),
                },
            ),
            None => final(cursor).i == old(cursor).i && r is None,
        },
{
    let first = match cursor.peek() {
        Some(b) => b,
        None => {
            return None;
        },
    };
    let second = cursor.peek_at(1);
    let third = cursor.peek_at(2);
    if first == 0x26 && second == Some(0x26u8) && third == Some(0x3Du8) {
        return operator_token(cursor, Operator::Binary(BinaryOp::AndAssign), 3);
    }
    if first == 0x7C && second == Some(0x7Cu8) && third == Some(0x3Du8) {
        return operator_token(cursor, Operator::Binary(BinaryOp::OrAssign), 3);
    }
    if first == 0x2A && second == Some(0x2Au8) {
        return operator_token(cursor, Operator::Binary(BinaryOp::Exponentiation), 2);
    }
    if second == Some(0x3Du8) {
        if let Some(op) = assigning_operator_of(first) {
            return operator_token(cursor, Operator::Binary(op), 2);
        }
    }
    match single_operator_of(first) {
        Some(op) => operator_token(cursor, op, 1),
        None => None,
    }
}

/// Moves past the digits and `_` at `*i`, appending the digits to `text` and
/// adding them to the decimal number in `acc`, which stops counting once the
/// number has passed `2^63`.
fn read_digits(
    src: &[u8],
    i: &mut usize,
    text: &mut String,
    acc: &mut u64,
    over: &mut bool,
    count: &mut usize,
)
    requires
        *old(i) <= src@.len(),
        *old(acc) == 0,
        !*old(over),
        *old(count) == 0,
    ensures
        *final(i) == digit_run_end(src@, *old(i) as int),
        *old(i) <= *final(i) <= src@.len(),
        final(text)@ == old(text)@ + digits_between(src@, *old(i) as int, *final(i) as int),
        *final(count) == digit_count(src@, *old(i) as int, *final(i) as int),
        *final(over) == (decimal_between(src@, *old(i) as int, *final(i) as int)
            > 0x8000_0000_0000_0000),
        !*final(over) ==> *final(acc) == decimal_between(src@, *old(i) as int, *final(i) as int),
{
    let start = *i;
    proof {
        assert(text@ =~= old(text)@ + digits_between(src@, start as int, start as int));
    }
    while *i < src.len() && byte_is_digit_like(src[*i])
        invariant
            start <= *i <= src@.len(),
            digit_run_end(src@, start as int) == digit_run_end(src@, *i as int),
            text@ == old(text)@ + digits_between(src@, start as int, *i as int),
            *count == digit_count(src@, start as int, *i as int),
            *count <= *i - start,
            *over == (decimal_between(src@, start as int, *i as int) > 0x8000_0000_0000_0000),
            !*over ==> *acc == decimal_between(src@, start as int, *i as int),
        decreases src@.len() - *i,
    {
        let b = src[*i];
        if b != 0x5F {
            text.push(b as char);
            *count = *count + 1;
            if !*over {
                let d: u64 = (b - 0x30) as u64;
                if *acc > 0x0CCC_CCCC_CCCC_CCCC {
                    *over = true;
                } else {
                    let next = *acc * 10 + d;
                    if next > 0x8000_0000_0000_0000 {
                        *over = true;
                    } else {
                        *acc = next;
                    }
                }
            }
        }
        *i = *i + 1;
        proof {
            assert(text@ =~= old(text)@ + digits_between(src@, start as int, *i as int));
        }
    }
}

/// Reads the literal at the cursor: `true`, `false` or a number.
///
/// Returns `None` with the cursor unmoved where no literal starts, and `None`
/// with the cursor behind the text where a number was read that has no value.
fn lex_value<P: Fn(String) -> Option<u64>>(cursor: &mut Cursor, parse_float: &P) -> (r: Option<
    Spanned<Token>,
>)
    requires
        old(cursor).well_formed(),
        forall|text: String| call_requires(parse_float, (text,)),
    ensures
        final(cursor).src == old(cursor).src,
        final(cursor).well_formed(),
        old(cursor).i <= final(cursor).i,
        r is Some ==> old(cursor).i < final(cursor).i && r->Some_0.span == (Span {
            start: old(cursor).i,
            end: final(cursor).i,
        }),
        forall|pf: spec_fn(Seq<char>) -> Option<u64>| #[trigger]
            reads_text(parse_float, pf, holds_point(old(cursor).src@)) ==> match value_at(
                old(cursor).src@,
                old(cursor).i as int,
                pf,
            ) {
                Scan::Found(t, n) => n > 0 && final(cursor).i == old(cursor).i + n && r is Some
                    && r->Some_0@ == (Spanned {
                    span: Span { start: old(cursor).i, end: (old(cursor).i + n) as usize },
                    data: t,
                }),
                Scan::Malformed(n) => n > 0 && final(cursor).i == old(cursor).i + n && r is None,
                Scan::Absent => final(cursor).i == old(cursor).i && r is None,
            },
{
    let ghost bytes = cursor.src@;
    let ghost pos = cursor.i as int;
    let b0 = cursor.peek_at(0);
    let b1 = cursor.peek_at(1);
    let b2 = cursor.peek_at(2);
    let b3 = cursor.peek_at(3);
    let b4 = cursor.peek_at(4);
    if b0 == Some(0x74u8) && b1 == Some(0x72u8) && b2 == Some(0x75u8) && b3 == Some(0x65u8) {
        proof {
            assert(bytes.subrange(pos, pos + 4) =~= seq![0x74u8, 0x72, 0x75, 0x65]);
        }
        cursor.advance(4);
        return Some(
            Spanned { span: Span::from(cursor.i - 4, 4), data: Token::Value(Value::Boolean(true)) },
        );
    }
    proof {
        if has_word(bytes, pos, seq![0x74u8, 0x72, 0x75, 0x65]) {
            let w = bytes.subrange(pos, pos + 4);
            assert(w[0] == 0x74 && w[1] == 0x72 && w[2] == 0x75 && w[3] == 0x65);
        }
    }
    if b0 == Some(0x66u8) && b1 == Some(0x61u8) && b2 == Some(0x6Cu8) && b3 == Some(0x73u8) && b4
        == Some(0x65u8) {
        proof {
            assert(bytes.subrange(pos, pos + 5) =~= seq![0x66u8, 0x61, 0x6C, 0x73, 0x65]);
        }
        cursor.advance(5);
        return Some(
            Spanned {
                span: Span::from(cursor.i - 5, 5),
                data: Token::Value(Value::Boolean(false)),
            },
        );
    }
    proof {
        if has_word(bytes, pos, seq![0x66u8, 0x61, 0x6C, 0x73, 0x65]) {
            let w = bytes.subrange(pos, pos + 5);
            assert(w[0] == 0x66 && w[1] == 0x61 && w[2] == 0x6C && w[3] == 0x73 && w[4] == 0x65);
        }
    }
    let ghost shape = number_shape(bytes, pos);
    let src = cursor.src;
    let len = src.len();
    let mut i: usize = cursor.i;
    let mut num_str = String::new();
    let negative = b0 == Some(0x2Du8);
    if negative {
        num_str.push('-');
        i = i + 1;
    }
    let mut acc: u64 = 0;
    let mut over = false;
    let mut count: usize = 0;
    read_digits(src, &mut i, &mut num_str, &mut acc, &mut over, &mut count);
    let seen_digit = i > (if negative { cursor.i + 1 } else { cursor.i });
    let seen_fpoint = i < src.len() && src[i] == 0x2E;
    proof {
        if seen_fpoint {
            assert(bytes[i as int] == 0x2Eu8);
        }
    }
    let mut seen_fract = false;
    if seen_fpoint {
        num_str.push('.');
        i = i + 1;
        let fraction_start = i;
        let mut fraction_acc: u64 = 0;
        let mut fraction_over = false;
        let mut fraction_count: usize = 0;
        read_digits(
            src,
            &mut i,
            &mut num_str,
            &mut fraction_acc,
            &mut fraction_over,
            &mut fraction_count,
        );
        seen_fract = i > fraction_start;
    }
    assert(i == shape.end);
    assert((seen_digit || seen_fract) == shape.taken());
    if !(seen_digit || seen_fract) {
        return None;
    }
    let n = i - cursor.i;
    cursor.advance(n);
    if seen_fpoint {
        proof {
            assert(num_str@ =~= float_literal_text(bytes, shape));
            assert(holds_point(bytes));
        }
        match parse_float(num_str) {
            Some(bits) => Some(
                Spanned { span: Span::from(cursor.i - n, n), data: Token::Value(Value::Float(bits)) },
            ),
            None => None,
        }
    } else {
        if count == 0 || over {
            return None;
        }
        let v: i64 = if negative {
            if acc == 0x8000_0000_0000_0000 {
                i64::MIN
            } else {
                -(acc as i64)
            }
        } else {
            if acc == 0x8000_0000_0000_0000 {
                return None;
            }
            acc as i64
        };
        Some(Spanned { span: Span::from(cursor.i - n, n), data: Token::Value(Value::Int(v)) })
    }
}

/// Reads the identifier at the cursor: a letter or `_`, then letters, digits
/// and `_`.
fn lex_identifier(cursor: &mut Cursor) -> (r: Option<Spanned<Token>>)
    requires
        old(cursor).well_formed(),
    ensures
        final(cursor).src == old(cursor).src,
        final(cursor).well_formed(),
        final(cursor).i == old(cursor).i + identifier_len(old(cursor).src@, old(cursor).i as int),
        old(cursor).i <= final(cursor).i,
        r is Some ==> old(cursor).i < final(cursor).i && r->Some_0.span == (Span {
            start: old(cursor).i,
            end: final(cursor).i,
        }),
        identifier_len(old(cursor).src@, old(cursor).i as int) > 0 ==> r is Some && r->Some_0@
            == (Spanned {
            span: Span { start: old(cursor).i, end: final(cursor).i },
            data: TokenModel::Identifier(
                chars_between(old(cursor).src@, old(cursor).i as int, final(cursor).i as int),
            ),
        }),
        identifier_len(old(cursor).src@, old(cursor).i as int) <= 0 ==> r is None,
{
    let src = cursor.src;
    let start = cursor.i;
    if !(start < src.len() && byte_is_name_start(src[start])) {
        return None;
    }
    let mut name = String::new();
    name.push(src[start] as char);
    let mut i: usize = start + 1;
    proof {
        assert(name@ =~= chars_between(src@, start as int, i as int));
    }
    while i < src.len() && byte_is_name_part(src[i])
        invariant
            start < i <= src@.len(),
            name_run_end(src@, start + 1) == name_run_end(src@, i as int),
            name@ == chars_between(src@, start as int, i as int),
        decreases src@.len() - i,
    {
        name.push(src[i] as char);
        i = i + 1;
        proof {
            assert(name@ =~= chars_between(src@, start as int, i as int));
        }
    }
    let n = i - start;
    cursor.advance(n);
    Some(Spanned { span: Span::from(cursor.i - n, n), data: Token::Identifier(name) })
}

/// Puts a sequence of tokens in front of what follows them.
pub open spec fn tokens_then(
    front: Seq<Spanned<TokenModel>>,
    rest: Result<Seq<Spanned<TokenModel>>, int>,
) -> Result<Seq<Spanned<TokenModel>>, int> {
    match rest {
        Ok(ts) => Ok(front + ts),
        Err(i) => Err(i),
    }
}

/// Reads one token at the cursor, which stands on a byte that is no white
/// space. Returns `None` with the cursor at the position of the error where
/// no token can be read.
fn lex_token<P: Fn(String) -> Option<u64>>(cursor: &mut Cursor, parse_float: &P) -> (r: Option<
    Spanned<Token>,
>)
    requires
        old(cursor).well_formed(),
        forall|text: String| call_requires(parse_float, (text,)),
    ensures
        final(cursor).src == old(cursor).src,
        final(cursor).well_formed(),
        old(cursor).i <= final(cursor).i,
        r is Some ==> old(cursor).i < final(cursor).i && r->Some_0.span == (Span {
            start: old(cursor).i,
            end: final(cursor).i,
        }),
        forall|pf: spec_fn(Seq<char>) -> Option<u64>| #[trigger]
            reads_text(parse_float, pf, holds_point(old(cursor).src@)) ==> match token_at(
                old(cursor).src@,
                old(cursor).i as int,
                pf,
            ) {
                Ok((t, n)) => r is Some && r->Some_0@.data == t && final(cursor).i == old(cursor).i
                    + n,
                Err(i) => r is None && final(cursor).i == i,
            },
{
    let entry = cursor.i;
    let value = lex_value(cursor, parse_float);
    if value.is_some() || cursor.i != entry {
        return value;
    }
    let operator = lex_operator(cursor);
    if operator.is_some() {
        return operator;
    }
    lex_identifier(cursor)
}

/// Splits a text into tokens.
///
/// Fails with `InvalidToken` at the first byte, after white space, at which no
/// token starts, or behind a number that has no value. The text of each float
/// literal is handed to `parse_float`, which returns the bits of the float.
pub fn lex_string<P: Fn(String) -> Option<u64>>(s: &str, parse_float: &P) -> (r: Result<
    Vec<Spanned<Token>>,
    Spanned<Error>,
>)
    requires
        s.spec_bytes().len() < usize::MAX,
        forall|text: String| call_requires(parse_float, (text,)),
    ensures
        r matches Ok(tokens) ==> spans_in_order(
            token_models(tokens@),
            0,
            s.spec_bytes().len() as int,
        ),
        r matches Err(e) ==> exists|i: int|
            0 <= i <= s.spec_bytes().len() && e@ == #[trigger] invalid_token(s@, i),
        !holds_point(s.spec_bytes()) ==> forall|pf: spec_fn(Seq<char>) -> Option<u64>|
            match #[trigger] tokens_of(s.spec_bytes(), pf) {
                Ok(ts) => r is Ok && token_models(r->Ok_0@) == ts,
                Err(i) => r is Err && r->Err_0@ == invalid_token(s@, i),
            },
        forall|pf: spec_fn(Seq<char>) -> Option<u64>| #[trigger]
            reads_floats(parse_float, pf) ==> match tokens_of(s.spec_bytes(), pf) {
                Ok(ts) => r is Ok && token_models(r->Ok_0@) == ts,
                Err(i) => r is Err && r->Err_0@ == invalid_token(s@, i),
            },
{
    let mut res: Vec<Spanned<Token>> = Vec::new();
    let bytes = s.as_bytes();
    let mut cursor = Cursor::new(bytes);
    lex_ws(&mut cursor);
    proof {
        assert(token_models(res@) =~= Seq::empty());
        assert forall|pf: spec_fn(Seq<char>) -> Option<u64>| #[trigger]
            reads_text(parse_float, pf, holds_point(bytes@)) implies tokens_of(bytes@, pf) == tokens_then(
            token_models(res@),
            tokens_from(bytes@, cursor.i as int, pf),
        ) by {
            lemma_tokens_after_spaces(bytes@, 0, pf);
            lemma_tokens_then_nothing(tokens_from(bytes@, cursor.i as int, pf));
        }
    }
    while !cursor.is_eof()
        invariant
            cursor.src == bytes,
            bytes@ == s.spec_bytes(),
            bytes@.len() < usize::MAX,
            cursor.well_formed(),
            cursor.i == skip_spaces(bytes@, cursor.i as int),
            spans_in_order(token_models(res@), 0, cursor.i as int),
            forall|text: String| call_requires(parse_float, (text,)),
            forall|pf: spec_fn(Seq<char>) -> Option<u64>| #[trigger]
                reads_text(parse_float, pf, holds_point(bytes@)) ==> tokens_of(bytes@, pf) == tokens_then(
                    token_models(res@),
                    tokens_from(bytes@, cursor.i as int, pf),
                ),
        decreases bytes@.len() - cursor.i,
    {
        let ghost before = token_models(res@);
        let ghost start = cursor.i as int;
        match lex_token(&mut cursor, parse_float) {
            Some(t) => {
                let ghost model = t@;
                let ghost next = cursor.i as int;
                res.push(t);
                lex_ws(&mut cursor);
                proof {
                    assert(token_models(res@) =~= before.push(model));
                    assert(spans_in_order(token_models(res@), 0, cursor.i as int)) by {
                        let now = token_models(res@);
                        assert forall|i: int| 0 <= i < now.len() implies 0 <= (
                        #[trigger] now[i]).span.start < now[i].span.end <= cursor.i by {
                            if i < before.len() {
                                assert(now[i] == before[i]);
                            }
                        }
                        assert forall|i: int, j: int| 0 <= i < j < now.len() implies (
                        #[trigger] now[i]).span.end <= (#[trigger] now[j]).span.start by {
                            assert(now[i] == before[i]);
                            if j < before.len() {
                                assert(now[j] == before[j]);
                            }
                        }
                    }
                    assert forall|pf: spec_fn(Seq<char>) -> Option<u64>| #[trigger]
                        reads_text(parse_float, pf, holds_point(bytes@)) implies tokens_of(bytes@, pf) == tokens_then(
                        token_models(res@),
                        tokens_from(bytes@, cursor.i as int, pf),
                    ) by {
                        lemma_tokens_step(bytes@, start, next, model, before, pf);
                    }
                }
            },
            None => {
                let at = cursor.i;
                let mut src = String::new();
                src.append(s);
                let err = Spanned {
                    span: Span::single(at),
                    data: Error::LexingError(LexingError::InvalidToken { src, index: at }),
                };
                proof {
                    assert(src@ =~= s@);
                    assert(err@ == invalid_token(s@, at as int));
                    assert forall|pf: spec_fn(Seq<char>) -> Option<u64>| #[trigger]
                        reads_floats(parse_float, pf) implies tokens_of(s.spec_bytes(), pf) == Err::<
                        Seq<Spanned<TokenModel>>,
                        int,
                    >(at as int) by {
                        assert(reads_text(parse_float, pf, holds_point(bytes@)));
                    }
                    if !holds_point(bytes@) {
                        assert forall|pf: spec_fn(Seq<char>) -> Option<u64>| #[trigger]
                            tokens_of(s.spec_bytes(), pf) == Err::<Seq<Spanned<TokenModel>>, int>(
                                at as int,
                            ) by {
                            assert(reads_text(parse_float, pf, holds_point(bytes@)));
                        }
                    }
                }
                return Err(err);
            },
        }
    }
    proof {
        assert forall|pf: spec_fn(Seq<char>) -> Option<u64>| #[trigger]
            reads_text(parse_float, pf, holds_point(bytes@)) implies tokens_of(bytes@, pf) == Ok::<
            Seq<Spanned<TokenModel>>,
            int,
        >(token_models(res@)) by {
            assert(token_models(res@) + Seq::empty() =~= token_models(res@));
        }
        assert forall|pf: spec_fn(Seq<char>) -> Option<u64>| #[trigger]
            reads_floats(parse_float, pf) implies tokens_of(bytes@, pf) == Ok::<
            Seq<Spanned<TokenModel>>,
            int,
        >(token_models(res@)) by {
            assert(reads_text(parse_float, pf, holds_point(bytes@)));
        }
        if !holds_point(bytes@) {
            assert forall|pf: spec_fn(Seq<char>) -> Option<u64>| #[trigger]
                tokens_of(bytes@, pf) == Ok::<Seq<Spanned<TokenModel>>, int>(
                    token_models(res@),
                ) by {
                assert(reads_text(parse_float, pf, holds_point(bytes@)));
            }
        }
    }
    Ok(res)
}

/// Lexing from a position and lexing from behind the white space at it give
/// the same tokens.
proof fn lemma_tokens_after_spaces(
    bytes: Seq<u8>,
    pos: int,
    pf: spec_fn(Seq<char>) -> Option<u64>,
)
    requires
        0 <= pos <= bytes.len(),
    ensures
        pos <= skip_spaces(bytes, pos) <= bytes.len(),
        skip_spaces(bytes, skip_spaces(bytes, pos)) == skip_spaces(bytes, pos),
        tokens_from(bytes, pos, pf) == tokens_from(bytes, skip_spaces(bytes, pos), pf),
    decreases bytes.len() - pos,
{
    if pos < bytes.len() && is_space(bytes[pos]) {
        lemma_tokens_after_spaces(bytes, pos + 1, pf);
    }
}

proof fn lemma_tokens_then_nothing(rest: Result<Seq<Spanned<TokenModel>>, int>)
    ensures
        tokens_then(Seq::empty(), rest) == rest,
{
    match rest {
        Ok(ts) => {
            assert(Seq::<Spanned<TokenModel>>::empty() + ts =~= ts);
        },
        Err(_) => {},
    }
}

/// One token read at `start`, with the tokens before it, leaves what follows
/// the token to be read.
proof fn lemma_tokens_step(
    bytes: Seq<u8>,
    start: int,
    next: int,
    model: Spanned<TokenModel>,
    before: Seq<Spanned<TokenModel>>,
    pf: spec_fn(Seq<char>) -> Option<u64>,
)
    requires
        0 <= start < next <= bytes.len(),
        bytes.len() < usize::MAX,
        skip_spaces(bytes, start) == start,
        token_at(bytes, start, pf) == Ok::<(TokenModel, int), int>((model.data, next - start)),
        model.span == (Span { start: start as usize, end: next as usize }),
    ensures
        tokens_then(before, tokens_from(bytes, start, pf)) == tokens_then(
            before.push(model),
            tokens_from(bytes, skip_spaces(bytes, next), pf),
        ),
{
    lemma_tokens_after_spaces(bytes, next, pf);
    let rest = tokens_from(bytes, next, pf);
    assert(tokens_from(bytes, start, pf) == tokens_then(seq![model], rest));
    match rest {
        Ok(ts) => {
            assert(before + (seq![model] + ts) =~= before.push(model) + ts);
        },
        Err(_) => {},
    }
}

} // verus!
