//! The lexer reads the text of an expression as the tokens that the expression
//! is written as, and so the parser reads the text as the expression.

use crate::lexer::{
    chars_between, decimal_between, digit_count, digit_run_end, digits_between,
    float_literal_text, has_word, identifier_len, integer_literal,
    is_digit, is_digit_like, is_letter, is_name_part, is_space, name_run_end,
    number_shape, operator_at, skip_spaces, token_at, tokens_from, tokens_then,
    value_at, Scan,
};
use crate::debug::{
    holds_float, juxtaposed, leads_with_call, left_parent, list_text, precedence, right_parent,
    text_of,
    CALLEE_PRECEDENCE, CONDITIONAL_PRECEDENCE,
};
use crate::operator::operator::{BinaryOp, GroupingOp, Operator, TernaryOp, UnaryOp};
use crate::parser::{
    binary_node, can_start_expression, is_operator, parse_of, parse_of_tokens,
    is_bare_name, opens_group, parsed_expression, parsed_infix, parsed_infixes, parsed_list, parsed_prefix, respanned,
    right_binding_power, sequence_start, ExprModel, COMMA_BP, ELSE_BP, IMPLICIT_MUL_BP, PREFIX_BP,
};
use crate::placement::{
    law_parsed_calls_are_placed, law_same_shape_same_text, lemma_shape_leads, lemma_shape_placed,
};
use crate::round_trip::{
    comma, formed, law_unparse_then_parse, lemma_respanned_shape, same_shape, token_data, unparse, unparse_body, unparse_list, writable,
};
use crate::span::{Span, Spanned};
use crate::text::{decimal_text, digit_char, signed_decimal_text};
use crate::lexer::tokens_of;
use crate::token::{binding_power, TokenModel};
use crate::value::{float_literal, Value};
use vstd::prelude::*;
use vstd::utf8::{encode_utf8, is_ascii_chars, is_ascii_chars_encode_utf8};

verus! {

/// Whether the bytes from `pos` on are the characters of `text`, which are
/// all ASCII.
pub open spec fn spells(bytes: Seq<u8>, pos: int, text: Seq<char>) -> bool {
    0 <= pos && pos + text.len() <= bytes.len() && forall|i: int|
        0 <= i < text.len() ==> spelled(#[trigger] bytes[pos + i], text[i])
}

/// Whether the byte is the ASCII character `c`.
pub open spec fn spelled(b: u8, c: char) -> bool {
    c <= '\u{7f}' && b == (c as u8)
}

/// The character that a byte spells is the character of the byte.
pub proof fn lemma_spelled(b: u8, c: char)
    requires
        spelled(b, c),
    ensures
        c == (b as char),
        b < 128,
{
}

/// Spelling a concatenation is spelling its parts one behind the other.
pub proof fn lemma_spells_split(bytes: Seq<u8>, pos: int, first: Seq<char>, second: Seq<char>)
    requires
        spells(bytes, pos, first + second),
    ensures
        spells(bytes, pos, first),
        spells(bytes, pos + first.len(), second),
{
    assert forall|i: int| 0 <= i < first.len() implies spelled(
        #[trigger] bytes[pos + i],
        first[i],
    ) by {
        assert((first + second)[i] == first[i]);
    }
    assert forall|i: int| 0 <= i < second.len() implies spelled(
        #[trigger] bytes[pos + first.len() + i],
        second[i],
    ) by {
        assert((first + second)[first.len() + i] == second[i]);
        assert(spelled(bytes[pos + (first.len() + i)], (first + second)[first.len() + i]));
    }
}

/// Whether neither a name nor a number that ends before `pos` could go on at
/// `pos`.
pub open spec fn ends_word(bytes: Seq<u8>, pos: int) -> bool {
    pos >= bytes.len() || (0 <= pos && !is_name_part(bytes[pos]) && bytes[pos] != 0x2E)
}

/// One token that is read at a byte that is no white space stands before the
/// tokens behind it.
pub proof fn lemma_token_read(
    bytes: Seq<u8>,
    pos: int,
    t: TokenModel,
    k: int,
    pf: spec_fn(Seq<char>) -> Option<u64>,
) -> (ts: Seq<Spanned<TokenModel>>)
    requires
        0 <= pos < bytes.len(),
        !is_space(bytes[pos]),
        token_at(bytes, pos, pf) == Ok::<(TokenModel, int), int>((t, k)),
        0 < k,
        pos + k <= bytes.len(),
    ensures
        ts.len() == 1,
        ts[0].data == t,
        tokens_from(bytes, pos, pf) == tokens_then(ts, tokens_from(bytes, pos + k, pf)),
{
    let ts = seq![Spanned { span: Span { start: pos as usize, end: (pos + k) as usize }, data: t }];
    match tokens_from(bytes, pos + k, pf) {
        Ok(rest) => {},
        Err(_) => {},
    }
    ts
}

/// White space before the tokens is passed over.
pub proof fn lemma_space_passed(bytes: Seq<u8>, pos: int, pf: spec_fn(Seq<char>) -> Option<u64>)
    requires
        0 <= pos < bytes.len(),
        is_space(bytes[pos]),
    ensures
        tokens_from(bytes, pos, pf) == tokens_from(bytes, pos + 1, pf),
{
    lemma_skip_bounds(bytes, pos + 1);
    assert(skip_spaces(bytes, pos) == skip_spaces(bytes, pos + 1));
    lemma_skip_idempotent(bytes, pos + 1);
}

proof fn lemma_skip_bounds(bytes: Seq<u8>, pos: int)
    requires
        0 <= pos <= bytes.len(),
    ensures
        pos <= skip_spaces(bytes, pos) <= bytes.len(),
    decreases bytes.len() - pos,
{
    if pos < bytes.len() && is_space(bytes[pos]) {
        lemma_skip_bounds(bytes, pos + 1);
    }
}

proof fn lemma_skip_idempotent(bytes: Seq<u8>, pos: int)
    requires
        0 <= pos <= bytes.len(),
    ensures
        skip_spaces(bytes, skip_spaces(bytes, pos)) == skip_spaces(bytes, pos),
    decreases bytes.len() - pos,
{
    if pos < bytes.len() && is_space(bytes[pos]) {
        lemma_skip_idempotent(bytes, pos + 1);
    }
}

/// Whether the lexer has a token for the operator: every binary operator but
/// `&&`, `||` and `!=`, the two operators of a conditional, the parentheses
/// and the comma.
pub open spec fn lexable_operator(op: Operator) -> bool {
    match op {
        Operator::Unary(_) => false,
        Operator::Binary(b) => b != BinaryOp::And && b != BinaryOp::Or && b != BinaryOp::NotEqual,
        _ => true,
    }
}

/// An operator that is followed by a space, or that is no binary operator, is
/// read as its token.
pub proof fn lemma_operator_read(
    bytes: Seq<u8>,
    pos: int,
    op: Operator,
    pf: spec_fn(Seq<char>) -> Option<u64>,
)
    requires
        lexable_operator(op),
        spells(bytes, pos, op.text()),
        op is Binary ==> pos + op.text().len() < bytes.len() && bytes[pos + op.text().len()]
            == 0x20,
    ensures
        0 <= pos < bytes.len(),
        !is_space(bytes[pos]),
        token_at(bytes, pos, pf) == Ok::<(TokenModel, int), int>(
            (TokenModel::Operator(op), op.text().len() as int),
        ),
{
    let text = op.text();
    assert(spelled(bytes[pos + 0], text[0]));
    if text.len() >= 2 {
        assert(spelled(bytes[pos + 1], text[1]));
    }
    if text.len() >= 3 {
        assert(spelled(bytes[pos + 2], text[2]));
    }
    let shape = number_shape(bytes, pos);
    assert(!is_digit_like(bytes[pos]));
    if bytes[pos] == 0x2D {
        assert(!is_digit_like(bytes[pos + 1]));
        assert(bytes[pos + 1] != 0x2E);
        assert(digit_run_end(bytes, pos + 1) == pos + 1);
    } else {
        assert(digit_run_end(bytes, pos) == pos);
    }
    assert(!shape.taken());
    assert(!has_word(bytes, pos, seq![0x74u8, 0x72, 0x75, 0x65])) by {
        if has_word(bytes, pos, seq![0x74u8, 0x72, 0x75, 0x65]) {
            assert(bytes.subrange(pos, pos + 4)[0] == 0x74);
        }
    }
    assert(!has_word(bytes, pos, seq![0x66u8, 0x61, 0x6C, 0x73, 0x65])) by {
        if has_word(bytes, pos, seq![0x66u8, 0x61, 0x6C, 0x73, 0x65]) {
            assert(bytes.subrange(pos, pos + 5)[0] == 0x66);
        }
    }
    assert(value_at(bytes, pos, pf) == Scan::Absent);
    assert(operator_at(bytes, pos) == Some((op, text.len() as int)));
}

/// `true` and `false` are read as the boolean literals.
pub proof fn lemma_boolean_read(
    bytes: Seq<u8>,
    pos: int,
    b: bool,
    pf: spec_fn(Seq<char>) -> Option<u64>,
)
    requires
        spells(bytes, pos, if b { "true"@ } else { "false"@ }),
    ensures
        0 <= pos < bytes.len(),
        !is_space(bytes[pos]),
        token_at(bytes, pos, pf) == Ok::<(TokenModel, int), int>(
            (TokenModel::Value(Value::Boolean(b)), if b { 4int } else { 5int }),
        ),
{
    reveal_strlit("true");
    reveal_strlit("false");
    let text = if b { "true"@ } else { "false"@ };
    assert(spelled(bytes[pos + 0], text[0]));
    assert(spelled(bytes[pos + 1], text[1]));
    assert(spelled(bytes[pos + 2], text[2]));
    assert(spelled(bytes[pos + 3], text[3]));
    if b {
        assert(bytes.subrange(pos, pos + 4) =~= seq![0x74u8, 0x72, 0x75, 0x65]);
    } else {
        assert(spelled(bytes[pos + 4], text[4]));
        assert(bytes.subrange(pos, pos + 5) =~= seq![0x66u8, 0x61, 0x6C, 0x73, 0x65]);
        if has_word(bytes, pos, seq![0x74u8, 0x72, 0x75, 0x65]) {
            assert(bytes.subrange(pos, pos + 4)[0] == 0x74);
        }
    }
}

/// Whether the characters are a name that the lexer reads as an identifier:
/// an ASCII letter, then ASCII letters, digits and `_`, and neither `true`
/// nor `false` at the start.
pub open spec fn is_identifier(name: Seq<char>) -> bool {
    &&& name.len() >= 1
    &&& forall|i: int| 0 <= i < name.len() ==> (#[trigger] name[i]) <= '\u{7f}' && is_name_part(
            name[i] as u8,
        )
    &&& is_letter(name[0] as u8)
    &&& !(name.len() >= 4 && name.subrange(0, 4) == "true"@)
    &&& !(name.len() >= 5 && name.subrange(0, 5) == "false"@)
}

/// A run of name characters ends where they end.
proof fn lemma_name_run(bytes: Seq<u8>, from: int, to: int)
    requires
        0 <= from <= to <= bytes.len(),
        forall|i: int| from <= i < to ==> is_name_part(#[trigger] bytes[i]),
        to == bytes.len() || !is_name_part(bytes[to]),
    ensures
        name_run_end(bytes, from) == to,
    decreases to - from,
{
    if from < to {
        lemma_name_run(bytes, from + 1, to);
    }
}

/// A run of digits ends where they end.
proof fn lemma_digit_run(bytes: Seq<u8>, from: int, to: int)
    requires
        0 <= from <= to <= bytes.len(),
        forall|i: int| from <= i < to ==> is_digit_like(#[trigger] bytes[i]),
        to == bytes.len() || !is_digit_like(bytes[to]),
    ensures
        digit_run_end(bytes, from) == to,
    decreases to - from,
{
    if from < to {
        lemma_digit_run(bytes, from + 1, to);
    }
}

/// A name that ends where no name goes on is read as an identifier.
pub proof fn lemma_identifier_read(
    bytes: Seq<u8>,
    pos: int,
    name: Seq<char>,
    pf: spec_fn(Seq<char>) -> Option<u64>,
)
    requires
        is_identifier(name),
        spells(bytes, pos, name),
        ends_word(bytes, pos + name.len()),
    ensures
        0 <= pos < bytes.len(),
        !is_space(bytes[pos]),
        token_at(bytes, pos, pf) == Ok::<(TokenModel, int), int>(
            (TokenModel::Identifier(name), name.len() as int),
        ),
{
    reveal_strlit("true");
    reveal_strlit("false");
    let end = pos + name.len();
    assert forall|i: int| pos <= i < end implies is_name_part(#[trigger] bytes[i]) by {
        assert(spelled(bytes[pos + (i - pos)], name[i - pos]));
    }
    assert(spelled(bytes[pos + 0], name[0]));
    lemma_name_run(bytes, pos + 1, end);
    assert(digit_run_end(bytes, pos) == pos);
    assert(!number_shape(bytes, pos).taken());
    if has_word(bytes, pos, seq![0x74u8, 0x72, 0x75, 0x65]) {
        let w = bytes.subrange(pos, pos + 4);
        assert(w[0] == 0x74 && w[1] == 0x72 && w[2] == 0x75 && w[3] == 0x65);
        if name.len() >= 4 {
            assert(spelled(bytes[pos + 1], name[1]));
            assert(spelled(bytes[pos + 2], name[2]));
            assert(spelled(bytes[pos + 3], name[3]));
            lemma_spelled(bytes[pos], name[0]);
            lemma_spelled(bytes[pos + 1], name[1]);
            lemma_spelled(bytes[pos + 2], name[2]);
            lemma_spelled(bytes[pos + 3], name[3]);
            assert(name[0] == 't' && name[1] == 'r' && name[2] == 'u' && name[3] == 'e');
            assert(name.subrange(0, 4) =~= "true"@);
        } else {
            assert(is_name_part(w[name.len() as int]));
        }
        assert(false);
    }
    if has_word(bytes, pos, seq![0x66u8, 0x61, 0x6C, 0x73, 0x65]) {
        let w = bytes.subrange(pos, pos + 5);
        assert(w[0] == 0x66 && w[1] == 0x61 && w[2] == 0x6C && w[3] == 0x73 && w[4] == 0x65);
        if name.len() >= 5 {
            assert(spelled(bytes[pos + 1], name[1]));
            assert(spelled(bytes[pos + 2], name[2]));
            assert(spelled(bytes[pos + 3], name[3]));
            assert(spelled(bytes[pos + 4], name[4]));
            lemma_spelled(bytes[pos], name[0]);
            lemma_spelled(bytes[pos + 1], name[1]);
            lemma_spelled(bytes[pos + 2], name[2]);
            lemma_spelled(bytes[pos + 3], name[3]);
            lemma_spelled(bytes[pos + 4], name[4]);
            assert(name[0] == 'f' && name[1] == 'a' && name[2] == 'l' && name[3] == 's' && name[4]
                == 'e');
            assert(name.subrange(0, 5) =~= "false"@);
        } else {
            assert(is_name_part(w[name.len() as int]));
        }
        assert(false);
    }
    assert(value_at(bytes, pos, pf) == Scan::Absent);
    assert(operator_at(bytes, pos) is None);
    assert(identifier_len(bytes, pos) == name.len());
    assert(chars_between(bytes, pos, end) =~= name) by {
        assert forall|i: int| 0 <= i < name.len() implies chars_between(bytes, pos, end)[i]
            == name[i] by {
            assert(spelled(bytes[pos + i], name[i]));
            lemma_spelled(bytes[pos + i], name[i]);
        }
    }
}

/// The decimal text of a number holds one digit or more, and digits only.
pub proof fn lemma_decimal_text_is_digits(n: nat)
    ensures
        decimal_text(n).len() >= 1,
        forall|i: int|
            0 <= i < decimal_text(n).len() ==> '0' <= (#[trigger] decimal_text(n)[i]) <= '9',
    decreases n,
{
    if n >= 10 {
        lemma_decimal_text_is_digits(n / 10);
    }
    assert forall|i: int| 0 <= i < decimal_text(n).len() implies '0' <= (#[trigger] decimal_text(
        n,
    )[i]) <= '9' by {
        if n >= 10 && i < decimal_text(n).len() - 1 {
            assert(decimal_text(n)[i] == decimal_text(n / 10)[i]);
        }
    }
}

/// Digits that are spelled out are the digits that the lexer takes from them.
proof fn lemma_digits_spelled(bytes: Seq<u8>, from: int, digits: Seq<char>)
    requires
        spells(bytes, from, digits),
        forall|i: int| 0 <= i < digits.len() ==> '0' <= (#[trigger] digits[i]) <= '9',
    ensures
        digits_between(bytes, from, from + digits.len()) == digits,
        digit_count(bytes, from, from + digits.len()) == digits.len(),
        forall|i: int| from <= i < from + digits.len() ==> is_digit(#[trigger] bytes[i]),
    decreases digits.len(),
{
    assert forall|i: int| from <= i < from + digits.len() implies is_digit(#[trigger] bytes[i]) by {
        assert(spelled(bytes[from + (i - from)], digits[i - from]));
    }
    if digits.len() > 0 {
        let front = digits.drop_last();
        assert forall|i: int| 0 <= i < front.len() implies spelled(
            #[trigger] bytes[from + i],
            front[i],
        ) by {
            assert(front[i] == digits[i]);
        }
        lemma_digits_spelled(bytes, from, front);
        let to = from + digits.len();
        assert(spelled(bytes[from + (digits.len() - 1)], digits.last()));
        assert(digits_between(bytes, from, to) =~= digits);
    } else {
        assert(digits_between(bytes, from, from) =~= digits);
    }
}

/// The decimal text of a number, spelled out, is read as the number.
proof fn lemma_decimal_spelled(bytes: Seq<u8>, from: int, n: nat)
    requires
        spells(bytes, from, decimal_text(n)),
    ensures
        decimal_between(bytes, from, from + decimal_text(n).len()) == n,
    decreases n,
{
    let text = decimal_text(n);
    let to = from + text.len();
    lemma_decimal_text_is_digits(n);
    assert(spelled(bytes[from + (text.len() - 1)], text.last()));
    if n >= 10 {
        let front = decimal_text(n / 10);
        assert(text.drop_last() =~= front);
        assert forall|i: int| 0 <= i < front.len() implies spelled(
            #[trigger] bytes[from + i],
            front[i],
        ) by {
            assert(front[i] == text[i]);
        }
        lemma_decimal_spelled(bytes, from, n / 10);
        assert(text.last() == digit_char(n % 10));
        assert(bytes[to - 1] - 0x30 == n % 10);
    } else {
        assert(text.last() == digit_char(n));
        assert(decimal_between(bytes, from, to - 1) == 0);
    }
}

/// An integer in decimal that ends where no number goes on is read as the
/// integer.
pub proof fn lemma_integer_read(
    bytes: Seq<u8>,
    pos: int,
    v: i64,
    pf: spec_fn(Seq<char>) -> Option<u64>,
)
    requires
        spells(bytes, pos, signed_decimal_text(v as int)),
        ends_word(bytes, pos + signed_decimal_text(v as int).len()),
    ensures
        0 <= pos < bytes.len(),
        !is_space(bytes[pos]),
        token_at(bytes, pos, pf) == Ok::<(TokenModel, int), int>(
            (TokenModel::Value(Value::Int(v)), signed_decimal_text(v as int).len() as int),
        ),
{
    let text = signed_decimal_text(v as int);
    let end = pos + text.len();
    let magnitude: nat = if v < 0 { (-(v as int)) as nat } else { v as nat };
    let digits = decimal_text(magnitude);
    lemma_decimal_text_is_digits(magnitude);
    let start = if v < 0 { pos + 1 } else { pos };
    if v < 0 {
        assert(text == seq!['-'] + digits);
        lemma_spells_split(bytes, pos, seq!['-'], digits);
        assert(spelled(bytes[pos + 0], seq!['-'][0]));
    } else {
        assert(spelled(bytes[pos + 0], digits[0]));
    }
    lemma_digits_spelled(bytes, start, digits);
    lemma_decimal_spelled(bytes, start, magnitude);
    assert forall|i: int| start <= i < end implies is_digit_like(#[trigger] bytes[i]) by {
        assert(is_digit(bytes[i]));
    }
    lemma_digit_run(bytes, start, end);
    let shape = number_shape(bytes, pos);
    assert(shape.negative == (v < 0));
    assert(shape.whole_start == start);
    assert(shape.whole_end == end);
    assert(!shape.has_point);
    assert(shape.end == end);
    assert(shape.taken());
    assert(integer_literal(bytes, shape) == Some(v));
    if has_word(bytes, pos, seq![0x74u8, 0x72, 0x75, 0x65]) {
        assert(bytes.subrange(pos, pos + 4)[0] == 0x74);
    }
    if has_word(bytes, pos, seq![0x66u8, 0x61, 0x6C, 0x73, 0x65]) {
        assert(bytes.subrange(pos, pos + 5)[0] == 0x66);
    }
}

/// Whether the characters are a float as the lexer reads one, with a point
/// at `point`: an optional `-`, digits, the point, digits, with a digit
/// before or behind the point.
pub open spec fn is_float_text_at(text: Seq<char>, point: int) -> bool {
    let start: int = if text.len() > 0 && text[0] == '-' { 1 } else { 0 };
    &&& start <= point < text.len()
    &&& text[point] == '.'
    &&& forall|i: int| start <= i < text.len() && i != point ==> '0' <= (#[trigger] text[i]) <= '9'
    &&& text.len() > start + 1
}

/// Whether the characters are a float as the lexer reads one.
pub open spec fn is_float_text(text: Seq<char>) -> bool {
    exists|point: int| is_float_text_at(text, point)
}

/// A float text that ends where no number goes on is read as the float that
/// the float parser makes of it.
pub proof fn lemma_float_read(
    bytes: Seq<u8>,
    pos: int,
    text: Seq<char>,
    f: u64,
    pf: spec_fn(Seq<char>) -> Option<u64>,
)
    requires
        is_float_text(text),
        pf(text) == Some(f),
        spells(bytes, pos, text),
        ends_word(bytes, pos + text.len()),
    ensures
        0 <= pos < bytes.len(),
        !is_space(bytes[pos]),
        token_at(bytes, pos, pf) == Ok::<(TokenModel, int), int>(
            (TokenModel::Value(Value::Float(f)), text.len() as int),
        ),
{
    let point = choose|point: int| is_float_text_at(text, point);
    let negative = text[0] == '-';
    let start: int = if negative { 1 } else { 0 };
    let end = pos + text.len();
    let whole = text.subrange(start, point);
    let fraction = text.subrange(point + 1, text.len() as int);
    assert(text =~= text.subrange(0, start) + whole + seq!['.'] + fraction);
    lemma_spells_split(bytes, pos, text.subrange(0, start) + whole + seq!['.'], fraction);
    lemma_spells_split(bytes, pos, text.subrange(0, start) + whole, seq!['.']);
    lemma_spells_split(bytes, pos, text.subrange(0, start), whole);
    assert(spelled(bytes[pos + point + 0], seq!['.'][0]));
    assert(spelled(bytes[pos + 0], text[0]));
    lemma_digits_spelled(bytes, pos + start, whole);
    lemma_digits_spelled(bytes, pos + point + 1, fraction);
    assert forall|i: int| pos + start <= i < pos + point implies is_digit_like(
        #[trigger] bytes[i],
    ) by {
        assert(is_digit(bytes[i]));
    }
    assert forall|i: int| pos + point + 1 <= i < end implies is_digit_like(#[trigger] bytes[i]) by {
        assert(is_digit(bytes[i]));
    }
    lemma_digit_run(bytes, pos + start, pos + point);
    lemma_digit_run(bytes, pos + point + 1, end);
    let shape = number_shape(bytes, pos);
    assert(shape.negative == negative);
    assert(shape.whole_start == pos + start);
    assert(shape.whole_end == pos + point);
    assert(shape.has_point);
    assert(shape.end == end);
    assert(shape.taken());
    assert(float_literal_text(bytes, shape) =~= text);
    if has_word(bytes, pos, seq![0x74u8, 0x72, 0x75, 0x65]) {
        assert(bytes.subrange(pos, pos + 4)[0] == 0x74);
    }
    if has_word(bytes, pos, seq![0x66u8, 0x61, 0x6C, 0x73, 0x65]) {
        assert(bytes.subrange(pos, pos + 5)[0] == 0x66);
    }
}

/// Whether the tokens of the bytes from `from` on are `ts` and then the
/// tokens of the bytes from `to` on.
pub open spec fn covers(
    bytes: Seq<u8>,
    from: int,
    to: int,
    ts: Seq<Spanned<TokenModel>>,
    pf: spec_fn(Seq<char>) -> Option<u64>,
) -> bool {
    tokens_from(bytes, from, pf) == tokens_then(ts, tokens_from(bytes, to, pf))
}

/// Tokens that are read one stretch behind the other are read together.
pub proof fn lemma_covers_chain(
    bytes: Seq<u8>,
    from: int,
    mid: int,
    to: int,
    first: Seq<Spanned<TokenModel>>,
    second: Seq<Spanned<TokenModel>>,
    pf: spec_fn(Seq<char>) -> Option<u64>,
)
    requires
        covers(bytes, from, mid, first, pf),
        covers(bytes, mid, to, second, pf),
    ensures
        covers(bytes, from, to, first + second, pf),
        token_data(first + second) == token_data(first) + token_data(second),
{
    match tokens_from(bytes, to, pf) {
        Ok(rest) => {
            assert(first + (second + rest) =~= (first + second) + rest);
        },
        Err(_) => {},
    }
    assert(token_data(first + second) =~= token_data(first) + token_data(second));
}

/// A space holds no token.
pub proof fn lemma_covers_space(bytes: Seq<u8>, pos: int, pf: spec_fn(Seq<char>) -> Option<u64>)
    requires
        0 <= pos < bytes.len(),
        bytes[pos] == 0x20,
    ensures
        covers(bytes, pos, pos + 1, Seq::empty(), pf),
        token_data(Seq::<Spanned<TokenModel>>::empty()) == Seq::<TokenModel>::empty(),
{
    lemma_space_passed(bytes, pos, pf);
    match tokens_from(bytes, pos + 1, pf) {
        Ok(rest) => {
            assert(Seq::<Spanned<TokenModel>>::empty() + rest =~= rest);
        },
        Err(_) => {},
    }
    assert(token_data(Seq::<Spanned<TokenModel>>::empty()) =~= Seq::<TokenModel>::empty());
}

/// An operator that is spelled out, and followed by a space if it is a
/// binary operator, is read as its one token.
pub proof fn lemma_covers_operator(
    bytes: Seq<u8>,
    pos: int,
    op: Operator,
    pf: spec_fn(Seq<char>) -> Option<u64>,
) -> (ts: Seq<Spanned<TokenModel>>)
    requires
        lexable_operator(op),
        spells(bytes, pos, op.text()),
        op is Binary ==> pos + op.text().len() < bytes.len() && bytes[pos + op.text().len()]
            == 0x20,
    ensures
        covers(bytes, pos, pos + op.text().len(), ts, pf),
        token_data(ts) == seq![TokenModel::Operator(op)],
        0 <= pos < bytes.len(),
        !is_space(bytes[pos]),
{
    lemma_operator_read(bytes, pos, op, pf);
    let ts = lemma_token_read(bytes, pos, TokenModel::Operator(op), op.text().len() as int, pf);
    assert(token_data(ts) =~= seq![TokenModel::Operator(op)]);
    ts
}

/// Whether an expression is written as text that the lexer reads back: its
/// names are identifiers, its floats are written with a point and read back by
/// the float parser, its prefix operators are `-`, its binary operators have
/// tokens, and it holds no macro.
pub open spec fn lexable(
    e: Spanned<ExprModel>,
    ft: spec_fn(u64) -> Seq<char>,
    pf: spec_fn(Seq<char>) -> Option<u64>,
) -> bool
    decreases e,
{
    match e.data {
        ExprModel::Value(Value::Float(f)) => is_float_text(float_literal(ft(f))) && pf(
            float_literal(ft(f)),
        ) == Some(f),
        ExprModel::Value(_) => true,
        ExprModel::Identifier(s) => is_identifier(s),
        ExprModel::Macro(_) => false,
        ExprModel::Unary { op, rhs } => op == Operator::Unary(UnaryOp::Negation) && lexable(
            *rhs,
            ft,
            pf,
        ),
        ExprModel::Binary { op, lhs, rhs } => op is Binary && lexable_operator(op) && lexable(
            *lhs,
            ft,
            pf,
        ) && lexable(*rhs, ft, pf),
        ExprModel::Ternary { cond, statement1, statement2 } => lexable(*cond, ft, pf) && lexable(
            *statement1,
            ft,
            pf,
        ) && lexable(*statement2, ft, pf),
        ExprModel::Comma { exprs } => forall|i: int|
            0 <= i < exprs.len() ==> lexable(#[trigger] exprs[i], ft, pf),
        ExprModel::Call { func, args } => lexable(*func, ft, pf) && forall|i: int|
            0 <= i < args.len() ==> lexable(#[trigger] args[i], ft, pf),
    }
}

/// The text of a literal or a name, spelled out where no word goes on behind
/// it, is read as its one token.
proof fn lemma_read_leaf(
    e: Spanned<ExprModel>,
    bytes: Seq<u8>,
    pos: int,
    ft: spec_fn(u64) -> Seq<char>,
    pf: spec_fn(Seq<char>) -> Option<u64>,
) -> (ts: Seq<Spanned<TokenModel>>)
    requires
        e.data is Value || e.data is Identifier,
        lexable(e, ft, pf),
        spells(bytes, pos, text_of(e, 0, ft)),
        ends_word(bytes, pos + text_of(e, 0, ft).len()),
    ensures
        token_data(ts) == unparse_body(e),
        covers(bytes, pos, pos + text_of(e, 0, ft).len(), ts, pf),
        0 <= pos < bytes.len(),
        !is_space(bytes[pos]),
        text_of(e, 0, ft).len() >= 1,
{
    let text = text_of(e, 0, ft);
    reveal_strlit("true");
    reveal_strlit("false");
    match e.data {
        ExprModel::Value(Value::Boolean(b)) => {
            lemma_boolean_read(bytes, pos, b, pf);
            let ts = lemma_token_read(bytes, pos, TokenModel::Value(Value::Boolean(b)), text.len() as int, pf);
            assert(token_data(ts) =~= unparse_body(e));
            ts
        },
        ExprModel::Value(Value::Int(v)) => {
            lemma_decimal_text_is_digits(if v < 0 { (-(v as int)) as nat } else { v as nat });
            lemma_integer_read(bytes, pos, v, pf);
            let ts = lemma_token_read(bytes, pos, TokenModel::Value(Value::Int(v)), text.len() as int, pf);
            assert(token_data(ts) =~= unparse_body(e));
            ts
        },
        ExprModel::Value(Value::Float(f)) => {
            lemma_float_read(bytes, pos, text, f, pf);
            let ts = lemma_token_read(bytes, pos, TokenModel::Value(Value::Float(f)), text.len() as int, pf);
            assert(token_data(ts) =~= unparse_body(e));
            ts
        },
        ExprModel::Identifier(name) => {
            lemma_identifier_read(bytes, pos, name, pf);
            let ts = lemma_token_read(bytes, pos, TokenModel::Identifier(name), text.len() as int, pf);
            assert(token_data(ts) =~= unparse_body(e));
            ts
        },
        _ => Seq::empty(),
    }
}

/// An operator between two spaces is read as its one token.
proof fn lemma_covers_spaced_operator(
    bytes: Seq<u8>,
    pos: int,
    op: Operator,
    pf: spec_fn(Seq<char>) -> Option<u64>,
) -> (ts: Seq<Spanned<TokenModel>>)
    requires
        lexable_operator(op),
        spells(bytes, pos, seq![' '] + op.text() + seq![' ']),
    ensures
        covers(bytes, pos, pos + op.text().len() + 2, ts, pf),
        token_data(ts) == seq![TokenModel::Operator(op)],
{
    let text = op.text();
    lemma_spells_split(bytes, pos, seq![' '] + text, seq![' ']);
    lemma_spells_split(bytes, pos, seq![' '], text);
    assert(spelled(bytes[pos + 0], seq![' '][0]));
    assert(spelled(bytes[pos + 1 + text.len() + 0], seq![' '][0]));
    lemma_covers_space(bytes, pos, pf);
    let ts = lemma_covers_operator(bytes, pos + 1, op, pf);
    lemma_covers_space(bytes, pos + 1 + text.len(), pf);
    lemma_covers_chain(bytes, pos, pos + 1, pos + 1 + text.len(), Seq::empty(), ts, pf);
    lemma_covers_chain(
        bytes,
        pos,
        pos + 1 + text.len(),
        pos + 2 + text.len(),
        Seq::empty() + ts,
        Seq::empty(),
        pf,
    );
    assert(Seq::empty() + ts + Seq::empty() =~= ts);
    ts
}

/// The text of an expression, spelled out where no word goes on behind it, is
/// read as the tokens of the expression.
pub proof fn lemma_read(
    e: Spanned<ExprModel>,
    parent: u32,
    bytes: Seq<u8>,
    pos: int,
    ft: spec_fn(u64) -> Seq<char>,
    pf: spec_fn(Seq<char>) -> Option<u64>,
) -> (ts: Seq<Spanned<TokenModel>>)
    requires
        writable(e),
        lexable(e, ft, pf),
        spells(bytes, pos, text_of(e, parent, ft)),
        ends_word(bytes, pos + text_of(e, parent, ft).len()),
    ensures
        token_data(ts) == unparse(e, parent),
        covers(bytes, pos, pos + text_of(e, parent, ft).len(), ts, pf),
        0 <= pos < bytes.len(),
        !is_space(bytes[pos]),
        text_of(e, parent, ft).len() >= 1,
    decreases e, 2int,
{
    let body = text_of(e, 0, ft);
    if precedence(e.data) < parent {
        let open = Operator::Grouping(GroupingOp::LeftParen);
        let close = Operator::Grouping(GroupingOp::RightParen);
        assert(text_of(e, parent, ft) == seq!['('] + body + seq![')']);
        lemma_spells_split(bytes, pos, seq!['('] + body, seq![')']);
        lemma_spells_split(bytes, pos, seq!['('], body);
        let end = pos + 1 + body.len();
        assert(spelled(bytes[end + 0], seq![')'][0]));
        let first = lemma_covers_operator(bytes, pos, open, pf);
        let inner = lemma_read_body(e, bytes, pos + 1, ft, pf);
        let last = lemma_covers_operator(bytes, end, close, pf);
        lemma_covers_chain(bytes, pos, pos + 1, end, first, inner, pf);
        lemma_covers_chain(bytes, pos, end, end + 1, first + inner, last, pf);
        first + inner + last
    } else {
        assert(text_of(e, parent, ft) == body);
        lemma_read_body(e, bytes, pos, ft, pf)
    }
}

/// The law of `lemma_read` for an expression that is written without
/// parentheses around it.
proof fn lemma_read_body(
    e: Spanned<ExprModel>,
    bytes: Seq<u8>,
    pos: int,
    ft: spec_fn(u64) -> Seq<char>,
    pf: spec_fn(Seq<char>) -> Option<u64>,
) -> (ts: Seq<Spanned<TokenModel>>)
    requires
        writable(e),
        lexable(e, ft, pf),
        spells(bytes, pos, text_of(e, 0, ft)),
        ends_word(bytes, pos + text_of(e, 0, ft).len()),
    ensures
        token_data(ts) == unparse_body(e),
        covers(bytes, pos, pos + text_of(e, 0, ft).len(), ts, pf),
        0 <= pos < bytes.len(),
        !is_space(bytes[pos]),
        text_of(e, 0, ft).len() >= 1,
    decreases e, 1int,
{
    match e.data {
        ExprModel::Unary { op, rhs } => lemma_read_unary(e, bytes, pos, ft, pf),
        ExprModel::Binary { op, lhs, rhs } => if juxtaposed(e) {
            lemma_read_juxtaposed(e, bytes, pos, ft, pf)
        } else {
            lemma_read_binary(e, bytes, pos, ft, pf)
        },
        ExprModel::Ternary { cond, statement1, statement2 } => lemma_read_ternary(
            e,
            bytes,
            pos,
            ft,
            pf,
        ),
        ExprModel::Comma { exprs } => {
            assert(text_of(e, 0, ft) == list_text(exprs, 0, (COMMA_BP + 1) as u32, ft));
            lemma_read_list(exprs, 0, bytes, pos, ft, pf)
        },
        ExprModel::Call { func, args } => lemma_read_call(e, bytes, pos, ft, pf),
        _ => lemma_read_leaf(e, bytes, pos, ft, pf),
    }
}

proof fn lemma_read_unary(
    e: Spanned<ExprModel>,
    bytes: Seq<u8>,
    pos: int,
    ft: spec_fn(u64) -> Seq<char>,
    pf: spec_fn(Seq<char>) -> Option<u64>,
) -> (ts: Seq<Spanned<TokenModel>>)
    requires
        e.data is Unary,
        writable(e),
        lexable(e, ft, pf),
        spells(bytes, pos, text_of(e, 0, ft)),
        ends_word(bytes, pos + text_of(e, 0, ft).len()),
    ensures
        token_data(ts) == unparse_body(e),
        covers(bytes, pos, pos + text_of(e, 0, ft).len(), ts, pf),
        0 <= pos < bytes.len(),
        !is_space(bytes[pos]),
        text_of(e, 0, ft).len() >= 1,
    decreases e, 0int,
{
    let op = e.data->Unary_op;
    let rhs = *e.data->Unary_rhs;
    let minus = Operator::Binary(BinaryOp::Subtraction);
    let operand = text_of(rhs, (PREFIX_BP + 1) as u32, ft);
    assert(text_of(e, 0, ft) == op.text() + seq![' '] + operand);
    assert(op.text() == minus.text());
    lemma_spells_split(bytes, pos, op.text() + seq![' '], operand);
    lemma_spells_split(bytes, pos, op.text(), seq![' ']);
    assert(spelled(bytes[pos + 1 + 0], seq![' '][0]));
    let first = lemma_covers_operator(bytes, pos, minus, pf);
    lemma_covers_space(bytes, pos + 1, pf);
    let rest = lemma_read(rhs, (PREFIX_BP + 1) as u32, bytes, pos + 2, ft, pf);
    lemma_covers_chain(bytes, pos, pos + 1, pos + 2, first, Seq::empty(), pf);
    lemma_covers_chain(
        bytes,
        pos,
        pos + 2,
        pos + 2 + operand.len(),
        first + Seq::empty(),
        rest,
        pf,
    );
    let ts = first + Seq::empty() + rest;
    assert(token_data(ts) =~= unparse_body(e));
    ts
}

proof fn lemma_read_binary(
    e: Spanned<ExprModel>,
    bytes: Seq<u8>,
    pos: int,
    ft: spec_fn(u64) -> Seq<char>,
    pf: spec_fn(Seq<char>) -> Option<u64>,
) -> (ts: Seq<Spanned<TokenModel>>)
    requires
        e.data is Binary,
        !juxtaposed(e),
        writable(e),
        lexable(e, ft, pf),
        spells(bytes, pos, text_of(e, 0, ft)),
        ends_word(bytes, pos + text_of(e, 0, ft).len()),
    ensures
        token_data(ts) == unparse_body(e),
        covers(bytes, pos, pos + text_of(e, 0, ft).len(), ts, pf),
        0 <= pos < bytes.len(),
        !is_space(bytes[pos]),
        text_of(e, 0, ft).len() >= 1,
    decreases e, 0int,
{
    let op = e.data->Binary_op;
    let lhs = *e.data->Binary_lhs;
    let rhs = *e.data->Binary_rhs;
    assert(writable(lhs) && writable(rhs));
    let left = text_of(lhs, left_parent(op), ft);
    let right = text_of(rhs, right_parent(op), ft);
    let middle = seq![' '] + op.text() + seq![' '];
    assert(text_of(e, 0, ft) =~= left + middle + right);
    lemma_spells_split(bytes, pos, left + middle, right);
    lemma_spells_split(bytes, pos, left, middle);
    let at = pos + left.len();
    let after = at + middle.len();
    assert(spelled(bytes[at + 0], middle[0]));
    let first = lemma_read(lhs, left_parent(op), bytes, pos, ft, pf);
    let second = lemma_covers_spaced_operator(bytes, at, op, pf);
    let third = lemma_read(rhs, right_parent(op), bytes, after, ft, pf);
    lemma_covers_chain(bytes, pos, at, after, first, second, pf);
    lemma_covers_chain(bytes, pos, after, after + right.len(), first + second, third, pf);
    let ts = first + second + third;
    assert(token_data(ts) =~= unparse_body(e));
    ts
}

/// The law of `lemma_read` for a multiplication that is written as a
/// juxtaposition.
proof fn lemma_read_juxtaposed(
    e: Spanned<ExprModel>,
    bytes: Seq<u8>,
    pos: int,
    ft: spec_fn(u64) -> Seq<char>,
    pf: spec_fn(Seq<char>) -> Option<u64>,
) -> (ts: Seq<Spanned<TokenModel>>)
    requires
        juxtaposed(e),
        writable(e),
        lexable(e, ft, pf),
        spells(bytes, pos, text_of(e, 0, ft)),
        ends_word(bytes, pos + text_of(e, 0, ft).len()),
    ensures
        token_data(ts) == unparse_body(e),
        covers(bytes, pos, pos + text_of(e, 0, ft).len(), ts, pf),
        0 <= pos < bytes.len(),
        !is_space(bytes[pos]),
        text_of(e, 0, ft).len() >= 1,
    decreases e, 0int,
{
    let lhs = *e.data->Binary_lhs;
    let rhs = *e.data->Binary_rhs;
    let parent = (IMPLICIT_MUL_BP + 1) as u32;
    let open = Operator::Grouping(GroupingOp::LeftParen);
    let close = Operator::Grouping(GroupingOp::RightParen);
    let left = text_of(lhs, 0, ft);
    let right = text_of(rhs, parent, ft);
    assert(writable(lhs) && writable(rhs));
    assert(text_of(e, 0, ft) =~= seq!['('] + left + seq![')'] + seq![' '] + right);
    lemma_spells_split(bytes, pos, seq!['('] + left + seq![')'] + seq![' '], right);
    lemma_spells_split(bytes, pos, seq!['('] + left + seq![')'], seq![' ']);
    lemma_spells_split(bytes, pos, seq!['('] + left, seq![')']);
    lemma_spells_split(bytes, pos, seq!['('], left);
    let at_close = pos + 1 + left.len();
    let at_space = at_close + 1;
    let at_right = at_space + 1;
    assert(spelled(bytes[at_close + 0], seq![')'][0]));
    assert(spelled(bytes[at_space + 0], seq![' '][0]));
    let t1 = lemma_covers_operator(bytes, pos, open, pf);
    let t2 = lemma_read_body(lhs, bytes, pos + 1, ft, pf);
    let t3 = lemma_covers_operator(bytes, at_close, close, pf);
    lemma_covers_space(bytes, at_space, pf);
    let t4 = lemma_read(rhs, parent, bytes, at_right, ft, pf);
    lemma_covers_chain(bytes, pos, pos + 1, at_close, t1, t2, pf);
    lemma_covers_chain(bytes, pos, at_close, at_space, t1 + t2, t3, pf);
    lemma_covers_chain(bytes, pos, at_space, at_right, t1 + t2 + t3, Seq::empty(), pf);
    lemma_covers_chain(
        bytes,
        pos,
        at_right,
        at_right + right.len(),
        t1 + t2 + t3 + Seq::empty(),
        t4,
        pf,
    );
    let ts = t1 + t2 + t3 + Seq::empty() + t4;
    assert(token_data(ts) =~= unparse_body(e));
    ts
}

#[verifier::rlimit(40)]
proof fn lemma_read_ternary(
    e: Spanned<ExprModel>,
    bytes: Seq<u8>,
    pos: int,
    ft: spec_fn(u64) -> Seq<char>,
    pf: spec_fn(Seq<char>) -> Option<u64>,
) -> (ts: Seq<Spanned<TokenModel>>)
    requires
        e.data is Ternary,
        writable(e),
        lexable(e, ft, pf),
        spells(bytes, pos, text_of(e, 0, ft)),
        ends_word(bytes, pos + text_of(e, 0, ft).len()),
    ensures
        token_data(ts) == unparse_body(e),
        covers(bytes, pos, pos + text_of(e, 0, ft).len(), ts, pf),
        0 <= pos < bytes.len(),
        !is_space(bytes[pos]),
        text_of(e, 0, ft).len() >= 1,
    decreases e, 0int,
{
    let cond = *e.data->Ternary_cond;
    let first = *e.data->Ternary_statement1;
    let second = *e.data->Ternary_statement2;
    let question = Operator::TernaryOp(TernaryOp::TernaryCond);
    let colon = Operator::TernaryOp(TernaryOp::TernaryElse);
    let c = text_of(cond, (CONDITIONAL_PRECEDENCE + 1) as u32, ft);
    let a = text_of(first, 0, ft);
    let b = text_of(second, CONDITIONAL_PRECEDENCE, ft);
    reveal_strlit(" ? ");
    reveal_strlit(" : ");
    assert(" ? "@ =~= seq![' '] + question.text() + seq![' ']);
    assert(" : "@ =~= seq![' '] + colon.text() + seq![' ']);
    assert(text_of(e, 0, ft) == c + " ? "@ + a + " : "@ + b);
    lemma_spells_split(bytes, pos, c + " ? "@ + a + " : "@, b);
    lemma_spells_split(bytes, pos, c + " ? "@ + a, " : "@);
    lemma_spells_split(bytes, pos, c + " ? "@, a);
    lemma_spells_split(bytes, pos, c, " ? "@);
    let at_question = pos + c.len();
    let at_first = at_question + 3;
    let at_colon = at_first + a.len();
    let at_second = at_colon + 3;
    assert(spelled(bytes[at_question + 0], " ? "@[0]));
    assert(spelled(bytes[at_colon + 0], " : "@[0]));
    let t1 = lemma_read(cond, (CONDITIONAL_PRECEDENCE + 1) as u32, bytes, pos, ft, pf);
    let t2 = lemma_covers_spaced_operator(bytes, at_question, question, pf);
    let t3 = lemma_read(first, 0, bytes, at_first, ft, pf);
    let t4 = lemma_covers_spaced_operator(bytes, at_colon, colon, pf);
    let t5 = lemma_read(second, CONDITIONAL_PRECEDENCE, bytes, at_second, ft, pf);
    lemma_covers_chain(bytes, pos, at_question, at_first, t1, t2, pf);
    lemma_covers_chain(bytes, pos, at_first, at_colon, t1 + t2, t3, pf);
    lemma_covers_chain(bytes, pos, at_colon, at_second, t1 + t2 + t3, t4, pf);
    lemma_covers_chain(bytes, pos, at_second, at_second + b.len(), t1 + t2 + t3 + t4, t5, pf);
    let ts = t1 + t2 + t3 + t4 + t5;
    assert(token_data(ts) =~= unparse_body(e));
    ts
}

/// The law of `lemma_read` for the expressions of a list from the `i`-th on.
proof fn lemma_read_list(
    exprs: Seq<Spanned<ExprModel>>,
    i: int,
    bytes: Seq<u8>,
    pos: int,
    ft: spec_fn(u64) -> Seq<char>,
    pf: spec_fn(Seq<char>) -> Option<u64>,
) -> (ts: Seq<Spanned<TokenModel>>)
    requires
        0 <= i < exprs.len(),
        forall|j: int|
            0 <= j < exprs.len() ==> writable(#[trigger] exprs[j]) && lexable(exprs[j], ft, pf),
        spells(bytes, pos, list_text(exprs, i, (COMMA_BP + 1) as u32, ft)),
        ends_word(bytes, pos + list_text(exprs, i, (COMMA_BP + 1) as u32, ft).len()),
    ensures
        token_data(ts) == unparse_list(exprs, i),
        covers(bytes, pos, pos + list_text(exprs, i, (COMMA_BP + 1) as u32, ft).len(), ts, pf),
        0 <= pos < bytes.len(),
        !is_space(bytes[pos]),
        list_text(exprs, i, (COMMA_BP + 1) as u32, ft).len() >= 1,
    decreases exprs, exprs.len() - i,
{
    let parent = (COMMA_BP + 1) as u32;
    let member = text_of(exprs[i], parent, ft);
    if i == exprs.len() - 1 {
        lemma_read(exprs[i], parent, bytes, pos, ft, pf)
    } else {
        let rest = list_text(exprs, i + 1, parent, ft);
        let separator = Operator::Grouping(GroupingOp::Comma);
        reveal_strlit(", ");
        assert(", "@ =~= separator.text() + seq![' ']);
        assert(list_text(exprs, i, parent, ft) == member + ", "@ + rest);
        lemma_spells_split(bytes, pos, member + ", "@, rest);
        lemma_spells_split(bytes, pos, member, ", "@);
        lemma_spells_split(bytes, pos + member.len(), separator.text(), seq![' ']);
        let at_comma = pos + member.len();
        assert(spelled(bytes[at_comma + 0], ", "@[0]));
        assert(spelled(bytes[at_comma + 1 + 0], seq![' '][0]));
        let t1 = lemma_read(exprs[i], parent, bytes, pos, ft, pf);
        let t2 = lemma_covers_operator(bytes, at_comma, separator, pf);
        lemma_covers_space(bytes, at_comma + 1, pf);
        let t3 = lemma_read_list(exprs, i + 1, bytes, at_comma + 2, ft, pf);
        lemma_covers_chain(bytes, pos, at_comma, at_comma + 1, t1, t2, pf);
        lemma_covers_chain(bytes, pos, at_comma + 1, at_comma + 2, t1 + t2, Seq::empty(), pf);
        lemma_covers_chain(
            bytes,
            pos,
            at_comma + 2,
            at_comma + 2 + rest.len(),
            t1 + t2 + Seq::empty(),
            t3,
            pf,
        );
        let ts = t1 + t2 + Seq::empty() + t3;
        assert(token_data(ts) =~= unparse_list(exprs, i));
        ts
    }
}

proof fn lemma_read_call(
    e: Spanned<ExprModel>,
    bytes: Seq<u8>,
    pos: int,
    ft: spec_fn(u64) -> Seq<char>,
    pf: spec_fn(Seq<char>) -> Option<u64>,
) -> (ts: Seq<Spanned<TokenModel>>)
    requires
        e.data is Call,
        writable(e),
        lexable(e, ft, pf),
        spells(bytes, pos, text_of(e, 0, ft)),
        ends_word(bytes, pos + text_of(e, 0, ft).len()),
    ensures
        token_data(ts) == unparse_body(e),
        covers(bytes, pos, pos + text_of(e, 0, ft).len(), ts, pf),
        0 <= pos < bytes.len(),
        !is_space(bytes[pos]),
        text_of(e, 0, ft).len() >= 1,
    decreases e, 0int,
{
    let func = *e.data->Call_func;
    let args = e.data->Call_args;
    let open = Operator::Grouping(GroupingOp::LeftParen);
    let close = Operator::Grouping(GroupingOp::RightParen);
    let callee = text_of(func, CALLEE_PRECEDENCE, ft);
    let list = list_text(args, 0, (COMMA_BP + 1) as u32, ft);
    assert(text_of(e, 0, ft) == callee + seq!['('] + list + seq![')']);
    lemma_spells_split(bytes, pos, callee + seq!['('] + list, seq![')']);
    lemma_spells_split(bytes, pos, callee + seq!['('], list);
    lemma_spells_split(bytes, pos, callee, seq!['(']);
    let at_open = pos + callee.len();
    let at_list = at_open + 1;
    let at_close = at_list + list.len();
    assert(spelled(bytes[at_open + 0], seq!['('][0]));
    assert(spelled(bytes[at_close + 0], seq![')'][0]));
    let t1 = lemma_read(func, CALLEE_PRECEDENCE, bytes, pos, ft, pf);
    let t2 = lemma_covers_operator(bytes, at_open, open, pf);
    lemma_covers_chain(bytes, pos, at_open, at_list, t1, t2, pf);
    let t4 = lemma_covers_operator(bytes, at_close, close, pf);
    if args.len() == 0 {
        assert(list.len() == 0);
        lemma_covers_chain(bytes, pos, at_list, at_close + 1, t1 + t2, t4, pf);
        let ts = t1 + t2 + t4;
        assert(unparse_list(args, 0) =~= Seq::<TokenModel>::empty());
        assert(token_data(ts) =~= unparse_body(e));
        ts
    } else {
        let t3 = lemma_read_list(args, 0, bytes, at_list, ft, pf);
        lemma_covers_chain(bytes, pos, at_list, at_close, t1 + t2, t3, pf);
        lemma_covers_chain(bytes, pos, at_close, at_close + 1, t1 + t2 + t3, t4, pf);
        let ts = t1 + t2 + t3 + t4;
        assert(token_data(ts) =~= unparse_body(e));
        ts
    }
}

/// Two texts of ASCII characters, one behind the other, are ASCII.
proof fn lemma_ascii_joined(first: Seq<char>, second: Seq<char>)
    requires
        is_ascii_chars(first),
        is_ascii_chars(second),
    ensures
        is_ascii_chars(first + second),
{
    assert forall|i: int| 0 <= i < (first + second).len() implies '\0' <= #[trigger] (first
        + second)[i] <= '\u{7f}' by {
        if i < first.len() {
            assert((first + second)[i] == first[i]);
        } else {
            assert((first + second)[i] == second[i - first.len()]);
        }
    }
}

/// No character is below the character 0.
proof fn lemma_least_char(c: char)
    ensures
        '\0' <= c,
{
}

/// The text of an operator is ASCII.
proof fn lemma_operator_text_is_ascii(op: Operator)
    ensures
        is_ascii_chars(op.text()),
{
}

/// The text of an expression that the lexer reads back is ASCII.
pub proof fn lemma_text_is_ascii(
    e: Spanned<ExprModel>,
    parent: u32,
    ft: spec_fn(u64) -> Seq<char>,
    pf: spec_fn(Seq<char>) -> Option<u64>,
)
    requires
        lexable(e, ft, pf),
    ensures
        is_ascii_chars(text_of(e, parent, ft)),
    decreases e, 1int,
{
    let body = text_of(e, 0, ft);
    reveal_strlit("true");
    reveal_strlit("false");
    reveal_strlit(" ? ");
    reveal_strlit(" : ");
    match e.data {
        ExprModel::Value(Value::Boolean(b)) => {
            assert(is_ascii_chars(body));
        },
        ExprModel::Value(Value::Int(v)) => {
            let magnitude: nat = if v < 0 { (-(v as int)) as nat } else { v as nat };
            lemma_decimal_text_is_digits(magnitude);
            assert(is_ascii_chars(decimal_text(magnitude)));
            if v < 0 {
                lemma_ascii_joined(seq!['-'], decimal_text(magnitude));
            }
            assert(is_ascii_chars(body));
        },
        ExprModel::Value(Value::Float(f)) => {
            let text = float_literal(ft(f));
            let point = choose|point: int| is_float_text_at(text, point);
            assert forall|i: int| 0 <= i < text.len() implies '\0' <= #[trigger] text[i]
                <= '\u{7f}' by {
                if i == point {
                } else if i == 0 && text[0] == '-' {
                } else {
                    assert('0' <= text[i] <= '9');
                }
            }
            assert(is_ascii_chars(body));
        },
        ExprModel::Identifier(name) => {
            assert forall|i: int| 0 <= i < name.len() implies '\0' <= #[trigger] name[i]
                <= '\u{7f}' by {
                lemma_least_char(name[i]);
            }
            assert(is_ascii_chars(body));
        },
        ExprModel::Macro(_) => {},
        ExprModel::Unary { op, rhs } => {
            lemma_text_is_ascii(*rhs, (PREFIX_BP + 1) as u32, ft, pf);
            lemma_operator_text_is_ascii(op);
            lemma_ascii_joined(op.text(), seq![' ']);
            lemma_ascii_joined(op.text() + seq![' '], text_of(*rhs, (PREFIX_BP + 1) as u32, ft));
            assert(is_ascii_chars(body));
        },
        ExprModel::Binary { op, lhs, rhs } => if juxtaposed(e) {
            let parent = (IMPLICIT_MUL_BP + 1) as u32;
            let left = text_of(*lhs, 0, ft);
            let right = text_of(*rhs, parent, ft);
            lemma_text_is_ascii(*lhs, 0, ft, pf);
            lemma_text_is_ascii(*rhs, parent, ft, pf);
            lemma_ascii_joined(seq!['('], left);
            lemma_ascii_joined(seq!['('] + left, seq![')']);
            lemma_ascii_joined(seq!['('] + left + seq![')'], seq![' ']);
            lemma_ascii_joined(seq!['('] + left + seq![')'] + seq![' '], right);
            assert(body == seq!['('] + left + seq![')'] + seq![' '] + right);
            assert(is_ascii_chars(body));
        } else {
            let left = text_of(*lhs, left_parent(op), ft);
            let right = text_of(*rhs, right_parent(op), ft);
            lemma_text_is_ascii(*lhs, left_parent(op), ft, pf);
            lemma_text_is_ascii(*rhs, right_parent(op), ft, pf);
            lemma_operator_text_is_ascii(op);
            lemma_ascii_joined(left, seq![' ']);
            lemma_ascii_joined(left + seq![' '], op.text());
            lemma_ascii_joined(left + seq![' '] + op.text(), seq![' ']);
            lemma_ascii_joined(left + seq![' '] + op.text() + seq![' '], right);
            assert(body == left + seq![' '] + op.text() + seq![' '] + right);
            assert(is_ascii_chars(body));
        },
        ExprModel::Ternary { cond, statement1, statement2 } => {
            let c = text_of(*cond, (CONDITIONAL_PRECEDENCE + 1) as u32, ft);
            let a = text_of(*statement1, 0, ft);
            let b = text_of(*statement2, CONDITIONAL_PRECEDENCE, ft);
            lemma_text_is_ascii(*cond, (CONDITIONAL_PRECEDENCE + 1) as u32, ft, pf);
            lemma_text_is_ascii(*statement1, 0, ft, pf);
            lemma_text_is_ascii(*statement2, CONDITIONAL_PRECEDENCE, ft, pf);
            lemma_ascii_joined(c, " ? "@);
            lemma_ascii_joined(c + " ? "@, a);
            lemma_ascii_joined(c + " ? "@ + a, " : "@);
            lemma_ascii_joined(c + " ? "@ + a + " : "@, b);
            assert(is_ascii_chars(body));
        },
        ExprModel::Comma { exprs } => {
            lemma_list_text_is_ascii(exprs, 0, ft, pf);
            assert(is_ascii_chars(body));
        },
        ExprModel::Call { func, args } => {
            let callee = text_of(*func, CALLEE_PRECEDENCE, ft);
            let list = list_text(args, 0, (COMMA_BP + 1) as u32, ft);
            lemma_text_is_ascii(*func, CALLEE_PRECEDENCE, ft, pf);
            lemma_list_text_is_ascii(args, 0, ft, pf);
            lemma_ascii_joined(callee, seq!['(']);
            lemma_ascii_joined(callee + seq!['('], list);
            lemma_ascii_joined(callee + seq!['('] + list, seq![')']);
            assert(is_ascii_chars(body));
        },
    }
    assert(is_ascii_chars(body));
    if precedence(e.data) < parent {
        lemma_ascii_joined(seq!['('], body);
        lemma_ascii_joined(seq!['('] + body, seq![')']);
    }
}

/// The text of a list of expressions that the lexer reads back is ASCII.
proof fn lemma_list_text_is_ascii(
    exprs: Seq<Spanned<ExprModel>>,
    i: int,
    ft: spec_fn(u64) -> Seq<char>,
    pf: spec_fn(Seq<char>) -> Option<u64>,
)
    requires
        forall|j: int| 0 <= j < exprs.len() ==> lexable(#[trigger] exprs[j], ft, pf),
    ensures
        is_ascii_chars(list_text(exprs, i, (COMMA_BP + 1) as u32, ft)),
    decreases exprs, exprs.len() - i,
{
    let parent = (COMMA_BP + 1) as u32;
    reveal_strlit(", ");
    if 0 <= i < exprs.len() {
        lemma_text_is_ascii(exprs[i], parent, ft, pf);
        if i < exprs.len() - 1 {
            lemma_list_text_is_ascii(exprs, i + 1, ft, pf);
            let member = text_of(exprs[i], parent, ft);
            lemma_ascii_joined(member, ", "@);
            lemma_ascii_joined(member + ", "@, list_text(exprs, i + 1, parent, ft));
        }
    }
}

/// Writing an expression as text and parsing the text gives an expression of
/// the same shape.
///
/// This holds of an expression that can be written as tokens and whose text
/// the lexer reads back, where `float_text` writes the floats and
/// `parse_float` reads them. The text is the one that
/// [`crate::debug::expr_to_text`] returns, and parsing is what
/// [`crate::parser::parse_string`] does.
pub proof fn law_text_then_parse(
    e: Spanned<ExprModel>,
    float_text: spec_fn(u64) -> Seq<char>,
    parse_float: spec_fn(Seq<char>) -> Option<u64>,
)
    requires
        writable(e),
        !leads_with_call(e),
        lexable(e, float_text, parse_float),
    ensures
        ({
            let text = text_of(e, 0, float_text);
            let parsed = parse_of(text, encode_utf8(text), parse_float);
            parsed is Ok && same_shape(parsed->Ok_0, e)
        }),
{
    let text = text_of(e, 0, float_text);
    let bytes = encode_utf8(text);
    lemma_text_is_ascii(e, 0, float_text, parse_float);
    is_ascii_chars_encode_utf8(text);
    assert forall|i: int| 0 <= i < text.len() implies spelled(#[trigger] bytes[0 + i], text[i]) by {
        assert(text[i] as u8 == bytes[i]);
    }
    let ts = lemma_read(e, 0, bytes, 0, float_text, parse_float);
    assert(tokens_from(bytes, bytes.len() as int, parse_float) == Ok::<
        Seq<Spanned<TokenModel>>,
        int,
    >(Seq::empty()));
    assert(ts + Seq::empty() =~= ts);
    law_unparse_then_parse(e, ts);
}

/// Whether a token is one that the lexer makes: an operator that it has a
/// token for, a literal, or an identifier.
pub open spec fn lexed(t: TokenModel) -> bool {
    match t {
        TokenModel::Operator(op) => lexable_operator(op),
        TokenModel::Value(_) => true,
        TokenModel::Identifier(s) => is_identifier(s),
        TokenModel::Macro(_) => false,
    }
}

/// The name that is read at a position is an identifier.
proof fn lemma_name_is_identifier(bytes: Seq<u8>, pos: int, pf: spec_fn(Seq<char>) -> Option<u64>)
    requires
        0 <= pos < bytes.len(),
        value_at(bytes, pos, pf) == Scan::Absent,
        operator_at(bytes, pos) is None,
        identifier_len(bytes, pos) > 0,
    ensures
        is_identifier(chars_between(bytes, pos, pos + identifier_len(bytes, pos))),
        pos + identifier_len(bytes, pos) <= bytes.len(),
{
    reveal_strlit("true");
    reveal_strlit("false");
    let n = identifier_len(bytes, pos);
    let end = pos + n;
    lemma_name_run_holds(bytes, pos + 1);
    let name = chars_between(bytes, pos, end);
    assert forall|i: int| 0 <= i < name.len() implies (#[trigger] name[i]) <= '\u{7f}'
        && is_name_part(name[i] as u8) by {
        assert(is_name_part(bytes[pos + i]));
    }
    if bytes[pos] == 0x5F {
        assert(digit_run_end(bytes, pos) > pos) by {
            lemma_digit_run_forward(bytes, pos + 1);
        }
        assert(number_shape(bytes, pos).taken());
        assert(false);
    }
    assert(is_letter(name[0] as u8));
    if name.len() >= 4 && name.subrange(0, 4) == "true"@ {
        assert(name.subrange(0, 4)[0] == name[0] && name.subrange(0, 4)[1] == name[1]
            && name.subrange(0, 4)[2] == name[2] && name.subrange(0, 4)[3] == name[3]);
        assert(bytes.subrange(pos, pos + 4) =~= seq![0x74u8, 0x72, 0x75, 0x65]);
        assert(false);
    }
    if name.len() >= 5 && name.subrange(0, 5) == "false"@ {
        assert(name.subrange(0, 5)[0] == name[0] && name.subrange(0, 5)[1] == name[1]
            && name.subrange(0, 5)[2] == name[2] && name.subrange(0, 5)[3] == name[3]
            && name.subrange(0, 5)[4] == name[4]);
        assert(bytes.subrange(pos, pos + 5) =~= seq![0x66u8, 0x61, 0x6C, 0x73, 0x65]);
        assert(false);
    }
}

/// A run of name characters lies inside the text and holds name characters.
proof fn lemma_name_run_holds(bytes: Seq<u8>, from: int)
    requires
        0 <= from <= bytes.len(),
    ensures
        from <= name_run_end(bytes, from) <= bytes.len(),
        forall|i: int| from <= i < name_run_end(bytes, from) ==> is_name_part(#[trigger] bytes[i]),
    decreases bytes.len() - from,
{
    if from < bytes.len() && is_name_part(bytes[from]) {
        lemma_name_run_holds(bytes, from + 1);
    }
}

/// A run of digits does not end before it starts.
proof fn lemma_digit_run_forward(bytes: Seq<u8>, from: int)
    requires
        0 <= from <= bytes.len(),
    ensures
        from <= digit_run_end(bytes, from) <= bytes.len(),
    decreases bytes.len() - from,
{
    if from < bytes.len() && is_digit_like(bytes[from]) {
        lemma_digit_run_forward(bytes, from + 1);
    }
}

/// Every token that is read from `pos` on is one that the lexer makes.
proof fn lemma_tokens_are_lexed(bytes: Seq<u8>, pos: int, pf: spec_fn(Seq<char>) -> Option<u64>)
    requires
        0 <= pos <= bytes.len(),
        tokens_from(bytes, pos, pf) is Ok,
    ensures
        forall|i: int|
            0 <= i < tokens_from(bytes, pos, pf)->Ok_0.len() ==> lexed(
                (#[trigger] tokens_from(bytes, pos, pf)->Ok_0[i]).data,
            ),
    decreases bytes.len() - pos,
{
    lemma_skip_bounds(bytes, pos);
    let start = skip_spaces(bytes, pos);
    if start < bytes.len() {
        let (t, n) = token_at(bytes, start, pf)->Ok_0;
        lemma_tokens_are_lexed(bytes, start + n, pf);
        let rest = tokens_from(bytes, start + n, pf)->Ok_0;
        let all = tokens_from(bytes, pos, pf)->Ok_0;
        assert(lexed(t)) by {
            match value_at(bytes, start, pf) {
                Scan::Absent => {
                    if operator_at(bytes, start) is None {
                        lemma_name_is_identifier(bytes, start, pf);
                    }
                },
                _ => {},
            }
        }
        assert forall|i: int| 0 <= i < all.len() implies lexed((#[trigger] all[i]).data) by {
            if i > 0 {
                assert(all[i] == rest[i - 1]);
            }
        }
    }
}

/// Every token of a text is one that the lexer makes.
pub proof fn law_tokens_are_lexed(bytes: Seq<u8>, pf: spec_fn(Seq<char>) -> Option<u64>)
    requires
        tokens_of(bytes, pf) is Ok,
    ensures
        forall|i: int|
            0 <= i < tokens_of(bytes, pf)->Ok_0.len() ==> lexed(
                (#[trigger] tokens_of(bytes, pf)->Ok_0[i]).data,
            ),
{
    lemma_tokens_are_lexed(bytes, 0, pf);
}

/// Whether an expression is one that is parsed from tokens that the lexer
/// makes, as far as its shape tells: its names are identifiers, its prefix
/// operators are `-`, its binary operators have tokens, its comma sequences
/// have two members or more and do not start with a comma sequence, and it
/// holds no macro.
pub open spec fn plain(e: Spanned<ExprModel>) -> bool
    decreases e,
{
    match e.data {
        ExprModel::Value(_) => true,
        ExprModel::Identifier(s) => is_identifier(s),
        ExprModel::Macro(_) => false,
        ExprModel::Unary { op, rhs } => op == Operator::Unary(UnaryOp::Negation) && plain(*rhs),
        ExprModel::Binary { op, lhs, rhs } => op is Binary && lexable_operator(op) && plain(*lhs)
            && plain(*rhs),
        ExprModel::Ternary { cond, statement1, statement2 } => plain(*cond) && plain(*statement1)
            && plain(*statement2),
        ExprModel::Comma { exprs } => exprs.len() >= 2 && !(exprs[0].data is Comma) && forall|
            i: int,
        |
            0 <= i < exprs.len() ==> plain(#[trigger] exprs[i]),
        ExprModel::Call { func, args } => plain(*func) && forall|i: int|
            0 <= i < args.len() ==> plain(#[trigger] args[i]),
    }
}

/// Whether every token is one that the lexer makes.
pub open spec fn all_lexed(tokens: Seq<Spanned<TokenModel>>) -> bool {
    forall|i: int| 0 <= i < tokens.len() ==> lexed((#[trigger] tokens[i]).data)
}

proof fn lemma_parsed_expression_plain(tokens: Seq<Spanned<TokenModel>>, pos: int, min_bp: u32)
    requires
        all_lexed(tokens),
        parsed_expression(tokens, pos, min_bp) is Some,
    ensures
        plain(parsed_expression(tokens, pos, min_bp)->Some_0.0),
    decreases tokens.len() - pos, 0int,
{
    lemma_parsed_prefix_plain(tokens, pos + 1, tokens[pos]);
    let (left, p) = parsed_prefix(tokens, pos + 1, tokens[pos])->Some_0;
    lemma_parsed_infixes_plain(tokens, p, left, min_bp, opens_group(tokens[pos]));
}

proof fn lemma_parsed_prefix_plain(
    tokens: Seq<Spanned<TokenModel>>,
    pos: int,
    t: Spanned<TokenModel>,
)
    requires
        all_lexed(tokens),
        lexed(t.data),
        parsed_prefix(tokens, pos, t) is Some,
    ensures
        plain(parsed_prefix(tokens, pos, t)->Some_0.0),
    decreases tokens.len() - pos, 1int,
{
    match t.data {
        TokenModel::Operator(_) => {
            if parsed_expression(tokens, pos, PREFIX_BP) is Some {
                lemma_parsed_expression_plain(tokens, pos, PREFIX_BP);
            }
            if parsed_expression(tokens, pos, 0) is Some {
                lemma_parsed_expression_plain(tokens, pos, 0);
            }
        },
        _ => {},
    }
}

proof fn lemma_parsed_infixes_plain(
    tokens: Seq<Spanned<TokenModel>>,
    pos: int,
    left: Spanned<ExprModel>,
    min_bp: u32,
    grouped: bool,
)
    requires
        all_lexed(tokens),
        plain(left),
        parsed_infixes(tokens, pos, left, min_bp, grouped) is Some,
    ensures
        plain(parsed_infixes(tokens, pos, left, min_bp, grouped)->Some_0.0),
    decreases tokens.len() - pos, 1int,
{
    if 0 <= pos < tokens.len() {
        if can_start_expression(tokens[pos].data) && !is_bare_name(left, grouped) && IMPLICIT_MUL_BP
            > min_bp {
            lemma_parsed_expression_plain(tokens, pos, IMPLICIT_MUL_BP);
            let (rhs, p) = parsed_expression(tokens, pos, IMPLICIT_MUL_BP)->Some_0;
            lemma_parsed_infixes_plain(
                tokens,
                p,
                binary_node(BinaryOp::Multiplication, left, rhs),
                min_bp,
                false,
            );
        } else if binding_power(tokens[pos].data) > min_bp {
            lemma_parsed_infix_plain(tokens, pos + 1, left, tokens[pos]);
            let (next, p) = parsed_infix(tokens, pos + 1, left, tokens[pos])->Some_0;
            lemma_parsed_infixes_plain(tokens, p, next, min_bp, false);
        }
    }
}

proof fn lemma_parsed_infix_plain(
    tokens: Seq<Spanned<TokenModel>>,
    pos: int,
    left: Spanned<ExprModel>,
    t: Spanned<TokenModel>,
)
    requires
        all_lexed(tokens),
        lexed(t.data),
        plain(left),
        parsed_infix(tokens, pos, left, t) is Some,
    ensures
        plain(parsed_infix(tokens, pos, left, t)->Some_0.0),
    decreases tokens.len() - pos, 2int,
{
    match t.data {
        TokenModel::Operator(Operator::Binary(op)) => {
            lemma_parsed_expression_plain(tokens, pos, right_binding_power(op));
        },
        TokenModel::Operator(Operator::Grouping(GroupingOp::LeftParen)) => {
            if pos < tokens.len() && !is_operator(
                tokens[pos],
                Operator::Grouping(GroupingOp::RightParen),
            ) {
                lemma_parsed_list_plain(tokens, pos, (COMMA_BP + 1) as u32, Seq::empty());
            }
        },
        TokenModel::Operator(Operator::Grouping(GroupingOp::Comma)) => {
            let first = sequence_start(left);
            assert forall|i: int| 0 <= i < first.len() implies plain(#[trigger] first[i]) by {}
            lemma_parsed_list_plain(tokens, pos, COMMA_BP, first);
            let all = parsed_list(tokens, pos, COMMA_BP, first)->Some_0.0;
            assert(all[0] == first[0]);
        },
        TokenModel::Operator(Operator::TernaryOp(TernaryOp::TernaryCond)) => {
            lemma_parsed_expression_plain(tokens, pos, 0);
            let (statement1, p) = parsed_expression(tokens, pos, 0)->Some_0;
            lemma_parsed_expression_plain(tokens, p + 1, ELSE_BP);
        },
        _ => {},
    }
}

proof fn lemma_parsed_list_plain(
    tokens: Seq<Spanned<TokenModel>>,
    pos: int,
    bp: u32,
    acc: Seq<Spanned<ExprModel>>,
)
    requires
        all_lexed(tokens),
        forall|i: int| 0 <= i < acc.len() ==> plain(#[trigger] acc[i]),
        parsed_list(tokens, pos, bp, acc) is Some,
    ensures
        parsed_list(tokens, pos, bp, acc)->Some_0.0.len() > acc.len(),
        forall|i: int|
            0 <= i < acc.len() ==> parsed_list(tokens, pos, bp, acc)->Some_0.0[i] == acc[i],
        forall|i: int|
            0 <= i < parsed_list(tokens, pos, bp, acc)->Some_0.0.len() ==> plain(
                #[trigger] parsed_list(tokens, pos, bp, acc)->Some_0.0[i],
            ),
    decreases tokens.len() - pos, 1int,
{
    lemma_parsed_expression_plain(tokens, pos, bp);
    let (e, p) = parsed_expression(tokens, pos, bp)->Some_0;
    let next = acc.push(e);
    assert forall|i: int| 0 <= i < next.len() implies plain(#[trigger] next[i]) by {
        if i < acc.len() {
            assert(next[i] == acc[i]);
        }
    }
    if pos <= p < tokens.len() && is_operator(tokens[p], Operator::Grouping(GroupingOp::Comma)) {
        lemma_parsed_list_plain(tokens, p + 1, bp, next);
        let all = parsed_list(tokens, p + 1, bp, next)->Some_0.0;
        assert forall|i: int| 0 <= i < acc.len() implies all[i] == acc[i] by {
            assert(all[i] == next[i]);
        }
    }
}

/// Computing the spans anew leaves an expression plain.
proof fn lemma_respanned_plain(e: Spanned<ExprModel>)
    requires
        plain(e),
    ensures
        plain(respanned(e)),
        respanned(e).data is Comma == e.data is Comma,
    decreases e,
{
    match e.data {
        ExprModel::Unary { op, rhs } => {
            lemma_respanned_plain(*rhs);
        },
        ExprModel::Binary { op, lhs, rhs } => {
            lemma_respanned_plain(*lhs);
            lemma_respanned_plain(*rhs);
        },
        ExprModel::Ternary { cond, statement1, statement2 } => {
            lemma_respanned_plain(*cond);
            lemma_respanned_plain(*statement1);
            lemma_respanned_plain(*statement2);
        },
        ExprModel::Comma { exprs } => {
            let members = respanned(e).data->Comma_exprs;
            assert forall|i: int| 0 <= i < members.len() implies plain(#[trigger] members[i]) by {
                lemma_respanned_plain(exprs[i]);
            }
            lemma_respanned_plain(exprs[0]);
            assert(members[0] == respanned(exprs[0]));
        },
        ExprModel::Call { func, args } => {
            lemma_respanned_plain(*func);
            let members = respanned(e).data->Call_args;
            assert forall|i: int| 0 <= i < members.len() implies plain(#[trigger] members[i]) by {
                lemma_respanned_plain(args[i]);
            }
        },
        _ => {},
    }
}

/// The tree that is parsed from a text is plain.
pub proof fn law_parsed_tree_is_plain(
    src: Seq<char>,
    bytes: Seq<u8>,
    pf: spec_fn(Seq<char>) -> Option<u64>,
)
    requires
        parse_of(src, bytes, pf) is Ok,
    ensures
        plain(parse_of(src, bytes, pf)->Ok_0),
{
    law_tokens_are_lexed(bytes, pf);
    let tokens = tokens_of(bytes, pf)->Ok_0;
    assert(all_lexed(tokens));
    lemma_parsed_expression_plain(tokens, 0, 0);
    lemma_respanned_plain(parsed_expression(tokens, 0, 0)->Some_0.0);
}

/// Whether every float in the expression is written as a float text that
/// the float parser reads back as the float.
pub open spec fn floats_read_back(
    e: Spanned<ExprModel>,
    ft: spec_fn(u64) -> Seq<char>,
    pf: spec_fn(Seq<char>) -> Option<u64>,
) -> bool
    decreases e,
{
    match e.data {
        ExprModel::Value(Value::Float(f)) => is_float_text(float_literal(ft(f))) && pf(
            float_literal(ft(f)),
        ) == Some(f),
        ExprModel::Unary { op, rhs } => floats_read_back(*rhs, ft, pf),
        ExprModel::Binary { op, lhs, rhs } => floats_read_back(*lhs, ft, pf) && floats_read_back(
            *rhs,
            ft,
            pf,
        ),
        ExprModel::Ternary { cond, statement1, statement2 } => floats_read_back(*cond, ft, pf)
            && floats_read_back(*statement1, ft, pf) && floats_read_back(*statement2, ft, pf),
        ExprModel::Comma { exprs } => forall|i: int|
            0 <= i < exprs.len() ==> floats_read_back(#[trigger] exprs[i], ft, pf),
        ExprModel::Call { func, args } => floats_read_back(*func, ft, pf) && forall|i: int|
            0 <= i < args.len() ==> floats_read_back(#[trigger] args[i], ft, pf),
        _ => true,
    }
}

/// A plain expression whose floats read back has nodes that text can say,
/// and its text is read back by the lexer.
proof fn lemma_plain_is_formed(
    e: Spanned<ExprModel>,
    ft: spec_fn(u64) -> Seq<char>,
    pf: spec_fn(Seq<char>) -> Option<u64>,
)
    requires
        plain(e),
        floats_read_back(e, ft, pf),
    ensures
        formed(e),
        lexable(e, ft, pf),
    decreases e,
{
    match e.data {
        ExprModel::Unary { op, rhs } => {
            lemma_plain_is_formed(*rhs, ft, pf);
        },
        ExprModel::Binary { op, lhs, rhs } => {
            lemma_plain_is_formed(*lhs, ft, pf);
            lemma_plain_is_formed(*rhs, ft, pf);
        },
        ExprModel::Ternary { cond, statement1, statement2 } => {
            lemma_plain_is_formed(*cond, ft, pf);
            lemma_plain_is_formed(*statement1, ft, pf);
            lemma_plain_is_formed(*statement2, ft, pf);
        },
        ExprModel::Comma { exprs } => {
            assert forall|i: int| 0 <= i < exprs.len() implies formed(#[trigger] exprs[i])
                && lexable(exprs[i], ft, pf) by {
                lemma_plain_is_formed(exprs[i], ft, pf);
            }
        },
        ExprModel::Call { func, args } => {
            lemma_plain_is_formed(*func, ft, pf);
            assert forall|i: int| 0 <= i < args.len() implies formed(#[trigger] args[i])
                && lexable(args[i], ft, pf) by {
                lemma_plain_is_formed(args[i], ft, pf);
            }
        },
        _ => {},
    }
}

/// The tree of a text can be written as tokens and read again, and does
/// not start with the call of something that is no name.
pub proof fn law_parsed_tree_is_writable(
    src: Seq<char>,
    bytes: Seq<u8>,
    float_text: spec_fn(u64) -> Seq<char>,
    parse_float: spec_fn(Seq<char>) -> Option<u64>,
)
    requires
        parse_of(src, bytes, parse_float) is Ok,
        floats_read_back(parse_of(src, bytes, parse_float)->Ok_0, float_text, parse_float),
    ensures
        writable(parse_of(src, bytes, parse_float)->Ok_0),
        lexable(parse_of(src, bytes, parse_float)->Ok_0, float_text, parse_float),
        !leads_with_call(parse_of(src, bytes, parse_float)->Ok_0),
{
    let tree = parse_of(src, bytes, parse_float)->Ok_0;
    let tokens = tokens_of(bytes, parse_float)->Ok_0;
    let raw = parsed_expression(tokens, 0, 0)->Some_0.0;
    law_parsed_tree_is_plain(src, bytes, parse_float);
    lemma_plain_is_formed(tree, float_text, parse_float);
    law_parsed_calls_are_placed(tokens);
    lemma_respanned_shape(raw);
    lemma_shape_placed(raw, tree);
    lemma_shape_leads(raw, tree);
}

/// Writing the tree of a text as text and parsing that text gives a tree of
/// the same shape, which is written as the same text again.
///
/// This holds of every text that has a parse and whose floats are written
/// as texts that are read back as the same floats.
pub proof fn law_parse_print_parse(
    src: Seq<char>,
    bytes: Seq<u8>,
    float_text: spec_fn(u64) -> Seq<char>,
    parse_float: spec_fn(Seq<char>) -> Option<u64>,
)
    requires
        parse_of(src, bytes, parse_float) is Ok,
        floats_read_back(parse_of(src, bytes, parse_float)->Ok_0, float_text, parse_float),
    ensures
        ({
            let tree = parse_of(src, bytes, parse_float)->Ok_0;
            let text = text_of(tree, 0, float_text);
            let again = parse_of(text, encode_utf8(text), parse_float);
            again is Ok && same_shape(again->Ok_0, tree) && text_of(again->Ok_0, 0, float_text)
                == text
        }),
{
    let tree = parse_of(src, bytes, parse_float)->Ok_0;
    let text = text_of(tree, 0, float_text);
    law_parsed_tree_is_writable(src, bytes, float_text, parse_float);
    law_text_then_parse(tree, float_text, parse_float);
    let again = parse_of(text, encode_utf8(text), parse_float)->Ok_0;
    law_same_shape_same_text(again, tree, 0, float_text);
}

/// An expression that holds no float literal has no float to read back.
proof fn lemma_no_float_reads_back(
    e: Spanned<ExprModel>,
    ft: spec_fn(u64) -> Seq<char>,
    pf: spec_fn(Seq<char>) -> Option<u64>,
)
    requires
        !holds_float(e),
    ensures
        floats_read_back(e, ft, pf),
    decreases e,
{
    match e.data {
        ExprModel::Unary { op, rhs } => {
            lemma_no_float_reads_back(*rhs, ft, pf);
        },
        ExprModel::Binary { op, lhs, rhs } => {
            lemma_no_float_reads_back(*lhs, ft, pf);
            lemma_no_float_reads_back(*rhs, ft, pf);
        },
        ExprModel::Ternary { cond, statement1, statement2 } => {
            lemma_no_float_reads_back(*cond, ft, pf);
            lemma_no_float_reads_back(*statement1, ft, pf);
            lemma_no_float_reads_back(*statement2, ft, pf);
        },
        ExprModel::Comma { exprs } => {
            assert forall|i: int| 0 <= i < exprs.len() implies floats_read_back(
                #[trigger] exprs[i],
                ft,
                pf,
            ) by {
                lemma_no_float_reads_back(exprs[i], ft, pf);
            }
        },
        ExprModel::Call { func, args } => {
            lemma_no_float_reads_back(*func, ft, pf);
            assert forall|i: int| 0 <= i < args.len() implies floats_read_back(
                #[trigger] args[i],
                ft,
                pf,
            ) by {
                lemma_no_float_reads_back(args[i], ft, pf);
            }
        },
        _ => {},
    }
}

/// Writing the tree of a text as text and parsing that text gives a tree of
/// the same shape, which is written as the same text again, whatever
/// writes and reads the floats, where the tree holds no float literal.
pub proof fn law_parse_print_parse_without_floats(
    src: Seq<char>,
    bytes: Seq<u8>,
    float_text: spec_fn(u64) -> Seq<char>,
    parse_float: spec_fn(Seq<char>) -> Option<u64>,
)
    requires
        parse_of(src, bytes, parse_float) is Ok,
        !holds_float(parse_of(src, bytes, parse_float)->Ok_0),
    ensures
        ({
            let tree = parse_of(src, bytes, parse_float)->Ok_0;
            let text = text_of(tree, 0, float_text);
            let again = parse_of(text, encode_utf8(text), parse_float);
            again is Ok && same_shape(again->Ok_0, tree) && text_of(again->Ok_0, 0, float_text)
                == text
        }),
{
    lemma_no_float_reads_back(parse_of(src, bytes, parse_float)->Ok_0, float_text, parse_float);
    law_parse_print_parse(src, bytes, float_text, parse_float);
}

} // verus!
