//! The commands of an interactive shell for the language.
//!
//! A line that starts with a command in square brackets, in capital or small
//! letters, is a command; every other line is an expression to evaluate.

use vstd::prelude::*;

verus! {

/// What a line of input asks for.
#[derive(Debug, Clone, PartialEq, Eq)]
pub enum Command {
    /// `[exit]`: leave the shell.
    Exit,
    /// `[variables]`: list the variables.
    Variables,
    /// `[clear]`: remove every variable.
    Clear,
    /// `[defs]`: list the macros.
    Defs,
    /// `[def names] expr`: bind the expression to each of the names as a macro.
    Define { names: Vec<String>, expr: String },
    /// `[del] name`: remove the variable, if the line names one.
    Delete { name: Option<String> },
    /// No command: the line is an expression.
    Evaluate,
}

/// A command with its texts as sequences of characters.
pub enum CommandModel {
    Exit,
    Variables,
    Clear,
    Defs,
    Define { names: Seq<Seq<char>>, expr: Seq<char> },
    Delete { name: Option<Seq<char>> },
    Evaluate,
}

/// The names of a list as sequences of characters.
pub open spec fn texts(names: Seq<String>) -> Seq<Seq<char>> {
    Seq::new(names.len(), |i: int| names[i]@)
}

impl View for Command {
    type V = CommandModel;

    open spec fn view(&self) -> CommandModel {
        match self {
            Command::Exit => CommandModel::Exit,
            Command::Variables => CommandModel::Variables,
            Command::Clear => CommandModel::Clear,
            Command::Defs => CommandModel::Defs,
            Command::Define { names, expr } => CommandModel::Define {
                names: texts(names@),
                expr: expr@,
            },
            Command::Delete { name } => CommandModel::Delete {
                name: match name {
                    Some(n) => Some(n@),
                    None => None,
                },
            },
            Command::Evaluate => CommandModel::Evaluate,
        }
    }
}

/// The small letter for an ASCII capital letter, and every other character
/// as it is.
pub open spec fn lowered(c: char) -> char {
    if 'A' <= c <= 'Z' {
        ((c as u8) + 32) as u8 as char
    } else {
        c
    }
}

/// Whether the text starts with `word`, which is in small letters, in
/// capital or small letters.
pub open spec fn starts_with_word(input: Seq<char>, word: Seq<char>) -> bool {
    input.len() >= word.len() && forall|i: int|
        0 <= i < word.len() ==> lowered(#[trigger] input[i]) == word[i]
}

/// Whether the character is white space.
pub open spec fn is_white(c: char) -> bool {
    ('\u{9}' <= c <= '\u{d}') || c == ' ' || c == '\u{85}' || c == '\u{a0}' || c == '\u{1680}' || (
    '\u{2000}' <= c <= '\u{200a}') || c == '\u{2028}' || c == '\u{2029}' || c == '\u{202f}' || c
        == '\u{205f}' || c == '\u{3000}'
}

/// The first position at or after `from` that holds no white space.
pub open spec fn white_end(s: Seq<char>, from: int) -> int
    decreases s.len() - from,
{
    if 0 <= from < s.len() && is_white(s[from]) {
        white_end(s, from + 1)
    } else {
        from
    }
}

/// The first position at or after `from` that holds white space, or the end.
pub open spec fn word_end(s: Seq<char>, from: int) -> int
    decreases s.len() - from,
{
    if 0 <= from < s.len() && !is_white(s[from]) {
        word_end(s, from + 1)
    } else {
        from
    }
}

/// The first position at or after `from` that holds `c`, or the end.
pub open spec fn position_of(s: Seq<char>, c: char, from: int) -> int
    decreases s.len() - from,
{
    if 0 <= from < s.len() && s[from] != c {
        position_of(s, c, from + 1)
    } else {
        from
    }
}

/// The words of `s[from..to]`: the stretches between white space.
pub open spec fn words(s: Seq<char>, from: int, to: int) -> Seq<Seq<char>>
    decreases to - from,
{
    let start = white_end(s.take(to), from);
    let end = word_end(s.take(to), start);
    if from < 0 || to > s.len() || start >= to || end <= from || end > to {
        Seq::empty()
    } else {
        seq![s.subrange(start, end)] + words(s, end, to)
    }
}

/// The text from `from` on without the white space at its start.
pub open spec fn rest_trimmed(s: Seq<char>, from: int) -> Seq<char> {
    if 0 <= from <= s.len() {
        s.subrange(white_end(s, from), s.len() as int)
    } else {
        Seq::empty()
    }
}

/// The name that `[del]` names: what stands between the `]` of the command
/// and the next `]` or the end of the line, if it starts with one space and
/// ends with a carriage return and a line feed, without these three.
pub open spec fn deleted_name(input: Seq<char>) -> Option<Seq<char>> {
    let end = position_of(input, ']', 5);
    if 5 <= end <= input.len() && end - 5 >= 3 && input[5] == ' ' && input[end - 2] == '\r'
        && input[end - 1] == '\n' {
        Some(input.subrange(6, end - 2))
    } else {
        None
    }
}

/// The command of a line.
pub open spec fn command_of(input: Seq<char>) -> CommandModel {
    if starts_with_word(input, "[exit]"@) {
        CommandModel::Exit
    } else if starts_with_word(input, "[variables]"@) {
        CommandModel::Variables
    } else if starts_with_word(input, "[clear]"@) {
        CommandModel::Clear
    } else if starts_with_word(input, "[defs]"@) {
        CommandModel::Defs
    } else if starts_with_word(input, "[def "@) {
        let close = position_of(input, ']', 0);
        if close < input.len() {
            CommandModel::Define {
                names: words(input, 5, close),
                expr: rest_trimmed(input, close + 1),
            }
        } else {
            CommandModel::Evaluate
        }
    } else if starts_with_word(input, "[del]"@) {
        CommandModel::Delete { name: deleted_name(input) }
    } else {
        CommandModel::Evaluate
    }
}

/// Whether a line asks for the tokens and the tree to be shown: it starts
/// with `[debug]`.
pub open spec fn asks_debug(input: Seq<char>) -> bool {
    starts_with_word(input, "[debug]"@)
}

fn lower(c: char) -> (r: char)
    ensures
        r == lowered(c),
{
    if 'A' <= c && c <= 'Z' {
        ((c as u8) + 32) as char
    } else {
        c
    }
}

fn white(c: char) -> (r: bool)
    ensures
        r == is_white(c),
{
    ('\u{9}' <= c && c <= '\u{d}') || c == ' ' || c == '\u{85}' || c == '\u{a0}' || c
        == '\u{1680}' || ('\u{2000}' <= c && c <= '\u{200a}') || c == '\u{2028}' || c
        == '\u{2029}' || c == '\u{202f}' || c == '\u{205f}' || c == '\u{3000}'
}

/// The characters of a text.
fn characters(s: &str) -> (r: Vec<char>)
    ensures
        r@ == s@,
{
    let n = s.unicode_len();
    let mut out: Vec<char> = Vec::new();
    let mut i: usize = 0;
    while i < n
        invariant
            i <= n,
            n == s@.len(),
            out@ == s@.take(i as int),
        decreases n - i,
    {
        out.push(s.get_char(i));
        i = i + 1;
        proof {
            assert(out@ =~= s@.take(i as int));
        }
    }
    proof {
        assert(s@.take(n as int) =~= s@);
    }
    out
}

/// The text of `chars[from..to]`.
fn text_between(chars: &Vec<char>, from: usize, to: usize) -> (r: String)
    requires
        from <= to <= chars@.len(),
    ensures
        r@ == chars@.subrange(from as int, to as int),
{
    let mut out = String::new();
    let mut i: usize = from;
    proof {
        assert(out@ =~= chars@.subrange(from as int, from as int));
    }
    while i < to
        invariant
            from <= i <= to,
            to <= chars@.len(),
            out@ == chars@.subrange(from as int, i as int),
        decreases to - i,
    {
        out.push(chars[i]);
        i = i + 1;
        proof {
            assert(out@ =~= chars@.subrange(from as int, i as int));
        }
    }
    out
}

fn starts_with(chars: &Vec<char>, word: &str) -> (r: bool)
    ensures
        r == starts_with_word(chars@, word@),
{
    let n = word.unicode_len();
    if chars.len() < n {
        return false;
    }
    let mut i: usize = 0;
    while i < n
        invariant
            i <= n,
            n == word@.len(),
            n <= chars@.len(),
            forall|j: int| 0 <= j < i ==> lowered(#[trigger] chars@[j]) == word@[j],
        decreases n - i,
    {
        if lower(chars[i]) != word.get_char(i) {
            return false;
        }
        i = i + 1;
    }
    true
}

fn skip_white(chars: &Vec<char>, from: usize, to: usize) -> (r: usize)
    requires
        from <= to <= chars@.len(),
    ensures
        r == white_end(chars@.take(to as int), from as int),
        from <= r <= to,
        r < to ==> !is_white(chars@[r as int]),
{
    let mut i = from;
    while i < to && white(chars[i])
        invariant
            from <= i <= to,
            to <= chars@.len(),
            white_end(chars@.take(to as int), from as int) == white_end(
                chars@.take(to as int),
                i as int,
            ),
        decreases to - i,
    {
        i = i + 1;
    }
    i
}

fn skip_word(chars: &Vec<char>, from: usize, to: usize) -> (r: usize)
    requires
        from <= to <= chars@.len(),
    ensures
        r == word_end(chars@.take(to as int), from as int),
        from <= r <= to,
        from < to && !is_white(chars@[from as int]) ==> from < r,
{
    let mut i = from;
    while i < to && !white(chars[i])
        invariant
            from <= i <= to,
            to <= chars@.len(),
            word_end(chars@.take(to as int), from as int) == word_end(
                chars@.take(to as int),
                i as int,
            ),
        decreases to - i,
    {
        i = i + 1;
    }
    i
}

fn find(chars: &Vec<char>, c: char, from: usize) -> (r: usize)
    requires
        from <= chars@.len(),
    ensures
        r == position_of(chars@, c, from as int),
        from <= r <= chars@.len(),
{
    let mut i = from;
    while i < chars.len() && chars[i] != c
        invariant
            from <= i <= chars@.len(),
            position_of(chars@, c, from as int) == position_of(chars@, c, i as int),
        decreases chars@.len() - i,
    {
        i = i + 1;
    }
    i
}

fn split_words(chars: &Vec<char>, from: usize, to: usize) -> (r: Vec<String>)
    requires
        from <= to <= chars@.len(),
    ensures
        texts(r@) == words(chars@, from as int, to as int),
{
    let mut out: Vec<String> = Vec::new();
    let mut at = from;
    proof {
        assert(texts(out@) =~= Seq::<Seq<char>>::empty());
        assert(Seq::<Seq<char>>::empty() + words(chars@, from as int, to as int) =~= words(
            chars@,
            from as int,
            to as int,
        ));
    }
    loop
        invariant
            from <= at <= to,
            to <= chars@.len(),
            texts(out@) + words(chars@, at as int, to as int) == words(
                chars@,
                from as int,
                to as int,
            ),
        ensures
            texts(out@) == words(chars@, from as int, to as int),
        decreases to - at,
    {
        let start = skip_white(chars, at, to);
        if start >= to {
            proof {
                assert(words(chars@, at as int, to as int) =~= Seq::<Seq<char>>::empty());
                assert(texts(out@) + Seq::<Seq<char>>::empty() =~= texts(out@));
            }
            break ;
        }
        let end = skip_word(chars, start, to);
        let word = text_between(chars, start, end);
        let ghost before = texts(out@);
        out.push(word);
        proof {
            assert(texts(out@) =~= before.push(chars@.subrange(start as int, end as int)));
            assert(before + (seq![chars@.subrange(start as int, end as int)] + words(
                chars@,
                end as int,
                to as int,
            )) =~= texts(out@) + words(chars@, end as int, to as int));
        }
        at = end;
    }
    out
}

/// Reads the command of a line.
pub fn parse_command(input: &str) -> (r: Command)
    ensures
        r@ == command_of(input@),
{
    let chars = characters(input);
    if starts_with(&chars, "[exit]") {
        Command::Exit
    } else if starts_with(&chars, "[variables]") {
        Command::Variables
    } else if starts_with(&chars, "[clear]") {
        Command::Clear
    } else if starts_with(&chars, "[defs]") {
        Command::Defs
    } else if starts_with(&chars, "[def ") {
        proof {
            reveal_strlit("[def ");
        }
        let close = find(&chars, ']', 0);
        if close < chars.len() {
            assert(close >= 5) by {
                lemma_no_bracket_in_def(chars@);
            }
            let names = split_words(&chars, 5, close);
            let start = skip_white(&chars, close + 1, chars.len());
            proof {
                assert(chars@.take(chars@.len() as int) =~= chars@);
            }
            let expr = text_between(&chars, start, chars.len());
            Command::Define { names, expr }
        } else {
            Command::Evaluate
        }
    } else if starts_with(&chars, "[del]") {
        proof {
            reveal_strlit("[del]");
        }
        let end = find(&chars, ']', 5);
        let name = if end - 5 >= 3 && chars[5] == ' ' && chars[end - 2] == '\r' && chars[end - 1]
            == '\n' {
            Some(text_between(&chars, 6, end - 2))
        } else {
            None
        };
        Command::Delete { name }
    } else {
        Command::Evaluate
    }
}

/// A line that starts with `[def ` has no `]` among its first five characters.
proof fn lemma_no_bracket_in_def(s: Seq<char>)
    requires
        starts_with_word(s, "[def "@),
    ensures
        position_of(s, ']', 0) >= 5,
{
    reveal_strlit("[def ");
    assert(lowered(s[0]) == '[' && lowered(s[1]) == 'd' && lowered(s[2]) == 'e' && lowered(s[3])
        == 'f' && lowered(s[4]) == ' ');
    lemma_lowered_bracket(s[0]);
    lemma_lowered_bracket(s[1]);
    lemma_lowered_bracket(s[2]);
    lemma_lowered_bracket(s[3]);
    lemma_lowered_bracket(s[4]);
    assert(s[0] != ']' && s[1] != ']' && s[2] != ']' && s[3] != ']' && s[4] != ']');
    assert(position_of(s, ']', 0) == position_of(s, ']', 1));
    assert(position_of(s, ']', 1) == position_of(s, ']', 2));
    assert(position_of(s, ']', 2) == position_of(s, ']', 3));
    assert(position_of(s, ']', 3) == position_of(s, ']', 4));
    assert(position_of(s, ']', 4) == position_of(s, ']', 5));
    lemma_position_forward(s, ']', 5);
}

/// A character is found at or after the position from which it is sought.
proof fn lemma_position_forward(s: Seq<char>, c: char, from: int)
    requires
        0 <= from <= s.len(),
    ensures
        from <= position_of(s, c, from) <= s.len(),
    decreases s.len() - from,
{
    if from < s.len() && s[from] != c {
        lemma_position_forward(s, c, from + 1);
    }
}

/// A closing bracket stays a closing bracket in small letters.
proof fn lemma_lowered_bracket(c: char)
    ensures
        c == ']' ==> lowered(c) == ']',
{
}

/// Takes `[debug]` from the start of a line: tells whether the line starts
/// with it, and returns the rest of the line without the white space at its
/// start, or the line as it is.
pub fn strip_debug(input: &str) -> (r: (bool, String))
    ensures
        r.0 == asks_debug(input@),
        r.1@ == if r.0 {
            rest_trimmed(input@, 7)
        } else {
            input@
        },
{
    let chars = characters(input);
    if starts_with(&chars, "[debug]") {
        proof {
            reveal_strlit("[debug]");
            assert(chars@.take(chars@.len() as int) =~= chars@);
        }
        let start = skip_white(&chars, 7, chars.len());
        (true, text_between(&chars, start, chars.len()))
    } else {
        let mut same = String::new();
        same.append(input);
        assert(same@ =~= input@);
        (false, same)
    }
}

} // verus!
