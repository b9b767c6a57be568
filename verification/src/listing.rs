//! Listings of the variables and of the macros, in the order of their names.

use crate::debug::{expr_to_text, expr_tree_text, holds_float, text_of, tree_text};
use crate::error::eval_error::{shown_value, value_shown};
use crate::evaluater::{macro_models, Environment, MacroTable};
use crate::parser::{Expr, ExprModel};
use crate::span::Spanned;
use crate::table::{distinct_names, Table};
use crate::value::{is_float, writes_floats, writes_text, Value};
use vstd::prelude::*;

verus! {

/// Whether `a` stands before `b` in the order of texts: character by
/// character by the number of the character, a text before every text that
/// it starts.
pub open spec fn text_before(a: Seq<char>, b: Seq<char>) -> bool
    decreases a.len(),
{
    if b.len() == 0 {
        false
    } else if a.len() == 0 {
        true
    } else if a[0] != b[0] {
        (a[0] as u32) < (b[0] as u32)
    } else {
        text_before(a.skip(1), b.skip(1))
    }
}

/// No text stands before itself.
pub proof fn lemma_text_before_irreflexive(a: Seq<char>)
    ensures
        !text_before(a, a),
    decreases a.len(),
{
    if a.len() > 0 {
        lemma_text_before_irreflexive(a.skip(1));
    }
}

/// Of two different texts one stands before the other.
pub proof fn lemma_text_before_total(a: Seq<char>, b: Seq<char>)
    requires
        a != b,
    ensures
        text_before(a, b) || text_before(b, a),
    decreases a.len(),
{
    if a.len() > 0 && b.len() > 0 {
        if a[0] == b[0] {
            if a.skip(1) == b.skip(1) {
                assert(a =~= seq![a[0]] + a.skip(1));
                assert(b =~= seq![b[0]] + b.skip(1));
            }
            lemma_text_before_total(a.skip(1), b.skip(1));
        } else {
            lemma_char_numbers_differ(a[0], b[0]);
        }
    } else if a.len() == 0 && b.len() == 0 {
        assert(a =~= b);
    }
}

/// Different characters have different numbers.
proof fn lemma_char_numbers_differ(c: char, d: char)
    requires
        c != d,
    ensures
        c as u32 != d as u32,
{
}

/// The order of texts is transitive.
pub proof fn lemma_text_before_transitive(a: Seq<char>, b: Seq<char>, c: Seq<char>)
    requires
        text_before(a, b),
        text_before(b, c),
    ensures
        text_before(a, c),
    decreases a.len(),
{
    if a.len() > 0 {
        if a[0] == b[0] && b[0] == c[0] {
            lemma_text_before_transitive(a.skip(1), b.skip(1), c.skip(1));
        }
    }
}

/// Whether `a` stands before `b` in the order of texts.
fn stands_before(a: &str, b: &str) -> (r: bool)
    ensures
        r == text_before(a@, b@),
{
    let n = a.unicode_len();
    let m = b.unicode_len();
    let mut i: usize = 0;
    proof {
        assert(a@.skip(0) =~= a@);
        assert(b@.skip(0) =~= b@);
    }
    while i < n && i < m
        invariant
            i <= n,
            i <= m,
            n == a@.len(),
            m == b@.len(),
            text_before(a@, b@) == text_before(a@.skip(i as int), b@.skip(i as int)),
        decreases n - i,
    {
        let c = a.get_char(i);
        let d = b.get_char(i);
        proof {
            assert(a@.skip(i as int)[0] == c);
            assert(b@.skip(i as int)[0] == d);
            assert(a@.skip(i as int).skip(1) =~= a@.skip(i + 1));
            assert(b@.skip(i as int).skip(1) =~= b@.skip(i + 1));
        }
        if c != d {
            return (c as u32) < (d as u32);
        }
        i = i + 1;
    }
    proof {
        assert(a@.skip(i as int).len() == n - i);
        assert(b@.skip(i as int).len() == m - i);
    }
    i < m
}

/// Whether the slots are as many as the entries, each the slot of an entry,
/// and the names in them stand one before the other in the order of texts,
/// so that no slot is named twice.
pub open spec fn in_name_order<T>(order: Seq<usize>, entries: Seq<(Seq<char>, T)>) -> bool {
    &&& order.len() == entries.len()
    &&& forall|k: int| 0 <= k < order.len() ==> (#[trigger] order[k]) < entries.len()
    &&& forall|j: int, k: int|
        0 <= j < k < order.len() ==> text_before(
            entries[(#[trigger] order[j]) as int].0,
            entries[(#[trigger] order[k]) as int].0,
        )
}

/// Whether each of the first `n` slots is among `order`.
pub open spec fn holds_slots(order: Seq<usize>, n: nat) -> bool {
    forall|slot: usize| slot < n ==> #[trigger] order.contains(slot)
}

/// The slots of a table in the ascending order of their names.
pub fn sorted_slots<T>(table: &Table<T>) -> (order: Vec<usize>)
    ensures
        in_name_order(order@, table@),
        holds_slots(order@, table@.len()),
{
    let n = table.len();
    let mut order: Vec<usize> = Vec::new();
    let mut i: usize = 0;
    while i < n
        invariant
            i <= n,
            n == table@.len(),
            distinct_names(table@),
            order@.len() == i,
            holds_slots(order@, i as nat),
            forall|k: int| 0 <= k < order@.len() ==> (#[trigger] order@[k]) < i,
            forall|j: int, k: int|
                0 <= j < k < order@.len() ==> text_before(
                    table@[(#[trigger] order@[j]) as int].0,
                    table@[(#[trigger] order@[k]) as int].0,
                ),
        decreases n - i,
    {
        let name = table.name(i);
        let mut p: usize = 0;
        while p < order.len() && !stands_before(name.as_str(), table.name(order[p]).as_str())
            invariant
                p <= order@.len(),
                order@.len() == i,
                i < n,
                n == table@.len(),
                name@ == table@[i as int].0,
                forall|k: int| 0 <= k < order@.len() ==> (#[trigger] order@[k]) < i,
                forall|k: int|
                    0 <= k < p ==> !text_before(name@, table@[(#[trigger] order@[k]) as int].0),
            decreases order@.len() - p,
        {
            p = p + 1;
        }
        let ghost before = order@;
        order.insert(p, i);
        proof {
            let after = order@;
            assert forall|slot: usize| slot < i + 1 implies #[trigger] after.contains(slot) by {
                if slot == i {
                    assert(after[p as int] == slot);
                } else {
                    assert(before.contains(slot));
                    let k = choose|k: int| 0 <= k < before.len() && before[k] == slot;
                    if k < p {
                        assert(after[k] == slot);
                    } else {
                        assert(after[k + 1] == before[k]);
                    }
                }
            }
            assert forall|k: int| 0 <= k < after.len() implies (#[trigger] after[k]) < i + 1 by {
                if k < p {
                    assert(after[k] == before[k]);
                } else if k > p {
                    assert(after[k] == before[k - 1]);
                }
            }
            assert forall|j: int, k: int| 0 <= j < k < after.len() implies text_before(
                table@[(#[trigger] after[j]) as int].0,
                table@[(#[trigger] after[k]) as int].0,
            ) by {
                let a = table@[after[j] as int].0;
                let b = table@[after[k] as int].0;
                if k < p {
                    assert(after[j] == before[j] && after[k] == before[k]);
                } else if j > p {
                    assert(after[j] == before[j - 1] && after[k] == before[k - 1]);
                } else if j < p && k > p {
                    assert(after[j] == before[j] && after[k] == before[k - 1]);
                } else if k == p {
                    // an entry before the new one: the new name does not stand before it
                    assert(after[j] == before[j]);
                    assert(before[j] < i);
                    assert(table@[before[j] as int].0 != table@[i as int].0);
                    lemma_text_before_total(a, b);
                } else {
                    // the new entry before one behind it
                    assert(j == p);
                    assert(after[k] == before[k - 1]);
                    assert(text_before(name@, table@[before[p as int] as int].0));
                    if k - 1 > p {
                        lemma_text_before_transitive(
                            name@,
                            table@[before[p as int] as int].0,
                            table@[before[k - 1] as int].0,
                        );
                    }
                }
            }
        }
        i = i + 1;
    }
    order
}

/// The line of a variable in a listing.
pub open spec fn variable_line(name: Seq<char>, v: Value, ft: spec_fn(u64) -> Seq<char>) -> Seq<
    char,
> {
    "  "@ + name + " = "@ + value_shown(v, ft) + seq!['\n']
}

/// The lines of the variables in the slots of `order` from the `k`-th on.
pub open spec fn variable_lines(
    variables: Seq<(Seq<char>, Value)>,
    order: Seq<usize>,
    k: int,
    ft: spec_fn(u64) -> Seq<char>,
) -> Seq<char>
    decreases order.len() - k,
{
    if k < 0 || k >= order.len() {
        Seq::empty()
    } else {
        variable_line(variables[order[k] as int].0, variables[order[k] as int].1, ft)
            + variable_lines(variables, order, k + 1, ft)
    }
}

/// Whether a variable holds a float.
pub open spec fn holds_float_variable(variables: Seq<(Seq<char>, Value)>) -> bool {
    exists|i: int| 0 <= i < variables.len() && is_float((#[trigger] variables[i]).1)
}

/// Whether a macro holds a float literal.
pub open spec fn holds_float_macro(macros: Seq<(Seq<char>, Spanned<ExprModel>)>) -> bool {
    exists|i: int| 0 <= i < macros.len() && holds_float((#[trigger] macros[i]).1)
}

/// The variables as lines of text in the order of their names, each with its
/// value, or one line that says that there are none.
pub fn variables_listing<F: Fn(u64) -> String>(variables: &Environment, float_text: &F) -> (r: (
    Vec<usize>,
    String,
))
    requires
        forall|bits: u64| call_requires(float_text, (bits,)),
    ensures
        in_name_order(r.0@, variables@),
        holds_slots(r.0@, variables@.len()),
        !holds_float_variable(variables@) ==> forall|ft: spec_fn(u64) -> Seq<char>|
            r.1@ == if variables@.len() == 0 {
                "  <empty>\n"@
            } else {
                #[trigger] variable_lines(variables@, r.0@, 0, ft)
            },
        forall|ft: spec_fn(u64) -> Seq<char>| #[trigger]
            writes_floats(float_text, ft) ==> r.1@ == if variables@.len() == 0 {
                "  <empty>\n"@
            } else {
                variable_lines(variables@, r.0@, 0, ft)
            },
{
    let order = sorted_slots(variables);
    let mut out = String::new();
    if variables.len() == 0 {
        out.append("  <empty>\n");
        assert(out@ =~= "  <empty>\n"@);
        return (order, out);
    }
    let mut k: usize = 0;
    while k < order.len()
        invariant
            k <= order@.len(),
            in_name_order(order@, variables@),
            forall|bits: u64| call_requires(float_text, (bits,)),
            forall|ft: spec_fn(u64) -> Seq<char>| #[trigger]
                writes_text(float_text, ft, holds_float_variable(variables@)) ==> out@ + variable_lines(
                    variables@,
                    order@,
                    k as int,
                    ft,
                ) == variable_lines(variables@, order@, 0, ft),
        decreases order@.len() - k,
    {
        let slot = order[k];
        let ghost before = out@;
        out.append("  ");
        out.append(variables.name(slot).as_str());
        out.append(" = ");
        let shown = shown_value(variables.get(slot), float_text);
        out.append(shown.as_str());
        out.push('\n');
        proof {
            assert forall|ft: spec_fn(u64) -> Seq<char>| #[trigger]
                writes_text(float_text, ft, holds_float_variable(variables@)) implies out@ + variable_lines(
                variables@,
                order@,
                k + 1,
                ft,
            ) == variable_lines(variables@, order@, 0, ft) by {
                assert(is_float(variables@[slot as int].1) ==> holds_float_variable(variables@));
                assert(writes_text(float_text, ft, is_float(variables@[slot as int].1)));
                let value_text = value_shown(variables@[slot as int].1, ft);
                assert(shown@ == value_text);
                let line = variable_line(
                    variables@[slot as int].0,
                    variables@[slot as int].1,
                    ft,
                );
                let rest = variable_lines(variables@, order@, k + 1, ft);
                assert(out@ =~= before + line);
                assert(out@ + rest =~= before + (line + rest));
            }
        }
        k = k + 1;
    }
    proof {
        assert forall|ft: spec_fn(u64) -> Seq<char>| #[trigger]
            writes_text(float_text, ft, holds_float_variable(variables@)) implies out@ == variable_lines(
            variables@,
            order@,
            0,
            ft,
        ) by {
            assert(out@ + variable_lines(variables@, order@, order@.len() as int, ft) =~= out@);
        }
        assert forall|ft: spec_fn(u64) -> Seq<char>| #[trigger]
            writes_floats(float_text, ft) implies out@ == variable_lines(
            variables@,
            order@,
            0,
            ft,
        ) by {
            assert(writes_text(float_text, ft, holds_float_variable(variables@)));
        }
        if !holds_float_variable(variables@) {
            assert forall|ft: spec_fn(u64) -> Seq<char>|
                out@ == #[trigger] variable_lines(variables@, order@, 0, ft) by {
                assert(writes_text(float_text, ft, holds_float_variable(variables@)));
            }
        }
    }
    (order, out)
}

/// The lines of a macro in a listing: its name in braces and its expression
/// as text, and below them, if `tree` is set, the tree of the expression.
pub open spec fn macro_lines(
    name: Seq<char>,
    e: Spanned<ExprModel>,
    tree: bool,
    ft: spec_fn(u64) -> Seq<char>,
) -> Seq<char> {
    "  MACRO {"@ + name + "} = "@ + text_of(e, 0, ft) + seq!['\n'] + (if tree {
        tree_text(e, 2, ft)
    } else {
        Seq::empty()
    })
}

/// The lines of the macros in the slots of `order` from the `k`-th on.
pub open spec fn macros_lines(
    macros: Seq<(Seq<char>, Spanned<ExprModel>)>,
    order: Seq<usize>,
    k: int,
    tree: bool,
    ft: spec_fn(u64) -> Seq<char>,
) -> Seq<char>
    decreases order.len() - k,
{
    if k < 0 || k >= order.len() {
        Seq::empty()
    } else {
        macro_lines(macros[order[k] as int].0, macros[order[k] as int].1, tree, ft) + macros_lines(
            macros,
            order,
            k + 1,
            tree,
            ft,
        )
    }
}

/// The macros as lines of text in the order of their names, each with its
/// expression and, if `tree` is set, the tree of its expression, or one line
/// that says that there are none.
pub fn macros_listing<F: Fn(u64) -> String>(macros: &MacroTable, tree: bool, float_text: &F) -> (r: (
    Vec<usize>,
    String,
))
    requires
        forall|bits: u64| call_requires(float_text, (bits,)),
    ensures
        in_name_order(r.0@, macros@),
        holds_slots(r.0@, macros@.len()),
        !holds_float_macro(macro_models(macros@)) ==> forall|ft: spec_fn(u64) -> Seq<char>|
            r.1@ == if macros@.len() == 0 {
                "  <empty>\n"@
            } else {
                #[trigger] macros_lines(macro_models(macros@), r.0@, 0, tree, ft)
            },
        forall|ft: spec_fn(u64) -> Seq<char>| #[trigger]
            writes_floats(float_text, ft) ==> r.1@ == if macros@.len() == 0 {
                "  <empty>\n"@
            } else {
                macros_lines(macro_models(macros@), r.0@, 0, tree, ft)
            },
{
    let order = sorted_slots(macros);
    let mut out = String::new();
    if macros.len() == 0 {
        out.append("  <empty>\n");
        assert(out@ =~= "  <empty>\n"@);
        return (order, out);
    }
    let mut k: usize = 0;
    while k < order.len()
        invariant
            k <= order@.len(),
            in_name_order(order@, macros@),
            forall|bits: u64| call_requires(float_text, (bits,)),
            forall|ft: spec_fn(u64) -> Seq<char>| #[trigger]
                writes_text(float_text, ft, holds_float_macro(macro_models(macros@))) ==> out@ + macros_lines(
                    macro_models(macros@),
                    order@,
                    k as int,
                    tree,
                    ft,
                ) == macros_lines(macro_models(macros@), order@, 0, tree, ft),
        decreases order@.len() - k,
    {
        let slot = order[k];
        let ghost before = out@;
        out.append("  MACRO {");
        out.append(macros.name(slot).as_str());
        out.append("} = ");
        let text = expr_to_text(macros.get(slot), float_text);
        out.append(text.as_str());
        out.push('\n');
        let ghost head = out@;
        if tree {
            let lines = expr_tree_text(macros.get(slot), 2, float_text);
            out.append(lines.as_str());
        }
        proof {
            assert forall|ft: spec_fn(u64) -> Seq<char>| #[trigger]
                writes_text(float_text, ft, holds_float_macro(macro_models(macros@))) implies out@ + macros_lines(
                macro_models(macros@),
                order@,
                k + 1,
                tree,
                ft,
            ) == macros_lines(macro_models(macros@), order@, 0, tree, ft) by {
                let models = macro_models(macros@);
                assert(models[slot as int].1 == macros@[slot as int].1@);
                assert(holds_float(models[slot as int].1) ==> holds_float_macro(models));
                let body_text = text_of(macros@[slot as int].1@, 0, ft);
                let body_tree = tree_text(macros@[slot as int].1@, 2, ft);
                assert(text@ == body_text);
                let lines = macro_lines(models[slot as int].0, models[slot as int].1, tree, ft);
                let rest = macros_lines(models, order@, k + 1, tree, ft);
                assert(head =~= before + ("  MACRO {"@ + models[slot as int].0 + "} = "@ + text_of(
                    models[slot as int].1,
                    0,
                    ft,
                ) + seq!['\n']));
                assert(out@ =~= before + lines);
                assert(out@ + rest =~= before + (lines + rest));
            }
        }
        k = k + 1;
    }
    proof {
        assert forall|ft: spec_fn(u64) -> Seq<char>| #[trigger]
            writes_text(float_text, ft, holds_float_macro(macro_models(macros@))) implies out@ == macros_lines(
            macro_models(macros@),
            order@,
            0,
            tree,
            ft,
        ) by {
            assert(out@ + macros_lines(
                macro_models(macros@),
                order@,
                order@.len() as int,
                tree,
                ft,
            ) =~= out@);
        }
        assert forall|ft: spec_fn(u64) -> Seq<char>| #[trigger]
            writes_floats(float_text, ft) implies out@ == macros_lines(
            macro_models(macros@),
            order@,
            0,
            tree,
            ft,
        ) by {
            assert(writes_text(float_text, ft, holds_float_macro(macro_models(macros@))));
        }
        if !holds_float_macro(macro_models(macros@)) {
            assert forall|ft: spec_fn(u64) -> Seq<char>|
                out@ == #[trigger] macros_lines(macro_models(macros@), order@, 0, tree, ft) by {
                assert(writes_text(float_text, ft, holds_float_macro(macro_models(macros@))));
            }
        }
    }
    (order, out)
}

} // verus!
