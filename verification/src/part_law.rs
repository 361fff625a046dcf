//! What holds of the parts that others are made of: when a formula changes by itself, what functions of
//! plain numbers are given, and how wildcards and references to blocks are written.
use crate::address::label;
use crate::criteria_law::{is_number, the_number};
use crate::decimal::dec;
use crate::engine::{any_volatile, is_volatile, rows_volatile};
use crate::export_pdf::latin_text;
use crate::number_fn::{numbers_for, planned, Plan};
use crate::parse::Ast;
use crate::pattern::wild_from;
use crate::reading::{work, Given};
use crate::snapshot::RegionRect;
use crate::text::{is_white, trim_end_white};
use crate::value::{FormulaError, Num};
use crate::xlsx_drawing::{abs_text, region_text};
use vstd::prelude::*;

verus! {

proof fn any_changes(list: Seq<Ast>, names: Seq<Seq<char>>)
    ensures
        any_volatile(list, names) == exists|i: int|
            0 <= i < list.len() && is_volatile(#[trigger] list[i], names),
    decreases list.len(),
{
    if list.len() > 0 {
        let fore = list.drop_last();
        any_changes(fore, names);
        if any_volatile(fore, names) {
            let i = choose|i: int| 0 <= i < fore.len() && is_volatile(#[trigger] fore[i], names);
            assert(list[i] == fore[i]);
        }
        if exists|i: int| 0 <= i < list.len() && is_volatile(#[trigger] list[i], names) {
            let i = choose|i: int| 0 <= i < list.len() && is_volatile(#[trigger] list[i], names);
            if i < fore.len() {
                assert(fore[i] == list[i]);
            }
        }
        if is_volatile(list.last(), names) {
            assert(list[list.len() - 1] == list.last());
        }
    }
}

proof fn rows_change(rows: Seq<Seq<Ast>>, names: Seq<Seq<char>>)
    ensures
        forall|i: int|
            0 <= i < rows.len() && any_volatile(#[trigger] rows[i], names) ==> rows_volatile(
                rows,
                names,
            ),
    decreases rows.len(),
{
    if rows.len() > 0 {
        let fore = rows.drop_last();
        rows_change(fore, names);
        assert forall|i: int| 0 <= i < rows.len() && any_volatile(#[trigger] rows[i], names) implies
            rows_volatile(rows, names) by {
            if i < fore.len() {
                assert(fore[i] == rows[i]);
            }
        }
    }
}

/// A formula changes by itself where a part of it does: one side of an operator, an argument of a call
/// or a place of an array. Functions that tell the time change by themselves, and the functions of the
/// list; numbers, texts and references do not.
pub proof fn changes_come_through(
    left: Ast,
    right: Ast,
    args: Seq<Ast>,
    rows: Seq<Seq<Ast>>,
    op: Seq<char>,
    names: Seq<Seq<char>>,
    i: int,
    j: int,
)
    ensures
        is_volatile(Ast::Binary { op, left: Box::new(left), right: Box::new(right) }, names) == (
        is_volatile(left, names) || is_volatile(right, names)),
        is_volatile(Ast::Unary { op, operand: Box::new(left) }, names) == is_volatile(left, names),
        0 <= i < args.len() && is_volatile(args[i], names) ==> is_volatile(
            Ast::Call { name: op, args },
            names,
        ),
        is_volatile(Ast::Call { name: op, args }, names) ==> op == seq!['N', 'O', 'W'] || op
            == seq!['T', 'O', 'D', 'A', 'Y'] || names.contains(op) || exists|m: int|
            0 <= m < args.len() && is_volatile(#[trigger] args[m], names),
        is_volatile(Ast::Call { name: seq!['N', 'O', 'W'], args }, names),
        is_volatile(Ast::Call { name: seq!['T', 'O', 'D', 'A', 'Y'], args }, names),
        names.contains(op) ==> is_volatile(Ast::Call { name: op, args }, names),
        0 <= i < rows.len() && 0 <= j < rows[i].len() && is_volatile(rows[i][j], names)
            ==> is_volatile(Ast::Array(rows), names),
        !is_volatile(Ast::Number(op), names),
        !is_volatile(Ast::Str(op), names),
        !is_volatile(Ast::Ref(op), names),
{
    reveal_strlit("NOW");
    reveal_strlit("TODAY");
    assert("NOW"@ =~= seq!['N', 'O', 'W']);
    assert("TODAY"@ =~= seq!['T', 'O', 'D', 'A', 'Y']);
    any_changes(args, names);
    rows_change(rows, names);
    if 0 <= i < rows.len() {
        any_changes(rows[i], names);
    }
}

proof fn numbers_taken(p: Plan, args: Seq<Given>, n: nat)
    requires
        n <= args.len(),
        forall|i: int|
            0 <= i < n ==> (#[trigger] args[i] matches Given::One(r) && is_number(r)),
    ensures
        numbers_for(p, args, n) == Ok::<Seq<Num>, FormulaError>(
            Seq::new(n, |i: int| the_number(args[i]->One_0)),
        ),
    decreases n,
{
    let out = Seq::new(n, |i: int| the_number(args[i]->One_0));
    if n == 0 {
        assert(out =~= Seq::empty());
    } else {
        let k = (n - 1) as nat;
        numbers_taken(p, args, k);
        assert(args[k as int] matches Given::One(r) && is_number(r));
        assert(out =~= Seq::new(k, |i: int| the_number(args[i]->One_0)).push(
            the_number(args[k as int]->One_0),
        ));
    }
}

/// A function of plain numbers works on its arguments in their order, where no check refuses them.
pub proof fn plain_numbers_keep_their_order(p: Plan, args: Seq<Given>)
    requires
        p.required == args.len(),
        p.defaults.0 is None,
        p.checks.0 is None && p.checks.1 is None && p.checks.2 is None && p.checks.3 is None,
        forall|i: int|
            0 <= i < args.len() ==> (#[trigger] args[i] matches Given::One(r) && is_number(r)),
    ensures
        planned(p, args) == work(
            p.kernel,
            Seq::new(args.len(), |i: int| the_number(args[i]->One_0)),
        ),
{
    numbers_taken(p, args, args.len());
}

proof fn wild_behind(c: char, rest: Seq<char>, i: int)
    requires
        0 <= i,
    ensures
        wild_from(seq![c] + rest, i + 1) == wild_from(rest, i),
    decreases rest.len() - i,
{
    let s = seq![c] + rest;
    if i < rest.len() {
        assert(s[i + 1] == rest[i]);
        wild_behind(c, rest, i + 1);
        if i + 1 < rest.len() {
            assert(s[i + 2] == rest[i + 1]);
            wild_behind(c, rest, i + 2);
        }
    }
}

/// In a wildcard pattern `*` stands for any text, `?` for any character, a letter or a digit for itself,
/// and a wildcard behind `~` for itself; the rest of the pattern follows.
pub proof fn wildcards_are_written_out(c: char, rest: Seq<char>)
    ensures
        wild_from(seq!['*'] + rest, 0) == seq!['.', '*'] + wild_from(rest, 0),
        wild_from(seq!['?'] + rest, 0) == seq!['.'] + wild_from(rest, 0),
        'a' <= c <= 'z' || 'A' <= c <= 'Z' || '0' <= c <= '9' || c == ' ' ==> wild_from(
            seq![c] + rest,
            0,
        ) == seq![c] + wild_from(rest, 0),
        wild_from(seq!['~', '*'] + rest, 0) == seq!['\\', '*'] + wild_from(rest, 0),
        wild_from(seq!['~', '?'] + rest, 0) == seq!['\\', '?'] + wild_from(rest, 0),
        wild_from(Seq::empty(), 0) == Seq::<char>::empty(),
{
    reveal_strlit(".*");
    reveal_strlit(".");
    assert(".*"@ =~= seq!['.', '*']);
    assert("."@ =~= seq!['.']);
    one_wild('*', rest);
    one_wild('?', rest);
    if c != '~' {
        one_wild(c, rest);
    }
    two_wild('*', rest);
    two_wild('?', rest);
}

proof fn one_wild(c: char, rest: Seq<char>)
    requires
        c != '~',
    ensures
        wild_from(seq![c] + rest, 0) == (if c == '*' {
            ".*"@
        } else if c == '?' {
            "."@
        } else {
            crate::pattern::quoted(seq![c])
        }) + wild_from(rest, 0),
        !crate::pattern::is_meta(c) ==> crate::pattern::quoted(seq![c]) == seq![c],
{
    let s = seq![c] + rest;
    assert(s[0] == c);
    wild_behind(c, rest, 0);
    let e = seq![c].drop_last();
    assert(e =~= Seq::empty());
    assert(crate::pattern::quoted(e) == e);
    assert(e.push(c) =~= seq![c]);
}

proof fn two_wild(c: char, rest: Seq<char>)
    requires
        c == '*' || c == '?',
    ensures
        wild_from(seq!['~', c] + rest, 0) == seq!['\\', c] + wild_from(rest, 0),
{
    let s = seq!['~', c] + rest;
    let t = seq![c] + rest;
    assert(s =~= seq!['~'] + t);
    assert(s[0] == '~' && s[1] == c);
    wild_behind('~', t, 1);
    wild_behind(c, rest, 0);
    let e = seq![c].drop_last();
    assert(e =~= Seq::empty());
    assert(crate::pattern::quoted(e) == e);
    assert(e.push('\\').push(c) =~= seq!['\\', c]);
    assert(crate::pattern::quoted(seq![c]) =~= seq!['\\', c]);
}

/// The reference to a block is the absolute address of its first cell and that of its last one; a block
/// of one cell has that cell's alone.
pub proof fn blocks_are_referred_to(g: RegionRect, row: u32, col: u32)
    requires
        g.row + g.row_count <= u32::MAX,
        g.col + g.col_count <= u32::MAX,
        g.row_count > 0,
        g.col_count > 0,
        row == g.row + g.row_count - 1,
        col == g.col + g.col_count - 1,
    ensures
        abs_text(row as int, col as int) == seq!['$'] + label(col as nat) + seq!['$'] + dec(
            (row + 1) as nat,
        ),
        g.row_count == 1 && g.col_count == 1 ==> region_text(g) == abs_text(row as int, col as int),
        g.row_count > 1 || g.col_count > 1 ==> region_text(g) == abs_text(
            g.row as int,
            g.col as int,
        ) + seq![':'] + abs_text(row as int, col as int),
{
    reveal_strlit("$");
    reveal_strlit(":");
    assert("$"@ =~= seq!['$']);
    assert(":"@ =~= seq![':']);
}

/// In a font of Latin characters a text of printable ASCII characters that ends in none of white space
/// stays as it is.
pub proof fn latin_texts_stay(s: Seq<char>)
    requires
        forall|i: int| 0 <= i < s.len() ==> ' ' <= #[trigger] s[i] <= '~',
        s.len() > 0 ==> !is_white(s.last()),
    ensures
        latin_text(s) == s,
{
    let t = Seq::new(s.len(), |i: int| crate::export_pdf::latin_char(s[i]));
    assert forall|i: int| 0 <= i < s.len() implies t[i] == s[i] by {
        assert(' ' <= s[i] <= '~');
    }
    assert(t =~= s);
    assert(trim_end_white(s) == s);
}

} // verus!
