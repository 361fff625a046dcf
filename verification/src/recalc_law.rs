//! What holds of computing formulas again: what is read anew, what is computed, and in what order.
use crate::decimal::{dec, dec_round_trip};
use crate::depgraph::{feeds, has_edge, is_affected, is_topo, spec_cell_key, target_edge, SheetSize};
use crate::engine::{
    after_seed, after_seeds, book_sizes, cell_entries, cells_of, circ_writes, due, entry_deps,
    entry_key, entry_of, find_cell, find_sheet, formula_at, graph_of, known_of, seed_key, seed_keys,
    settle, sheet_entries, write_of, BookCell, BookSheet, Entry, Known, Seed, WriteSpec,
};
use crate::find_law::without;
use crate::value::{FValue, FormulaError};
use vstd::prelude::*;

verus! {

// ---- keys

proof fn right_split(x: Seq<char>, a: Seq<char>, y: Seq<char>, b: Seq<char>, c: char)
    requires
        without(a, c),
        without(b, c),
        x + seq![c] + a == y + seq![c] + b,
    ensures
        x == y,
        a == b,
{
    let (s, t) = (x + seq![c] + a, y + seq![c] + b);
    assert(s.len() == x.len() + 1 + a.len() && t.len() == y.len() + 1 + b.len());
    assert(s[x.len() as int] == c && t[y.len() as int] == c);
    if x.len() < y.len() {
        assert(s[y.len() as int] == a[y.len() - x.len() - 1]);
    } else if y.len() < x.len() {
        assert(t[x.len() as int] == b[x.len() - y.len() - 1]);
    }
    assert(x == s.take(x.len() as int));
    assert(y == t.take(y.len() as int));
    assert(a == s.skip((x.len() + 1) as int));
    assert(b == t.skip((y.len() + 1) as int));
}

/// A key names one cell.
pub proof fn key_names_one(s: Seq<char>, row: nat, col: nat, t: Seq<char>, r: nat, c: nat)
    requires
        spec_cell_key(s, row, col) == spec_cell_key(t, r, c),
    ensures
        s == t,
        row == r,
        col == c,
{
    reveal_strlit("!");
    reveal_strlit(",");
    assert("!"@ == seq!['!'] && ","@ == seq![',']);
    dec_round_trip(row);
    dec_round_trip(col);
    dec_round_trip(r);
    dec_round_trip(c);
    right_split(s + "!"@ + dec(row), dec(col), t + "!"@ + dec(r), dec(c), ',');
    right_split(s, dec(row), t, dec(r), '!');
}

// ---- the formulas of a workbook

/// Whether every sheet has a name of its own and every cell a place of its own.
pub open spec fn tidy(sheets: Seq<BookSheet>) -> bool {
    &&& forall|i: int, j: int|
        0 <= i < j < sheets.len() ==> (#[trigger] sheets[i]).name@ != (#[trigger] sheets[j]).name@
    &&& forall|i: int| 0 <= i < sheets.len() ==> spread_out((#[trigger] sheets[i]).cells@)
}

/// Whether every cell has a place of its own.
pub open spec fn spread_out(cells: Seq<BookCell>) -> bool {
    forall|i: int, j: int|
        0 <= i < j < cells.len() ==> (#[trigger] cells[i]).row != (#[trigger] cells[j]).row
            || cells[i].col != cells[j].col
}

/// Whether a workbook holds a formula.
spec fn holds_formula(sheets: Seq<BookSheet>, e: Entry) -> bool {
    &&& 0 <= e.sheet_index < sheets.len()
    &&& match formula_at(sheets[e.sheet_index], e.row, e.col) {
        Some(f) => e == entry_of(e.sheet_index, sheets[e.sheet_index].name@, e.row, e.col, f),
        None => false,
    }
}

/// Whether the formula stands at place `j` of a sheet's list.
spec fn listed_at(sheet: BookSheet, i: int, j: int, e: Entry) -> bool {
    sheet.cells@[j].formula matches Some(f) && e == entry_of(
        i,
        sheet.name@,
        sheet.cells@[j].row,
        sheet.cells@[j].col,
        f@,
    )
}

proof fn cells_listed(sheet: BookSheet, i: int, n: int, e: Entry)
    requires
        0 <= n <= sheet.cells@.len(),
    ensures
        cell_entries(sheet, i, n).contains(e) <==> exists|j: int|
            0 <= j < n && #[trigger] listed_at(sheet, i, j, e),
    decreases n,
{
    if n > 0 {
        cells_listed(sheet, i, n - 1, e);
        let p = cell_entries(sheet, i, n - 1);
        let q = cell_entries(sheet, i, n);
        if q.contains(e) {
            let k = q.index_of(e);
            if k < p.len() {
                assert(p[k] == e);
            } else {
                assert(listed_at(sheet, i, n - 1, e));
            }
        }
        if p.contains(e) {
            assert(q[p.index_of(e)] == e);
        }
        if listed_at(sheet, i, n - 1, e) {
            assert(q[p.len() as int] == e);
        }
    }
}

proof fn sheets_listed(sheets: Seq<BookSheet>, n: int, e: Entry)
    requires
        0 <= n <= sheets.len(),
    ensures
        sheet_entries(sheets, n).contains(e) <==> exists|i: int, j: int|
            0 <= i < n && 0 <= j < sheets[i].cells@.len() && #[trigger] listed_at(sheets[i], i, j, e),
    decreases n,
{
    if n > 0 {
        sheets_listed(sheets, n - 1, e);
        let m = sheets[n - 1].cells@.len() as int;
        cells_listed(sheets[n - 1], n - 1, m, e);
        let p = sheet_entries(sheets, n - 1);
        let c = cell_entries(sheets[n - 1], n - 1, m);
        let q = sheet_entries(sheets, n);
        if q.contains(e) {
            let k = q.index_of(e);
            if k < p.len() {
                assert(p[k] == e);
            } else {
                assert(c[k - p.len()] == e);
            }
        }
        if p.contains(e) {
            assert(q[p.index_of(e)] == e);
        }
        if c.contains(e) {
            assert(q[p.len() + c.index_of(e)] == e);
        }
    }
}

proof fn place_found(cells: Seq<BookCell>, from: int, j: int)
    requires
        spread_out(cells),
        0 <= from <= j < cells.len(),
    ensures
        find_cell(cells, cells[j].row, cells[j].col, from) == Some(j),
    decreases j - from,
{
    if from < j {
        assert(cells[from].row != cells[j].row || cells[from].col != cells[j].col);
        place_found(cells, from + 1, j);
    }
}

proof fn place_held(cells: Seq<BookCell>, row: u32, col: u32, from: int)
    requires
        0 <= from,
    ensures
        find_cell(cells, row, col, from) matches Some(j) ==> from <= j < cells.len() && cells[j].row
            == row && cells[j].col == col,
    decreases cells.len() - from,
{
    if from < cells.len() {
        place_held(cells, row, col, from + 1);
    }
}

/// The formulas that are read of a tidy workbook are those that it holds.
proof fn entries_held(sheets: Seq<BookSheet>, e: Entry)
    requires
        tidy(sheets),
    ensures
        sheet_entries(sheets, sheets.len() as int).contains(e) <==> holds_formula(sheets, e),
{
    sheets_listed(sheets, sheets.len() as int, e);
    if sheet_entries(sheets, sheets.len() as int).contains(e) {
        let (i, j) = choose|i: int, j: int|
            0 <= i < sheets.len() && 0 <= j < sheets[i].cells@.len() && #[trigger] listed_at(
                sheets[i],
                i,
                j,
                e,
            );
        place_found(sheets[i].cells@, 0, j);
    }
    if holds_formula(sheets, e) {
        let i = e.sheet_index;
        place_held(sheets[i].cells@, e.row, e.col, 0);
        let j = find_cell(sheets[i].cells@, e.row, e.col, 0)->0;
        assert(listed_at(sheets[i], i, j, e));
    }
}

/// Formulas of one key are one formula.
proof fn held_once(sheets: Seq<BookSheet>, e: Entry, g: Entry)
    requires
        tidy(sheets),
        holds_formula(sheets, e),
        holds_formula(sheets, g),
        entry_key(e) == entry_key(g),
    ensures
        e == g,
{
    key_names_one(e.sheet, e.row as nat, e.col as nat, g.sheet, g.row as nat, g.col as nat);
    let (i, j) = (e.sheet_index, g.sheet_index);
    if i < j {
        assert(sheets[i].name@ != sheets[j].name@);
    } else if j < i {
        assert(sheets[j].name@ != sheets[i].name@);
    }
}

/// A list of formulas by their keys.
proof fn mapped(l: Seq<Entry>, bounds: Seq<SheetSize>, k: Seq<char>)
    ensures
        cells_of(l).contains_key(k) ==> l.contains(cells_of(l)[k]) && entry_key(cells_of(l)[k]) == k,
        graph_of(l, bounds).contains_key(k) <==> cells_of(l).contains_key(k),
        cells_of(l).contains_key(k) ==> graph_of(l, bounds)[k] == entry_deps(cells_of(l)[k], bounds),
    decreases l.len(),
{
    if l.len() > 0 {
        let p = l.drop_last();
        mapped(p, bounds, k);
        if cells_of(l).contains_key(k) {
            if k == entry_key(l.last()) {
                assert(l[l.len() - 1] == l.last());
            } else {
                let i = p.index_of(cells_of(p)[k]);
                assert(l[i] == cells_of(p)[k]);
            }
        }
    }
}

proof fn mapped_has(l: Seq<Entry>, e: Entry)
    requires
        l.contains(e),
    ensures
        cells_of(l).contains_key(entry_key(e)),
    decreases l.len(),
{
    if l.len() > 0 {
        let i = l.index_of(e);
        if i < l.len() - 1 {
            assert(l.drop_last()[i] == e);
            mapped_has(l.drop_last(), e);
        }
    }
}

/// Whether a formula is known.
spec fn knows(k: Known, e: Entry) -> bool {
    k.cells.contains_key(entry_key(e)) && k.cells[entry_key(e)] == e
}

/// Whether formulas are known by their keys, each with what it reads.
spec fn in_order(k: Known, bounds: Seq<SheetSize>) -> bool {
    &&& forall|c: Seq<char>| #[trigger]
        k.cells.contains_key(c) ==> entry_key(k.cells[c]) == c
    &&& forall|c: Seq<char>, d: Seq<char>| #[trigger]
        has_edge(k.graph, c, d) <==> k.cells.contains_key(c) && entry_deps(
            k.cells[c],
            bounds,
        ).contains(d)
}

/// What is known of a tidy workbook are the formulas that it holds.
proof fn known_holds(sheets: Seq<BookSheet>)
    requires
        tidy(sheets),
    ensures
        in_order(known_of(sheets), book_sizes(sheets)),
        forall|e: Entry| #[trigger] knows(known_of(sheets), e) <==> holds_formula(sheets, e),
{
    let l = sheet_entries(sheets, sheets.len() as int);
    let b = book_sizes(sheets);
    let k = known_of(sheets);
    assert forall|c: Seq<char>| #[trigger] k.cells.contains_key(c) implies entry_key(k.cells[c]) == c by {
        mapped(l, b, c);
    }
    assert forall|c: Seq<char>, d: Seq<char>| #[trigger]
        has_edge(k.graph, c, d) <==> k.cells.contains_key(c) && entry_deps(k.cells[c], b).contains(d) by {
        mapped(l, b, c);
    }
    assert forall|e: Entry| #[trigger] knows(k, e) <==> holds_formula(sheets, e) by {
        let c = entry_key(e);
        mapped(l, b, c);
        entries_held(sheets, e);
        if holds_formula(sheets, e) {
            mapped_has(l, e);
            entries_held(sheets, k.cells[c]);
            held_once(sheets, e, k.cells[c]);
        }
    }
}

/// Formulas of a tidy workbook are known by their keys, each with what it reads.
pub(crate) proof fn known_by_key(k: Known, sheets: Seq<BookSheet>)
    requires
        tidy(sheets),
        fits(k, sheets),
    ensures
        forall|c: Seq<char>| #[trigger]
            k.cells.contains_key(c) ==> {
                let e = k.cells[c];
                &&& entry_key(e) == c
                &&& 0 <= e.sheet_index < sheets.len()
                &&& e.sheet == sheets[e.sheet_index].name@
            },
        forall|c: Seq<char>, d: Seq<char>| #[trigger]
            has_edge(k.graph, c, d) <==> k.cells.contains_key(c) && entry_deps(
                k.cells[c],
                book_sizes(sheets),
            ).contains(d),
{
    known_holds(sheets);
    let w = known_of(sheets);
    assert forall|c: Seq<char>| #[trigger] k.cells.contains_key(c) implies {
        let e = k.cells[c];
        &&& entry_key(e) == c
        &&& 0 <= e.sheet_index < sheets.len()
        &&& e.sheet == sheets[e.sheet_index].name@
    } by {
        assert(knows(w, k.cells[c]));
    }
    assert forall|c: Seq<char>, d: Seq<char>| #[trigger]
        has_edge(k.graph, c, d) <==> k.cells.contains_key(c) && entry_deps(
            k.cells[c],
            book_sizes(sheets),
        ).contains(d) by {
        assert(has_edge(w.graph, c, d) <==> has_edge(k.graph, c, d));
    }
}

// ---- changed cells

/// Whether a cell is among those that changed.
pub open spec fn changed(seeds: Seq<Seed>, sheet: Seq<char>, row: u32, col: u32) -> bool {
    exists|i: int|
        0 <= i < seeds.len() && (#[trigger] seeds[i]).sheet@ == sheet && seeds[i].row == row
            && seeds[i].col == col
}

/// Whether two workbooks have the same sheets, with the same formulas but for those of changed
/// cells.
pub open spec fn same_but(a: Seq<BookSheet>, b: Seq<BookSheet>, seeds: Seq<Seed>) -> bool {
    &&& a.len() == b.len()
    &&& book_sizes(a) == book_sizes(b)
    &&& forall|i: int| 0 <= i < a.len() ==> (#[trigger] a[i]).name@ == b[i].name@
    &&& forall|i: int, row: u32, col: u32|
        0 <= i < a.len() && !changed(seeds, a[i].name@, row, col) ==> #[trigger] formula_at(
            a[i],
            row,
            col,
        ) == formula_at(b[i], row, col)
}

/// Whether what is known is what reading all formulas of a workbook gives.
pub open spec fn fits(k: Known, sheets: Seq<BookSheet>) -> bool {
    &&& k.cells == known_of(sheets).cells
    &&& forall|c: Seq<char>, d: Seq<char>| #[trigger]
        has_edge(k.graph, c, d) <==> has_edge(known_of(sheets).graph, c, d)
}

pub(crate) proof fn sheet_found(sheets: Seq<BookSheet>, name: Seq<char>, from: int)
    requires
        0 <= from,
    ensures
        match find_sheet(sheets, name, from) {
            Some(i) => from <= i < sheets.len() && sheets[i].name@ == name,
            None => forall|i: int| from <= i < sheets.len() ==> (#[trigger] sheets[i]).name@ != name,
        },
    decreases sheets.len() - from,
{
    if from < sheets.len() {
        sheet_found(sheets, name, from + 1);
    }
}

/// What is known when some changed cells were read again: of those the formulas of the new
/// workbook, of others those of the old one.
spec fn half_read(
    k: Known,
    a: Seq<BookSheet>,
    b: Seq<BookSheet>,
    seeds: Seq<Seed>,
    bounds: Seq<SheetSize>,
) -> bool {
    &&& in_order(k, bounds)
    &&& forall|e: Entry| #[trigger]
        knows(k, e) <==> (if changed(seeds, e.sheet, e.row, e.col) {
            holds_formula(b, e)
        } else {
            holds_formula(a, e)
        })
}

proof fn one_more(seeds: Seq<Seed>, sheet: Seq<char>, row: u32, col: u32)
    requires
        seeds.len() > 0,
    ensures
        changed(seeds, sheet, row, col) <==> changed(seeds.drop_last(), sheet, row, col) || (
        seeds.last().sheet@ == sheet && seeds.last().row == row && seeds.last().col == col),
{
    let p = seeds.drop_last();
    if changed(p, sheet, row, col) {
        let i = choose|i: int|
            0 <= i < p.len() && (#[trigger] p[i]).sheet@ == sheet && p[i].row == row && p[i].col == col;
        assert(seeds[i] == p[i]);
    }
    if changed(seeds, sheet, row, col) {
        let i = choose|i: int|
            0 <= i < seeds.len() && (#[trigger] seeds[i]).sheet@ == sheet && seeds[i].row == row
                && seeds[i].col == col;
        if i < p.len() {
            assert(p[i] == seeds[i]);
        }
    }
    assert(seeds[seeds.len() - 1] == seeds.last());
}

/// What the formula of the last changed cell makes known.
proof fn last_known(k: Known, b: Seq<BookSheet>, s: Seed, bounds: Seq<SheetSize>, e: Entry)
    requires
        tidy(b),
        in_order(k, bounds),
        e.sheet == s.sheet@,
        e.row == s.row,
        e.col == s.col,
        find_sheet(b, s.sheet@, 0) is Some,
    ensures
        knows(after_seed(k, b, bounds, s), e) <==> holds_formula(b, e),
{
    sheet_found(b, s.sheet@, 0);
    let i = find_sheet(b, s.sheet@, 0)->0;
    assert(entry_key(e) == seed_key(s));
    if holds_formula(b, e) {
        let j = e.sheet_index;
        if i < j {
            assert(b[i].name@ != b[j].name@);
        } else if j < i {
            assert(b[j].name@ != b[i].name@);
        }
    }
}

proof fn others_known(k: Known, b: Seq<BookSheet>, s: Seed, bounds: Seq<SheetSize>, e: Entry)
    requires
        !(e.sheet == s.sheet@ && e.row == s.row && e.col == s.col),
    ensures
        knows(after_seed(k, b, bounds, s), e) <==> knows(k, e),
{
    if entry_key(e) == seed_key(s) {
        key_names_one(e.sheet, e.row as nat, e.col as nat, s.sheet@, s.row as nat, s.col as nat);
    }
}

proof fn stays_in_order(k: Known, b: Seq<BookSheet>, s: Seed, bounds: Seq<SheetSize>)
    requires
        in_order(k, bounds),
    ensures
        in_order(after_seed(k, b, bounds, s), bounds),
{
    let n = after_seed(k, b, bounds, s);
    assert forall|c: Seq<char>| #[trigger] n.cells.contains_key(c) implies entry_key(n.cells[c]) == c by {
        if c != seed_key(s) {
            assert(k.cells.contains_key(c));
        }
    }
    assert forall|c: Seq<char>, d: Seq<char>| #[trigger]
        has_edge(n.graph, c, d) <==> n.cells.contains_key(c) && entry_deps(n.cells[c], bounds).contains(d) by {
        assert(has_edge(k.graph, c, d) <==> k.cells.contains_key(c) && entry_deps(
            k.cells[c],
            bounds,
        ).contains(d));
    }
}

proof fn reads_on(
    k: Known,
    a: Seq<BookSheet>,
    b: Seq<BookSheet>,
    seeds: Seq<Seed>,
    bounds: Seq<SheetSize>,
    all: Seq<Seed>,
)
    requires
        tidy(a),
        tidy(b),
        same_but(a, b, all),
        half_read(k, a, b, Seq::empty(), bounds),
    ensures
        half_read(after_seeds(k, b, bounds, seeds), a, b, seeds, bounds),
    decreases seeds.len(),
{
    if seeds.len() == 0 {
        assert(seeds == Seq::<Seed>::empty());
    } else {
        let p = seeds.drop_last();
        let s = seeds.last();
        reads_on(k, a, b, p, bounds, all);
        let m = after_seeds(k, b, bounds, p);
        let n = after_seed(m, b, bounds, s);
        assert(n == after_seeds(k, b, bounds, seeds));
        stays_in_order(m, b, s, bounds);
        assert forall|e: Entry| #[trigger] knows(n, e) <==> (if changed(
            seeds,
            e.sheet,
            e.row,
            e.col,
        ) {
            holds_formula(b, e)
        } else {
            holds_formula(a, e)
        }) by {
            one_more(seeds, e.sheet, e.row, e.col);
            assert(knows(m, e) <==> (if changed(p, e.sheet, e.row, e.col) {
                holds_formula(b, e)
            } else {
                holds_formula(a, e)
            }));
            if e.sheet == s.sheet@ && e.row == s.row && e.col == s.col {
                if find_sheet(b, s.sheet@, 0) is Some {
                    last_known(m, b, s, bounds, e);
                } else {
                    sheet_found(b, s.sheet@, 0);
                    nowhere(a, b, all, e);
                }
            } else {
                others_known(m, b, s, bounds, e);
            }
        }
    }
}

/// No workbook holds a formula of a sheet that it does not have.
proof fn nowhere(a: Seq<BookSheet>, b: Seq<BookSheet>, all: Seq<Seed>, e: Entry)
    requires
        same_but(a, b, all),
        forall|i: int| 0 <= i < b.len() ==> (#[trigger] b[i]).name@ != e.sheet,
    ensures
        !holds_formula(a, e),
        !holds_formula(b, e),
{
    let i = e.sheet_index;
    if 0 <= i < a.len() {
        assert(a[i].name@ == b[i].name@);
        assert(b[i].name@ != e.sheet);
    }
}

/// Whoever knows the formulas of a workbook, and reads the changed cells again after a change,
/// knows the formulas of the changed workbook.
pub proof fn changes_are_learnt(k: Known, a: Seq<BookSheet>, b: Seq<BookSheet>, seeds: Seq<Seed>)
    requires
        tidy(a),
        tidy(b),
        same_but(a, b, seeds),
        fits(k, a),
    ensures
        fits(after_seeds(k, b, book_sizes(b), seeds), b),
{
    let bounds = book_sizes(b);
    known_holds(a);
    known_holds(b);
    assert(half_read(k, a, b, Seq::empty(), bounds)) by {
        assert forall|e: Entry| #[trigger] knows(k, e) <==> holds_formula(a, e) by {
            assert(knows(known_of(a), e) <==> holds_formula(a, e));
        }
        assert forall|c: Seq<char>, d: Seq<char>| #[trigger]
            has_edge(k.graph, c, d) <==> k.cells.contains_key(c) && entry_deps(
                k.cells[c],
                bounds,
            ).contains(d) by {
            assert(has_edge(known_of(a).graph, c, d) <==> has_edge(k.graph, c, d));
        }
    }
    reads_on(k, a, b, seeds, bounds, seeds);
    let n = after_seeds(k, b, bounds, seeds);
    let w = known_of(b);
    assert forall|e: Entry| #[trigger] knows(n, e) <==> knows(w, e) by {
        assert(knows(w, e) <==> holds_formula(b, e));
        if !changed(seeds, e.sheet, e.row, e.col) {
            let i = e.sheet_index;
            if 0 <= i < a.len() {
                assert(a[i].name@ == b[i].name@);
                if a[i].name@ == e.sheet {
                    assert(formula_at(a[i], e.row, e.col) == formula_at(b[i], e.row, e.col));
                }
            }
        }
    }
    assert forall|c: Seq<char>| n.cells.contains_key(c) == w.cells.contains_key(c) && (
    n.cells.contains_key(c) ==> n.cells[c] == w.cells[c]) by {
        if n.cells.contains_key(c) {
            assert(knows(n, n.cells[c]));
            assert(knows(w, n.cells[c]));
        }
        if w.cells.contains_key(c) {
            assert(knows(w, w.cells[c]));
            assert(knows(n, w.cells[c]));
        }
    }
    assert(n.cells =~= w.cells);
    assert forall|c: Seq<char>, d: Seq<char>| #[trigger]
        has_edge(n.graph, c, d) <==> has_edge(w.graph, c, d) by {
        assert(has_edge(w.graph, c, d) <==> w.cells.contains_key(c) && entry_deps(
            w.cells[c],
            bounds,
        ).contains(d));
    }
}

/// The keys of changed cells are those of the sheets that exist.
pub(crate) proof fn changed_key(sheets: Seq<BookSheet>, seeds: Seq<Seed>, i: int)
    requires
        0 <= i < seeds.len(),
        find_sheet(sheets, seeds[i].sheet@, 0) is Some,
    ensures
        seed_keys(sheets, seeds).contains(seed_key(seeds[i])),
    decreases seeds.len(),
{
    let k = seed_keys(sheets, seeds);
    if i == seeds.len() - 1 {
        assert(k.last() == seed_key(seeds[i]));
        assert(k.contains(k.last()));
    } else {
        changed_key(sheets, seeds.drop_last(), i);
        let p = seed_keys(sheets, seeds.drop_last());
        let j = p.index_of(seed_key(seeds[i]));
        assert(k[j] == p[j]);
    }
}

/// A formula whose cell did not change is known as it was.
pub(crate) proof fn unchanged_known(
    k: Known,
    n: Known,
    a: Seq<BookSheet>,
    b: Seq<BookSheet>,
    seeds: Seq<Seed>,
    c: Seq<char>,
)
    requires
        tidy(a),
        tidy(b),
        same_but(a, b, seeds),
        fits(k, a),
        fits(n, b),
        !seed_keys(b, seeds).contains(c),
    ensures
        k.cells.contains_key(c) <==> n.cells.contains_key(c),
        k.cells.contains_key(c) ==> k.cells[c] == n.cells[c],
        forall|d: Seq<char>| #[trigger] has_edge(k.graph, c, d) <==> has_edge(n.graph, c, d),
{
    known_holds(a);
    known_holds(b);
    known_by_key(k, a);
    known_by_key(n, b);
    assert forall|e: Entry| entry_key(e) == c implies (#[trigger] knows(k, e) <==> knows(n, e)) by {
        assert(knows(known_of(a), e) <==> holds_formula(a, e));
        assert(knows(known_of(b), e) <==> holds_formula(b, e));
        let i = e.sheet_index;
        if 0 <= i < a.len() && a[i].name@ == e.sheet {
            assert(a[i].name@ == b[i].name@);
            if changed(seeds, e.sheet, e.row, e.col) {
                let j = choose|j: int|
                    0 <= j < seeds.len() && (#[trigger] seeds[j]).sheet@ == e.sheet && seeds[j].row
                        == e.row && seeds[j].col == e.col;
                sheet_found(b, e.sheet, 0);
                changed_key(b, seeds, j);
            }
            assert(formula_at(a[i], e.row, e.col) == formula_at(b[i], e.row, e.col));
        }
    }
    if k.cells.contains_key(c) {
        assert(knows(k, k.cells[c]));
        assert(knows(n, k.cells[c]));
    }
    if n.cells.contains_key(c) {
        assert(knows(n, n.cells[c]));
        assert(knows(k, n.cells[c]));
    }
}

/// A formula that reads a changed cell, or one that depends on a changed cell, is computed again.
pub proof fn readers_are_due(
    k: Known,
    keys: Seq<Seq<char>>,
    volatile: Seq<Seq<char>>,
    cell: Seq<char>,
    dep: Seq<char>,
)
    requires
        has_edge(k.graph, cell, dep),
        keys.contains(dep) || is_affected(k.graph, keys, dep),
    ensures
        is_affected(k.graph, keys, cell),
        due(k, keys, volatile).contains(cell),
{
    let p = if keys.contains(dep) {
        seq![dep]
    } else {
        choose|p: Seq<Seq<char>>|
            p.len() >= 2 && keys.contains(p[0]) && p.last() == dep && #[trigger] feeds(k.graph, p)
    };
    let q = p.push(cell);
    assert forall|i: int, j: int|
        #![trigger q[i], q[j]]
        0 <= i && j == i + 1 && j < q.len() implies has_edge(k.graph, q[j], q[i]) by {
        if j < p.len() {
            assert(q[i] == p[i] && q[j] == p[j]);
        } else {
            assert(q[i] == p.last());
        }
    }
    assert(feeds(k.graph, q));
    assert(q[0] == p[0]);
}

// ---- a round

/// The value that the formula at a place of a round's plan gets, where `v` is what was computed
/// of one that parses.
pub open spec fn made_value(e: Entry, v: FValue) -> FValue {
    if e.ast is None {
        FValue::Error(FormulaError::Name)
    } else {
        v
    }
}

/// The writes to the first `n` formulas of a plan, where `values` are those that were computed.
pub open spec fn made(
    cells: Map<Seq<char>, Entry>,
    plan: Seq<Seq<char>>,
    values: Seq<FValue>,
    n: int,
) -> Seq<WriteSpec>
    decreases n,
{
    if n <= 0 {
        Seq::empty()
    } else {
        let p = made(cells, plan, values, n - 1);
        if cells.contains_key(plan[n - 1]) {
            p.push(write_of(cells[plan[n - 1]], made_value(cells[plan[n - 1]], values[n - 1])))
        } else {
            p
        }
    }
}

/// A round goes through its plan: going on to the next formula, and taking its value, writes to
/// each formula of the plan once, in order.
pub proof fn round_follows_plan(
    cells: Map<Seq<char>, Entry>,
    plan: Seq<Seq<char>>,
    values: Seq<FValue>,
    i: int,
)
    requires
        0 <= i <= plan.len(),
    ensures
        ({
            let (j, w) = settle(cells, plan, i);
            &&& i <= j <= plan.len()
            &&& made(cells, plan, values, j) == made(cells, plan, values, i) + w
            &&& j < plan.len() ==> made(cells, plan, values, j + 1) == made(
                cells,
                plan,
                values,
                j,
            ).push(write_of(cells[plan[j]], values[j]))
        }),
    decreases plan.len() - i,
{
    let m = made(cells, plan, values, i);
    if i < plan.len() && !cells.contains_key(plan[i]) {
        round_follows_plan(cells, plan, values, i + 1);
    } else if i < plan.len() && cells[plan[i]].ast is None {
        round_follows_plan(cells, plan, values, i + 1);
        let w = write_of(cells[plan[i]], FValue::Error(FormulaError::Name));
        let rest = settle(cells, plan, i + 1).1;
        assert(m.push(w) + rest == m + (seq![w] + rest));
    } else {
        assert(m + Seq::<WriteSpec>::empty() == m);
    }
}

/// Whether a formula has been given a value.
pub open spec fn settled(writes: Seq<WriteSpec>, e: Entry) -> bool {
    exists|v: FValue| writes.contains(#[trigger] write_of(e, v))
}

proof fn circ_settled(cells: Map<Seq<char>, Entry>, keys: Seq<Seq<char>>, d: Seq<char>)
    requires
        keys.contains(d),
        cells.contains_key(d),
    ensures
        circ_writes(cells, keys).contains(
            write_of(cells[d], FValue::Error(FormulaError::Circ)),
        ),
    decreases keys.len(),
{
    let p = keys.drop_last();
    let w = write_of(cells[d], FValue::Error(FormulaError::Circ));
    let c = circ_writes(cells, keys);
    let i = keys.index_of(d);
    if i < p.len() {
        assert(p[i] == d);
        circ_settled(cells, p, d);
        let k = circ_writes(cells, p).index_of(w);
        assert(c[k] == w);
    } else {
        assert(c.last() == w);
    }
}

proof fn made_settled(
    cells: Map<Seq<char>, Entry>,
    plan: Seq<Seq<char>>,
    values: Seq<FValue>,
    n: int,
    i: int,
)
    requires
        0 <= i < n <= plan.len(),
        cells.contains_key(plan[i]),
    ensures
        made(cells, plan, values, n).contains(
            write_of(cells[plan[i]], made_value(cells[plan[i]], values[i])),
        ),
    decreases n,
{
    let w = write_of(cells[plan[i]], made_value(cells[plan[i]], values[i]));
    let m = made(cells, plan, values, n);
    if i < n - 1 {
        made_settled(cells, plan, values, n - 1, i);
        let k = made(cells, plan, values, n - 1).index_of(w);
        assert(m[k] == w);
    } else {
        assert(m.last() == w);
    }
}

/// When a formula is computed, every formula of the round that it reads has been given its value.
pub proof fn reads_are_settled(
    known: Known,
    set: Set<Seq<char>>,
    plan: Seq<Seq<char>>,
    cyclic: Seq<Seq<char>>,
    values: Seq<FValue>,
    i: int,
    dep: Seq<char>,
)
    requires
        is_topo(known.graph, set, plan, cyclic),
        0 <= i < plan.len(),
        set.contains(dep),
        known.cells.contains_key(dep),
        has_edge(known.graph, plan[i], dep),
    ensures
        settled(
            circ_writes(known.cells, cyclic) + made(known.cells, plan, values, i),
            known.cells[dep],
        ),
{
    let a = circ_writes(known.cells, cyclic);
    let b = made(known.cells, plan, values, i);
    let e = known.cells[dep];
    assert(plan.contains(plan[i]));
    assert(target_edge(known.graph, set, plan[i], dep));
    if cyclic.contains(dep) {
        circ_settled(known.cells, cyclic, dep);
        let w = write_of(e, FValue::Error(FormulaError::Circ));
        assert((a + b)[a.index_of(w)] == w);
        assert((a + b).contains(write_of(e, FValue::Error(FormulaError::Circ))));
    } else {
        assert(plan.take(i).contains(dep));
        let k = plan.take(i).index_of(dep);
        assert(plan[k] == dep);
        made_settled(known.cells, plan, values, i, k);
        let v = made_value(e, values[k]);
        let w = write_of(e, v);
        assert((a + b)[a.len() + b.index_of(w)] == w);
        assert((a + b).contains(write_of(e, v)));
    }
}

} // verus!
