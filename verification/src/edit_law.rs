//! What holds of a workbook whose formulas hold their values when cells of it are changed: after
//! computing what is due, all formulas hold their values again.
use crate::depgraph::{
    feeds, has_edge, is_affected, is_topo, reads, spec_cell_key, target_chain, target_cycle,
    target_edge, GraphView,
};
use crate::engine::{
    after_seeds, book_sizes, content_of, due, entry_deps, entry_key, find_sheet, is_due,
    is_volatile, read_value, seed_keys, write_seq, BookSheet, CellWrite, Known, Seed, WriteSpec,
};
use crate::recalc_law::{
    changed, changed_key, changes_are_learnt, fits, known_by_key, readers_are_due, same_but,
    sheet_found, spread_out, tidy, unchanged_known,
};
use crate::value::FValue;
use crate::value_law::{
    are_held, at_cell, book_is_settled, holds_at, is_computed, is_fixed, is_held, is_history,
    is_round, rest_stays, same_reads, same_shape, same_value, values_told_apart, Held, Host,
    Telling,
};
use crate::write_back::{book_view, place_in, with_content, with_writes, CellView, SheetOfCells};
use vstd::prelude::*;

verus! {

/// Whether cells that did not change hold what they held.
pub open spec fn same_values_but(a: Seq<BookSheet>, b: Seq<BookSheet>, seeds: Seq<Seed>) -> bool {
    forall|s: Seq<char>, row: u32, col: u32|
        !changed(seeds, s, row, col) ==> #[trigger] read_value(b, Seq::empty(), s, row, col)
            == read_value(a, Seq::empty(), s, row, col)
}

/// Whether a cell has a volatile formula.
pub open spec fn volatile_at(known: Known, volatile: Seq<Seq<char>>, c: Seq<char>) -> bool {
    known.cells.contains_key(c) && (known.cells[c].ast matches Some(a) && is_volatile(a, volatile))
}

/// Whether a formula reads a cell with a volatile one.
pub open spec fn reads_volatile(known: Known, volatile: Seq<Seq<char>>, c: Seq<char>) -> bool {
    exists|d: Seq<char>| #[trigger]
        has_edge(known.graph, c, d) && volatile_at(known, volatile, d)
}

/// Whether two hosts answer some formulas alike, volatile ones apart.
pub open spec fn same_host_but(
    before: Host,
    host: Host,
    known: Known,
    volatile: Seq<Seq<char>>,
    of: Set<Seq<char>>,
) -> bool {
    forall|c: Seq<char>| #[trigger]
        known.cells.contains_key(c) && of.contains(c) && !volatile_at(known, volatile, c)
            ==> at_cell(before, known.cells[c]) == at_cell(host, known.cells[c])
}

/// The formulas that hold their values after a change: the value is fixed by what cells hold; and
/// the formula is due, or it held its value and reads no cell with a volatile formula. A volatile
/// formula on a cycle is not among them.
pub open spec fn held_after(
    told: Telling,
    host: Host,
    known: Known,
    keys: Seq<Seq<char>>,
    volatile: Seq<Seq<char>>,
    of: Set<Seq<char>>,
) -> Set<Seq<char>> {
    Set::new(
        |c: Seq<char>|
            is_fixed(told, host, known, c) && (if is_due(known, keys, volatile, c) {
                !volatile_at(known, volatile, c) || !target_cycle(
                    known.graph,
                    known.cells.dom(),
                    c,
                )
            } else {
                of.contains(c) && !reads_volatile(known, volatile, c)
            }),
    )
}

/// Whether what reads a cell of `set` is in it.
spec fn upward(g: GraphView, set: Set<Seq<char>>) -> bool {
    forall|c: Seq<char>, d: Seq<char>| #[trigger]
        has_edge(g, c, d) && set.contains(d) ==> set.contains(c)
}

/// What stands before a cell of such a set on a chain is in it.
proof fn stays_in(
    g: GraphView,
    set: Set<Seq<char>>,
    cells: Set<Seq<char>>,
    path: Seq<Seq<char>>,
    i: int,
)
    requires
        upward(g, set),
        target_chain(g, cells, path),
        path.len() > 0,
        set.contains(path.last()),
        0 <= i < path.len(),
    ensures
        set.contains(path[i]),
    decreases path.len() - i,
{
    if i + 1 < path.len() {
        stays_in(g, set, cells, path, i + 1);
        assert(target_edge(g, cells, path[i], path[i + 1]));
    }
}

/// What stands after a cell outside such a set on a chain is outside it.
proof fn stays_out(
    g: GraphView,
    set: Set<Seq<char>>,
    cells: Set<Seq<char>>,
    path: Seq<Seq<char>>,
    i: int,
)
    requires
        upward(g, set),
        target_chain(g, cells, path),
        0 <= i < path.len(),
        !set.contains(path[0]),
    ensures
        !set.contains(path[i]),
    decreases i,
{
    if i > 0 {
        stays_out(g, set, cells, path, i - 1);
        assert(target_edge(g, cells, path[i - 1], path[i]));
    }
}

/// A cycle through a cell that what changed reaches is one of cells that are all computed again.
proof fn cycles_inside(
    g: GraphView,
    reached: Set<Seq<char>>,
    set: Set<Seq<char>>,
    cells: Set<Seq<char>>,
    c: Seq<char>,
)
    requires
        upward(g, reached),
        set.subset_of(cells),
        forall|k: Seq<char>| reached.contains(k) && cells.contains(k) ==> #[trigger] set.contains(k),
    ensures
        target_cycle(g, set, c) ==> target_cycle(g, cells, c),
        reached.contains(c) && target_cycle(g, cells, c) ==> target_cycle(g, set, c),
{
    if target_cycle(g, set, c) {
        let path = choose|path: Seq<Seq<char>>|
            path.len() >= 2 && path[0] == c && path.last() == c && #[trigger] target_chain(
                g,
                set,
                path,
            );
        assert forall|i: int, j: int|
            #![trigger path[i], path[j]]
            0 <= i && j == i + 1 && j < path.len() implies target_edge(
            g,
            cells,
            path[i],
            path[j],
        ) by {
            assert(target_edge(g, set, path[i], path[j]));
        }
        assert(target_chain(g, cells, path));
    }
    if reached.contains(c) && target_cycle(g, cells, c) {
        let path = choose|path: Seq<Seq<char>>|
            path.len() >= 2 && path[0] == c && path.last() == c && #[trigger] target_chain(
                g,
                cells,
                path,
            );
        assert forall|i: int, j: int|
            #![trigger path[i], path[j]]
            0 <= i && j == i + 1 && j < path.len() implies target_edge(g, set, path[i], path[j]) by {
            assert(target_edge(g, cells, path[i], path[j]));
            stays_in(g, reached, cells, path, i);
            stays_in(g, reached, cells, path, j);
        }
        assert(target_chain(g, set, path));
    }
}

/// A cycle through a cell that nothing changed reaches is one of both workbooks.
proof fn cycles_outside(
    g: GraphView,
    h: GraphView,
    cells: Set<Seq<char>>,
    others: Set<Seq<char>>,
    set: Set<Seq<char>>,
    c: Seq<char>,
)
    requires
        upward(g, set),
        !set.contains(c),
        forall|k: Seq<char>| !set.contains(k) ==> (cells.contains(k) <==> #[trigger] others.contains(k)),
        forall|k: Seq<char>, d: Seq<char>|
            !set.contains(k) ==> (has_edge(g, k, d) <==> #[trigger] has_edge(h, k, d)),
    ensures
        target_cycle(g, cells, c) ==> target_cycle(h, others, c),
{
    if target_cycle(g, cells, c) {
        let path = choose|path: Seq<Seq<char>>|
            path.len() >= 2 && path[0] == c && path.last() == c && #[trigger] target_chain(
                g,
                cells,
                path,
            );
        assert forall|i: int, j: int|
            #![trigger path[i], path[j]]
            0 <= i && j == i + 1 && j < path.len() implies target_edge(
            h,
            others,
            path[i],
            path[j],
        ) by {
            assert(target_edge(g, cells, path[i], path[j]));
            stays_out(g, set, cells, path, i);
            stays_out(g, set, cells, path, j);
            assert(has_edge(h, path[i], path[j]));
        }
        assert(target_chain(h, others, path));
    }
}

/// The cells that changed and those that depend on them.
spec fn reached(known: Known, keys: Seq<Seq<char>>) -> Set<Seq<char>> {
    Set::new(|c: Seq<char>| keys.contains(c) || is_affected(known.graph, keys, c))
}

proof fn reached_upward(
    known: Known,
    sheets: Seq<BookSheet>,
    keys: Seq<Seq<char>>,
    volatile: Seq<Seq<char>>,
)
    requires
        tidy(sheets),
        fits(known, sheets),
    ensures
        due(known, keys, volatile).subset_of(known.cells.dom()),
        upward(known.graph, reached(known, keys)),
        forall|c: Seq<char>|
            reached(known, keys).contains(c) && known.cells.dom().contains(c) ==> #[trigger] due(
                known,
                keys,
                volatile,
            ).contains(c),
{
    let set = due(known, keys, volatile);
    let all = reached(known, keys);
    known_by_key(known, sheets);
    assert forall|c: Seq<char>| #[trigger] set.contains(c) implies known.cells.dom().contains(c) by {
        if is_affected(known.graph, keys, c) {
            let p = choose|p: Seq<Seq<char>>|
                p.len() >= 2 && keys.contains(p[0]) && p.last() == c && #[trigger] feeds(
                    known.graph,
                    p,
                );
            assert(has_edge(known.graph, p[p.len() - 1], p[p.len() - 2]));
        }
    }
    assert forall|c: Seq<char>, d: Seq<char>| #[trigger]
        has_edge(known.graph, c, d) && all.contains(d) implies all.contains(c) by {
        readers_are_due(known, keys, volatile, c, d);
    }
    assert forall|c: Seq<char>|
        all.contains(c) && known.cells.dom().contains(c) implies #[trigger] set.contains(c) by {
        assert(is_due(known, keys, volatile, c));
    }
}

/// A cell that neither changed nor was computed again holds what it held.
proof fn place_kept(
    was: Seq<BookSheet>,
    sheets: Seq<BookSheet>,
    left: Seq<BookSheet>,
    seeds: Seq<Seed>,
    set: Set<Seq<char>>,
    s: Seq<char>,
    row: u32,
    col: u32,
)
    requires
        same_but(was, sheets, seeds),
        same_values_but(was, sheets, seeds),
        !set.contains(spec_cell_key(s, row as nat, col as nat)),
        !seed_keys(sheets, seeds).contains(spec_cell_key(s, row as nat, col as nat)),
        forall|t: Seq<char>, r: u32, c: u32|
            !set.contains(spec_cell_key(t, r as nat, c as nat)) ==> #[trigger] read_value(
                left,
                Seq::empty(),
                t,
                r,
                c,
            ) == read_value(sheets, Seq::empty(), t, r, c),
    ensures
        read_value(left, Seq::empty(), s, row, col) == read_value(was, Seq::empty(), s, row, col),
{
    assert(read_value(left, Seq::empty(), s, row, col) == read_value(
        sheets,
        Seq::empty(),
        s,
        row,
        col,
    ));
    if changed(seeds, s, row, col) {
        let i = choose|i: int|
            0 <= i < seeds.len() && (#[trigger] seeds[i]).sheet@ == s && seeds[i].row == row
                && seeds[i].col == col;
        sheet_found(sheets, s, 0);
        sheet_found(was, s, 0);
        if find_sheet(sheets, s, 0) is Some {
            changed_key(sheets, seeds, i);
        } else if let Some(j) = find_sheet(was, s, 0) {
            assert(was[j].name@ == sheets[j].name@);
        }
    }
}

/// A formula that is not due holds its value still.
proof fn untouched(
    told: Telling,
    before: Host,
    host: Host,
    past: Known,
    known: Known,
    was: Seq<BookSheet>,
    sheets: Seq<BookSheet>,
    seeds: Seq<Seed>,
    volatile: Seq<Seq<char>>,
    of: Set<Seq<char>>,
    left: Seq<BookSheet>,
    c: Seq<char>,
)
    requires
        tidy(was),
        tidy(sheets),
        same_but(was, sheets, seeds),
        same_values_but(was, sheets, seeds),
        fits(past, was),
        fits(known, sheets),
        same_host_but(before, host, known, volatile, of),
        are_held(before, past, was, of),
        same_shape(sheets, left),
        forall|t: Seq<char>, r: u32, k: u32|
            !due(known, seed_keys(sheets, seeds), volatile).contains(
                spec_cell_key(t, r as nat, k as nat),
            ) ==> #[trigger] read_value(left, Seq::empty(), t, r, k) == read_value(
                sheets,
                Seq::empty(),
                t,
                r,
                k,
            ),
        known.cells.contains_key(c),
        of.contains(c),
        is_fixed(told, host, known, c),
        !reads_volatile(known, volatile, c),
        !due(known, seed_keys(sheets, seeds), volatile).contains(c),
    ensures
        is_held(host, known, left, c),
{
    let none = Seq::<CellWrite>::empty();
    let keys = seed_keys(sheets, seeds);
    let set = due(known, keys, volatile);
    let all = reached(known, keys);
    let e = known.cells[c];
    reached_upward(known, sheets, keys, volatile);
    known_by_key(known, sheets);
    assert(!is_due(known, keys, volatile, c));
    assert(!all.contains(c));
    assert forall|k: Seq<char>| !all.contains(k) implies (past.cells.dom().contains(k)
        <==> #[trigger] known.cells.dom().contains(k)) by {
        unchanged_known(past, known, was, sheets, seeds, k);
    }
    assert forall|k: Seq<char>| !all.contains(k) implies (known.cells.dom().contains(k)
        <==> #[trigger] past.cells.dom().contains(k)) by {
        unchanged_known(past, known, was, sheets, seeds, k);
    }
    assert forall|k: Seq<char>, d: Seq<char>| !all.contains(k) implies (has_edge(past.graph, k, d)
        <==> #[trigger] has_edge(known.graph, k, d)) by {
        unchanged_known(past, known, was, sheets, seeds, k);
    }
    assert forall|k: Seq<char>, d: Seq<char>| !all.contains(k) implies (has_edge(known.graph, k, d)
        <==> #[trigger] has_edge(past.graph, k, d)) by {
        unchanged_known(past, known, was, sheets, seeds, k);
    }
    assert(upward(past.graph, all));
    unchanged_known(past, known, was, sheets, seeds, c);
    cycles_outside(past.graph, known.graph, past.cells.dom(), known.cells.dom(), all, c);
    cycles_outside(known.graph, past.graph, known.cells.dom(), past.cells.dom(), all, c);
    assert(entry_key(e) == c);
    place_kept(was, sheets, left, seeds, set, e.sheet, e.row, e.col);
    assert(is_held(before, past, was, c));
    if !target_cycle(known.graph, known.cells.dom(), c) {
        if let Some(a) = e.ast {
            let v = Held { sheets: was, writes: none };
            let w = Held { sheets: left, writes: none };
            assert(same_shape(was, left)) by {
                assert forall|i: int| 0 <= i < was.len() implies (#[trigger] was[i]).name@
                    == left[i].name@ && was[i].rows == left[i].rows && was[i].cols
                    == left[i].cols by {
                    assert(sheets[i].name@ == left[i].name@);
                    let j = was.len() - 1 - i;
                    assert(book_sizes(was)[j] == book_sizes(sheets)[j]);
                }
            }
            assert forall|t: Seq<char>, r: u32, k: u32|
                reads(
                    a,
                    e.sheet,
                    book_sizes(was),
                    spec_cell_key(t, r as nat, k as nat),
                ) implies #[trigger] holds_at(v, t, r, k) == holds_at(w, t, r, k) by {
                let d = spec_cell_key(t, r as nat, k as nat);
                assert(entry_deps(e, book_sizes(sheets)).contains(d));
                assert(has_edge(known.graph, c, d));
                assert(!all.contains(d));
                assert(!is_due(known, keys, volatile, d));
                place_kept(was, sheets, left, seeds, set, t, r, k);
            }
            assert(same_reads(a, e.sheet, book_sizes(was), v, w));
            same_value(a, at_cell(host, e), e.sheet, v, w);
        }
    }
}

/// Whether a workbook some of whose formulas held their values was changed in some cells. But for
/// volatile formulas, those are answered as before.
pub open spec fn is_edit(
    before: Host,
    host: Host,
    past: Known,
    known: Known,
    was: Seq<BookSheet>,
    sheets: Seq<BookSheet>,
    seeds: Seq<Seed>,
    volatile: Seq<Seq<char>>,
    of: Set<Seq<char>>,
) -> bool {
    &&& tidy(was)
    &&& tidy(sheets)
    &&& same_but(was, sheets, seeds)
    &&& same_values_but(was, sheets, seeds)
    &&& fits(past, was)
    &&& are_held(before, past, was, of)
    &&& known == after_seeds(past, sheets, book_sizes(sheets), seeds)
    &&& same_host_but(before, host, known, volatile, of)
}

/// When formulas of a workbook hold their values, cells of it are changed and what is due is
/// computed and put into its cells, formulas hold their values again: those that are due, and those
/// that held them and read no cell with a volatile formula, which is computed each time while what
/// reads it is not. Of a formula off all cycles this is said where its own questions are answered
/// by what they ask and by where it stands; what other formulas are told does not matter. Left out
/// are volatile formulas on a cycle, and values that a cell does not give back: the empty text, and
/// a text that shows an error.
pub proof fn edits_stay_settled(
    told: Telling,
    before: Host,
    host: Host,
    past: Known,
    known: Known,
    was: Seq<BookSheet>,
    sheets: Seq<BookSheet>,
    seeds: Seq<Seed>,
    volatile: Seq<Seq<char>>,
    of: Set<Seq<char>>,
    plan: Seq<Seq<char>>,
    cyclic: Seq<Seq<char>>,
    all: Seq<CellWrite>,
    left: Seq<BookSheet>,
)
    requires
        is_edit(before, host, past, known, was, sheets, seeds, volatile, of),
        is_topo(known.graph, due(known, seed_keys(sheets, seeds), volatile), plan, cyclic),
        is_round(told, sheets, known.cells, plan, cyclic, all),
        values_told_apart(all),
        book_view(left) == with_writes(book_view(sheets), write_seq(all)),
    ensures
        are_held(
            host,
            known,
            left,
            held_after(told, host, known, seed_keys(sheets, seeds), volatile, of),
        ),
        rest_stays(known, sheets, left),
{
    let keys = seed_keys(sheets, seeds);
    let set = due(known, keys, volatile);
    let cells = known.cells.dom();
    let now = held_after(told, host, known, keys, volatile, of);
    changes_are_learnt(past, was, sheets, seeds);
    let (values, kept) = choose|values: Seq<FValue>, kept: Seq<Seq<CellWrite>>| #[trigger]
        is_history(known.cells, plan, cyclic, values, kept) && kept.last() == all && is_computed(
            told,
            sheets,
            known.cells,
            plan,
            values,
            kept,
        );
    reached_upward(known, sheets, keys, volatile);
    book_is_settled(told, host, known, set, sheets, plan, cyclic, values, kept, left);
    assert forall|c: Seq<char>| #[trigger]
        known.cells.contains_key(c) && now.contains(c) implies is_held(host, known, left, c) by {
        if set.contains(c) {
            assert(is_due(known, keys, volatile, c));
            cycles_inside(known.graph, reached(known, keys), set, cells, c);
            assert(cyclic.contains(c) <==> target_cycle(known.graph, set, c));
            if !volatile_at(known, volatile, c) {
                assert(reached(known, keys).contains(c));
            }
        } else {
            assert(!is_due(known, keys, volatile, c));
            untouched(told, before, host, past, known, was, sheets, seeds, volatile, of, left, c);
        }
    }
}

// ---- one round after the other

spec fn apart(cells: Seq<CellView>) -> bool {
    forall|i: int, j: int|
        0 <= i < j < cells.len() ==> (#[trigger] cells[i]).row != (#[trigger] cells[j]).row
            || cells[i].col != cells[j].col
}

proof fn nothing_there(cells: Seq<CellView>, row: u32, col: u32, from: int)
    requires
        0 <= from,
    ensures
        match place_in(cells, row, col, from) {
            Some(j) => from <= j < cells.len(),
            None => forall|j: int|
                from <= j < cells.len() ==> (#[trigger] cells[j]).row != row || cells[j].col != col,
        },
    decreases cells.len() - from,
{
    if from < cells.len() {
        nothing_there(cells, row, col, from + 1);
    }
}

proof fn writes_apart(b: Seq<SheetOfCells>, ws: Seq<WriteSpec>)
    requires
        forall|i: int| 0 <= i < b.len() ==> apart((#[trigger] b[i]).cells),
    ensures
        with_writes(b, ws).len() == b.len(),
        forall|i: int|
            0 <= i < b.len() ==> {
                let x = #[trigger] with_writes(b, ws)[i];
                &&& x.name == b[i].name
                &&& x.rows == b[i].rows
                &&& x.cols == b[i].cols
                &&& apart(x.cells)
            },
    decreases ws.len(),
{
    if ws.len() > 0 {
        let w = ws.last();
        let m = with_writes(b, ws.drop_last());
        writes_apart(b, ws.drop_last());
        let i = w.sheet_index;
        if 0 <= i < m.len() {
            assert(apart(m[i].cells));
            nothing_there(m[i].cells, w.row, w.col, 0);
            assert(apart(with_content(m[i].cells, w.row, w.col, content_of(w.value))));
        }
    }
}

/// A workbook that a round has left is ready for the next change: each sheet has a name of its own
/// and each cell its own place still, and what is known of its formulas fits it.
pub proof fn rounds_go_on(
    known: Known,
    sheets: Seq<BookSheet>,
    all: Seq<CellWrite>,
    left: Seq<BookSheet>,
)
    requires
        tidy(sheets),
        fits(known, sheets),
        book_view(left) == with_writes(book_view(sheets), write_seq(all)),
        rest_stays(known, sheets, left),
    ensures
        tidy(left),
        fits(known, left),
{
    let b = book_view(sheets);
    assert forall|i: int| 0 <= i < b.len() implies apart((#[trigger] b[i]).cells) by {
        assert(spread_out(sheets[i].cells@));
    }
    writes_apart(b, write_seq(all));
    assert(left.len() == book_view(left).len());
    assert forall|i: int| 0 <= i < left.len() implies (#[trigger] left[i]).name@ == sheets[i].name@
        && left[i].rows == sheets[i].rows && left[i].cols == sheets[i].cols && spread_out(
        left[i].cells@,
    ) by {
        let x = book_view(left)[i];
        assert(x == left[i]@ && apart(x.cells));
        assert forall|p: int, q: int| 0 <= p < q < left[i].cells@.len() implies (
        #[trigger] left[i].cells@[p]).row != (#[trigger] left[i].cells@[q]).row
            || left[i].cells@[p].col != left[i].cells@[q].col by {
            assert(x.cells[p] == left[i].cells@[p]@ && x.cells[q] == left[i].cells@[q]@);
        }
    }
    assert(book_sizes(left) =~= book_sizes(sheets));
    let none = Seq::<Seed>::empty();
    assert(same_but(sheets, left, none));
    changes_are_learnt(known, sheets, left, none);
}

} // verus!
