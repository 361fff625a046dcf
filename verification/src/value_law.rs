//! What holds of the values that formulas get: when all are computed, each formula's cell holds
//! what the formula gives.
use crate::address::label_value_nonneg;
use crate::depgraph::{
    has_edge, is_topo, range_holds, reads, reads_any, reads_rows, spec_bounds, spec_cell_key,
    spec_endpoint_of, spec_split_local, target_cycle, target_edge, wrap32, SheetSize,
};
use crate::engine::{
    book_sizes, cell_value, circ_writes, clipped, content_of, content_round_trip, entry_deps,
    entry_key, entry_of, find_sheet, formula_at, parsed_ast, range_value, read_value, rectangle,
    write_of, write_seq, written, BookSheet, CellWrite, Content, Entry, Known, WriteSpec,
};
use crate::evaluator::{eval, evals, scalar, Oracle};
use crate::parse::Ast;
use crate::recalc_law::{fits, key_names_one, known_by_key, made, made_value, sheet_found, tidy};
use crate::text::upper;
use crate::value::{error_of, FValue, FormulaError};
use crate::write_back::{
    book_view, place_found_in, place_in, with_content, with_writes, CellView, SheetOfCells,
};
use vstd::prelude::*;

verus! {

/// A host's answers, with cells read from a workbook and from what was written in a round. A
/// formula on `sheet` asks.
pub open spec fn answers_of(
    host: Oracle,
    sheets: Seq<BookSheet>,
    writes: Seq<CellWrite>,
    sheet: Seq<char>,
) -> Oracle {
    Oracle {
        cell: |r: Seq<char>| cell_value(sheets, writes, sheet, r),
        range: |a: Seq<char>, b: Seq<char>| range_value(sheets, writes, sheet, a, b),
        name_ref: host.name_ref,
        name_value: host.name_value,
        known: host.known,
        call: host.call,
        parse: host.parse,
        show: host.show,
        arith1: host.arith1,
        arith2: host.arith2,
    }
}

/// Whether a formula reads cells through a name: what it reads so is not to be seen in it.
pub open spec fn reads_by_name(node: Ast, host: Oracle) -> bool
    decreases node,
{
    match node {
        Ast::Name(n) => upper(n) != "TRUE"@ && upper(n) != "FALSE"@ && (host.name_ref)(n) is Some,
        Ast::Unary { operand, .. } => reads_by_name(*operand, host),
        Ast::Binary { left, right, .. } => reads_by_name(*left, host) || reads_by_name(
            *right,
            host,
        ),
        Ast::Call { args, .. } => exists|i: int|
            0 <= i < args.len() && reads_by_name(#[trigger] args[i], host),
        Ast::Array(rows) => exists|i: int, j: int|
            0 <= i < rows.len() && 0 <= j < rows[i].len() && reads_by_name(
                #[trigger] rows[i][j],
                host,
            ),
        _ => false,
    }
}

// ---- what was written last

/// Whether a write is to a place.
spec fn goes_to(w: WriteSpec, sheet: Seq<char>, row: u32, col: u32) -> bool {
    w.sheet == sheet && w.row == row && w.col == col
}

/// The latest value written to a place.
spec fn latest(ws: Seq<WriteSpec>, sheet: Seq<char>, row: u32, col: u32) -> Option<FValue>
    decreases ws.len(),
{
    if ws.len() == 0 {
        None
    } else if goes_to(ws.last(), sheet, row, col) {
        Some(ws.last().value)
    } else {
        latest(ws.drop_last(), sheet, row, col)
    }
}

proof fn written_last(w: Seq<CellWrite>, sheet: Seq<char>, row: u32, col: u32)
    ensures
        written(w, sheet, row, col) == latest(write_seq(w), sheet, row, col),
    decreases w.len(),
{
    if w.len() > 0 {
        assert(write_seq(w).last() == w.last()@);
        assert(write_seq(w).drop_last() == write_seq(w.drop_last()));
        written_last(w.drop_last(), sheet, row, col);
    }
}

/// A formula's cell is the cell of its key.
spec fn keyed(cells: Map<Seq<char>, Entry>) -> bool {
    forall|c: Seq<char>| #[trigger] cells.contains_key(c) ==> entry_key(cells[c]) == c
}

proof fn key_of_place(
    cells: Map<Seq<char>, Entry>,
    c: Seq<char>,
    v: FValue,
    sheet: Seq<char>,
    row: u32,
    col: u32,
)
    requires
        keyed(cells),
        cells.contains_key(c),
    ensures
        goes_to(write_of(cells[c], v), sheet, row, col) <==> c == spec_cell_key(
            sheet,
            row as nat,
            col as nat,
        ),
{
    let e = cells[c];
    if c == spec_cell_key(sheet, row as nat, col as nat) {
        key_names_one(e.sheet, e.row as nat, e.col as nat, sheet, row as nat, col as nat);
    }
}

/// Where none of the formulas from place `i` on is at a place, nothing is written there.
proof fn unwritten(
    base: Seq<WriteSpec>,
    cells: Map<Seq<char>, Entry>,
    plan: Seq<Seq<char>>,
    values: Seq<FValue>,
    i: int,
    n: int,
    sheet: Seq<char>,
    row: u32,
    col: u32,
)
    requires
        keyed(cells),
        0 <= i <= n <= plan.len(),
        forall|j: int|
            i <= j < n ==> #[trigger] plan[j] != spec_cell_key(sheet, row as nat, col as nat),
    ensures
        latest(base + made(cells, plan, values, n), sheet, row, col) == latest(
            base + made(cells, plan, values, i),
            sheet,
            row,
            col,
        ),
    decreases n - i,
{
    if i < n {
        unwritten(base, cells, plan, values, i, n - 1, sheet, row, col);
        let p = made(cells, plan, values, n - 1);
        if cells.contains_key(plan[n - 1]) {
            let v = made_value(cells[plan[n - 1]], values[n - 1]);
            let w = write_of(cells[plan[n - 1]], v);
            key_of_place(cells, plan[n - 1], v, sheet, row, col);
            assert((base + p.push(w)).last() == w);
            assert((base + p.push(w)).drop_last() == base + p);
        }
    }
}

proof fn circ_last(
    cells: Map<Seq<char>, Entry>,
    keys: Seq<Seq<char>>,
    sheet: Seq<char>,
    row: u32,
    col: u32,
)
    requires
        keyed(cells),
        keys.contains(spec_cell_key(sheet, row as nat, col as nat)),
        cells.contains_key(spec_cell_key(sheet, row as nat, col as nat)),
    ensures
        latest(circ_writes(cells, keys), sheet, row, col) == Some(
            FValue::Error(FormulaError::Circ),
        ),
    decreases keys.len(),
{
    let c = spec_cell_key(sheet, row as nat, col as nat);
    let v = FValue::Error(FormulaError::Circ);
    let p = keys.drop_last();
    if keys.last() != c {
        let i = keys.index_of(c);
        assert(p[i] == c);
        circ_last(cells, p, sheet, row, col);
    }
    if cells.contains_key(keys.last()) {
        let w = write_of(cells[keys.last()], v);
        key_of_place(cells, keys.last(), v, sheet, row, col);
        assert(circ_writes(cells, p).push(w).drop_last() == circ_writes(cells, p));
    }
}

// ---- what is read

/// A workbook and what was written in a round.
pub(crate) struct Held {
    pub sheets: Seq<BookSheet>,
    pub writes: Seq<CellWrite>,
}

/// What a place holds.
pub(crate) open spec fn holds_at(h: Held, s: Seq<char>, r: u32, c: u32) -> FValue {
    read_value(h.sheets, h.writes, s, r, c)
}

/// Whether two workbooks have the same sheets, of the same sizes.
pub open spec fn same_shape(a: Seq<BookSheet>, b: Seq<BookSheet>) -> bool {
    &&& a.len() == b.len()
    &&& forall|i: int|
        0 <= i < a.len() ==> (#[trigger] a[i]).name@ == b[i].name@ && a[i].rows == b[i].rows
            && a[i].cols == b[i].cols
}

proof fn same_sheet_found(a: Seq<BookSheet>, b: Seq<BookSheet>, name: Seq<char>, from: int)
    requires
        same_shape(a, b),
        0 <= from,
    ensures
        find_sheet(a, name, from) == find_sheet(b, name, from),
    decreases a.len() - from,
{
    if from < a.len() {
        assert(a[from].name@ == b[from].name@);
        same_sheet_found(a, b, name, from + 1);
    }
}

/// Whether every cell that a formula reads holds the same.
pub(crate) open spec fn same_reads(
    node: Ast,
    sheet: Seq<char>,
    bounds: Seq<SheetSize>,
    v: Held,
    w: Held,
) -> bool {
    forall|s: Seq<char>, r: u32, c: u32|
        reads(node, sheet, bounds, spec_cell_key(s, r as nat, c as nat)) ==> #[trigger] holds_at(
            v,
            s,
            r,
            c,
        ) == holds_at(w, s, r, c)
}

proof fn bounds_found(b: Seq<SheetSize>, name: Seq<char>, p: int)
    requires
        0 <= p < b.len(),
        b[p].sheet == name,
        forall|q: int| 0 <= q < p ==> (#[trigger] b[q]).sheet != name,
    ensures
        spec_bounds(b, name) == (b[p].rows, b[p].cols),
    decreases p,
{
    if p > 0 {
        assert(b[0].sheet != name);
        assert forall|q: int| 0 <= q < p - 1 implies (#[trigger] b.skip(1)[q]).sheet != name by {
            assert(b[q + 1].sheet != name);
        }
        bounds_found(b.skip(1), name, p - 1);
    }
}

proof fn size_found(sheets: Seq<BookSheet>, i: int)
    requires
        tidy(sheets),
        0 <= i < sheets.len(),
    ensures
        spec_bounds(book_sizes(sheets), sheets[i].name@) == (sheets[i].rows, sheets[i].cols),
{
    let b = book_sizes(sheets);
    let p = sheets.len() - 1 - i;
    assert forall|q: int| 0 <= q < p implies (#[trigger] b[q]).sheet != sheets[i].name@ by {
        assert(sheets[i].name@ != sheets[sheets.len() - 1 - q].name@);
    }
    bounds_found(b, sheets[i].name@, p);
}

proof fn same_cell(r: Seq<char>, sheet: Seq<char>, v: Held, w: Held)
    requires
        same_shape(v.sheets, w.sheets),
        same_reads(Ast::Ref(r), sheet, book_sizes(v.sheets), v, w),
    ensures
        cell_value(v.sheets, v.writes, sheet, r) == cell_value(w.sheets, w.writes, sheet, r),
{
    let (s, local) = spec_split_local(r, sheet);
    let clean = crate::text::without_char(local, '$');
    same_sheet_found(v.sheets, w.sheets, s, 0);
    if let Some((row, col)) = crate::address::spec_parse_addr(clean) {
        let k = crate::address::letters_end(clean);
        label_value_nonneg(clean.take(k));
        let (y, x) = (row as u32, col as u32);
        assert(y == row && x == col);
        let bounds = book_sizes(v.sheets);
        assert(reads(Ast::Ref(r), sheet, bounds, spec_cell_key(s, y as nat, x as nat)));
        assert(holds_at(v, s, y, x) == holds_at(w, s, y, x));
    }
}

proof fn same_range(start: Seq<char>, end: Seq<char>, sheet: Seq<char>, v: Held, w: Held)
    requires
        tidy(v.sheets),
        same_shape(v.sheets, w.sheets),
        same_reads(Ast::Range { start, end }, sheet, book_sizes(v.sheets), v, w),
    ensures
        range_value(v.sheets, v.writes, sheet, start, end) == range_value(
            w.sheets,
            w.writes,
            sheet,
            start,
            end,
        ),
{
    let bounds = book_sizes(v.sheets);
    let a = spec_endpoint_of(start, sheet);
    let b = spec_endpoint_of(end, sheet);
    sheet_found(v.sheets, a.sheet, 0);
    same_sheet_found(v.sheets, w.sheets, a.sheet, 0);
    if let Some(i) = find_sheet(v.sheets, a.sheet, 0) {
        size_found(v.sheets, i);
        assert(v.sheets[i].rows == w.sheets[i].rows && v.sheets[i].cols == w.sheets[i].cols);
        let rows = clipped(a.row, b.row, v.sheets[i].rows);
        let cols = clipped(a.col, b.col, v.sheets[i].cols);
        let x = rectangle(v.sheets, v.writes, a.sheet, rows, cols);
        let y = rectangle(w.sheets, w.writes, a.sheet, rows, cols);
        assert forall|p: int, q: int|
            0 <= p < x.len() && 0 <= q < x[p].len() implies #[trigger] x[p][q] == y[p][q] by {
            let (r, c) = ((rows.0 + p) as u32, (cols.0 + q) as u32);
            assert(r == rows.0 + p && c == cols.0 + q);
            assert(wrap32(r as int) == r as nat && wrap32(c as int) == c as nat);
            let k = spec_cell_key(a.sheet, wrap32(r as int), wrap32(c as int));
            assert(range_holds(start, end, sheet, bounds, k));
            assert(reads(Ast::Range { start, end }, sheet, bounds, k));
            assert(holds_at(v, a.sheet, r, c) == holds_at(w, a.sheet, r, c));
        }
        assert forall|p: int| 0 <= p < x.len() implies #[trigger] x[p] == y[p] by {
            assert(x[p].len() == y[p].len());
            assert(forall|q: int| 0 <= q < x[p].len() ==> x[p][q] == y[p][q]);
            assert(x[p] =~= y[p]);
        }
        assert(x =~= y);
    }
}

proof fn one_of_read(
    list: Seq<Ast>,
    sheet: Seq<char>,
    bounds: Seq<SheetSize>,
    k: Seq<char>,
    i: int,
)
    requires
        0 <= i < list.len(),
        reads(list[i], sheet, bounds, k),
    ensures
        reads_any(list, sheet, bounds, k),
    decreases list.len(),
{
    if i < list.len() - 1 {
        assert(list.drop_last()[i] == list[i]);
        one_of_read(list.drop_last(), sheet, bounds, k, i);
    }
}

proof fn one_row_read(
    rows: Seq<Seq<Ast>>,
    sheet: Seq<char>,
    bounds: Seq<SheetSize>,
    k: Seq<char>,
    i: int,
)
    requires
        0 <= i < rows.len(),
        reads_any(rows[i], sheet, bounds, k),
    ensures
        reads_rows(rows, sheet, bounds, k),
    decreases rows.len(),
{
    if i < rows.len() - 1 {
        assert(rows.drop_last()[i] == rows[i]);
        one_row_read(rows.drop_last(), sheet, bounds, k, i);
    }
}

/// A formula gives the same where the cells that it reads hold the same.
pub(crate) proof fn same_value(
    node: Ast,
    host: Oracle,
    sheet: Seq<char>,
    v: Held,
    w: Held,
)
    requires
        tidy(v.sheets),
        same_shape(v.sheets, w.sheets),
        !reads_by_name(node, host),
        same_reads(node, sheet, book_sizes(v.sheets), v, w),
    ensures
        eval(node, answers_of(host, v.sheets, v.writes, sheet)) == eval(
            node,
            answers_of(host, w.sheets, w.writes, sheet),
        ),
    decreases node,
{
    let bounds = book_sizes(v.sheets);
    let a = answers_of(host, v.sheets, v.writes, sheet);
    let b = answers_of(host, w.sheets, w.writes, sheet);
    match node {
        Ast::Ref(r) => same_cell(r, sheet, v, w),
        Ast::Range { start, end } => same_range(start, end, sheet, v, w),
        Ast::Unary { op, operand } => {
            assert(same_reads(*operand, sheet, bounds, v, w)) by {
                part_read(node, *operand, sheet, bounds, v, w);
            }
            same_value(*operand, host, sheet, v, w);
            assert(a.parse == b.parse && a.arith1 == b.arith1);
        },
        Ast::Binary { op, left, right } => {
            part_read(node, *left, sheet, bounds, v, w);
            part_read(node, *right, sheet, bounds, v, w);
            same_value(*left, host, sheet, v, w);
            same_value(*right, host, sheet, v, w);
        },
        Ast::Call { name, args } => {
            assert forall|i: int| 0 <= i < args.len() implies eval(#[trigger] args[i], a) == eval(
                args[i],
                b,
            ) by {
                assert forall|k: Seq<char>| reads(args[i], sheet, bounds, k) implies reads(
                    node,
                    sheet,
                    bounds,
                    k,
                ) by {
                    one_of_read(args, sheet, bounds, k, i);
                }
                part_read(node, args[i], sheet, bounds, v, w);
                same_value(args[i], host, sheet, v, w);
            }
            assert(evals(args, a) =~= evals(args, b));
        },
        Ast::Array(rows) => {
            assert forall|i: int, j: int|
                0 <= i < rows.len() && 0 <= j < rows[i].len() implies eval(
                #[trigger] rows[i][j],
                a,
            ) == eval(rows[i][j], b) by {
                assert forall|k: Seq<char>| reads(rows[i][j], sheet, bounds, k) implies reads(
                    node,
                    sheet,
                    bounds,
                    k,
                ) by {
                    one_of_read(rows[i], sheet, bounds, k, j);
                    one_row_read(rows, sheet, bounds, k, i);
                }
                part_read(node, rows[i][j], sheet, bounds, v, w);
                same_value(rows[i][j], host, sheet, v, w);
            }
            let x = eval(node, a)->Range_0;
            let y = eval(node, b)->Range_0;
            assert forall|i: int| 0 <= i < rows.len() implies #[trigger] x[i] == y[i] by {
                assert forall|j: int| 0 <= j < rows[i].len() implies x[i][j] == y[i][j] by {
                    assert(eval(rows[i][j], a) == eval(rows[i][j], b));
                }
                assert(x[i] =~= y[i]);
            }
            assert(x =~= y);
        },
        _ => {},
    }
}

proof fn part_read(
    node: Ast,
    part: Ast,
    sheet: Seq<char>,
    bounds: Seq<SheetSize>,
    v: Held,
    w: Held,
)
    requires
        same_reads(node, sheet, bounds, v, w),
        forall|k: Seq<char>| reads(part, sheet, bounds, k) ==> reads(node, sheet, bounds, k),
    ensures
        same_reads(part, sheet, bounds, v, w),
{
    assert forall|s: Seq<char>, r: u32, c: u32|
        reads(part, sheet, bounds, spec_cell_key(s, r as nat, c as nat)) implies #[trigger] holds_at(
        v,
        s,
        r,
        c,
    ) == holds_at(w, s, r, c) by {
        assert(reads(node, sheet, bounds, spec_cell_key(s, r as nat, c as nat)));
    }
}

// ---- a round

/// Whether `kept[i]` is what a round had written when the formula at place `i` of its plan was
/// next, and the last of `kept` is what it wrote in all.
pub open spec fn is_history(
    cells: Map<Seq<char>, Entry>,
    plan: Seq<Seq<char>>,
    cyclic: Seq<Seq<char>>,
    values: Seq<FValue>,
    kept: Seq<Seq<CellWrite>>,
) -> bool {
    &&& kept.len() == plan.len() + 1
    &&& forall|i: int|
        0 <= i < kept.len() ==> write_seq(#[trigger] kept[i]) == circ_writes(cells, cyclic) + made(
            cells,
            plan,
            values,
            i,
        )
}

/// What a host says, by the place of a formula.
pub type Host = spec_fn(Seq<char>, u32, u32) -> Oracle;

/// Whether what an oracle says is what a formula is told where it stands, of a workbook with what
/// was written in a round.
pub type Telling = spec_fn(Seq<BookSheet>, Seq<CellWrite>, Entry, Oracle) -> bool;

/// What a host says where a formula stands.
pub open spec fn at_cell(host: Host, e: Entry) -> Oracle {
    host(e.sheet, e.row, e.col)
}

/// Whether a value is what a formula gives of a workbook with what was written, for whatever it may
/// have been told.
pub open spec fn is_told(
    told: Telling,
    sheets: Seq<BookSheet>,
    writes: Seq<CellWrite>,
    e: Entry,
    v: FValue,
) -> bool {
    forall|o: Oracle| #[trigger]
        told(sheets, writes, e, o) ==> v == scalar(
            eval(e.ast->0, answers_of(o, sheets, writes, e.sheet)),
        )
}

/// Whether each value of a round is what the formula gave when it was computed, with what had been
/// written by then.
pub open spec fn is_computed(
    told: Telling,
    sheets: Seq<BookSheet>,
    cells: Map<Seq<char>, Entry>,
    plan: Seq<Seq<char>>,
    values: Seq<FValue>,
    kept: Seq<Seq<CellWrite>>,
) -> bool {
    forall|i: int|
        0 <= i < plan.len() && cells.contains_key(plan[i]) && cells[plan[i]].ast is Some ==> is_told(
            told,
            sheets,
            kept[i],
            cells[plan[i]],
            #[trigger] values[i],
        )
}

/// Whether a formula's own questions are answered by what they ask and by where the formula stands,
/// whatever cells hold; and it reads no cells through a name. So it is of one that asks nothing,
/// and of one that does not parse.
pub open spec fn is_steady(told: Telling, host: Host, e: Entry) -> bool {
    e.ast matches Some(a) ==> !reads_by_name(a, at_cell(host, e)) && forall|
        sheets: Seq<BookSheet>,
        writes: Seq<CellWrite>,
    | #[trigger]
        told(sheets, writes, e, at_cell(host, e))
}

/// What a formula has read stays: nothing is written later to a cell that it reads.
proof fn reads_stay(
    known: Known,
    set: Set<Seq<char>>,
    sheets: Seq<BookSheet>,
    plan: Seq<Seq<char>>,
    cyclic: Seq<Seq<char>>,
    values: Seq<FValue>,
    kept: Seq<Seq<CellWrite>>,
    i: int,
)
    requires
        tidy(sheets),
        fits(known, sheets),
        is_topo(known.graph, set, plan, cyclic),
        is_history(known.cells, plan, cyclic, values, kept),
        0 <= i < plan.len(),
        known.cells.contains_key(plan[i]),
        known.cells[plan[i]].ast is Some,
    ensures
        same_reads(
            known.cells[plan[i]].ast->0,
            known.cells[plan[i]].sheet,
            book_sizes(sheets),
            Held { sheets, writes: kept[i] },
            Held { sheets, writes: kept[plan.len() as int] },
        ),
{
    let e = known.cells[plan[i]];
    let bounds = book_sizes(sheets);
    let n = plan.len() as int;
    let base = circ_writes(known.cells, cyclic);
    known_by_key(known, sheets);
    assert(plan.contains(plan[i]));
    assert forall|s: Seq<char>, r: u32, c: u32|
        reads(
            e.ast->0,
            e.sheet,
            bounds,
            spec_cell_key(s, r as nat, c as nat),
        ) implies #[trigger] holds_at(Held { sheets, writes: kept[i] }, s, r, c) == holds_at(
        Held { sheets, writes: kept[n] },
        s,
        r,
        c,
    ) by {
        let d = spec_cell_key(s, r as nat, c as nat);
        assert(entry_deps(e, bounds).contains(d));
        assert(has_edge(known.graph, plan[i], d));
        assert forall|j: int| i <= j < n implies #[trigger] plan[j] != d by {
            if plan[j] == d {
                assert(plan.contains(d));
                assert(set.contains(d) && set.contains(plan[i]));
                assert(target_edge(known.graph, set, plan[i], d));
                assert(plan.take(i).contains(d));
                let m = plan.take(i).index_of(d);
                assert(plan[m] == d && m < i);
            }
        }
        unwritten(base, known.cells, plan, values, i, n, s, r, c);
        written_last(kept[i], s, r, c);
        written_last(kept[n], s, r, c);
        assert(write_seq(kept[i]) == base + made(known.cells, plan, values, i));
        assert(write_seq(kept[n]) == base + made(known.cells, plan, values, n));
    }
}

/// When formulas of a workbook have been computed in the order that was planned, each holds what it
/// gives: the value of a formula is what computing it again gives, with the values that all cells
/// then hold. A formula on a cycle holds `#CIRC!`, one that does not parse `#NAME?`. Of a formula
/// off all cycles this is said where its own questions are answered by what they ask and by where
/// it stands; what other formulas are told does not matter.
pub proof fn formulas_hold_their_values(
    told: Telling,
    host: Host,
    known: Known,
    set: Set<Seq<char>>,
    sheets: Seq<BookSheet>,
    plan: Seq<Seq<char>>,
    cyclic: Seq<Seq<char>>,
    values: Seq<FValue>,
    kept: Seq<Seq<CellWrite>>,
    cell: Seq<char>,
)
    requires
        tidy(sheets),
        fits(known, sheets),
        is_topo(known.graph, set, plan, cyclic),
        is_history(known.cells, plan, cyclic, values, kept),
        is_computed(told, sheets, known.cells, plan, values, kept),
        set.contains(cell),
        known.cells.contains_key(cell),
        cyclic.contains(cell) || is_steady(told, host, known.cells[cell]),
    ensures
        ({
            let e = known.cells[cell];
            let all = kept.last();
            written(all, e.sheet, e.row, e.col) == Some(
                if cyclic.contains(cell) {
                    FValue::Error(FormulaError::Circ)
                } else {
                    match e.ast {
                        Some(a) => scalar(eval(a, answers_of(at_cell(host, e), sheets, all, e.sheet))),
                        None => FValue::Error(FormulaError::Name),
                    }
                },
            )
        }),
{
    let e = known.cells[cell];
    let n = plan.len() as int;
    let base = circ_writes(known.cells, cyclic);
    known_by_key(known, sheets);
    written_last(kept[n], e.sheet, e.row, e.col);
    assert(write_seq(kept[n]) == base + made(known.cells, plan, values, n));
    if cyclic.contains(cell) {
        assert forall|j: int| 0 <= j < n implies #[trigger] plan[j] != cell by {
            assert(plan.contains(plan[j]));
        }
        unwritten(base, known.cells, plan, values, 0, n, e.sheet, e.row, e.col);
        assert(base + made(known.cells, plan, values, 0) == base);
        circ_last(known.cells, cyclic, e.sheet, e.row, e.col);
    } else {
        assert(plan.contains(cell));
        let i = plan.index_of(cell);
        unwritten(base, known.cells, plan, values, i + 1, n, e.sheet, e.row, e.col);
        let p = made(known.cells, plan, values, i);
        let v = made_value(e, values[i]);
        let w = write_of(e, v);
        assert(made(known.cells, plan, values, i + 1) == p.push(w));
        assert((base + p.push(w)).last() == w);
        assert(goes_to(w, e.sheet, e.row, e.col));
        if e.ast is Some {
            assert(is_told(told, sheets, kept[i], e, values[i]));
            assert(told(sheets, kept[i], e, at_cell(host, e)));
            reads_stay(known, set, sheets, plan, cyclic, values, kept, i);
            same_value(
                e.ast->0,
                at_cell(host, e),
                e.sheet,
                Held { sheets, writes: kept[i] },
                Held { sheets, writes: kept[n] },
            );
        }
    }
}

// ---- the workbook that is left

/// The first sheet of a name, at or behind `from`.
spec fn sheet_in(b: Seq<SheetOfCells>, name: Seq<char>, from: int) -> Option<int>
    decreases b.len() - from,
{
    if 0 <= from < b.len() {
        if b[from].name == name {
            Some(from)
        } else {
            sheet_in(b, name, from + 1)
        }
    } else {
        None
    }
}

proof fn sheet_found_in(v: Seq<BookSheet>, name: Seq<char>, from: int)
    requires
        0 <= from,
    ensures
        find_sheet(v, name, from) == sheet_in(book_view(v), name, from),
    decreases v.len() - from,
{
    if from < v.len() {
        sheet_found_in(v, name, from + 1);
    }
}

/// What the cell at a place holds.
spec fn content_in(cells: Seq<CellView>, row: u32, col: u32) -> Option<Content> {
    match place_in(cells, row, col, 0) {
        Some(j) => cells[j].content,
        None => None,
    }
}

/// The formula at a place.
spec fn formula_in(cells: Seq<CellView>, row: u32, col: u32) -> Option<Seq<char>> {
    match place_in(cells, row, col, 0) {
        Some(j) => cells[j].formula,
        None => None,
    }
}

proof fn place_is(cells: Seq<CellView>, row: u32, col: u32, from: int)
    requires
        0 <= from,
    ensures
        place_in(cells, row, col, from) matches Some(j) ==> from <= j < cells.len() && cells[j].row
            == row && cells[j].col == col,
    decreases cells.len() - from,
{
    if from < cells.len() {
        place_is(cells, row, col, from + 1);
    }
}

proof fn place_stays(p: Seq<CellView>, q: Seq<CellView>, row: u32, col: u32, from: int)
    requires
        0 <= from,
        p.len() <= q.len() <= p.len() + 1,
        forall|k: int|
            0 <= k < p.len() ==> (#[trigger] q[k]).row == p[k].row && q[k].col == p[k].col,
    ensures
        place_in(p, row, col, from) is Some ==> place_in(q, row, col, from) == place_in(
            p,
            row,
            col,
            from,
        ),
        place_in(p, row, col, from) is None ==> place_in(q, row, col, from) == (if from < q.len()
            && q.len() == p.len() + 1 && q.last().row == row && q.last().col == col {
            Some(q.len() - 1)
        } else {
            None
        }),
    decreases q.len() - from,
{
    if from < q.len() {
        if from < p.len() {
            assert(q[from].row == p[from].row);
        }
        place_stays(p, q, row, col, from + 1);
    }
}

proof fn content_put(cells: Seq<CellView>, row: u32, col: u32, c: Content, r: u32, k: u32)
    ensures
        content_in(with_content(cells, row, col, c), r, k) == if r == row && k == col {
            Some(c)
        } else {
            content_in(cells, r, k)
        },
        formula_in(with_content(cells, row, col, c), r, k) == formula_in(cells, r, k),
{
    let q = with_content(cells, row, col, c);
    place_is(cells, row, col, 0);
    place_is(cells, r, k, 0);
    place_stays(cells, q, r, k, 0);
}

/// Whether every sheet has a name of its own.
spec fn own_names(b: Seq<SheetOfCells>) -> bool {
    forall|i: int, j: int|
        0 <= i < j < b.len() ==> (#[trigger] b[i]).name != (#[trigger] b[j]).name
}

/// Whether a write is to a sheet that is there, under its name.
spec fn arrives(w: WriteSpec, b: Seq<SheetOfCells>) -> bool {
    0 <= w.sheet_index < b.len() && b[w.sheet_index].name == w.sheet
}

/// What the cell at a place of a sheet holds.
spec fn held(b: Seq<SheetOfCells>, sheet: Seq<char>, row: u32, col: u32) -> Option<Content> {
    match sheet_in(b, sheet, 0) {
        Some(i) => content_in(b[i].cells, row, col),
        None => None,
    }
}

proof fn sheet_is(b: Seq<SheetOfCells>, name: Seq<char>, from: int)
    requires
        0 <= from,
    ensures
        sheet_in(b, name, from) matches Some(i) ==> from <= i < b.len() && b[i].name == name,
        sheet_in(b, name, from) is None ==> forall|i: int|
            from <= i < b.len() ==> (#[trigger] b[i]).name != name,
    decreases b.len() - from,
{
    if from < b.len() {
        sheet_is(b, name, from + 1);
    }
}

proof fn sheet_stays(a: Seq<SheetOfCells>, b: Seq<SheetOfCells>, name: Seq<char>, from: int)
    requires
        0 <= from,
        a.len() == b.len(),
        forall|i: int| 0 <= i < a.len() ==> (#[trigger] a[i]).name == b[i].name,
    ensures
        sheet_in(a, name, from) == sheet_in(b, name, from),
    decreases a.len() - from,
{
    if from < a.len() {
        assert(a[from].name == b[from].name);
        sheet_stays(a, b, name, from + 1);
    }
}

/// Writing changes contents alone: of each cell, what was written to it last.
proof fn writes_held(
    b: Seq<SheetOfCells>,
    ws: Seq<WriteSpec>,
    sheet: Seq<char>,
    row: u32,
    col: u32,
)
    requires
        own_names(b),
        forall|k: int| 0 <= k < ws.len() ==> arrives(#[trigger] ws[k], b),
    ensures
        with_writes(b, ws).len() == b.len(),
        forall|i: int|
            0 <= i < b.len() ==> {
                let x = #[trigger] with_writes(b, ws)[i];
                &&& x.name == b[i].name
                &&& x.rows == b[i].rows
                &&& x.cols == b[i].cols
                &&& formula_in(x.cells, row, col) == formula_in(b[i].cells, row, col)
            },
        held(with_writes(b, ws), sheet, row, col) == match latest(ws, sheet, row, col) {
            Some(v) => Some(content_of(v)),
            None => held(b, sheet, row, col),
        },
    decreases ws.len(),
{
    if ws.len() > 0 {
        let p = ws.drop_last();
        let w = ws.last();
        assert forall|k: int| 0 <= k < p.len() implies arrives(#[trigger] p[k], b) by {
            assert(p[k] == ws[k]);
        }
        writes_held(b, p, sheet, row, col);
        let m = with_writes(b, p);
        let n = with_writes(b, ws);
        assert(arrives(ws[ws.len() - 1], b));
        let i = w.sheet_index;
        assert(m[i].name == b[i].name);
        content_put(m[i].cells, w.row, w.col, content_of(w.value), row, col);
        assert forall|j: int| 0 <= j < b.len() implies {
            let x = #[trigger] n[j];
            &&& x.name == b[j].name
            &&& x.rows == b[j].rows
            &&& x.cols == b[j].cols
            &&& formula_in(x.cells, row, col) == formula_in(b[j].cells, row, col)
        } by {
            assert(m[j].name == b[j].name);
        }
        sheet_stays(n, m, sheet, 0);
        sheet_stays(m, b, sheet, 0);
        sheet_is(b, sheet, 0);
        if let Some(s) = sheet_in(b, sheet, 0) {
            if s < i {
                assert(b[s].name != b[i].name);
            } else if i < s {
                assert(b[i].name != b[s].name);
            }
        } else {
            assert(b[i].name != sheet);
        }
    }
}

/// Whether a value is read as it was written: the empty text and a text that shows an error are
/// not.
pub open spec fn told_apart(v: FValue) -> bool {
    v matches FValue::Text(s) ==> s.len() > 0 && error_of(s) is None
}

proof fn last_told_apart(w: Seq<CellWrite>, sheet: Seq<char>, row: u32, col: u32)
    requires
        forall|k: int| 0 <= k < w.len() ==> told_apart((#[trigger] w[k]).value@),
    ensures
        written(w, sheet, row, col) matches Some(v) ==> told_apart(v),
    decreases w.len(),
{
    if w.len() > 0 {
        let p = w.drop_last();
        assert forall|k: int| 0 <= k < p.len() implies told_apart((#[trigger] p[k]).value@) by {
            assert(p[k] == w[k]);
        }
        assert(told_apart(w[w.len() - 1].value@));
        last_told_apart(p, sheet, row, col);
    }
}

/// Values in their cells are read as they were before.
proof fn left_reads(
    sheets: Seq<BookSheet>,
    w: Seq<CellWrite>,
    left: Seq<BookSheet>,
    sheet: Seq<char>,
    row: u32,
    col: u32,
)
    requires
        tidy(sheets),
        forall|k: int| 0 <= k < w.len() ==> arrives(#[trigger] write_seq(w)[k], book_view(sheets)),
        forall|k: int| 0 <= k < w.len() ==> told_apart((#[trigger] w[k]).value@),
        book_view(left) == with_writes(book_view(sheets), write_seq(w)),
    ensures
        read_value(left, Seq::empty(), sheet, row, col) == read_value(sheets, w, sheet, row, col),
{
    let b = book_view(sheets);
    let ws = write_seq(w);
    assert forall|i: int, j: int| 0 <= i < j < b.len() implies (#[trigger] b[i]).name != (
    #[trigger] b[j]).name by {
        assert(sheets[i].name@ != sheets[j].name@);
    }
    writes_held(b, ws, sheet, row, col);
    written_last(w, sheet, row, col);
    last_told_apart(w, sheet, row, col);
    sheet_found_in(sheets, sheet, 0);
    sheet_found_in(left, sheet, 0);
    sheet_stays(book_view(left), b, sheet, 0);
    sheet_is(b, sheet, 0);
    if let Some(i) = sheet_in(b, sheet, 0) {
        place_found_in(sheets[i].cells@, row, col, 0);
        place_found_in(left[i].cells@, row, col, 0);
        assert(book_view(left)[i] == left[i]@);
        assert(b[i] == sheets[i]@);
        if let Some(v) = written(w, sheet, row, col) {
            content_round_trip(v);
        }
    } else {
        nothing_arrives(b, ws, sheet, row, col);
    }
}

proof fn nothing_arrives(
    b: Seq<SheetOfCells>,
    ws: Seq<WriteSpec>,
    sheet: Seq<char>,
    row: u32,
    col: u32,
)
    requires
        forall|k: int| 0 <= k < ws.len() ==> arrives(#[trigger] ws[k], b),
        forall|i: int| 0 <= i < b.len() ==> (#[trigger] b[i]).name != sheet,
    ensures
        latest(ws, sheet, row, col) is None,
    decreases ws.len(),
{
    if ws.len() > 0 {
        let p = ws.drop_last();
        assert forall|k: int| 0 <= k < p.len() implies arrives(#[trigger] p[k], b) by {
            assert(p[k] == ws[k]);
        }
        assert(arrives(ws[ws.len() - 1], b));
        nothing_arrives(b, p, sheet, row, col);
    }
}

/// Formulas get the same answers of the workbook that is left.
proof fn left_answers(
    host: Oracle,
    sheets: Seq<BookSheet>,
    w: Seq<CellWrite>,
    left: Seq<BookSheet>,
    sheet: Seq<char>,
)
    requires
        tidy(sheets),
        forall|k: int| 0 <= k < w.len() ==> arrives(#[trigger] write_seq(w)[k], book_view(sheets)),
        forall|k: int| 0 <= k < w.len() ==> told_apart((#[trigger] w[k]).value@),
        book_view(left) == with_writes(book_view(sheets), write_seq(w)),
    ensures
        answers_of(host, left, Seq::empty(), sheet) == answers_of(host, sheets, w, sheet),
{
    let none = Seq::<CellWrite>::empty();
    let a = answers_of(host, left, none, sheet);
    let b = answers_of(host, sheets, w, sheet);
    let v = book_view(sheets);
    assert forall|i: int, j: int| 0 <= i < j < v.len() implies (#[trigger] v[i]).name != (
    #[trigger] v[j]).name by {
        assert(sheets[i].name@ != sheets[j].name@);
    }
    writes_held(v, write_seq(w), sheet, 0, 0);
    assert forall|s: Seq<char>| #[trigger] find_sheet(left, s, 0) == find_sheet(sheets, s, 0) by {
        sheet_found_in(left, s, 0);
        sheet_found_in(sheets, s, 0);
        sheet_stays(book_view(left), v, s, 0);
    }
    assert forall|s: Seq<char>, r: u32, c: u32| #[trigger]
        read_value(left, none, s, r, c) == read_value(sheets, w, s, r, c) by {
        left_reads(sheets, w, left, s, r, c);
    }
    assert forall|r: Seq<char>| #[trigger] (a.cell)(r) == (b.cell)(r) by {}
    assert(a.cell =~= b.cell);
    assert forall|x: Seq<char>, y: Seq<char>| #[trigger] (a.range)(x, y) == (b.range)(x, y) by {
        let e = spec_endpoint_of(x, sheet);
        let f = spec_endpoint_of(y, sheet);
        sheet_found(sheets, e.sheet, 0);
        if let Some(i) = find_sheet(sheets, e.sheet, 0) {
            assert(book_view(left)[i] == left[i]@);
            assert(v[i] == sheets[i]@);
            let rows = clipped(e.row, f.row, sheets[i].rows);
            let cols = clipped(e.col, f.col, sheets[i].cols);
            let p = rectangle(left, none, e.sheet, rows, cols);
            let q = rectangle(sheets, w, e.sheet, rows, cols);
            assert forall|k: int| 0 <= k < p.len() implies #[trigger] p[k] == q[k] by {
                assert(p[k] =~= q[k]);
            }
            assert(p =~= q);
        }
    }
    assert(a.range =~= b.range);
}

proof fn circ_arrive(
    cells: Map<Seq<char>, Entry>,
    keys: Seq<Seq<char>>,
    b: Seq<SheetOfCells>,
)
    requires
        forall|c: Seq<char>, v: FValue| #[trigger]
            cells.contains_key(c) ==> arrives(#[trigger] write_of(cells[c], v), b),
    ensures
        forall|k: int|
            0 <= k < circ_writes(cells, keys).len() ==> arrives(
                #[trigger] circ_writes(cells, keys)[k],
                b,
            ),
    decreases keys.len(),
{
    if keys.len() > 0 {
        let p = keys.drop_last();
        circ_arrive(cells, p, b);
        if cells.contains_key(keys.last()) {
            assert(arrives(write_of(cells[keys.last()], FValue::Error(FormulaError::Circ)), b));
        }
        let c = circ_writes(cells, keys);
        assert forall|k: int| 0 <= k < c.len() implies arrives(#[trigger] c[k], b) by {
            if k < circ_writes(cells, p).len() {
                assert(c[k] == circ_writes(cells, p)[k]);
            }
        }
    }
}

proof fn made_arrive(
    cells: Map<Seq<char>, Entry>,
    plan: Seq<Seq<char>>,
    values: Seq<FValue>,
    n: int,
    b: Seq<SheetOfCells>,
)
    requires
        forall|c: Seq<char>, v: FValue| #[trigger]
            cells.contains_key(c) ==> arrives(#[trigger] write_of(cells[c], v), b),
    ensures
        forall|k: int|
            0 <= k < made(cells, plan, values, n).len() ==> arrives(
                #[trigger] made(cells, plan, values, n)[k],
                b,
            ),
    decreases n,
{
    if n > 0 {
        made_arrive(cells, plan, values, n - 1, b);
        let p = made(cells, plan, values, n - 1);
        if cells.contains_key(plan[n - 1]) {
            let v = made_value(cells[plan[n - 1]], values[n - 1]);
            assert(arrives(write_of(cells[plan[n - 1]], v), b));
        }
        let m = made(cells, plan, values, n);
        assert forall|k: int| 0 <= k < m.len() implies arrives(#[trigger] m[k], b) by {
            if k < p.len() {
                assert(m[k] == p[k]);
            }
        }
    }
}

/// When formulas have been computed and their values are in their cells, the cell of each of them
/// holds what the formula gives of the workbook that is left: computing it again changes nothing.
/// A formula on a cycle holds `#CIRC!`, one that does not parse `#NAME?`. Formulas stay what they
/// were, and so do the cells whose formula was not computed or that have none. Of a formula off all
/// cycles this is said where its own questions are answered by what they ask and by where it
/// stands, and it reads no cells through a name; what other formulas are told does not matter. Left
/// out are values that a cell does not give back: the empty text, and a text that shows an error.
pub proof fn book_is_settled(
    told: Telling,
    host: Host,
    known: Known,
    set: Set<Seq<char>>,
    sheets: Seq<BookSheet>,
    plan: Seq<Seq<char>>,
    cyclic: Seq<Seq<char>>,
    values: Seq<FValue>,
    kept: Seq<Seq<CellWrite>>,
    left: Seq<BookSheet>,
)
    requires
        tidy(sheets),
        fits(known, sheets),
        set.subset_of(known.cells.dom()),
        is_topo(known.graph, set, plan, cyclic),
        is_history(known.cells, plan, cyclic, values, kept),
        is_computed(told, sheets, known.cells, plan, values, kept),
        forall|k: int| 0 <= k < kept.last().len() ==> told_apart((#[trigger] kept.last()[k]).value@),
        book_view(left) == with_writes(book_view(sheets), write_seq(kept.last())),
    ensures
        same_shape(sheets, left),
        forall|c: Seq<char>| #[trigger]
            set.contains(c) && (cyclic.contains(c) || is_steady(told, host, known.cells[c])) ==> {
                let e = known.cells[c];
                read_value(left, Seq::empty(), e.sheet, e.row, e.col) == if cyclic.contains(c) {
                    FValue::Error(FormulaError::Circ)
                } else {
                    match e.ast {
                        Some(a) => scalar(
                            eval(a, answers_of(at_cell(host, e), left, Seq::empty(), e.sheet)),
                        ),
                        None => FValue::Error(FormulaError::Name),
                    }
                }
            },
        forall|i: int, row: u32, col: u32|
            0 <= i < sheets.len() ==> #[trigger] formula_at(left[i], row, col) == formula_at(
                sheets[i],
                row,
                col,
            ),
        forall|s: Seq<char>, row: u32, col: u32|
            !set.contains(spec_cell_key(s, row as nat, col as nat))
                ==> #[trigger] read_value(left, Seq::empty(), s, row, col) == read_value(
                sheets,
                Seq::empty(),
                s,
                row,
                col,
            ),
{
    let all = kept.last();
    let n = plan.len() as int;
    let b = book_view(sheets);
    let base = circ_writes(known.cells, cyclic);
    let m = made(known.cells, plan, values, n);
    known_by_key(known, sheets);
    assert(write_seq(kept[n]) == base + m);
    assert forall|c: Seq<char>, v: FValue| #[trigger]
        known.cells.contains_key(c) implies arrives(#[trigger] write_of(known.cells[c], v), b) by {
        assert(b[known.cells[c].sheet_index] == sheets[known.cells[c].sheet_index]@);
    }
    circ_arrive(known.cells, cyclic, b);
    made_arrive(known.cells, plan, values, n, b);
    assert forall|k: int| 0 <= k < all.len() implies arrives(#[trigger] write_seq(all)[k], b) by {
        if k < base.len() {
            assert(write_seq(all)[k] == base[k]);
        } else {
            assert(write_seq(all)[k] == m[k - base.len()]);
        }
    }
    assert forall|i: int, j: int| 0 <= i < j < b.len() implies (#[trigger] b[i]).name != (
    #[trigger] b[j]).name by {
        assert(sheets[i].name@ != sheets[j].name@);
    }
    writes_held(b, write_seq(all), Seq::empty(), 0, 0);
    assert(left.len() == book_view(left).len());
    assert forall|i: int| 0 <= i < sheets.len() implies (#[trigger] sheets[i]).name@
        == left[i].name@ && sheets[i].rows == left[i].rows && sheets[i].cols == left[i].cols by {
        assert(book_view(left)[i] == left[i]@);
        assert(b[i] == sheets[i]@);
    }
    assert forall|c: Seq<char>| #[trigger]
        set.contains(c) && (cyclic.contains(c) || is_steady(told, host, known.cells[c])) implies {
        let e = known.cells[c];
        read_value(left, Seq::empty(), e.sheet, e.row, e.col) == if cyclic.contains(c) {
            FValue::Error(FormulaError::Circ)
        } else {
            match e.ast {
                Some(a) => scalar(eval(a, answers_of(at_cell(host, e), left, Seq::empty(), e.sheet))),
                None => FValue::Error(FormulaError::Name),
            }
        }
    } by {
        let e = known.cells[c];
        formulas_hold_their_values(told, host, known, set, sheets, plan, cyclic, values, kept, c);
        left_reads(sheets, all, left, e.sheet, e.row, e.col);
        left_answers(at_cell(host, e), sheets, all, left, e.sheet);
    }
    assert forall|i: int, row: u32, col: u32| 0 <= i < sheets.len() implies #[trigger] formula_at(
        left[i],
        row,
        col,
    ) == formula_at(sheets[i], row, col) by {
        writes_held(b, write_seq(all), Seq::empty(), row, col);
        assert(book_view(left)[i] == left[i]@);
        assert(b[i] == sheets[i]@);
        place_found_in(sheets[i].cells@, row, col, 0);
        place_found_in(left[i].cells@, row, col, 0);
    }
    assert forall|s: Seq<char>, row: u32, col: u32|
        !set.contains(spec_cell_key(s, row as nat, col as nat)) implies #[trigger] read_value(
        left,
        Seq::empty(),
        s,
        row,
        col,
    ) == read_value(
        sheets,
        Seq::empty(),
        s,
        row,
        col,
    ) by {
        left_reads(sheets, all, left, s, row, col);
        written_last(all, s, row, col);
        assert forall|j: int| 0 <= j < n implies #[trigger] plan[j] != spec_cell_key(
            s,
            row as nat,
            col as nat,
        ) by {
            assert(plan.contains(plan[j]));
            assert(set.contains(plan[j]));
        }
        unwritten(base, known.cells, plan, values, 0, n, s, row, col);
        assert(base + made(known.cells, plan, values, 0) == base);
        no_circ(known.cells, cyclic, s, row, col);
    }
}

/// What a formula's cell is to hold: `#CIRC!` where the formula reads itself through a chain of
/// formulas, `#NAME?` where it does not parse, and otherwise what it gives of a workbook with what
/// was written.
pub open spec fn due_value(
    host: Host,
    known: Known,
    sheets: Seq<BookSheet>,
    writes: Seq<CellWrite>,
    c: Seq<char>,
) -> FValue {
    let e = known.cells[c];
    if target_cycle(known.graph, known.cells.dom(), c) {
        FValue::Error(FormulaError::Circ)
    } else {
        match e.ast {
            Some(a) => scalar(eval(a, answers_of(at_cell(host, e), sheets, writes, e.sheet))),
            None => FValue::Error(FormulaError::Name),
        }
    }
}

/// Whether a formula's value is fixed by what cells hold: it is on a cycle, or what it asks is
/// answered by what is asked and by where it stands.
pub open spec fn is_fixed(told: Telling, host: Host, known: Known, c: Seq<char>) -> bool {
    target_cycle(known.graph, known.cells.dom(), c) || is_steady(told, host, known.cells[c])
}

/// Whether a formula's cell holds what the formula gives of the workbook.
pub open spec fn is_held(host: Host, known: Known, sheets: Seq<BookSheet>, c: Seq<char>) -> bool {
    let e = known.cells[c];
    read_value(sheets, Seq::empty(), e.sheet, e.row, e.col) == due_value(
        host,
        known,
        sheets,
        Seq::empty(),
        c,
    )
}

/// Whether the cells of some formulas hold what the formulas give of the workbook.
pub open spec fn are_held(
    host: Host,
    known: Known,
    sheets: Seq<BookSheet>,
    of: Set<Seq<char>>,
) -> bool {
    forall|c: Seq<char>| #[trigger]
        known.cells.contains_key(c) && of.contains(c) ==> is_held(host, known, sheets, c)
}

/// The formulas whose value is fixed by what cells hold.
pub open spec fn fixed_ones(told: Telling, host: Host, known: Known) -> Set<Seq<char>> {
    Set::new(|c: Seq<char>| is_fixed(told, host, known, c))
}

/// Whether formulas are what they were, and so are the cells without one.
pub open spec fn rest_stays(
    known: Known,
    before: Seq<BookSheet>,
    after: Seq<BookSheet>,
) -> bool {
    &&& after.len() == before.len()
    &&& forall|i: int, row: u32, col: u32|
        0 <= i < before.len() ==> #[trigger] formula_at(after[i], row, col) == formula_at(
            before[i],
            row,
            col,
        )
    &&& forall|s: Seq<char>, row: u32, col: u32|
        !known.cells.contains_key(spec_cell_key(s, row as nat, col as nat))
            ==> #[trigger] read_value(after, Seq::empty(), s, row, col) == read_value(
            before,
            Seq::empty(),
            s,
            row,
            col,
        )
}

/// Whether a workbook is what another one is when its formulas have been computed: each formula's
/// cell holds what the formula gives of the workbook as it is now, formulas are what they were, and
/// so are the cells without one.
pub open spec fn is_settled(
    told: Telling,
    host: Host,
    known: Known,
    before: Seq<BookSheet>,
    after: Seq<BookSheet>,
) -> bool {
    are_held(host, known, after, fixed_ones(told, host, known)) && rest_stays(known, before, after)
}

/// Whether writes are those of a round: the formulas on a cycle first, each other formula of the
/// plan in order. Whatever they were told, each was computed with what had been written by then.
pub open spec fn is_round(
    told: Telling,
    sheets: Seq<BookSheet>,
    cells: Map<Seq<char>, Entry>,
    plan: Seq<Seq<char>>,
    cyclic: Seq<Seq<char>>,
    all: Seq<CellWrite>,
) -> bool {
    exists|values: Seq<FValue>, kept: Seq<Seq<CellWrite>>| #[trigger]
        is_history(cells, plan, cyclic, values, kept) && kept.last() == all && is_computed(
            told,
            sheets,
            cells,
            plan,
            values,
            kept,
        )
}

/// Whether each formula whose value is fixed by what cells hold was given what it gives of a
/// workbook with what was written.
pub open spec fn holds_values(
    told: Telling,
    host: Host,
    known: Known,
    sheets: Seq<BookSheet>,
    all: Seq<CellWrite>,
) -> bool {
    forall|c: Seq<char>| #[trigger]
        known.cells.contains_key(c) && is_fixed(told, host, known, c) ==> written(
            all,
            known.cells[c].sheet,
            known.cells[c].row,
            known.cells[c].col,
        ) == Some(due_value(host, known, sheets, all, c))
}

/// Whether a value is what a formula gives of a workbook: `#NAME?` where it does not parse, and
/// otherwise its value for whatever it may have been told.
pub open spec fn is_given(
    told: Telling,
    sheets: Seq<BookSheet>,
    sheet: Seq<char>,
    row: u32,
    col: u32,
    formula: Seq<char>,
    v: FValue,
) -> bool {
    match parsed_ast(formula) {
        None => v == FValue::Error(FormulaError::Name),
        Some(a) => forall|i: int, o: Oracle| #[trigger]
            told(sheets, Seq::empty(), entry_of(i, sheet, row, col, formula), o) ==> v == scalar(
                eval(a, answers_of(o, sheets, Seq::empty(), sheet)),
            ),
    }
}

/// A formula's cell that holds what the formula gives holds what computing the formula there gives,
/// where the formula is on no cycle.
pub proof fn held_is_given(
    told: Telling,
    host: Host,
    known: Known,
    sheets: Seq<BookSheet>,
    c: Seq<char>,
    formula: Seq<char>,
    v: FValue,
)
    requires
        known.cells.contains_key(c),
        known.cells[c] == entry_of(
            known.cells[c].sheet_index,
            known.cells[c].sheet,
            known.cells[c].row,
            known.cells[c].col,
            formula,
        ),
        is_steady(told, host, known.cells[c]),
        !target_cycle(known.graph, known.cells.dom(), c),
        is_held(host, known, sheets, c),
        is_given(
            told,
            sheets,
            known.cells[c].sheet,
            known.cells[c].row,
            known.cells[c].col,
            formula,
            v,
        ),
    ensures
        read_value(
            sheets,
            Seq::empty(),
            known.cells[c].sheet,
            known.cells[c].row,
            known.cells[c].col,
        ) == v,
{
    let e = known.cells[c];
    if e.ast is Some {
        assert(told(sheets, Seq::empty(), e, at_cell(host, e)));
    }
}

/// Whether all values that were written are read as they were written.
pub open spec fn values_told_apart(all: Seq<CellWrite>) -> bool {
    forall|k: int| 0 <= k < all.len() ==> told_apart((#[trigger] all[k]).value@)
}

/// A round over all formulas of a workbook settles it.
pub(crate) proof fn round_settles(
    told: Telling,
    host: Host,
    known: Known,
    sheets: Seq<BookSheet>,
    plan: Seq<Seq<char>>,
    cyclic: Seq<Seq<char>>,
    all: Seq<CellWrite>,
    left: Seq<BookSheet>,
)
    requires
        tidy(sheets),
        fits(known, sheets),
        is_topo(known.graph, known.cells.dom(), plan, cyclic),
        is_round(told, sheets, known.cells, plan, cyclic, all),
        book_view(left) == with_writes(book_view(sheets), write_seq(all)),
    ensures
        holds_values(told, host, known, sheets, all),
        values_told_apart(all) ==> is_settled(told, host, known, sheets, left),
{
    let cells = known.cells.dom();
    let (values, kept) = choose|values: Seq<FValue>, kept: Seq<Seq<CellWrite>>| #[trigger]
        is_history(known.cells, plan, cyclic, values, kept) && kept.last() == all && is_computed(
            told,
            sheets,
            known.cells,
            plan,
            values,
            kept,
        );
    assert forall|c: Seq<char>| #[trigger]
        known.cells.contains_key(c) && is_fixed(told, host, known, c) implies written(
        all,
        known.cells[c].sheet,
        known.cells[c].row,
        known.cells[c].col,
    ) == Some(due_value(host, known, sheets, all, c)) by {
        assert(cells.contains(c));
        assert(cyclic.contains(c) <==> target_cycle(known.graph, cells, c));
        formulas_hold_their_values(told, host, known, cells, sheets, plan, cyclic, values, kept, c);
    }
    if values_told_apart(all) {
        book_is_settled(told, host, known, cells, sheets, plan, cyclic, values, kept, left);
        assert forall|c: Seq<char>| #[trigger]
            known.cells.contains_key(c) && fixed_ones(told, host, known).contains(
                c,
            ) implies is_held(host, known, left, c) by {
            assert(cells.contains(c));
            assert(cyclic.contains(c) <==> target_cycle(known.graph, cells, c));
        }
    }
}

/// Answers go by what was written, not by how the writes are held.
pub(crate) proof fn same_answers(
    host: Oracle,
    sheets: Seq<BookSheet>,
    v: Seq<CellWrite>,
    w: Seq<CellWrite>,
    sheet: Seq<char>,
)
    requires
        write_seq(v) == write_seq(w),
    ensures
        answers_of(host, sheets, v, sheet) == answers_of(host, sheets, w, sheet),
{
    let a = answers_of(host, sheets, v, sheet);
    let b = answers_of(host, sheets, w, sheet);
    assert forall|s: Seq<char>, r: u32, c: u32| #[trigger]
        read_value(sheets, v, s, r, c) == read_value(sheets, w, s, r, c) by {
        written_last(v, s, r, c);
        written_last(w, s, r, c);
    }
    assert forall|r: Seq<char>| #[trigger] (a.cell)(r) == (b.cell)(r) by {}
    assert(a.cell =~= b.cell);
    assert forall|x: Seq<char>, y: Seq<char>| #[trigger] (a.range)(x, y) == (b.range)(x, y) by {
        let e = spec_endpoint_of(x, sheet);
        let f = spec_endpoint_of(y, sheet);
        if let Some(i) = find_sheet(sheets, e.sheet, 0) {
            let rows = clipped(e.row, f.row, sheets[i].rows);
            let cols = clipped(e.col, f.col, sheets[i].cols);
            let p = rectangle(sheets, v, e.sheet, rows, cols);
            let q = rectangle(sheets, w, e.sheet, rows, cols);
            assert forall|k: int| 0 <= k < p.len() implies #[trigger] p[k] == q[k] by {
                assert(p[k] =~= q[k]);
            }
            assert(p =~= q);
        }
    }
    assert(a.range =~= b.range);
}

proof fn no_circ(
    cells: Map<Seq<char>, Entry>,
    keys: Seq<Seq<char>>,
    sheet: Seq<char>,
    row: u32,
    col: u32,
)
    requires
        keyed(cells),
        !keys.contains(spec_cell_key(sheet, row as nat, col as nat)),
    ensures
        latest(circ_writes(cells, keys), sheet, row, col) is None,
    decreases keys.len(),
{
    if keys.len() > 0 {
        let p = keys.drop_last();
        assert(keys.contains(keys.last()));
        assert forall|c: Seq<char>| #[trigger] p.contains(c) implies keys.contains(c) by {
            assert(keys[p.index_of(c)] == c);
        }
        no_circ(cells, p, sheet, row, col);
        if cells.contains_key(keys.last()) {
            let v = FValue::Error(FormulaError::Circ);
            let w = write_of(cells[keys.last()], v);
            key_of_place(cells, keys.last(), v, sheet, row, col);
            assert(circ_writes(cells, p).push(w).drop_last() == circ_writes(cells, p));
        }
    }
}

} // verus!
