//! What holds of putting things into cells: what was put somewhere is there afterwards, and nothing
//! else has changed.
use crate::engine::content_of;
use crate::engine::WriteSpec;
use crate::snapshot::Span;
use crate::style::{overlaid, Style};
use crate::worksheet::{
    bare_formula, blank_cell, cell_at, formula_put, in_order, place_key, span_at, with_cell,
    SheetCell,
};
use crate::write_back::{place_in, with_write, CellView, SheetOfCells};
use vstd::prelude::*;

verus! {

proof fn keys_are_places(r: u32, c: u32, r2: u32, c2: u32)
    ensures
        place_key(r, c) == place_key(r2, c2) <==> r == r2 && c == c2,
{
}

proof fn absent(cells: Seq<SheetCell>, r: u32, c: u32)
    requires
        forall|i: int|
            0 <= i < cells.len() ==> (#[trigger] cells[i]).r != r || cells[i].c != c,
    ensures
        cell_at(cells, r, c) == blank_cell(r, c),
    decreases cells.len(),
{
    if cells.len() > 0 {
        assert(cells[cells.len() - 1].r != r || cells[cells.len() - 1].c != c);
        let fore = cells.drop_last();
        assert forall|i: int| 0 <= i < fore.len() implies (#[trigger] fore[i]).r != r || fore[i].c
            != c by {
            assert(cells[i].r != r || cells[i].c != c);
        }
        absent(fore, r, c);
    }
}

proof fn keys_below(cells: Seq<SheetCell>, k: int)
    requires
        in_order(cells),
        cells.len() > 0,
        place_key(cells.last().r, cells.last().c) <= k,
    ensures
        forall|i: int|
            0 <= i < cells.len() - 1 ==> place_key((#[trigger] cells[i]).r, cells[i].c) < k,
{
    assert forall|i: int| 0 <= i < cells.len() - 1 implies place_key(
        (#[trigger] cells[i]).r,
        cells[i].c,
    ) < k by {
        assert(place_key(cells[i].r, cells[i].c) < place_key(
            cells[cells.len() - 1].r,
            cells[cells.len() - 1].c,
        ));
    }
}

/// A cell that is put into a sheet is at its place afterwards, in place of the one that was there;
/// all other places hold what they held.
pub proof fn cells_that_are_put_are_there(cells: Seq<SheetCell>, x: SheetCell, r: u32, c: u32)
    requires
        in_order(cells),
    ensures
        cell_at(with_cell(cells, x), x.r, x.c) == x,
        r != x.r || c != x.c ==> cell_at(with_cell(cells, x), r, c) == cell_at(cells, r, c),
    decreases cells.len(),
{
    let k = place_key(x.r, x.c);
    if cells.len() > 0 {
        let l = cells.last();
        keys_are_places(l.r, l.c, x.r, x.c);
        let fore = cells.drop_last();
        assert(in_order(fore)) by {
            assert forall|i: int, j: int| 0 <= i < j < fore.len() implies place_key(
                fore[i].r,
                fore[i].c,
            ) < place_key(fore[j].r, fore[j].c) by {
                assert(place_key(cells[i].r, cells[i].c) < place_key(cells[j].r, cells[j].c));
            }
        }
        if place_key(l.r, l.c) < k {
            keys_below(cells, k);
            assert forall|i: int| 0 <= i < cells.len() implies (#[trigger] cells[i]).r != x.r
                || cells[i].c != x.c by {
                keys_are_places(cells[i].r, cells[i].c, x.r, x.c);
                if i == cells.len() - 1 {
                    assert(cells[i] == l);
                }
            }
            absent(cells, x.r, x.c);
            assert(cells.push(x).drop_last() =~= cells);
        } else if place_key(l.r, l.c) == k {
            keys_below(cells, k);
            assert forall|i: int| 0 <= i < fore.len() implies (#[trigger] fore[i]).r != x.r
                || fore[i].c != x.c by {
                assert(place_key(cells[i].r, cells[i].c) < k);
                keys_are_places(fore[i].r, fore[i].c, x.r, x.c);
            }
            absent(fore, x.r, x.c);
            assert(fore.push(x).drop_last() =~= fore);
        } else {
            cells_that_are_put_are_there(fore, x, r, c);
            let w = with_cell(fore, x);
            assert(w.push(l).drop_last() =~= w);
        }
    } else {
        assert(cells.push(x).drop_last() =~= cells);
    }
}

proof fn place_is(cells: Seq<CellView>, row: u32, col: u32, from: int)
    requires
        0 <= from,
    ensures
        match place_in(cells, row, col, from) {
            Some(j) => from <= j < cells.len() && cells[j].row == row && cells[j].col == col
                && forall|i: int|
                from <= i < j ==> (#[trigger] cells[i]).row != row || cells[i].col != col,
            None => forall|i: int|
                from <= i < cells.len() ==> (#[trigger] cells[i]).row != row || cells[i].col != col,
        },
    decreases cells.len() - from,
{
    if from < cells.len() {
        if cells[from].row != row || cells[from].col != col {
            place_is(cells, row, col, from + 1);
        }
    }
}

/// A value that is written is in its cell afterwards, with the formula that was there; the cells
/// at other places, and other sheets, are as they were.
pub proof fn values_that_are_written_are_there(b: Seq<SheetOfCells>, w: WriteSpec, i: int, j: int)
    requires
        0 <= w.sheet_index < b.len(),
    ensures
        with_write(b, w).len() == b.len(),
        0 <= i < b.len() && i != w.sheet_index ==> with_write(b, w)[i] == b[i],
        ({
            let old_cells = b[w.sheet_index].cells;
            let cells = with_write(b, w)[w.sheet_index].cells;
            &&& old_cells.len() <= cells.len() <= old_cells.len() + 1
            &&& 0 <= j < old_cells.len() ==> {
                &&& cells[j].row == old_cells[j].row
                &&& cells[j].col == old_cells[j].col
                &&& cells[j].formula == old_cells[j].formula
                &&& old_cells[j].row != w.row || old_cells[j].col != w.col ==> cells[j]
                    == old_cells[j]
            }
            &&& exists|p: int|
                0 <= p < cells.len() && (#[trigger] cells[p]).row == w.row && cells[p].col == w.col
                    && cells[p].content == Some(content_of(w.value)) && forall|q: int|
                    0 <= q < p ==> (#[trigger] cells[q]).row != w.row || cells[q].col != w.col
        }),
{
    let old_cells = b[w.sheet_index].cells;
    let cells = with_write(b, w)[w.sheet_index].cells;
    place_is(old_cells, w.row, w.col, 0);
    match place_in(old_cells, w.row, w.col, 0) {
        Some(p) => {
            assert(cells[p].content == Some(content_of(w.value)));
            assert forall|q: int| 0 <= q < p implies (#[trigger] cells[q]).row != w.row
                || cells[q].col != w.col by {
                assert(cells[q] == old_cells[q]);
            }
        },
        None => {
            let p = old_cells.len() as int;
            assert(cells[p].content == Some(content_of(w.value)));
            assert forall|q: int| 0 <= q < p implies (#[trigger] cells[q]).row != w.row
                || cells[q].col != w.col by {
                assert(cells[q] == old_cells[q]);
            }
        },
    }
}

/// Whether a place lies in merged cells.
pub open spec fn is_within(s: Span, r: u32, c: u32) -> bool {
    s.row <= r && r - s.row < s.row_count && s.col <= c && c - s.col < s.col_count
}

/// The merged cells that a place is part of are the first ones that it lies in.
pub proof fn merged_cells_hold_their_places(spans: Seq<Span>, r: u32, c: u32, k: int)
    ensures
        0 <= k < spans.len() && is_within(spans[k], r, c) && (forall|i: int|
            0 <= i < k ==> !is_within(#[trigger] spans[i], r, c)) ==> span_at(spans, r, c) == Some(
            spans[k],
        ),
        (forall|i: int| 0 <= i < spans.len() ==> !is_within(#[trigger] spans[i], r, c)) ==> span_at(
            spans,
            r,
            c,
        ) is None,
    decreases spans.len(),
{
    if spans.len() > 0 {
        let rest = spans.skip(1);
        merged_cells_hold_their_places(rest, r, c, k - 1);
        if forall|i: int| 0 <= i < spans.len() ==> !is_within(#[trigger] spans[i], r, c) {
            assert(!is_within(spans[0], r, c));
            assert forall|i: int| 0 <= i < rest.len() implies !is_within(#[trigger] rest[i], r, c) by {
                assert(!is_within(spans[i + 1], r, c));
            }
        }
        if 0 < k < spans.len() && (forall|i: int|
            0 <= i < k ==> !is_within(#[trigger] spans[i], r, c)) {
            assert(!is_within(spans[0], r, c));
            assert(rest[k - 1] == spans[k]);
            assert forall|i: int| 0 <= i < k - 1 implies !is_within(#[trigger] rest[i], r, c) by {
                assert(!is_within(spans[i + 1], r, c));
            }
        }
    }
}

/// A formula that is put into a cell is there afterwards; what else the cell holds stays, and so do the
/// other cells.
pub proof fn formulas_that_are_put_are_there(
    before: Seq<SheetCell>,
    after: Seq<SheetCell>,
    r: u32,
    c: u32,
    formula: String,
    r2: u32,
    c2: u32,
)
    requires
        in_order(before),
        formula_put(before, after, r, c, formula),
    ensures
        cell_at(after, r, c).formula == Some(formula),
        cell_at(after, r, c).value == cell_at(before, r, c).value,
        cell_at(after, r, c).style == cell_at(before, r, c).style,
        cell_at(after, r, c).rich == cell_at(before, r, c).rich,
        r2 != r || c2 != c ==> cell_at(after, r2, c2) == cell_at(before, r2, c2),
{
    at_place(before, r, c);
    let x = SheetCell { formula: Some(formula), ..cell_at(before, r, c) };
    cells_that_are_put_are_there(before, x, r2, c2);
}

proof fn at_place(cells: Seq<SheetCell>, r: u32, c: u32)
    ensures
        cell_at(cells, r, c).r == r,
        cell_at(cells, r, c).c == c,
    decreases cells.len(),
{
    if cells.len() > 0 {
        at_place(cells.drop_last(), r, c);
    }
}

/// A formula is kept without the equals sign in front of it, and as it is where it has none.
pub proof fn equals_signs_are_left_out(f: Seq<char>)
    ensures
        bare_formula(seq!['='] + f) == f,
        f.len() == 0 || f[0] != '=' ==> bare_formula(f) == f,
{
    assert((seq!['='] + f).skip(1) =~= f);
    assert((seq!['='] + f)[0] == '=');
}

/// A style put over another sets what it says and leaves the rest; one that says nothing changes
/// nothing, and putting a style over itself does not either.
pub proof fn styles_are_put_over_others(a: Style, b: Style)
    ensures
        b.bold is Some ==> overlaid(a, b).bold == b.bold,
        b.bold is None ==> overlaid(a, b).bold == a.bold,
        b.italic is Some ==> overlaid(a, b).italic == b.italic,
        b.italic is None ==> overlaid(a, b).italic == a.italic,
        b.underline is Some ==> overlaid(a, b).underline == b.underline,
        b.underline is None ==> overlaid(a, b).underline == a.underline,
        b.font_size is Some ==> overlaid(a, b).font_size == b.font_size,
        b.font_size is None ==> overlaid(a, b).font_size == a.font_size,
        b.fore_color is Some ==> overlaid(a, b).fore_color == b.fore_color,
        b.fore_color is None ==> overlaid(a, b).fore_color == a.fore_color,
        b.back_color is Some ==> overlaid(a, b).back_color == b.back_color,
        b.back_color is None ==> overlaid(a, b).back_color == a.back_color,
        b.h_align is Some ==> overlaid(a, b).h_align == b.h_align,
        b.h_align is None ==> overlaid(a, b).h_align == a.h_align,
        b.v_align is Some ==> overlaid(a, b).v_align == b.v_align,
        b.v_align is None ==> overlaid(a, b).v_align == a.v_align,
        b.formatter is Some ==> overlaid(a, b).formatter == b.formatter,
        b.formatter is None ==> overlaid(a, b).formatter == a.formatter,
        b.borders is Some ==> overlaid(a, b).borders == b.borders,
        b.borders is None ==> overlaid(a, b).borders == a.borders,
        overlaid(overlaid(a, b), b) == overlaid(a, b),
        overlaid(a, a) == a,
{
}

} // verus!
