//! Computed values in the cells of a workbook.
use crate::engine::{
    content_of, find_cell, formula_to_cell, index_of_cell, opt_content, write_seq, BookCell,
    BookSheet, CellContent, CellWrite, Content, WriteSpec,
};
use vstd::prelude::*;

verus! {

/// A cell as a mathematical value.
pub struct CellView {
    pub row: u32,
    pub col: u32,
    pub content: Option<Content>,
    pub formula: Option<Seq<char>>,
}

impl View for BookCell {
    type V = CellView;

    open spec fn view(&self) -> CellView {
        CellView {
            row: self.row,
            col: self.col,
            content: opt_content(self.content),
            formula: match self.formula {
                Some(f) => Some(f@),
                None => None,
            },
        }
    }
}

/// The cells of a list.
pub open spec fn cell_views(v: Seq<BookCell>) -> Seq<CellView> {
    Seq::new(v.len(), |i: int| v[i]@)
}

/// A sheet as a mathematical value.
pub struct SheetOfCells {
    pub name: Seq<char>,
    pub rows: u32,
    pub cols: u32,
    pub cells: Seq<CellView>,
}

impl View for BookSheet {
    type V = SheetOfCells;

    open spec fn view(&self) -> SheetOfCells {
        SheetOfCells {
            name: self.name@,
            rows: self.rows,
            cols: self.cols,
            cells: cell_views(self.cells@),
        }
    }
}

/// The sheets of a list.
pub open spec fn book_view(v: Seq<BookSheet>) -> Seq<SheetOfCells> {
    Seq::new(v.len(), |i: int| v[i]@)
}

/// The first cell at a place, at or behind `from`.
pub open spec fn place_in(cells: Seq<CellView>, row: u32, col: u32, from: int) -> Option<int>
    decreases cells.len() - from,
{
    if 0 <= from < cells.len() {
        if cells[from].row == row && cells[from].col == col {
            Some(from)
        } else {
            place_in(cells, row, col, from + 1)
        }
    } else {
        None
    }
}

/// Cells with a content put at a place; where there is no cell, one comes to the end.
pub open spec fn with_content(cells: Seq<CellView>, row: u32, col: u32, c: Content) -> Seq<CellView> {
    match place_in(cells, row, col, 0) {
        Some(j) => cells.update(j, CellView { content: Some(c), ..cells[j] }),
        None => cells.push(CellView { row, col, content: Some(c), formula: None }),
    }
}

/// Sheets with a written value in its cell; nothing changes where the sheet is not there.
pub open spec fn with_write(b: Seq<SheetOfCells>, w: WriteSpec) -> Seq<SheetOfCells> {
    let i = w.sheet_index;
    if 0 <= i < b.len() {
        b.update(
            i,
            SheetOfCells {
                cells: with_content(b[i].cells, w.row, w.col, content_of(w.value)),
                ..b[i]
            },
        )
    } else {
        b
    }
}

/// Sheets with written values in their cells, one after the other.
pub open spec fn with_writes(b: Seq<SheetOfCells>, ws: Seq<WriteSpec>) -> Seq<SheetOfCells>
    decreases ws.len(),
{
    if ws.len() == 0 {
        b
    } else {
        with_write(with_writes(b, ws.drop_last()), ws.last())
    }
}

pub(crate) proof fn place_found_in(cells: Seq<BookCell>, row: u32, col: u32, from: int)
    requires
        0 <= from,
    ensures
        find_cell(cells, row, col, from) == place_in(cell_views(cells), row, col, from),
        find_cell(cells, row, col, from) matches Some(j) ==> from <= j < cells.len(),
    decreases cells.len() - from,
{
    if from < cells.len() {
        place_found_in(cells, row, col, from + 1);
    }
}

fn put_content(cells: &mut Vec<BookCell>, row: u32, col: u32, content: CellContent)
    ensures
        cell_views(final(cells)@) == with_content(cell_views(old(cells)@), row, col, content@),
{
    let ghost before = cell_views(cells@);
    let ghost c = content@;
    proof {
        place_found_in(cells@, row, col, 0);
    }
    match index_of_cell(cells, row, col) {
        Some(j) => {
            let cell: &mut BookCell = &mut cells[j];
            cell.content = Some(content);
            assert(cell_views(cells@) == with_content(before, row, col, c));
        },
        None => {
            cells.push(BookCell { row, col, content: Some(content), formula: None });
            assert(cell_views(cells@) == with_content(before, row, col, c));
        },
    }
}

/// Puts written values in their cells, in order.
pub fn write_back(sheets: &mut Vec<BookSheet>, writes: &Vec<CellWrite>)
    ensures
        book_view(final(sheets)@) == with_writes(book_view(old(sheets)@), write_seq(writes@)),
{
    let ghost b = book_view(sheets@);
    let ghost ws = write_seq(writes@);
    let mut k: usize = 0;
    assert(with_writes(b, ws.take(0)) == b);
    while k < writes.len()
        invariant
            k <= writes.len(),
            ws == write_seq(writes@),
            book_view(sheets@) == with_writes(b, ws.take(k as int)),
        decreases writes.len() - k,
    {
        let w: &CellWrite = &writes[k];
        let ghost before = book_view(sheets@);
        assert(ws.take(k + 1).drop_last() == ws.take(k as int));
        assert(ws.take(k + 1).last() == w@);
        let i: usize = w.sheet_index;
        if i < sheets.len() {
            let sheet: &mut BookSheet = &mut sheets[i];
            put_content(&mut sheet.cells, w.row, w.col, formula_to_cell(&w.value));
        }
        assert(book_view(sheets@) == with_write(before, w@));
        k = k + 1;
    }
    assert(ws.take(k as int) == ws);
}

} // verus!
