//! What holds of blocks of sheets as comma-separated values.
use crate::csv::{
    block_values, bom_text, csv_fields, csv_round_trip, is_delimiter, rows_shown, rows_text,
};
use crate::snapshot::{CellValue, RegionRect};
use crate::worksheet::{cell_at, SheetCell, Worksheet};
use vstd::prelude::*;

verus! {

/// What a cell shows in a file.
pub open spec fn told_text(v: Option<CellValue>) -> Seq<char> {
    match v {
        Some(CellValue::Number(n)) => n@,
        Some(CellValue::Text(t)) => t@,
        Some(CellValue::Bool(b)) => if b {
            "TRUE"@
        } else {
            "FALSE"@
        },
        None => Seq::empty(),
    }
}

/// Whether every cell has a place of its own.
pub open spec fn has_own_places(cells: Seq<SheetCell>) -> bool {
    forall|a: int, b: int|
        0 <= a < b < cells.len() ==> (#[trigger] cells[a]).r != (#[trigger] cells[b]).r || cells[a].c
            != cells[b].c
}

/// The value of the cell at a place is that of the one cell that stands there, and none where no
/// cell does.
pub proof fn cells_are_found(cells: Seq<SheetCell>, r: u32, c: u32, m: int)
    requires
        has_own_places(cells),
    ensures
        0 <= m < cells.len() && cells[m].r == r && cells[m].c == c ==> cell_at(cells, r, c)
            == cells[m],
        (forall|k: int| 0 <= k < cells.len() ==> (#[trigger] cells[k]).r != r || cells[k].c != c)
            ==> cell_at(cells, r, c).value is None && cell_at(cells, r, c).formula is None,
    decreases cells.len(),
{
    if cells.len() > 0 {
        let p = cells.drop_last();
        let n = cells.len() - 1;
        assert(cells[n] == cells.last());
        assert forall|a: int, b: int| 0 <= a < b < p.len() implies (#[trigger] p[a]).r != (
        #[trigger] p[b]).r || p[a].c != p[b].c by {
            assert(cells[a].r != cells[b].r || cells[a].c != cells[b].c);
        }
        cells_are_found(p, r, c, m);
        if 0 <= m < n && cells[m].r == r && cells[m].c == c {
            assert(cells[m].r != cells[n].r || cells[m].c != cells[n].c);
            assert(p[m] == cells[m]);
        }
        if forall|k: int| 0 <= k < cells.len() ==> (#[trigger] cells[k]).r != r || cells[k].c != c {
            assert forall|k: int| 0 <= k < p.len() implies (#[trigger] p[k]).r != r || p[k].c != c by {
                assert(cells[k].r != r || cells[k].c != c);
            }
        }
    }
}

/// Field `j` of line `i` of the text of a block is what the sheet's cell `i` rows below and `j`
/// columns to the right of the block's first cell shows, and empty where there is no cell.
pub proof fn fields_are_cells(
    ws: Worksheet,
    g: RegionRect,
    d: char,
    eol: Seq<char>,
    bom: bool,
    i: int,
    j: int,
)
    requires
        is_delimiter(d),
        eol == seq!['\n'] || eol == seq!['\r', '\n'],
        has_own_places(ws.cells@),
        g.row + g.row_count <= u32::MAX,
        g.col + g.col_count <= u32::MAX,
        0 <= i < g.row_count,
        0 <= j < g.col_count,
        g.col_count > 1 || told_text(
            cell_at(ws.cells@, (g.row + g.row_count - 1) as u32, g.col).value,
        ).len() > 0,
        bom || rows_text(block_values(ws, g), seq![d], eol).len() == 0 || rows_text(
            block_values(ws, g),
            seq![d],
            eol,
        )[0] != '\u{FEFF}',
    ensures
        ({
            let f = csv_fields(
                bom_text(bom) + rows_text(block_values(ws, g), seq![d], eol),
                d,
            );
            &&& f.len() == g.row_count
            &&& f[i].len() == g.col_count
            &&& forall|m: int|
                0 <= m < ws.cells@.len() && (#[trigger] ws.cells@[m]).r == g.row + i
                    && ws.cells@[m].c == g.col + j ==> f[i][j] == told_text(ws.cells@[m].value)
            &&& (forall|m: int|
                0 <= m < ws.cells@.len() ==> (#[trigger] ws.cells@[m]).r != g.row + i
                    || ws.cells@[m].c != g.col + j) ==> f[i][j] == Seq::<char>::empty()
        }),
{
    let rows = block_values(ws, g);
    let (r, c) = ((g.row + i) as u32, (g.col + j) as u32);
    csv_round_trip(rows, d, eol, bom);
    assert forall|m: int|
        0 <= m < ws.cells@.len() && (#[trigger] ws.cells@[m]).r == g.row + i && ws.cells@[m].c
            == g.col + j implies rows_shown(rows)[i][j] == told_text(ws.cells@[m].value) by {
        cells_are_found(ws.cells@, r, c, m);
    }
    cells_are_found(ws.cells@, r, c, -1);
}

/// The text of a block goes by what its cells show, wherever the block stands: a block of another
/// sheet whose cells hold the same at the same distance from its first one has the same text.
pub proof fn blocks_can_be_moved(
    a: Worksheet,
    g: RegionRect,
    b: Worksheet,
    h: RegionRect,
    d: Seq<char>,
    eol: Seq<char>,
)
    requires
        g.row_count == h.row_count,
        g.col_count == h.col_count,
        g.row + g.row_count <= u32::MAX && g.col + g.col_count <= u32::MAX,
        h.row + h.row_count <= u32::MAX && h.col + h.col_count <= u32::MAX,
        forall|i: int, j: int|
            0 <= i < g.row_count && 0 <= j < g.col_count ==> #[trigger] cell_at(
                a.cells@,
                (g.row + i) as u32,
                (g.col + j) as u32,
            ).value == cell_at(b.cells@, (h.row + i) as u32, (h.col + j) as u32).value,
    ensures
        rows_text(block_values(a, g), d, eol) == rows_text(block_values(b, h), d, eol),
{
    let x = block_values(a, g);
    let y = block_values(b, h);
    assert forall|i: int| 0 <= i < x.len() implies #[trigger] x[i] == y[i] by {
        assert forall|j: int| 0 <= j < x[i].len() implies #[trigger] x[i][j] == y[i][j] by {
            assert(cell_at(a.cells@, (g.row + i) as u32, (g.col + j) as u32).value == cell_at(
                b.cells@,
                (h.row + i) as u32,
                (h.col + j) as u32,
            ).value);
        }
        assert(x[i] =~= y[i]);
    }
    assert(x =~= y);
}

} // verus!
