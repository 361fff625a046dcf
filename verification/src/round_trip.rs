//! What a sheet keeps when it is written to a spreadsheet file and read back.
use crate::column_law::{cols_back, spans_back, spans_col, spans_row, spans_valid};
use crate::find_law::{clear, clear_join, records_whole};
use crate::outline::{groups_of_levels, levels_fit};
use crate::page_law::{page_back, page_comes_back};
use crate::row_law::{
    cells_valid, countable, leads, rows_back, rows_clear, rows_come_back, rows_records, sizes_valid,
    strange_if,
};
use crate::sheet_law::{
    back_is_sorted, cells_back, end_quiet, end_text, mark, page_valid, quiet, rows_in_order,
    sorted_by_row, sorted_valid, start_quiet, start_text,
};
use crate::sheet_round::{
    cols_quiet, data_back, data_quiet, data_text, dimension_back, dimension_comes_back,
    dimension_quiet, dimension_text, guard_back, guard_quiet, merges_quiet, pane_back, pane_quiet,
    pr_back, pr_quiet, protection_back, sheet_cols_back, sheet_merges_back,
};
use crate::snapshot::{NamedStyle, SheetSnapshot};
use crate::sorting::{ascends, picked_has, u32_count};
use crate::style::StyleView;
use crate::text::opt;
use crate::xlsx::{
    below, col_listed, cols_xml, dimension, has_row, listed_cols, listed_rows, merges_text,
    page_text, protection_text, right, row_list_xml, row_listed, sheet_pr_text, sheet_views_text,
    sorted_cells, write_cells, write_rows, write_sheet, Shared,
};
use crate::xlsx_drawing::ext_text;
use crate::xlsx_page::page_read;
use crate::xlsx_read::{max_of, sheet_read, SheetView};
use vstd::prelude::*;

verus! {

/// Whether the numbers of a sheet are numbers and what is written of it has addresses.
pub open spec fn sheet_valid(s: SheetSnapshot) -> bool {
    &&& cells_valid(s.cells@)
    &&& sizes_valid(s.row_heights@)
    &&& sizes_valid(s.col_widths@)
    &&& s.row_outlines@.len() <= u32::MAX
    &&& s.col_outlines@.len() <= u32::MAX
    &&& spans_valid(s.spans@)
    &&& page_valid(s.page_setup)
    &&& !row_listed(s, u32::MAX)
    &&& !col_listed(s, u32::MAX)
}

/// A sheet as it comes back. Its cells are in order; those that hold nothing are gone.
pub open spec fn sheet_back(
    s: SheetSnapshot,
    name: Seq<char>,
    frozen: (u32, u32),
    styles: Seq<NamedStyle>,
    sh: Shared,
    xf: Seq<StyleView>,
) -> SheetView {
    let cells = sorted_cells(s.cells@);
    let rows = rows_back(s, cells, styles, sh, xf, listed_rows(s));
    let cols = cols_back(s, rows.max_col, listed_cols(s));
    SheetView {
        name,
        row_count: (last_row(s, styles, sh, xf) + 1) as u32,
        col_count: (last_col(s, styles, sh, xf) + 1) as u32,
        cells: cells_back(cells, styles, sh, xf, cells.len() as int),
        spans: spans_back(s.spans@),
        row_heights: rows.heights,
        col_widths: cols.widths,
        hidden_rows: rows.hidden,
        hidden_cols: cols.hidden,
        row_outlines: groups_of_levels(rows.levels, rows.collapsed, below(s)),
        col_outlines: groups_of_levels(cols.levels, cols.collapsed, right(s)),
        summary_below: if below(s) {
            None
        } else {
            Some(false)
        },
        summary_right: if right(s) {
            None
        } else {
            Some(false)
        },
        protection: protection_back(s.protection),
        frozen_pane: if frozen.0 > 0 || frozen.1 > 0 {
            Some(frozen)
        } else {
            None
        },
        page_setup: page_back(s.page_setup),
    }
}

/// The last row that anything of a sheet stands in.
pub open spec fn last_row(s: SheetSnapshot, styles: Seq<NamedStyle>, sh: Shared, xf: Seq<StyleView>) -> u32 {
    let rows = rows_back(s, sorted_cells(s.cells@), styles, sh, xf, listed_rows(s));
    max_of(spans_row(s.spans@, rows.max_row), dimension_back(s).0)
}

/// The last column that anything of a sheet stands in.
pub open spec fn last_col(s: SheetSnapshot, styles: Seq<NamedStyle>, sh: Shared, xf: Seq<StyleView>) -> u32 {
    let rows = rows_back(s, sorted_cells(s.cells@), styles, sh, xf, listed_rows(s));
    let cols = cols_back(s, rows.max_col, listed_cols(s));
    max_of(spans_col(s.spans@, cols.max_col), dimension_back(s).1)
}

/// Whether the rows and columns of a sheet can be counted, and its groups have room.
pub open spec fn sheet_counts(
    s: SheetSnapshot,
    styles: Seq<NamedStyle>,
    sh: Shared,
    xf: Seq<StyleView>,
) -> bool {
    let rows = rows_back(s, sorted_cells(s.cells@), styles, sh, xf, listed_rows(s));
    let cols = cols_back(s, rows.max_col, listed_cols(s));
    &&& last_row(s, styles, sh, xf) < u32::MAX
    &&& last_col(s, styles, sh, xf) < u32::MAX
    &&& levels_fit(rows.levels, below(s))
    &&& levels_fit(cols.levels, right(s))
}

/// Nine texts, one behind the other.
pub open spec fn nine(
    h: Seq<char>,
    a: Seq<char>,
    b: Seq<char>,
    c: Seq<char>,
    d: Seq<char>,
    e: Seq<char>,
    f: Seq<char>,
    g: Seq<char>,
    t: Seq<char>,
) -> Seq<char> {
    h + a + b + c + d + e + f + g + t
}

proof fn nine_split(
    h: Seq<char>,
    a: Seq<char>,
    b: Seq<char>,
    c: Seq<char>,
    d: Seq<char>,
    e: Seq<char>,
    f: Seq<char>,
    g: Seq<char>,
    t: Seq<char>,
)
    ensures
        nine(h, a, b, c, d, e, f, g, t) == h + a + (b + c + d + e + f + g + t),
        nine(h, a, b, c, d, e, f, g, t) == (h + a) + b + (c + d + e + f + g + t),
        nine(h, a, b, c, d, e, f, g, t) == (h + a + b) + c + (d + e + f + g + t),
        nine(h, a, b, c, d, e, f, g, t) == (h + a + b + c) + d + (e + f + g + t),
        nine(h, a, b, c, d, e, f, g, t) == (h + a + b + c + d) + e + (f + g + t),
        nine(h, a, b, c, d, e, f, g, t) == (h + a + b + c + d + e) + f + (g + t),
{
    let w = nine(h, a, b, c, d, e, f, g, t);
    assert(w == (h + a + b + c + d + e) + f + (g + t));
    assert(f + (g + t) == f + g + t);
    assert(w == (h + a + b + c + d) + e + (f + g + t));
    assert(e + (f + g + t) == e + f + g + t);
    assert(w == (h + a + b + c) + d + (e + f + g + t));
    assert(d + (e + f + g + t) == d + e + f + g + t);
    assert(w == (h + a + b) + c + (d + e + f + g + t));
    assert(c + (d + e + f + g + t) == c + d + e + f + g + t);
    assert(w == (h + a) + b + (c + d + e + f + g + t));
    assert(b + (c + d + e + f + g + t) == b + c + d + e + f + g + t);
    assert(w == h + a + (b + c + d + e + f + g + t));
}

/// Where tag `k` does not start, part by part.
proof fn nine_clear(
    h: Seq<char>,
    a: Seq<char>,
    b: Seq<char>,
    c: Seq<char>,
    d: Seq<char>,
    e: Seq<char>,
    f: Seq<char>,
    g: Seq<char>,
    t: Seq<char>,
    k: int,
)
    requires
        0 <= k < 8,
        quiet(h, -1),
        quiet(a, 0),
        quiet(b, 1),
        quiet(c, 2),
        quiet(d, 3),
        quiet(e, 4),
        quiet(f, 5),
        quiet(g, 6),
        quiet(t, 7),
    ensures
        k == 0 ==> clear(h, mark(k)),
        k == 1 ==> clear(h + a, mark(k)),
        k == 2 ==> clear(h + a + b, mark(k)),
        k == 3 ==> clear(h + a + b + c, mark(k)),
        k == 4 ==> clear(h + a + b + c + d, mark(k)),
        k == 5 ==> clear(h + a + b + c + d + e, mark(k)),
        k == 6 ==> clear(h + a + b + c + d + e + f, mark(k)),
        k == 7 ==> clear(h + a + b + c + d + e + f + g, mark(k)),
        k == 7 && quiet(t, -1) ==> clear(nine(h, a, b, c, d, e, f, g, t), mark(k)),
        k == 0 && quiet(a, -1) ==> clear(nine(h, a, b, c, d, e, f, g, t), mark(k)),
        k == 1 && quiet(b, -1) ==> clear(nine(h, a, b, c, d, e, f, g, t), mark(k)),
        k == 3 && quiet(d, -1) ==> clear(nine(h, a, b, c, d, e, f, g, t), mark(k)),
        k == 5 && quiet(f, -1) ==> clear(nine(h, a, b, c, d, e, f, g, t), mark(k)),
        k == 6 && quiet(g, -1) ==> clear(nine(h, a, b, c, d, e, f, g, t), mark(k)),
{
    let m = mark(k);
    assert(clear(h, m));
    assert(k != 7 ==> clear(t, m));
    assert(quiet(t, -1) ==> clear(t, m));
    assert(k != 0 ==> clear(a, m));
    assert(k != 1 ==> clear(b, m));
    assert(k != 2 ==> clear(c, m));
    assert(k != 3 ==> clear(d, m));
    assert(k != 4 ==> clear(e, m));
    assert(k != 5 ==> clear(f, m));
    assert(k != 6 ==> clear(g, m));
    assert(quiet(a, -1) ==> clear(a, m));
    assert(quiet(b, -1) ==> clear(b, m));
    assert(quiet(d, -1) ==> clear(d, m));
    assert(quiet(f, -1) ==> clear(f, m));
    assert(quiet(g, -1) ==> clear(g, m));
    if clear(a, m) {
        clear_join(h, a, m);
        if clear(b, m) {
            clear_join(h + a, b, m);
            if clear(c, m) {
                clear_join(h + a + b, c, m);
                if clear(d, m) {
                    clear_join(h + a + b + c, d, m);
                    if clear(e, m) {
                        clear_join(h + a + b + c + d, e, m);
                        if clear(f, m) {
                            clear_join(h + a + b + c + d + e, f, m);
                            if clear(g, m) {
                                clear_join(h + a + b + c + d + e + f, g, m);
                                if clear(t, m) {
                                    clear_join(h + a + b + c + d + e + f + g, t, m);
                                }
                            }
                        }
                    }
                }
            }
        }
    }
}

proof fn three_behind(x: Seq<char>, p: Seq<char>, q: Seq<char>, r: Seq<char>)
    ensures
        x + p + q + r == x + (p + q + r),
{
}

proof fn four_behind(x: Seq<char>, p: Seq<char>, q: Seq<char>, r: Seq<char>, s: Seq<char>)
    ensures
        x + p + q + r + s == x + (p + q + r + s),
{
}

/// The parts of a sheet.
proof fn sheet_form(
    s: SheetSnapshot,
    styles: Seq<NamedStyle>,
    sh: Shared,
    frozen: (u32, u32),
    drawing: bool,
)
    ensures
        write_sheet(s, styles, sh, frozen, drawing).0 == nine(
            start_text(),
            sheet_pr_text(s),
            sheet_views_text(frozen.0, frozen.1),
            dimension_text(s),
            cols_xml(s),
            data_text(write_rows(s, styles, sh).0),
            protection_text(s.protection),
            merges_text(s.spans@),
            end_text(s, drawing),
        ),
{
    let x = start_text() + sheet_pr_text(s) + sheet_views_text(frozen.0, frozen.1);
    three_behind(x, "<dimension ref=\""@, dimension(s), "\"/>"@);
    let y = x + dimension_text(s) + cols_xml(s);
    three_behind(y, "<sheetData>"@, write_rows(s, styles, sh).0, "</sheetData>"@);
    let z = y + data_text(write_rows(s, styles, sh).0) + protection_text(s.protection) + merges_text(
        s.spans@,
    );
    four_behind(
        z,
        page_text(s.page_setup),
        opt(
            drawing,
            "<drawing xmlns:r=\"http://schemas.openxmlformats.org/officeDocument/2006/relationships\" r:id=\"rId1\"/>"@,
        ),
        ext_text(s.name@, s.sparklines@),
        "</worksheet>"@,
    );
}

/// Every row of a sheet that holds a cell is written, and the rows are written in order.
proof fn rows_listed(s: SheetSnapshot)
    requires
        sheet_valid(s),
    ensures
        ascends(listed_rows(s)),
        forall|i: int| 0 <= i < listed_rows(s).len() ==> #[trigger] listed_rows(s)[i] < u32::MAX,
        forall|i: int| 0 <= i < listed_cols(s).len() ==> #[trigger] listed_cols(s)[i] < u32::MAX,
        forall|i: int|
            0 <= i < s.cells@.len() ==> listed_rows(s).contains(
                (#[trigger] sorted_cells(s.cells@)[i]).r,
            ),
{
    let pred = |r: u32| row_listed(s, r);
    picked_has(pred, u32_count());
    let list = listed_rows(s);
    assert forall|i: int| 0 <= i < list.len() implies #[trigger] list[i] < u32::MAX by {
        assert(list.contains(list[i]));
        assert(pred(list[i]));
    }
    let cp = |c: u32| col_listed(s, c);
    picked_has(cp, u32_count());
    let cols = listed_cols(s);
    assert forall|i: int| 0 <= i < cols.len() implies #[trigger] cols[i] < u32::MAX by {
        assert(cols.contains(cols[i]));
        assert(cp(cols[i]));
    }
    sorted_by_row(s.cells@);
    assert forall|i: int| 0 <= i < s.cells@.len() implies list.contains(
        (#[trigger] sorted_cells(s.cells@)[i]).r,
    ) by {
        let c = sorted_cells(s.cells@)[i];
        assert(s.cells@.contains(c));
        let k = choose|k: int| 0 <= k < s.cells@.len() && s.cells@[k] == c;
        assert(s.cells@[k].r == c.r);
        assert(has_row(s.cells@, c.r));
        assert(pred(c.r));
    }
}

/// The page of a sheet is read behind what stands in front of it.
proof fn page_stands(s: SheetSnapshot, drawing: bool, front: Seq<char>)
    requires
        page_valid(s.page_setup),
        clear(front, mark(7)),
        s.page_setup is None ==> clear(front + end_text(s, drawing), mark(7)),
    ensures
        page_read(front + end_text(s, drawing)) == page_back(s.page_setup),
{
    let p = page_text(s.page_setup);
    let rest = opt(
        drawing,
        "<drawing xmlns:r=\"http://schemas.openxmlformats.org/officeDocument/2006/relationships\" r:id=\"rId1\"/>"@,
    ) + crate::xlsx_drawing::ext_text(s.name@, s.sparklines@) + "</worksheet>"@;
    assert(end_text(s, drawing) == p + rest);
    assert(front + (p + rest) == front + p + rest);
    page_comes_back(s.page_setup, front, rest);
}

/// A sheet that is written and read back holds its cells, in order, with their values and
/// formulas, its merged cells, the sizes and the hidden ones of its rows and columns, the levels
/// of its outlines, its protection, its page and its panes. `sst` are the shared strings of the
/// file and `xf` the styles that its cell formats stand for.
pub proof fn sheet_comes_back(
    s: SheetSnapshot,
    name: Seq<char>,
    styles: Seq<NamedStyle>,
    sh: Shared,
    frozen: (u32, u32),
    drawing: bool,
    sst: Seq<Seq<char>>,
    xf: Seq<StyleView>,
)
    requires
        sheet_valid(s),
        countable(write_sheet(s, styles, sh, frozen, drawing).1),
        leads(write_sheet(s, styles, sh, frozen, drawing).1.texts, sst),
        sheet_counts(s, styles, sh, xf),
    ensures
        sheet_read(write_sheet(s, styles, sh, frozen, drawing).0, name, sst, xf) == Some(
            sheet_back(s, name, frozen, styles, sh, xf),
        ),
{
    let cells = sorted_cells(s.cells@);
    let xs = write_cells(cells, styles, sh).0;
    let list = listed_rows(s);
    let rows = row_list_xml(s, cells, xs, list);
    let h = start_text();
    let a = sheet_pr_text(s);
    let b = sheet_views_text(frozen.0, frozen.1);
    let c = dimension_text(s);
    let d = cols_xml(s);
    let e = data_text(rows);
    let f = protection_text(s.protection);
    let g = merges_text(s.spans@);
    let t = end_text(s, drawing);
    let xml = nine(h, a, b, c, d, e, f, g, t);
    sheet_form(s, styles, sh, frozen, drawing);
    sorted_valid(s.cells@);
    sorted_by_row(s.cells@);
    rows_listed(s);
    start_quiet();
    pr_quiet(s);
    pane_quiet(frozen.0, frozen.1);
    dimension_quiet(s);
    cols_quiet(s);
    data_quiet(s, cells, styles, sh, list);
    guard_quiet(s.protection);
    merges_quiet(s.spans@);
    end_quiet(s, drawing);
    nine_split(h, a, b, c, d, e, f, g, t);
    nine_clear(h, a, b, c, d, e, f, g, t, 0);
    nine_clear(h, a, b, c, d, e, f, g, t, 1);
    nine_clear(h, a, b, c, d, e, f, g, t, 2);
    nine_clear(h, a, b, c, d, e, f, g, t, 3);
    nine_clear(h, a, b, c, d, e, f, g, t, 4);
    nine_clear(h, a, b, c, d, e, f, g, t, 5);
    nine_clear(h, a, b, c, d, e, f, g, t, 6);
    nine_clear(h, a, b, c, d, e, f, g, t, 7);
    pr_back(s, h, b + c + d + e + f + g + t);
    pane_back(frozen.0, frozen.1, h + a, c + d + e + f + g + t);
    dimension_comes_back(s, h + a + b, d + e + f + g + t);
    let back = rows_back(s, cells, styles, sh, xf, list);
    sheet_cols_back(s, back.max_col, h + a + b + c, e + f + g + t);
    let cols = cols_back(s, back.max_col, listed_cols(s));
    reveal_strlit("</sheetData>");
    strange_if("</sheetData>"@);
    rows_clear(s, cells, styles, sh, list, "</sheetData>"@);
    data_back(rows, h + a + b + c + d, f + g + t);
    guard_back(s.protection, h + a + b + c + d + e, g + t);
    sheet_merges_back(s.spans@, back.max_row, cols.max_col, h + a + b + c + d + e + f, t);
    page_stands(s, drawing, h + a + b + c + d + e + f + g);
    rows_come_back(s, cells, styles, sh, sst, xf, list);
    records_whole(rows, "<row"@, "</row>"@, rows_records(s, cells, xs, list));
    rows_in_order(s, cells, styles, sh, xf, list, cells.len() as int);
    back_is_sorted(cells, styles, sh, xf);
}

} // verus!
