//! What holds of snapshots: the snapshot of a workbook is that of the workbook that comes of it.
use crate::snapshot::{NamedStyle, SheetSnapshot, WorkbookSnapshot};
use crate::sorting::{text_le, text_le_antisym, text_le_total, text_le_trans};
use crate::worksheet::{
    all_bare, book_style_sheet, has_equals, in_order, is_blank_cell, is_book_of,
    is_book_snapshot_of, is_sheet_of, is_snapshot_of, is_stored, keeps, load_cells, load_stored,
    place_key, stored_cell, stored_cells, stored_formula, stored_style, with_all_named, with_named,
    SheetCell, Workbook, Worksheet,
};
use vstd::prelude::*;

verus! {

// ---- cells

/// A cell without what a snapshot leaves out.
spec fn told(x: SheetCell) -> SheetCell {
    SheetCell { formula: stored_formula(x.formula), style: stored_style(x.style), ..x }
}

/// Cells without what a snapshot leaves out.
spec fn told_cells(cells: Seq<SheetCell>) -> Seq<SheetCell>
    decreases cells.len(),
{
    if cells.len() == 0 {
        Seq::empty()
    } else if is_blank_cell(told(cells.last())) {
        told_cells(cells.drop_last())
    } else {
        told_cells(cells.drop_last()).push(told(cells.last()))
    }
}

/// No formula has a `=` in front.
pub open spec fn formulas_bare(cells: Seq<SheetCell>) -> bool {
    forall|i: int|
        0 <= i < cells.len() ==> ((#[trigger] cells[i]).formula matches Some(f) ==> !has_equals(f@))
}

/// What is left is kept as it is, and is stored as all was.
proof fn told_is_kept(cells: Seq<SheetCell>)
    requires
        in_order(cells),
        formulas_bare(cells),
    ensures
        in_order(told_cells(cells)),
        forall|i: int| 0 <= i < told_cells(cells).len() ==> keeps(#[trigger] told_cells(cells)[i]),
        stored_cells(told_cells(cells)) == stored_cells(cells),
        cells.len() > 0 && told_cells(cells).len() > 0 ==> place_key(
            told_cells(cells).last().r,
            told_cells(cells).last().c,
        ) <= place_key(cells.last().r, cells.last().c),
        cells.len() == 0 ==> told_cells(cells).len() == 0,
    decreases cells.len(),
{
    if cells.len() > 0 {
        let p = cells.drop_last();
        let x = cells.last();
        assert forall|i: int, j: int| 0 <= i < j < p.len() implies place_key(p[i].r, p[i].c)
            < place_key(p[j].r, p[j].c) by {
            assert(p[i] == cells[i] && p[j] == cells[j]);
        }
        assert forall|i: int| 0 <= i < p.len() implies ((#[trigger] p[i]).formula matches Some(f)
            ==> !has_equals(f@)) by {
            assert(p[i] == cells[i]);
        }
        told_is_kept(p);
        let t = told_cells(p);
        let y = told(x);
        assert(stored_cell(y) == stored_cell(x));
        if p.len() > 0 {
            assert(place_key(cells[p.len() - 1].r, cells[p.len() - 1].c) < place_key(
                cells[p.len() as int].r,
                cells[p.len() as int].c,
            ));
        }
        if !is_blank_cell(y) {
            assert(cells[cells.len() - 1] == x);
            assert(keeps(y));
            let all = t.push(y);
            assert forall|i: int, j: int| 0 <= i < j < all.len() implies place_key(
                all[i].r,
                all[i].c,
            ) < place_key(all[j].r, all[j].c) by {
                if j < t.len() {
                    assert(place_key(t[i].r, t[i].c) < place_key(t[j].r, t[j].c));
                } else if i < t.len() - 1 {
                    assert(place_key(t[i].r, t[i].c) < place_key(
                        t[t.len() - 1].r,
                        t[t.len() - 1].c,
                    ));
                }
            }
            assert(all.drop_last() == t);
            assert(is_stored(stored_cell(x)));
        }
    }
}

// ---- named styles

/// Whether named styles stand by name, each name once.
spec fn by_name(list: Seq<NamedStyle>) -> bool {
    forall|i: int, j: int|
        0 <= i < j < list.len() ==> text_le((#[trigger] list[i]).name@, (#[trigger] list[j]).name@)
            && list[i].name@ != list[j].name@
}

proof fn fewer_by_name(list: Seq<NamedStyle>)
    requires
        by_name(list),
        list.len() > 0,
    ensures
        by_name(list.drop_last()),
{
    let p = list.drop_last();
    assert forall|i: int, j: int| 0 <= i < j < p.len() implies text_le(
        (#[trigger] p[i]).name@,
        (#[trigger] p[j]).name@,
    ) && p[i].name@ != p[j].name@ by {
        assert(p[i] == list[i] && p[j] == list[j]);
    }
}

proof fn more_by_name(list: Seq<NamedStyle>, x: NamedStyle)
    requires
        by_name(list),
        list.len() > 0 ==> text_le(list.last().name@, x.name@) && list.last().name@ != x.name@,
    ensures
        by_name(list.push(x)),
{
    let q = list.push(x);
    assert forall|i: int, j: int| 0 <= i < j < q.len() implies text_le(
        (#[trigger] q[i]).name@,
        (#[trigger] q[j]).name@,
    ) && q[i].name@ != q[j].name@ by {
        if j == list.len() && i < list.len() - 1 {
            let l = list[list.len() - 1];
            assert(text_le(list[i].name@, l.name@));
            text_le_trans(list[i].name@, l.name@, x.name@);
            if list[i].name@ == x.name@ {
                text_le_antisym(l.name@, x.name@);
            }
        }
    }
}

proof fn named_by_name(list: Seq<NamedStyle>, x: NamedStyle)
    requires
        by_name(list),
    ensures
        by_name(with_named(list, x)),
        with_named(list, x).len() > 0,
        with_named(list, x).last() == x || (list.len() > 0 && with_named(list, x).last()
            == list.last()),
    decreases list.len(),
{
    if list.len() == 0 || (text_le(list.last().name@, x.name@) && list.last().name@ != x.name@) {
        more_by_name(list, x);
    } else if list.last().name@ != x.name@ {
        let p = list.drop_last();
        fewer_by_name(list);
        named_by_name(p, x);
        text_le_total(list.last().name@, x.name@);
        if p.len() > 0 {
            assert(p.last() == list[list.len() - 2]);
            assert(text_le(p.last().name@, list[list.len() - 1].name@));
        }
        more_by_name(with_named(p, x), list.last());
    }
}

proof fn all_named_by_name(list: Seq<NamedStyle>, xs: Seq<NamedStyle>)
    requires
        by_name(list),
    ensures
        by_name(with_all_named(list, xs)),
    decreases xs.len(),
{
    if xs.len() > 0 {
        all_named_by_name(list, xs.drop_last());
        named_by_name(with_all_named(list, xs.drop_last()), xs.last());
    }
}

proof fn book_by_name(sheets: Seq<Worksheet>)
    ensures
        by_name(book_style_sheet(sheets)),
    decreases sheets.len(),
{
    if sheets.len() > 0 {
        book_by_name(sheets.drop_last());
        all_named_by_name(book_style_sheet(sheets.drop_last()), sheets.last().style_sheet@);
    }
}

proof fn named_again(list: Seq<NamedStyle>, i: int)
    requires
        by_name(list),
        0 <= i < list.len(),
    ensures
        with_named(list, list[i]) == list,
    decreases list.len(),
{
    let l = list[list.len() - 1];
    if i < list.len() - 1 {
        assert(text_le(list[i].name@, l.name@) && list[i].name@ != l.name@);
        if text_le(l.name@, list[i].name@) {
            text_le_antisym(l.name@, list[i].name@);
        }
        fewer_by_name(list);
        assert(list.drop_last()[i] == list[i]);
        named_again(list.drop_last(), i);
        assert(list.drop_last().push(l) == list);
    }
}

/// Styles put in by name among themselves give themselves.
proof fn all_named_again(list: Seq<NamedStyle>, n: int)
    requires
        by_name(list),
        0 <= n <= list.len(),
    ensures
        with_all_named(list, list.take(n)) == list,
        with_all_named(Seq::empty(), list.take(n)) == list.take(n),
    decreases n,
{
    if n > 0 {
        all_named_again(list, n - 1);
        let p = list.take(n);
        assert(p.drop_last() == list.take(n - 1));
        assert(p.last() == list[n - 1]);
        named_again(list, n - 1);
        if n > 1 {
            assert(list.take(n - 1).last() == list[n - 2]);
            assert(text_le(list[n - 2].name@, list[n - 1].name@));
        }
        assert(list.take(n - 1).push(list[n - 1]) == p);
    }
}

proof fn shared_again(sheets: Seq<Worksheet>, list: Seq<NamedStyle>)
    requires
        by_name(list),
        sheets.len() > 0,
        forall|i: int| 0 <= i < sheets.len() ==> (#[trigger] sheets[i]).style_sheet@ == list,
    ensures
        book_style_sheet(sheets) == list,
    decreases sheets.len(),
{
    let p = sheets.drop_last();
    all_named_again(list, list.len() as int);
    assert(list.take(list.len() as int) == list);
    assert(sheets[sheets.len() - 1].style_sheet@ == list);
    if p.len() > 0 {
        assert forall|i: int| 0 <= i < p.len() implies (#[trigger] p[i]).style_sheet@ == list by {
            assert(p[i] == sheets[i]);
        }
        shared_again(p, list);
    }
}

// ---- snapshots

/// Whether two snapshots of sheets are the same.
pub open spec fn same_sheet_snapshot(a: SheetSnapshot, b: SheetSnapshot) -> bool {
    &&& a.name == b.name
    &&& a.row_count == b.row_count
    &&& a.col_count == b.col_count
    &&& a.cells@ == b.cells@
    &&& a.spans == b.spans
    &&& a.row_heights == b.row_heights
    &&& a.col_widths == b.col_widths
    &&& a.row_styles == b.row_styles
    &&& a.col_styles == b.col_styles
    &&& a.default_style == b.default_style
    &&& a.hidden_rows == b.hidden_rows
    &&& a.hidden_cols == b.hidden_cols
    &&& a.row_outlines@ == b.row_outlines@
    &&& a.col_outlines@ == b.col_outlines@
    &&& a.summary_below == b.summary_below
    &&& a.summary_right == b.summary_right
    &&& a.zoom == b.zoom
    &&& a.active_row == b.active_row
    &&& a.active_col == b.active_col
    &&& a.validations == b.validations
    &&& a.hyperlinks == b.hyperlinks
    &&& a.conditional_rules == b.conditional_rules
    &&& a.comments == b.comments
    &&& a.floating_objects == b.floating_objects
    &&& a.page_setup == b.page_setup
    &&& a.protection == b.protection
    &&& a.sparklines == b.sparklines
    &&& a.frozen_pane is None && b.frozen_pane is None
}

/// A sheet's snapshot comes back as it was, whatever the sheet's cells leave out.
pub proof fn sheet_snapshot_round_trip(
    ws: Worksheet,
    snap: SheetSnapshot,
    styles: Seq<NamedStyle>,
    back: Worksheet,
    again: SheetSnapshot,
)
    requires
        ws.wf(),
        formulas_bare(ws.cells@),
        is_snapshot_of(snap, ws),
        is_sheet_of(back, snap, styles),
        is_snapshot_of(again, back),
    ensures
        same_sheet_snapshot(again, snap),
{
    let fs = choose|fs: Seq<Option<String>>|
        all_bare(snap.cells@, fs) && back.cells@ == #[trigger] load_cells(snap.cells@, fs);
    told_is_kept(ws.cells@);
    load_stored(told_cells(ws.cells@), fs);
}

/// The snapshot of a workbook is that of the workbook that comes of it: writing, reading and
/// writing again gives what was written first. Left out are workbooks without sheets, which get
/// one, and formulas with a `=` in front, which lose it.
pub proof fn snapshot_round_trip(
    wb: Workbook,
    snap: WorkbookSnapshot,
    back: Workbook,
    again: WorkbookSnapshot,
)
    requires
        wb.wf(),
        wb.sheets@.len() > 0,
        forall|i: int|
            0 <= i < wb.sheets@.len() ==> formulas_bare((#[trigger] wb.sheets@[i]).cells@),
        is_book_snapshot_of(snap, wb),
        is_book_of(back, snap),
        is_book_snapshot_of(again, back),
    ensures
        again.format@ == snap.format@,
        again.version == snap.version,
        again.active_sheet == snap.active_sheet,
        match snap.styles {
            Some(v) => again.styles matches Some(w) && w@ == v@,
            None => again.styles is None,
        },
        again.defined_names == snap.defined_names,
        again.frozen_row_count == snap.frozen_row_count,
        again.frozen_col_count == snap.frozen_col_count,
        again.trailing_row_count == snap.trailing_row_count,
        again.trailing_col_count == snap.trailing_col_count,
        again.split_row == snap.split_row,
        again.split_col == snap.split_col,
        again.sheets@.len() == snap.sheets@.len(),
        forall|i: int|
            0 <= i < snap.sheets@.len() ==> same_sheet_snapshot(
                #[trigger] again.sheets@[i],
                snap.sheets@[i],
            ),
{
    let list = book_style_sheet(wb.sheets@);
    book_by_name(wb.sheets@);
    assert forall|i: int| 0 <= i < back.sheets@.len() implies (#[trigger] back.sheets@[i]).style_sheet@
        == list by {
        assert(is_sheet_of(
            back.sheets@[i],
            snap.sheets@[i],
            match snap.styles {
                Some(v) => v@,
                None => Seq::empty(),
            },
        ));
        if snap.styles is None {
            assert(list == Seq::<NamedStyle>::empty());
        }
    }
    shared_again(back.sheets@, list);
    assert forall|i: int| 0 <= i < snap.sheets@.len() implies same_sheet_snapshot(
        #[trigger] again.sheets@[i],
        snap.sheets@[i],
    ) by {
        assert(is_snapshot_of(snap.sheets@[i], wb.sheets@[i]));
        assert(is_snapshot_of(again.sheets@[i], back.sheets@[i]));
        assert(back.sheets@[i].wf() && wb.sheets@[i].wf());
        sheet_snapshot_round_trip(
            wb.sheets@[i],
            snap.sheets@[i],
            list,
            back.sheets@[i],
            again.sheets@[i],
        );
    }
}

} // verus!
