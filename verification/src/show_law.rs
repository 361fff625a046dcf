//! What holds of what a sheet shows: each cell is written at its place, rows of an outline are hidden
//! with their group, and a report holds what was last said of a cell.
use crate::custom_fn::report_values;
use crate::decimal::dec;
use crate::export_html::{cell_css, td, tds, trs, CellLook};
use crate::export_pdf::{page_rows, row_texts, shown_text};
use crate::outline::{in_detail, is_hidden, level, with_collapsed};
use crate::put_law::{is_within, merged_cells_hold_their_places};
use crate::snapshot::{OutlineGroupSnapshot, RegionRect, Span};
use crate::text::{join, upper};
use crate::value::{FValue, FormulaValue};
use crate::xlsx_style::signed;
use crate::xml::{esc_text, Escape};
use vstd::prelude::*;

verus! {

/// Whether merged cells are the first that a place lies in.
pub open spec fn is_merged(spans: Seq<Span>, r: u32, c: u32, k: int) -> bool {
    0 <= k < spans.len() && is_within(spans[k], r, c) && forall|i: int|
        0 <= i < k ==> !is_within(#[trigger] spans[i], r, c)
}

/// Whether a place lies in no merged cells.
pub open spec fn is_single(spans: Seq<Span>, r: u32, c: u32) -> bool {
    forall|i: int| 0 <= i < spans.len() ==> !is_within(#[trigger] spans[i], r, c)
}

/// A row of a table grows by one cell with each column: by the cell of that column, which shows the
/// column's text, and by nothing where the place is merged into another one. Merged cells take as
/// many rows and columns as they have.
pub proof fn cells_stand_in_their_columns(
    spans: Seq<Span>,
    r: u32,
    col: u32,
    looks: Seq<CellLook>,
    grid: bool,
    n: int,
    k: int,
)
    requires
        0 < n <= looks.len(),
        col + n <= u32::MAX,
    ensures
        ({
            let c = (col + n - 1) as u32;
            let before = tds(spans, r, col, looks, grid, n - 1);
            let after = tds(spans, r, col, looks, grid, n);
            let look = looks[n - 1];
            let style = " style=\""@ + join(cell_css(look, grid), ";"@) + ";padding:1px 4px\">"@;
            let shown = esc_text(look.text@, Escape::Html) + "</td>"@;
            &&& is_single(spans, r, c) ==> after == before + ("<td"@ + style + shown)
            &&& is_merged(spans, r, c, k) && (spans[k].row != r || spans[k].col != c) ==> after
                == before
            &&& is_merged(spans, r, c, k) && spans[k].row == r && spans[k].col == c
                && spans[k].row_count > 1 && spans[k].col_count > 1 ==> after == before + ("<td"@
                + " rowspan=\""@ + dec(spans[k].row_count as nat) + "\""@ + " colspan=\""@ + dec(
                spans[k].col_count as nat,
            ) + "\""@ + style + shown)
        }),
        tds(spans, r, col, looks, grid, 0) == Seq::<char>::empty(),
{
    let c = (col + n - 1) as u32;
    let before = tds(spans, r, col, looks, grid, n - 1);
    let look = looks[n - 1];
    let style = " style=\""@ + join(cell_css(look, grid), ";"@) + ";padding:1px 4px\">"@;
    let shown = esc_text(look.text@, Escape::Html) + "</td>"@;
    merged_cells_hold_their_places(spans, r, c, k);
    if is_single(spans, r, c) {
        let t = td(spans, r, c, look, grid);
        assert(t =~= "<td"@ + style + shown);
    }
    if is_merged(spans, r, c, k) && spans[k].row == r && spans[k].col == c && spans[k].row_count > 1
        && spans[k].col_count > 1 {
        let t = td(spans, r, c, look, grid);
        assert(t =~= "<td"@ + " rowspan=\""@ + dec(spans[k].row_count as nat) + "\""@
            + " colspan=\""@ + dec(spans[k].col_count as nat) + "\""@ + style + shown);
    }
}

/// A table grows by one row with each row of the sheet, as high as that row and with its cells.
pub proof fn rows_stand_in_their_order(
    spans: Seq<Span>,
    g: RegionRect,
    looks: Seq<Vec<CellLook>>,
    heights: Seq<i64>,
    grid: bool,
    n: int,
)
    requires
        0 < n <= g.row_count,
    ensures
        trs(spans, g, looks, heights, grid, n) == trs(spans, g, looks, heights, grid, n - 1) + (
        "<tr style=\"height:"@ + signed(heights[n - 1] as int) + "px\">"@ + tds(
            spans,
            (g.row + (n - 1)) as u32,
            g.col,
            looks[n - 1]@,
            grid,
            g.col_count as int,
        ) + "</tr>"@),
        trs(spans, g, looks, heights, grid, 0) == Seq::<char>::empty(),
{
    let fore = trs(spans, g, looks, heights, grid, n - 1);
    let row = tds(
        spans,
        (g.row + n - 1) as u32,
        g.col,
        looks[n - 1]@,
        grid,
        g.col_count as int,
    );
    let h = signed(heights[n - 1] as int);
    assert(fore + "<tr style=\"height:"@ + h + "px\">"@ + row + "</tr>"@ =~= fore + (
    "<tr style=\"height:"@ + h + "px\">"@ + row + "</tr>"@));
}

proof fn row_shows(row: int, cells: Seq<Seq<char>>, builtin: bool, n: int, c: int, t: Seq<char>)
    requires
        0 <= n <= cells.len(),
    ensures
        row_texts(row, cells, builtin, n).contains((row, c, t)) == (0 <= c < n && t == shown_text(
            cells[c],
            builtin,
        ) && t.len() > 0),
        forall|i: int|
            0 <= i < row_texts(row, cells, builtin, n).len() ==> (#[trigger] row_texts(
                row,
                cells,
                builtin,
                n,
            )[i]).0 == row && row_texts(row, cells, builtin, n)[i].1 < n,
        forall|i: int, j: int|
            0 <= i < j < row_texts(row, cells, builtin, n).len() ==> (#[trigger] row_texts(
                row,
                cells,
                builtin,
                n,
            )[i]).1 < (#[trigger] row_texts(row, cells, builtin, n)[j]).1,
    decreases n,
{
    if n > 0 {
        row_shows(row, cells, builtin, n - 1, c, t);
        let fore = row_texts(row, cells, builtin, n - 1);
        let u = shown_text(cells[n - 1], builtin);
        if u.len() > 0 {
            let all = fore.push((row, n - 1, u));
            assert(row_texts(row, cells, builtin, n) == all);
            assert(all[fore.len() as int] == (row, n - 1, u));
            if fore.contains((row, c, t)) {
                let i = choose|i: int| 0 <= i < fore.len() && fore[i] == (row, c, t);
                assert(all[i] == (row, c, t));
            }
            if all.contains((row, c, t)) && !fore.contains((row, c, t)) {
                let i = choose|i: int| 0 <= i < all.len() && all[i] == (row, c, t);
                if i < fore.len() {
                    assert(fore[i] == (row, c, t));
                }
            }
        }
    }
}

proof fn page_shows(rows: Seq<Seq<Seq<char>>>, builtin: bool, n: int, r: int, c: int, t: Seq<char>)
    requires
        0 <= n <= rows.len(),
    ensures
        page_rows(rows, builtin, n).contains((r, c, t)) == (0 <= r < n && 0 <= c < rows[r].len() && t
            == shown_text(rows[r][c], builtin) && t.len() > 0),
        forall|i: int|
            0 <= i < page_rows(rows, builtin, n).len() ==> (#[trigger] page_rows(rows, builtin, n)[i]).0
                < n,
        forall|i: int, j: int|
            0 <= i < j < page_rows(rows, builtin, n).len() ==> {
                let a = #[trigger] page_rows(rows, builtin, n)[i];
                let b = #[trigger] page_rows(rows, builtin, n)[j];
                a.0 < b.0 || a.0 == b.0 && a.1 < b.1
            },
    decreases n,
{
    if n > 0 {
        page_shows(rows, builtin, n - 1, r, c, t);
        let fore = page_rows(rows, builtin, n - 1);
        let more = row_texts(n - 1, rows[n - 1], builtin, rows[n - 1].len() as int);
        let all = fore + more;
        row_shows(n - 1, rows[n - 1], builtin, rows[n - 1].len() as int, c, t);
        assert(page_rows(rows, builtin, n) == all);
        if fore.contains((r, c, t)) {
            let i = choose|i: int| 0 <= i < fore.len() && fore[i] == (r, c, t);
            assert(all[i] == (r, c, t));
        }
        if more.contains((r, c, t)) {
            let i = choose|i: int| 0 <= i < more.len() && more[i] == (r, c, t);
            assert(all[fore.len() + i] == (r, c, t));
        }
        if all.contains((r, c, t)) && !fore.contains((r, c, t)) {
            let i = choose|i: int| 0 <= i < all.len() && all[i] == (r, c, t);
            if i < fore.len() {
                assert(fore[i] == (r, c, t));
            } else {
                assert(more[i - fore.len()] == (r, c, t));
            }
        }
        assert forall|i: int, j: int| 0 <= i < j < all.len() implies {
            let a = #[trigger] all[i];
            let b = #[trigger] all[j];
            a.0 < b.0 || a.0 == b.0 && a.1 < b.1
        } by {
            if j < fore.len() {
                assert(all[i] == fore[i] && all[j] == fore[j]);
            } else if i >= fore.len() {
                assert(all[i] == more[i - fore.len()] && all[j] == more[j - fore.len()]);
            } else {
                assert(all[i] == fore[i] && all[j] == more[j - fore.len()]);
            }
        }
        assert forall|i: int| 0 <= i < all.len() implies (#[trigger] all[i]).0 < n by {
            if i < fore.len() {
                assert(all[i] == fore[i]);
            } else {
                assert(all[i] == more[i - fore.len()]);
            }
        }
    }
}

/// A page shows a text at a place if the cell there shows it and it is not empty, and shows nothing
/// else; the texts stand by row, then by column.
pub proof fn pages_show_their_cells(
    rows: Seq<Seq<Seq<char>>>,
    builtin: bool,
    r: int,
    c: int,
    t: Seq<char>,
)
    ensures
        page_rows(rows, builtin, rows.len() as int).contains((r, c, t)) == (0 <= r < rows.len() && 0
            <= c < rows[r].len() && t == shown_text(rows[r][c], builtin) && t.len() > 0),
        forall|i: int, j: int|
            0 <= i < j < page_rows(rows, builtin, rows.len() as int).len() ==> {
                let a = #[trigger] page_rows(rows, builtin, rows.len() as int)[i];
                let b = #[trigger] page_rows(rows, builtin, rows.len() as int)[j];
                a.0 < b.0 || a.0 == b.0 && a.1 < b.1
            },
        !builtin && 0 <= r < rows.len() && 0 <= c < rows[r].len() && rows[r][c].len() > 0
            ==> page_rows(rows, builtin, rows.len() as int).contains((r, c, rows[r][c])),
{
    page_shows(rows, builtin, rows.len() as int, r, c, t);
    if 0 <= r < rows.len() && 0 <= c < rows[r].len() {
        page_shows(rows, builtin, rows.len() as int, r, c, rows[r][c]);
    }
}

/// A report holds of each cell what was last said of it: one thing more said of a cell takes the
/// place of what was said of it before, and of that alone. The cell may be written small, and is one
/// of the active sheet where it says no other.
pub proof fn reports_hold_what_was_said_last(
    raw: Seq<(String, FormulaValue)>,
    k: String,
    v: FormulaValue,
    active: Seq<char>,
    other: Seq<char>,
)
    requires
        crate::find_law::without(k@, '!'),
    ensures
        ({
            let all = report_values(raw.push((k, v)), active);
            let key = active + seq!['!'] + upper(k@);
            &&& all.dom().contains(key)
            &&& all[key] == v@
            &&& other != key ==> all.dom().contains(other) == report_values(
                raw,
                active,
            ).dom().contains(other)
            &&& other != key && all.dom().contains(other) ==> all[other] == report_values(
                raw,
                active,
            )[other]
        }),
        report_values(Seq::empty(), active) == Map::<Seq<char>, FValue>::empty(),
{
    let more = raw.push((k, v));
    assert(more.drop_last() =~= raw);
    assert(more.last() == (k, v));
    reveal_strlit("!");
    assert("!"@ =~= seq!['!']);
    no_mark(k@, 0);
}

proof fn no_mark(s: Seq<char>, i: int)
    requires
        0 <= i,
        crate::find_law::without(s, '!'),
    ensures
        crate::text::find_char(s, '!', i) is None,
    decreases s.len() - i,
{
    if i < s.len() {
        assert(s[i] != '!');
        no_mark(s, i + 1);
    }
}

/// Whether an index is one of a group's but not the one that stands for the group: the last where
/// that stands behind the others, and else the first.
pub open spec fn is_one_of(g: OutlineGroupSnapshot, i: int, after: bool) -> bool {
    g.start <= i < g.start + g.count && i != (if after {
        g.start + g.count - 1
    } else {
        g.start as int
    })
}

/// A group more adds one to the level of each of its indices but of the one that stands for it, and
/// hides them where it is collapsed.
pub proof fn groups_raise_their_own(
    groups: Seq<OutlineGroupSnapshot>,
    g: OutlineGroupSnapshot,
    i: int,
    after: bool,
)
    ensures
        level(groups.push(g), i, after) == level(groups, i, after) + (if is_one_of(g, i, after) {
            1nat
        } else {
            0
        }),
        is_hidden(groups.push(g), i, after) == (is_hidden(groups, i, after) || g.collapsed && is_one_of(
            g,
            i,
            after,
        )),
        level(Seq::empty(), i, after) == 0,
        !is_hidden(Seq::empty(), i, after),
{
    let all = groups.push(g);
    assert(all.drop_last() =~= groups);
    assert(all.last() == g);
    assert(in_detail(g, i, after) == is_one_of(g, i, after));
    if is_hidden(groups, i, after) {
        let k = choose|k: int|
            0 <= k < groups.len() && (#[trigger] groups[k]).collapsed && in_detail(
                groups[k],
                i,
                after,
            );
        assert(all[k] == groups[k]);
    }
    if is_hidden(all, i, after) {
        let k = choose|k: int|
            0 <= k < all.len() && (#[trigger] all[k]).collapsed && in_detail(all[k], i, after);
        if k < groups.len() {
            assert(groups[k] == all[k]);
        }
    }
    if g.collapsed && is_one_of(g, i, after) {
        assert(all[groups.len() as int] == g);
    }
}

/// Collapsing or expanding changes the last group that starts at an index, and leaves the others.
pub proof fn groups_are_collapsed(
    groups: Seq<OutlineGroupSnapshot>,
    start: u32,
    collapsed: bool,
    k: int,
    i: int,
)
    requires
        0 <= k < groups.len(),
        groups[k].start == start,
        forall|j: int| k < j < groups.len() ==> (#[trigger] groups[j]).start != start,
    ensures
        ({
            let after = with_collapsed(groups, start, collapsed);
            &&& after.len() == groups.len()
            &&& after[k] == (OutlineGroupSnapshot { collapsed, ..groups[k] })
            &&& 0 <= i < groups.len() && i != k ==> after[i] == groups[i]
        }),
    decreases groups.len(),
{
    let n = groups.len() - 1;
    let fore = groups.drop_last();
    if k < n {
        assert(groups[n].start != start);
        assert forall|j: int| k < j < fore.len() implies (#[trigger] fore[j]).start != start by {
            assert(groups[j].start != start);
        }
        groups_are_collapsed(fore, start, collapsed, k, i);
    }
}

} // verus!
