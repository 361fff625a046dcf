//! Reading spreadsheet files.
use crate::address::{parse_addr, spec_parse_addr, CellCoord};
use crate::archive::{archive_of, part_text, unzip, Parts};
use crate::decimal::{dec, parse_unsigned, push_dec, read_unsigned};
use crate::numeral::{is_number_text, number_text};
use crate::outline::{
    groups_of_levels, levels_fit, levels_to_groups, listed_level, top_index, top_level,
};
use crate::scan::{
    all_matches, attr, attr_of, block, closed_tag, contains_str, element, enclosed, find, find_text,
    first_closed_tag, first_element, first_enclosed, first_key_in_tag, first_match, first_open_tag,
    first_tag_ref, occurs, open_tag_at, pattern_at, short_tags, tag_ref, tag_refs, Pattern,
};
use crate::snapshot::{
    snapshot_format, CellSnapshot, CellValue, NumPair, OutlineGroupSnapshot, SheetProtection,
    SheetSnapshot, Span, WorkbookSnapshot,
};
use crate::sorting::{places, stable_order, stable_order_sorts};
use crate::style::{empty_says_nothing, empty_view, Style, StyleView};
use crate::text::{
    chars_of, find_char, opt_pos, position_of, same_text, slice_string, texts, trim_start_char,
};
use crate::xlsx_page::{opt_page_view, page_read, parse_page, PageView};
use crate::xlsx_styles_read::{
    attr_id, attr_is, attr_number, block_opt, block_or_empty, block_text, is_attr, key_in_tag_of,
    number_attr, parse_shared_strings, parse_styles, record_texts, records, records_of,
    shared_texts_of, short_tags_all, style_views, xfs_read, ParsedStyles, Record,
};
use crate::xml::{unesc, unescaped};
use vstd::prelude::*;

verus! {

// ---- what is read

/// What a cell shows.
pub enum ValueView {
    Number(Seq<char>),
    Bool(bool),
    Text(Seq<char>),
}

/// A cell.
pub struct CellView {
    pub r: u32,
    pub c: u32,
    pub v: Option<ValueView>,
    pub f: Option<Seq<char>>,
    pub s: Option<StyleView>,
}

/// What a cell shows, with texts in place of strings.
pub open spec fn value_view(v: CellValue) -> ValueView {
    match v {
        CellValue::Number(n) => ValueView::Number(n@),
        CellValue::Bool(b) => ValueView::Bool(b),
        CellValue::Text(t) => ValueView::Text(t@),
    }
}

pub open spec fn opt_value_view(v: Option<CellValue>) -> Option<ValueView> {
    match v {
        Some(x) => Some(value_view(x)),
        None => None,
    }
}

pub open spec fn opt_style_view(s: Option<Style>) -> Option<StyleView> {
    match s {
        Some(x) => Some(x@),
        None => None,
    }
}

/// A cell, with texts in place of strings.
pub open spec fn cell_view(c: CellSnapshot) -> CellView {
    CellView {
        r: c.r,
        c: c.c,
        v: opt_value_view(c.v),
        f: crate::style::text_view(c.f),
        s: opt_style_view(c.s),
    }
}

pub open spec fn cell_views(v: Seq<CellSnapshot>) -> Seq<CellView> {
    Seq::new(v.len(), |i: int| cell_view(v[i]))
}

pub open spec fn pair_views(v: Seq<NumPair>) -> Seq<(u32, Seq<char>)> {
    Seq::new(v.len(), |i: int| (v[i].0, v[i].1@))
}

/// A sheet as files carry it.
pub struct SheetView {
    pub name: Seq<char>,
    pub row_count: u32,
    pub col_count: u32,
    pub cells: Seq<CellView>,
    pub spans: Seq<Span>,
    pub row_heights: Seq<(u32, Seq<char>)>,
    pub col_widths: Seq<(u32, Seq<char>)>,
    pub hidden_rows: Seq<u32>,
    pub hidden_cols: Seq<u32>,
    pub row_outlines: Seq<OutlineGroupSnapshot>,
    pub col_outlines: Seq<OutlineGroupSnapshot>,
    pub summary_below: Option<bool>,
    pub summary_right: Option<bool>,
    pub protection: Option<SheetProtection>,
    pub frozen_pane: Option<(u32, u32)>,
    pub page_setup: Option<PageView>,
}

/// A sheet, with texts in place of strings.
pub open spec fn sheet_view(s: SheetSnapshot) -> SheetView {
    SheetView {
        name: s.name@,
        row_count: s.row_count,
        col_count: s.col_count,
        cells: cell_views(s.cells@),
        spans: s.spans@,
        row_heights: pair_views(s.row_heights@),
        col_widths: pair_views(s.col_widths@),
        hidden_rows: s.hidden_rows@,
        hidden_cols: s.hidden_cols@,
        row_outlines: s.row_outlines@,
        col_outlines: s.col_outlines@,
        summary_below: s.summary_below,
        summary_right: s.summary_right,
        protection: s.protection,
        frozen_pane: s.frozen_pane,
        page_setup: opt_page_view(s.page_setup),
    }
}

// ---- cells

/// The text of an inline string.
pub open spec fn inline_text(s: Seq<char>) -> Option<Seq<char>> {
    match find(s, "<is>"@, 0) {
        None => None,
        Some(i) => match find(s, "<t"@, i + "<is>"@.len()) {
            None => None,
            Some(j) => match find_char(s, '>', j + "<t"@.len()) {
                None => None,
                Some(g) => match find(s, "</t>"@, g + 1) {
                    None => None,
                    Some(b) => match find(s, "</is>"@, b + "</t>"@.len()) {
                        None => None,
                        Some(_) => Some(s.subrange(g + 1, b)),
                    },
                },
            },
        },
    }
}

/// The text of a shared string; nothing where there is none.
pub open spec fn shared_text(sst: Seq<Seq<char>>, raw: Seq<char>) -> Seq<char> {
    match parse_unsigned(raw, usize::MAX as nat) {
        Some(i) => if i < sst.len() {
            sst[i as int]
        } else {
            Seq::empty()
        },
        None => Seq::empty(),
    }
}

/// The value that is written as `raw` under a type.
pub open spec fn value_read(raw: Seq<char>, kind: Option<Seq<char>>, sst: Seq<Seq<char>>) -> ValueView {
    if kind == Some("s"@) {
        ValueView::Text(shared_text(sst, raw))
    } else if kind == Some("b"@) {
        ValueView::Bool(raw == "1"@)
    } else if kind == Some("str"@) {
        ValueView::Text(unescaped(raw))
    } else if raw.len() == 0 {
        ValueView::Text(raw)
    } else if is_number_text(raw) {
        ValueView::Number(raw)
    } else {
        ValueView::Text(unescaped(raw))
    }
}

/// The value of a cell.
pub open spec fn cell_value_read(inner: Seq<char>, kind: Option<Seq<char>>, sst: Seq<Seq<char>>) -> Option<
    ValueView,
> {
    match inline_text(inner) {
        Some(t) => Some(ValueView::Text(unescaped(t))),
        None => match first_enclosed(inner, "<v>"@, "</v>"@) {
            Some(raw) => Some(value_read(raw, kind, sst)),
            None => None,
        },
    }
}

/// The style of a cell; none where its cell format says nothing.
pub open spec fn cell_style_read(attrs: Seq<char>, xf: Seq<StyleView>) -> Option<StyleView> {
    let i = attr_id(attrs, "s"@, usize::MAX as nat);
    if i < xf.len() && xf[i as int] != empty_view() {
        Some(xf[i as int])
    } else {
        None
    }
}

/// The cell that is written with attributes and an inside; none where it has no address.
pub open spec fn cell_read(
    attrs: Seq<char>,
    inner: Seq<char>,
    sst: Seq<Seq<char>>,
    xf: Seq<StyleView>,
) -> Option<CellView> {
    match attr_of(attrs, "r"@) {
        None => None,
        Some(a) => match spec_parse_addr(a) {
            None => None,
            Some((row, col)) => Some(
                CellView {
                    r: row as u32,
                    c: col as u32,
                    v: cell_value_read(inner, attr_of(attrs, "t"@), sst),
                    f: match first_element(inner, "<f"@, "</f>"@) {
                        Some(t) => Some(unescaped(t)),
                        None => None,
                    },
                    s: cell_style_read(attrs, xf),
                },
            ),
        },
    }
}

/// Whether a cell holds anything.
pub open spec fn holds(c: CellView) -> bool {
    c.v is Some || c.f is Some || c.s is Some
}

pub open spec fn max_of(a: u32, b: u32) -> u32 {
    if a < b {
        b
    } else {
        a
    }
}

/// What has been read of a sheet's rows.
pub struct RowsRead {
    pub cells: Seq<CellView>,
    pub max_row: u32,
    pub max_col: u32,
    pub heights: Seq<(u32, Seq<char>)>,
    pub hidden: Seq<u32>,
    pub levels: Seq<(u32, u32)>,
    pub collapsed: Seq<u32>,
}

/// The cells of a row put behind what has been read.
pub open spec fn cells_read(
    st: RowsRead,
    recs: Seq<(Seq<char>, Seq<char>)>,
    sst: Seq<Seq<char>>,
    xf: Seq<StyleView>,
) -> RowsRead
    decreases recs.len(),
{
    if recs.len() == 0 {
        st
    } else {
        let p = cells_read(st, recs.drop_last(), sst, xf);
        match cell_read(recs.last().0, recs.last().1, sst, xf) {
            None => p,
            Some(c) => RowsRead {
                cells: if holds(c) {
                    p.cells.push(c)
                } else {
                    p.cells
                },
                max_col: max_of(p.max_col, c.c),
                ..p
            },
        }
    }
}

/// A row's own attributes put behind what has been read. `i` is the row's index.
pub open spec fn row_attrs_read(st: RowsRead, attrs: Seq<char>, i: u32) -> RowsRead {
    RowsRead {
        max_row: max_of(st.max_row, i),
        heights: match attr_of(attrs, "ht"@) {
            Some(t) if attr_is(attrs, "customHeight"@, "1"@) && is_number_text(t) => st.heights.push(
                (i, t),
            ),
            _ => st.heights,
        },
        hidden: if attr_is(attrs, "hidden"@, "1"@) {
            st.hidden.push(i)
        } else {
            st.hidden
        },
        levels: if attr_id(attrs, "outlineLevel"@, 0xffff_ffff) > 0 {
            st.levels.push((i, attr_id(attrs, "outlineLevel"@, 0xffff_ffff) as u32))
        } else {
            st.levels
        },
        collapsed: if attr_is(attrs, "collapsed"@, "1"@) {
            st.collapsed.push(i)
        } else {
            st.collapsed
        },
        ..st
    }
}

pub open spec fn no_rows_read() -> RowsRead {
    RowsRead {
        cells: Seq::empty(),
        max_row: 0,
        max_col: 0,
        heights: Seq::empty(),
        hidden: Seq::empty(),
        levels: Seq::empty(),
        collapsed: Seq::empty(),
    }
}

/// What rows hold. A row without a number is passed over; there is no row 0.
pub open spec fn rows_read(
    recs: Seq<(Seq<char>, Seq<char>)>,
    sst: Seq<Seq<char>>,
    xf: Seq<StyleView>,
) -> Option<RowsRead>
    decreases recs.len(),
{
    if recs.len() == 0 {
        Some(no_rows_read())
    } else {
        match rows_read(recs.drop_last(), sst, xf) {
            None => None,
            Some(p) => match attr_number(recs.last().0, "r"@, 0xffff_ffff) {
                None => Some(p),
                Some(r) => if r == 0 {
                    None
                } else {
                    Some(
                        cells_read(
                            row_attrs_read(p, recs.last().0, (r - 1) as u32),
                            records(recs.last().1, "<c"@, "</c>"@, 0),
                            sst,
                            xf,
                        ),
                    )
                },
            },
        }
    }
}

// ---- columns

/// What has been read of a sheet's columns.
pub struct ColsRead {
    pub max_col: u32,
    pub widths: Seq<(u32, Seq<char>)>,
    pub hidden: Seq<u32>,
    pub levels: Seq<(u32, u32)>,
    pub collapsed: Seq<u32>,
}

/// One column put behind what has been read.
pub open spec fn col_read(st: ColsRead, attrs: Seq<char>, c: u32) -> ColsRead {
    ColsRead {
        max_col: max_of(st.max_col, c),
        widths: match attr_of(attrs, "width"@) {
            Some(t) if attr_is(attrs, "customWidth"@, "1"@) && is_number_text(t) => st.widths.push(
                (c, t),
            ),
            _ => st.widths,
        },
        hidden: if attr_is(attrs, "hidden"@, "1"@) {
            st.hidden.push(c)
        } else {
            st.hidden
        },
        levels: if attr_id(attrs, "outlineLevel"@, 0xffff_ffff) > 0 {
            st.levels.push((c, attr_id(attrs, "outlineLevel"@, 0xffff_ffff) as u32))
        } else {
            st.levels
        },
        collapsed: if attr_is(attrs, "collapsed"@, "1"@) {
            st.collapsed.push(c)
        } else {
            st.collapsed
        },
    }
}

/// The columns from `min` up to `end` put behind what has been read.
pub open spec fn col_range_read(st: ColsRead, attrs: Seq<char>, min: int, end: int) -> ColsRead
    decreases end - min,
{
    if end <= min {
        st
    } else {
        col_read(col_range_read(st, attrs, min, end - 1), attrs, (end - 1) as u32)
    }
}

/// The number of an attribute; 1 where it has none.
pub open spec fn attr_or_one(tag: Seq<char>, name: Seq<char>) -> nat {
    match attr_number(tag, name, 0xffff_ffff) {
        Some(n) => n,
        None => 1,
    }
}

/// What columns hold. There is no column 0.
pub open spec fn cols_read(tags: Seq<Seq<char>>, max_col: u32) -> Option<ColsRead>
    decreases tags.len(),
{
    if tags.len() == 0 {
        Some(
            ColsRead {
                max_col,
                widths: Seq::empty(),
                hidden: Seq::empty(),
                levels: Seq::empty(),
                collapsed: Seq::empty(),
            },
        )
    } else {
        match cols_read(tags.drop_last(), max_col) {
            None => None,
            Some(p) => {
                let min = attr_or_one(tags.last(), "min"@);
                let max = attr_or_one(tags.last(), "max"@);
                if min == 0 || max == 0 {
                    None
                } else {
                    Some(col_range_read(p, tags.last(), min - 1, max as int))
                }
            },
        }
    }
}

// ---- merged cells and the size

/// The two ends of a reference `A1:B2`; of one without `:`, both are the reference.
pub open spec fn ref_ends(s: Seq<char>) -> (Seq<char>, Seq<char>) {
    match find_char(s, ':', 0) {
        None => (s, s),
        Some(i) => (
            s.take(i),
            match find_char(s, ':', i + 1) {
                None => s.skip(i + 1),
                Some(j) => s.subrange(i + 1, j),
            },
        ),
    }
}

pub open spec fn apart(a: int, b: int) -> int {
    if a < b {
        b - a
    } else {
        a - b
    }
}

/// What has been read of merged cells, with the highest row and column.
pub struct MergesRead {
    pub spans: Seq<Span>,
    pub max_row: u32,
    pub max_col: u32,
}

/// What references to merged cells stand for. Those without two addresses are passed over; more
/// columns than can be counted stand for nothing at all.
pub open spec fn merges_read(refs: Seq<Seq<char>>, max_row: u32, max_col: u32) -> Option<MergesRead>
    decreases refs.len(),
{
    if refs.len() == 0 {
        Some(MergesRead { spans: Seq::empty(), max_row, max_col })
    } else {
        match merges_read(refs.drop_last(), max_row, max_col) {
            None => None,
            Some(p) => {
                let (a, b) = ref_ends(refs.last());
                match (spec_parse_addr(a), spec_parse_addr(b)) {
                    (Some((ar, ac)), Some((br, bc))) => if apart(ac, bc) >= u32::MAX || apart(ar, br)
                        >= u32::MAX {
                        None
                    } else {
                        Some(
                            MergesRead {
                                spans: p.spans.push(
                                    Span {
                                        row: if ar < br {
                                            ar as u32
                                        } else {
                                            br as u32
                                        },
                                        col: if ac < bc {
                                            ac as u32
                                        } else {
                                            bc as u32
                                        },
                                        row_count: (apart(ar, br) + 1) as u32,
                                        col_count: (apart(ac, bc) + 1) as u32,
                                    },
                                ),
                                max_row: max_of(max_of(p.max_row, ar as u32), br as u32),
                                max_col: max_of(max_of(p.max_col, ac as u32), bc as u32),
                            },
                        )
                    },
                    _ => Some(p),
                }
            },
        }
    }
}

/// What stands behind the last `:` of a text.
pub open spec fn last_end(s: Seq<char>) -> Seq<char>
    decreases s.len(),
{
    match find_char(s, ':', 0) {
        None => s,
        Some(i) => if 0 <= i < s.len() {
            last_end(s.skip(i + 1))
        } else {
            s
        },
    }
}

/// The row and the column of the last cell that the size names.
pub open spec fn dimension_read(xml: Seq<char>) -> (u32, u32) {
    match first_tag_ref(xml, "<dimension"@, "ref=\""@) {
        None => (0, 0),
        Some(d) => match spec_parse_addr(last_end(d)) {
            None => (0, 0),
            Some((r, c)) => (r as u32, c as u32),
        },
    }
}

// ---- sheets

/// Whether summaries stand behind their details.
pub open spec fn summary_read(xml: Seq<char>, name: Seq<char>) -> bool {
    match first_closed_tag(xml, "<outlinePr"@) {
        Some(a) => !attr_is(a, name, "0"@),
        None => true,
    }
}

/// The rows and columns that stay in view.
pub open spec fn pane_read(xml: Seq<char>) -> Option<(u32, u32)> {
    match first_closed_tag(xml, "<pane"@) {
        Some(a) => {
            let x = attr_id(a, "xSplit"@, 0xffff_ffff);
            let y = attr_id(a, "ySplit"@, 0xffff_ffff);
            if x > 0 || y > 0 {
                Some((y as u32, x as u32))
            } else {
                None
            }
        },
        None => None,
    }
}

/// The protection of a sheet.
pub open spec fn protection_read(xml: Seq<char>) -> Option<SheetProtection> {
    match first_open_tag(xml, "<sheetProtection"@) {
        Some(a) => if occurs(a, "sheet=\"1\""@) {
            Some(
                SheetProtection {
                    enabled: true,
                    allow_sort: Some(occurs(a, "sort=\"0\""@)),
                    allow_filter: Some(occurs(a, "autoFilter=\"0\""@)),
                    allow_format_cells: Some(occurs(a, "formatCells=\"0\""@)),
                    allow_insert_delete: None,
                    allow_select_locked: None,
                },
            )
        } else {
            None
        },
        None => None,
    }
}

/// What cells are ordered by: their row, then their column.
pub open spec fn view_keys(cells: Seq<CellView>) -> Seq<u64> {
    Seq::new(cells.len(), |i: int| (cells[i].r * 0x1_0000_0000 + cells[i].c) as u64)
}

/// Cells by row, then by column.
pub open spec fn sorted_views(cells: Seq<CellView>) -> Seq<CellView> {
    let o = stable_order(view_keys(cells), cells.len());
    Seq::new(o.len(), |i: int| cells[o[i]])
}

/// What is read of the merged cells of a sheet.
pub open spec fn sheet_merges(xml: Seq<char>, max_row: u32, max_col: u32) -> Option<MergesRead> {
    match block_opt(xml, "mergeCells"@) {
        Some(b) => merges_read(tag_refs(b, "<mergeCell"@, "ref=\""@), max_row, max_col),
        None => Some(MergesRead { spans: Seq::empty(), max_row, max_col }),
    }
}

/// What is read of the columns of a sheet.
pub open spec fn sheet_cols(xml: Seq<char>, max_col: u32) -> Option<ColsRead> {
    match block_opt(xml, "cols"@) {
        Some(b) => cols_read(short_tags(b, "<col"@), max_col),
        None => cols_read(Seq::empty(), max_col),
    }
}

/// The sheet that a part holds. Nothing comes of one whose rows and columns do not count as they
/// should: a row or a column 0, an outline without room for its summary, too many columns.
pub open spec fn sheet_read(
    xml: Seq<char>,
    name: Seq<char>,
    sst: Seq<Seq<char>>,
    xf: Seq<StyleView>,
) -> Option<SheetView> {
    let below = summary_read(xml, "summaryBelow"@);
    let right = summary_read(xml, "summaryRight"@);
    match rows_read(records(block_text(xml, "sheetData"@), "<row"@, "</row>"@, 0), sst, xf) {
        None => None,
        Some(rows) => match sheet_cols(xml, rows.max_col) {
            None => None,
            Some(cols) => match sheet_merges(xml, rows.max_row, cols.max_col) {
                None => None,
                Some(m) => {
                    let max_row = max_of(m.max_row, dimension_read(xml).0);
                    let max_col = max_of(m.max_col, dimension_read(xml).1);
                    if max_row == u32::MAX || max_col == u32::MAX || !levels_fit(rows.levels, below)
                        || !levels_fit(cols.levels, right) {
                        None
                    } else {
                        Some(
                            SheetView {
                                name,
                                row_count: (max_row + 1) as u32,
                                col_count: (max_col + 1) as u32,
                                cells: sorted_views(rows.cells),
                                spans: m.spans,
                                row_heights: rows.heights,
                                col_widths: cols.widths,
                                hidden_rows: rows.hidden,
                                hidden_cols: cols.hidden,
                                row_outlines: groups_of_levels(rows.levels, rows.collapsed, below),
                                col_outlines: groups_of_levels(cols.levels, cols.collapsed, right),
                                summary_below: if below {
                                    None
                                } else {
                                    Some(false)
                                },
                                summary_right: if right {
                                    None
                                } else {
                                    Some(false)
                                },
                                protection: protection_read(xml),
                                frozen_pane: pane_read(xml),
                                page_setup: page_read(xml),
                            },
                        )
                    }
                },
            },
        },
    }
}

// ---- executable: cells

fn find_str(s: &Vec<char>, pat: &str, from: usize) -> (r: Option<usize>)
    ensures
        opt_pos(r) == find(s@, pat@, from as int),
        r matches Some(p) ==> from <= p && p + pat@.len() <= s.len(),
{
    let p: Vec<char> = chars_of(pat);
    find_text(s, &p, from)
}

fn parse_inline(s: &Vec<char>) -> (r: Option<String>)
    ensures
        match inline_text(s@) {
            Some(t) => r matches Some(x) && x@ == t,
            None => r is None,
        },
{
    proof {
        reveal_strlit("<is>");
        reveal_strlit("<t");
        reveal_strlit("</t>");
    }
    let i: usize = match find_str(s, "<is>", 0) {
        Some(i) => i,
        None => {
            return None;
        },
    };
    let j: usize = match find_str(s, "<t", i + 4) {
        Some(j) => j,
        None => {
            return None;
        },
    };
    let g: usize = match position_of(s, '>', j + 2) {
        Some(g) => g,
        None => {
            return None;
        },
    };
    let b: usize = match find_str(s, "</t>", g + 1) {
        Some(b) => b,
        None => {
            return None;
        },
    };
    match find_str(s, "</is>", b + 4) {
        Some(_) => Some(slice_string(s, g + 1, b)),
        None => None,
    }
}

/// What first stands between texts.
fn enclosed_first(s: &Vec<char>, open_text: &str, close: &str) -> (r: Option<String>)
    requires
        open_text@.len() > 0,
    ensures
        match first_enclosed(s@, open_text@, close@) {
            Some(t) => r matches Some(x) && x@ == t,
            None => r is None,
        },
{
    let p = Pattern::Enclosed(chars_of(open_text), chars_of(close));
    let ghost f = |i: int| pattern_at(p, s@, i);
    let ghost g = |i: int| enclosed(s@, open_text@, close@, i);
    assert(f =~= g);
    first_match(&p, s)
}

fn element_first(s: &Vec<char>, open_tag: &str, close: &str) -> (r: Option<String>)
    ensures
        match first_element(s@, open_tag@, close@) {
            Some(t) => r matches Some(x) && x@ == t,
            None => r is None,
        },
{
    let p = Pattern::Element(chars_of(open_tag), chars_of(close));
    let ghost f = |i: int| pattern_at(p, s@, i);
    let ghost g = |i: int| element(s@, open_tag@, close@, i);
    assert(f =~= g);
    first_match(&p, s)
}

fn parse_value(raw: String, kind: &Option<String>, sst: &Vec<String>) -> (r: CellValue)
    ensures
        value_view(r) == value_read(raw@, crate::style::text_view(*kind), texts(sst@)),
{
    let (is_s, is_b, is_str) = match kind {
        Some(k) => (
            same_text(k.as_str(), "s"),
            same_text(k.as_str(), "b"),
            same_text(k.as_str(), "str"),
        ),
        None => (false, false, false),
    };
    if is_s {
        let chars: Vec<char> = chars_of(raw.as_str());
        let mut out: String = String::new();
        if let Some(i) = read_unsigned(&chars, usize::MAX as u64) {
            if i < sst.len() as u64 {
                assert(texts(sst@)[i as int] == sst@[i as int]@);
                out = sst[i as usize].clone();
            }
        }
        return CellValue::Text(out);
    }
    if is_b {
        return CellValue::Bool(same_text(raw.as_str(), "1"));
    }
    if is_str {
        return CellValue::Text(unesc(raw.as_str()));
    }
    if raw.as_str().is_empty() {
        return CellValue::Text(raw);
    }
    if number_text(raw.as_str()) {
        CellValue::Number(raw)
    } else {
        CellValue::Text(unesc(raw.as_str()))
    }
}

fn parse_cell(rec: &Record, sst: &Vec<String>, styles: &ParsedStyles) -> (r: Option<CellSnapshot>)
    ensures
        match cell_read(rec.attrs@, rec.inner@, texts(sst@), style_views(styles.xf@)) {
            Some(c) => r matches Some(x) && cell_view(x) == c,
            None => r is None,
        },
{
    proof {
        reveal_strlit("<v>");
    }
    let a: &str = rec.attrs.as_str();
    let cref: String = match attr(a, "r") {
        Some(t) => t,
        None => {
            return None;
        },
    };
    let coord: CellCoord = match parse_addr(cref.as_str()) {
        Some(c) => c,
        None => {
            return None;
        },
    };
    let kind: Option<String> = attr(a, "t");
    let inner: Vec<char> = chars_of(rec.inner.as_str());
    let f: Option<String> = match element_first(&inner, "<f", "</f>") {
        Some(t) => Some(unesc(t.as_str())),
        None => None,
    };
    let v: Option<CellValue> = match parse_inline(&inner) {
        Some(t) => Some(CellValue::Text(unesc(t.as_str()))),
        None => match enclosed_first(&inner, "<v>", "</v>") {
            Some(raw) => Some(parse_value(raw, &kind, sst)),
            None => None,
        },
    };
    assert(opt_value_view(v) == cell_value_read(
        rec.inner@,
        attr_of(rec.attrs@, "t"@),
        texts(sst@),
    ));
    let i: u64 = match number_attr(a, "s", usize::MAX as u64) {
        Some(n) => n,
        None => 0,
    };
    let ghost xf = style_views(styles.xf@);
    let mut s: Option<Style> = None;
    if i < styles.xf.len() as u64 {
        let st: &Style = &styles.xf[i as usize];
        assert(xf[i as int] == st@);
        proof {
            empty_says_nothing(*st);
        }
        if !st.is_empty() {
            s = Some(st.copied());
        }
    }
    assert(opt_style_view(s) == cell_style_read(rec.attrs@, xf));
    Some(CellSnapshot { r: coord.row, c: coord.col, v, f, s, rich: None })
}

// ---- executable: rows

struct RowsState {
    cells: Vec<CellSnapshot>,
    max_row: u32,
    max_col: u32,
    heights: Vec<NumPair>,
    hidden: Vec<u32>,
    levels: Vec<(u32, u32)>,
    collapsed: Vec<u32>,
}

spec fn rows_state(s: RowsState) -> RowsRead {
    RowsRead {
        cells: cell_views(s.cells@),
        max_row: s.max_row,
        max_col: s.max_col,
        heights: pair_views(s.heights@),
        hidden: s.hidden@,
        levels: s.levels@,
        collapsed: s.collapsed@,
    }
}

fn larger(a: u32, b: u32) -> (r: u32)
    ensures
        r == max_of(a, b),
{
    if a < b {
        b
    } else {
        a
    }
}

fn push_pair(v: &mut Vec<NumPair>, i: u32, t: String)
    ensures
        pair_views(final(v)@) == pair_views(old(v)@).push((i, t@)),
{
    let ghost before = pair_views(v@);
    let ghost tt = t@;
    v.push(NumPair(i, t));
    assert(pair_views(v@) == before.push((i, tt)));
}

/// The numeral of an attribute, where another one says that it counts.
fn numeral_attr(a: &str, name: &str, flag: &str) -> (r: Option<String>)
    ensures
        match attr_of(a@, name@) {
            Some(t) if attr_is(a@, flag@, "1"@) && is_number_text(t) => r matches Some(x) && x@ == t,
            _ => r is None,
        },
{
    if is_attr(a, flag, "1") {
        if let Some(t) = attr(a, name) {
            if number_text(t.as_str()) {
                return Some(t);
            }
        }
    }
    None
}

fn parse_row_attrs(st: &mut RowsState, attrs: &str, i: u32)
    ensures
        rows_state(*final(st)) == row_attrs_read(rows_state(*old(st)), attrs@, i),
{
    st.max_row = larger(st.max_row, i);
    if let Some(t) = numeral_attr(attrs, "ht", "customHeight") {
        push_pair(&mut st.heights, i, t);
    }
    if is_attr(attrs, "hidden", "1") {
        st.hidden.push(i);
    }
    if let Some(l) = number_attr(attrs, "outlineLevel", 0xffff_ffff) {
        if l > 0 {
            st.levels.push((i, l as u32));
        }
    }
    if is_attr(attrs, "collapsed", "1") {
        st.collapsed.push(i);
    }
}

fn parse_row_cells(st: &mut RowsState, inner: &str, sst: &Vec<String>, styles: &ParsedStyles)
    ensures
        rows_state(*final(st)) == cells_read(
            rows_state(*old(st)),
            records(inner@, "<c"@, "</c>"@, 0),
            texts(sst@),
            style_views(styles.xf@),
        ),
{
    let recs: Vec<Record> = records_of(inner, "<c", "</c>");
    let ghost all = record_texts(recs@);
    let ghost st0 = rows_state(*st);
    let ghost sv = texts(sst@);
    let ghost xv = style_views(styles.xf@);
    let mut i: usize = 0;
    assert(all.take(0) == Seq::<(Seq<char>, Seq<char>)>::empty());
    while i < recs.len()
        invariant
            i <= recs.len(),
            all == record_texts(recs@),
            sv == texts(sst@),
            xv == style_views(styles.xf@),
            rows_state(*st) == cells_read(st0, all.take(i as int), sv, xv),
        decreases recs.len() - i,
    {
        let ghost p = rows_state(*st);
        assert(all.take(i + 1).drop_last() == all.take(i as int));
        assert(all.take(i + 1).last() == (recs@[i as int].attrs@, recs@[i as int].inner@));
        if let Some(c) = parse_cell(&recs[i], sst, styles) {
            let ghost cv = cell_view(c);
            st.max_col = larger(st.max_col, c.c);
            if c.v.is_some() || c.f.is_some() || c.s.is_some() {
                st.cells.push(c);
                assert(cell_views(st.cells@) == p.cells.push(cv));
            }
        }
        i = i + 1;
    }
    assert(all.take(i as int) == all);
}

fn parse_rows(xml: &str, sst: &Vec<String>, styles: &ParsedStyles) -> (r: Option<RowsState>)
    ensures
        match rows_read(
            records(block_text(xml@, "sheetData"@), "<row"@, "</row>"@, 0),
            texts(sst@),
            style_views(styles.xf@),
        ) {
            Some(x) => r matches Some(y) && rows_state(y) == x,
            None => r is None,
        },
{
    let data: String = block_or_empty(xml, "sheetData");
    let recs: Vec<Record> = records_of(data.as_str(), "<row", "</row>");
    let ghost all = record_texts(recs@);
    let ghost sv = texts(sst@);
    let ghost xv = style_views(styles.xf@);
    let mut st = RowsState {
        cells: Vec::new(),
        max_row: 0,
        max_col: 0,
        heights: Vec::new(),
        hidden: Vec::new(),
        levels: Vec::new(),
        collapsed: Vec::new(),
    };
    assert(cell_views(st.cells@) == Seq::<CellView>::empty());
    assert(pair_views(st.heights@) == Seq::<(u32, Seq<char>)>::empty());
    assert(all.take(0) == Seq::<(Seq<char>, Seq<char>)>::empty());
    let mut i: usize = 0;
    while i < recs.len()
        invariant
            i <= recs.len(),
            all == record_texts(recs@),
            all == records(block_text(xml@, "sheetData"@), "<row"@, "</row>"@, 0),
            sv == texts(sst@),
            xv == style_views(styles.xf@),
            rows_read(all.take(i as int), sv, xv) == Some(rows_state(st)),
        decreases recs.len() - i,
    {
        assert(all.take(i + 1).drop_last() == all.take(i as int));
        assert(all.take(i + 1).last() == (recs@[i as int].attrs@, recs@[i as int].inner@));
        if let Some(n) = number_attr(recs[i].attrs.as_str(), "r", 0xffff_ffff) {
            if n == 0 {
                proof {
                    rows_read_fails(all, (i + 1) as nat, sv, xv);
                }
                return None;
            }
            parse_row_attrs(&mut st, recs[i].attrs.as_str(), (n - 1) as u32);
            parse_row_cells(&mut st, recs[i].inner.as_str(), sst, styles);
        }
        i = i + 1;
    }
    assert(all.take(i as int) == all);
    Some(st)
}

proof fn rows_read_fails(
    recs: Seq<(Seq<char>, Seq<char>)>,
    n: nat,
    sst: Seq<Seq<char>>,
    xf: Seq<StyleView>,
)
    requires
        n <= recs.len(),
        rows_read(recs.take(n as int), sst, xf) is None,
    ensures
        rows_read(recs, sst, xf) is None,
    decreases recs.len() - n,
{
    if n < recs.len() {
        assert(recs.take(n as int + 1).drop_last() == recs.take(n as int));
        rows_read_fails(recs, n + 1, sst, xf);
    } else {
        assert(recs.take(n as int) == recs);
    }
}

// ---- executable: columns

struct ColsState {
    max_col: u32,
    widths: Vec<NumPair>,
    hidden: Vec<u32>,
    levels: Vec<(u32, u32)>,
    collapsed: Vec<u32>,
}

spec fn cols_state(s: ColsState) -> ColsRead {
    ColsRead {
        max_col: s.max_col,
        widths: pair_views(s.widths@),
        hidden: s.hidden@,
        levels: s.levels@,
        collapsed: s.collapsed@,
    }
}

fn parse_col_range(st: &mut ColsState, a: &str, min: u32, end: u32)
    ensures
        cols_state(*final(st)) == col_range_read(cols_state(*old(st)), a@, min as int, end as int),
{
    let width: Option<String> = numeral_attr(a, "width", "customWidth");
    let hidden = is_attr(a, "hidden", "1");
    let level: u64 = match number_attr(a, "outlineLevel", 0xffff_ffff) {
        Some(n) => n,
        None => 0,
    };
    let collapsed = is_attr(a, "collapsed", "1");
    let ghost st0 = cols_state(*st);
    let mut c: u32 = min;
    while c < end
        invariant
            min <= c,
            c <= end || c == min,
            cols_state(*st) == col_range_read(st0, a@, min as int, c as int),
            match attr_of(a@, "width"@) {
                Some(t) if attr_is(a@, "customWidth"@, "1"@) && is_number_text(t) => width matches Some(x)
                    && x@ == t,
                _ => width is None,
            },
            hidden == attr_is(a@, "hidden"@, "1"@),
            level == attr_id(a@, "outlineLevel"@, 0xffff_ffff),
            level <= 0xffff_ffff,
            collapsed == attr_is(a@, "collapsed"@, "1"@),
        decreases end - c,
    {
        if let Some(w) = &width {
            push_pair(&mut st.widths, c, w.clone());
        }
        if hidden {
            st.hidden.push(c);
        }
        if level > 0 {
            st.levels.push((c, level as u32));
        }
        if collapsed {
            st.collapsed.push(c);
        }
        st.max_col = larger(st.max_col, c);
        c = c + 1;
    }
}

proof fn cols_read_fails(tags: Seq<Seq<char>>, n: nat, max_col: u32)
    requires
        n <= tags.len(),
        cols_read(tags.take(n as int), max_col) is None,
    ensures
        cols_read(tags, max_col) is None,
    decreases tags.len() - n,
{
    if n < tags.len() {
        assert(tags.take(n as int + 1).drop_last() == tags.take(n as int));
        cols_read_fails(tags, n + 1, max_col);
    } else {
        assert(tags.take(n as int) == tags);
    }
}

fn parse_cols(xml: &str, max_col: u32) -> (r: Option<ColsState>)
    ensures
        match sheet_cols(xml@, max_col) {
            Some(x) => r matches Some(y) && cols_state(y) == x,
            None => r is None,
        },
{
    let mut st = ColsState {
        max_col,
        widths: Vec::new(),
        hidden: Vec::new(),
        levels: Vec::new(),
        collapsed: Vec::new(),
    };
    assert(pair_views(st.widths@) == Seq::<(u32, Seq<char>)>::empty());
    let b: String = match block(xml, "cols") {
        Some(b) => b,
        None => {
            return Some(st);
        },
    };
    let chars: Vec<char> = chars_of(b.as_str());
    let tags: Vec<String> = short_tags_all(&chars, "<col");
    let ghost all = texts(tags@);
    assert(all.take(0) == Seq::<Seq<char>>::empty());
    let mut i: usize = 0;
    while i < tags.len()
        invariant
            i <= tags.len(),
            all == texts(tags@),
            sheet_cols(xml@, max_col) == cols_read(all, max_col),
            cols_read(all.take(i as int), max_col) == Some(cols_state(st)),
        decreases tags.len() - i,
    {
        assert(all.take(i + 1).drop_last() == all.take(i as int));
        assert(all.take(i + 1).last() == tags@[i as int]@);
        let a: &str = tags[i].as_str();
        let min: u64 = match number_attr(a, "min", 0xffff_ffff) {
            Some(n) => n,
            None => 1,
        };
        let max: u64 = match number_attr(a, "max", 0xffff_ffff) {
            Some(n) => n,
            None => 1,
        };
        if min == 0 || max == 0 {
            proof {
                cols_read_fails(all, (i + 1) as nat, max_col);
            }
            return None;
        }
        parse_col_range(&mut st, a, (min - 1) as u32, max as u32);
        i = i + 1;
    }
    assert(all.take(i as int) == all);
    Some(st)
}

// ---- executable: merged cells and the size

fn split_ref(s: &str) -> (r: (String, String))
    ensures
        (r.0@, r.1@) == ref_ends(s@),
{
    let chars: Vec<char> = chars_of(s);
    match position_of(&chars, ':', 0) {
        None => (s.to_string(), s.to_string()),
        Some(i) => {
            let a: String = slice_string(&chars, 0, i);
            let end: usize = match position_of(&chars, ':', i + 1) {
                Some(j) => j,
                None => chars.len(),
            };
            let b: String = slice_string(&chars, i + 1, end);
            assert(a@ == s@.take(i as int));
            assert(end == chars@.len() ==> b@ == s@.skip(i + 1));
            (a, b)
        },
    }
}

fn difference(a: u32, b: u32) -> (r: u32)
    ensures
        r == apart(a as int, b as int),
{
    if a < b {
        b - a
    } else {
        a - b
    }
}

fn smaller(a: u32, b: u32) -> (r: u32)
    ensures
        r == (if a < b {
            a
        } else {
            b
        }),
{
    if a < b {
        a
    } else {
        b
    }
}

struct MergesState {
    spans: Vec<Span>,
    max_row: u32,
    max_col: u32,
}

spec fn merges_state(s: MergesState) -> MergesRead {
    MergesRead { spans: s.spans@, max_row: s.max_row, max_col: s.max_col }
}

proof fn merges_read_fails(refs: Seq<Seq<char>>, n: nat, max_row: u32, max_col: u32)
    requires
        n <= refs.len(),
        merges_read(refs.take(n as int), max_row, max_col) is None,
    ensures
        merges_read(refs, max_row, max_col) is None,
    decreases refs.len() - n,
{
    if n < refs.len() {
        assert(refs.take(n as int + 1).drop_last() == refs.take(n as int));
        merges_read_fails(refs, n + 1, max_row, max_col);
    } else {
        assert(refs.take(n as int) == refs);
    }
}

fn tag_refs_of(s: &Vec<char>, open_tag: &str, key: &str) -> (r: Vec<String>)
    ensures
        texts(r@) == tag_refs(s@, open_tag@, key@),
{
    let p = Pattern::Ref(chars_of(open_tag), chars_of(key));
    let ghost f = |i: int| pattern_at(p, s@, i);
    let ghost g = |i: int| tag_ref(s@, open_tag@, key@, i);
    assert(f =~= g);
    all_matches(&p, s)
}

fn tag_ref_of(s: &Vec<char>, open_tag: &str, key: &str) -> (r: Option<String>)
    ensures
        match first_tag_ref(s@, open_tag@, key@) {
            Some(t) => r matches Some(x) && x@ == t,
            None => r is None,
        },
{
    let p = Pattern::Ref(chars_of(open_tag), chars_of(key));
    let ghost f = |i: int| pattern_at(p, s@, i);
    let ghost g = |i: int| tag_ref(s@, open_tag@, key@, i);
    assert(f =~= g);
    first_match(&p, s)
}

fn parse_merges(xml: &str, max_row: u32, max_col: u32) -> (r: Option<MergesState>)
    ensures
        match sheet_merges(xml@, max_row, max_col) {
            Some(x) => r matches Some(y) && merges_state(y) == x,
            None => r is None,
        },
{
    let mut st = MergesState { spans: Vec::new(), max_row, max_col };
    let b: String = match block(xml, "mergeCells") {
        Some(b) => b,
        None => {
            assert(st.spans@ == Seq::<Span>::empty());
            return Some(st);
        },
    };
    let chars: Vec<char> = chars_of(b.as_str());
    let refs: Vec<String> = tag_refs_of(&chars, "<mergeCell", "ref=\"");
    let ghost all = texts(refs@);
    assert(all.take(0) == Seq::<Seq<char>>::empty());
    assert(st.spans@ == Seq::<Span>::empty());
    let mut i: usize = 0;
    while i < refs.len()
        invariant
            i <= refs.len(),
            all == texts(refs@),
            sheet_merges(xml@, max_row, max_col) == merges_read(all, max_row, max_col),
            merges_read(all.take(i as int), max_row, max_col) == Some(merges_state(st)),
        decreases refs.len() - i,
    {
        assert(all.take(i + 1).drop_last() == all.take(i as int));
        assert(all.take(i + 1).last() == refs@[i as int]@);
        let (a, b) = split_ref(refs[i].as_str());
        let ca: Option<CellCoord> = parse_addr(a.as_str());
        let cb: Option<CellCoord> = parse_addr(b.as_str());
        if let (Some(x), Some(y)) = (ca, cb) {
            let rows: u32 = difference(x.row, y.row);
            let cols: u32 = difference(x.col, y.col);
            if rows == u32::MAX || cols == u32::MAX {
                proof {
                    merges_read_fails(all, (i + 1) as nat, max_row, max_col);
                }
                return None;
            }
            st.spans.push(
                Span {
                    row: smaller(x.row, y.row),
                    col: smaller(x.col, y.col),
                    row_count: rows + 1,
                    col_count: cols + 1,
                },
            );
            st.max_row = larger(larger(st.max_row, x.row), y.row);
            st.max_col = larger(larger(st.max_col, x.col), y.col);
        }
        i = i + 1;
    }
    assert(all.take(i as int) == all);
    Some(st)
}

fn end_of_ref(s: &str) -> (r: String)
    ensures
        r@ == last_end(s@),
{
    let chars: Vec<char> = chars_of(s);
    let mut from: usize = 0;
    assert(chars@.skip(0) == chars@);
    loop
        invariant
            from <= chars.len(),
            chars@ == s@,
            last_end(s@) == last_end(chars@.skip(from as int)),
        decreases chars.len() - from,
    {
        proof {
            find_char_shift(chars@, ':', from as int, 0);
        }
        match position_of(&chars, ':', from) {
            Some(i) => {
                let ghost t = chars@.skip(from as int);
                assert(t.skip(i - from + 1) == chars@.skip(i + 1));
                from = i + 1;
            },
            None => {
                let r: String = slice_string(&chars, from, chars.len());
                assert(r@ == chars@.skip(from as int));
                return r;
            },
        }
    }
}

proof fn find_char_shift(s: Seq<char>, c: char, i: int, k: int)
    requires
        0 <= i <= s.len(),
        0 <= k,
    ensures
        match find_char(s.skip(i), c, k) {
            Some(p) => find_char(s, c, i + k) == Some(p + i) && k <= p < s.len() - i,
            None => find_char(s, c, i + k) is None,
        },
    decreases s.len() - i - k,
{
    if i + k < s.len() && s[i + k] != c {
        find_char_shift(s, c, i, k + 1);
    }
}

fn parse_dimension(xml: &Vec<char>) -> (r: (u32, u32))
    ensures
        r == dimension_read(xml@),
{
    match tag_ref_of(xml, "<dimension", "ref=\"") {
        Some(d) => {
            let e: String = end_of_ref(d.as_str());
            match parse_addr(e.as_str()) {
                Some(c) => (c.row, c.col),
                None => (0, 0),
            }
        },
        None => (0, 0),
    }
}

// ---- executable: sheets

fn closed_tag_of(s: &Vec<char>, open_tag: &str) -> (r: Option<String>)
    ensures
        match first_closed_tag(s@, open_tag@) {
            Some(t) => r matches Some(x) && x@ == t,
            None => r is None,
        },
{
    let p = Pattern::Closed(chars_of(open_tag));
    let ghost f = |i: int| pattern_at(p, s@, i);
    let ghost g = |i: int| closed_tag(s@, open_tag@, i);
    assert(f =~= g);
    first_match(&p, s)
}

/// The attributes of the first tag of a kind.
pub fn open_tag_of(s: &Vec<char>, open_tag: &str) -> (r: Option<String>)
    ensures
        match first_open_tag(s@, open_tag@) {
            Some(t) => r matches Some(x) && x@ == t,
            None => r is None,
        },
{
    let p = Pattern::Open(chars_of(open_tag));
    let ghost f = |i: int| pattern_at(p, s@, i);
    let ghost g = |i: int| open_tag_at(s@, open_tag@, i);
    assert(f =~= g);
    first_match(&p, s)
}

fn parse_pane(xml: &Vec<char>) -> (r: Option<(u32, u32)>)
    ensures
        r == pane_read(xml@),
{
    match closed_tag_of(xml, "<pane") {
        Some(a) => {
            let x: u64 = match number_attr(a.as_str(), "xSplit", 0xffff_ffff) {
                Some(n) => n,
                None => 0,
            };
            let y: u64 = match number_attr(a.as_str(), "ySplit", 0xffff_ffff) {
                Some(n) => n,
                None => 0,
            };
            if x > 0 || y > 0 {
                Some((y as u32, x as u32))
            } else {
                None
            }
        },
        None => None,
    }
}

fn parse_protection(xml: &Vec<char>) -> (r: Option<SheetProtection>)
    ensures
        r == protection_read(xml@),
{
    match open_tag_of(xml, "<sheetProtection") {
        Some(t) => {
            let a: Vec<char> = chars_of(t.as_str());
            if contains_str(&a, "sheet=\"1\"") {
                Some(
                    SheetProtection {
                        enabled: true,
                        allow_sort: Some(contains_str(&a, "sort=\"0\"")),
                        allow_filter: Some(contains_str(&a, "autoFilter=\"0\"")),
                        allow_format_cells: Some(contains_str(&a, "formatCells=\"0\"")),
                        allow_insert_delete: None,
                        allow_select_locked: None,
                    },
                )
            } else {
                None
            }
        },
        None => None,
    }
}

fn sort_cells(cells: Vec<CellSnapshot>) -> (r: Vec<CellSnapshot>)
    ensures
        cell_views(r@) == sorted_views(cell_views(cells@)),
        forall|i: int| 0 <= i < r@.len() ==> (#[trigger] r@[i]).rich is None,
{
    let order: Vec<usize> = crate::xlsx::order_cells(&cells);
    let ghost cv = cell_views(cells@);
    let ghost keys = view_keys(cv);
    assert(keys == crate::xlsx::cell_keys(cells@));
    let ghost o = stable_order(keys, cells@.len());
    proof {
        stable_order_sorts(keys, cells@.len());
    }
    let mut out: Vec<CellSnapshot> = Vec::new();
    let mut k: usize = 0;
    while k < order.len()
        invariant
            k <= order.len(),
            places(order@) == o,
            o.len() == cells@.len(),
            forall|i: int| 0 <= i < o.len() ==> 0 <= #[trigger] o[i] < cells@.len(),
            cv == cell_views(cells@),
            out@.len() == k,
            forall|i: int|
                0 <= i < k ==> cell_view(#[trigger] out@[i]) == cv[o[i]] && out@[i].rich is None,
        decreases order.len() - k,
    {
        assert(o[k as int] == order@[k as int]);
        let c = &cells[order[k]];
        let copy = CellSnapshot {
            r: c.r,
            c: c.c,
            v: match &c.v {
                Some(v) => Some(v.copied()),
                None => None,
            },
            f: crate::style::copy_text(&c.f),
            s: match &c.s {
                Some(s) => Some(s.copied()),
                None => None,
            },
            rich: None,
        };
        assert(cell_view(copy) == cv[o[k as int]]);
        out.push(copy);
        k = k + 1;
    }
    assert(cell_views(out@) == sorted_views(cv));
    out
}

fn fits(levels: &Vec<(u32, u32)>, after: bool) -> (r: bool)
    ensures
        r == levels_fit(levels@, after),
{
    let mut max: u32 = 0;
    let mut top: u32 = 0;
    let mut first: u32 = 0;
    let mut last: u32 = 0;
    let mut i: usize = 0;
    while i < levels.len()
        invariant
            i <= levels.len(),
            max == top_index(levels@.take(i as int)),
            top == top_level(levels@.take(i as int)),
            first == listed_level(levels@.take(i as int), 0),
            last == listed_level(levels@.take(i as int), max as int),
        decreases levels.len() - i,
    {
        let (k, l) = levels[i];
        assert(levels@.take(i + 1).drop_last() == levels@.take(i as int));
        if k >= max {
            max = k;
            last = l;
        }
        if l > top {
            top = l;
        }
        if k == 0 {
            first = l;
        }
        i = i + 1;
    }
    assert(levels@.take(i as int) == levels@);
    if top == 0 {
        return true;
    }
    if after {
        max < u32::MAX && (max < u32::MAX - 1 || last == 0)
    } else {
        max < u32::MAX && first == 0
    }
}

/// Reads a sheet. Nothing comes of one whose rows and columns do not count as they should.
pub fn parse_sheet_xml(xml: &str, name: &str, sst: &Vec<String>, styles: &ParsedStyles) -> (r: Option<
    SheetSnapshot,
>)
    ensures
        match sheet_read(xml@, name@, texts(sst@), style_views(styles.xf@)) {
            Some(v) => r matches Some(s) && sheet_view(s) == v && s.rest_plain(),
            None => r is None,
        },
{
    let chars: Vec<char> = chars_of(xml);
    let rows: RowsState = match parse_rows(xml, sst, styles) {
        Some(x) => x,
        None => {
            return None;
        },
    };
    let cols: ColsState = match parse_cols(xml, rows.max_col) {
        Some(x) => x,
        None => {
            return None;
        },
    };
    let m: MergesState = match parse_merges(xml, rows.max_row, cols.max_col) {
        Some(x) => x,
        None => {
            return None;
        },
    };
    let dim: (u32, u32) = parse_dimension(&chars);
    let max_row: u32 = larger(m.max_row, dim.0);
    let max_col: u32 = larger(m.max_col, dim.1);
    let (below, right) = match closed_tag_of(&chars, "<outlinePr") {
        Some(a) => (
            !is_attr(a.as_str(), "summaryBelow", "0"),
            !is_attr(a.as_str(), "summaryRight", "0"),
        ),
        None => (true, true),
    };
    assert(below == summary_read(xml@, "summaryBelow"@));
    assert(right == summary_read(xml@, "summaryRight"@));
    if max_row == u32::MAX || max_col == u32::MAX || !fits(&rows.levels, below) || !fits(
        &cols.levels,
        right,
    ) {
        return None;
    }
    let mut snap = SheetSnapshot::sized(name.to_string(), max_row + 1, max_col + 1);
    snap.row_outlines = levels_to_groups(&rows.levels, &rows.collapsed, below);
    snap.col_outlines = levels_to_groups(&cols.levels, &cols.collapsed, right);
    snap.cells = sort_cells(rows.cells);
    snap.spans = m.spans;
    snap.row_heights = rows.heights;
    snap.col_widths = cols.widths;
    snap.hidden_rows = rows.hidden;
    snap.hidden_cols = cols.hidden;
    if !below {
        snap.summary_below = Some(false);
    }
    if !right {
        snap.summary_right = Some(false);
    }
    snap.frozen_pane = parse_pane(&chars);
    snap.protection = parse_protection(&chars);
    snap.page_setup = parse_page(&chars);
    Some(snap)
}

// ---- workbooks

/// A text without the prefix `p` at its start, as often as it stands there.
pub open spec fn trim_start_text(s: Seq<char>, p: Seq<char>) -> Seq<char>
    decreases s.len(),
{
    if p.len() > 0 && crate::scan::at(s, p, 0) {
        trim_start_text(s.skip(p.len() as int), p)
    } else {
        s
    }
}

/// The part that a relation leads to; that of the last relation of the name.
pub open spec fn rel_target(tags: Seq<Seq<char>>, id: Seq<char>) -> Option<Seq<char>>
    decreases tags.len(),
{
    if tags.len() == 0 {
        None
    } else {
        match attr_of(tags.last(), "Target"@) {
            Some(t) if attr_of(tags.last(), "Id"@) == Some(id) => Some(
                trim_start_text(trim_start_char(t, '/'), "xl/"@),
            ),
            _ => rel_target(tags.drop_last(), id),
        }
    }
}

/// The parts of a file, by name.
pub struct Book {
    pub parts: Seq<Option<(Seq<char>, Seq<u8>)>>,
}

impl Book {
    pub open spec fn get(self, name: Seq<char>) -> Option<Seq<char>> {
        part_text(self.parts, name)
    }

    /// A part's text; nothing where there is none.
    pub open spec fn text(self, name: Seq<char>) -> Seq<char> {
        match self.get(name) {
            Some(t) => t,
            None => Seq::empty(),
        }
    }
}

/// The name of a sheet in a workbook's list; the `n`th of the sheets where it says none.
pub open spec fn sheet_name_read(tag: Seq<char>, n: nat) -> Seq<char> {
    match attr_of(tag, "name"@) {
        Some(t) => unescaped(t),
        None => "Sheet"@ + dec(n),
    }
}

/// The part of a sheet in a workbook's list.
pub open spec fn sheet_target(tag: Seq<char>, rels: Seq<Seq<char>>, n: nat) -> Seq<char> {
    let rid = match attr_of(tag, "r:id"@) {
        Some(t) => Some(t),
        None => attr_of(tag, "id"@),
    };
    let found = match rid {
        Some(t) => rel_target(rels, t),
        None => None,
    };
    match found {
        Some(t) => t,
        None => "worksheets/sheet"@ + dec(n) + ".xml"@,
    }
}

/// The sheets in a workbook's list. Those without a part are passed over.
pub open spec fn sheets_read(
    book: Book,
    tags: Seq<Seq<char>>,
    rels: Seq<Seq<char>>,
    sst: Seq<Seq<char>>,
    xf: Seq<StyleView>,
) -> Option<Seq<SheetView>>
    decreases tags.len(),
{
    if tags.len() == 0 {
        Some(Seq::empty())
    } else {
        match sheets_read(book, tags.drop_last(), rels, sst, xf) {
            None => None,
            Some(p) => {
                let n = p.len() + 1;
                match book.get("xl/"@ + sheet_target(tags.last(), rels, n)) {
                    None => Some(p),
                    Some(xml) => match sheet_read(xml, sheet_name_read(tags.last(), n), sst, xf) {
                        None => None,
                        Some(s) => Some(p.push(s)),
                    },
                }
            },
        }
    }
}

/// A sheet for a workbook that has none.
pub open spec fn blank_sheet() -> SheetView {
    SheetView {
        name: "Sheet1"@,
        row_count: 40,
        col_count: 12,
        cells: Seq::empty(),
        spans: Seq::empty(),
        row_heights: Seq::empty(),
        col_widths: Seq::empty(),
        hidden_rows: Seq::empty(),
        hidden_cols: Seq::empty(),
        row_outlines: Seq::empty(),
        col_outlines: Seq::empty(),
        summary_below: None,
        summary_right: None,
        protection: None,
        frozen_pane: None,
        page_setup: None,
    }
}

/// The place of the sheet that is shown first, where it is not the first.
pub open spec fn active_read(workbook: Seq<char>) -> Option<usize> {
    match first_key_in_tag(workbook, "<workbookView"@, "activeTab=\""@) {
        Some(t) => match parse_unsigned(t, usize::MAX as nat) {
            Some(n) => if n > 0 {
                Some(n as usize)
            } else {
                None
            },
            None => None,
        },
        None => None,
    }
}

/// The first sheet with rows or columns that stay in view.
pub open spec fn first_frozen(sheets: Seq<SheetView>) -> Option<(u32, u32)>
    decreases sheets.len(),
{
    if sheets.len() == 0 {
        None
    } else {
        match first_frozen(sheets.drop_last()) {
            Some(p) => Some(p),
            None => sheets.last().frozen_pane,
        }
    }
}

/// The rows and columns that stay in view: those of the sheet that is shown first.
pub open spec fn book_frozen(sheets: Seq<SheetView>, active: Option<usize>) -> (u32, u32) {
    let i = match active {
        Some(i) => i as int,
        None => 0,
    };
    let pane = if i < sheets.len() {
        sheets[i].frozen_pane
    } else {
        first_frozen(sheets)
    };
    match pane {
        Some(p) => p,
        None => (0, 0),
    }
}

/// A workbook as files carry it.
pub struct BookView {
    pub sheets: Seq<SheetView>,
    pub active_sheet: Option<usize>,
    pub frozen: (u32, u32),
}

/// The workbook that the parts of a file hold.
pub open spec fn book_read(book: Book) -> Option<BookView> {
    let workbook = book.text("xl/workbook.xml"@);
    let rels = short_tags(book.text("xl/_rels/workbook.xml.rels"@), "<Relationship"@);
    match sheets_read(
        book,
        short_tags(workbook, "<sheet"@),
        rels,
        shared_texts_of(book.get("xl/sharedStrings.xml"@)),
        xfs_read(book.get("xl/styles.xml"@)),
    ) {
        None => None,
        Some(found) => {
            let sheets = if found.len() == 0 {
                seq![blank_sheet()]
            } else {
                found
            };
            let active = active_read(workbook);
            Some(BookView { sheets, active_sheet: active, frozen: book_frozen(sheets, active) })
        },
    }
}

/// The parts that the bytes of a file are.
pub open spec fn book_of(bytes: Seq<u8>) -> Book {
    Book {
        parts: match archive_of(bytes) {
            Some(p) => p,
            None => Seq::empty(),
        },
    }
}

pub open spec fn sheet_views(v: Seq<SheetSnapshot>) -> Seq<SheetView> {
    Seq::new(v.len(), |i: int| sheet_view(v[i]))
}

fn trim_target(t: &str) -> (r: String)
    ensures
        r@ == trim_start_text(trim_start_char(t@, '/'), "xl/"@),
{
    proof {
        reveal_strlit("xl/");
    }
    let chars: Vec<char> = chars_of(t);
    let p: Vec<char> = chars_of("xl/");
    let mut a: usize = 0;
    assert(chars@.skip(0) == chars@);
    while a < chars.len() && chars[a] == '/'
        invariant
            a <= chars.len(),
            trim_start_char(chars@, '/') == trim_start_char(chars@.skip(a as int), '/'),
        decreases chars.len() - a,
    {
        assert(chars@.skip(a as int).skip(1) == chars@.skip(a + 1));
        a = a + 1;
    }
    let ghost base = chars@.skip(a as int);
    while crate::scan::stands_at(&chars, &p, a)
        invariant
            a <= chars.len(),
            p@ == "xl/"@,
            p@.len() == 3,
            trim_start_text(base, "xl/"@) == trim_start_text(chars@.skip(a as int), "xl/"@),
        decreases chars.len() - a,
    {
        let ghost s = chars@.skip(a as int);
        assert(s.subrange(0, 3) == chars@.subrange(a as int, a + 3));
        assert(s.skip(3) == chars@.skip(a + 3));
        a = a + 3;
    }
    proof {
        let s = chars@.skip(a as int);
        if crate::scan::at(s, "xl/"@, 0) {
            assert(s.subrange(0, 3) == chars@.subrange(a as int, a + 3));
        }
    }
    let r: String = slice_string(&chars, a, chars.len());
    assert(r@ == chars@.skip(a as int));
    r
}

fn find_target(tags: &Vec<String>, id: &str) -> (r: Option<String>)
    ensures
        crate::style::text_view(r) == rel_target(texts(tags@), id@),
{
    let ghost all = texts(tags@);
    let mut i: usize = tags.len();
    assert(all.take(i as int) == all);
    while i > 0
        invariant
            i <= tags.len(),
            all == texts(tags@),
            rel_target(all, id@) == rel_target(all.take(i as int), id@),
        decreases i,
    {
        i = i - 1;
        assert(all.take(i + 1).drop_last() == all.take(i as int));
        assert(all.take(i + 1).last() == tags@[i as int]@);
        if let Some(t) = attr(tags[i].as_str(), "Target") {
            if is_attr(tags[i].as_str(), "Id", id) {
                return Some(trim_target(t.as_str()));
            }
        }
    }
    None
}

fn target_of(tag: &str, rels: &Vec<String>, n: usize) -> (r: String)
    ensures
        r@ == sheet_target(tag@, texts(rels@), n as nat),
{
    let rid: Option<String> = match attr(tag, "r:id") {
        Some(t) => Some(t),
        None => attr(tag, "id"),
    };
    if let Some(t) = &rid {
        if let Some(found) = find_target(rels, t.as_str()) {
            return found;
        }
    }
    let mut out: String = "worksheets/sheet".to_string();
    push_dec(&mut out, n as u128);
    out.append(".xml");
    out
}

proof fn sheets_read_fails(
    book: Book,
    tags: Seq<Seq<char>>,
    n: nat,
    rels: Seq<Seq<char>>,
    sst: Seq<Seq<char>>,
    xf: Seq<StyleView>,
)
    requires
        n <= tags.len(),
        sheets_read(book, tags.take(n as int), rels, sst, xf) is None,
    ensures
        sheets_read(book, tags, rels, sst, xf) is None,
    decreases tags.len() - n,
{
    if n < tags.len() {
        assert(tags.take(n as int + 1).drop_last() == tags.take(n as int));
        sheets_read_fails(book, tags, n + 1, rels, sst, xf);
    } else {
        assert(tags.take(n as int) == tags);
    }
}

fn parse_sheets(
    files: &Parts,
    tags: &Vec<String>,
    rels: &Vec<String>,
    sst: &Vec<String>,
    styles: &ParsedStyles,
) -> (r: Option<Vec<SheetSnapshot>>)
    requires
        files.wf(),
    ensures
        match sheets_read(
            Book { parts: files@ },
            texts(tags@),
            texts(rels@),
            texts(sst@),
            style_views(styles.xf@),
        ) {
            Some(v) => r matches Some(x) && sheet_views(x@) == v && forall|k: int|
                0 <= k < x@.len() ==> (#[trigger] x@[k]).rest_plain(),
            None => r is None,
        },
{
    let ghost book = Book { parts: files@ };
    let ghost all = texts(tags@);
    let ghost rv = texts(rels@);
    let ghost sv = texts(sst@);
    let ghost xv = style_views(styles.xf@);
    let mut out: Vec<SheetSnapshot> = Vec::new();
    assert(all.take(0) == Seq::<Seq<char>>::empty());
    assert(sheet_views(out@) == Seq::<SheetView>::empty());
    let mut i: usize = 0;
    while i < tags.len()
        invariant
            i <= tags.len(),
            files.wf(),
            book == (Book { parts: files@ }),
            all == texts(tags@),
            rv == texts(rels@),
            sv == texts(sst@),
            xv == style_views(styles.xf@),
            out@.len() <= i,
            sheets_read(book, all.take(i as int), rv, sv, xv) == Some(sheet_views(out@)),
            forall|k: int| 0 <= k < out@.len() ==> (#[trigger] out@[k]).rest_plain(),
        decreases tags.len() - i,
    {
        assert(all.take(i + 1).drop_last() == all.take(i as int));
        assert(all.take(i + 1).last() == tags@[i as int]@);
        let tag: &str = tags[i].as_str();
        let n: usize = out.len() + 1;
        let name: String = match attr(tag, "name") {
            Some(t) => unesc(t.as_str()),
            None => {
                let mut s: String = "Sheet".to_string();
                push_dec(&mut s, n as u128);
                s
            },
        };
        let target: String = target_of(tag, rels, n);
        let mut path: String = "xl/".to_string();
        path.append(target.as_str());
        if let Some(xml) = files.get(path.as_str()) {
            match parse_sheet_xml(xml.as_str(), name.as_str(), sst, styles) {
                Some(s) => {
                    let ghost before = sheet_views(out@);
                    let ghost v = sheet_view(s);
                    out.push(s);
                    assert(sheet_views(out@) == before.push(v));
                },
                None => {
                    proof {
                        sheets_read_fails(book, all, (i + 1) as nat, rv, sv, xv);
                    }
                    return None;
                },
            }
        }
        i = i + 1;
    }
    assert(all.take(i as int) == all);
    Some(out)
}

fn parse_active(workbook: &Vec<char>) -> (r: Option<usize>)
    ensures
        r == active_read(workbook@),
{
    match key_in_tag_of(workbook, "<workbookView", "activeTab=\"") {
        Some(t) => {
            let chars: Vec<char> = chars_of(t.as_str());
            match read_unsigned(&chars, usize::MAX as u64) {
                Some(n) => if n > 0 {
                    Some(n as usize)
                } else {
                    None
                },
                None => None,
            }
        },
        None => None,
    }
}

fn frozen_of(sheets: &Vec<SheetSnapshot>, active: Option<usize>) -> (r: (u32, u32))
    ensures
        r == book_frozen(sheet_views(sheets@), active),
{
    let i: usize = match active {
        Some(i) => i,
        None => 0,
    };
    let ghost all = sheet_views(sheets@);
    let mut pane: Option<(u32, u32)> = None;
    if i < sheets.len() {
        pane = sheets[i].frozen_pane;
    } else {
        let mut k: usize = 0;
        while k < sheets.len()
            invariant
                k <= sheets.len(),
                all == sheet_views(sheets@),
                pane == first_frozen(all.take(k as int)),
            decreases sheets.len() - k,
        {
            assert(all.take(k + 1).drop_last() == all.take(k as int));
            if pane.is_none() {
                pane = sheets[k].frozen_pane;
            }
            k = k + 1;
        }
        assert(all.take(k as int) == all);
    }
    match pane {
        Some(p) => p,
        None => (0, 0),
    }
}

/// The text of a part; nothing where there is none.
fn part_or_empty(files: &Parts, name: &str) -> (r: String)
    requires
        files.wf(),
    ensures
        r@ == (Book { parts: files@ }).text(name@),
{
    match files.get(name) {
        Some(t) => t.clone(),
        None => String::new(),
    }
}

/// Reads a file. Bytes that are no archive hold an empty workbook. Nothing comes of a file whose
/// rows and columns do not count as they should. Numerals come as the file has them, and lengths as
/// files count them: widths of columns in characters and margins in inches.
pub fn xlsx_to_snapshot(bytes: &[u8]) -> (r: Option<WorkbookSnapshot>)
    ensures
        match book_read(book_of(bytes@)) {
            Some(v) => r matches Some(wb) && sheet_views(wb.sheets@) == v.sheets && wb.active_sheet
                == v.active_sheet && (wb.frozen_row_count, wb.frozen_col_count) == v.frozen
                && wb.format@ == "cmx-megasheet"@ && wb.version == 1 && wb.styles is None
                && wb.defined_names@.len() == 0 && wb.trailing_row_count == 0
                && wb.trailing_col_count == 0 && !wb.split_row && !wb.split_col && forall|k: int|
                0 <= k < wb.sheets@.len() ==> (#[trigger] wb.sheets@[k]).rest_plain(),
            None => r is None,
        },
{
    let files: Parts = unzip(bytes);
    let ghost book = book_of(bytes@);
    assert(book == (Book { parts: files@ }));
    let sst: Vec<String> = match files.get("xl/sharedStrings.xml") {
        Some(t) => parse_shared_strings(Some(t.as_str())),
        None => parse_shared_strings(None),
    };
    let styles: ParsedStyles = match files.get("xl/styles.xml") {
        Some(t) => parse_styles(Some(t.as_str())),
        None => parse_styles(None),
    };
    let workbook: Vec<char> = chars_of(part_or_empty(&files, "xl/workbook.xml").as_str());
    let rels_xml: Vec<char> = chars_of(
        part_or_empty(&files, "xl/_rels/workbook.xml.rels").as_str(),
    );
    let rels: Vec<String> = short_tags_all(&rels_xml, "<Relationship");
    let tags: Vec<String> = short_tags_all(&workbook, "<sheet");
    let mut sheets: Vec<SheetSnapshot> = match parse_sheets(&files, &tags, &rels, &sst, &styles) {
        Some(v) => v,
        None => {
            return None;
        },
    };
    if sheets.len() == 0 {
        let s = SheetSnapshot::sized("Sheet1".to_string(), 40, 12);
        assert(sheet_view(s).cells == Seq::<CellView>::empty());
        assert(sheet_view(s).row_heights == Seq::<(u32, Seq<char>)>::empty());
        assert(sheet_view(s).col_widths == Seq::<(u32, Seq<char>)>::empty());
        assert(sheet_view(s).spans == Seq::<Span>::empty());
        assert(sheet_view(s).hidden_rows == Seq::<u32>::empty());
        assert(sheet_view(s).hidden_cols == Seq::<u32>::empty());
        assert(sheet_view(s).row_outlines == Seq::<OutlineGroupSnapshot>::empty());
        assert(sheet_view(s).col_outlines == Seq::<OutlineGroupSnapshot>::empty());
        assert(sheet_view(s) == blank_sheet());
        sheets.push(s);
        assert(sheet_views(sheets@) == seq![blank_sheet()]);
    }
    let active: Option<usize> = parse_active(&workbook);
    let frozen: (u32, u32) = frozen_of(&sheets, active);
    let mut wb = WorkbookSnapshot::default();
    wb.format = snapshot_format();
    wb.version = 1;
    wb.active_sheet = active;
    wb.frozen_row_count = frozen.0;
    wb.frozen_col_count = frozen.1;
    wb.sheets = sheets;
    Some(wb)
}

} // verus!
