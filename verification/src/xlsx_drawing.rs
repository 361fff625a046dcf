//! Charts and sparklines in spreadsheet files.
use crate::address::{addr, format_addr, label, push_label};
use crate::decimal::{dec, push_dec};
use crate::snapshot::{
    shown, CellSnapshot, ChartSpec, ChartType, FloatingKind, FloatingObject, RegionRect,
    SheetSnapshot, SparklineEntry, SparklineType,
};
use crate::text::{chars_of, opt, push_if};
use crate::token::{is_digit, spec_is_digit, spec_is_letter};
use crate::xlsx_style::{xml_decl, xml_declaration};
use crate::xml::{esc_text, escape, Escape};
use vstd::prelude::*;

verus! {

/// Escapes `& < > "`.
pub fn esc(s: &str) -> (r: String)
    ensures
        r@ == esc_text(s@, Escape::Quoted),
{
    escape(s, Escape::Quoted)
}

// ---- references

pub open spec fn is_plain_char(c: char) -> bool {
    spec_is_letter(c) || spec_is_digit(c) || c == '_'
}

/// Whether a sheet's name can stand in a reference as it is.
pub open spec fn is_plain_name(name: Seq<char>) -> bool {
    &&& name.len() > 0
    &&& !spec_is_digit(name[0])
    &&& forall|i: int| 0 <= i < name.len() ==> is_plain_char(#[trigger] name[i])
}

/// A text with each `'` doubled.
pub open spec fn doubled_quotes(s: Seq<char>) -> Seq<char>
    decreases s.len(),
{
    if s.len() == 0 {
        s
    } else if s.last() == '\'' {
        doubled_quotes(s.drop_last()).push('\'').push('\'')
    } else {
        doubled_quotes(s.drop_last()).push(s.last())
    }
}

/// A sheet's name as it stands in references.
pub open spec fn quoted_name(name: Seq<char>) -> Seq<char> {
    if is_plain_name(name) {
        name
    } else {
        "'"@ + doubled_quotes(name) + "'"@
    }
}

/// The absolute address of a cell.
pub open spec fn abs_text(row: int, col: int) -> Seq<char> {
    "$"@ + label(col as nat) + "$"@ + dec((row + 1) as nat)
}

/// Whether a block's last cell has an address.
pub open spec fn region_fits(r: RegionRect) -> bool {
    (r.row_count <= 1 && r.col_count <= 1) || (1 <= r.row + r.row_count <= u32::MAX && 1 <= r.col
        + r.col_count <= u32::MAX)
}

/// Whether a block's last cell has an address.
pub fn region_in_sheet(g: &RegionRect) -> (r: bool)
    ensures
        r == region_fits(*g),
{
    if g.row_count <= 1 && g.col_count <= 1 {
        return true;
    }
    g.row <= u32::MAX - g.row_count && g.row + g.row_count >= 1 && g.col <= u32::MAX - g.col_count
        && g.col + g.col_count >= 1
}

/// The absolute reference to a block.
pub open spec fn region_text(r: RegionRect) -> Seq<char> {
    if r.row_count <= 1 && r.col_count <= 1 {
        abs_text(r.row as int, r.col as int)
    } else {
        abs_text(r.row as int, r.col as int) + ":"@ + abs_text(
            r.row + r.row_count - 1,
            r.col + r.col_count - 1,
        )
    }
}

/// The absolute reference to a block of a sheet.
pub open spec fn region_ref(sheet: Seq<char>, r: RegionRect) -> Seq<char> {
    quoted_name(sheet) + "!"@ + region_text(r)
}

/// The absolute reference to a cell of a sheet.
pub open spec fn cell_ref(sheet: Seq<char>, row: int, col: int) -> Seq<char> {
    quoted_name(sheet) + "!"@ + abs_text(row, col)
}

/// Whether a character is an ASCII letter, a digit or `_`.
pub(crate) fn plain_char(c: char) -> (r: bool)
    ensures
        r == is_plain_char(c),
{
    ('a' <= c && c <= 'z') || ('A' <= c && c <= 'Z') || is_digit(c) || c == '_'
}

/// A sheet's name as it stands in references: in quotes unless it is made of ASCII letters,
/// digits and `_` and starts with no digit.
pub fn quote_sheet_name(name: &str) -> (r: String)
    ensures
        r@ == quoted_name(name@),
{
    let chars: Vec<char> = chars_of(name);
    let mut plain = chars.len() > 0 && !is_digit(chars[0]);
    let mut i: usize = 0;
    while plain && i < chars.len()
        invariant
            i <= chars.len(),
            plain ==> chars@.len() > 0 && !spec_is_digit(chars@[0]) && forall|k: int|
                0 <= k < i ==> is_plain_char(#[trigger] chars@[k]),
            !plain ==> !is_plain_name(chars@),
        decreases chars.len() - i,
    {
        if !plain_char(chars[i]) {
            plain = false;
        }
        i = i + 1;
    }
    if plain {
        return name.to_string();
    }
    let mut out: String = "'".to_string();
    let mut k: usize = 0;
    assert(out@ == "'"@ + doubled_quotes(chars@.take(0)));
    while k < chars.len()
        invariant
            k <= chars.len(),
            out@ == "'"@ + doubled_quotes(chars@.take(k as int)),
        decreases chars.len() - k,
    {
        let ghost d0 = doubled_quotes(chars@.take(k as int));
        assert(chars@.take(k + 1).drop_last() == chars@.take(k as int));
        if chars[k] == '\'' {
            out.push('\'');
            out.push('\'');
            assert(out@ == "'"@ + d0.push('\'').push('\''));
        } else {
            out.push(chars[k]);
            assert(out@ == "'"@ + d0.push(chars@[k as int]));
        }
        k = k + 1;
    }
    assert(chars@.take(k as int) == chars@);
    out.append("'");
    out
}

/// The absolute address of a cell.
pub fn abs_addr(row: u32, col: u32) -> (r: String)
    ensures
        r@ == abs_text(row as int, col as int),
{
    let mut out: String = "$".to_string();
    push_label(&mut out, col);
    out.append("$");
    push_dec(&mut out, row as u128 + 1);
    out
}

/// The absolute reference to a block.
pub fn region_abs_a1(r: &RegionRect) -> (s: String)
    requires
        region_fits(*r),
    ensures
        s@ == region_text(*r),
{
    let mut a: String = abs_addr(r.row, r.col);
    if r.row_count <= 1 && r.col_count <= 1 {
        return a;
    }
    let b: String = abs_addr(r.row + r.row_count - 1, r.col + r.col_count - 1);
    a.append(":");
    a.append(b.as_str());
    a
}

/// The absolute reference to a block of a sheet.
pub fn sheet_region_ref(sheet: &str, r: &RegionRect) -> (s: String)
    requires
        region_fits(*r),
    ensures
        s@ == region_ref(sheet@, *r),
{
    let mut out: String = quote_sheet_name(sheet);
    let a: String = region_abs_a1(r);
    out.append("!");
    out.append(a.as_str());
    out
}

/// The absolute reference to a cell of a sheet.
pub fn sheet_cell_ref(sheet: &str, row: u32, col: u32) -> (s: String)
    ensures
        s@ == cell_ref(sheet@, row as int, col as int),
{
    let mut out: String = quote_sheet_name(sheet);
    let a: String = abs_addr(row, col);
    out.append("!");
    out.append(a.as_str());
    out
}

// ---- the series of a chart

/// A series of a chart: the references to its name, its categories and its values, and its name.
#[derive(Debug, Clone, PartialEq)]
pub struct SeriesRef {
    pub name_ref: String,
    pub name_lit: String,
    pub cat_ref: String,
    pub val_ref: String,
}

/// The texts of a series.
pub struct Series {
    pub name_ref: Seq<char>,
    pub name_lit: Seq<char>,
    pub cat_ref: Seq<char>,
    pub val_ref: Seq<char>,
}

impl SeriesRef {
    pub open spec fn view(&self) -> Series {
        Series {
            name_ref: self.name_ref@,
            name_lit: self.name_lit@,
            cat_ref: self.cat_ref@,
            val_ref: self.val_ref@,
        }
    }
}

/// The place of the first cell at a row and a column; the number of cells where there is none.
pub open spec fn cell_place(cells: Seq<CellSnapshot>, row: u32, col: u32) -> nat
    decreases cells.len(),
{
    if cells.len() == 0 {
        0
    } else {
        let p = cell_place(cells.drop_last(), row, col);
        if p < cells.len() - 1 || (cells.last().r == row && cells.last().c == col) {
            p
        } else {
            cells.len()
        }
    }
}

/// What the cell at a row and a column shows.
pub open spec fn text_at(cells: Seq<CellSnapshot>, row: u32, col: u32) -> Option<Seq<char>> {
    let p = cell_place(cells, row, col) as int;
    if p < cells.len() {
        match cells[p].v {
            Some(v) => Some(shown(v)),
            None => None,
        }
    } else {
        None
    }
}

proof fn cell_place_first(cells: Seq<CellSnapshot>, row: u32, col: u32)
    ensures
        cell_place(cells, row, col) <= cells.len(),
        cell_place(cells, row, col) < cells.len() ==> cells[cell_place(cells, row, col) as int].r == row
            && cells[cell_place(cells, row, col) as int].c == col,
        forall|k: int|
            0 <= k < cell_place(cells, row, col) ==> !((#[trigger] cells[k]).r == row && cells[k].c
                == col),
    decreases cells.len(),
{
    if cells.len() > 0 {
        let p = cells.drop_last();
        cell_place_first(p, row, col);
        assert forall|k: int| 0 <= k < cell_place(cells, row, col) implies !((#[trigger] cells[k]).r
            == row && cells[k].c == col) by {
            if k < p.len() {
                assert(p[k] == cells[k]);
            }
        }
    }
}

/// What the cell at a row and a column shows.
pub fn cell_text(snap: &SheetSnapshot, row: u32, col: u32) -> (r: Option<String>)
    ensures
        match text_at(snap.cells@, row, col) {
            Some(t) => r matches Some(s) && s@ == t,
            None => r is None,
        },
{
    let ghost cells = snap.cells@;
    proof {
        cell_place_first(cells, row, col);
    }
    let mut i: usize = 0;
    while i < snap.cells.len()
        invariant
            i <= snap.cells.len(),
            cells == snap.cells@,
            i <= cell_place(cells, row, col) <= cells.len(),
            cell_place(cells, row, col) < cells.len() ==> cells[cell_place(cells, row, col) as int].r == row
                && cells[cell_place(cells, row, col) as int].c == col,
            forall|k: int|
                0 <= k < cell_place(cells, row, col) ==> !((#[trigger] cells[k]).r == row && cells[k].c
                    == col),
        decreases snap.cells.len() - i,
    {
        let cell = &snap.cells[i];
        if cell.r == row && cell.c == col {
            assert(cells[i as int].r == row && cells[i as int].c == col);
            return match &cell.v {
                Some(v) => Some(v.to_text()),
                None => None,
            };
        }
        i = i + 1;
    }
    None
}

pub open spec fn row_header(spec: ChartSpec) -> bool {
    spec.first_row_header != Some(false)
}

pub open spec fn col_header(spec: ChartSpec) -> bool {
    spec.first_col_header != Some(false)
}

pub open spec fn one_if(b: bool) -> int {
    if b {
        1
    } else {
        0
    }
}

/// Whether a chart has a column of values.
pub open spec fn has_values(spec: ChartSpec) -> bool {
    first_series_col(spec) < spec.data_range.col + spec.data_range.col_count
}

/// Whether the data of a chart is inside the sheet: its header has a row, and so have its values.
pub open spec fn chart_fits(spec: ChartSpec) -> bool {
    let g = spec.data_range;
    &&& g.row_count >= one_if(row_header(spec))
    &&& has_values(spec) ==> g.row_count >= 1 + one_if(row_header(spec))
    &&& 1 <= g.row + g.row_count <= u32::MAX
    &&& g.col + g.col_count <= u32::MAX
    &&& g.col < u32::MAX
}

/// Whether the data of a chart is inside the sheet.
pub fn chart_in_sheet(spec: &ChartSpec) -> (r: bool)
    ensures
        r == chart_fits(*spec),
{
    let g = spec.data_range;
    let row_hdr: u32 = match spec.first_row_header {
        Some(false) => 0,
        _ => 1,
    };
    let col_hdr: u32 = match spec.first_col_header {
        Some(false) => 0,
        _ => 1,
    };
    if g.row_count < row_hdr || g.row > u32::MAX - g.row_count || g.row + g.row_count < 1 {
        return false;
    }
    if g.col > u32::MAX - g.col_count || g.col == u32::MAX {
        return false;
    }
    g.col + col_hdr >= g.col + g.col_count || g.row_count > row_hdr
}

/// The series in a column of a chart's data.
pub open spec fn series_at(
    sheet: Seq<char>,
    spec: ChartSpec,
    cells: Seq<CellSnapshot>,
    c: int,
) -> Series {
    let g = spec.data_range;
    let row0 = g.row + one_if(row_header(spec));
    let rows = g.row_count - one_if(row_header(spec));
    let default = "列"@ + dec(c as nat);
    Series {
        name_ref: cell_ref(sheet, g.row as int, c),
        name_lit: if row_header(spec) {
            match text_at(cells, g.row, c as u32) {
                Some(t) => t,
                None => default,
            }
        } else {
            default
        },
        cat_ref: region_ref(
            sheet,
            RegionRect { row: row0 as u32, col: g.col, row_count: rows as u32, col_count: 1 },
        ),
        val_ref: region_ref(
            sheet,
            RegionRect { row: row0 as u32, col: c as u32, row_count: rows as u32, col_count: 1 },
        ),
    }
}

/// The column of a chart's first series.
pub open spec fn first_series_col(spec: ChartSpec) -> int {
    spec.data_range.col + one_if(col_header(spec))
}

/// The series of a chart: one for each column of its data behind the column of categories.
pub open spec fn chart_series(sheet: Seq<char>, spec: ChartSpec, cells: Seq<CellSnapshot>) -> Seq<
    Series,
> {
    let c0 = first_series_col(spec);
    let end = spec.data_range.col + spec.data_range.col_count;
    Seq::new(
        if end > c0 {
            (end - c0) as nat
        } else {
            0
        },
        |k: int| series_at(sheet, spec, cells, c0 + k),
    )
}

pub open spec fn series_views(v: Seq<SeriesRef>) -> Seq<Series> {
    Seq::new(v.len(), |i: int| v[i]@)
}

/// The series of a chart.
pub fn series_refs(sheet: &str, spec: &ChartSpec, snap: &SheetSnapshot) -> (r: Vec<SeriesRef>)
    requires
        chart_fits(*spec),
    ensures
        series_views(r@) == chart_series(sheet@, *spec, snap.cells@),
{
    let g = spec.data_range;
    let row_hdr = match spec.first_row_header {
        Some(b) => b,
        None => true,
    };
    let col_hdr = match spec.first_col_header {
        Some(b) => b,
        None => true,
    };
    let c0: u32 = if col_hdr {
        g.col + 1
    } else {
        g.col
    };
    if c0 >= g.col + g.col_count {
        let none: Vec<SeriesRef> = Vec::new();
        assert(series_views(none@) == chart_series(sheet@, *spec, snap.cells@));
        return none;
    }
    let row0: u32 = if row_hdr {
        g.row + 1
    } else {
        g.row
    };
    let rows: u32 = if row_hdr {
        g.row_count - 1
    } else {
        g.row_count
    };
    let cat_ref: String = sheet_region_ref(sheet, &RegionRect::new(row0, g.col, rows, 1));
    let mut out: Vec<SeriesRef> = Vec::new();
    let ghost all = chart_series(sheet@, *spec, snap.cells@);
    let mut c: u32 = c0;
    while c < g.col + g.col_count
        invariant
            chart_fits(*spec),
            has_values(*spec),
            g == spec.data_range,
            row_hdr == row_header(*spec),
            c0 == first_series_col(*spec),
            row0 == g.row + one_if(row_hdr),
            rows == g.row_count - one_if(row_hdr),
            cat_ref@ == region_ref(
                sheet@,
                RegionRect { row: row0, col: g.col, row_count: rows, col_count: 1 },
            ),
            all == chart_series(sheet@, *spec, snap.cells@),
            c0 <= c,
            c <= g.col + g.col_count || c == c0,
            series_views(out@) == all.take(c - c0),
            out@.len() == c - c0,
        decreases g.col + g.col_count - c,
    {
        let mut name_lit: String = "列".to_string();
        push_dec(&mut name_lit, c as u128);
        if row_hdr {
            if let Some(t) = cell_text(snap, g.row, c) {
                name_lit = t;
            }
        }
        let s = SeriesRef {
            name_ref: sheet_cell_ref(sheet, g.row, c),
            name_lit,
            cat_ref: cat_ref.clone(),
            val_ref: sheet_region_ref(sheet, &RegionRect::new(row0, c, rows, 1)),
        };
        assert(s@ == all[c - c0]);
        let ghost before = series_views(out@);
        out.push(s);
        assert(series_views(out@) == before.push(s@));
        assert(all.take(c + 1 - c0) == all.take(c - c0).push(all[c - c0]));
        c = c + 1;
    }
    assert(all.take(c - c0) == all);
    out
}

// ---- charts

/// What starts a series.
pub open spec fn ser_head(idx: nat, s: Series) -> Seq<char> {
    "<c:ser><c:idx val=\""@ + dec(idx) + "\"/><c:order val=\""@ + dec(idx)
        + "\"/><c:tx><c:strRef><c:f>"@ + esc_text(s.name_ref, Escape::Quoted)
        + "</c:f><c:strCache><c:ptCount val=\"1\"/><c:pt idx=\"0\"><c:v>"@ + esc_text(
        s.name_lit,
        Escape::Quoted,
    ) + "</c:v></c:pt></c:strCache></c:strRef></c:tx>"@
}

/// A series as it is written, its categories under a tag.
pub open spec fn ser_text(idx: nat, s: Series, cat_tag: Seq<char>) -> Seq<char> {
    ser_head(idx, s) + "<c:"@ + cat_tag + "><c:numRef><c:f>"@ + esc_text(s.cat_ref, Escape::Quoted)
        + "</c:f></c:numRef></c:"@ + cat_tag + "><c:val><c:numRef><c:f>"@ + esc_text(
        s.val_ref,
        Escape::Quoted,
    ) + "</c:f></c:numRef></c:val></c:ser>"@
}

/// A series of points as it is written.
pub open spec fn point_text(idx: nat, s: Series) -> Seq<char> {
    ser_head(idx, s) + "<c:xVal><c:numRef><c:f>"@ + esc_text(s.cat_ref, Escape::Quoted)
        + "</c:f></c:numRef></c:xVal><c:yVal><c:numRef><c:f>"@ + esc_text(s.val_ref, Escape::Quoted)
        + "</c:f></c:numRef></c:yVal></c:ser>"@
}

/// The series from place `from` up to place `to`, as they are written.
pub open spec fn sers_text(series: Seq<Series>, from: int, to: int, points: bool) -> Seq<char>
    decreases to - from,
{
    if to <= from {
        Seq::empty()
    } else {
        sers_text(series, from, to - 1, points) + (if points {
            point_text((to - 1) as nat, series[to - 1])
        } else {
            ser_text((to - 1) as nat, series[to - 1], "cat"@)
        })
    }
}

pub open spec fn axes_text() -> Seq<char> {
    "<c:catAx><c:axId val=\"111111111\"/><c:scaling><c:orientation val=\"minMax\"/></c:scaling><c:delete val=\"0\"/><c:axPos val=\"b\"/><c:crossAx val=\"222222222\"/></c:catAx><c:valAx><c:axId val=\"222222222\"/><c:scaling><c:orientation val=\"minMax\"/></c:scaling><c:delete val=\"0\"/><c:axPos val=\"l\"/><c:crossAx val=\"111111111\"/></c:valAx>"@
}

pub open spec fn point_axes_text() -> Seq<char> {
    "<c:valAx><c:axId val=\"111111111\"/><c:scaling><c:orientation val=\"minMax\"/></c:scaling><c:delete val=\"0\"/><c:axPos val=\"b\"/><c:crossAx val=\"222222222\"/></c:valAx><c:valAx><c:axId val=\"222222222\"/><c:scaling><c:orientation val=\"minMax\"/></c:scaling><c:delete val=\"0\"/><c:axPos val=\"l\"/><c:crossAx val=\"111111111\"/></c:valAx>"@
}

pub open spec fn axis_ids() -> Seq<char> {
    "<c:axId val=\"111111111\"/><c:axId val=\"222222222\"/>"@
}

/// The plot of a chart as it is written. Bubbles are points, and a combination is a first series
/// in columns with the others as lines.
pub open spec fn plot_text(kind: ChartType, series: Seq<Series>) -> Seq<char> {
    let n = series.len() as int;
    let all = sers_text(series, 0, n, false);
    match kind {
        ChartType::Bar => "<c:barChart><c:barDir val=\"bar\"/><c:grouping val=\"clustered\"/>"@ + all
            + axis_ids() + "</c:barChart>"@ + axes_text(),
        ChartType::Column => "<c:barChart><c:barDir val=\"col\"/><c:grouping val=\"clustered\"/>"@
            + all + axis_ids() + "</c:barChart>"@ + axes_text(),
        ChartType::Line => "<c:lineChart><c:grouping val=\"standard\"/>"@ + all
            + "<c:marker val=\"1\"/>"@ + axis_ids() + "</c:lineChart>"@ + axes_text(),
        ChartType::Area => "<c:areaChart><c:grouping val=\"standard\"/>"@ + all + axis_ids()
            + "</c:areaChart>"@ + axes_text(),
        ChartType::Pie => "<c:pieChart><c:varyColors val=\"1\"/>"@ + all + "</c:pieChart>"@,
        ChartType::Doughnut => "<c:doughnutChart><c:varyColors val=\"1\"/>"@ + all
            + "<c:holeSize val=\"50\"/></c:doughnutChart>"@,
        ChartType::Scatter | ChartType::Bubble =>
        "<c:scatterChart><c:scatterStyle val=\"lineMarker\"/>"@ + sers_text(series, 0, n, true)
            + axis_ids() + "</c:scatterChart>"@ + point_axes_text(),
        ChartType::Radar => "<c:radarChart><c:radarStyle val=\"marker\"/>"@ + all + axis_ids()
            + "</c:radarChart>"@ + axes_text(),
        ChartType::Stock => "<c:stockChart>"@ + all + axis_ids() + "</c:stockChart>"@ + axes_text(),
        ChartType::Combo => opt(
            n > 0,
            "<c:barChart><c:barDir val=\"col\"/><c:grouping val=\"clustered\"/>"@ + sers_text(
                series,
                0,
                1,
                false,
            ) + axis_ids() + "</c:barChart>"@,
        ) + opt(
            n > 1,
            "<c:lineChart><c:grouping val=\"standard\"/>"@ + sers_text(series, 1, n, false)
                + "<c:marker val=\"1\"/>"@ + axis_ids() + "</c:lineChart>"@,
        ) + axes_text(),
    }
}

/// The title of a chart as it is written.
pub open spec fn title_text(title: Option<String>) -> Seq<char> {
    match title {
        Some(t) if t@.len() > 0 =>
        "<c:title><c:tx><c:rich><a:bodyPr/><a:p><a:r><a:t>"@ + esc_text(t@, Escape::Quoted)
            + "</a:t></a:r></a:p></c:rich></c:tx><c:overlay val=\"0\"/></c:title><c:autoTitleDeleted val=\"0\"/>"@,
        _ => "<c:autoTitleDeleted val=\"1\"/>"@,
    }
}

pub open spec fn has_legend(spec: ChartSpec) -> bool {
    spec.options matches Some(o) && o.legend == Some(true)
}

/// A chart as it is written.
pub open spec fn chart_text(sheet: Seq<char>, spec: ChartSpec, cells: Seq<CellSnapshot>) -> Seq<char> {
    xml_decl()
        + "<c:chartSpace xmlns:c=\"http://schemas.openxmlformats.org/drawingml/2006/chart\" xmlns:a=\"http://schemas.openxmlformats.org/drawingml/2006/main\" xmlns:r=\"http://schemas.openxmlformats.org/officeDocument/2006/relationships\"><c:chart>"@
        + title_text(spec.title) + "<c:plotArea><c:layout/>"@ + plot_text(
        spec.chart_type,
        chart_series(sheet, spec, cells),
    ) + "</c:plotArea>"@ + opt(
        has_legend(spec),
        "<c:legend><c:legendPos val=\"r\"/><c:overlay val=\"0\"/></c:legend>"@,
    ) + "<c:plotVisOnly val=\"1\"/><c:dispBlanksAs val=\"gap\"/></c:chart></c:chartSpace>"@
}

fn push_ser_head(out: &mut String, idx: usize, s: &SeriesRef)
    ensures
        final(out)@ == old(out)@ + ser_head(idx as nat, s@),
{
    let name_ref: String = esc(s.name_ref.as_str());
    let name_lit: String = esc(s.name_lit.as_str());
    let mut h: String = "<c:ser><c:idx val=\"".to_string();
    push_dec(&mut h, idx as u128);
    h.append("\"/><c:order val=\"");
    push_dec(&mut h, idx as u128);
    h.append("\"/><c:tx><c:strRef><c:f>");
    h.append(name_ref.as_str());
    h.append("</c:f><c:strCache><c:ptCount val=\"1\"/><c:pt idx=\"0\"><c:v>");
    h.append(name_lit.as_str());
    h.append("</c:v></c:pt></c:strCache></c:strRef></c:tx>");
    out.append(h.as_str());
}

/// A series as it is written, its categories under a tag.
pub fn ser_xml(idx: usize, s: &SeriesRef, cat_tag: &str) -> (r: String)
    ensures
        r@ == ser_text(idx as nat, s@, cat_tag@),
{
    let cat_ref: String = esc(s.cat_ref.as_str());
    let val_ref: String = esc(s.val_ref.as_str());
    let mut out: String = String::new();
    push_ser_head(&mut out, idx, s);
    assert(out@ == ser_head(idx as nat, s@));
    out.append("<c:");
    out.append(cat_tag);
    out.append("><c:numRef><c:f>");
    out.append(cat_ref.as_str());
    out.append("</c:f></c:numRef></c:");
    out.append(cat_tag);
    out.append("><c:val><c:numRef><c:f>");
    out.append(val_ref.as_str());
    out.append("</c:f></c:numRef></c:val></c:ser>");
    out
}

fn point_xml(idx: usize, s: &SeriesRef) -> (r: String)
    ensures
        r@ == point_text(idx as nat, s@),
{
    let cat_ref: String = esc(s.cat_ref.as_str());
    let val_ref: String = esc(s.val_ref.as_str());
    let mut out: String = String::new();
    push_ser_head(&mut out, idx, s);
    assert(out@ == ser_head(idx as nat, s@));
    out.append("<c:xVal><c:numRef><c:f>");
    out.append(cat_ref.as_str());
    out.append("</c:f></c:numRef></c:xVal><c:yVal><c:numRef><c:f>");
    out.append(val_ref.as_str());
    out.append("</c:f></c:numRef></c:yVal></c:ser>");
    out
}

fn sers_xml(series: &Vec<SeriesRef>, from: usize, to: usize, points: bool) -> (r: String)
    requires
        from <= to <= series.len(),
    ensures
        r@ == sers_text(series_views(series@), from as int, to as int, points),
{
    let ghost all = series_views(series@);
    let mut out: String = String::new();
    let mut i: usize = from;
    while i < to
        invariant
            from <= i <= to <= series.len(),
            all == series_views(series@),
            out@ == sers_text(all, from as int, i as int, points),
        decreases to - i,
    {
        assert(all[i as int] == series@[i as int]@);
        let s: String = if points {
            point_xml(i, &series[i])
        } else {
            ser_xml(i, &series[i], "cat")
        };
        out.append(s.as_str());
        i = i + 1;
    }
    out
}

fn axes() -> (r: &'static str)
    ensures
        r@ == axes_text(),
{
    "<c:catAx><c:axId val=\"111111111\"/><c:scaling><c:orientation val=\"minMax\"/></c:scaling><c:delete val=\"0\"/><c:axPos val=\"b\"/><c:crossAx val=\"222222222\"/></c:catAx><c:valAx><c:axId val=\"222222222\"/><c:scaling><c:orientation val=\"minMax\"/></c:scaling><c:delete val=\"0\"/><c:axPos val=\"l\"/><c:crossAx val=\"111111111\"/></c:valAx>"
}

fn point_axes() -> (r: &'static str)
    ensures
        r@ == point_axes_text(),
{
    "<c:valAx><c:axId val=\"111111111\"/><c:scaling><c:orientation val=\"minMax\"/></c:scaling><c:delete val=\"0\"/><c:axPos val=\"b\"/><c:crossAx val=\"222222222\"/></c:valAx><c:valAx><c:axId val=\"222222222\"/><c:scaling><c:orientation val=\"minMax\"/></c:scaling><c:delete val=\"0\"/><c:axPos val=\"l\"/><c:crossAx val=\"111111111\"/></c:valAx>"
}

fn framed(head: &str, sers: &str, tail: &str, end: &str) -> (r: String)
    ensures
        r@ == head@ + sers@ + axis_ids() + tail@ + end@,
{
    let mut out: String = head.to_string();
    out.append(sers);
    out.append("<c:axId val=\"111111111\"/><c:axId val=\"222222222\"/>");
    out.append(tail);
    out.append(end);
    out
}

fn lines(sers: &str) -> (r: String)
    ensures
        r@ == "<c:lineChart><c:grouping val=\"standard\"/>"@ + sers@ + "<c:marker val=\"1\"/>"@
            + axis_ids() + "</c:lineChart>"@,
{
    let mut out: String = "<c:lineChart><c:grouping val=\"standard\"/>".to_string();
    out.append(sers);
    out.append("<c:marker val=\"1\"/>");
    out.append("<c:axId val=\"111111111\"/><c:axId val=\"222222222\"/>");
    out.append("</c:lineChart>");
    out
}

/// The plot of a chart as it is written.
pub fn plot_area_xml(kind: ChartType, series: &Vec<SeriesRef>) -> (r: String)
    ensures
        r@ == plot_text(kind, series_views(series@)),
{
    let n: usize = series.len();
    let all: String = sers_xml(series, 0, n, false);
    let ghost views = series_views(series@);
    assert(views.len() == n);
    match kind {
        ChartType::Bar => framed(
            "<c:barChart><c:barDir val=\"bar\"/><c:grouping val=\"clustered\"/>",
            all.as_str(),
            "</c:barChart>",
            axes(),
        ),
        ChartType::Column => framed(
            "<c:barChart><c:barDir val=\"col\"/><c:grouping val=\"clustered\"/>",
            all.as_str(),
            "</c:barChart>",
            axes(),
        ),
        ChartType::Line => {
            let mut out: String = lines(all.as_str());
            out.append(axes());
            out
        },
        ChartType::Area => framed(
            "<c:areaChart><c:grouping val=\"standard\"/>",
            all.as_str(),
            "</c:areaChart>",
            axes(),
        ),
        ChartType::Pie => {
            let mut out: String = "<c:pieChart><c:varyColors val=\"1\"/>".to_string();
            out.append(all.as_str());
            out.append("</c:pieChart>");
            out
        },
        ChartType::Doughnut => {
            let mut out: String = "<c:doughnutChart><c:varyColors val=\"1\"/>".to_string();
            out.append(all.as_str());
            out.append("<c:holeSize val=\"50\"/></c:doughnutChart>");
            out
        },
        ChartType::Scatter | ChartType::Bubble => {
            let points: String = sers_xml(series, 0, n, true);
            framed(
                "<c:scatterChart><c:scatterStyle val=\"lineMarker\"/>",
                points.as_str(),
                "</c:scatterChart>",
                point_axes(),
            )
        },
        ChartType::Radar => framed(
            "<c:radarChart><c:radarStyle val=\"marker\"/>",
            all.as_str(),
            "</c:radarChart>",
            axes(),
        ),
        ChartType::Stock => framed("<c:stockChart>", all.as_str(), "</c:stockChart>", axes()),
        ChartType::Combo => {
            let mut out: String = String::new();
            if n > 0 {
                let first: String = sers_xml(series, 0, 1, false);
                out = "<c:barChart><c:barDir val=\"col\"/><c:grouping val=\"clustered\"/>".to_string();
                out.append(first.as_str());
                out.append("<c:axId val=\"111111111\"/><c:axId val=\"222222222\"/>");
                out.append("</c:barChart>");
            }
            let mut rest: String = String::new();
            if n > 1 {
                let others: String = sers_xml(series, 1, n, false);
                rest = lines(others.as_str());
            }
            out.append(rest.as_str());
            out.append(axes());
            out
        },
    }
}

/// A chart as it is written.
pub fn chart_xml(sheet: &str, spec: &ChartSpec, snap: &SheetSnapshot) -> (r: String)
    requires
        chart_fits(*spec),
    ensures
        r@ == chart_text(sheet@, *spec, snap.cells@),
{
    let series: Vec<SeriesRef> = series_refs(sheet, spec, snap);
    let legend = match &spec.options {
        Some(o) => match o.legend {
            Some(b) => b,
            None => false,
        },
        None => false,
    };
    let mut title: String = "<c:autoTitleDeleted val=\"1\"/>".to_string();
    if let Some(t) = &spec.title {
        if !t.as_str().is_empty() {
            let e: String = esc(t.as_str());
            title = "<c:title><c:tx><c:rich><a:bodyPr/><a:p><a:r><a:t>".to_string();
            title.append(e.as_str());
            title.append(
                "</a:t></a:r></a:p></c:rich></c:tx><c:overlay val=\"0\"/></c:title><c:autoTitleDeleted val=\"0\"/>",
            );
        }
    }
    assert(title@ == title_text(spec.title));
    let plot: String = plot_area_xml(spec.chart_type, &series);
    let mut out: String = xml_declaration();
    out.append(
        "<c:chartSpace xmlns:c=\"http://schemas.openxmlformats.org/drawingml/2006/chart\" xmlns:a=\"http://schemas.openxmlformats.org/drawingml/2006/main\" xmlns:r=\"http://schemas.openxmlformats.org/officeDocument/2006/relationships\"><c:chart>",
    );
    out.append(title.as_str());
    out.append("<c:plotArea><c:layout/>");
    out.append(plot.as_str());
    out.append("</c:plotArea>");
    push_if(
        &mut out,
        legend,
        "<c:legend><c:legendPos val=\"r\"/><c:overlay val=\"0\"/></c:legend>",
    );
    out.append("<c:plotVisOnly val=\"1\"/><c:dispBlanksAs val=\"gap\"/></c:chart></c:chartSpace>");
    out
}

/// Where a chart stands: its number in the drawing, from row and column, to row and column.
pub open spec fn anchor_text(a: (usize, u32, u32, u32, u32)) -> Seq<char> {
    "<xdr:twoCellAnchor><xdr:from><xdr:col>"@ + dec(a.2 as nat)
        + "</xdr:col><xdr:colOff>0</xdr:colOff><xdr:row>"@ + dec(a.1 as nat)
        + "</xdr:row><xdr:rowOff>0</xdr:rowOff></xdr:from><xdr:to><xdr:col>"@ + dec(a.4 as nat)
        + "</xdr:col><xdr:colOff>0</xdr:colOff><xdr:row>"@ + dec(a.3 as nat)
        + "</xdr:row><xdr:rowOff>0</xdr:rowOff></xdr:to><xdr:graphicFrame macro=\"\"><xdr:nvGraphicFramePr><xdr:cNvPr id=\""@
        + dec(a.0 as nat) + "\" name=\"Chart "@ + dec(a.0 as nat)
        + "\"/><xdr:cNvGraphicFramePr/></xdr:nvGraphicFramePr><xdr:xfrm><a:off x=\"0\" y=\"0\"/><a:ext cx=\"0\" cy=\"0\"/></xdr:xfrm><a:graphic><a:graphicData uri=\"http://schemas.openxmlformats.org/drawingml/2006/chart\"><c:chart xmlns:c=\"http://schemas.openxmlformats.org/drawingml/2006/chart\" xmlns:r=\"http://schemas.openxmlformats.org/officeDocument/2006/relationships\" r:id=\"rId"@
        + dec(a.0 as nat)
        + "\"/></a:graphicData></a:graphic></xdr:graphicFrame><xdr:clientData/></xdr:twoCellAnchor>"@
}

pub open spec fn anchors_text(anchors: Seq<(usize, u32, u32, u32, u32)>) -> Seq<char>
    decreases anchors.len(),
{
    if anchors.len() == 0 {
        Seq::empty()
    } else {
        anchors_text(anchors.drop_last()) + anchor_text(anchors.last())
    }
}

/// A drawing as it is written.
pub open spec fn drawing_text(anchors: Seq<(usize, u32, u32, u32, u32)>) -> Seq<char> {
    xml_decl()
        + "<xdr:wsDr xmlns:xdr=\"http://schemas.openxmlformats.org/drawingml/2006/spreadsheetDrawing\" xmlns:a=\"http://schemas.openxmlformats.org/drawingml/2006/main\">"@
        + anchors_text(anchors) + "</xdr:wsDr>"@
}

fn push_anchor(out: &mut String, a: &(usize, u32, u32, u32, u32))
    ensures
        final(out)@ == old(out)@ + anchor_text(*a),
{
    let mut s: String = "<xdr:twoCellAnchor><xdr:from><xdr:col>".to_string();
    push_dec(&mut s, a.2 as u128);
    s.append("</xdr:col><xdr:colOff>0</xdr:colOff><xdr:row>");
    push_dec(&mut s, a.1 as u128);
    s.append("</xdr:row><xdr:rowOff>0</xdr:rowOff></xdr:from><xdr:to><xdr:col>");
    push_dec(&mut s, a.4 as u128);
    s.append("</xdr:col><xdr:colOff>0</xdr:colOff><xdr:row>");
    push_dec(&mut s, a.3 as u128);
    s.append(
        "</xdr:row><xdr:rowOff>0</xdr:rowOff></xdr:to><xdr:graphicFrame macro=\"\"><xdr:nvGraphicFramePr><xdr:cNvPr id=\"",
    );
    push_dec(&mut s, a.0 as u128);
    s.append("\" name=\"Chart ");
    push_dec(&mut s, a.0 as u128);
    s.append(
        "\"/><xdr:cNvGraphicFramePr/></xdr:nvGraphicFramePr><xdr:xfrm><a:off x=\"0\" y=\"0\"/><a:ext cx=\"0\" cy=\"0\"/></xdr:xfrm><a:graphic><a:graphicData uri=\"http://schemas.openxmlformats.org/drawingml/2006/chart\"><c:chart xmlns:c=\"http://schemas.openxmlformats.org/drawingml/2006/chart\" xmlns:r=\"http://schemas.openxmlformats.org/officeDocument/2006/relationships\" r:id=\"rId",
    );
    push_dec(&mut s, a.0 as u128);
    s.append(
        "\"/></a:graphicData></a:graphic></xdr:graphicFrame><xdr:clientData/></xdr:twoCellAnchor>",
    );
    out.append(s.as_str());
}

/// A drawing as it is written: each chart between its cells.
pub fn drawing_xml(anchors: &[(usize, u32, u32, u32, u32)]) -> (r: String)
    ensures
        r@ == drawing_text(anchors@),
{
    let mut body: String = String::new();
    let mut i: usize = 0;
    while i < anchors.len()
        invariant
            i <= anchors@.len(),
            body@ == anchors_text(anchors@.take(i as int)),
        decreases anchors@.len() - i,
    {
        assert(anchors@.take(i + 1).drop_last() == anchors@.take(i as int));
        push_anchor(&mut body, &anchors[i]);
        i = i + 1;
    }
    assert(anchors@.take(i as int) == anchors@);
    let mut out: String = xml_declaration();
    out.append(
        "<xdr:wsDr xmlns:xdr=\"http://schemas.openxmlformats.org/drawingml/2006/spreadsheetDrawing\" xmlns:a=\"http://schemas.openxmlformats.org/drawingml/2006/main\">",
    );
    out.append(body.as_str());
    out.append("</xdr:wsDr>");
    out
}

/// The relations of a drawing to its first `n` charts, where `before` charts of the workbook stand
/// in front of them.
pub open spec fn chart_rels(before: nat, n: nat) -> Seq<char>
    decreases n,
{
    if n == 0 {
        Seq::empty()
    } else {
        chart_rels(before, (n - 1) as nat) + "<Relationship Id=\"rId"@ + dec(n)
            + "\" Type=\"http://schemas.openxmlformats.org/officeDocument/2006/relationships/chart\" Target=\"../charts/chart"@
            + dec(before + n) + ".xml\"/>"@
    }
}

/// The relations of a drawing as they are written.
pub open spec fn drawing_rels_text(before: nat, n: nat) -> Seq<char> {
    xml_decl()
        + "<Relationships xmlns=\"http://schemas.openxmlformats.org/package/2006/relationships\">"@
        + chart_rels(before, n) + "</Relationships>"@
}

/// The relations of a drawing to the first charts of a workbook.
pub fn drawing_rels_xml(chart_count: usize) -> (r: String)
    ensures
        r@ == drawing_rels_text(0, chart_count as nat),
{
    drawing_rels_after(0, chart_count)
}

/// The relations of a drawing to its charts, where `before` charts of the workbook stand in front of
/// them.
pub fn drawing_rels_after(before: usize, chart_count: usize) -> (r: String)
    ensures
        r@ == drawing_rels_text(before as nat, chart_count as nat),
{
    let mut rels: String = String::new();
    let mut i: usize = 0;
    while i < chart_count
        invariant
            i <= chart_count,
            rels@ == chart_rels(before as nat, i as nat),
        decreases chart_count - i,
    {
        i = i + 1;
        rels.append("<Relationship Id=\"rId");
        push_dec(&mut rels, i as u128);
        rels.append(
            "\" Type=\"http://schemas.openxmlformats.org/officeDocument/2006/relationships/chart\" Target=\"../charts/chart",
        );
        push_dec(&mut rels, before as u128 + i as u128);
        rels.append(".xml\"/>");
    }
    let mut out: String = xml_declaration();
    out.append(
        "<Relationships xmlns=\"http://schemas.openxmlformats.org/package/2006/relationships\">",
    );
    out.append(rels.as_str());
    out.append("</Relationships>");
    out
}

// ---- sparklines

pub open spec fn native_name(t: SparklineType) -> Seq<char> {
    match t {
        SparklineType::Line | SparklineType::Area => "line"@,
        SparklineType::Column | SparklineType::Bar | SparklineType::Bullet | SparklineType::Pie =>
        "column"@,
        SparklineType::Winloss => "stacked"@,
    }
}

/// The kind of sparkline that files have for a kind: lines, columns or stacks.
pub fn native_sparkline_type(t: SparklineType) -> (r: &'static str)
    ensures
        r@ == native_name(t),
{
    match t {
        SparklineType::Line | SparklineType::Area => "line",
        SparklineType::Column | SparklineType::Bar | SparklineType::Bullet | SparklineType::Pie =>
        "column",
        SparklineType::Winloss => "stacked",
    }
}

pub open spec fn is_line(t: SparklineType) -> bool {
    t is Line || t is Area
}

/// A sparkline as it is written; lines need not say that they are.
pub open spec fn sparkline_text(sheet: Seq<char>, e: SparklineEntry) -> Seq<char> {
    "<x14:sparklineGroup"@ + opt(
        !is_line(e.2.sparkline_type),
        " type=\""@ + native_name(e.2.sparkline_type) + "\""@,
    ) + opt(e.2.markers == Some(true), " markers=\"1\""@)
        + " displayEmptyCellsAs=\"gap\"><x14:sparklines><x14:sparkline><xm:f>"@ + esc_text(
        region_ref(sheet, e.2.data_range),
        Escape::Quoted,
    ) + "</xm:f><xm:sqref>"@ + esc_text(addr(e.0 as nat, e.1 as nat), Escape::Quoted)
        + "</xm:sqref></x14:sparkline></x14:sparklines></x14:sparklineGroup>"@
}

pub open spec fn sparklines_text(sheet: Seq<char>, list: Seq<SparklineEntry>) -> Seq<char>
    decreases list.len(),
{
    if list.len() == 0 {
        Seq::empty()
    } else {
        sparklines_text(sheet, list.drop_last()) + sparkline_text(sheet, list.last())
    }
}

/// The sparklines of a sheet as they are written.
pub open spec fn ext_text(sheet: Seq<char>, list: Seq<SparklineEntry>) -> Seq<char> {
    opt(
        list.len() > 0,
        "<extLst><ext xmlns:x14=\"http://schemas.microsoft.com/office/spreadsheetml/2009/9/main\" uri=\"{05C60535-1F16-4fd2-B633-F4F36F0B64E0}\"><x14:sparklineGroups xmlns:xm=\"http://schemas.microsoft.com/office/excel/2006/main\">"@
            + sparklines_text(sheet, list) + "</x14:sparklineGroups></ext></extLst>"@,
    )
}

/// Whether the blocks of sparklines have addresses.
pub open spec fn sparklines_fit(list: Seq<SparklineEntry>) -> bool {
    forall|k: int| 0 <= k < list.len() ==> region_fits((#[trigger] list[k]).2.data_range)
}

/// Whether the blocks of sparklines have addresses.
pub fn sparklines_in_sheet(list: &[SparklineEntry]) -> (r: bool)
    ensures
        r == sparklines_fit(list@),
{
    let mut i: usize = 0;
    while i < list.len()
        invariant
            i <= list.len(),
            forall|k: int| 0 <= k < i ==> region_fits((#[trigger] list@[k]).2.data_range),
        decreases list.len() - i,
    {
        if !region_in_sheet(&list[i].2.data_range) {
            assert(!region_fits(list@[i as int].2.data_range));
            return false;
        }
        i = i + 1;
    }
    true
}

/// A sparkline as it is written.
pub fn sparkline_group_xml(sheet: &str, entry: &SparklineEntry) -> (r: String)
    requires
        region_fits(entry.2.data_range),
    ensures
        r@ == sparkline_text(sheet@, *entry),
{
    let kind = entry.2.sparkline_type;
    let line = match kind {
        SparklineType::Line | SparklineType::Area => true,
        _ => false,
    };
    let mut attr: String = " type=\"".to_string();
    attr.append(native_sparkline_type(kind));
    attr.append("\"");
    let markers = match entry.2.markers {
        Some(b) => b,
        None => false,
    };
    let data: String = sheet_region_ref(sheet, &entry.2.data_range);
    let data_esc: String = esc(data.as_str());
    let loc: String = format_addr(entry.0, entry.1);
    let loc_esc: String = esc(loc.as_str());
    let mut out: String = "<x14:sparklineGroup".to_string();
    push_if(&mut out, !line, attr.as_str());
    push_if(&mut out, markers, " markers=\"1\"");
    out.append(" displayEmptyCellsAs=\"gap\"><x14:sparklines><x14:sparkline><xm:f>");
    out.append(data_esc.as_str());
    out.append("</xm:f><xm:sqref>");
    out.append(loc_esc.as_str());
    out.append("</xm:sqref></x14:sparkline></x14:sparklines></x14:sparklineGroup>");
    out
}

/// The sparklines of a sheet as they are written; nothing where it has none.
pub fn sparkline_ext_lst(sheet: &str, snap: &SheetSnapshot) -> (r: String)
    requires
        sparklines_fit(snap.sparklines@),
    ensures
        r@ == ext_text(sheet@, snap.sparklines@),
{
    let list = &snap.sparklines;
    if list.len() == 0 {
        return String::new();
    }
    let mut groups: String = String::new();
    let mut i: usize = 0;
    while i < list.len()
        invariant
            i <= list.len(),
            list == &snap.sparklines,
            sparklines_fit(list@),
            groups@ == sparklines_text(sheet@, list@.take(i as int)),
        decreases list.len() - i,
    {
        assert(list@.take(i + 1).drop_last() == list@.take(i as int));
        let g: String = sparkline_group_xml(sheet, &list[i]);
        groups.append(g.as_str());
        i = i + 1;
    }
    assert(list@.take(i as int) == list@);
    let mut out: String =
        "<extLst><ext xmlns:x14=\"http://schemas.microsoft.com/office/spreadsheetml/2009/9/main\" uri=\"{05C60535-1F16-4fd2-B633-F4F36F0B64E0}\"><x14:sparklineGroups xmlns:xm=\"http://schemas.microsoft.com/office/excel/2006/main\">".to_string();
    out.append(groups.as_str());
    out.append("</x14:sparklineGroups></ext></extLst>");
    out
}

// ---- the charts of a sheet

pub open spec fn is_chart(o: FloatingObject) -> bool {
    o.kind is Chart && o.chart is Some
}

/// The charts among floating objects.
pub open spec fn charts(objects: Seq<FloatingObject>) -> Seq<ChartSpec>
    decreases objects.len(),
{
    if objects.len() == 0 {
        Seq::empty()
    } else if is_chart(objects.last()) {
        charts(objects.drop_last()).push(objects.last().chart->0)
    } else {
        charts(objects.drop_last())
    }
}

/// Where the charts among floating objects stand.
pub open spec fn anchors(objects: Seq<FloatingObject>) -> Seq<(u32, u32, u32, u32)>
    decreases objects.len(),
{
    if objects.len() == 0 {
        Seq::empty()
    } else if is_chart(objects.last()) {
        let a = objects.last().anchor;
        anchors(objects.drop_last()).push((a.from_row, a.from_col, a.to_row, a.to_col))
    } else {
        anchors(objects.drop_last())
    }
}

/// What references point to.
pub open spec fn deref<T>(s: Seq<&T>) -> Seq<T> {
    Seq::new(s.len(), |i: int| *s[i])
}

/// The charts of a sheet.
pub fn sheet_charts(snap: &SheetSnapshot) -> (r: Vec<&ChartSpec>)
    ensures
        deref(r@) == charts(snap.floating_objects@),
{
    let objects = &snap.floating_objects;
    let mut out: Vec<&ChartSpec> = Vec::new();
    let mut i: usize = 0;
    assert(deref(out@) == charts(objects@.take(0)));
    while i < objects.len()
        invariant
            i <= objects.len(),
            deref(out@) == charts(objects@.take(i as int)),
        decreases objects.len() - i,
    {
        assert(objects@.take(i + 1).drop_last() == objects@.take(i as int));
        let ghost before = deref(out@);
        if let FloatingKind::Chart = objects[i].kind {
            if let Some(c) = &objects[i].chart {
                out.push(c);
                assert(deref(out@) == before.push(*c));
            }
        }
        i = i + 1;
    }
    assert(objects@.take(i as int) == objects@);
    out
}

/// Where the charts of a sheet stand: from row and column, to row and column.
pub fn chart_anchors(snap: &SheetSnapshot) -> (r: Vec<(u32, u32, u32, u32)>)
    ensures
        r@ == anchors(snap.floating_objects@),
{
    let objects = &snap.floating_objects;
    let mut out: Vec<(u32, u32, u32, u32)> = Vec::new();
    let mut i: usize = 0;
    while i < objects.len()
        invariant
            i <= objects.len(),
            out@ == anchors(objects@.take(i as int)),
        decreases objects.len() - i,
    {
        assert(objects@.take(i + 1).drop_last() == objects@.take(i as int));
        if let FloatingKind::Chart = objects[i].kind {
            if objects[i].chart.is_some() {
                let a = &objects[i].anchor;
                out.push((a.from_row, a.from_col, a.to_row, a.to_col));
            }
        }
        i = i + 1;
    }
    assert(objects@.take(i as int) == objects@);
    out
}

/// Each chart of a sheet has one place.
pub proof fn charts_and_anchors(objects: Seq<FloatingObject>)
    ensures
        charts(objects).len() == anchors(objects).len(),
    decreases objects.len(),
{
    if objects.len() > 0 {
        charts_and_anchors(objects.drop_last());
    }
}

} // verus!
