//! Sheets as HTML tables.
use crate::decimal::{dec, push_dec};
use crate::snapshot::{RegionRect, Span};
use crate::style::{text_view, BorderEdge, HAlign, Style, VAlign};
use crate::text::{join, join_texts, opt, push_if, texts};
use crate::worksheet::{span_at, Worksheet};
use crate::xlsx_style::signed;
use crate::xml::{esc_text, escape, Escape};
use vstd::prelude::*;

verus! {

/// What to write.
#[derive(Debug, Clone)]
pub struct ExportHtmlOptions {
    /// The cells; all where none are given.
    pub range: Option<RegionRect>,
    /// Whether to write a whole document, not the table alone.
    pub full_document: bool,
    /// The document's title; the sheet's name where none is given.
    pub title: Option<String>,
    /// Whether to draw grid lines; as a rule.
    pub gridlines: Option<bool>,
}

/// How a cell looks: its style with what conditions add, its text, the colour that its format
/// gives the text, and the fill that conditions give it.
#[derive(Debug, Clone)]
pub struct CellLook {
    pub style: Style,
    pub text: String,
    pub color: Option<String>,
    pub fill: Option<String>,
}

/// A text with `& < >` escaped.
pub fn escape_html(s: &str) -> (r: String)
    ensures
        r@ == esc_text(s@, Escape::Html),
{
    escape(s, Escape::Html)
}

pub open spec fn h_css(h: HAlign) -> Seq<char> {
    match h {
        HAlign::Left | HAlign::Fill => "left"@,
        HAlign::Center | HAlign::CenterContinuous => "center"@,
        HAlign::Right => "right"@,
        HAlign::Justify => "justify"@,
    }
}

pub open spec fn v_css(v: VAlign) -> Seq<char> {
    match v {
        VAlign::Top => "top"@,
        VAlign::Middle => "middle"@,
        VAlign::Bottom => "bottom"@,
    }
}

/// The CSS name of a horizontal alignment.
pub fn h_align_css(h: HAlign) -> (r: &'static str)
    ensures
        r@ == h_css(h),
{
    match h {
        HAlign::Left | HAlign::Fill => "left",
        HAlign::Center | HAlign::CenterContinuous => "center",
        HAlign::Right => "right",
        HAlign::Justify => "justify",
    }
}

/// The CSS name of a vertical alignment.
pub fn v_align_css(v: VAlign) -> (r: &'static str)
    ensures
        r@ == v_css(v),
{
    match v {
        VAlign::Top => "top",
        VAlign::Middle => "middle",
        VAlign::Bottom => "bottom",
    }
}

/// A declaration where a value is there.
pub open spec fn css_opt(head: Seq<char>, v: Option<Seq<char>>, tail: Seq<char>) -> Seq<Seq<char>> {
    match v {
        Some(t) => seq![head + t + tail],
        None => Seq::empty(),
    }
}

pub open spec fn css_flag(b: Option<bool>, t: Seq<char>) -> Seq<Seq<char>> {
    if b == Some(true) {
        seq![t]
    } else {
        Seq::empty()
    }
}

/// The first of two values that is there.
pub open spec fn first_of(a: Option<Seq<char>>, b: Option<Seq<char>>) -> Option<Seq<char>> {
    if a is Some {
        a
    } else {
        b
    }
}

pub open spec fn edge_color(e: Option<BorderEdge>) -> Option<Seq<char>> {
    match e {
        Some(x) => Some(x.color@),
        None => None,
    }
}

/// The declarations of a border. Where the style sets none, a grid line stands for it if grid lines
/// are drawn.
pub open spec fn border_css(s: Style, grid: bool) -> Seq<Seq<char>> {
    match s.borders {
        Some(b) => css_opt("border-top:1px solid "@, edge_color(b.top), Seq::empty()) + css_opt(
            "border-right:1px solid "@,
            edge_color(b.right),
            Seq::empty(),
        ) + css_opt("border-bottom:1px solid "@, edge_color(b.bottom), Seq::empty()) + css_opt(
            "border-left:1px solid "@,
            edge_color(b.left),
            Seq::empty(),
        ),
        None => if grid {
            seq!["border:1px solid #d0d4da"@]
        } else {
            Seq::empty()
        },
    }
}

/// The declarations of a cell.
pub open spec fn cell_css(l: CellLook, grid: bool) -> Seq<Seq<char>> {
    let s = l.style;
    css_flag(s.bold, "font-weight:bold"@) + css_flag(s.italic, "font-style:italic"@) + css_flag(
        s.underline,
        "text-decoration:underline"@,
    ) + css_opt(
        "text-align:"@,
        match s.h_align {
            Some(h) => Some(h_css(h)),
            None => None,
        },
        Seq::empty(),
    ) + css_opt(
        "vertical-align:"@,
        match s.v_align {
            Some(v) => Some(v_css(v)),
            None => None,
        },
        Seq::empty(),
    ) + css_opt(
        "background-color:"@,
        first_of(text_view(l.fill), text_view(s.back_color)),
        Seq::empty(),
    ) + css_opt("color:"@, first_of(text_view(l.color), text_view(s.fore_color)), Seq::empty())
        + css_opt("font-size:"@, text_view(s.font_size), "px"@) + border_css(s, grid)
}

/// The rows and columns that a cell takes.
pub open spec fn span_attrs(s: Option<Span>) -> Seq<char> {
    match s {
        Some(x) => opt(x.row_count > 1, " rowspan=\""@ + dec(x.row_count as nat) + "\""@) + opt(
            x.col_count > 1,
            " colspan=\""@ + dec(x.col_count as nat) + "\""@,
        ),
        None => Seq::empty(),
    }
}

/// A cell as it is written.
pub open spec fn td(spans: Seq<Span>, r: u32, c: u32, l: CellLook, grid: bool) -> Seq<char> {
    "<td"@ + span_attrs(span_at(spans, r, c)) + " style=\""@ + join(cell_css(l, grid), ";"@)
        + ";padding:1px 4px\">"@ + esc_text(l.text@, Escape::Html) + "</td>"@
}

/// Whether a cell is merged into another one.
pub open spec fn is_covered(spans: Seq<Span>, r: u32, c: u32) -> bool {
    span_at(spans, r, c) matches Some(s) && (s.row != r || s.col != c)
}

/// The first `n` cells of a row, from column `col` on.
pub open spec fn tds(
    spans: Seq<Span>,
    r: u32,
    col: u32,
    looks: Seq<CellLook>,
    grid: bool,
    n: int,
) -> Seq<char>
    decreases n,
{
    if n <= 0 {
        Seq::empty()
    } else {
        let c = (col + n - 1) as u32;
        if is_covered(spans, r, c) {
            tds(spans, r, col, looks, grid, n - 1)
        } else {
            tds(spans, r, col, looks, grid, n - 1) + td(spans, r, c, looks[n - 1], grid)
        }
    }
}

/// The first `n` rows of a block.
pub open spec fn trs(
    spans: Seq<Span>,
    g: RegionRect,
    looks: Seq<Vec<CellLook>>,
    heights: Seq<i64>,
    grid: bool,
    n: int,
) -> Seq<char>
    decreases n,
{
    if n <= 0 {
        Seq::empty()
    } else {
        trs(spans, g, looks, heights, grid, n - 1) + "<tr style=\"height:"@ + signed(heights[n - 1] as int)
            + "px\">"@ + tds(
            spans,
            (g.row + n - 1) as u32,
            g.col,
            looks[n - 1]@,
            grid,
            g.col_count as int,
        ) + "</tr>"@
    }
}

/// The widths of columns.
pub open spec fn col_tags(widths: Seq<i64>) -> Seq<char>
    decreases widths.len(),
{
    if widths.len() == 0 {
        Seq::empty()
    } else {
        col_tags(widths.drop_last()) + "<col style=\"width:"@ + signed(widths.last() as int) + "px\">"@
    }
}

/// The cells to write.
pub open spec fn html_range(ws: Worksheet, opts: ExportHtmlOptions) -> RegionRect {
    match opts.range {
        Some(g) => g,
        None => RegionRect { row: 0, col: 0, row_count: ws.row_count, col_count: ws.col_count },
    }
}

/// Whether grid lines are drawn.
pub open spec fn has_grid(opts: ExportHtmlOptions) -> bool {
    opts.gridlines != Some(false)
}

/// The table.
pub open spec fn table_html(
    ws: Worksheet,
    opts: ExportHtmlOptions,
    looks: Seq<Vec<CellLook>>,
    widths: Seq<i64>,
    heights: Seq<i64>,
) -> Seq<char> {
    "<table style=\""@ + opt(has_grid(opts), "border-collapse:collapse;"@)
        + "font-family:Arial,sans-serif;font-size:13px\"><colgroup>"@ + col_tags(widths)
        + "</colgroup><tbody>"@ + trs(
        ws.spans@,
        html_range(ws, opts),
        looks,
        heights,
        has_grid(opts),
        html_range(ws, opts).row_count as int,
    ) + "</tbody></table>"@
}

/// The table, in a document where one is asked for.
pub open spec fn html_text(
    ws: Worksheet,
    opts: ExportHtmlOptions,
    looks: Seq<Vec<CellLook>>,
    widths: Seq<i64>,
    heights: Seq<i64>,
) -> Seq<char> {
    if opts.full_document {
        "<!DOCTYPE html><html><head><meta charset=\"utf-8\"><title>"@ + esc_text(
            match opts.title {
                Some(t) => t@,
                None => ws.name@,
            },
            Escape::Html,
        ) + "</title></head><body>"@ + table_html(ws, opts, looks, widths, heights)
            + "</body></html>"@
    } else {
        table_html(ws, opts, looks, widths, heights)
    }
}

/// Whether looks and sizes are those of a block inside the sheet.
pub open spec fn looks_fit(
    g: RegionRect,
    looks: Seq<Vec<CellLook>>,
    widths: Seq<i64>,
    heights: Seq<i64>,
) -> bool {
    &&& g.row + g.row_count <= u32::MAX
    &&& g.col + g.col_count <= u32::MAX
    &&& looks.len() == g.row_count
    &&& heights.len() == g.row_count
    &&& widths.len() == g.col_count
    &&& forall|k: int| 0 <= k < looks.len() ==> (#[trigger] looks[k])@.len() == g.col_count
}

fn push_css(parts: &mut Vec<String>, head: &str, v: Option<&str>, tail: &str)
    ensures
        texts(final(parts)@) == texts(old(parts)@) + css_opt(
            head@,
            match v {
                Some(t) => Some(t@),
                None => None,
            },
            tail@,
        ),
{
    let ghost before = texts(parts@);
    match v {
        Some(t) => {
            let mut s: String = head.to_string();
            s.append(t);
            s.append(tail);
            let ghost st = s@;
            parts.push(s);
            assert(texts(parts@) == before + seq![st]);
        },
        None => {
            assert(before + Seq::<Seq<char>>::empty() == before);
        },
    }
}

fn push_flag(parts: &mut Vec<String>, b: Option<bool>, t: &str)
    ensures
        texts(final(parts)@) == texts(old(parts)@) + css_flag(b, t@),
{
    let ghost before = texts(parts@);
    if let Some(true) = b {
        parts.push(t.to_string());
        assert(texts(parts@) == before + seq![t@]);
    } else {
        assert(before + Seq::<Seq<char>>::empty() == before);
    }
}

fn str_of(o: &Option<String>) -> (r: Option<&str>)
    ensures
        match r {
            Some(t) => text_view(*o) == Some(t@),
            None => o is None,
        },
{
    match o {
        Some(s) => Some(s.as_str()),
        None => None,
    }
}

fn color_of(e: &Option<BorderEdge>) -> (r: Option<&str>)
    ensures
        match r {
            Some(t) => edge_color(*e) == Some(t@),
            None => e is None,
        },
{
    match e {
        Some(x) => Some(x.color.as_str()),
        None => None,
    }
}

fn borders_css(s: &Style, grid: bool) -> (r: Vec<String>)
    ensures
        texts(r@) == border_css(*s, grid),
{
    proof {
        reveal_strlit("");
    }
    assert(""@ == Seq::<char>::empty());
    let mut css: Vec<String> = Vec::new();
    assert(texts(css@) == Seq::<Seq<char>>::empty());
    match &s.borders {
        Some(b) => {
            push_css(&mut css, "border-top:1px solid ", color_of(&b.top), "");
            assert(texts(css@) == css_opt("border-top:1px solid "@, edge_color(b.top), Seq::empty()));
            push_css(&mut css, "border-right:1px solid ", color_of(&b.right), "");
            push_css(&mut css, "border-bottom:1px solid ", color_of(&b.bottom), "");
            push_css(&mut css, "border-left:1px solid ", color_of(&b.left), "");
        },
        None => {
            if grid {
                css.push("border:1px solid #d0d4da".to_string());
                assert(texts(css@) == seq!["border:1px solid #d0d4da"@]);
            }
        },
    }
    css
}

fn look_css(look: &CellLook, grid: bool) -> (r: Vec<String>)
    ensures
        texts(r@) == cell_css(*look, grid),
{
    proof {
        reveal_strlit("");
    }
    assert(""@ == Seq::<char>::empty());
    let s = &look.style;
    let mut css: Vec<String> = Vec::new();
    assert(texts(css@) == Seq::<Seq<char>>::empty());
    push_flag(&mut css, s.bold, "font-weight:bold");
    assert(texts(css@) == css_flag(s.bold, "font-weight:bold"@));
    push_flag(&mut css, s.italic, "font-style:italic");
    push_flag(&mut css, s.underline, "text-decoration:underline");
    let h: Option<&str> = match s.h_align {
        Some(h) => Some(h_align_css(h)),
        None => None,
    };
    push_css(&mut css, "text-align:", h, "");
    let v: Option<&str> = match s.v_align {
        Some(v) => Some(v_align_css(v)),
        None => None,
    };
    push_css(&mut css, "vertical-align:", v, "");
    let bg: Option<&str> = if look.fill.is_some() {
        str_of(&look.fill)
    } else {
        str_of(&s.back_color)
    };
    push_css(&mut css, "background-color:", bg, "");
    let fg: Option<&str> = if look.color.is_some() {
        str_of(&look.color)
    } else {
        str_of(&s.fore_color)
    };
    push_css(&mut css, "color:", fg, "");
    push_css(&mut css, "font-size:", str_of(&s.font_size), "px");
    let ghost head = texts(css@);
    let mut more: Vec<String> = borders_css(s, grid);
    let ghost tail = texts(more@);
    css.append(&mut more);
    assert(texts(css@) == head + tail);
    css
}

/// A cell as it is written.
pub fn cell_html(sheet: &Worksheet, r: u32, c: u32, look: &CellLook, grid: bool) -> (res: String)
    ensures
        res@ == td(sheet.spans@, r, c, *look, grid),
{
    let css: Vec<String> = look_css(look, grid);
    let mut attrs: String = String::new();
    if let Some(x) = sheet.get_span(r, c) {
        let mut rows: String = " rowspan=\"".to_string();
        push_dec(&mut rows, x.row_count as u128);
        rows.append("\"");
        let mut cols: String = " colspan=\"".to_string();
        push_dec(&mut cols, x.col_count as u128);
        cols.append("\"");
        push_if(&mut attrs, x.row_count > 1, rows.as_str());
        assert(attrs@ == opt(x.row_count > 1, rows@));
        push_if(&mut attrs, x.col_count > 1, cols.as_str());
    }
    let list: String = join_texts(&css, ";");
    let text: String = escape_html(look.text.as_str());
    let mut out: String = "<td".to_string();
    out.append(attrs.as_str());
    out.append(" style=\"");
    out.append(list.as_str());
    out.append(";padding:1px 4px\">");
    out.append(text.as_str());
    out.append("</td>");
    out
}

fn push_int(out: &mut String, n: i64)
    ensures
        final(out)@ == old(out)@ + signed(n as int),
{
    if n < 0 {
        out.append("-");
        push_dec(out, (-(n as i128)) as u128);
        assert(out@ == old(out)@ + ("-"@ + dec((-n) as nat)));
    } else {
        push_dec(out, n as u128);
    }
}

/// A block of a sheet as HTML: a table, or a document with it. `looks` are the cells of the block,
/// row by row; merged cells are written once.
pub fn export_html(
    sheet: &Worksheet,
    opts: &ExportHtmlOptions,
    looks: &Vec<Vec<CellLook>>,
    widths: &Vec<i64>,
    heights: &Vec<i64>,
) -> (res: String)
    requires
        looks_fit(html_range(*sheet, *opts), looks@, widths@, heights@),
    ensures
        res@ == html_text(*sheet, *opts, looks@, widths@, heights@),
{
    let g: RegionRect = match opts.range {
        Some(g) => g,
        None => RegionRect::new(0, 0, sheet.row_count, sheet.col_count),
    };
    let grid = match opts.gridlines {
        Some(b) => b,
        None => true,
    };
    let mut cols: String = String::new();
    let mut i: usize = 0;
    while i < widths.len()
        invariant
            i <= widths.len(),
            cols@ == col_tags(widths@.take(i as int)),
        decreases widths.len() - i,
    {
        cols.append("<col style=\"width:");
        push_int(&mut cols, widths[i]);
        cols.append("px\">");
        assert(widths@.take(i + 1).drop_last() == widths@.take(i as int));
        i = i + 1;
    }
    assert(widths@.take(i as int) == widths@);
    let mut rows: String = String::new();
    let mut k: u32 = 0;
    while k < g.row_count
        invariant
            k <= g.row_count,
            looks_fit(g, looks@, widths@, heights@),
            rows@ == trs(sheet.spans@, g, looks@, heights@, grid, k as int),
        decreases g.row_count - k,
    {
        let r: u32 = g.row + k;
        let look_row = &looks[k as usize];
        assert(looks@[k as int]@.len() == g.col_count);
        let mut cells: String = String::new();
        let mut j: u32 = 0;
        while j < g.col_count
            invariant
                j <= g.col_count,
                look_row@.len() == g.col_count,
                g.col + g.col_count <= u32::MAX,
                cells@ == tds(sheet.spans@, r, g.col, look_row@, grid, j as int),
            decreases g.col_count - j,
        {
            let c: u32 = g.col + j;
            let covered = match sheet.get_span(r, c) {
                Some(s) => s.row != r || s.col != c,
                None => false,
            };
            if !covered {
                let x: String = cell_html(sheet, r, c, &look_row[j as usize], grid);
                cells.append(x.as_str());
            }
            j = j + 1;
        }
        rows.append("<tr style=\"height:");
        push_int(&mut rows, heights[k as usize]);
        rows.append("px\">");
        rows.append(cells.as_str());
        rows.append("</tr>");
        k = k + 1;
    }
    let mut table: String = "<table style=\"".to_string();
    push_if(&mut table, grid, "border-collapse:collapse;");
    table.append("font-family:Arial,sans-serif;font-size:13px\"><colgroup>");
    table.append(cols.as_str());
    table.append("</colgroup><tbody>");
    table.append(rows.as_str());
    table.append("</tbody></table>");
    if !opts.full_document {
        return table;
    }
    let title: String = match &opts.title {
        Some(t) => escape_html(t.as_str()),
        None => escape_html(sheet.name.as_str()),
    };
    let mut out: String =
        "<!DOCTYPE html><html><head><meta charset=\"utf-8\"><title>".to_string();
    out.append(title.as_str());
    out.append("</title></head><body>");
    out.append(table.as_str());
    out.append("</body></html>");
    out
}

} // verus!
