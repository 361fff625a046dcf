//! Sheets as HTML and as the texts of pages.
use cmx_sheet::export_html::{export_html, h_align_css, v_align_css, CellLook, ExportHtmlOptions};
use cmx_sheet::export_pdf::{page_texts, sanitize_for_builtin, PageText};
use cmx_sheet::snapshot::{
    CellValue, CondFormatOperator, CondFormatType, CondValue, ConditionalRule, RegionRect, Span,
};
use cmx_sheet::style::{HAlign, Style, VAlign};
use cmx_sheet::worksheet::Worksheet;

fn sheet() -> Worksheet {
    Worksheet::with_size("S", 100, 30)
}

fn text(s: &str) -> Option<CellValue> {
    Some(CellValue::Text(s.to_string()))
}

fn number(n: i64) -> Option<CellValue> {
    Some(CellValue::Number(n.to_string()))
}

fn options(range: RegionRect, full_document: bool) -> ExportHtmlOptions {
    ExportHtmlOptions { range: Some(range), full_document, title: None, gridlines: None }
}

/// The style that the rules add to a cell.
fn overlay(ws: &Worksheet, r: u32, c: u32) -> Option<Style> {
    let value = match ws.get_value(r, c) {
        Some(CellValue::Number(n)) => n.parse::<f64>().ok()?,
        _ => return None,
    };
    let rule = ws.conditional_rules.iter().find(|x| {
        let g = x.range;
        let inside =
            g.row <= r && r < g.row + g.row_count && g.col <= c && c < g.col + g.col_count;
        let limit = match &x.value1 {
            Some(CondValue::Number(n)) => n.parse::<f64>().unwrap(),
            _ => return false,
        };
        inside && x.operator == Some(CondFormatOperator::Gt) && value > limit
    })?;
    rule.style.clone()
}

/// A block in plain looks: each cell with its own style and what the rules add.
fn html(ws: &Worksheet, opts: &ExportHtmlOptions) -> String {
    let g = opts.range.unwrap();
    let mut looks = Vec::new();
    for r in g.row..g.row + g.row_count {
        let mut row = Vec::new();
        for c in g.col..g.col + g.col_count {
            let own = ws.get_cell(r, c).and_then(|x| x.style.clone()).unwrap_or_default();
            let style = match overlay(ws, r, c) {
                Some(top) => own.overlay(&top),
                None => own,
            };
            let shown = match ws.get_value(r, c) {
                Some(CellValue::Text(s)) => s,
                Some(CellValue::Number(n)) => n,
                Some(CellValue::Bool(b)) => if b { "TRUE" } else { "FALSE" }.to_string(),
                None => String::new(),
            };
            row.push(CellLook { style, text: shown, color: None, fill: None });
        }
        looks.push(row);
    }
    let widths = vec![64; g.col_count as usize];
    let heights = vec![20; g.row_count as usize];
    export_html(ws, opts, &looks, &widths, &heights)
}

#[test]
fn basic_table_inline_style() {
    let mut ws = sheet();
    ws.set_value(0, 0, text("标题"));
    ws.set_style(
        0,
        0,
        Some(Style {
            bold: Some(true),
            back_color: Some("#ffff00".into()),
            ..Default::default()
        }),
    );
    ws.set_value(1, 0, number(42));
    let html = html(&ws, &options(RegionRect::new(0, 0, 2, 2), true));
    assert!(html.contains("<!DOCTYPE html>"));
    assert!(html.contains("<table"));
    assert!(html.contains("font-weight:bold"));
    assert!(html.contains("background-color:#ffff00"));
    assert!(html.contains("标题"));
    assert!(html.contains("42"));
}

#[test]
fn fragment_mode_no_html() {
    let mut ws = sheet();
    ws.set_value(0, 0, text("x"));
    let html = html(&ws, &options(RegionRect::new(0, 0, 1, 1), false));
    assert!(!html.contains("<!DOCTYPE"));
    assert!(html.starts_with("<table"));
}

#[test]
fn merged_rowspan_colspan() {
    let mut ws = sheet();
    ws.set_value(0, 0, text("M"));
    ws.spans.push(Span { row: 0, col: 0, row_count: 2, col_count: 2 });
    let html = html(&ws, &options(RegionRect::new(0, 0, 2, 2), false));
    assert!(html.contains("rowspan=\"2\""));
    assert!(html.contains("colspan=\"2\""));
    assert_eq!(html.matches("<td").count(), 1);
}

#[test]
fn conditional_format_bg_in_html() {
    let mut ws = sheet();
    ws.set_value(0, 0, number(100));
    ws.conditional_rules.push(ConditionalRule {
        range: RegionRect::new(0, 0, 1, 1),
        rule_type: CondFormatType::CellValue,
        operator: Some(CondFormatOperator::Gt),
        value1: Some(CondValue::Number("50".into())),
        value2: None,
        style: Some(Style {
            back_color: Some("#ff0000".into()),
            ..Default::default()
        }),
        colors: None,
        bar_color: None,
        icon_set: None,
    });
    let html = html(&ws, &options(RegionRect::new(0, 0, 1, 1), false));
    assert!(html.contains("background-color:#ff0000"));
}

#[test]
fn align_css_maps() {
    assert_eq!(h_align_css(HAlign::Center), "center");
}

#[test]
fn align_css_maps_all() {
    assert_eq!(h_align_css(HAlign::Fill), "left");
    assert_eq!(h_align_css(HAlign::CenterContinuous), "center");
    assert_eq!(h_align_css(HAlign::Justify), "justify");
    assert_eq!(v_align_css(VAlign::Middle), "middle");
}

#[test]
fn one_cell_in_full() {
    let mut ws = sheet();
    ws.set_value(0, 0, text("<a> & b"));
    assert_eq!(
        html(&ws, &options(RegionRect::new(0, 0, 1, 1), false)),
        "<table style=\"border-collapse:collapse;font-family:Arial,sans-serif;font-size:13px\">\
         <colgroup><col style=\"width:64px\"></colgroup><tbody><tr style=\"height:20px\">\
         <td style=\"border:1px solid #d0d4da;padding:1px 4px\">&lt;a&gt; &amp; b</td>\
         </tr></tbody></table>"
    );
}

#[test]
fn sanitize_drops_cjk_for_builtin() {
    assert_eq!(sanitize_for_builtin("abc"), "abc");
    assert_eq!(sanitize_for_builtin("a中b"), "a b");
}

#[test]
fn pages_hold_what_can_be_printed() {
    assert_eq!(sanitize_for_builtin("é~中 "), "é~");
    let rows = vec![
        vec!["A".to_string(), "".to_string()],
        vec!["中".to_string(), "9 9".to_string()],
    ];
    assert_eq!(
        page_texts(&rows, true),
        vec![
            PageText { row: 0, col: 0, text: "A".to_string() },
            PageText { row: 1, col: 1, text: "9 9".to_string() },
        ]
    );
}

#[test]
fn an_embedded_font_prints_every_text() {
    let rows = vec![vec!["中文 a ".to_string(), "".to_string()]];
    assert_eq!(
        page_texts(&rows, false),
        vec![PageText { row: 0, col: 0, text: "中文 a ".to_string() }]
    );
    assert_eq!(
        page_texts(&rows, true),
        vec![PageText { row: 0, col: 0, text: "   a".to_string() }]
    );
}

#[test]
fn cells_without_a_grid_have_no_lines() {
    let mut ws = sheet();
    ws.set_value(0, 0, text("x"));
    let mut opts = options(RegionRect::new(0, 0, 1, 1), false);
    opts.gridlines = Some(false);
    let plain = html(&ws, &opts);
    assert!(plain.contains("<td style=\";padding:1px 4px\">x</td>"));
    assert!(!plain.contains("border:"));
    opts.gridlines = Some(true);
    assert!(html(&ws, &opts).contains("border:1px solid #d0d4da;"));
}
