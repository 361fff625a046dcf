//! Spreadsheet files: what is written, and what is read back.
use cmx_sheet::archive::{pack_parts, unzip, Part};
use cmx_sheet::outline::OutlineAxis;
use cmx_sheet::snapshot::{
    snapshot_format, CellSnapshot, CellValue, ChartSpec, ChartType, FitToPages, FloatingKind,
    FloatingObject, NamedStyle, NumPair, ObjAnchor, Orientation, PageMargins, PageSetup,
    RegionRect, SheetProtection, SheetSnapshot, Span, WorkbookSnapshot,
};
use cmx_sheet::style::{BorderEdge, BorderLineStyle, Borders, HAlign, Style};
use cmx_sheet::worksheet::{workbook_from_json, workbook_to_json, Workbook, Worksheet};
use cmx_sheet::xlsx_book::{book_in_range, snapshot_to_xlsx, xlsx_parts};
use cmx_sheet::xlsx_read::xlsx_to_snapshot;

fn t(s: &str) -> Option<CellValue> {
    Some(CellValue::Text(s.to_string()))
}

fn n(v: i64) -> Option<CellValue> {
    Some(CellValue::Number(v.to_string()))
}

fn define(sheet: &mut Vec<NamedStyle>, name: &str, style: Style) {
    sheet.push(NamedStyle { name: name.to_string(), style });
}

/// Short forms for filling and reading sheets.
trait Fill {
    fn set_column_width(&mut self, c: u32, px: &str);
    fn set_row_height(&mut self, r: u32, px: &str);
    fn add_span(&mut self, row: u32, col: u32, row_count: u32, col_count: u32);
    fn get_column_width(&self, c: u32) -> f64;
    fn get_row_height(&self, r: u32) -> f64;
    fn get_formula(&self, r: u32, c: u32) -> String;
    fn get_style(&self, r: u32, c: u32) -> Option<Style>;
}

fn width_in(pairs: &[NumPair], i: u32) -> f64 {
    let found = pairs.iter().find(|p| p.0 == i).unwrap();
    found.1.parse().unwrap()
}

impl Fill for Worksheet {
    fn set_column_width(&mut self, c: u32, px: &str) {
        self.col_widths.push(NumPair(c, px.to_string()));
    }
    fn set_row_height(&mut self, r: u32, px: &str) {
        self.row_heights.push(NumPair(r, px.to_string()));
    }
    fn add_span(&mut self, row: u32, col: u32, row_count: u32, col_count: u32) {
        self.spans.push(Span { row, col, row_count, col_count });
    }
    fn get_column_width(&self, c: u32) -> f64 {
        width_in(&self.col_widths, c)
    }
    fn get_row_height(&self, r: u32) -> f64 {
        width_in(&self.row_heights, r)
    }
    fn get_formula(&self, r: u32, c: u32) -> String {
        self.get_cell(r, c).and_then(|x| x.formula.clone()).unwrap_or_default()
    }
    fn get_style(&self, r: u32, c: u32) -> Option<Style> {
        self.get_cell(r, c).and_then(|x| x.style.clone())
    }
}

fn yes() -> Option<CellValue> {
    Some(CellValue::Bool(true))
}

/// Column widths in characters, as files hold them, from and to pixels.
fn widths(snap: &mut WorkbookSnapshot, turn: fn(f64) -> String) {
    for s in &mut snap.sheets {
        for p in &mut s.col_widths {
            p.1 = turn(p.1.parse().unwrap());
        }
    }
}

fn export_xlsx(wb: Workbook) -> Vec<u8> {
    let mut snap = workbook_to_json(wb);
    widths(&mut snap, |px| format!("{:.2}", px / 7.0));
    snapshot_to_xlsx(&snap).unwrap()
}

fn import_xlsx(bytes: &[u8]) -> Workbook {
    let mut snap = xlsx_to_snapshot(bytes).unwrap();
    widths(&mut snap, |w| format!("{}", (w * 7.0).round()));
    workbook_from_json(snap)
}

fn can_edit(ws: &Worksheet, r: u32, c: u32) -> bool {
    let locked = ws.get_style(r, c).and_then(|s| s.locked).unwrap_or(true);
    !ws.protection.is_some_and(|p| p.enabled) || !locked
}

/// How deep the groups stand in one another, from 0.
fn max_level(axis: &OutlineAxis) -> Option<usize> {
    let all = axis.list();
    all.iter()
        .map(|g| {
            all.iter()
                .filter(|o| {
                    *o != g && o.start <= g.start && g.start + g.count <= o.start + o.count
                })
                .count()
        })
        .max()
}

fn sample() -> Workbook {
    let mut wb = Workbook::empty();
    let mut ss: Vec<NamedStyle> = Vec::new();
    define(
        &mut ss,
        "hdr",
        Style {
            bold: Some(true),
            back_color: Some("#dfe8ff".into()),
            h_align: Some(HAlign::Center),
            ..Default::default()
        },
    );
    define(
        &mut ss,
        "money",
        Style {
            formatter: Some("#,##0.00".into()),
            h_align: Some(HAlign::Right),
            ..Default::default()
        },
    );
    let mut s1 = Worksheet::with_size("资产表", 20, 6);
    s1.style_sheet = ss.clone();
    s1.set_column_width(0, "210");
    s1.set_row_height(0, "34");
    s1.set_value(0, 0, t("某公司 资产负债表"));
    s1.set_style(
        0,
        0,
        Some(Style {
            style_name: Some("hdr".into()),
            ..Default::default()
        }),
    );
    s1.add_span(0, 0, 1, 4);
    s1.set_value(1, 0, t("货币资金"));
    s1.set_value(1, 1, n(620000));
    s1.set_style(
        1,
        1,
        Some(Style {
            style_name: Some("money".into()),
            ..Default::default()
        }),
    );
    s1.set_value(2, 0, t("应收账款"));
    s1.set_value(2, 1, n(388000));
    s1.set_value(3, 0, t("合计"));
    s1.set_style(
        3,
        0,
        Some(Style {
            bold: Some(true),
            ..Default::default()
        }),
    );
    s1.set_formula(3, 1, "=SUM(B2:B3)".to_string());
    s1.set_style(
        3,
        1,
        Some(Style {
            style_name: Some("money".into()),
            ..Default::default()
        }),
    );
    s1.set_computed_value(3, 1, n(1008000));
    s1.set_value(4, 0, t("达标"));
    s1.set_style(
        4,
        0,
        Some(Style {
            italic: Some(true),
            underline: Some(true),
            fore_color: Some("#c00000".into()),
            ..Default::default()
        }),
    );
    s1.set_value(4, 1, yes());
    s1.hidden_cols.push(5);
    wb.sheets.push(s1);

    let mut s2 = Worksheet::with_size("利润表", 10, 4);
    s2.style_sheet = ss.clone();
    s2.set_value(0, 0, t("营业收入"));
    s2.set_value(0, 1, n(3200000));
    s2.set_style(
        0,
        1,
        Some(Style {
            borders: Some(Borders {
                bottom: Some(BorderEdge {
                    style: BorderLineStyle::Medium,
                    color: "#333333".into(),
                }),
                ..Default::default()
            }),
            ..Default::default()
        }),
    );
    wb.sheets.push(s2);
    wb.active_sheet = 1;
    wb
}

#[test]
fn valid_zip_with_all_parts() {
    let bytes = export_xlsx(sample());
    let files = unzip(&bytes);
    for part in [
        "[Content_Types].xml",
        "_rels/.rels",
        "xl/workbook.xml",
        "xl/_rels/workbook.xml.rels",
        "xl/styles.xml",
        "xl/sharedStrings.xml",
        "xl/worksheets/sheet1.xml",
        "xl/worksheets/sheet2.xml",
    ] {
        assert!(files.get(part).is_some());
    }
}

#[test]
fn xml_parts_have_declaration_and_balanced_tags() {
    let files = unzip(&export_xlsx(sample()));
    for part in xlsx_parts(&workbook_to_json(sample())) {
        let name = part.name;
        if !name.ends_with(".xml") {
            continue;
        }
        let xml = files.get(&name).unwrap();
        assert!(xml.starts_with("<?xml"));
        assert_eq!(
            xml.matches('<').count(),
            xml.matches('>').count()
        );
    }
}

#[test]
fn round_trip_values() {
    let wb = import_xlsx(&export_xlsx(sample()));
    let s1 = wb.sheet_by_name("资产表").unwrap();
    assert_eq!(s1.get_value(1, 0), t("货币资金"));
    assert_eq!(s1.get_value(1, 1), n(620000));
    assert_eq!(s1.get_value(4, 1), yes());
}

#[test]
fn round_trip_formulas() {
    let wb = import_xlsx(&export_xlsx(sample()));
    let s1 = wb.sheet_by_name("资产表").unwrap();
    assert_eq!(s1.get_formula(3, 1), "SUM(B2:B3)");
    assert_eq!(s1.get_value(3, 1), n(1008000));
}

#[test]
fn round_trip_merges() {
    let wb = import_xlsx(&export_xlsx(sample()));
    let span = wb.sheet_by_name("资产表").unwrap().get_span(0, 0).unwrap();
    assert_eq!(
        (span.row, span.col, span.row_count, span.col_count),
        (0, 0, 1, 4)
    );
}

#[test]
fn round_trip_geometry() {
    let wb = import_xlsx(&export_xlsx(sample()));
    let s1 = wb.sheet_by_name("资产表").unwrap();
    assert_eq!(s1.get_row_height(0), 34.0);
    assert!((s1.get_column_width(0) - 210.0).abs() <= 8.0);
    assert!(!s1.is_column_visible(5));
}

#[test]
fn round_trip_font_styles() {
    let wb = import_xlsx(&export_xlsx(sample()));
    let st = wb.sheet_by_name("资产表").unwrap().get_style(4, 0).unwrap();
    assert_eq!(st.italic, Some(true));
    assert_eq!(st.underline, Some(true));
    assert_eq!(st.fore_color.as_deref(), Some("#c00000"));
}

#[test]
fn round_trip_named_style_flattened() {
    let wb = import_xlsx(&export_xlsx(sample()));
    let hdr = wb.sheet_by_name("资产表").unwrap().get_style(0, 0).unwrap();
    assert_eq!(hdr.bold, Some(true));
    assert_eq!(hdr.h_align, Some(HAlign::Center));
    assert_eq!(hdr.back_color.as_deref(), Some("#dfe8ff"));
    let money = wb.sheet_by_name("资产表").unwrap().get_style(1, 1).unwrap();
    assert_eq!(money.formatter.as_deref(), Some("#,##0.00"));
    assert_eq!(money.h_align, Some(HAlign::Right));
}

#[test]
fn round_trip_borders() {
    let wb = import_xlsx(&export_xlsx(sample()));
    let st = wb.sheet_by_name("利润表").unwrap().get_style(0, 1).unwrap();
    let bottom = st.borders.unwrap().bottom.unwrap();
    assert_eq!(bottom.style, BorderLineStyle::Medium);
    assert_eq!(bottom.color, "#333333");
}

#[test]
fn round_trip_sheet_order_active() {
    let wb = import_xlsx(&export_xlsx(sample()));
    assert_eq!(wb.sheets[0].name, "资产表");
    assert_eq!(wb.sheets[1].name, "利润表");
    assert_eq!(wb.active_sheet, 1);
}

#[test]
fn shared_and_inline_strings() {
    let snap = WorkbookSnapshot {
        format: snapshot_format(),
        version: 1,
        sheets: vec![SheetSnapshot {
            name: "S".into(),
            row_count: 3,
            col_count: 2,
            cells: vec![
                CellSnapshot {
                    r: 0,
                    c: 0,
                    v: t("共享串"),
                    f: None,
                    s: None,
                    rich: None,
                },
                CellSnapshot {
                    r: 1,
                    c: 0,
                    v: n(123),
                    f: None,
                    s: None,
                    rich: None,
                },
            ],
            ..Default::default()
        }],
        ..Default::default()
    };
    let bytes = snapshot_to_xlsx(&snap).unwrap();
    let back = xlsx_to_snapshot(&bytes).unwrap();
    let c00 = back.sheets[0]
        .cells
        .iter()
        .find(|c| c.r == 0 && c.c == 0)
        .unwrap();
    assert_eq!(c00.v, t("共享串"));
    let c10 = back.sheets[0]
        .cells
        .iter()
        .find(|c| c.r == 1 && c.c == 0)
        .unwrap();
    assert_eq!(c10.v, n(123));
}

#[test]
fn empty_workbook_round_trips() {
    let mut wb = Workbook::empty();
    wb.sheets.push(Worksheet::with_size("Sheet1", 200, 26));
    let back = import_xlsx(&export_xlsx(wb.clone()));
    assert_eq!(back.sheets.len(), 1);
    assert!(back.active_sheet < back.sheets.len());
}

#[test]
fn round_trip_freeze_pane() {
    let mut wb = Workbook::empty();
    wb.sheets.push(Worksheet::with_size("S", 20, 10));
    wb.frozen_row_count = 2;
    wb.frozen_col_count = 1;
    let back = import_xlsx(&export_xlsx(wb.clone()));
    assert_eq!(back.frozen_row_count, 2);
    assert_eq!(back.frozen_col_count, 1);
}

#[test]
fn round_trip_protection() {
    let mut wb = Workbook::empty();
    let mut ws = Worksheet::with_size("S", 10, 10);
    ws.set_value(0, 0, t("x"));
    ws.set_style(
        0,
        0,
        Some(Style {
            locked: Some(false),
            ..Default::default()
        }),
    );
    ws.protection = Some(SheetProtection { enabled: true, ..Default::default() });
    wb.sheets.push(ws);
    let back = import_xlsx(&export_xlsx(wb.clone()));
    let s2 = &back.sheets[0];
    assert!(s2.protection.is_some_and(|p| p.enabled));
    assert_eq!(s2.get_style(0, 0).and_then(|st| st.locked), Some(false));
    assert!(can_edit(s2, 0, 0));
    assert!(!can_edit(s2, 1, 1));
}

#[test]
fn round_trip_row_outline_three_levels() {
    let mut wb = Workbook::empty();
    let mut ws = Worksheet::with_size("行分组", 12, 4);
    for r in 0..9 {
        ws.set_value(r, 0, t(&format!("r{r}")));
    }
    ws.summary_below = false;
    ws.row_outlines.group(2, 7);
    ws.row_outlines.group(3, 3);
    ws.row_outlines.group(6, 3);
    wb.sheets.push(ws);
    let files = unzip(&export_xlsx(wb.clone()));
    let xml = files.get("xl/worksheets/sheet1.xml").unwrap();
    assert!(xml.contains("summaryBelow=\"0\""), "缺 outlinePr");
    assert!(xml.contains("outlineLevel=\"2\""), "缺三级 outlineLevel");

    let back = import_xlsx(&export_xlsx(wb.clone()));
    let s2 = &back.sheets[0];
    assert_eq!(s2.row_outlines.list().len(), 3, "行分组 3 组");
    assert_eq!(max_level(&s2.row_outlines), Some(1), "三级 maxLevel=1");
    assert!(!s2.summary_below, "summaryBelow=false 保持");
    assert!(
        s2.column_outlines.list().is_empty(),
        "行分组 sheet 无列分组"
    );
}

#[test]
fn round_trip_col_outline_and_collapsed() {
    let mut wb = Workbook::empty();
    let mut ws = Worksheet::with_size("列分组", 4, 10);
    for c in 0..8 {
        ws.set_value(0, c, t(&format!("c{c}")));
    }
    ws.summary_right = false;
    ws.column_outlines.group(1, 7);
    ws.column_outlines.group(2, 3);
    ws.column_outlines.group(5, 3);
    ws.column_outlines.set_collapsed(2, true);
    wb.sheets.push(ws);

    let back = import_xlsx(&export_xlsx(wb.clone()));
    let s2 = &back.sheets[0];
    assert_eq!(s2.column_outlines.list().len(), 3, "列分组 3 组");
    assert_eq!(max_level(&s2.column_outlines), Some(1));
    assert!(!s2.summary_right, "summaryRight=false 保持");
    let collapsed = s2
        .column_outlines
        .list()
        .iter()
        .find(|g| g.start == 2)
        .map(|g| g.collapsed);
    assert_eq!(collapsed, Some(true), "折叠态随往返保持");
}

#[test]
fn what_was_packed_is_unpacked() {
    let parts = vec![
        Part { name: "a.xml".to_string(), data: "<a>&amp;</a>".to_string() },
        Part { name: "b/c.xml".to_string(), data: "标题".to_string() },
    ];
    let bytes = pack_parts(&parts).unwrap();
    let files = unzip(&bytes);
    assert_eq!(files.get("a.xml").map(|s| s.as_str()), Some("<a>&amp;</a>"));
    assert_eq!(files.get("b/c.xml").map(|s| s.as_str()), Some("标题"));
    assert_eq!(files.get("c.xml"), None);
}

#[test]
fn parts_of_one_name_are_not_packed() {
    let part = |data: &str| Part { name: "a.xml".to_string(), data: data.to_string() };
    assert!(pack_parts(&vec![part("1")]).is_some());
    assert_eq!(pack_parts(&vec![part("1"), part("2")]), None);
    let bytes = pack_parts(&Vec::new()).unwrap();
    assert_eq!(unzip(&bytes).get("a.xml"), None);
}

#[test]
fn bytes_that_are_no_archive_hold_nothing() {
    assert_eq!(unzip(&[1, 2, 3]).get("a.xml"), None);
    let back = import_xlsx(&[1, 2, 3]);
    assert_eq!(back.sheets.len(), 1);
}

#[test]
fn cells_of_a_written_sheet_come_back() {
    let cell = |r: u32, c: u32, v: CellValue, f: Option<&str>| CellSnapshot {
        r,
        c,
        v: Some(v),
        f: f.map(|x| x.to_string()),
        s: None,
        rich: None,
    };
    let snap = WorkbookSnapshot {
        format: snapshot_format(),
        version: 1,
        sheets: vec![SheetSnapshot {
            name: "A & B".into(),
            row_count: 5,
            col_count: 4,
            cells: vec![
                cell(0, 0, CellValue::Text("<x> & \"y\"".into()), None),
                cell(0, 2, CellValue::Number("-1.5".into()), None),
                cell(1, 1, CellValue::Bool(false), None),
                cell(4, 3, CellValue::Number("3".into()), Some("A1<\"b\"")),
            ],
            spans: vec![Span { row: 1, col: 1, row_count: 2, col_count: 2 }],
            hidden_rows: vec![3],
            ..Default::default()
        }],
        ..Default::default()
    };
    let back = xlsx_to_snapshot(&snapshot_to_xlsx(&snap).unwrap()).unwrap();
    assert_eq!(back.sheets[0].name, "A & B");
    assert_eq!(back.sheets[0].cells, snap.sheets[0].cells);
    assert_eq!(back.sheets[0].spans, snap.sheets[0].spans);
    assert_eq!(back.sheets[0].hidden_rows, vec![3]);
}

#[test]
fn styles_of_cells_come_back() {
    let plain = Style { bold: Some(true), locked: Some(false), ..Default::default() };
    let money = Style {
        formatter: Some("#,##0.00".to_string()),
        back_color: Some("#dfe8ff".to_string()),
        ..Default::default()
    };
    let cell = |r: u32, c: u32, v: Option<CellValue>, s: Option<Style>| CellSnapshot {
        r,
        c,
        v,
        f: None,
        s,
        rich: None,
    };
    let named = Style { style_name: Some("money".to_string()), ..plain.clone() };
    let sheet = SheetSnapshot {
        name: "S".to_string(),
        row_count: 3,
        col_count: 3,
        cells: vec![
            cell(2, 0, n(3), Some(named)),
            cell(0, 1, None, Some(money.clone())),
            cell(0, 0, n(1), None),
            cell(1, 0, None, None),
        ],
        ..Default::default()
    };
    let mut snap = WorkbookSnapshot { sheets: vec![sheet], ..Default::default() };
    let mut styles = Vec::new();
    define(&mut styles, "money", money);
    snap.styles = Some(styles);
    let back = xlsx_to_snapshot(&snapshot_to_xlsx(&snap).unwrap()).unwrap();
    let cells = &back.sheets[0].cells;
    let places: Vec<(u32, u32)> = cells.iter().map(|c| (c.r, c.c)).collect();
    assert_eq!(places, vec![(0, 0), (0, 1), (2, 0)]);
    assert_eq!(cells[0].s, None);
    let money = cells[1].s.as_ref().unwrap();
    assert_eq!(money.formatter.as_deref(), Some("#,##0.00"));
    assert_eq!(money.back_color.as_deref(), Some("#dfe8ff"));
    assert_eq!(money.font_size, None);
    let both = cells[2].s.as_ref().unwrap();
    assert_eq!(both.bold, Some(true));
    assert_eq!(both.font_family.as_deref(), Some("Calibri"));
    assert_eq!(both.formatter.as_deref(), Some("#,##0.00"));
    assert_eq!(both.locked, Some(false));
    assert_eq!(both.style_name, None);
}

#[test]
fn the_page_comes_back() {
    let margins = PageMargins {
        left: "0.7".into(),
        right: "0.7".into(),
        top: "0.75".into(),
        bottom: "1".into(),
    };
    let page = PageSetup {
        orientation: Some(Orientation::Landscape),
        paper_size: Some("A3".into()),
        margins: Some(margins),
        scale: Some("80".into()),
        fit_to_pages: Some(FitToPages { width: 1, height: 2 }),
        print_area: None,
        print_titles: None,
    };
    let sheet = |setup: Option<PageSetup>| SheetSnapshot {
        name: "S".into(),
        row_count: 5,
        col_count: 5,
        page_setup: setup,
        ..Default::default()
    };
    let mut snap = WorkbookSnapshot {
        format: snapshot_format(),
        version: 1,
        sheets: vec![sheet(Some(page.clone())), sheet(None)],
        ..Default::default()
    };
    snap.sheets[1].name = "T".into();
    let back = xlsx_to_snapshot(&snapshot_to_xlsx(&snap).unwrap()).unwrap();
    assert_eq!(back.sheets[0].page_setup, Some(page.clone()));
    assert_eq!(back.sheets[1].page_setup, None);
    snap.active_sheet = Some(7);
    snap.sheets[0].spans.push(Span { row: 3, col: 2, row_count: 0, col_count: 1 });
    let back = xlsx_to_snapshot(&snapshot_to_xlsx(&snap).unwrap()).unwrap();
    assert_eq!(back.sheets[0].page_setup, Some(page));
    assert_eq!(back.sheets[0].spans, vec![Span { row: 2, col: 2, row_count: 2, col_count: 1 }]);
    assert_eq!(back.active_sheet, Some(7));
}

fn with_chart(name: &str, data_range: RegionRect) -> SheetSnapshot {
    let chart = ChartSpec {
        chart_type: ChartType::Column,
        data_range,
        title: None,
        first_row_header: None,
        first_col_header: None,
        options: None,
    };
    let anchor = ObjAnchor {
        from_row: 5,
        from_col: 0,
        to_row: 9,
        to_col: 3,
        from_dx: None,
        from_dy: None,
        to_dx: None,
        to_dy: None,
    };
    SheetSnapshot {
        name: name.into(),
        row_count: 9,
        col_count: 9,
        floating_objects: vec![FloatingObject {
            id: name.into(),
            kind: FloatingKind::Chart,
            anchor,
            src: None,
            chart: Some(chart),
            shape: None,
            z: None,
        }],
        ..Default::default()
    }
}

fn part<'a>(parts: &'a [Part], name: &str) -> &'a str {
    &parts.iter().find(|p| p.name == name).unwrap().data
}

#[test]
fn drawings_lead_to_the_charts_of_their_sheet() {
    let g = RegionRect::new(0, 0, 3, 2);
    let snap = WorkbookSnapshot {
        format: snapshot_format(),
        version: 1,
        sheets: vec![with_chart("One", g), with_chart("Two", g)],
        ..Default::default()
    };
    assert!(book_in_range(&snap));
    let parts = xlsx_parts(&snap);
    let first = part(&parts, "xl/drawings/_rels/drawing1.xml.rels");
    assert!(first.contains("Target=\"../charts/chart1.xml\""));
    let second = part(&parts, "xl/drawings/_rels/drawing2.xml.rels");
    assert!(second.contains("Id=\"rId1\""));
    assert!(second.contains("Target=\"../charts/chart2.xml\""));
    assert!(!second.contains("chart1.xml"));
    assert!(part(&parts, "xl/charts/chart1.xml").contains("One!$B$2:$B$3"));
    assert!(part(&parts, "xl/charts/chart2.xml").contains("Two!$B$2:$B$3"));
    assert!(part(&parts, "xl/drawings/drawing2.xml").contains("r:id=\"rId1\""));
}

#[test]
fn a_chart_of_headers_alone_is_written() {
    let snap = WorkbookSnapshot {
        format: snapshot_format(),
        version: 1,
        sheets: vec![with_chart("S", RegionRect::new(0, 0, 1, 1))],
        ..Default::default()
    };
    assert!(book_in_range(&snap));
    let parts = xlsx_parts(&snap);
    assert!(!part(&parts, "xl/charts/chart1.xml").contains("<c:ser>"));
}

#[test]
fn blocks_behind_the_last_cell_are_found() {
    let mut sheet = with_chart("S", RegionRect::new(0, 0, 1, 2));
    assert!(!book_in_range(&WorkbookSnapshot { sheets: vec![sheet.clone()], ..Default::default() }));
    sheet.floating_objects.clear();
    assert!(book_in_range(&WorkbookSnapshot { sheets: vec![sheet.clone()], ..Default::default() }));
    sheet.spans.push(Span { row: u32::MAX, col: 0, row_count: 1, col_count: 1 });
    assert!(!book_in_range(&WorkbookSnapshot { sheets: vec![sheet], ..Default::default() }));
}
