//! Workbooks as plain data and back.
use cmx_sheet::snapshot::{
    check_format, snapshot_format, CellComment, CellSnapshot, CellValue, ChartSpec, ChartType,
    CommentEntry, CondFormatOperator, CondFormatType, CondValue, ConditionalRule, DataValidation,
    DefinedNameSnapshot, FitToPages, FloatingKind, FloatingObject, Hyperlink, HyperlinkEntry,
    NamedStyle, NumPair, ObjAnchor, Orientation, PageSetup, PrintTitles, RegionRect, RichFont,
    RichRun, RichText, SheetProtection, SheetSnapshot, Span, Sparkline, SparklineEntry,
    SparklineType, StylePair, ValidationType, WorkbookSnapshot, SNAPSHOT_VERSION,
};
use cmx_sheet::style::{HAlign, Style};
use cmx_sheet::worksheet::{
    sheet_from_json, sheet_to_json, workbook_from_json, workbook_to_json, Workbook, Worksheet,
};

fn t(s: &str) -> Option<CellValue> {
    Some(CellValue::Text(s.to_string()))
}

fn n(v: i64) -> Option<CellValue> {
    Some(CellValue::Number(v.to_string()))
}

fn define(sheet: &mut Vec<NamedStyle>, name: &str, style: Style) {
    sheet.push(NamedStyle { name: name.to_string(), style });
}

/// Short forms for filling and reading sheets.
trait Fill {
    fn set_column_width(&mut self, c: u32, px: &str);
    fn set_row_height(&mut self, r: u32, px: &str);
    fn add_span(&mut self, row: u32, col: u32, row_count: u32, col_count: u32);
    fn get_column_width(&self, c: u32) -> f64;
    fn get_row_height(&self, r: u32) -> f64;
    fn get_formula(&self, r: u32, c: u32) -> String;
    fn get_style(&self, r: u32, c: u32) -> Option<Style>;
}

fn width_in(pairs: &[NumPair], i: u32) -> f64 {
    let found = pairs.iter().find(|p| p.0 == i).unwrap();
    found.1.parse().unwrap()
}

impl Fill for Worksheet {
    fn set_column_width(&mut self, c: u32, px: &str) {
        self.col_widths.push(NumPair(c, px.to_string()));
    }
    fn set_row_height(&mut self, r: u32, px: &str) {
        self.row_heights.push(NumPair(r, px.to_string()));
    }
    fn add_span(&mut self, row: u32, col: u32, row_count: u32, col_count: u32) {
        self.spans.push(Span { row, col, row_count, col_count });
    }
    fn get_column_width(&self, c: u32) -> f64 {
        width_in(&self.col_widths, c)
    }
    fn get_row_height(&self, r: u32) -> f64 {
        width_in(&self.row_heights, r)
    }
    fn get_formula(&self, r: u32, c: u32) -> String {
        self.get_cell(r, c).and_then(|x| x.formula.clone()).unwrap_or_default()
    }
    fn get_style(&self, r: u32, c: u32) -> Option<Style> {
        self.get_cell(r, c).and_then(|x| x.style.clone())
    }
}

fn right() -> Style {
    Style { h_align: Some(HAlign::Right), ..Default::default() }
}

fn plain_font() -> RichFont {
    RichFont {
        bold: None,
        italic: None,
        underline: None,
        strikethrough: None,
        font_size: None,
        font_family: None,
        fore_color: None,
    }
}

fn plain_page() -> PageSetup {
    PageSetup {
        orientation: None,
        paper_size: None,
        margins: None,
        scale: None,
        fit_to_pages: None,
        print_area: None,
        print_titles: None,
    }
}

fn link_at(ws: &Worksheet, r: u32, c: u32) -> Option<&Hyperlink> {
    ws.hyperlinks.iter().find(|e| (e.0, e.1) == (r, c)).map(|e| &e.2)
}

fn named(name: &str, refers_to: &str, scope: &str) -> DefinedNameSnapshot {
    DefinedNameSnapshot {
        name: name.to_string(),
        scope: scope.to_string(),
        refers_to: refers_to.to_string(),
    }
}

fn refers_to<'a>(wb: &'a Workbook, name: &str, scope: &str) -> Option<&'a str> {
    let found = wb.names.iter().find(|n| n.name == name && n.scope == scope)?;
    Some(&found.refers_to)
}

fn sample_workbook() -> Workbook {
    let mut wb = Workbook::empty();
    let mut ss: Vec<NamedStyle> = Vec::new();
    define(
        &mut ss,
        "hdr",
        Style {
            bold: Some(true),
            back_color: Some("#eee".into()),
            h_align: Some(HAlign::Center),
            ..Default::default()
        },
    );
    define(
        &mut ss,
        "money",
        Style {
            formatter: Some("#,##0.00".into()),
            h_align: Some(HAlign::Right),
            ..Default::default()
        },
    );

    let mut s1 = Worksheet::with_size("资产表", 30, 8);
    s1.style_sheet = ss.clone();
    s1.set_column_width(0, "200");
    s1.set_row_height(0, "34");
    s1.set_value(0, 0, t("标题"));
    s1.set_style(
        0,
        0,
        Some(Style {
            style_name: Some("hdr".into()),
            ..Default::default()
        }),
    );
    s1.add_span(0, 0, 1, 4);
    s1.set_value(1, 0, t("货币资金"));
    s1.set_value(1, 1, n(620000));
    s1.set_style(
        1,
        1,
        Some(Style {
            style_name: Some("money".into()),
            ..Default::default()
        }),
    );
    s1.set_value(2, 0, t("应收账款"));
    s1.set_value(2, 1, n(388000));
    s1.set_formula(3, 1, "=SUM(B2:B3)".to_string());
    s1.set_style(
        3,
        1,
        Some(Style {
            style_name: Some("money".into()),
            ..Default::default()
        }),
    );
    s1.set_computed_value(3, 1, n(1008000));
    s1.row_outlines.group(1, 3);
    s1.default_style = Style { font_family: Some("PingFang SC".into()), ..Default::default() };
    s1.col_styles.push(StylePair(1, right()));
    s1.hidden_rows.push(5);
    wb.sheets.push(s1);

    let mut s2 = Worksheet::with_size("利润表", 20, 6);
    s2.style_sheet = ss.clone();
    s2.set_value(0, 0, t("营业收入"));
    s2.set_value(0, 1, n(3200000));
    s2.column_outlines.group(1, 3);
    s2.summary_right = false;
    wb.sheets.push(s2);

    wb.active_sheet = 1;
    wb
}

#[test]
fn header_tags_format_version() {
    let snap = workbook_to_json(Workbook::empty());
    assert_eq!(snap.format, "cmx-megasheet");
    assert_eq!(snap.version, SNAPSHOT_VERSION);
}

#[test]
fn sheet_round_trip_cells_values_formulas_styles() {
    let wb = sample_workbook();
    let s1 = wb.sheet_by_name("资产表").unwrap();
    let snap = sheet_to_json(s1.clone());
    let restored = sheet_from_json(snap.clone(), s1.style_sheet.clone());
    assert_eq!(restored.get_value(1, 0), t("货币资金"));
    assert_eq!(restored.get_value(1, 1), n(620000));
    assert_eq!(restored.get_formula(3, 1), "SUM(B2:B3)");
    assert_eq!(restored.get_value(3, 1), n(1008000));
    assert_eq!(
        restored.get_style(0, 0).unwrap().style_name.as_deref(),
        Some("hdr")
    );
}

#[test]
fn preserves_geometry() {
    let wb = sample_workbook();
    let s1 = wb.sheet_by_name("资产表").unwrap();
    let restored = sheet_from_json(sheet_to_json(s1.clone()), s1.style_sheet.clone());
    assert_eq!(
        restored.get_span(0, 0),
        Some(Span {
            row: 0,
            col: 0,
            row_count: 1,
            col_count: 4
        })
    );
    assert_eq!(restored.get_column_width(0), 200.0);
    assert_eq!(restored.get_row_height(0), 34.0);
}

#[test]
fn preserves_default_row_col_styles() {
    let wb = sample_workbook();
    let s1 = wb.sheet_by_name("资产表").unwrap();
    let restored = sheet_from_json(sheet_to_json(s1.clone()), s1.style_sheet.clone());
    assert_eq!(
        restored.default_style.font_family.as_deref(),
        Some("PingFang SC")
    );
    assert!(restored.col_styles.contains(&StylePair(1, right())));
}

#[test]
fn preserves_outline_and_collapsed_derives_level() {
    let mut wb = sample_workbook();
    wb.sheets[0].row_outlines.set_collapsed(1, true);
    let s1 = wb.sheet_by_name("资产表").unwrap();
    let restored = sheet_from_json(sheet_to_json(s1.clone()), s1.style_sheet.clone());
    let groups = restored.row_outlines.list();
    assert_eq!(groups.len(), 1);
    assert_eq!(
        (groups[0].start, groups[0].count, groups[0].collapsed),
        (1, 3, true)
    );
    assert!(!restored.is_row_visible(1));
    assert!(restored.is_row_visible(3));
}

#[test]
fn separates_manual_from_outline_hidden() {
    let wb = sample_workbook();
    let s1 = wb.sheet_by_name("资产表").unwrap();
    let snap = sheet_to_json(s1.clone());
    assert!(snap.hidden_rows.contains(&5));
    let restored = sheet_from_json(snap.clone(), s1.style_sheet.clone());
    assert!(!restored.is_row_visible(5));
}

#[test]
fn preserves_summary_right_false() {
    let wb = sample_workbook();
    let s2 = wb.sheet_by_name("利润表").unwrap();
    let restored = sheet_from_json(sheet_to_json(s2.clone()), s2.style_sheet.clone());
    assert!(!restored.summary_right);
    assert_eq!(restored.column_outlines.list().len(), 1);
}

#[test]
fn workbook_round_trip() {
    let wb = sample_workbook();
    let restored = workbook_from_json(workbook_to_json(wb));
    assert_eq!(restored.sheets.len(), 2);
    assert_eq!(restored.sheets[0].name, "资产表");
    assert_eq!(restored.sheets[1].name, "利润表");
    assert_eq!(restored.active_sheet, 1);
    let hdr = restored.sheets[0].style_sheet.iter().find(|s| s.name == "hdr").unwrap();
    assert_eq!(hdr.style.bold, Some(true));
    assert_eq!(hdr.style.h_align, Some(HAlign::Center));
}

#[test]
fn empty_snapshot_yields_usable_workbook() {
    let snap = WorkbookSnapshot {
        format: snapshot_format(),
        version: 1,
        sheets: vec![],
        ..Default::default()
    };
    let restored = workbook_from_json(snap);
    assert_eq!(restored.sheets.len(), 1);
    assert!(restored.active_sheet < restored.sheets.len());
}

#[test]
fn validations_hyperlinks_round_trip() {
    let mut wb = Workbook::empty();
    let mut ws = Worksheet::with_size("V", 10, 5);
    ws.validations.push(DataValidation {
        range: RegionRect::new(0, 0, 3, 1),
        validation_type: ValidationType::List,
        operator: None,
        formula1: None,
        formula2: None,
        list: Some(vec!["低".into(), "中".into(), "高".into()]),
        allow_blank: None,
        prompt: None,
        error: None,
    });
    ws.hyperlinks.push(HyperlinkEntry(
        2,
        2,
        Hyperlink { url: "https://cmx.dev".into(), tooltip: Some("官网".into()) },
    ));
    wb.sheets.push(ws);
    let restored = workbook_from_json(workbook_to_json(wb));
    let rs = &restored.sheets[0];
    assert_eq!(
        rs.validations[0].list.clone(),
        Some(vec!["低".into(), "中".into(), "高".into()])
    );
    assert_eq!(
        link_at(rs, 2, 2).map(|l| l.url.as_str()),
        Some("https://cmx.dev")
    );
    assert_eq!(
        link_at(rs, 2, 2).and_then(|l| l.tooltip.as_deref()),
        Some("官网")
    );
}

#[test]
fn conditional_rules_and_rich_round_trip() {
    let mut wb = Workbook::empty();
    let mut ws = Worksheet::with_size("C", 5, 3);
    ws.set_value(0, 0, n(100));
    ws.conditional_rules.push(ConditionalRule {
        range: RegionRect::new(0, 0, 3, 1),
        rule_type: CondFormatType::CellValue,
        operator: Some(CondFormatOperator::Gt),
        value1: Some(CondValue::Number("50".into())),
        value2: None,
        style: Some(Style {
            back_color: Some("#f00".into()),
            ..Default::default()
        }),
        colors: None,
        bar_color: None,
        icon_set: None,
    });
    ws.conditional_rules.push(ConditionalRule {
        range: RegionRect::new(0, 1, 3, 1),
        rule_type: CondFormatType::DataBar,
        operator: None,
        value1: None,
        value2: None,
        style: None,
        colors: None,
        bar_color: Some("#00f".into()),
        icon_set: None,
    });
    assert_eq!(ws.conditional_rules.len(), 2);
    ws.conditional_rules.remove(0);
    assert_eq!(ws.conditional_rules.len(), 1);
    ws.set_rich_text(
        1,
        1,
        Some(RichText {
            runs: vec![
                RichRun {
                    text: "Hello ".into(),
                    font: Some(RichFont { bold: Some(true), ..plain_font() }),
                },
                RichRun {
                    text: "World".into(),
                    font: Some(RichFont { fore_color: Some("#f00".into()), ..plain_font() }),
                },
            ],
        }),
    );
    wb.sheets.push(ws);
    let restored = workbook_from_json(workbook_to_json(wb));
    let rs = &restored.sheets[0];
    assert_eq!(rs.conditional_rules.len(), 1);
    assert_eq!(
        rs.conditional_rules[0].rule_type,
        CondFormatType::DataBar
    );
    let rr = rs.get_cell(1, 1).and_then(|x| x.rich.as_ref()).unwrap();
    assert_eq!(rr.runs.len(), 2);
    assert_eq!(rr.runs[0].font.as_ref().unwrap().bold, Some(true));
    assert_eq!(
        rr.runs[1].font.as_ref().unwrap().fore_color.as_deref(),
        Some("#f00")
    );
}

#[test]
fn floating_and_comments_round_trip() {
    let mut wb = Workbook::empty();
    let mut ws = Worksheet::with_size("F", 10, 6);
    ws.comments.push(CommentEntry(
        2,
        2,
        CellComment { text: "批注文本".into(), author: Some("A".into()) },
    ));
    let anchor = |fr, fc, tr, tc| ObjAnchor {
        from_row: fr,
        from_col: fc,
        to_row: tr,
        to_col: tc,
        from_dx: None,
        from_dy: None,
        to_dx: None,
        to_dy: None,
    };
    ws.floating_objects.push(FloatingObject {
        id: "chart1".into(),
        kind: FloatingKind::Chart,
        anchor: anchor(1, 1, 5, 5),
        src: None,
        chart: Some(ChartSpec {
            chart_type: ChartType::Column,
            data_range: RegionRect::new(0, 0, 4, 3),
            title: Some("销售".into()),
            first_row_header: None,
            first_col_header: None,
            options: None,
        }),
        shape: None,
        z: None,
    });
    ws.floating_objects.push(FloatingObject {
        id: "img1".into(),
        kind: FloatingKind::Image,
        anchor: anchor(6, 1, 8, 3),
        src: Some("data:image/png;base64,AAAA".into()),
        chart: None,
        shape: None,
        z: None,
    });
    wb.sheets.push(ws);
    let restored = workbook_from_json(workbook_to_json(wb));
    let rs = &restored.sheets[0];
    assert_eq!(
        rs.comments.iter().find(|e| (e.0, e.1) == (2, 2)).map(|e| e.2.text.as_str()),
        Some("批注文本")
    );
    assert_eq!(rs.floating_objects.len(), 2);
    assert_eq!(
        rs.floating_objects.iter().find(|o| o.id == "chart1")
            .and_then(|o| o.chart.as_ref())
            .map(|c| c.chart_type),
        Some(ChartType::Column)
    );
    assert_eq!(
        rs.floating_objects.iter().find(|o| o.id == "img1")
            .and_then(|o| o.src.as_deref()),
        Some("data:image/png;base64,AAAA")
    );
}

#[test]
fn page_setup_round_trip() {
    let mut wb = Workbook::empty();
    let mut ws = Worksheet::with_size("P", 10, 5);
    ws.page_setup = Some(PageSetup {
        orientation: Some(Orientation::Landscape),
        paper_size: Some("A3".into()),
        fit_to_pages: Some(FitToPages {
            width: 1,
            height: 0,
        }),
        print_titles: Some(PrintTitles {
            row_start: Some(0),
            row_end: Some(0),
            col_start: None,
            col_end: None,
        }),
        ..plain_page()
    });
    wb.sheets.push(ws);
    let restored = workbook_from_json(workbook_to_json(wb));
    let ps = restored.sheets[0].page_setup.as_ref().unwrap();
    assert_eq!(ps.orientation, Some(Orientation::Landscape));
    assert_eq!(ps.paper_size.as_deref(), Some("A3"));
    assert_eq!(ps.fit_to_pages.map(|f| f.width), Some(1));
    assert_eq!(ps.print_titles.and_then(|t| t.row_end), Some(0));
}

#[test]
fn protection_and_locked_round_trip() {
    let mut wb = Workbook::empty();
    let mut ws = Worksheet::with_size("S", 10, 10);
    ws.set_style(
        0,
        0,
        Some(Style {
            locked: Some(false),
            ..Default::default()
        }),
    );
    ws.protection = Some(SheetProtection {
        enabled: true,
        allow_sort: Some(true),
        ..Default::default()
    });
    wb.sheets.push(ws);
    let restored = workbook_from_json(workbook_to_json(wb));
    let s2 = &restored.sheets[0];
    assert_eq!(s2.get_style(0, 0).and_then(|st| st.locked), Some(false));
    assert!(s2.protection.is_some_and(|p| p.enabled));
    assert_eq!(s2.protection.and_then(|p| p.allow_sort), Some(true));
}

#[test]
fn sparkline_round_trip() {
    let mut wb = Workbook::empty();
    let mut ws = Worksheet::with_size("S", 10, 10);
    ws.sparklines.push(SparklineEntry(
        2,
        3,
        Sparkline {
            sparkline_type: SparklineType::Winloss,
            data_range: RegionRect::new(0, 0, 1, 5),
            color: None,
            negative_color: Some("#f00".into()),
            markers: None,
            high_low: Some(true),
            first_last: None,
            target: None,
        },
    ));
    wb.sheets.push(ws);
    let restored = workbook_from_json(workbook_to_json(wb));
    let sp = &restored.sheets[0].sparklines.iter().find(|e| (e.0, e.1) == (2, 3)).unwrap().2;
    assert_eq!(sp.sparkline_type, SparklineType::Winloss);
    assert_eq!(sp.negative_color.as_deref(), Some("#f00"));
    assert_eq!(sp.high_low, Some(true));
    assert_eq!(sp.data_range, RegionRect::new(0, 0, 1, 5));
}

#[test]
fn defined_names_round_trip() {
    let mut wb = sample_workbook();
    wb.names.push(named("SALES", "资产表!A1:A5", "workbook"));
    wb.names.push(named("LOCAL", "B2", "利润表"));
    let restored = workbook_from_json(workbook_to_json(wb));
    assert_eq!(
        refers_to(&restored, "SALES", "workbook"),
        Some("资产表!A1:A5")
    );
    assert_eq!(
        refers_to(&restored, "LOCAL", "利润表"),
        Some("B2")
    );
    assert_eq!(restored.names.len(), 2);
}

#[test]
fn sparse_default_heights_widths_not_serialized() {
    let mut wb = Workbook::empty();
    let mut ws = Worksheet::with_size("S", 10, 5);
    ws.set_value(0, 0, t("x"));
    wb.sheets.push(ws);
    let snap = sheet_to_json(wb.sheets[0].clone());
    assert!(snap.row_heights.is_empty());
    assert!(snap.col_widths.is_empty());
    assert_eq!(snap.cells.len(), 1);
}

#[test]
fn parse_rejects_non_megasheet() {
    let json: serde_json::Value =
        serde_json::from_str("{\"format\":\"other\",\"version\":18,\"sheets\":[]}").unwrap();
    let format = json["format"].as_str().unwrap();
    assert!(check_format(format).is_err());
    assert_eq!(
        check_format(format),
        Err("not a cmx-megasheet snapshot (format=other)".to_string())
    );
    assert_eq!(check_format("cmx-megasheet"), Ok(()));
}

#[test]
fn view_state_stays() {
    let mut wb = sample_workbook();
    wb.frozen_row_count = 2;
    wb.frozen_col_count = 1;
    wb.trailing_row_count = 3;
    wb.trailing_col_count = 4;
    wb.split_row = true;
    let restored = workbook_from_json(workbook_to_json(wb.clone()));
    assert_eq!(restored, wb);
}

#[test]
fn empty_formulas_and_styles_are_left_out() {
    let mut ws = Worksheet::with_size("S", 4, 4);
    ws.set_value(2, 2, n(3));
    ws.set_value(0, 3, t("x"));
    ws.set_style(0, 3, Some(Style::default()));
    ws.set_value(2, 1, n(1));
    ws.zoom = "1.5".to_string();
    ws.active_row = 2;
    let snap = sheet_to_json(ws);
    let places: Vec<(u32, u32)> = snap.cells.iter().map(|c| (c.r, c.c)).collect();
    assert_eq!(places, vec![(0, 3), (2, 1), (2, 2)]);
    let x = CellSnapshot { r: 0, c: 3, v: t("x"), f: None, s: None, rich: None };
    assert_eq!(snap.cells[0], x);
    assert_eq!(snap.zoom.as_deref(), Some("1.5"));
    assert_eq!((snap.active_row, snap.active_col), (Some(2), None));
    assert_eq!(snap.summary_below, None);
}

#[test]
fn a_formula_keeps_its_value_and_drops_its_sign() {
    let cell = CellSnapshot {
        r: 1,
        c: 1,
        v: n(7),
        f: Some("=A1+1".to_string()),
        s: None,
        rich: None,
    };
    let snap = SheetSnapshot {
        name: "S".into(),
        row_count: 3,
        col_count: 3,
        cells: vec![cell],
        ..Default::default()
    };
    let ws = sheet_from_json(snap, Vec::new());
    assert_eq!(ws.get_formula(1, 1), "A1+1");
    assert_eq!(ws.get_value(1, 1), n(7));
}

#[test]
fn the_snapshot_of_what_comes_of_a_snapshot_is_the_same() {
    let mut wb = Workbook::empty();
    for (name, style) in [("One", "b"), ("Two", "a")] {
        let mut ws = Worksheet::with_size(name, 20, 10);
        ws.set_value(3, 1, t("x"));
        ws.set_value(0, 2, n(4));
        ws.set_formula(1, 1, "A1+1".to_string());
        ws.set_formula(2, 2, String::new());
        ws.set_style(5, 5, Some(Style::default()));
        ws.set_style(6, 6, Some(Style { bold: Some(true), ..Default::default() }));
        define(&mut ws.style_sheet, style, Style { italic: Some(true), ..Default::default() });
        define(&mut ws.style_sheet, "c", Style::default());
        wb.sheets.push(ws);
    }
    wb.active_sheet = 1;
    let snap = workbook_to_json(wb);
    assert_eq!(snap.sheets[0].cells.len(), 4);
    let names: Vec<&str> =
        snap.styles.as_ref().unwrap().iter().map(|s| s.name.as_str()).collect();
    assert_eq!(names, vec!["a", "b", "c"]);
    assert_eq!(workbook_to_json(workbook_from_json(snap.clone())), snap);
}
