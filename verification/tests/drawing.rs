use cmx_sheet::snapshot::{
    CellSnapshot, CellValue, ChartSpec, ChartType, RegionRect, SheetSnapshot, Sparkline,
    SparklineEntry, SparklineType,
};
use cmx_sheet::xlsx_drawing::{
    abs_addr, chart_xml, drawing_rels_xml, drawing_xml, native_sparkline_type, quote_sheet_name,
    region_abs_a1, sparkline_ext_lst,
};


#[test]
fn quote_sheet_name_rules() {
    assert_eq!(quote_sheet_name("Sheet1"), "Sheet1");
    assert_eq!(quote_sheet_name("data_2"), "data_2");
    assert_eq!(quote_sheet_name("① 迷你图"), "'① 迷你图'");
    assert_eq!(quote_sheet_name("My Sheet"), "'My Sheet'");
    assert_eq!(quote_sheet_name("a'b"), "'a''b'");
    assert_eq!(quote_sheet_name("2024"), "'2024'");
}

#[test]
fn abs_a1_refs() {
    assert_eq!(abs_addr(0, 0), "$A$1");
    assert_eq!(abs_addr(4, 2), "$C$5");
    assert_eq!(region_abs_a1(&RegionRect::new(0, 1, 1, 1)), "$B$1");
    assert_eq!(region_abs_a1(&RegionRect::new(1, 0, 5, 3)), "$A$2:$C$6");
}

#[test]
fn native_sparkline_degradation() {
    assert_eq!(native_sparkline_type(SparklineType::Line), "line");
    assert_eq!(native_sparkline_type(SparklineType::Area), "line");
    assert_eq!(native_sparkline_type(SparklineType::Column), "column");
    assert_eq!(native_sparkline_type(SparklineType::Bar), "column");
    assert_eq!(native_sparkline_type(SparklineType::Bullet), "column");
    assert_eq!(native_sparkline_type(SparklineType::Pie), "column");
    assert_eq!(native_sparkline_type(SparklineType::Winloss), "stacked");
}

fn spark(t: SparklineType, dr: RegionRect) -> Sparkline {
    Sparkline {
        sparkline_type: t,
        data_range: dr,
        color: None,
        negative_color: None,
        markers: None,
        high_low: None,
        first_last: None,
        target: None,
    }
}

#[test]
fn sparkline_ext_lst_empty_when_none() {
    let snap = SheetSnapshot {
        name: "S".into(),
        ..Default::default()
    };
    assert_eq!(sparkline_ext_lst("S", &snap), "");
}

#[test]
fn sparkline_ext_lst_emits_x14_group() {
    let mut snap = SheetSnapshot {
        name: "① 迷你图".into(),
        ..Default::default()
    };
    snap.sparklines.push(SparklineEntry(
        2,
        1,
        spark(SparklineType::Column, RegionRect::new(0, 3, 1, 8)),
    ));
    let xml = sparkline_ext_lst("① 迷你图", &snap);
    assert!(xml.contains("x14:sparklineGroups"));
    assert!(xml.contains("type=\"column\""));
    assert!(xml.contains("'① 迷你图'!$D$1:$K$1"), "data ref: {xml}");
    assert!(xml.contains("<xm:sqref>B3</xm:sqref>"));
}

fn chart_spec(kind: ChartType) -> ChartSpec {
    ChartSpec {
        chart_type: kind,
        data_range: RegionRect::new(1, 0, 5, 3),
        title: Some("T".into()),
        first_row_header: Some(true),
        first_col_header: Some(true),
        options: None,
    }
}

fn snap_with_grid() -> SheetSnapshot {
    let mut snap = SheetSnapshot {
        name: "Data".into(),
        ..Default::default()
    };
    for (r, c, v) in [
        (1u32, 1u32, "销售"),
        (1, 2, "成本"),
        (2, 0, "1月"),
        (3, 0, "2月"),
    ] {
        snap.cells.push(CellSnapshot {
            r,
            c,
            v: Some(CellValue::Text(v.into())),
            f: None,
            s: None,
            rich: None,
        });
    }
    snap
}

#[test]
fn chart_xml_column_has_barchart_and_refs() {
    let snap = snap_with_grid();
    let xml = chart_xml("Data", &chart_spec(ChartType::Column), &snap);
    assert!(xml.contains("<c:barChart>"));
    assert!(xml.contains("<c:barDir val=\"col\"/>"));
    assert_eq!(xml.matches("<c:ser>").count(), 2);
    assert!(xml.contains("Data!$B$3:$B$6"), "val ref: {xml}");
    assert!(xml.contains("Data!$C$3:$C$6"));
    assert!(xml.contains("Data!$A$3:$A$6"));
    assert!(xml.contains("<c:v>销售</c:v>"));
}

#[test]
fn chart_xml_type_mapping() {
    let snap = snap_with_grid();
    let has =
        |k: ChartType, needle: &str| chart_xml("Data", &chart_spec(k), &snap).contains(needle);
    assert!(has(ChartType::Bar, "<c:barDir val=\"bar\"/>"));
    assert!(has(ChartType::Line, "<c:lineChart>"));
    assert!(has(ChartType::Area, "<c:areaChart>"));
    assert!(has(ChartType::Pie, "<c:pieChart>"));
    assert!(has(ChartType::Doughnut, "<c:doughnutChart>"));
    assert!(has(ChartType::Doughnut, "<c:holeSize val=\"50\"/>"));
    assert!(has(ChartType::Scatter, "<c:scatterChart>"));
    assert!(has(ChartType::Bubble, "<c:scatterChart>"));
    assert!(has(ChartType::Radar, "<c:radarChart>"));
    assert!(has(ChartType::Stock, "<c:stockChart>"));
    let combo = chart_xml("Data", &chart_spec(ChartType::Combo), &snap);
    assert!(combo.contains("<c:barChart>") && combo.contains("<c:lineChart>"));
}

#[test]
fn drawing_xml_two_cell_anchor() {
    let xml = drawing_xml(&[(1, 7, 0, 14, 3)]);
    assert!(xml.contains("<xdr:twoCellAnchor>"));
    assert!(xml.contains("<xdr:col>0</xdr:col>"));
    assert!(xml.contains("<xdr:row>7</xdr:row>"));
    assert!(xml.contains("<xdr:col>3</xdr:col>"));
    assert!(xml.contains("r:id=\"rId1\""));
}

#[test]
fn drawing_rels_targets_charts() {
    let xml = drawing_rels_xml(3);
    assert_eq!(xml.matches("relationships/chart").count(), 3);
    assert!(xml.contains("Target=\"../charts/chart1.xml\""));
    assert!(xml.contains("Target=\"../charts/chart3.xml\""));
}

#[test]
fn title_escaping() {
    let snap = snap_with_grid();
    let mut spec = chart_spec(ChartType::Column);
    spec.title = Some("A & B <x>".into());
    let xml = chart_xml("Data", &spec, &snap);
    assert!(xml.contains("A &amp; B &lt;x&gt;"));
}
