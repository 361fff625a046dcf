//! A workbook of six sheets, as it is built and as it is written.
use cmx_sheet::archive::unzip;
use cmx_sheet::outline::OutlineAxis;
use cmx_sheet::snapshot::{
    CellValue, ChartOptions, ChartSpec, ChartType, FloatingKind, FloatingObject, NamedStyle, NumPair,
    ObjAnchor, RegionRect, Span, Sparkline, SparklineEntry, SparklineType,
};
use cmx_sheet::style::{BorderEdge, BorderLineStyle, Borders, HAlign, Style, VAlign};
use cmx_sheet::worksheet::{workbook_from_json, workbook_to_json, Workbook, Worksheet};
use cmx_sheet::xlsx_book::snapshot_to_xlsx;
use cmx_sheet::xlsx_read::xlsx_to_snapshot;

/// What a cell shows, from a plain value.
trait Shown {
    fn shown(self) -> CellValue;
}

impl Shown for &str {
    fn shown(self) -> CellValue {
        CellValue::Text(self.to_string())
    }
}

impl Shown for f64 {
    fn shown(self) -> CellValue {
        CellValue::Number(self.to_string())
    }
}

/// Short forms for filling sheets.
trait Fill {
    fn set_column_width(&mut self, c: u32, px: &str);
    fn set_row_height(&mut self, r: u32, px: &str);
    fn add_span(&mut self, row: u32, col: u32, row_count: u32, col_count: u32);
    fn set_sparkline(&mut self, r: u32, c: u32, s: Sparkline);
}

impl Fill for Worksheet {
    fn set_column_width(&mut self, c: u32, px: &str) {
        self.col_widths.push(NumPair(c, px.to_string()));
    }
    fn set_row_height(&mut self, r: u32, px: &str) {
        self.row_heights.push(NumPair(r, px.to_string()));
    }
    fn add_span(&mut self, row: u32, col: u32, row_count: u32, col_count: u32) {
        self.spans.push(Span { row, col, row_count, col_count });
    }
    fn set_sparkline(&mut self, r: u32, c: u32, s: Sparkline) {
        self.sparklines.push(SparklineEntry(r, c, s));
    }
}

fn define(sheet: &mut Vec<NamedStyle>, name: &str, style: Style) {
    sheet.push(NamedStyle { name: name.to_string(), style });
}

fn no_options() -> ChartOptions {
    ChartOptions {
        legend: None,
        data_labels: None,
        trendline: None,
        series_types: None,
        secondary_axis: None,
    }
}

fn edge(style: BorderLineStyle, color: &str) -> BorderEdge {
    BorderEdge {
        style,
        color: color.to_string(),
    }
}
fn box_border(style: BorderLineStyle, color: &str) -> Borders {
    Borders {
        top: Some(edge(style, color)),
        bottom: Some(edge(style, color)),
        left: Some(edge(style, color)),
        right: Some(edge(style, color)),
        ..Default::default()
    }
}
fn build_style_sheet() -> Vec<NamedStyle> {
    let mut ss = Vec::new();
    define(
        &mut ss,
        "title",
        Style {
            bold: Some(true),
            font_size: Some("15".into()),
            h_align: Some(HAlign::Center),
            ..Default::default()
        },
    );
    define(
        &mut ss,
        "hdr",
        Style {
            bold: Some(true),
            back_color: Some("#cdd9f5".into()),
            h_align: Some(HAlign::Center),
            ..Default::default()
        },
    );
    define(
        &mut ss,
        "money",
        Style {
            formatter: Some("#,##0.00".into()),
            h_align: Some(HAlign::Right),
            ..Default::default()
        },
    );
    define(
        &mut ss,
        "total",
        Style {
            bold: Some(true),
            formatter: Some("#,##0.00".into()),
            h_align: Some(HAlign::Right),
            back_color: Some("#dce6fb".into()),
            ..Default::default()
        },
    );
    define(
        &mut ss,
        "sub",
        Style {
            formatter: Some("#,##0.00".into()),
            h_align: Some(HAlign::Right),
            back_color: Some("#eef3fd".into()),
            ..Default::default()
        },
    );
    ss
}
fn put_styled(ws: &mut Worksheet, r: u32, c: u32, v: impl Shown, style_name: &str) {
    ws.set_value(r, c, Some(v.shown()));
    ws.set_style(
        r,
        c,
        Some(Style {
            style_name: Some(style_name.to_string()),
            ..Default::default()
        }),
    );
}
fn put(ws: &mut Worksheet, r: u32, c: u32, v: impl Shown, style: Style) {
    ws.set_value(r, c, Some(v.shown()));
    ws.set_style(r, c, Some(style));
}
fn dr(row: u32, col: u32, n: u32) -> RegionRect {
    RegionRect::new(row, col, 1, n)
}
fn sheet_sparkline(ss: &[NamedStyle]) -> Worksheet {
    let mut sp = Worksheet::with_size("① 迷你图", 24, 12);
    sp.style_sheet = ss.to_vec();
    sp.set_column_width(0, "90");
    sp.set_column_width(1, "150");
    put_styled(&mut sp, 0, 0, "趋势", "hdr");
    put_styled(&mut sp, 0, 1, "迷你图", "hdr");
    let trend = [3.0, 7.0, 4.0, 9.0, 6.0, 11.0, 8.0, 14.0];
    let winloss = [1.0, -1.0, 1.0, 1.0, -1.0, -1.0, 1.0, -1.0];
    for (i, v) in trend.iter().enumerate() {
        sp.set_value(0, 3 + i as u32, Some(v.shown()));
    }
    for (i, v) in winloss.iter().enumerate() {
        sp.set_value(1, 3 + i as u32, Some(v.shown()));
    }
    for (i, v) in [20.0, 45.0, 30.0, 55.0, 40.0].iter().enumerate() {
        sp.set_value(2, 3 + i as u32, Some(v.shown()));
    }
    sp.set_value(3, 3, Some(72.0.shown()));
    for (i, n) in ["折线", "柱", "输赢", "KPI", "填充", "微饼"]
        .iter()
        .enumerate()
    {
        sp.set_value(2 + i as u32, 0, Some(n.shown()));
    }
    for r in 2..=7 {
        sp.set_row_height(r, "26");
    }
    sp.set_sparkline(
        2,
        1,
        Sparkline {
            sparkline_type: SparklineType::Line,
            data_range: dr(0, 3, 8),
            markers: Some(true),
            high_low: Some(true),
            ..spark_default()
        },
    );
    sp.set_sparkline(
        3,
        1,
        Sparkline {
            sparkline_type: SparklineType::Column,
            data_range: dr(2, 3, 5),
            ..spark_default()
        },
    );
    sp.set_sparkline(
        4,
        1,
        Sparkline {
            sparkline_type: SparklineType::Winloss,
            data_range: dr(1, 3, 8),
            negative_color: Some("#e15759".into()),
            ..spark_default()
        },
    );
    sp.set_sparkline(
        5,
        1,
        Sparkline {
            sparkline_type: SparklineType::Bullet,
            data_range: dr(3, 3, 1),
            target: Some("60".into()),
            color: Some("#59a14f".into()),
            ..spark_default()
        },
    );
    sp.set_sparkline(
        6,
        1,
        Sparkline {
            sparkline_type: SparklineType::Area,
            data_range: dr(0, 3, 8),
            ..spark_default()
        },
    );
    sp.set_sparkline(
        7,
        1,
        Sparkline {
            sparkline_type: SparklineType::Pie,
            data_range: dr(2, 3, 5),
            ..spark_default()
        },
    );
    sp
}

fn spark_default() -> Sparkline {
    Sparkline {
        sparkline_type: SparklineType::Line,
        data_range: RegionRect::new(0, 0, 1, 1),
        color: None,
        negative_color: None,
        markers: None,
        high_low: None,
        first_last: None,
        target: None,
    }
}
fn sheet_row_group(ss: &[NamedStyle]) -> Worksheet {
    let mut rg = Worksheet::with_size("② 行·多级分组", 30, 8);
    rg.style_sheet = ss.to_vec();
    rg.set_column_width(0, "200");
    rg.set_column_width(1, "130");
    rg.set_column_width(2, "130");
    put_styled(&mut rg, 0, 0, "区域 / 客户 · 应收明细", "title");
    rg.add_span(0, 0, 1, 3);
    rg.set_row_height(0, "30");
    put_styled(&mut rg, 1, 0, "项目", "hdr");
    put_styled(&mut rg, 1, 1, "期初", "hdr");
    put_styled(&mut rg, 1, 2, "期末", "hdr");
    let rows: [(&str, &str, f64, f64); 7] = [
        ("合计", "total", 8300.0, 9200.0),
        ("华东 小计", "sub", 4300.0, 4800.0),
        ("上海A公司", "money", 2600.0, 2900.0),
        ("杭州B公司", "money", 1700.0, 1900.0),
        ("华南 小计", "sub", 4000.0, 4400.0),
        ("广州C公司", "money", 2100.0, 2300.0),
        ("深圳D公司", "money", 1900.0, 2100.0),
    ];
    for (i, (name, st, a, b)) in rows.iter().enumerate() {
        let r = 2 + i as u32;
        if *st == "money" {
            rg.set_value(r, 0, Some(name.shown()));
        } else {
            put(
                &mut rg,
                r,
                0,
                *name,
                Style {
                    bold: Some(true),
                    ..Default::default()
                },
            );
        }
        put_styled(&mut rg, r, 1, *a, st);
        put_styled(&mut rg, r, 2, *b, st);
    }
    rg.summary_below = false;
    rg.row_outlines.group(2, 7);
    rg.row_outlines.group(3, 3);
    rg.row_outlines.group(6, 3);
    rg
}
fn sheet_col_group(ss: &[NamedStyle]) -> Worksheet {
    let mut cg = Worksheet::with_size("③ 列·多级分组", 12, 16);
    cg.style_sheet = ss.to_vec();
    cg.set_column_width(0, "120");
    put_styled(&mut cg, 0, 0, "项目", "hdr");
    let col_hdr = ["全年合计", "上半年", "Q1", "Q2", "下半年", "Q3", "Q4"];
    for (i, h) in col_hdr.iter().enumerate() {
        cg.set_column_width(1 + i as u32, "96");
        put_styled(&mut cg, 0, 1 + i as u32, *h, "hdr");
    }
    let data_rows: [(&str, [f64; 7]); 3] = [
        (
            "营业收入",
            [3200.0, 1570.0, 750.0, 820.0, 1630.0, 800.0, 830.0],
        ),
        (
            "营业成本",
            [1980.0, 960.0, 460.0, 500.0, 1020.0, 510.0, 510.0],
        ),
        ("毛利", [1220.0, 610.0, 290.0, 320.0, 610.0, 290.0, 320.0]),
    ];
    for (i, (name, vals)) in data_rows.iter().enumerate() {
        let r = 1 + i as u32;
        put(
            &mut cg,
            r,
            0,
            *name,
            Style {
                bold: Some(true),
                ..Default::default()
            },
        );
        for (j, v) in vals.iter().enumerate() {
            let sn = if j == 0 {
                "total"
            } else if j == 1 || j == 4 {
                "sub"
            } else {
                "money"
            };
            put_styled(&mut cg, r, 1 + j as u32, *v, sn);
        }
    }
    cg.summary_right = false;
    cg.column_outlines.group(1, 7);
    cg.column_outlines.group(2, 3);
    cg.column_outlines.group(5, 3);
    cg
}
fn sheet_dual_group(ss: &[NamedStyle]) -> Worksheet {
    let mut dg = Worksheet::with_size("④ 行列·同时分组", 20, 16);
    dg.style_sheet = ss.to_vec();
    dg.set_column_width(0, "130");
    put_styled(&mut dg, 0, 0, "行列同时多级分组", "title");
    dg.add_span(0, 0, 1, 5);
    dg.set_row_height(0, "28");
    put_styled(&mut dg, 1, 0, "行 \\ 列", "hdr");
    let dc_hdr = ["合计", "A小计", "A-1", "A-2", "B小计", "B-1", "B-2"];
    for (i, h) in dc_hdr.iter().enumerate() {
        dg.set_column_width(1 + i as u32, "80");
        put_styled(&mut dg, 1, 1 + i as u32, *h, "hdr");
    }
    let dr_hdr = ["合计", "甲小计", "甲-1", "甲-2", "乙小计", "乙-1", "乙-2"];
    for (i, name) in dr_hdr.iter().enumerate() {
        let r = 2 + i as u32;
        put(
            &mut dg,
            r,
            0,
            *name,
            Style {
                bold: Some(true),
                ..Default::default()
            },
        );
        for c in 1..=7u32 {
            put_styled(&mut dg, r, c, ((i as u32 + 1) * 100 + c) as f64, "money");
        }
    }
    dg.summary_below = false;
    dg.summary_right = false;
    dg.row_outlines.group(2, 7);
    dg.row_outlines.group(3, 3);
    dg.row_outlines.group(6, 3);
    dg.column_outlines.group(1, 7);
    dg.column_outlines.group(2, 3);
    dg.column_outlines.group(5, 3);
    dg
}
fn sheet_style(ss: &[NamedStyle]) -> Worksheet {
    let mut st = Worksheet::with_size("⑤ 字体·背景·边框", 26, 10);
    st.style_sheet = ss.to_vec();
    for c in 0..4 {
        st.set_column_width(c, "150");
    }
    put_styled(&mut st, 0, 0, "字体 / 背景色 / 边框 样式集", "title");
    st.add_span(0, 0, 1, 4);
    st.set_row_height(0, "30");
    put_styled(&mut st, 2, 0, "字体", "hdr");
    st.add_span(2, 0, 1, 4);
    let fonts: [(&str, &str); 4] = [
        ("宋体 Serif", "SimSun, serif"),
        ("黑体 Sans", "SimHei, sans-serif"),
        ("楷体 Kai", "KaiTi, serif"),
        ("等宽 Mono", "Consolas, monospace"),
    ];
    for (i, (label, family)) in fonts.iter().enumerate() {
        put(
            &mut st,
            3,
            i as u32,
            *label,
            Style {
                font_family: Some((*family).to_string()),
                font_size: Some("14".into()),
                ..Default::default()
            },
        );
    }
    put(
        &mut st,
        4,
        0,
        "加粗 Bold",
        Style {
            bold: Some(true),
            font_size: Some("15".into()),
            ..Default::default()
        },
    );
    put(
        &mut st,
        4,
        1,
        "斜体 Italic",
        Style {
            italic: Some(true),
            font_size: Some("15".into()),
            ..Default::default()
        },
    );
    put(
        &mut st,
        4,
        2,
        "下划线",
        Style {
            underline: Some(true),
            font_size: Some("15".into()),
            ..Default::default()
        },
    );
    put(
        &mut st,
        4,
        3,
        "删除线",
        Style {
            strikethrough: Some(true),
            font_size: Some("15".into()),
            ..Default::default()
        },
    );
    put(
        &mut st,
        5,
        3,
        "旋转 45°",
        Style {
            text_rotation: Some("45".into()),
            font_size: Some("13".into()),
            ..Default::default()
        },
    );
    st.set_row_height(5, "40");
    put_styled(&mut st, 7, 0, "背景色 / 前景色", "hdr");
    st.add_span(7, 0, 1, 4);
    let swatches: [(&str, &str, &str); 8] = [
        ("红", "#ffffff", "#e15759"),
        ("橙", "#ffffff", "#f28e2b"),
        ("绿", "#ffffff", "#59a14f"),
        ("蓝", "#ffffff", "#4e79a7"),
        ("浅黄", "#7a5c00", "#fff3cd"),
        ("浅绿", "#0f5132", "#d1e7dd"),
        ("浅蓝", "#084298", "#cfe2ff"),
        ("浅灰", "#333333", "#e9ecef"),
    ];
    for (i, (label, fg, bg)) in swatches.iter().enumerate() {
        let r = 8 + (i / 4) as u32;
        let c = (i % 4) as u32;
        put(
            &mut st,
            r,
            c,
            *label,
            Style {
                back_color: Some((*bg).to_string()),
                fore_color: Some((*fg).to_string()),
                h_align: Some(HAlign::Center),
                bold: Some(true),
                ..Default::default()
            },
        );
    }
    st.set_row_height(8, "28");
    st.set_row_height(9, "28");
    put_styled(&mut st, 11, 0, "边框", "hdr");
    st.add_span(11, 0, 1, 4);
    let bc = "#3b6cff";
    let center_box = |style: BorderLineStyle, color: &str| Style {
        h_align: Some(HAlign::Center),
        borders: Some(box_border(style, color)),
        ..Default::default()
    };
    put(
        &mut st,
        12,
        0,
        "细 thin",
        center_box(BorderLineStyle::Thin, bc),
    );
    put(
        &mut st,
        12,
        1,
        "中 medium",
        center_box(BorderLineStyle::Medium, bc),
    );
    put(
        &mut st,
        12,
        2,
        "粗 thick",
        center_box(BorderLineStyle::Thick, bc),
    );
    put(
        &mut st,
        12,
        3,
        "双线 double",
        center_box(BorderLineStyle::Double, bc),
    );
    put(
        &mut st,
        13,
        0,
        "虚线 dashed",
        center_box(BorderLineStyle::Dashed, "#e15759"),
    );
    put(
        &mut st,
        13,
        1,
        "点线 dotted",
        center_box(BorderLineStyle::Dotted, "#e15759"),
    );
    put(
        &mut st,
        13,
        2,
        "仅下边框",
        Style {
            h_align: Some(HAlign::Center),
            borders: Some(Borders {
                bottom: Some(edge(BorderLineStyle::Thick, "#59a14f")),
                ..Default::default()
            }),
            ..Default::default()
        },
    );
    put(
        &mut st,
        13,
        3,
        "对角线",
        Style {
            h_align: Some(HAlign::Center),
            borders: Some(Borders {
                diagonal_down: Some(edge(BorderLineStyle::Thin, "#333333")),
                diagonal_up: Some(edge(BorderLineStyle::Thin, "#333333")),
                ..Default::default()
            }),
            ..Default::default()
        },
    );
    st.set_row_height(12, "32");
    st.set_row_height(13, "32");
    st.set_style(
        13,
        2,
        Some(Style {
            h_align: Some(HAlign::Center),
            v_align: Some(VAlign::Middle),
            borders: Some(Borders {
                bottom: Some(edge(BorderLineStyle::Thick, "#59a14f")),
                ..Default::default()
            }),
            ..Default::default()
        }),
    );
    st
}
fn sheet_charts(ss: &[NamedStyle]) -> Worksheet {
    let mut ch = Worksheet::with_size("⑥ 图表集锦", 46, 16);
    ch.style_sheet = ss.to_vec();
    put_styled(&mut ch, 0, 0, "图表集锦 · 11 类", "title");
    ch.add_span(0, 0, 1, 4);
    let cgrid: [(&str, f64, f64); 5] = [
        ("月", 0.0, 0.0),
        ("1月", 30.0, 18.0),
        ("2月", 45.0, 25.0),
        ("3月", 38.0, 22.0),
        ("4月", 52.0, 30.0),
    ];
    ch.set_value(1, 0, Some("月".shown()));
    ch.set_value(1, 1, Some("销售".shown()));
    ch.set_value(1, 2, Some("成本".shown()));
    for (r, (label, a, b)) in cgrid.iter().enumerate().skip(1) {
        ch.set_value(1 + r as u32, 0, Some(label.shown()));
        ch.set_value(1 + r as u32, 1, Some(a.shown()));
        ch.set_value(1 + r as u32, 2, Some(b.shown()));
    }
    let ohlc: [[f64; 4]; 4] = [
        [0.0, 0.0, 0.0, 0.0],
        [10.0, 14.0, 9.0, 12.0],
        [12.0, 15.0, 10.0, 11.0],
        [11.0, 13.0, 10.0, 13.0],
    ];
    for (c, h) in ["O", "H", "L", "C"].iter().enumerate() {
        ch.set_value(1, 4 + c as u32, Some(h.shown()));
    }
    for (r, row) in ohlc.iter().enumerate().skip(1) {
        for (c, v) in row.iter().enumerate() {
            ch.set_value(1 + r as u32, 4 + c as u32, Some(v.shown()));
        }
    }

    let cdr = RegionRect::new(1, 0, 5, 3);
    let at = |r1, c1, r2, c2| ObjAnchor {
        from_row: r1,
        from_col: c1,
        to_row: r2,
        to_col: c2,
        from_dx: None,
        from_dy: None,
        to_dx: None,
        to_dy: None,
    };
    let specs: [(
        &str,
        ChartType,
        ObjAnchor,
        RegionRect,
        bool,
        bool,
        ChartOptions,
    ); 11] = [
        (
            "柱状 column",
            ChartType::Column,
            at(7, 0, 14, 3),
            cdr,
            true,
            true,
            opt_legend(),
        ),
        (
            "条形 bar",
            ChartType::Bar,
            at(7, 4, 14, 7),
            cdr,
            true,
            true,
            opt_legend(),
        ),
        (
            "折线 line",
            ChartType::Line,
            at(7, 8, 14, 11),
            cdr,
            true,
            true,
            opt_legend_labels(),
        ),
        (
            "面积 area",
            ChartType::Area,
            at(7, 12, 14, 15),
            cdr,
            true,
            true,
            opt_legend(),
        ),
        (
            "饼图 pie",
            ChartType::Pie,
            at(15, 0, 22, 3),
            cdr,
            true,
            true,
            opt_legend(),
        ),
        (
            "甜甜圈 doughnut",
            ChartType::Doughnut,
            at(15, 4, 22, 7),
            cdr,
            true,
            true,
            opt_legend(),
        ),
        (
            "散点+趋势 scatter",
            ChartType::Scatter,
            at(15, 8, 22, 11),
            cdr,
            true,
            false,
            opt_trend(),
        ),
        (
            "气泡 bubble",
            ChartType::Bubble,
            at(15, 12, 22, 15),
            cdr,
            true,
            false,
            no_options(),
        ),
        (
            "雷达 radar",
            ChartType::Radar,
            at(23, 0, 30, 3),
            cdr,
            true,
            true,
            opt_legend(),
        ),
        (
            "K线 stock",
            ChartType::Stock,
            at(23, 4, 30, 7),
            RegionRect::new(1, 4, 4, 4),
            true,
            false,
            no_options(),
        ),
        (
            "组合双轴 combo",
            ChartType::Combo,
            at(23, 8, 30, 11),
            cdr,
            true,
            true,
            opt_combo(),
        ),
    ];
    for (i, (title, kind, anchor, data_range, row_hdr, col_hdr, options)) in
        specs.into_iter().enumerate()
    {
        ch.floating_objects.push(FloatingObject {
            id: format!("chart-{i}"),
            kind: FloatingKind::Chart,
            anchor,
            src: None,
            chart: Some(ChartSpec {
                chart_type: kind,
                data_range,
                title: Some(title.to_string()),
                first_row_header: Some(row_hdr),
                first_col_header: Some(col_hdr),
                options: Some(options),
            }),
            shape: None,
            z: Some(i.to_string()),
        });
    }
    ch
}

fn opt_legend() -> ChartOptions {
    ChartOptions {
        legend: Some(true),
        ..no_options()
    }
}
fn opt_legend_labels() -> ChartOptions {
    ChartOptions {
        legend: Some(true),
        data_labels: Some(true),
        ..no_options()
    }
}
fn opt_trend() -> ChartOptions {
    ChartOptions {
        trendline: Some("linear".into()),
        ..no_options()
    }
}
fn opt_combo() -> ChartOptions {
    ChartOptions {
        series_types: Some(vec!["column".into(), "line".into()]),
        secondary_axis: Some(vec![1]),
        data_labels: Some(true),
        ..no_options()
    }
}
fn build_m99_workbook() -> Workbook {
    let ss = build_style_sheet();
    let mut wb = Workbook::empty();
    wb.sheets.push(sheet_sparkline(&ss));
    wb.sheets.push(sheet_row_group(&ss));
    wb.sheets.push(sheet_col_group(&ss));
    wb.sheets.push(sheet_dual_group(&ss));
    wb.sheets.push(sheet_style(&ss));
    wb.sheets.push(sheet_charts(&ss));
    wb
}

fn to_xlsx(wb: Workbook) -> Vec<u8> {
    snapshot_to_xlsx(&workbook_to_json(wb)).unwrap()
}

fn from_xlsx(bytes: &[u8]) -> Workbook {
    workbook_from_json(xlsx_to_snapshot(bytes).unwrap())
}

fn style_at(ws: &Worksheet, r: u32, c: u32) -> Option<Style> {
    ws.get_cell(r, c).and_then(|x| x.style.clone())
}

/// How deep the groups stand in one another, from 0.
fn max_level(axis: &OutlineAxis) -> Option<usize> {
    let all = axis.list();
    all.iter()
        .map(|g| {
            all.iter()
                .filter(|o| {
                    *o != g && o.start <= g.start && g.start + g.count <= o.start + o.count
                })
                .count()
        })
        .max()
}

#[test]
fn six_sheets_present() {
    let wb = build_m99_workbook();
    assert_eq!(wb.sheets.len(), 6, "六个 sheet 齐全");
    let names: Vec<String> = wb.sheets.iter().map(|s| s.name.clone()).collect();
    assert!(names[0].contains("迷你图"));
    assert!(names[1].contains("行·多级分组"));
    assert!(names[5].contains("图表集锦"));
}

#[test]
fn sheet1_has_six_sparklines_incl_column() {
    let wb = build_m99_workbook();
    let sp = &wb.sheets[0];
    assert_eq!(sp.sparklines.len(), 6, "① 迷你图 6 格");
    let col = &sp.sparklines.iter().find(|e| (e.0, e.1) == (3, 1)).unwrap().2;
    assert_eq!(
        col.sparkline_type,
        SparklineType::Column
    );
}

#[test]
fn sheet2_row_groups_three_levels_no_col_groups() {
    let wb = build_m99_workbook();
    let rg = &wb.sheets[1];
    assert_eq!(rg.row_outlines.list().len(), 3, "② 行分组 3 组");
    assert_eq!(max_level(&rg.row_outlines), Some(1), "三级 maxLevel=1");
    assert!(rg.column_outlines.list().is_empty(), "② 无列分组");
    assert!(!rg.summary_below, "汇总在首 summaryBelow=false");
}

#[test]
fn sheet3_col_groups_three_levels_no_row_groups() {
    let wb = build_m99_workbook();
    let cg = &wb.sheets[2];
    assert_eq!(cg.column_outlines.list().len(), 3, "③ 列分组 3 组");
    assert_eq!(max_level(&cg.column_outlines), Some(1));
    assert!(cg.row_outlines.list().is_empty(), "③ 无行分组");
    assert!(!cg.summary_right, "汇总在左 summaryRight=false");
}

#[test]
fn sheet4_dual_axis_both_three_levels() {
    let wb = build_m99_workbook();
    let dg = &wb.sheets[3];
    assert_eq!(max_level(&dg.row_outlines), Some(1), "④ 行 maxLevel=1");
    assert_eq!(max_level(&dg.column_outlines), Some(1), "④ 列 maxLevel=1");
    assert_eq!(dg.row_outlines.list().len(), 3);
    assert_eq!(dg.column_outlines.list().len(), 3);
}

#[test]
fn sheet5_font_bg_border_rotation() {
    let wb = build_m99_workbook();
    let st = &wb.sheets[4];
    let font = style_at(st, 3, 0).expect("字体样式");
    assert!(
        font.font_family.as_deref().unwrap_or("").contains("serif"),
        "fontFamily 生效"
    );
    let bg = style_at(st, 8, 0).expect("背景样式");
    assert_eq!(bg.back_color.as_deref(), Some("#e15759"));
    assert_eq!(bg.fore_color.as_deref(), Some("#ffffff"));
    let thick = style_at(st, 12, 2).and_then(|s| s.borders).expect("边框");
    assert_eq!(thick.top.map(|e| e.style), Some(BorderLineStyle::Thick));
    assert_eq!(thick.right.map(|e| e.style), Some(BorderLineStyle::Thick));
    let diag = style_at(st, 13, 3)
        .and_then(|s| s.borders)
        .expect("对角边框");
    assert!(diag.diagonal_down.is_some(), "对角线边框");
    assert_eq!(style_at(st, 5, 3).and_then(|s| s.text_rotation), Some("45".to_string()));
}

#[test]
fn sheet6_eleven_charts_cover_eleven_types() {
    let wb = build_m99_workbook();
    let ch = &wb.sheets[5];
    let charts: Vec<_> = ch
        .floating_objects
        .iter()
        .filter(|o| matches!(o.kind, FloatingKind::Chart))
        .collect();
    assert_eq!(charts.len(), 11, "⑥ 图表 11 个");
    let kinds: std::collections::HashSet<String> = charts
        .iter()
        .filter_map(|o| o.chart.as_ref().map(|c| format!("{:?}", c.chart_type)))
        .collect();
    assert_eq!(kinds.len(), 11, "覆盖 11 类图型");
}

#[test]
fn xlsx_round_trip_preserves_multi_sheet_and_groups() {
    let wb = build_m99_workbook();
    let bytes = to_xlsx(wb);
    assert!(bytes.len() > 2000, "XLSX 非空");

    let back = from_xlsx(&bytes);
    assert_eq!(back.sheets.len(), 6, "往返后仍 6 sheet");
    assert!(back.sheets[1].name.contains("行·多级分组"));
    let rg = &back.sheets[1];
    assert_eq!(rg.row_outlines.list().len(), 3, "行分组 3 组往返保持");
    assert_eq!(max_level(&rg.row_outlines), Some(1));
    assert!(!rg.summary_below, "summaryBelow 往返保持");
    let cg = &back.sheets[2];
    assert_eq!(cg.column_outlines.list().len(), 3, "列分组 3 组往返保持");
    assert!(!cg.summary_right, "summaryRight 往返保持");
    let dg = &back.sheets[3];
    assert_eq!(max_level(&dg.row_outlines), Some(1));
    assert_eq!(max_level(&dg.column_outlines), Some(1));
}

#[test]
fn xlsx_bytes_contain_outline_ooxml() {
    let wb = build_m99_workbook();
    let bytes = to_xlsx(wb);
    let files = unzip(&bytes);
    let xml = files.get("xl/worksheets/sheet2.xml").unwrap();
    assert!(xml.contains("summaryBelow=\"0\""), "含 outlinePr");
    assert!(xml.contains("outlineLevel=\"2\""), "含三级 outlineLevel");
}

#[test]
fn xlsx_bytes_contain_eleven_chart_parts() {
    let wb = build_m99_workbook();
    let bytes = to_xlsx(wb);
    let zip = zip::ZipArchive::new(std::io::Cursor::new(bytes)).expect("valid zip");
    let names: Vec<String> = zip.file_names().map(|s| s.to_string()).collect();
    let chart_parts = names
        .iter()
        .filter(|n| n.starts_with("xl/charts/chart") && n.ends_with(".xml"))
        .count();
    assert_eq!(chart_parts, 11, "11 个 chart 部件");
    assert!(
        names.iter().any(|n| n == "xl/drawings/drawing1.xml"),
        "有 drawing 部件"
    );
    assert!(
        names
            .iter()
            .any(|n| n == "xl/drawings/_rels/drawing1.xml.rels"),
        "drawing rels"
    );
    assert!(
        names
            .iter()
            .any(|n| n == "xl/worksheets/_rels/sheet6.xml.rels"),
        "sheet6 worksheet rels"
    );
}

#[test]
fn xlsx_bytes_contain_sparkline_extlst() {
    let wb = build_m99_workbook();
    let bytes = to_xlsx(wb);
    let files = unzip(&bytes);
    let xml = files.get("xl/worksheets/sheet1.xml").unwrap();
    assert!(xml.contains("x14:sparklineGroups"), "含 x14 迷你图组");
    assert_eq!(
        xml.matches("<x14:sparklineGroup ").count() + xml.matches("<x14:sparklineGroup>").count(),
        6,
        "6 组迷你图"
    );
    assert!(xml.contains("type=\"stacked\""), "winloss→stacked");
    assert!(
        xml.contains("type=\"column\""),
        "column/bar/bullet/pie→column"
    );
}

