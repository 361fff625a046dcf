//! What holds of all inputs, tried on some.
use cmx_sheet::address::{col_to_label, format_addr, label_to_col, parse_addr};
use cmx_sheet::decimal::{dec_string, read_signed, read_unsigned};
use cmx_sheet::depgraph::cell_key;
use cmx_sheet::engine::{
    cell_to_formula, formula_to_cell, BookCell, BookSheet, CellContent, CellWrite, FormulaEngine,
    Seed,
};
use cmx_sheet::outline::{levels_to_groups, rebuild_outline};
use cmx_sheet::parse::parse_formula;
use cmx_sheet::snapshot::{
    CellSnapshot, ChartSpec, ChartType, FloatingKind, FloatingObject, ObjAnchor,
    OutlineGroupSnapshot, RegionRect, SheetSnapshot,
};
use cmx_sheet::style::{BorderEdge, BorderLineStyle, Borders, HAlign, Style, VAlign};
use cmx_sheet::text::place_of;
use cmx_sheet::token::{tokenize, TokenType};
use cmx_sheet::value::{FormulaError, FormulaValue, Num};
use cmx_sheet::write_back::write_back;
use cmx_sheet::xlsx::order_cells;
use cmx_sheet::xlsx_drawing::{chart_anchors, sheet_charts};
use cmx_sheet::xlsx_style::{
    border_from_xlsx, border_to_xlsx, from_argb, h_from_xlsx, h_to_xlsx, to_argb, v_from_xlsx,
    v_to_xlsx, SharedStrings, StyleRegistry,
};
use cmx_sheet::xlsx_styles_read::{parse_shared_strings, parse_styles};
use cmx_sheet::xml::{esc, unesc};

#[test]
fn decimals_come_back() {
    for n in [0u64, 7, 10, 1048576, u64::MAX] {
        let s: Vec<char> = dec_string(n as u128).chars().collect();
        assert_eq!(read_unsigned(&s, u64::MAX), Some(n));
    }
    assert_eq!(read_unsigned(&vec!['2', '5', '6'], 255), None);
    assert_eq!(read_signed(&vec!['-', '4']), Some(-4));
    assert_eq!(read_signed(&vec!['-']), None);
}

#[test]
fn columns_and_cells_come_back() {
    for (c, label) in [(0, "A"), (25, "Z"), (26, "AA"), (701, "ZZ"), (702, "AAA")] {
        assert_eq!(col_to_label(c), label);
        assert_eq!(label_to_col(label), Some(c));
    }
    let p = parse_addr(&format_addr(41, 27)).unwrap();
    assert_eq!((p.row, p.col), (41, 27));
    assert_eq!(format_addr(41, 27), "AB42");
    assert!(parse_addr("42").is_none());
}

#[test]
fn source_ends_in_one_end() {
    for src in ["", "1+2", "SUM(A1:B2)&\"x\""] {
        let tokens = tokenize(src).unwrap();
        let ends = tokens.iter().filter(|t| t.ty == TokenType::Eof).count();
        assert_eq!(ends, 1);
        assert_eq!(tokens.last().unwrap().ty, TokenType::Eof);
    }
}

#[test]
fn computed_values_are_read_as_written() {
    let one = Num { bits: 1f64.to_bits() };
    for v in [
        FormulaValue::Number(one),
        FormulaValue::Text("x".to_string()),
        FormulaValue::Bool(false),
        FormulaValue::Error(FormulaError::Na),
        FormulaValue::Blank,
    ] {
        assert_eq!(cell_to_formula(&Some(formula_to_cell(&v))), v);
    }
    assert_eq!(
        formula_to_cell(&FormulaValue::Error(FormulaError::Div0)),
        CellContent::Text("#DIV/0!".to_string())
    );
    assert_eq!(cell_to_formula(&None), FormulaValue::Blank);
}

#[test]
fn colours_come_back() {
    assert_eq!(to_argb("#1a2B3c"), "FF1A2B3C");
    assert_eq!(from_argb(Some("FF1A2B3C")), Some("#1a2b3c".to_string()));
    assert_eq!(to_argb("#abc"), "FFAABBCC");
    assert_eq!(from_argb(Some("12")), None);
    assert_eq!(from_argb(None), None);
}

#[test]
fn alignments_and_lines_come_back() {
    for h in [
        HAlign::Left,
        HAlign::Center,
        HAlign::Right,
        HAlign::Fill,
        HAlign::Justify,
        HAlign::CenterContinuous,
    ] {
        assert_eq!(h_from_xlsx(h_to_xlsx(h)), Some(h));
    }
    for v in [VAlign::Top, VAlign::Middle, VAlign::Bottom] {
        assert_eq!(v_from_xlsx(v_to_xlsx(v)), Some(v));
    }
    for b in [BorderLineStyle::Thin, BorderLineStyle::Dashed, BorderLineStyle::Double] {
        assert_eq!(border_from_xlsx(border_to_xlsx(b)), b);
    }
    assert_eq!(h_from_xlsx("middle"), None);
}

#[test]
fn escaped_text_comes_back() {
    for s in ["", "a<b>&\"c\"", "&amp;", "it's", "标题"] {
        assert_eq!(unesc(&esc(s)), s);
    }
    assert_eq!(unesc("&#65;&#x42;"), "AB");
}

#[test]
fn shared_strings_come_back() {
    let mut table = SharedStrings::new();
    assert_eq!(table.intern("a & b"), 0);
    assert_eq!(table.intern(" <c> "), 1);
    assert_eq!(table.intern("a & b"), 0);
    assert_eq!(table.intern(""), 2);
    let xml = table.to_xml();
    assert_eq!(parse_shared_strings(Some(&xml)), vec!["a & b", " <c> ", ""]);
    assert_eq!(parse_shared_strings(None), Vec::<String>::new());
}

#[test]
fn places_are_first_places() {
    let list = vec!["a".to_string(), "b".to_string(), "a".to_string()];
    assert_eq!(place_of(&list, "a"), 0);
    assert_eq!(place_of(&list, "b"), 1);
    assert_eq!(place_of(&list, "c"), 3);
}

#[test]
fn cells_are_ordered_by_place() {
    let cell = |r: u32, c: u32| CellSnapshot { r, c, v: None, f: None, s: None, rich: None };
    let cells = vec![cell(2, 0), cell(0, 5), cell(0, 1), cell(2, 0), cell(1, 9)];
    assert_eq!(order_cells(&cells), vec![2, 1, 4, 0, 3]);
}

#[test]
fn charts_and_their_anchors_go_together() {
    let anchor = |to_row: u32| ObjAnchor {
        from_row: 1,
        from_col: 2,
        to_row,
        to_col: 4,
        from_dx: None,
        from_dy: None,
        to_dx: None,
        to_dy: None,
    };
    let chart = ChartSpec {
        chart_type: ChartType::Pie,
        data_range: RegionRect::new(0, 0, 2, 2),
        title: None,
        first_row_header: None,
        first_col_header: None,
        options: None,
    };
    let object = |kind: FloatingKind, chart: Option<ChartSpec>| FloatingObject {
        id: "o".to_string(),
        kind,
        anchor: anchor(9),
        src: None,
        chart,
        shape: None,
        z: None,
    };
    let snap = SheetSnapshot {
        floating_objects: vec![
            object(FloatingKind::Image, None),
            object(FloatingKind::Chart, Some(chart.clone())),
            object(FloatingKind::Chart, None),
        ],
        ..Default::default()
    };
    assert_eq!(sheet_charts(&snap), vec![&chart]);
    assert_eq!(chart_anchors(&snap), vec![(1, 2, 9, 4)]);
}

#[test]
fn styles_of_a_file_come_back() {
    let mut table = StyleRegistry::new();
    let edge = BorderEdge { style: BorderLineStyle::Thick, color: "#102030".to_string() };
    let style = Style {
        bold: Some(true),
        underline: Some(true),
        font_size: Some("14".to_string()),
        font_family: Some("A & B".to_string()),
        fore_color: Some("#c00000".to_string()),
        back_color: Some("#dfe8ff".to_string()),
        h_align: Some(HAlign::Right),
        v_align: Some(VAlign::Top),
        word_wrap: Some(true),
        formatter: Some("#,##0.00".to_string()),
        borders: Some(Borders { top: Some(edge), ..Default::default() }),
        ..Default::default()
    };
    let i = table.intern(&style);
    assert_eq!(table.intern(&style), i);
    let back = parse_styles(Some(&table.to_xml()));
    let got = &back.xf[i];
    assert_eq!(got.bold, Some(true));
    assert_eq!(got.italic, None);
    assert_eq!(got.underline, Some(true));
    assert_eq!(got.font_size.as_deref(), Some("14"));
    assert_eq!(got.font_family.as_deref(), Some("A & B"));
    assert_eq!(got.fore_color, style.fore_color);
    assert_eq!(got.back_color, style.back_color);
    assert_eq!(got.h_align, style.h_align);
    assert_eq!(got.v_align, style.v_align);
    assert_eq!(got.word_wrap, Some(true));
    assert_eq!(got.formatter, style.formatter);
    assert_eq!(got.borders, style.borders);
    assert_eq!(back.xf[0].bold, None);
}

#[test]
fn nested_groups_come_back_from_their_levels() {
    let group = |start: u32, count: u32, collapsed: bool| OutlineGroupSnapshot {
        start,
        count,
        collapsed,
    };
    let cases = [
        (false, vec![group(2, 7, false), group(3, 3, true), group(6, 3, false)]),
        (true, vec![group(2, 7, false), group(2, 3, true), group(5, 3, false)]),
    ];
    for (after, groups) in cases {
        let axis = rebuild_outline(&groups);
        let levels: Vec<(u32, u32)> =
            (0..12).map(|i| (i, axis.detail_level_at(i, after) as u32)).collect();
        let bounds: Vec<u32> =
            (0..12).filter(|i| axis.is_collapse_boundary(*i, after)).collect();
        let mut back = levels_to_groups(&levels, &bounds, after);
        let outer = back.iter_mut().find(|g| g.count == 7).unwrap();
        assert!(outer.collapsed);
        outer.collapsed = false;
        back.sort_by_key(|g| (g.start, 9 - g.count));
        assert_eq!(back, groups);
    }
}

fn book(formulas: &[(u32, u32, &str)]) -> Vec<BookSheet> {
    let cells = formulas
        .iter()
        .map(|(row, col, f)| BookCell {
            row: *row,
            col: *col,
            content: None,
            formula: Some(f.to_string()),
        })
        .collect();
    vec![BookSheet { name: "S".to_string(), rows: 9, cols: 9, cells }]
}

fn at(row: u32, col: u32) -> Vec<Seed> {
    vec![Seed { sheet: "S".to_string(), row, col }]
}

#[test]
fn changes_are_learnt_from_the_changed_cells() {
    let before = book(&[(0, 1, "A1"), (0, 2, "B1"), (0, 3, "E1")]);
    let after = book(&[(0, 1, "A1"), (0, 2, "F1"), (0, 3, "B1")]);
    let mut learnt = FormulaEngine::new();
    learnt.plan_all(&before);
    let mut seeds = at(0, 2);
    seeds.extend(at(0, 3));
    let due = learnt.plan_cells(&after, &seeds, &Vec::new());
    let mut order = due.order.clone();
    order.sort();
    assert_eq!(order, vec![cell_key("S", 0, 2), cell_key("S", 0, 3)]);
    let mut fresh = FormulaEngine::new();
    fresh.plan_all(&after);
    for seeds in [at(0, 0), at(0, 4), at(0, 5)] {
        let a = learnt.plan_cells(&after, &seeds, &Vec::new());
        let b = fresh.plan_cells(&after, &seeds, &Vec::new());
        assert_eq!(a.order, b.order);
    }
    let due = learnt.plan_cells(&after, &at(0, 0), &Vec::new());
    assert_eq!(due.order, vec![cell_key("S", 0, 1), cell_key("S", 0, 3)]);
    assert!(learnt.plan_cells(&after, &at(0, 4), &Vec::new()).order.is_empty());
}

#[test]
fn what_changes_by_itself_is_computed_each_time() {
    let sheets = book(&[
        (0, 1, "NOW()"),
        (0, 2, "B1+1"),
        (0, 3, "1+TODAY()"),
        (0, 4, "TRUE"),
        (0, 5, "H1"),
    ]);
    let mut engine = FormulaEngine::new();
    engine.plan_all(&sheets);
    let mut order = engine.plan_cells(&sheets, &at(0, 8), &Vec::new()).order;
    order.sort();
    assert_eq!(order, vec![cell_key("S", 0, 1), cell_key("S", 0, 3)]);
    let named = vec!["PRICE".to_string()];
    let sheets = book(&[(0, 1, "PRICE(A1)"), (0, 2, "SUM(A1)")]);
    engine.plan_all(&sheets);
    let order = engine.plan_cells(&sheets, &at(0, 8), &named).order;
    assert_eq!(order, vec![cell_key("S", 0, 1)]);
}

#[test]
fn tokens_stand_in_the_order_of_the_text() {
    let tokens = tokenize("SUM(A1, \"x\")+1.5%").unwrap();
    let places: Vec<usize> = tokens.iter().map(|t| t.pos).collect();
    assert_eq!(places, vec![0, 3, 4, 6, 8, 11, 12, 13, 16, 17]);
}

#[test]
fn an_equals_sign_in_front_changes_nothing() {
    for src in ["1+2", "SUM(A1:B2)&\"x\"", "1+", "\"open"] {
        assert_eq!(parse_formula(&format!("={src}")), parse_formula(src));
    }
}

#[test]
fn brackets_around_a_formula_change_nothing() {
    let sources = [
        "1+2*3",
        "-A1%",
        "SUM('a b'!A1:B2, {1;2})&\"x)\"",
        " x ",
        "F()",
        "1.5e3",
        "Sheet1!$A:$C",
    ];
    for src in sources {
        let plain = parse_formula(src);
        assert!(plain.is_ok());
        assert_eq!(parse_formula(&format!("({src})")), plain);
    }
}

#[test]
fn written_values_come_into_their_cells() {
    let write = |sheet_index: usize, row: u32, col: u32, value: FormulaValue| CellWrite {
        sheet_index,
        sheet_name: "S".to_string(),
        row,
        col,
        value,
    };
    let mut sheets = book(&[(0, 1, "A1"), (0, 2, "B1")]);
    write_back(
        &mut sheets,
        &vec![
            write(0, 0, 2, FormulaValue::Bool(true)),
            write(0, 0, 2, FormulaValue::Error(FormulaError::Circ)),
            write(0, 7, 7, FormulaValue::Text("x".to_string())),
            write(3, 0, 1, FormulaValue::Blank),
        ],
    );
    let cells = &sheets[0].cells;
    assert_eq!(cells.len(), 3);
    assert_eq!(cells[0].content, None);
    assert_eq!(cells[0].formula.as_deref(), Some("A1"));
    assert_eq!(cells[1].content, Some(CellContent::Text("#CIRC!".to_string())));
    assert_eq!(cells[1].formula.as_deref(), Some("B1"));
    assert_eq!((cells[2].row, cells[2].col), (7, 7));
    assert_eq!(cells[2].content, Some(CellContent::Text("x".to_string())));
}
