//! Report values, looked up by the cell in which a fetch function stands.
use cmx_sheet::custom_fn::{is_report_fetch, ReportValueMap};
use cmx_sheet::value::{FormulaValue, Num};

fn number(x: f64) -> FormulaValue {
    FormulaValue::Number(Num { bits: x.to_bits() })
}

fn with(raw: Vec<(&str, FormulaValue)>) -> ReportValueMap {
    let mut vm = ReportValueMap::new();
    vm.set(&raw.into_iter().map(|(k, v)| (k.to_string(), v)).collect(), "Sheet1");
    vm
}

/// The number for a cell, where a text counts as the number that it reads as.
fn number_at(vm: &ReportValueMap, sheet: &str, row: u32, col: u32) -> f64 {
    let parsed = match vm.find(sheet, row, col) {
        Some(FormulaValue::Text(s)) => s.trim().parse::<f64>().ok(),
        _ => None,
    };
    f64::from_bits(vm.get_number(sheet, row, col, parsed.map(|x| Num { bits: x.to_bits() })).bits)
}

#[test]
fn value_map_normalizes_bare_keys() {
    let vm = with(vec![("c5", number(100.0))]);
    assert_eq!(number_at(&vm, "Sheet1", 4, 2), 100.0);
}

#[test]
fn value_map_keeps_qualified_keys() {
    let vm = with(vec![("Sheet2!B2", number(50.0))]);
    assert_eq!(number_at(&vm, "Sheet2", 1, 1), 50.0);
    assert_eq!(number_at(&vm, "Sheet1", 1, 1), 0.0);
}

#[test]
fn value_map_missing_blank_nonnumeric_zero() {
    let vm = with(vec![
        ("Sheet1!A1", FormulaValue::Text("".into())),
        ("Sheet1!A2", FormulaValue::Text("abc".into())),
    ]);
    assert_eq!(number_at(&vm, "Sheet1", 0, 0), 0.0);
    assert_eq!(number_at(&vm, "Sheet1", 1, 0), 0.0);
    assert_eq!(number_at(&vm, "Sheet1", 9, 9), 0.0);
}

#[test]
fn value_map_numeric_string() {
    let vm = with(vec![("Sheet1!A1", FormulaValue::Text("123".into()))]);
    assert_eq!(number_at(&vm, "Sheet1", 0, 0), 123.0);
}

#[test]
fn later_values_replace_earlier_ones() {
    let mut vm = with(vec![("a1", number(1.0)), ("Sheet1!A1", number(2.0))]);
    assert_eq!(number_at(&vm, "Sheet1", 0, 0), 2.0);
    vm.clear();
    assert_eq!(number_at(&vm, "Sheet1", 0, 0), 0.0);
}

#[test]
fn fetch_names() {
    for name in ["QM", "QC", "JE", "FS", "REF"] {
        assert!(is_report_fetch(name));
    }
    assert!(!is_report_fetch("SUM"));
    assert!(!is_report_fetch("qm"));
}
