//! Values of formulas: how they count as numbers, texts and truth values, and their order.
use cmx_sheet::value::{
    compare_values, to_boolean, to_number, to_text, FormulaError, FormulaValue, Num,
};

#[test]
fn error_round_trips() {
    for e in [
        FormulaError::Div0,
        FormulaError::Value,
        FormulaError::Ref,
        FormulaError::Name,
        FormulaError::Num,
        FormulaError::Na,
        FormulaError::Circ,
    ] {
        assert_eq!(FormulaError::from_str(e.as_str()), Some(e));
    }
}

fn num(x: f64) -> Num {
    Num { bits: x.to_bits() }
}

fn number(x: f64) -> FormulaValue {
    FormulaValue::Number(num(x))
}

fn text(s: &str) -> FormulaValue {
    FormulaValue::Text(s.to_string())
}

/// The number that a text reads as.
fn parsed(v: &FormulaValue) -> Option<Num> {
    match v {
        FormulaValue::Text(s) => s.trim().parse::<f64>().ok().map(num),
        _ => None,
    }
}

fn as_number(v: FormulaValue) -> Result<f64, FormulaError> {
    to_number(&v, parsed(&v)).map(|n| f64::from_bits(n.bits))
}

#[test]
fn to_number_coercions() {
    assert_eq!(as_number(text("42")), Ok(42.0));
    assert_eq!(as_number(FormulaValue::Bool(true)), Ok(1.0));
    assert_eq!(as_number(text("")), Ok(0.0));
    assert_eq!(as_number(text("abc")), Err(FormulaError::Value));
}

#[test]
fn to_number_of_the_rest() {
    assert_eq!(as_number(FormulaValue::Blank), Ok(0.0));
    assert_eq!(as_number(FormulaValue::Error(FormulaError::Na)), Err(FormulaError::Na));
    assert_eq!(as_number(number(f64::INFINITY)), Err(FormulaError::Num));
    assert_eq!(as_number(text("inf")), Err(FormulaError::Value));
    assert_eq!(as_number(text("  ")), Ok(0.0));
}

#[test]
fn to_text_coercions() {
    assert_eq!(to_text(&number(42.0), "42"), Ok("42".to_string()));
    assert_eq!(to_text(&FormulaValue::Bool(true), ""), Ok("TRUE".to_string()));
    assert_eq!(to_text(&number(1.5), "1.5"), Ok("1.5".to_string()));
}

#[test]
fn to_boolean_coercions() {
    assert_eq!(to_boolean(&number(0.0), None), Ok(false));
    assert_eq!(to_boolean(&number(3.0), None), Ok(true));
    assert_eq!(to_boolean(&text("TRUE"), None), Ok(true));
}

#[test]
fn compare_basic() {
    assert_eq!(compare_values(&number(1.0), &number(2.0), "<"), Ok(true));
    assert_eq!(compare_values(&text("a"), &text("b"), "<"), Ok(true));
    assert_eq!(compare_values(&number(5.0), &number(5.0), "="), Ok(true));
}

#[test]
fn kinds_are_ordered() {
    assert_eq!(compare_values(&number(9.0), &text("1"), "<"), Ok(true));
    assert_eq!(compare_values(&text("z"), &FormulaValue::Bool(false), "<"), Ok(true));
    assert_eq!(compare_values(&text("ABC"), &text("abc"), "="), Ok(true));
    assert_eq!(compare_values(&number(0.0), &number(-0.0), "="), Ok(true));
    assert_eq!(compare_values(&number(-2.0), &number(-1.0), ">="), Ok(false));
    let e = FormulaValue::Error(FormulaError::Div0);
    assert_eq!(compare_values(&e, &text("a"), "="), Err(FormulaError::Div0));
    assert_eq!(compare_values(&text("a"), &e, "="), Err(FormulaError::Div0));
}
