use cmx_sheet::csv::{parse_csv, serialize_csv, CsvParseOptions, CsvSerializeOptions};
use cmx_sheet::snapshot::{CellValue, RegionRect};
use cmx_sheet::worksheet::Worksheet;

fn number(s: &str) -> CellValue {
    CellValue::Number(s.to_string())
}

fn text(s: &str) -> CellValue {
    CellValue::Text(s.to_string())
}


fn sheet() -> Worksheet {
    Worksheet::with_size("S", 20, 10)
}

#[test]
fn parse_basic_rows_cols() {
    assert_eq!(
        parse_csv("a,b,c\n1,2,3", &CsvParseOptions::default()),
        vec![vec!["a", "b", "c"], vec!["1", "2", "3"],]
    );
}
#[test]
fn parse_quoted_comma() {
    assert_eq!(
        parse_csv("1,\"x,y\",3", &CsvParseOptions::default()),
        vec![vec!["1", "x,y", "3"]]
    );
}
#[test]
fn parse_quoted_newline() {
    assert_eq!(
        parse_csv("\"line\nbreak\",5", &CsvParseOptions::default()),
        vec![vec!["line\nbreak", "5"]]
    );
}
#[test]
fn parse_escaped_quote() {
    assert_eq!(
        parse_csv("\"he\"\"llo\",2", &CsvParseOptions::default()),
        vec![vec!["he\"llo", "2"]]
    );
}
#[test]
fn parse_crlf_and_cr_skipped() {
    assert_eq!(
        parse_csv("a,b\r\nc,d", &CsvParseOptions::default()),
        vec![vec!["a", "b"], vec!["c", "d"]]
    );
}
#[test]
fn parse_strips_bom() {
    assert_eq!(
        parse_csv("\u{FEFF}a,b", &CsvParseOptions::default()),
        vec![vec!["a", "b"]]
    );
}
#[test]
fn parse_semicolon_delimiter() {
    assert_eq!(
        parse_csv(
            "a;b;c",
            &CsvParseOptions {
                delimiter: ";".to_string()
            }
        ),
        vec![vec!["a", "b", "c"]]
    );
}
#[test]
fn parse_empty_is_empty() {
    let out = parse_csv("", &CsvParseOptions::default());
    assert!(out.is_empty());
}
#[test]
fn parse_trailing_newline_no_empty_row() {
    assert_eq!(
        parse_csv("a,b\n", &CsvParseOptions::default()),
        vec![vec!["a", "b"]]
    );
}

#[test]
fn serialize_quotes_special_chars() {
    let mut s = sheet();
    s.set_value(0, 0, Some(text("p,q")));
    s.set_value(0, 1, Some(number("42")));
    s.set_value(0, 2, Some(text("he\"llo")));
    assert_eq!(
        serialize_csv(&s, &RegionRect::new(0, 0, 1, 3), &CsvSerializeOptions::default()),
        "\"p,q\",42,\"he\"\"llo\""
    );
}
#[test]
fn serialize_plain_no_quotes() {
    let mut s = sheet();
    s.set_value(0, 0, Some(text("abc")));
    s.set_value(0, 1, Some(number("1.5")));
    assert_eq!(
        serialize_csv(&s, &RegionRect::new(0, 0, 1, 2), &CsvSerializeOptions::default()),
        "abc,1.5"
    );
}
#[test]
fn serialize_bool_true_false() {
    let mut s = sheet();
    s.set_value(0, 0, Some(CellValue::Bool(true)));
    s.set_value(0, 1, Some(CellValue::Bool(false)));
    assert_eq!(
        serialize_csv(&s, &RegionRect::new(0, 0, 1, 2), &CsvSerializeOptions::default()),
        "TRUE,FALSE"
    );
}
#[test]
fn serialize_blank_empty_field() {
    let mut s = sheet();
    s.set_value(0, 0, Some(text("x")));
    assert_eq!(
        serialize_csv(&s, &RegionRect::new(0, 0, 1, 2), &CsvSerializeOptions::default()),
        "x,"
    );
}
#[test]
fn serialize_semicolon_crlf() {
    let mut s = sheet();
    s.set_value(0, 0, Some(text("a")));
    s.set_value(0, 1, Some(text("b")));
    s.set_value(1, 0, Some(text("c")));
    s.set_value(1, 1, Some(text("d")));
    assert_eq!(
        serialize_csv(
            &s,
            &RegionRect::new(0, 0, 2, 2),
            &CsvSerializeOptions {
                delimiter: ";".to_string(),
                eol: "\r\n".to_string(),
                bom: false,
            }
        ),
        "a;b\r\nc;d"
    );
}
#[test]
fn serialize_bom_prefix() {
    let mut s = sheet();
    s.set_value(0, 0, Some(text("中")));
    let out = serialize_csv(
        &s,
        &RegionRect::new(0, 0, 1, 1),
        &CsvSerializeOptions {
            bom: true,
            ..Default::default()
        },
    );
    assert_eq!(out.chars().next(), Some('\u{FEFF}'));
}
#[test]
fn serialize_parse_round_trip() {
    let mut s = sheet();
    let vals = ["plain", "a,b", "q\"q", "l\nn"];
    for (i, v) in vals.iter().enumerate() {
        s.set_value(0, i as u32, Some(text(*v)));
    }
    let csv = serialize_csv(&s, &RegionRect::new(0, 0, 1, 4), &CsvSerializeOptions::default());
    assert_eq!(parse_csv(&csv, &CsvParseOptions::default())[0], vals);
}
