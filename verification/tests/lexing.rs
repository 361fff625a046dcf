//! Tokens and what they parse to.
use cmx_sheet::parse::{parse_formula, AstNode};
use cmx_sheet::token::{tokenize, TokenType};

/// The number that the first token, a numeral, stands for.
fn read(input: &str) -> f64 {
    let t = &tokenize(input).unwrap()[0];
    assert_eq!(t.ty, TokenType::Number);
    t.text.parse().unwrap()
}

fn types(input: &str) -> Vec<TokenType> {
    tokenize(input)
        .unwrap()
        .into_iter()
        .filter(|t| t.ty != TokenType::Eof)
        .map(|t| t.ty)
        .collect()
}
fn texts(input: &str) -> Vec<String> {
    tokenize(input)
        .unwrap()
        .into_iter()
        .filter(|t| t.ty != TokenType::Eof)
        .map(|t| t.text)
        .collect()
}

#[test]
fn numbers() {
    assert_eq!(read("42"), 42.0);
    assert_eq!(read("3.25"), 3.25);
    assert_eq!(read(".5"), 0.5);
    assert_eq!(read("1.5e3"), 1500.0);
    assert_eq!(read("2E-2"), 0.02);
}

#[test]
fn strings() {
    let t = &tokenize("\"hello\"").unwrap()[0];
    assert_eq!(t.ty, TokenType::Str);
    assert_eq!(t.text, "hello");
    let t2 = &tokenize("\"a\"\"b\"").unwrap()[0];
    assert_eq!(t2.text, "a\"b");
    assert!(tokenize("\"oops").is_err());
}

#[test]
fn references() {
    assert_eq!(tokenize("A1").unwrap()[0].ty, TokenType::Ref);
    assert_eq!(tokenize("A1").unwrap()[0].text, "A1");
    assert_eq!(tokenize("$A$1").unwrap()[0].text, "$A$1");
    assert_eq!(tokenize("$B2").unwrap()[0].text, "$B2");
    assert_eq!(tokenize("Sheet1!A1").unwrap()[0].text, "Sheet1!A1");
    assert_eq!(tokenize("'资产 表'!B2").unwrap()[0].text, "'资产 表'!B2");
    assert_eq!(
        types("A1:C3"),
        vec![TokenType::Ref, TokenType::Colon, TokenType::Ref]
    );
}

#[test]
fn idents_not_refs() {
    assert_eq!(tokenize("SUM").unwrap()[0].ty, TokenType::Ident);
    assert_eq!(tokenize("TRUE").unwrap()[0].ty, TokenType::Ident);
}

#[test]
fn operators_punct() {
    assert_eq!(
        texts("1+2-3*4/5^6&7"),
        vec!["1", "+", "2", "-", "3", "*", "4", "/", "5", "^", "6", "&", "7"]
    );
    assert_eq!(texts("a<>b"), vec!["a", "<>", "b"]);
    assert_eq!(texts("a<=b"), vec!["a", "<=", "b"]);
    assert_eq!(texts("a>=b"), vec!["a", ">=", "b"]);
    assert_eq!(texts("a=b"), vec!["a", "=", "b"]);
    assert_eq!(
        types("SUM(A1,B1)"),
        vec![
            TokenType::Ident,
            TokenType::LParen,
            TokenType::Ref,
            TokenType::Comma,
            TokenType::Ref,
            TokenType::RParen
        ]
    );
    assert_eq!(types("50%"), vec![TokenType::Number, TokenType::Percent]);
}

#[test]
fn full_formulas() {
    assert_eq!(texts("=SUM(A1:A3)"), vec!["SUM", "(", "A1", ":", "A3", ")"]);
    assert_eq!(
        types("IF(A1>0, ROUND(B1*2, 2), 0)"),
        vec![
            TokenType::Ident,
            TokenType::LParen,
            TokenType::Ref,
            TokenType::Op,
            TokenType::Number,
            TokenType::Comma,
            TokenType::Ident,
            TokenType::LParen,
            TokenType::Ref,
            TokenType::Op,
            TokenType::Number,
            TokenType::Comma,
            TokenType::Number,
            TokenType::RParen,
            TokenType::Comma,
            TokenType::Number,
            TokenType::RParen,
        ]
    );
    assert_eq!(tokenize("1").unwrap().last().unwrap().ty, TokenType::Eof);
    assert_eq!(tokenize("").unwrap().last().unwrap().ty, TokenType::Eof);
    assert_eq!(texts("  A1  +  B1 "), vec!["A1", "+", "B1"]);
}

#[test]
fn whole_col_row_ranges() {
    assert_eq!(tokenize("A:A").unwrap()[0].ty, TokenType::Range);
    assert_eq!(tokenize("A:A").unwrap()[0].text, "A:A");
    assert_eq!(tokenize("1:1").unwrap()[0].text, "1:1");
    assert_eq!(tokenize("Sheet1!2:5").unwrap()[0].text, "Sheet1!2:5");
    assert_eq!(
        types("SUM(A:A)"),
        vec![
            TokenType::Ident,
            TokenType::LParen,
            TokenType::Range,
            TokenType::RParen
        ]
    );
}

#[test]
fn func_name_with_mid_digit_is_one_ident() {
    for name in ["DEC2BIN", "BIN2HEX", "HEX2DEC", "OCT2BIN"] {
        let toks = tokenize(&format!("{name}(100)")).unwrap();
        assert_eq!(toks[0].ty, TokenType::Ident);
        assert_eq!(toks[0].text, name);
        assert_eq!(toks[1].ty, TokenType::LParen);
    }
    let t = tokenize("A1+SUM(B1:B2)").unwrap();
    assert_eq!(t[0].ty, TokenType::Ref);
    assert_eq!(t[0].text, "A1");
}

#[test]
fn literals_and_refs() {
    assert_eq!(parse_formula("42").unwrap(), AstNode::Number("42".into()));
    assert_eq!(parse_formula("\"hi\"").unwrap(), AstNode::Str("hi".into()));
    assert_eq!(parse_formula("A1").unwrap(), AstNode::Ref("A1".into()));
    assert_eq!(
        parse_formula("A1:C3").unwrap(),
        AstNode::Range {
            start: "A1".into(),
            end: "C3".into()
        }
    );
    assert_eq!(
        parse_formula("Sheet1!A1:B2").unwrap(),
        AstNode::Range {
            start: "Sheet1!A1".into(),
            end: "B2".into()
        }
    );
    assert_eq!(parse_formula("TRUE").unwrap(), AstNode::Name("TRUE".into()));
}

#[test]
fn precedence() {
    if let AstNode::Binary { op, right, .. } = parse_formula("1+2*3").unwrap() {
        assert_eq!(op, "+");
        assert!(matches!(*right, AstNode::Binary { ref op, .. } if op == "*"));
    } else {
        panic!("expected binary");
    }
    if let AstNode::Binary { op, right, .. } = parse_formula("2^3^2").unwrap() {
        assert_eq!(op, "^");
        assert!(matches!(*right, AstNode::Binary { ref op, .. } if op == "^"));
    } else {
        panic!();
    }
    if let AstNode::Binary { op, left, .. } = parse_formula("(1+2)*3").unwrap() {
        assert_eq!(op, "*");
        assert!(matches!(*left, AstNode::Binary { ref op, .. } if op == "+"));
    } else {
        panic!();
    }
    if let AstNode::Binary { op, left, .. } = parse_formula("A1+1>B1").unwrap() {
        assert_eq!(op, ">");
        assert!(matches!(*left, AstNode::Binary { ref op, .. } if op == "+"));
    } else {
        panic!();
    }
    if let AstNode::Binary { op, right, .. } = parse_formula("\"a\"&1+2").unwrap() {
        assert_eq!(op, "&");
        assert!(matches!(*right, AstNode::Binary { ref op, .. } if op == "+"));
    } else {
        panic!();
    }
}

#[test]
fn unary_percent() {
    assert_eq!(
        parse_formula("-5").unwrap(),
        AstNode::Unary {
            op: "-".into(),
            operand: Box::new(AstNode::Number("5".into()))
        }
    );
    assert_eq!(parse_formula("+5").unwrap(), AstNode::Number("5".into()));
    assert_eq!(
        parse_formula("50%").unwrap(),
        AstNode::Unary {
            op: "%".into(),
            operand: Box::new(AstNode::Number("50".into()))
        }
    );
    if let AstNode::Binary { op, right, .. } = parse_formula("3--2").unwrap() {
        assert_eq!(op, "-");
        assert!(matches!(*right, AstNode::Unary { ref op, .. } if op == "-"));
    } else {
        panic!();
    }
}

#[test]
fn function_calls() {
    assert_eq!(
        parse_formula("NOW()").unwrap(),
        AstNode::Call {
            name: "NOW".into(),
            args: vec![]
        }
    );
    if let AstNode::Call { name, args } = parse_formula("sum(A1, B1, 3)").unwrap() {
        assert_eq!(name, "SUM");
        assert_eq!(args.len(), 3);
    } else {
        panic!();
    }
    if let AstNode::Call { name, args } = parse_formula("IF(A1>0, ROUND(B1*2,2), 0)").unwrap() {
        assert_eq!(name, "IF");
        assert!(matches!(args[0], AstNode::Binary { ref op, .. } if op == ">"));
        assert!(matches!(args[1], AstNode::Call { ref name, .. } if name == "ROUND"));
        assert_eq!(args[2], AstNode::Number("0".into()));
    } else {
        panic!();
    }
    if let AstNode::Call { args, .. } = parse_formula("SUM(A1:A10)").unwrap() {
        assert_eq!(
            args[0],
            AstNode::Range {
                start: "A1".into(),
                end: "A10".into()
            }
        );
    } else {
        panic!();
    }
}

#[test]
fn errors() {
    assert!(parse_formula("").is_err());
    assert!(parse_formula("SUM(A1").is_err());
    assert!(parse_formula("1 2").is_err());
    assert!(
        matches!(parse_formula("=1+1").unwrap(), AstNode::Binary { ref op, .. } if op == "+")
    );
}
