//! The parser: tokens to a syntax tree, by precedence climbing.
//!
//! From loosest to tightest: comparison, `&`, `+ -`, `* /`, `^`. Only `^` associates to the
//! right. A prefix sign binds tighter than any of them, a trailing `%` tighter still.
use crate::token::{lex_formula, token_seq, tokenize, Token, TokenSpec, TokenType};
use crate::text::{chars_of, find_char, position_of, same_text, slice_string, upper};
use vstd::prelude::*;

verus! {

/// A formula's syntax tree. Numbers are kept as they were written.
#[derive(Debug, PartialEq)]
pub enum AstNode {
    Number(String),
    Str(String),
    /// A cell, with its sheet prefix if there is one.
    Ref(String),
    /// A range, by the text of its two ends.
    Range { start: String, end: String },
    /// An array literal, row by row.
    Array(Vec<Vec<AstNode>>),
    /// A name, `TRUE` and `FALSE` among them.
    Name(String),
    Unary { op: String, operand: Box<AstNode> },
    Binary { op: String, left: Box<AstNode>, right: Box<AstNode> },
    Call { name: String, args: Vec<AstNode> },
}

/// A syntax tree as a mathematical value.
pub enum Ast {
    Number(Seq<char>),
    Str(Seq<char>),
    Ref(Seq<char>),
    Range { start: Seq<char>, end: Seq<char> },
    Array(Seq<Seq<Ast>>),
    Name(Seq<char>),
    Unary { op: Seq<char>, operand: Box<Ast> },
    Binary { op: Seq<char>, left: Box<Ast>, right: Box<Ast> },
    Call { name: Seq<char>, args: Seq<Ast> },
}

impl AstNode {
    /// The tree as a mathematical value.
    pub open spec fn view(&self) -> Ast
        decreases self,
    {
        match self {
            AstNode::Number(t) => Ast::Number(t@),
            AstNode::Str(t) => Ast::Str(t@),
            AstNode::Ref(t) => Ast::Ref(t@),
            AstNode::Range { start, end } => Ast::Range { start: start@, end: end@ },
            AstNode::Array(rows) => Ast::Array(
                Seq::new(
                    rows@.len(),
                    |i: int|
                        if 0 <= i < rows@.len() {
                            Seq::new(
                                rows@[i]@.len(),
                                |j: int|
                                    if 0 <= j < rows@[i]@.len() {
                                        rows@[i]@[j].view()
                                    } else {
                                        arbitrary()
                                    },
                            )
                        } else {
                            arbitrary()
                        },
                ),
            ),
            AstNode::Name(t) => Ast::Name(t@),
            AstNode::Unary { op, operand } => Ast::Unary {
                op: op@,
                operand: Box::new(operand.view()),
            },
            AstNode::Binary { op, left, right } => Ast::Binary {
                op: op@,
                left: Box::new(left.view()),
                right: Box::new(right.view()),
            },
            AstNode::Call { name, args } => Ast::Call {
                name: name@,
                args: Seq::new(
                    args@.len(),
                    |i: int|
                        if 0 <= i < args@.len() {
                            args@[i].view()
                        } else {
                            arbitrary()
                        },
                ),
            },
        }
    }
}

/// The trees of a list.
pub open spec fn ast_seq(v: Seq<AstNode>) -> Seq<Ast> {
    Seq::new(v.len(), |i: int| v[i].view())
}

/// The trees of a list of rows.
pub open spec fn ast_rows(v: Seq<Vec<AstNode>>) -> Seq<Seq<Ast>> {
    Seq::new(v.len(), |i: int| ast_seq(v[i]@))
}

/// A syntax error and the position of the token that caused it.
#[derive(Debug, Clone, PartialEq, Eq)]
pub struct FormulaParseError {
    pub message: String,
    pub pos: usize,
}

/// How tightly an infix operator binds.
pub open spec fn spec_bin_prec(op: Seq<char>) -> Option<u8> {
    if op == "="@ || op == "<>"@ || op == "<"@ || op == ">"@ || op == "<="@ || op == ">="@ {
        Some(1)
    } else if op == "&"@ {
        Some(2)
    } else if op == "+"@ || op == "-"@ {
        Some(3)
    } else if op == "*"@ || op == "/"@ {
        Some(4)
    } else if op == "^"@ {
        Some(5)
    } else {
        None
    }
}

/// The name under which a kind of token appears in messages.
pub open spec fn kind_name(ty: TokenType) -> Seq<char> {
    match ty {
        TokenType::Number => "Number"@,
        TokenType::Str => "Str"@,
        TokenType::Ref => "Ref"@,
        TokenType::Range => "Range"@,
        TokenType::Ident => "Ident"@,
        TokenType::Op => "Op"@,
        TokenType::LParen => "LParen"@,
        TokenType::RParen => "RParen"@,
        TokenType::LBrace => "LBrace"@,
        TokenType::RBrace => "RBrace"@,
        TokenType::Comma => "Comma"@,
        TokenType::Semicolon => "Semicolon"@,
        TokenType::Colon => "Colon"@,
        TokenType::Percent => "Percent"@,
        TokenType::Eof => "Eof"@,
    }
}

/// How a token appears in messages: by its text, or by its kind where it has none.
pub open spec fn spec_disp(t: TokenSpec) -> Seq<char> {
    if t.text.len() == 0 {
        kind_name(t.ty)
    } else {
        t.text
    }
}

/// What a parsing rule gives: a tree and the index of the next token, or a message and a position.
pub type Parsed = Result<(Ast, int), (Seq<char>, int)>;

/// The kind of the token at `i`.
pub open spec fn kind(t: Seq<TokenSpec>, i: int) -> TokenType {
    if 0 <= i < t.len() {
        t[i].ty
    } else {
        TokenType::Eof
    }
}

/// Whether a rule that started at `i` took at least one token.
pub open spec fn advanced(r: Parsed, i: int, n: nat) -> bool {
    match r {
        Ok((_, j)) => i < j <= n,
        Err(_) => false,
    }
}

/// A failed rule's result.
pub open spec fn failure(r: Parsed) -> Parsed {
    match r {
        Ok((_, j)) => Err((Seq::empty(), j)),
        Err(e) => Err(e),
    }
}

pub open spec fn expected_error(t: Seq<TokenSpec>, i: int, ty: TokenType) -> (Seq<char>, int) {
    ("期望 "@ + kind_name(ty) + "，遇到 '"@ + spec_disp(t[i]) + "'"@, t[i].pos)
}

pub open spec fn unexpected_error(t: Seq<TokenSpec>, i: int) -> (Seq<char>, int) {
    ("意外的记号 '"@ + spec_disp(t[i]) + "'"@, t[i].pos)
}

/// The smallest precedence that the right operand of `op` may have.
pub open spec fn right_min(op: Seq<char>, prec: u8) -> u8 {
    if op == "^"@ {
        prec
    } else {
        (prec + 1) as u8
    }
}

/// An expression of operators that bind at least as tightly as `min`.
pub open spec fn p_expr(t: Seq<TokenSpec>, i: int, min: u8) -> Parsed
    decreases t.len() - i, 2nat, 0nat,
{
    let r = p_unary(t, i);
    if advanced(r, i, t.len()) {
        p_infix(t, r->Ok_0.1, r->Ok_0.0, min)
    } else {
        failure(r)
    }
}

/// What follows the left operand `left`: operators that bind at least as tightly as `min`.
pub open spec fn p_infix(t: Seq<TokenSpec>, i: int, left: Ast, min: u8) -> Parsed
    decreases t.len() - i, 0nat,
{
    if kind(t, i) == TokenType::Op && spec_bin_prec(t[i].text) is Some && spec_bin_prec(
        t[i].text,
    )->0 >= min {
        let op = t[i].text;
        let r = p_expr(t, i + 1, right_min(op, spec_bin_prec(op)->0));
        if advanced(r, i + 1, t.len()) {
            p_infix(
                t,
                r->Ok_0.1,
                Ast::Binary { op, left: Box::new(left), right: Box::new(r->Ok_0.0) },
                min,
            )
        } else {
            failure(r)
        }
    } else {
        Ok((left, i))
    }
}

/// A sign and its operand, or a primary expression; either with its percent signs.
pub open spec fn p_unary(t: Seq<TokenSpec>, i: int) -> Parsed
    decreases t.len() - i, 1nat, 0nat,
{
    if kind(t, i) == TokenType::Op && (t[i].text == "-"@ || t[i].text == "+"@) {
        match p_unary(t, i + 1) {
            Ok((a, j)) => Ok(
                p_postfix(
                    t,
                    j,
                    if t[i].text == "-"@ {
                        Ast::Unary { op: "-"@, operand: Box::new(a) }
                    } else {
                        a
                    },
                ),
            ),
            Err(e) => Err(e),
        }
    } else {
        match p_primary(t, i) {
            Ok((a, j)) => Ok(p_postfix(t, j, a)),
            Err(e) => Err(e),
        }
    }
}

/// The percent signs behind an operand.
pub open spec fn p_postfix(t: Seq<TokenSpec>, i: int, a: Ast) -> (Ast, int)
    decreases t.len() - i,
{
    if kind(t, i) == TokenType::Percent {
        p_postfix(t, i + 1, Ast::Unary { op: "%"@, operand: Box::new(a) })
    } else {
        (a, i)
    }
}

/// The token `ty` behind a rule that gave `r`.
pub open spec fn p_close(t: Seq<TokenSpec>, r: Parsed, ty: TokenType) -> Parsed {
    match r {
        Ok((a, j)) => if kind(t, j) == ty {
            Ok((a, j + 1))
        } else {
            Err(expected_error(t, j, ty))
        },
        Err(e) => Err(e),
    }
}

/// A literal, a reference, a name, a call, an array or a bracketed expression.
pub open spec fn p_primary(t: Seq<TokenSpec>, i: int) -> Parsed
    decreases t.len() - i, 0nat,
{
    match kind(t, i) {
        TokenType::Number => Ok((Ast::Number(t[i].text), i + 1)),
        TokenType::Str => Ok((Ast::Str(t[i].text), i + 1)),
        TokenType::LParen => p_close(t, p_expr(t, i + 1, 0), TokenType::RParen),
        TokenType::LBrace => {
            let r = p_expr(t, i + 1, 0);
            if advanced(r, i + 1, t.len()) {
                p_close(
                    t,
                    p_array(t, r->Ok_0.1, Seq::empty(), seq![r->Ok_0.0]),
                    TokenType::RBrace,
                )
            } else {
                failure(r)
            }
        },
        TokenType::Ref => if kind(t, i + 1) == TokenType::Colon {
            if kind(t, i + 2) == TokenType::Ref {
                Ok((Ast::Range { start: t[i].text, end: t[i + 2].text }, i + 3))
            } else {
                Err(expected_error(t, i + 2, TokenType::Ref))
            }
        } else {
            Ok((Ast::Ref(t[i].text), i + 1))
        },
        TokenType::Range => Ok((whole_range(t[i].text), i + 1)),
        TokenType::Ident => if kind(t, i + 1) == TokenType::LParen {
            if kind(t, i + 2) == TokenType::RParen {
                Ok((Ast::Call { name: upper(t[i].text), args: Seq::empty() }, i + 3))
            } else {
                let r = p_expr(t, i + 2, 0);
                if advanced(r, i + 2, t.len()) {
                    p_close(
                        t,
                        p_args(t, r->Ok_0.1, upper(t[i].text), seq![r->Ok_0.0]),
                        TokenType::RParen,
                    )
                } else {
                    failure(r)
                }
            }
        } else {
            Ok((Ast::Name(t[i].text), i + 1))
        },
        _ => Err(unexpected_error(t, i)),
    }
}

/// The rest of an array literal behind the finished `rows` and the unfinished `row`.
pub open spec fn p_array(t: Seq<TokenSpec>, i: int, rows: Seq<Seq<Ast>>, row: Seq<Ast>) -> Parsed
    decreases t.len() - i, 0nat,
{
    if kind(t, i) == TokenType::Comma || kind(t, i) == TokenType::Semicolon {
        let r = p_expr(t, i + 1, 0);
        if advanced(r, i + 1, t.len()) {
            if kind(t, i) == TokenType::Comma {
                p_array(t, r->Ok_0.1, rows, row.push(r->Ok_0.0))
            } else {
                p_array(t, r->Ok_0.1, rows.push(row), seq![r->Ok_0.0])
            }
        } else {
            failure(r)
        }
    } else {
        Ok((Ast::Array(rows.push(row)), i))
    }
}

/// The rest of a call's arguments behind `args`.
pub open spec fn p_args(t: Seq<TokenSpec>, i: int, name: Seq<char>, args: Seq<Ast>) -> Parsed
    decreases t.len() - i, 0nat,
{
    if kind(t, i) == TokenType::Comma {
        let r = p_expr(t, i + 1, 0);
        if advanced(r, i + 1, t.len()) {
            p_args(t, r->Ok_0.1, name, args.push(r->Ok_0.0))
        } else {
            failure(r)
        }
    } else {
        Ok((Ast::Call { name, args }, i))
    }
}

/// The range that the text of a whole-column or whole-row token stands for. The sheet prefix
/// goes to both ends.
pub open spec fn whole_range(text: Seq<char>) -> Ast {
    let cut = match find_char(text, '!', 0) {
        Some(b) => b + 1,
        None => 0,
    };
    match find_char(text, ':', cut) {
        Some(colon) => Ast::Range {
            start: text.take(colon),
            end: text.take(cut) + text.skip(colon + 1),
        },
        None => Ast::Range { start: text.take(cut), end: text },
    }
}

/// A whole formula: one expression and nothing behind it.
pub open spec fn p_formula(t: Seq<TokenSpec>) -> Result<Ast, (Seq<char>, int)> {
    if kind(t, 0) == TokenType::Eof {
        Err(("空公式"@, 0))
    } else {
        match p_expr(t, 0, 0) {
            Ok((a, j)) => if kind(t, j) == TokenType::Eof {
                Ok(a)
            } else {
                Err(("多余的记号 '"@ + spec_disp(t[j]) + "'"@, t[j].pos))
            },
            Err(e) => Err(e),
        }
    }
}

/// What parsing formula text gives.
pub open spec fn parse_text(s: Seq<char>) -> Result<Ast, (Seq<char>, int)> {
    match lex_formula(s) {
        Ok(t) => p_formula(t),
        Err(e) => Err(e),
    }
}

/// How tightly an infix operator binds.
pub fn bin_prec(op: &str) -> (r: Option<u8>)
    ensures
        r == spec_bin_prec(op@),
{
    if same_text(op, "=") || same_text(op, "<>") || same_text(op, "<") || same_text(op, ">") || same_text(op, "<=") || same_text(op, ">=") {
        Some(1)
    } else if same_text(op, "&") {
        Some(2)
    } else if same_text(op, "+") || same_text(op, "-") {
        Some(3)
    } else if same_text(op, "*") || same_text(op, "/") {
        Some(4)
    } else if same_text(op, "^") {
        Some(5)
    } else {
        None
    }
}

/// Whether an operator associates to the right.
pub fn is_right_assoc(op: &str) -> (r: bool)
    ensures
        r == (op@ == "^"@),
{
    same_text(op, "^")
}

fn kind_text(ty: TokenType) -> (r: String)
    ensures
        r@ == kind_name(ty),
{
    let name: &str = match ty {
        TokenType::Number => "Number",
        TokenType::Str => "Str",
        TokenType::Ref => "Ref",
        TokenType::Range => "Range",
        TokenType::Ident => "Ident",
        TokenType::Op => "Op",
        TokenType::LParen => "LParen",
        TokenType::RParen => "RParen",
        TokenType::LBrace => "LBrace",
        TokenType::RBrace => "RBrace",
        TokenType::Comma => "Comma",
        TokenType::Semicolon => "Semicolon",
        TokenType::Colon => "Colon",
        TokenType::Percent => "Percent",
        TokenType::Eof => "Eof",
    };
    name.to_string()
}

fn disp(t: &Token) -> (r: String)
    ensures
        r@ == spec_disp(t@),
{
    if t.text.as_str().is_empty() {
        kind_text(t.ty)
    } else {
        t.text.clone()
    }
}

/// A token list that the parser can walk: it ends in `Eof` and holds no other.
pub open spec fn closed_list(t: Seq<TokenSpec>) -> bool {
    &&& t.len() > 0
    &&& forall|i: int| #![auto] 0 <= i < t.len() ==> (t[i].ty == TokenType::Eof <==> i == t.len() - 1)
}

/// Whether an outcome is the one that the rule gives, and stays inside the list.
spec fn gives(r: Result<(AstNode, usize), FormulaParseError>, p: Parsed, i: int, n: nat) -> bool {
    match p {
        Ok((a, j)) => r matches Ok((node, k)) && node.view() == a && k == j && i < j < n,
        Err((m, pos)) => r matches Err(e) && e.message@ == m && e.pos == pos,
    }
}

fn expected(t: &Token, ty: TokenType) -> (r: FormulaParseError)
    ensures
        r.message@ == "期望 "@ + kind_name(ty) + "，遇到 '"@ + spec_disp(t@) + "'"@,
        r.pos == t.pos,
{
    let mut message: String = "期望 ".to_string();
    message.append(kind_text(ty).as_str());
    message.append("，遇到 '");
    message.append(disp(t).as_str());
    message.append("'");
    FormulaParseError { message, pos: t.pos }
}

fn unexpected(t: &Token) -> (r: FormulaParseError)
    ensures
        r.message@ == "意外的记号 '"@ + spec_disp(t@) + "'"@,
        r.pos == t.pos,
{
    let mut message: String = "意外的记号 '".to_string();
    message.append(disp(t).as_str());
    message.append("'");
    FormulaParseError { message, pos: t.pos }
}

fn parse_expr(t: &Vec<Token>, i: usize, min: u8) -> (r: Result<(AstNode, usize), FormulaParseError>)
    requires
        closed_list(token_seq(t@)),
        i < t.len(),
    ensures
        gives(r, p_expr(token_seq(t@), i as int, min), i as int, t@.len()),
    decreases t.len() - i, 2nat, 0nat,
{
    let ghost s = token_seq(t@);
    let (first, j) = match parse_unary(t, i) {
        Ok(ok) => ok,
        Err(e) => {
            return Err(e);
        },
    };
    let mut left: AstNode = first;
    let mut j: usize = j;
    loop
        invariant
            s == token_seq(t@),
            closed_list(s),
            i < j < t.len(),
            p_expr(s, i as int, min) == p_infix(s, j as int, left.view(), min),
        decreases t.len() - j,
    {
        let tok: &Token = &t[j];
        assert(s[j as int] == tok@);
        if tok.ty != TokenType::Op {
            return Ok((left, j));
        }
        let prec: u8 = match bin_prec(tok.text.as_str()) {
            Some(p) => p,
            None => {
                return Ok((left, j));
            },
        };
        if prec < min {
            return Ok((left, j));
        }
        let next_min: u8 = if is_right_assoc(tok.text.as_str()) {
            prec
        } else {
            prec + 1
        };
        let (right, k) = match parse_expr(t, j + 1, next_min) {
            Ok(ok) => ok,
            Err(e) => {
                return Err(e);
            },
        };
        left = AstNode::Binary {
            op: tok.text.clone(),
            left: Box::new(left),
            right: Box::new(right),
        };
        j = k;
    }
}

fn parse_postfix(t: &Vec<Token>, i: usize, node: AstNode) -> (r: (AstNode, usize))
    requires
        closed_list(token_seq(t@)),
        i < t.len(),
    ensures
        p_postfix(token_seq(t@), i as int, node.view()) == (r.0.view(), r.1 as int),
        i <= r.1 < t.len(),
{
    let ghost s = token_seq(t@);
    let mut cur: AstNode = node;
    let mut j: usize = i;
    while t[j].ty == TokenType::Percent
        invariant
            s == token_seq(t@),
            closed_list(s),
            i <= j < t.len(),
            p_postfix(s, i as int, node.view()) == p_postfix(s, j as int, cur.view()),
        decreases t.len() - j,
    {
        assert(s[j as int] == t@[j as int]@);
        cur = AstNode::Unary { op: "%".to_string(), operand: Box::new(cur) };
        j = j + 1;
    }
    assert(s[j as int] == t@[j as int]@);
    (cur, j)
}

fn parse_unary(t: &Vec<Token>, i: usize) -> (r: Result<(AstNode, usize), FormulaParseError>)
    requires
        closed_list(token_seq(t@)),
        i < t.len(),
    ensures
        gives(r, p_unary(token_seq(t@), i as int), i as int, t@.len()),
    decreases t.len() - i, 1nat, 0nat,
{
    let tok: &Token = &t[i];
    assert(token_seq(t@)[i as int] == tok@);
    if tok.ty == TokenType::Op && (same_text(tok.text.as_str(), "-") || same_text(tok.text.as_str(), "+")) {
        let (operand, j) = match parse_unary(t, i + 1) {
            Ok(ok) => ok,
            Err(e) => {
                return Err(e);
            },
        };
        let node: AstNode = if same_text(tok.text.as_str(), "-") {
            AstNode::Unary { op: "-".to_string(), operand: Box::new(operand) }
        } else {
            operand
        };
        Ok(parse_postfix(t, j, node))
    } else {
        let (primary, j) = match parse_primary(t, i) {
            Ok(ok) => ok,
            Err(e) => {
                return Err(e);
            },
        };
        Ok(parse_postfix(t, j, primary))
    }
}

fn parse_primary(t: &Vec<Token>, i: usize) -> (r: Result<(AstNode, usize), FormulaParseError>)
    requires
        closed_list(token_seq(t@)),
        i < t.len(),
    ensures
        gives(r, p_primary(token_seq(t@), i as int), i as int, t@.len()),
    decreases t.len() - i, 0nat, 1nat,
{
    let ghost s = token_seq(t@);
    let tok: &Token = &t[i];
    assert(s[i as int] == tok@);
    match tok.ty {
        TokenType::Number => Ok((AstNode::Number(tok.text.clone()), i + 1)),
        TokenType::Str => Ok((AstNode::Str(tok.text.clone()), i + 1)),
        TokenType::LParen => {
            let (inner, j) = match parse_expr(t, i + 1, 0) {
                Ok(ok) => ok,
                Err(e) => {
                    return Err(e);
                },
            };
            assert(s[j as int] == t@[j as int]@);
            if t[j].ty == TokenType::RParen {
                Ok((inner, j + 1))
            } else {
                Err(expected(&t[j], TokenType::RParen))
            }
        },
        TokenType::LBrace => parse_array(t, i),
        TokenType::Ref => parse_ref_or_range(t, i),
        TokenType::Range => Ok((parse_whole_range(tok), i + 1)),
        TokenType::Ident => parse_ident(t, i),
        _ => Err(unexpected(tok)),
    }
}

fn parse_ref_or_range(t: &Vec<Token>, i: usize) -> (r: Result<
    (AstNode, usize),
    FormulaParseError,
>)
    requires
        closed_list(token_seq(t@)),
        i < t.len(),
        t@[i as int].ty == TokenType::Ref,
    ensures
        gives(r, p_primary(token_seq(t@), i as int), i as int, t@.len()),
{
    let ghost s = token_seq(t@);
    assert(s[i as int] == t@[i as int]@);
    assert(s[i + 1] == t@[i + 1]@);
    if t[i + 1].ty == TokenType::Colon {
        assert(s[i + 2] == t@[i + 2]@);
        if t[i + 2].ty == TokenType::Ref {
            Ok((AstNode::Range { start: t[i].text.clone(), end: t[i + 2].text.clone() }, i + 3))
        } else {
            Err(expected(&t[i + 2], TokenType::Ref))
        }
    } else {
        Ok((AstNode::Ref(t[i].text.clone()), i + 1))
    }
}

fn parse_whole_range(t: &Token) -> (r: AstNode)
    ensures
        r.view() == whole_range(t.text@),
{
    let text: Vec<char> = chars_of(t.text.as_str());
    let cut: usize = match position_of(&text, '!', 0) {
        Some(b) => b + 1,
        None => 0,
    };
    match position_of(&text, ':', cut) {
        Some(colon) => {
            let mut end: String = slice_string(&text, 0, cut);
            end.append(slice_string(&text, colon + 1, text.len()).as_str());
            AstNode::Range { start: slice_string(&text, 0, colon), end }
        },
        None => AstNode::Range { start: slice_string(&text, 0, cut), end: t.text.clone() },
    }
}

fn parse_array(t: &Vec<Token>, i: usize) -> (r: Result<(AstNode, usize), FormulaParseError>)
    requires
        closed_list(token_seq(t@)),
        i < t.len(),
        t@[i as int].ty == TokenType::LBrace,
    ensures
        gives(r, p_primary(token_seq(t@), i as int), i as int, t@.len()),
    decreases t.len() - i, 0nat, 0nat,
{
    let ghost s = token_seq(t@);
    assert(s[i as int] == t@[i as int]@);
    let (first, j) = match parse_expr(t, i + 1, 0) {
        Ok(ok) => ok,
        Err(e) => {
            return Err(e);
        },
    };
    let ghost first_view = first.view();
    let mut rows: Vec<Vec<AstNode>> = Vec::new();
    let mut row: Vec<AstNode> = Vec::new();
    row.push(first);
    let mut j: usize = j;
    assert(ast_rows(rows@) == Seq::<Seq<Ast>>::empty());
    assert(ast_seq(row@) == seq![first_view]);
    let ghost whole = p_array(s, j as int, Seq::empty(), seq![first_view]);
    loop
        invariant
            s == token_seq(t@),
            closed_list(s),
            i < j < t.len(),
            s[i as int].ty == TokenType::LBrace,
            p_primary(s, i as int) == p_close(s, whole, TokenType::RBrace),
            whole == p_array(s, j as int, ast_rows(rows@), ast_seq(row@)),
        ensures
            s[j as int] == t@[j as int]@,
            s[j as int].ty != TokenType::Comma && s[j as int].ty != TokenType::Semicolon,
        decreases t.len() - j,
    {
        assert(s[j as int] == t@[j as int]@);
        let comma = t[j].ty == TokenType::Comma;
        if !comma && t[j].ty != TokenType::Semicolon {
            break;
        }
        let (item, k) = match parse_expr(t, j + 1, 0) {
            Ok(ok) => ok,
            Err(e) => {
                return Err(e);
            },
        };
        let ghost item_view = item.view();
        if comma {
            let ghost before = row@;
            row.push(item);
            assert(ast_seq(row@) == ast_seq(before).push(item_view));
        } else {
            let ghost before = rows@;
            let ghost full = row@;
            let mut next: Vec<AstNode> = Vec::new();
            next.push(item);
            std::mem::swap(&mut row, &mut next);
            rows.push(next);
            assert(ast_rows(rows@) == ast_rows(before).push(ast_seq(full)));
            assert(ast_seq(row@) == seq![item_view]);
        }
        j = k;
    }
    let ghost before = rows@;
    let ghost full = row@;
    rows.push(row);
    assert(ast_rows(rows@) == ast_rows(before).push(ast_seq(full)));
    let node: AstNode = AstNode::Array(rows);
    assert(node.view() == Ast::Array(ast_rows(rows@))) by {
        assert(node.view()->Array_0 =~~= ast_rows(rows@));
    }
    if t[j].ty == TokenType::RBrace {
        Ok((node, j + 1))
    } else {
        Err(expected(&t[j], TokenType::RBrace))
    }
}

fn parse_ident(t: &Vec<Token>, i: usize) -> (r: Result<(AstNode, usize), FormulaParseError>)
    requires
        closed_list(token_seq(t@)),
        i < t.len(),
        t@[i as int].ty == TokenType::Ident,
    ensures
        gives(r, p_primary(token_seq(t@), i as int), i as int, t@.len()),
    decreases t.len() - i, 0nat, 0nat,
{
    let ghost s = token_seq(t@);
    assert(s[i as int] == t@[i as int]@);
    assert(s[i + 1] == t@[i + 1]@);
    if t[i + 1].ty != TokenType::LParen {
        return Ok((AstNode::Name(t[i].text.clone()), i + 1));
    }
    let name: String = t[i].text.to_uppercase();
    let mut args: Vec<AstNode> = Vec::new();
    assert(s[i + 2] == t@[i + 2]@);
    if t[i + 2].ty == TokenType::RParen {
        let node: AstNode = AstNode::Call { name, args };
        assert(node.view()->args =~= Seq::<Ast>::empty());
        return Ok((node, i + 3));
    }
    let (first, j) = match parse_expr(t, i + 2, 0) {
        Ok(ok) => ok,
        Err(e) => {
            return Err(e);
        },
    };
    let ghost first_view = first.view();
    args.push(first);
    assert(ast_seq(args@) == seq![first_view]);
    let mut j: usize = j;
    let ghost whole = p_args(s, j as int, name@, seq![first_view]);
    while t[j].ty == TokenType::Comma
        invariant
            s == token_seq(t@),
            closed_list(s),
            i < j < t.len(),
            p_primary(s, i as int) == p_close(s, whole, TokenType::RParen),
            whole == p_args(s, j as int, name@, ast_seq(args@)),
        decreases t.len() - j,
    {
        assert(s[j as int] == t@[j as int]@);
        let (item, k) = match parse_expr(t, j + 1, 0) {
            Ok(ok) => ok,
            Err(e) => {
                return Err(e);
            },
        };
        let ghost item_view = item.view();
        let ghost before = args@;
        args.push(item);
        assert(ast_seq(args@) == ast_seq(before).push(item_view));
        j = k;
    }
    assert(s[j as int] == t@[j as int]@);
    let node: AstNode = AstNode::Call { name, args };
    assert(node.view()->args =~= ast_seq(args@));
    if t[j].ty == TokenType::RParen {
        Ok((node, j + 1))
    } else {
        Err(expected(&t[j], TokenType::RParen))
    }
}

fn parse_tokens(t: &Vec<Token>) -> (r: Result<AstNode, FormulaParseError>)
    requires
        closed_list(token_seq(t@)),
    ensures
        match p_formula(token_seq(t@)) {
            Ok(a) => r matches Ok(node) && node.view() == a,
            Err((m, pos)) => r matches Err(e) && e.message@ == m && e.pos == pos,
        },
{
    let ghost s = token_seq(t@);
    assert(s[0] == t@[0]@);
    if t[0].ty == TokenType::Eof {
        return Err(FormulaParseError { message: "空公式".to_string(), pos: 0 });
    }
    let (node, j) = match parse_expr(t, 0, 0) {
        Ok(ok) => ok,
        Err(e) => {
            return Err(e);
        },
    };
    assert(s[j as int] == t@[j as int]@);
    if t[j].ty != TokenType::Eof {
        let mut message: String = "多余的记号 '".to_string();
        message.append(disp(&t[j]).as_str());
        message.append("'");
        return Err(FormulaParseError { message, pos: t[j].pos });
    }
    Ok(node)
}

/// Parses formula text, with or without its leading `=`.
pub fn parse_formula(input: &str) -> (r: Result<AstNode, FormulaParseError>)
    ensures
        match parse_text(input@) {
            Ok(a) => r matches Ok(node) && node.view() == a,
            Err((m, pos)) => r matches Err(e) && e.message@ == m && e.pos == pos,
        },
{
    match tokenize(input) {
        Ok(tokens) => {
            proof {
                crate::token::lex_ends_in_eof(crate::token::strip_equals(input@), 0, Seq::empty());
            }
            parse_tokens(&tokens)
        },
        Err(e) => Err(FormulaParseError { message: e.message, pos: e.pos }),
    }
}

} // verus!
