//! The lexer: formula text, with or without its leading `=`, to a list of tokens.
//!
//! Token positions count characters from the first character after the `=`.
use crate::text::{chars_of, opt_pos, slice_string};
use vstd::prelude::*;

verus! {

/// What kind of token a token is.
#[derive(Debug, Clone, Copy, PartialEq, Eq, Structural)]
pub enum TokenType {
    Number,
    Str,
    /// A cell reference: `A1`, `$A$1`, `Sheet1!A1`.
    Ref,
    /// A range of whole columns or rows: `A:A`, `1:1`.
    Range,
    /// A function name or another name.
    Ident,
    /// One of `+ - * / ^ & = <> < > <= >=`.
    Op,
    LParen,
    RParen,
    LBrace,
    RBrace,
    Comma,
    Semicolon,
    Colon,
    Percent,
    Eof,
}

/// A token. `text` is the source text, but for a string literal, where it is the content
/// with its quotes removed and its doubled quotes undone.
#[derive(Debug, Clone, PartialEq)]
pub struct Token {
    pub ty: TokenType,
    pub text: String,
    pub pos: usize,
}

/// A token as a mathematical value.
pub struct TokenSpec {
    pub ty: TokenType,
    pub text: Seq<char>,
    pub pos: int,
}

impl View for Token {
    type V = TokenSpec;

    open spec fn view(&self) -> TokenSpec {
        TokenSpec { ty: self.ty, text: self.text@, pos: self.pos as int }
    }
}

/// The tokens of a list as mathematical values.
pub open spec fn token_seq(v: Seq<Token>) -> Seq<TokenSpec> {
    Seq::new(v.len(), |i: int| v[i]@)
}

/// A lexical error and the position of the character that caused it.
#[derive(Debug, Clone, PartialEq, Eq)]
pub struct FormulaLexError {
    pub message: String,
    pub pos: usize,
}

/// A class of characters that a run in the source may be made of.
#[derive(Clone, Copy)]
pub enum CharClass {
    Digit,
    Letter,
    /// What may follow the first character of an unquoted sheet name.
    SheetPart,
    /// What may follow the first character of a name.
    IdentPart,
    /// Anything but a single quote.
    Unquoted,
}

pub open spec fn spec_is_digit(c: char) -> bool {
    '0' <= c <= '9'
}

pub open spec fn spec_is_letter(c: char) -> bool {
    'a' <= c <= 'z' || 'A' <= c <= 'Z'
}

pub open spec fn spec_is_ident_start(c: char) -> bool {
    spec_is_letter(c) || c == '_' || c >= '\u{4e00}'
}

pub open spec fn spec_is_ident_part(c: char) -> bool {
    spec_is_ident_start(c) || spec_is_digit(c) || c == '.'
}

pub open spec fn spec_is_sheet_start(c: char) -> bool {
    spec_is_letter(c) || c == '_' || '\u{4e00}' <= c <= '\u{9fa5}'
}

pub open spec fn spec_in_class(k: CharClass, c: char) -> bool {
    match k {
        CharClass::Digit => spec_is_digit(c),
        CharClass::Letter => spec_is_letter(c),
        CharClass::SheetPart => spec_is_sheet_start(c) || spec_is_digit(c),
        CharClass::IdentPart => spec_is_ident_part(c),
        CharClass::Unquoted => c != '\'',
    }
}

/// Where the run of characters of class `k` that starts at `i` ends.
pub open spec fn spec_run_end(s: Seq<char>, i: int, k: CharClass) -> int
    decreases s.len() - i,
{
    if 0 <= i < s.len() && spec_in_class(k, s[i]) {
        spec_run_end(s, i + 1, k)
    } else {
        i
    }
}

/// Whether `c` stands at position `i`.
pub open spec fn spec_char_at(s: Seq<char>, i: int, c: char) -> bool {
    0 <= i < s.len() && s[i] == c
}

/// Behind an optional `$` at `i`.
pub open spec fn spec_skip_dollar(s: Seq<char>, i: int) -> int {
    if spec_char_at(s, i, '$') {
        i + 1
    } else {
        i
    }
}

/// The end of a sheet prefix `Name!` or `'any name'!` that starts at `i`.
pub open spec fn spec_prefix_end(s: Seq<char>, i: int) -> Option<int> {
    if spec_char_at(s, i, '\'') {
        let q = spec_run_end(s, i + 1, CharClass::Unquoted);
        if q > i + 1 && spec_char_at(s, q, '\'') && spec_char_at(s, q + 1, '!') {
            Some(q + 2)
        } else {
            None
        }
    } else if 0 <= i < s.len() && spec_is_sheet_start(s[i]) {
        let e = spec_run_end(s, i + 1, CharClass::SheetPart);
        if spec_char_at(s, e, '!') {
            Some(e + 1)
        } else {
            None
        }
    } else {
        None
    }
}

/// The end of a column: an optional `$` and one to three letters, no letter behind them.
pub open spec fn spec_column_end(s: Seq<char>, i: int) -> Option<int> {
    let a = spec_skip_dollar(s, i);
    let e = spec_run_end(s, a, CharClass::Letter);
    if 1 <= e - a <= 3 {
        Some(e)
    } else {
        None
    }
}

/// The end of a row: an optional `$` and at least one digit, no digit behind them.
pub open spec fn spec_row_end(s: Seq<char>, i: int) -> Option<int> {
    let a = spec_skip_dollar(s, i);
    let e = spec_run_end(s, a, CharClass::Digit);
    if e > a {
        Some(e)
    } else {
        None
    }
}

/// The three shapes of reference, each without its sheet prefix.
#[derive(Clone, Copy)]
pub enum RefShape {
    /// `A1`
    Cell,
    /// `A:C`, neither a letter nor a digit behind it.
    Columns,
    /// `2:5`
    Rows,
}

/// The end of a reference of shape `k` that starts at `i` and has no sheet prefix.
pub open spec fn spec_local_end(s: Seq<char>, i: int, k: RefShape) -> Option<int> {
    match k {
        RefShape::Cell => match spec_column_end(s, i) {
            Some(e) => spec_row_end(s, e),
            None => None,
        },
        RefShape::Columns => match spec_column_end(s, i) {
            Some(e) => if spec_char_at(s, e, ':') {
                match spec_column_end(s, e + 1) {
                    Some(f) => if f < s.len() && spec_is_digit(s[f]) {
                        None
                    } else {
                        Some(f)
                    },
                    None => None,
                }
            } else {
                None
            },
            None => None,
        },
        RefShape::Rows => match spec_row_end(s, i) {
            Some(e) => if spec_char_at(s, e, ':') {
                spec_row_end(s, e + 1)
            } else {
                None
            },
            None => None,
        },
    }
}

/// The end of a reference of shape `k` that starts at `i`. A sheet prefix is taken where the
/// reference goes on behind it, and otherwise left alone.
pub open spec fn spec_ref_end(s: Seq<char>, i: int, k: RefShape) -> Option<int> {
    let prefixed = match spec_prefix_end(s, i) {
        Some(p) => spec_local_end(s, p, k),
        None => None,
    };
    if prefixed is Some {
        prefixed
    } else {
        spec_local_end(s, i, k)
    }
}

/// The end of a number that starts at `i`: digits, a fraction, an exponent where digits follow it.
pub open spec fn spec_number_end(s: Seq<char>, i: int) -> int {
    let a = spec_run_end(s, i, CharClass::Digit);
    let b = if spec_char_at(s, a, '.') {
        spec_run_end(s, a + 1, CharClass::Digit)
    } else {
        a
    };
    if spec_char_at(s, b, 'e') || spec_char_at(s, b, 'E') {
        let k = if spec_char_at(s, b + 1, '+') || spec_char_at(s, b + 1, '-') {
            b + 2
        } else {
            b + 1
        };
        if k < s.len() && spec_is_digit(s[k]) {
            spec_run_end(s, k, CharClass::Digit)
        } else {
            b
        }
    } else {
        b
    }
}

/// The content of a string literal from `j`, behind its opening quote, with what was read so
/// far in `acc`, and the position behind the closing quote.
pub open spec fn spec_string_body(s: Seq<char>, j: int, acc: Seq<char>) -> Option<(Seq<char>, int)>
    decreases s.len() - j,
{
    if 0 <= j < s.len() {
        if s[j] == '"' {
            if spec_char_at(s, j + 1, '"') {
                spec_string_body(s, j + 2, acc.push('"'))
            } else {
                Some((acc, j + 1))
            }
        } else {
            spec_string_body(s, j + 1, acc.push(s[j]))
        }
    } else {
        None
    }
}

pub open spec fn spec_punct(c: char) -> Option<TokenType> {
    if c == '(' {
        Some(TokenType::LParen)
    } else if c == ')' {
        Some(TokenType::RParen)
    } else if c == '{' {
        Some(TokenType::LBrace)
    } else if c == '}' {
        Some(TokenType::RBrace)
    } else if c == ',' {
        Some(TokenType::Comma)
    } else if c == ';' {
        Some(TokenType::Semicolon)
    } else if c == ':' {
        Some(TokenType::Colon)
    } else if c == '%' {
        Some(TokenType::Percent)
    } else {
        None
    }
}

pub open spec fn spec_is_op(c: char) -> bool {
    c == '+' || c == '-' || c == '*' || c == '/' || c == '^' || c == '&' || c == '=' || c == '<'
        || c == '>'
}

/// The end of an operator at `i`, two characters for `<>`, `<=` and `>=`.
pub open spec fn spec_op_end(s: Seq<char>, i: int) -> int {
    if (s[i] == '<' && (spec_char_at(s, i + 1, '>') || spec_char_at(s, i + 1, '='))) || (s[i] == '>'
        && spec_char_at(s, i + 1, '=')) {
        i + 2
    } else {
        i + 1
    }
}

pub open spec fn spec_is_blank(c: char) -> bool {
    c == ' ' || c == '\t' || c == '\n' || c == '\r'
}

/// What stands at one position of the source.
pub enum LexStep {
    Blank,
    Take { ty: TokenType, text: Seq<char>, end: int },
    Fail { message: Seq<char> },
}

/// A token whose text is the source between `i` and `end`.
pub open spec fn take_source(s: Seq<char>, i: int, end: int, ty: TokenType) -> LexStep {
    LexStep::Take { ty, text: s.subrange(i, end), end }
}

/// Whether what stands at `e` shows that the reference that ends there is the start of a name:
/// an opening bracket (`LOG10(`), a letter or an underscore (`DEC2BIN`).
pub open spec fn spec_continues_name(s: Seq<char>, e: int) -> bool {
    e < s.len() && (s[e] == '(' || spec_is_letter(s[e]) || s[e] == '_')
}

/// What the lexer takes at position `i`.
pub open spec fn lex_step(s: Seq<char>, i: int) -> LexStep {
    let c = s[i];
    if spec_is_blank(c) {
        LexStep::Blank
    } else if c == '"' {
        match spec_string_body(s, i + 1, Seq::empty()) {
            Some((text, end)) => LexStep::Take { ty: TokenType::Str, text, end },
            None => LexStep::Fail { message: "未闭合的字符串"@ },
        }
    } else if let Some(e) = spec_ref_end(s, i, RefShape::Rows) {
        take_source(s, i, e, TokenType::Range)
    } else if spec_is_digit(c) || (c == '.' && i + 1 < s.len() && spec_is_digit(s[i + 1])) {
        take_source(s, i, spec_number_end(s, i), TokenType::Number)
    } else if let Some(e) = spec_ref_end(s, i, RefShape::Columns) {
        take_source(s, i, e, TokenType::Range)
    } else if spec_ref_end(s, i, RefShape::Cell) is Some && !spec_continues_name(
        s,
        spec_ref_end(s, i, RefShape::Cell)->0,
    ) {
        take_source(s, i, spec_ref_end(s, i, RefShape::Cell)->0, TokenType::Ref)
    } else if spec_is_ident_start(c) {
        take_source(s, i, spec_run_end(s, i + 1, CharClass::IdentPart), TokenType::Ident)
    } else if let Some(ty) = spec_punct(c) {
        take_source(s, i, i + 1, ty)
    } else if spec_is_op(c) {
        take_source(s, i, spec_op_end(s, i), TokenType::Op)
    } else {
        LexStep::Fail { message: "无法识别的字符 '"@ + seq![c] + "'"@ }
    }
}

/// The tokens from position `i` on, behind those in `acc`, or the first error's message and
/// position. The list ends in an `Eof` token.
pub open spec fn lex(s: Seq<char>, i: int, acc: Seq<TokenSpec>) -> Result<
    Seq<TokenSpec>,
    (Seq<char>, int),
>
    decreases s.len() - i,
{
    if 0 <= i < s.len() {
        match lex_step(s, i) {
            LexStep::Blank => lex(s, i + 1, acc),
            LexStep::Take { ty, text, end } => if i < end <= s.len() {
                lex(s, end, acc.push(TokenSpec { ty, text, pos: i }))
            } else {
                Err((text, i))
            },
            LexStep::Fail { message } => Err((message, i)),
        }
    } else {
        Ok(acc.push(TokenSpec { ty: TokenType::Eof, text: Seq::empty(), pos: s.len() as int }))
    }
}

/// Formula text without its leading `=`.
pub open spec fn strip_equals(s: Seq<char>) -> Seq<char> {
    if s.len() > 0 && s[0] == '=' {
        s.skip(1)
    } else {
        s
    }
}

/// What lexing formula text gives.
pub open spec fn lex_formula(s: Seq<char>) -> Result<Seq<TokenSpec>, (Seq<char>, int)> {
    lex(strip_equals(s), 0, Seq::empty())
}

pub fn is_digit(c: char) -> (r: bool)
    ensures
        r == spec_is_digit(c),
{
    '0' <= c && c <= '9'
}

fn is_letter(c: char) -> (r: bool)
    ensures
        r == spec_is_letter(c),
{
    ('a' <= c && c <= 'z') || ('A' <= c && c <= 'Z')
}

pub fn is_ident_start(c: char) -> (r: bool)
    ensures
        r == spec_is_ident_start(c),
{
    is_letter(c) || c == '_' || c >= '\u{4e00}'
}

pub fn is_ident_part(c: char) -> (r: bool)
    ensures
        r == spec_is_ident_part(c),
{
    is_ident_start(c) || is_digit(c) || c == '.'
}

fn is_sheet_start(c: char) -> (r: bool)
    ensures
        r == spec_is_sheet_start(c),
{
    is_letter(c) || c == '_' || ('\u{4e00}' <= c && c <= '\u{9fa5}')
}

fn in_class(k: CharClass, c: char) -> (r: bool)
    ensures
        r == spec_in_class(k, c),
{
    match k {
        CharClass::Digit => is_digit(c),
        CharClass::Letter => is_letter(c),
        CharClass::SheetPart => is_sheet_start(c) || is_digit(c),
        CharClass::IdentPart => is_ident_part(c),
        CharClass::Unquoted => c != '\'',
    }
}

fn run_end(s: &Vec<char>, i: usize, k: CharClass) -> (r: usize)
    requires
        i <= s.len(),
    ensures
        i <= r <= s.len(),
        r == spec_run_end(s@, i as int, k),
        i < s.len() && spec_in_class(k, s@[i as int]) ==> i < r,
{
    let mut j: usize = i;
    while j < s.len() && in_class(k, s[j])
        invariant
            i <= j <= s.len(),
            spec_run_end(s@, i as int, k) == spec_run_end(s@, j as int, k),
        decreases s.len() - j,
    {
        j = j + 1;
    }
    j
}

fn char_at(s: &Vec<char>, i: usize, c: char) -> (r: bool)
    ensures
        r == spec_char_at(s@, i as int, c),
{
    i < s.len() && s[i] == c
}

fn skip_dollar(s: &Vec<char>, i: usize) -> (r: usize)
    requires
        i <= s.len(),
    ensures
        i <= r <= s.len(),
        r == spec_skip_dollar(s@, i as int),
{
    if char_at(s, i, '$') {
        i + 1
    } else {
        i
    }
}

fn prefix_end(s: &Vec<char>, i: usize) -> (r: Option<usize>)
    requires
        i <= s.len(),
    ensures
        opt_pos(r) == spec_prefix_end(s@, i as int),
        r is Some ==> i < r->0 <= s.len(),
{
    if char_at(s, i, '\'') {
        let q: usize = run_end(s, i + 1, CharClass::Unquoted);
        if q > i + 1 && char_at(s, q, '\'') && char_at(s, q + 1, '!') {
            Some(q + 2)
        } else {
            None
        }
    } else if i < s.len() && is_sheet_start(s[i]) {
        let e: usize = run_end(s, i + 1, CharClass::SheetPart);
        if char_at(s, e, '!') {
            Some(e + 1)
        } else {
            None
        }
    } else {
        None
    }
}

fn column_end(s: &Vec<char>, i: usize) -> (r: Option<usize>)
    requires
        i <= s.len(),
    ensures
        opt_pos(r) == spec_column_end(s@, i as int),
        r is Some ==> i < r->0 <= s.len(),
{
    let a: usize = skip_dollar(s, i);
    let e: usize = run_end(s, a, CharClass::Letter);
    if 1 <= e - a && e - a <= 3 {
        Some(e)
    } else {
        None
    }
}

fn row_end(s: &Vec<char>, i: usize) -> (r: Option<usize>)
    requires
        i <= s.len(),
    ensures
        opt_pos(r) == spec_row_end(s@, i as int),
        r is Some ==> i < r->0 <= s.len(),
{
    let a: usize = skip_dollar(s, i);
    let e: usize = run_end(s, a, CharClass::Digit);
    if e > a {
        Some(e)
    } else {
        None
    }
}

fn local_end(s: &Vec<char>, i: usize, k: RefShape) -> (r: Option<usize>)
    requires
        i <= s.len(),
    ensures
        opt_pos(r) == spec_local_end(s@, i as int, k),
        r is Some ==> i < r->0 <= s.len(),
{
    match k {
        RefShape::Cell => match column_end(s, i) {
            Some(e) => row_end(s, e),
            None => None,
        },
        RefShape::Columns => match column_end(s, i) {
            Some(e) => if char_at(s, e, ':') {
                match column_end(s, e + 1) {
                    Some(f) => if f < s.len() && is_digit(s[f]) {
                        None
                    } else {
                        Some(f)
                    },
                    None => None,
                }
            } else {
                None
            },
            None => None,
        },
        RefShape::Rows => match row_end(s, i) {
            Some(e) => if char_at(s, e, ':') {
                row_end(s, e + 1)
            } else {
                None
            },
            None => None,
        },
    }
}

fn ref_end(s: &Vec<char>, i: usize, k: RefShape) -> (r: Option<usize>)
    requires
        i <= s.len(),
    ensures
        opt_pos(r) == spec_ref_end(s@, i as int, k),
        r is Some ==> i < r->0 <= s.len(),
{
    let prefixed = match prefix_end(s, i) {
        Some(p) => local_end(s, p, k),
        None => None,
    };
    if prefixed.is_some() {
        prefixed
    } else {
        local_end(s, i, k)
    }
}

fn number_end(s: &Vec<char>, i: usize) -> (r: usize)
    requires
        i < s.len(),
        spec_is_digit(s@[i as int]) || s@[i as int] == '.',
    ensures
        r == spec_number_end(s@, i as int),
        i < r <= s.len(),
{
    let a: usize = run_end(s, i, CharClass::Digit);
    let b: usize = if char_at(s, a, '.') {
        run_end(s, a + 1, CharClass::Digit)
    } else {
        a
    };
    if char_at(s, b, 'e') || char_at(s, b, 'E') {
        let k: usize = if char_at(s, b + 1, '+') || char_at(s, b + 1, '-') {
            b + 2
        } else {
            b + 1
        };
        if k < s.len() && is_digit(s[k]) {
            run_end(s, k, CharClass::Digit)
        } else {
            b
        }
    } else {
        b
    }
}

fn string_body(s: &Vec<char>, i: usize) -> (r: Option<(String, usize)>)
    requires
        i <= s.len(),
    ensures
        r is Some <==> spec_string_body(s@, i as int, Seq::empty()) is Some,
        r matches Some((t, e)) ==> spec_string_body(s@, i as int, Seq::empty()) == Some((t@, e as int)) && i < e
            <= s.len(),
{
    let mut j: usize = i;
    let mut text: String = String::new();
    while j < s.len()
        invariant
            i <= j <= s.len(),
            spec_string_body(s@, i as int, Seq::empty()) == spec_string_body(s@, j as int, text@),
        decreases s.len() - j,
    {
        let c = s[j];
        if c == '"' {
            if char_at(s, j + 1, '"') {
                text.push('"');
                j = j + 2;
            } else {
                return Some((text, j + 1));
            }
        } else {
            text.push(c);
            j = j + 1;
        }
    }
    None
}

fn punct(c: char) -> (r: Option<TokenType>)
    ensures
        r == spec_punct(c),
{
    match c {
        '(' => Some(TokenType::LParen),
        ')' => Some(TokenType::RParen),
        '{' => Some(TokenType::LBrace),
        '}' => Some(TokenType::RBrace),
        ',' => Some(TokenType::Comma),
        ';' => Some(TokenType::Semicolon),
        ':' => Some(TokenType::Colon),
        '%' => Some(TokenType::Percent),
        _ => None,
    }
}

fn is_op(c: char) -> (r: bool)
    ensures
        r == spec_is_op(c),
{
    c == '+' || c == '-' || c == '*' || c == '/' || c == '^' || c == '&' || c == '=' || c == '<'
        || c == '>'
}

fn op_end(s: &Vec<char>, i: usize) -> (r: usize)
    requires
        i < s.len(),
    ensures
        r == spec_op_end(s@, i as int),
        i < r <= s.len(),
{
    let c = s[i];
    if (c == '<' && (char_at(s, i + 1, '>') || char_at(s, i + 1, '='))) || (c == '>' && char_at(
        s,
        i + 1,
        '=',
    )) {
        i + 2
    } else {
        i + 1
    }
}

fn is_blank(c: char) -> (r: bool)
    ensures
        r == spec_is_blank(c),
{
    c == ' ' || c == '\t' || c == '\n' || c == '\r'
}

fn continues_name(s: &Vec<char>, e: usize) -> (r: bool)
    ensures
        r == spec_continues_name(s@, e as int),
{
    e < s.len() && (s[e] == '(' || is_letter(s[e]) || s[e] == '_')
}

/// What one step of the lexer found: nothing, or a token and the position behind it.
enum Found {
    Blank,
    Take(Token, usize),
    Fail(String),
}

spec fn found_is(f: Found, s: Seq<char>, i: int) -> bool {
    match f {
        Found::Blank => lex_step(s, i) == LexStep::Blank,
        Found::Take(t, e) => {
            &&& lex_step(s, i) == (LexStep::Take { ty: t.ty, text: t.text@, end: e as int })
            &&& t.pos == i
            &&& i < e <= s.len()
        },
        Found::Fail(m) => lex_step(s, i) == (LexStep::Fail { message: m@ }),
    }
}

fn take(s: &Vec<char>, i: usize, e: usize, ty: TokenType) -> (r: Found)
    requires
        i < e <= s.len(),
    ensures
        r matches Found::Take(t, f) && take_source(s@, i as int, e as int, ty) == (LexStep::Take {
            ty: t.ty,
            text: t.text@,
            end: f as int,
        }) && t.pos == i && f == e,
{
    Found::Take(Token { ty, text: slice_string(s, i, e), pos: i }, e)
}

fn step(s: &Vec<char>, i: usize) -> (r: Found)
    requires
        i < s.len(),
    ensures
        found_is(r, s@, i as int),
{
    let c = s[i];
    if is_blank(c) {
        return Found::Blank;
    }
    if c == '"' {
        return match string_body(s, i + 1) {
            Some((text, end)) => Found::Take(Token { ty: TokenType::Str, text, pos: i }, end),
            None => Found::Fail("未闭合的字符串".to_string()),
        };
    }
    if let Some(e) = ref_end(s, i, RefShape::Rows) {
        return take(s, i, e, TokenType::Range);
    }
    if is_digit(c) || (c == '.' && i + 1 < s.len() && is_digit(s[i + 1])) {
        return take(s, i, number_end(s, i), TokenType::Number);
    }
    if let Some(e) = ref_end(s, i, RefShape::Columns) {
        return take(s, i, e, TokenType::Range);
    }
    if let Some(e) = ref_end(s, i, RefShape::Cell) {
        if !continues_name(s, e) {
            return take(s, i, e, TokenType::Ref);
        }
    }
    if is_ident_start(c) {
        return take(s, i, run_end(s, i + 1, CharClass::IdentPart), TokenType::Ident);
    }
    if let Some(ty) = punct(c) {
        return take(s, i, i + 1, ty);
    }
    if is_op(c) {
        return take(s, i, op_end(s, i), TokenType::Op);
    }
    let mut message: String = "无法识别的字符 '".to_string();
    message.push(c);
    message.append("'");
    proof {
        assert("无法识别的字符 '"@.push(c) == "无法识别的字符 '"@ + seq![c]);
    }
    Found::Fail(message)
}

/// Lexes formula text. A leading `=` is dropped; the tokens end in `Eof`.
pub fn tokenize(input: &str) -> (r: Result<Vec<Token>, FormulaLexError>)
    ensures
        match lex_formula(input@) {
            Ok(tokens) => r matches Ok(v) && token_seq(v@) == tokens,
            Err((message, pos)) => r matches Err(e) && e.message@ == message && e.pos == pos,
        },
{
    let all: Vec<char> = chars_of(input);
    let s: Vec<char> = if char_at(&all, 0, '=') {
        chars_of(slice_string(&all, 1, all.len()).as_str())
    } else {
        all
    };
    let mut tokens: Vec<Token> = Vec::new();
    proof {
        assert(s@ == strip_equals(input@));
        assert(token_seq(tokens@) == Seq::<TokenSpec>::empty());
    }
    let mut i: usize = 0;
    while i < s.len()
        invariant
            i <= s.len(),
            s@ == strip_equals(input@),
            lex(s@, 0, Seq::empty()) == lex(s@, i as int, token_seq(tokens@)),
        decreases s.len() - i,
    {
        match step(&s, i) {
            Found::Blank => {
                i = i + 1;
            },
            Found::Take(t, e) => {
                let ghost before = tokens@;
                tokens.push(t);
                proof {
                    assert(token_seq(tokens@) == token_seq(before).push(t@));
                }
                i = e;
            },
            Found::Fail(message) => {
                return Err(FormulaLexError { message, pos: i });
            },
        }
    }
    let ghost before = tokens@;
    let eof: Token = Token { ty: TokenType::Eof, text: String::new(), pos: s.len() };
    tokens.push(eof);
    proof {
        assert(token_seq(tokens@) == token_seq(before).push(eof@));
    }
    Ok(tokens)
}

/// Lexing never gives an `Eof` token but the last one.
pub proof fn lex_ends_in_eof(s: Seq<char>, i: int, acc: Seq<TokenSpec>)
    requires
        forall|k: int| #![auto] 0 <= k < acc.len() ==> acc[k].ty != TokenType::Eof,
    ensures
        lex(s, i, acc) matches Ok(t) ==> t.len() > 0 && forall|k: int|
            #![auto]
            0 <= k < t.len() ==> (t[k].ty == TokenType::Eof <==> k == t.len() - 1),
    decreases s.len() - i,
{
    if 0 <= i < s.len() {
        match lex_step(s, i) {
            LexStep::Blank => lex_ends_in_eof(s, i + 1, acc),
            LexStep::Take { ty, text, end } => if i < end <= s.len() {
                lex_ends_in_eof(s, end, acc.push(TokenSpec { ty, text, pos: i }));
            },
            LexStep::Fail { message } => {},
        }
    }
}

} // verus!
