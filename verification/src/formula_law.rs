//! What holds of the text of formulas.
use crate::parse::{
    kind, p_args, p_array, p_expr, p_infix, p_postfix, p_primary, p_unary, parse_text, right_min,
    spec_bin_prec, Ast,
};
use crate::text::upper;
use crate::token::{
    lex, lex_formula, lex_step, spec_char_at, spec_column_end, spec_local_end, spec_number_end,
    spec_prefix_end, spec_ref_end, spec_row_end, spec_run_end, spec_skip_dollar, spec_string_body,
    strip_equals, CharClass, LexStep, RefShape, TokenSpec, TokenType,
};
use vstd::prelude::*;

verus! {

/// A leading `=` changes nothing.
pub proof fn equals_changes_nothing(s: Seq<char>)
    requires
        s.len() == 0 || s[0] != '=',
    ensures
        lex_formula(seq!['='] + s) == lex_formula(s),
        parse_text(seq!['='] + s) == parse_text(s),
{
    assert((seq!['='] + s).skip(1) == s);
}

/// Whether tokens stand one behind the other, in front of a place.
spec fn in_order(t: Seq<TokenSpec>, end: int) -> bool {
    &&& forall|i: int, j: int|
        0 <= i < j < t.len() ==> (#[trigger] t[i]).pos < (#[trigger] t[j]).pos
    &&& forall|i: int| 0 <= i < t.len() ==> 0 <= (#[trigger] t[i]).pos < end
}

proof fn lexed_in_order(s: Seq<char>, i: int, acc: Seq<TokenSpec>)
    requires
        0 <= i <= s.len(),
        in_order(acc, i),
        forall|k: int| 0 <= k < acc.len() ==> (#[trigger] acc[k]).ty != TokenType::Eof,
    ensures
        lex(s, i, acc) matches Ok(t) ==> {
            &&& t.len() > 0
            &&& in_order(t, s.len() as int + 1)
            &&& t.last() == TokenSpec { ty: TokenType::Eof, text: Seq::empty(), pos: s.len() as int }
            &&& forall|k: int| 0 <= k < t.len() - 1 ==> (#[trigger] t[k]).ty != TokenType::Eof
        },
    decreases s.len() - i,
{
    if i < s.len() {
        match lex_step(s, i) {
            LexStep::Blank => lexed_in_order(s, i + 1, acc),
            LexStep::Take { ty, text, end } => if i < end <= s.len() {
                step_is_no_end(s, i);
                lexed_in_order(s, end, acc.push(TokenSpec { ty, text, pos: i }));
            },
            LexStep::Fail { message } => {},
        }
    }
}

proof fn step_is_no_end(s: Seq<char>, i: int)
    ensures
        lex_step(s, i) matches LexStep::Take { ty, .. } ==> ty != TokenType::Eof,
{
}

/// The tokens of a formula stand one behind the other; the last one is its end, behind its last
/// character, and no other is.
pub proof fn tokens_stand_in_order(s: Seq<char>)
    ensures
        lex_formula(s) matches Ok(t) ==> {
            &&& t.len() > 0
            &&& forall|i: int, j: int|
                0 <= i < j < t.len() ==> (#[trigger] t[i]).pos < (#[trigger] t[j]).pos
            &&& t.last() == TokenSpec {
                ty: TokenType::Eof,
                text: Seq::empty(),
                pos: strip_equals(s).len() as int,
            }
            &&& forall|i: int| 0 <= i < t.len() - 1 ==> (#[trigger] t[i]).ty != TokenType::Eof
        },
{
    lexed_in_order(strip_equals(s), 0, Seq::empty());
}

// ---- brackets around a text

/// A text in brackets.
pub open spec fn bracketed(s: Seq<char>) -> Seq<char> {
    seq!['('] + s + seq![')']
}

/// A place one further on.
spec fn up(o: Option<int>) -> Option<int> {
    match o {
        Some(i) => Some(i + 1),
        None => None,
    }
}

proof fn char_moves(s: Seq<char>, i: int, c: char)
    requires
        0 <= i,
        c != ')',
    ensures
        spec_char_at(bracketed(s), i + 1, c) == spec_char_at(s, i, c),
        i < s.len() ==> bracketed(s)[i + 1] == s[i],
{
    let u = bracketed(s);
    if i < s.len() {
        assert(u[i + 1] == s[i]);
    } else if i == s.len() {
        assert(u[i + 1] == ')');
    }
}

proof fn run_moves(s: Seq<char>, i: int, k: CharClass)
    requires
        0 <= i <= s.len(),
        k != CharClass::Unquoted,
    ensures
        spec_run_end(bracketed(s), i + 1, k) == spec_run_end(s, i, k) + 1,
        i <= spec_run_end(s, i, k) <= s.len(),
    decreases s.len() - i,
{
    let u = bracketed(s);
    if i < s.len() {
        assert(u[i + 1] == s[i]);
        run_moves(s, i + 1, k);
    } else {
        assert(u[i + 1] == ')');
    }
}

proof fn quote_moves(s: Seq<char>, i: int)
    requires
        0 <= i <= s.len(),
    ensures
        ({
            let q = spec_run_end(s, i, CharClass::Unquoted);
            let r = spec_run_end(bracketed(s), i + 1, CharClass::Unquoted);
            &&& i <= q <= s.len()
            &&& spec_char_at(s, q, '\'') ==> r == q + 1
            &&& !spec_char_at(s, q, '\'') ==> !spec_char_at(bracketed(s), r, '\'')
        }),
    decreases s.len() - i,
{
    let u = bracketed(s);
    if i < s.len() {
        assert(u[i + 1] == s[i]);
        if s[i] != '\'' {
            quote_moves(s, i + 1);
        }
    } else {
        assert(u[i + 1] == ')');
        assert(u.len() == i + 2);
        reveal_with_fuel(spec_run_end, 3);
    }
}

proof fn prefix_moves(s: Seq<char>, i: int)
    requires
        0 <= i < s.len(),
    ensures
        spec_prefix_end(bracketed(s), i + 1) == up(spec_prefix_end(s, i)),
        spec_prefix_end(s, i) matches Some(p) ==> i < p <= s.len(),
{
    char_moves(s, i, '\'');
    quote_moves(s, i + 1);
    run_moves(s, i + 1, CharClass::SheetPart);
    let q = spec_run_end(s, i + 1, CharClass::Unquoted);
    char_moves(s, q, '\'');
    char_moves(s, q + 1, '!');
    let e = spec_run_end(s, i + 1, CharClass::SheetPart);
    char_moves(s, e, '!');
}

proof fn column_moves(s: Seq<char>, i: int)
    requires
        0 <= i <= s.len(),
    ensures
        spec_column_end(bracketed(s), i + 1) == up(spec_column_end(s, i)),
        spec_column_end(s, i) matches Some(e) ==> i < e <= s.len(),
{
    char_moves(s, i, '$');
    run_moves(s, spec_skip_dollar(s, i), CharClass::Letter);
}

proof fn row_moves(s: Seq<char>, i: int)
    requires
        0 <= i <= s.len(),
    ensures
        spec_row_end(bracketed(s), i + 1) == up(spec_row_end(s, i)),
        spec_row_end(s, i) matches Some(e) ==> i < e <= s.len(),
{
    char_moves(s, i, '$');
    run_moves(s, spec_skip_dollar(s, i), CharClass::Digit);
}

proof fn local_moves(s: Seq<char>, i: int, k: RefShape)
    requires
        0 <= i <= s.len(),
    ensures
        spec_local_end(bracketed(s), i + 1, k) == up(spec_local_end(s, i, k)),
        spec_local_end(s, i, k) matches Some(e) ==> i < e <= s.len(),
{
    column_moves(s, i);
    row_moves(s, i);
    match k {
        RefShape::Cell => {
            if let Some(e) = spec_column_end(s, i) {
                row_moves(s, e);
            }
        },
        RefShape::Columns => {
            if let Some(e) = spec_column_end(s, i) {
                char_moves(s, e, ':');
                if spec_char_at(s, e, ':') {
                    column_moves(s, e + 1);
                    if let Some(f) = spec_column_end(s, e + 1) {
                        if f < s.len() {
                            char_moves(s, f, '0');
                        } else {
                            assert(bracketed(s)[f + 1] == ')');
                        }
                    }
                }
            }
        },
        RefShape::Rows => {
            if let Some(e) = spec_row_end(s, i) {
                char_moves(s, e, ':');
                if spec_char_at(s, e, ':') {
                    row_moves(s, e + 1);
                }
            }
        },
    }
}

proof fn ref_moves(s: Seq<char>, i: int, k: RefShape)
    requires
        0 <= i < s.len(),
    ensures
        spec_ref_end(bracketed(s), i + 1, k) == up(spec_ref_end(s, i, k)),
        spec_ref_end(s, i, k) matches Some(e) ==> i < e <= s.len(),
{
    prefix_moves(s, i);
    local_moves(s, i, k);
    if let Some(p) = spec_prefix_end(s, i) {
        local_moves(s, p, k);
    }
}

proof fn number_moves(s: Seq<char>, i: int)
    requires
        0 <= i < s.len(),
    ensures
        spec_number_end(bracketed(s), i + 1) == spec_number_end(s, i) + 1,
        i <= spec_number_end(s, i) <= s.len(),
{
    let u = bracketed(s);
    run_moves(s, i, CharClass::Digit);
    let a = spec_run_end(s, i, CharClass::Digit);
    char_moves(s, a, '.');
    if spec_char_at(s, a, '.') {
        run_moves(s, a + 1, CharClass::Digit);
    }
    let b = if spec_char_at(s, a, '.') {
        spec_run_end(s, a + 1, CharClass::Digit)
    } else {
        a
    };
    char_moves(s, b, 'e');
    char_moves(s, b, 'E');
    char_moves(s, b + 1, '+');
    char_moves(s, b + 1, '-');
    if spec_char_at(s, b, 'e') || spec_char_at(s, b, 'E') {
        let k = if spec_char_at(s, b + 1, '+') || spec_char_at(s, b + 1, '-') {
            b + 2
        } else {
            b + 1
        };
        if k < s.len() {
            char_moves(s, k, '0');
            run_moves(s, k, CharClass::Digit);
        } else {
            assert(k == s.len());
            assert(u[k + 1] == ')');
        }
    }
}

proof fn string_moves(s: Seq<char>, j: int, acc: Seq<char>)
    requires
        0 <= j,
        spec_string_body(s, j, acc) is Some,
    ensures
        ({
            let (text, end) = spec_string_body(s, j, acc)->0;
            &&& spec_string_body(bracketed(s), j + 1, acc) == Some((text, end + 1))
            &&& j < end <= s.len()
        }),
    decreases s.len() - j,
{
    char_moves(s, j, '"');
    char_moves(s, j + 1, '"');
    if s[j] == '"' {
        if spec_char_at(s, j + 1, '"') {
            string_moves(s, j + 2, acc.push('"'));
        }
    } else {
        string_moves(s, j + 1, acc.push(s[j]));
    }
}

/// What stands at a place of a text stands one place further on where the text is in brackets.
proof fn step_moves(s: Seq<char>, i: int)
    requires
        0 <= i < s.len(),
        !(lex_step(s, i) is Fail),
    ensures
        match lex_step(s, i) {
            LexStep::Blank => lex_step(bracketed(s), i + 1) is Blank,
            LexStep::Take { ty, text, end } => i <= end <= s.len() && lex_step(bracketed(s), i + 1)
                == (LexStep::Take { ty, text, end: end + 1 }),
            LexStep::Fail { .. } => false,
        },
{
    let u = bracketed(s);
    let c = s[i];
    assert(u[i + 1] == c);
    if c == '"' {
        string_moves(s, i + 1, Seq::empty());
    } else {
        ref_moves(s, i, RefShape::Rows);
        ref_moves(s, i, RefShape::Columns);
        ref_moves(s, i, RefShape::Cell);
        number_moves(s, i);
        run_moves(s, i + 1, CharClass::IdentPart);
        if i + 1 < s.len() {
            assert(u[i + 2] == s[i + 1]);
        } else {
            assert(u[i + 2] == ')');
        }
        char_moves(s, i + 1, '>');
        char_moves(s, i + 1, '=');
        if let Some(e) = spec_ref_end(s, i, RefShape::Cell) {
            if e < s.len() {
                assert(u[e + 1] == s[e]);
            } else {
                assert(u[e + 1] == ')');
            }
        }
        assert forall|e: int| i <= e <= s.len() implies #[trigger] s.subrange(i, e) == u.subrange(
            i + 1,
            e + 1,
        ) by {
            assert(s.subrange(i, e) =~= u.subrange(i + 1, e + 1));
        }
    }
}

/// Tokens that differ in nothing but where they stand.
spec fn same_token(a: TokenSpec, b: TokenSpec) -> bool {
    a.ty == b.ty && a.text == b.text
}

/// Whether tokens are those of a text in brackets: a bracket, the text's, a bracket.
spec fn brackets(t: Seq<TokenSpec>, u: Seq<TokenSpec>) -> bool {
    &&& t.len() > 0
    &&& u.len() == t.len() + 2
    &&& u[0].ty == TokenType::LParen
    &&& forall|i: int| 0 <= i < t.len() - 1 ==> same_token(#[trigger] t[i], u[i + 1])
    &&& t.last().ty == TokenType::Eof
    &&& u[t.len() as int].ty == TokenType::RParen
    &&& u.last().ty == TokenType::Eof
}

/// Whether tokens begin with a bracket and go on as others do.
spec fn opened(a: Seq<TokenSpec>, b: Seq<TokenSpec>) -> bool {
    &&& b.len() == a.len() + 1
    &&& b[0].ty == TokenType::LParen
    &&& forall|i: int| 0 <= i < a.len() ==> same_token(#[trigger] a[i], b[i + 1])
}

proof fn lex_moves(s: Seq<char>, i: int, a: Seq<TokenSpec>, b: Seq<TokenSpec>)
    requires
        0 <= i <= s.len(),
        opened(a, b),
        lex(s, i, a) is Ok,
    ensures
        lex(bracketed(s), i + 1, b) is Ok,
        brackets(lex(s, i, a)->Ok_0, lex(bracketed(s), i + 1, b)->Ok_0),
    decreases s.len() - i,
{
    let u = bracketed(s);
    if i < s.len() {
        step_moves(s, i);
        match lex_step(s, i) {
            LexStep::Blank => {
                lex_moves(s, i + 1, a, b);
            },
            LexStep::Take { ty, text, end } => {
                let a1 = a.push(TokenSpec { ty, text, pos: i });
                let b1 = b.push(TokenSpec { ty, text, pos: i + 1 });
                assert(opened(a1, b1)) by {
                    assert forall|k: int| 0 <= k < a1.len() implies same_token(#[trigger] a1[k], b1[k + 1]) by {
                        if k < a.len() {
                            assert(same_token(a[k], b[k + 1]));
                        }
                    }
                }
                lex_moves(s, end, a1, b1);
            },
            LexStep::Fail { message } => {},
        }
    } else {
        assert(u[i + 1] == ')');
        closing_step(u, i + 1);
        let close = TokenSpec { ty: TokenType::RParen, text: u.subrange(i + 1, i + 2), pos: i + 1 };
        assert(lex(u, i + 1, b) == lex(u, i + 2, b.push(close)));
        let t = lex(s, i, a)->Ok_0;
        let v = lex(u, i + 1, b)->Ok_0;
        assert forall|k: int| 0 <= k < t.len() - 1 implies same_token(#[trigger] t[k], v[k + 1]) by {
            assert(same_token(a[k], b[k + 1]));
        }
    }
}

proof fn closing_step(u: Seq<char>, i: int)
    requires
        0 <= i < u.len(),
        u[i] == ')' || u[i] == '(',
    ensures
        lex_step(u, i) == (LexStep::Take {
            ty: if u[i] == '(' {
                TokenType::LParen
            } else {
                TokenType::RParen
            },
            text: u.subrange(i, i + 1),
            end: i + 1,
        }),
{
    assert(spec_run_end(u, i, CharClass::Letter) == i);
    assert(spec_run_end(u, i, CharClass::Digit) == i);
}

// ---- brackets around an expression

proof fn kinds_move(t: Seq<TokenSpec>, u: Seq<TokenSpec>, i: int)
    requires
        brackets(t, u),
        0 <= i,
    ensures
        i < t.len() - 1 ==> kind(u, i + 1) == kind(t, i) && u[i + 1].text == t[i].text,
        i == t.len() - 1 ==> kind(t, i) == TokenType::Eof && kind(u, i + 1) == TokenType::RParen,
        i >= t.len() ==> kind(t, i) == TokenType::Eof && kind(u, i + 1) == TokenType::Eof,
{
    if i < t.len() - 1 {
        assert(same_token(t[i], u[i + 1]));
    }
}

proof fn expr_moves(t: Seq<TokenSpec>, u: Seq<TokenSpec>, i: int, min: u8)
    requires
        brackets(t, u),
        0 <= i,
        p_expr(t, i, min) is Ok,
    ensures
        ({
            let (a, j) = p_expr(t, i, min)->Ok_0;
            &&& p_expr(u, i + 1, min) == Ok::<(Ast, int), (Seq<char>, int)>((a, j + 1))
            &&& i < j < t.len()
        }),
    decreases t.len() - i, 2nat, 0nat,
{
    let r = p_unary(t, i);
    unary_moves(t, u, i);
    infix_moves(t, u, r->Ok_0.1, r->Ok_0.0, min);
}

proof fn infix_moves(t: Seq<TokenSpec>, u: Seq<TokenSpec>, i: int, left: Ast, min: u8)
    requires
        brackets(t, u),
        0 <= i < t.len(),
        p_infix(t, i, left, min) is Ok,
    ensures
        ({
            let (a, j) = p_infix(t, i, left, min)->Ok_0;
            &&& p_infix(u, i + 1, left, min) == Ok::<(Ast, int), (Seq<char>, int)>((a, j + 1))
            &&& i <= j < t.len()
        }),
    decreases t.len() - i, 0nat, 0nat,
{
    kinds_move(t, u, i);
    if kind(t, i) == TokenType::Op && spec_bin_prec(t[i].text) is Some && spec_bin_prec(t[i].text)->0
        >= min {
        let op = t[i].text;
        let r = p_expr(t, i + 1, right_min(op, spec_bin_prec(op)->0));
        expr_moves(t, u, i + 1, right_min(op, spec_bin_prec(op)->0));
        infix_moves(
            t,
            u,
            r->Ok_0.1,
            Ast::Binary { op, left: Box::new(left), right: Box::new(r->Ok_0.0) },
            min,
        );
    }
}

proof fn unary_moves(t: Seq<TokenSpec>, u: Seq<TokenSpec>, i: int)
    requires
        brackets(t, u),
        0 <= i,
        p_unary(t, i) is Ok,
    ensures
        ({
            let (a, j) = p_unary(t, i)->Ok_0;
            &&& p_unary(u, i + 1) == Ok::<(Ast, int), (Seq<char>, int)>((a, j + 1))
            &&& i < j < t.len()
        }),
    decreases t.len() - i, 1nat, 0nat,
{
    kinds_move(t, u, i);
    if kind(t, i) == TokenType::Op && (t[i].text == "-"@ || t[i].text == "+"@) {
        unary_moves(t, u, i + 1);
        let (a, j) = p_unary(t, i + 1)->Ok_0;
        let b = if t[i].text == "-"@ {
            Ast::Unary { op: "-"@, operand: Box::new(a) }
        } else {
            a
        };
        postfix_moves(t, u, j, b);
    } else {
        primary_moves(t, u, i);
        let (a, j) = p_primary(t, i)->Ok_0;
        postfix_moves(t, u, j, a);
    }
}

proof fn postfix_moves(t: Seq<TokenSpec>, u: Seq<TokenSpec>, i: int, a: Ast)
    requires
        brackets(t, u),
        0 <= i < t.len(),
    ensures
        ({
            let (b, j) = p_postfix(t, i, a);
            &&& p_postfix(u, i + 1, a) == (b, j + 1)
            &&& i <= j < t.len()
        }),
    decreases t.len() - i,
{
    kinds_move(t, u, i);
    if kind(t, i) == TokenType::Percent {
        postfix_moves(t, u, i + 1, Ast::Unary { op: "%"@, operand: Box::new(a) });
    }
}

proof fn primary_moves(t: Seq<TokenSpec>, u: Seq<TokenSpec>, i: int)
    requires
        brackets(t, u),
        0 <= i,
        p_primary(t, i) is Ok,
    ensures
        ({
            let (a, j) = p_primary(t, i)->Ok_0;
            &&& p_primary(u, i + 1) == Ok::<(Ast, int), (Seq<char>, int)>((a, j + 1))
            &&& i < j < t.len()
        }),
    decreases t.len() - i, 0nat, 0nat,
{
    kinds_move(t, u, i);
    kinds_move(t, u, i + 1);
    kinds_move(t, u, i + 2);
    assert(i < t.len() - 1);
    match kind(t, i) {
        TokenType::LParen => {
            expr_moves(t, u, i + 1, 0);
            kinds_move(t, u, p_expr(t, i + 1, 0)->Ok_0.1);
        },
        TokenType::LBrace => {
            let r = p_expr(t, i + 1, 0);
            expr_moves(t, u, i + 1, 0);
            array_moves(t, u, r->Ok_0.1, Seq::empty(), seq![r->Ok_0.0]);
            kinds_move(t, u, p_array(t, r->Ok_0.1, Seq::empty(), seq![r->Ok_0.0])->Ok_0.1);
        },
        TokenType::Ident => {
            if kind(t, i + 1) == TokenType::LParen && kind(t, i + 2) != TokenType::RParen {
                let r = p_expr(t, i + 2, 0);
                expr_moves(t, u, i + 2, 0);
                args_moves(t, u, r->Ok_0.1, upper(t[i].text), seq![r->Ok_0.0]);
                kinds_move(t, u, p_args(t, r->Ok_0.1, upper(t[i].text), seq![r->Ok_0.0])->Ok_0.1);
            }
        },
        _ => {},
    }
}

proof fn array_moves(
    t: Seq<TokenSpec>,
    u: Seq<TokenSpec>,
    i: int,
    rows: Seq<Seq<Ast>>,
    row: Seq<Ast>,
)
    requires
        brackets(t, u),
        0 <= i < t.len(),
        p_array(t, i, rows, row) is Ok,
    ensures
        ({
            let (a, j) = p_array(t, i, rows, row)->Ok_0;
            &&& p_array(u, i + 1, rows, row) == Ok::<(Ast, int), (Seq<char>, int)>((a, j + 1))
            &&& i <= j < t.len()
        }),
    decreases t.len() - i, 0nat, 0nat,
{
    kinds_move(t, u, i);
    if kind(t, i) == TokenType::Comma || kind(t, i) == TokenType::Semicolon {
        let r = p_expr(t, i + 1, 0);
        expr_moves(t, u, i + 1, 0);
        if kind(t, i) == TokenType::Comma {
            array_moves(t, u, r->Ok_0.1, rows, row.push(r->Ok_0.0));
        } else {
            array_moves(t, u, r->Ok_0.1, rows.push(row), seq![r->Ok_0.0]);
        }
    }
}

proof fn args_moves(t: Seq<TokenSpec>, u: Seq<TokenSpec>, i: int, name: Seq<char>, args: Seq<Ast>)
    requires
        brackets(t, u),
        0 <= i < t.len(),
        p_args(t, i, name, args) is Ok,
    ensures
        ({
            let (a, j) = p_args(t, i, name, args)->Ok_0;
            &&& p_args(u, i + 1, name, args) == Ok::<(Ast, int), (Seq<char>, int)>((a, j + 1))
            &&& i <= j < t.len()
        }),
    decreases t.len() - i, 0nat, 0nat,
{
    kinds_move(t, u, i);
    if kind(t, i) == TokenType::Comma {
        let r = p_expr(t, i + 1, 0);
        expr_moves(t, u, i + 1, 0);
        args_moves(t, u, r->Ok_0.1, name, args.push(r->Ok_0.0));
    }
}

/// Brackets around a whole formula change nothing: they group, and leave nothing of their own.
pub proof fn brackets_change_nothing(s: Seq<char>)
    requires
        s.len() == 0 || s[0] != '=',
        parse_text(s) is Ok,
    ensures
        parse_text(bracketed(s)) == parse_text(s),
{
    let v = bracketed(s);
    let e = Seq::<TokenSpec>::empty();
    assert(v[0] == '(');
    closing_step(v, 0);
    let open = TokenSpec { ty: TokenType::LParen, text: v.subrange(0, 1), pos: 0 };
    assert(lex(v, 0, e) == lex(v, 1, e.push(open)));
    lex_moves(s, 0, e, e.push(open));
    let t = lex_formula(s)->Ok_0;
    let u = lex_formula(v)->Ok_0;
    assert(brackets(t, u));
    expr_moves(t, u, 0, 0);
    let (a, j) = p_expr(t, 0, 0)->Ok_0;
    lexed_in_order(s, 0, e);
    assert(j == t.len() - 1) by {
        if j < t.len() - 1 {
            assert(t[j].ty != TokenType::Eof);
        }
    }
    let n = t.len() as int;
    assert(p_expr(u, 1, 0) == Ok::<(Ast, int), (Seq<char>, int)>((a, n)));
    assert(kind(u, n) == TokenType::RParen);
    assert(kind(u, n + 1) == TokenType::Eof);
    assert(p_primary(u, 0) == Ok::<(Ast, int), (Seq<char>, int)>((a, n + 1)));
    assert(p_postfix(u, n + 1, a) == (a, n + 1));
    assert(p_unary(u, 0) == Ok::<(Ast, int), (Seq<char>, int)>((a, n + 1)));
    assert(p_infix(u, n + 1, a, 0) == Ok::<(Ast, int), (Seq<char>, int)>((a, n + 1)));
    assert(p_expr(u, 0, 0) == Ok::<(Ast, int), (Seq<char>, int)>((a, n + 1)));
}

} // verus!
