//! What formulas are read as: a formula that is written out of a tree, with brackets only where
//! operators would otherwise group in another way, is read as that tree.
use crate::find_law::without;
use crate::parse::{
    advanced, kind, p_args, p_array, p_expr, p_formula, p_infix, p_postfix, p_primary, p_unary,
    parse_text, right_min, spec_bin_prec, Ast, Parsed,
};
use crate::text::upper;
use crate::token::{
    lex, lex_formula, lex_step, spec_char_at, spec_column_end, spec_continues_name, spec_in_class,
    spec_is_blank, spec_is_digit, spec_is_ident_part, spec_is_ident_start, spec_is_letter,
    spec_is_sheet_start, spec_local_end, spec_number_end, spec_prefix_end, spec_ref_end,
    spec_row_end, spec_run_end, spec_string_body, strip_equals, CharClass, LexStep, RefShape,
    TokenSpec, TokenType,
};
use vstd::prelude::*;

verus! {

/// A token without its place.
pub struct Word {
    pub ty: TokenType,
    pub text: Seq<char>,
}

/// How tightly operators bind: comparisons least, then joining, sums, products and powers; a sign
/// more than all of these, and a percent sign more than that.
pub open spec fn strength(op: Seq<char>) -> int {
    if op == "="@ || op == "<>"@ || op == "<"@ || op == ">"@ || op == "<="@ || op == ">="@ {
        1
    } else if op == "&"@ {
        2
    } else if op == "+"@ || op == "-"@ {
        3
    } else if op == "*"@ || op == "/"@ {
        4
    } else if op == "^"@ {
        5
    } else {
        0
    }
}

/// How tightly a tree holds together.
pub open spec fn level(a: Ast) -> int {
    match a {
        Ast::Binary { op, .. } => strength(op),
        Ast::Unary { op, .. } => if op == "%"@ {
            7
        } else {
            6
        },
        _ => 8,
    }
}

/// Words in brackets, where they are asked for.
pub open spec fn in_brackets(w: Seq<Word>, asked: bool) -> Seq<Word> {
    if asked {
        seq![Word { ty: TokenType::LParen, text: "("@ }] + w + seq![
            Word { ty: TokenType::RParen, text: ")"@ },
        ]
    } else {
        w
    }
}

/// A tree written out. Brackets stand where an operand holds together less tightly than its
/// operator asks for: to the left of an operator as tightly as the operator, to the right more
/// tightly, and the other way round for powers.
pub open spec fn written_out(a: Ast) -> Seq<Word>
    decreases a,
{
    match a {
        Ast::Number(t) => seq![Word { ty: TokenType::Number, text: t }],
        Ast::Str(s) => seq![Word { ty: TokenType::Str, text: s }],
        Ast::Name(n) => seq![Word { ty: TokenType::Ident, text: n }],
        Ast::Ref(r) => seq![Word { ty: TokenType::Ref, text: r }],
        Ast::Range { start, end } => seq![
            Word { ty: TokenType::Ref, text: start },
            Word { ty: TokenType::Colon, text: ":"@ },
            Word { ty: TokenType::Ref, text: end },
        ],
        Ast::Array(rows) => seq![Word { ty: TokenType::LBrace, text: "{"@ }] + rows_out(rows) + seq![
            Word { ty: TokenType::RBrace, text: "}"@ },
        ],
        Ast::Unary { op, operand } => if op == "%"@ {
            in_brackets(written_out(*operand), level(*operand) < 7) + seq![
                Word { ty: TokenType::Percent, text: "%"@ },
            ]
        } else {
            seq![Word { ty: TokenType::Op, text: op }] + in_brackets(
                written_out(*operand),
                level(*operand) < 6,
            )
        },
        Ast::Binary { op, left, right } => {
            let s = strength(op);
            in_brackets(
                written_out(*left),
                level(*left) < s || (op == "^"@ && level(*left) == s),
            ) + seq![Word { ty: TokenType::Op, text: op }] + in_brackets(
                written_out(*right),
                level(*right) < s || (op != "^"@ && level(*right) == s),
            )
        },
        Ast::Call { name, args } => seq![
            Word { ty: TokenType::Ident, text: name },
            Word { ty: TokenType::LParen, text: "("@ },
        ] + args_out(args) + seq![Word { ty: TokenType::RParen, text: ")"@ }],
    }
}

/// Trees written out with commas between them.
pub open spec fn args_out(args: Seq<Ast>) -> Seq<Word>
    decreases args,
{
    if args.len() == 0 {
        Seq::empty()
    } else if args.len() == 1 {
        written_out(args[0])
    } else {
        written_out(args[0]) + seq![Word { ty: TokenType::Comma, text: ","@ }] + args_out(
            args.subrange(1, args.len() as int),
        )
    }
}

/// Rows of trees written out with semicolons between them.
pub open spec fn rows_out(rows: Seq<Seq<Ast>>) -> Seq<Word>
    decreases rows,
{
    if rows.len() == 0 {
        Seq::empty()
    } else if rows.len() == 1 {
        args_out(rows[0])
    } else {
        args_out(rows[0]) + seq![Word { ty: TokenType::Semicolon, text: ";"@ }] + rows_out(
            rows.subrange(1, rows.len() as int),
        )
    }
}

/// Whether a tree is that of a formula: its signs are `-` and `%`, its operators are operators, its
/// functions have names in capitals, and its arrays have rows with something in them.
pub open spec fn is_formula(a: Ast) -> bool
    decreases a,
{
    match a {
        Ast::Unary { op, operand } => (op == "-"@ || op == "%"@) && is_formula(*operand),
        Ast::Binary { op, left, right } => strength(op) > 0 && is_formula(*left) && is_formula(*right),
        Ast::Array(rows) => rows.len() > 0 && are_rows(rows),
        Ast::Call { name, args } => upper(name) == name && are_formulas(args),
        _ => true,
    }
}

pub open spec fn are_formulas(args: Seq<Ast>) -> bool
    decreases args,
{
    args.len() == 0 || (is_formula(args[0]) && are_formulas(args.subrange(1, args.len() as int)))
}

pub open spec fn are_rows(rows: Seq<Seq<Ast>>) -> bool
    decreases rows,
{
    rows.len() == 0 || (rows[0].len() > 0 && are_formulas(rows[0]) && are_rows(
        rows.subrange(1, rows.len() as int),
    ))
}

// ---- tokens

/// Whether words stand among tokens, from the one at `i` on.
spec fn stand(t: Seq<TokenSpec>, i: int, w: Seq<Word>) -> bool {
    &&& 0 <= i
    &&& i + w.len() <= t.len()
    &&& forall|k: int|
        0 <= k < w.len() ==> t[i + k].ty == (#[trigger] w[k]).ty && t[i + k].text == w[k].text
}

proof fn stand_apart(t: Seq<TokenSpec>, i: int, a: Seq<Word>, b: Seq<Word>)
    requires
        stand(t, i, a + b),
    ensures
        stand(t, i, a),
        stand(t, i + a.len(), b),
{
    assert forall|k: int| 0 <= k < a.len() implies t[i + k].ty == (#[trigger] a[k]).ty && t[i
        + k].text == a[k].text by {
        assert((a + b)[k] == a[k]);
    }
    assert forall|k: int| 0 <= k < b.len() implies t[i + a.len() + k].ty == (#[trigger] b[k]).ty
        && t[i + a.len() + k].text == b[k].text by {
        assert((a + b)[a.len() + k] == b[k]);
    }
}

/// Whether what stands at `j` neither goes on with an operand nor, as an operator, binds as tightly
/// as `m`.
spec fn ends_at(t: Seq<TokenSpec>, j: int, m: int) -> bool {
    &&& kind(t, j) != TokenType::Percent
    &&& kind(t, j) != TokenType::Colon
    &&& kind(t, j) != TokenType::LParen
    &&& kind(t, j) == TokenType::Op ==> strength(t[j].text) < m
}

/// The operators that may stand behind a tree without taking part of it bind less tightly.
spec fn open_end(a: Ast) -> int {
    match a {
        Ast::Binary { op, .. } => if op == "^"@ {
            5
        } else {
            strength(op) + 1
        },
        _ => 9,
    }
}

proof fn strength_is(op: Seq<char>)
    ensures
        strength(op) > 0 <==> spec_bin_prec(op) is Some,
        strength(op) > 0 ==> spec_bin_prec(op)->0 == strength(op) && right_min(
            op,
            spec_bin_prec(op)->0,
        ) == (if op == "^"@ {
            5int
        } else {
            strength(op) + 1
        }),
        0 <= strength(op) <= 5,
{
    literals();
}

/// The operators are told apart.
proof fn literals()
    ensures
        "^"@.len() == 1 && "^"@[0] == '^',
        "*"@.len() == 1 && "*"@[0] == '*',
        "/"@.len() == 1 && "/"@[0] == '/',
        "+"@.len() == 1 && "+"@[0] == '+',
        "-"@.len() == 1 && "-"@[0] == '-',
        "&"@.len() == 1 && "&"@[0] == '&',
        "="@.len() == 1 && "="@[0] == '=',
        "<"@.len() == 1 && "<"@[0] == '<',
        ">"@.len() == 1 && ">"@[0] == '>',
        "<>"@.len() == 2 && "<>"@[0] == '<' && "<>"@[1] == '>',
        "<="@.len() == 2 && "<="@[0] == '<' && "<="@[1] == '=',
        ">="@.len() == 2 && ">="@[0] == '>' && ">="@[1] == '=',
        "%"@.len() == 1 && "%"@[0] == '%',
{
    reveal_strlit("^");
    reveal_strlit("*");
    reveal_strlit("/");
    reveal_strlit("+");
    reveal_strlit("-");
    reveal_strlit("&");
    reveal_strlit("=");
    reveal_strlit("<");
    reveal_strlit(">");
    reveal_strlit("<>");
    reveal_strlit("<=");
    reveal_strlit(">=");
    reveal_strlit("%");
}

/// Nothing that stands at `j` goes on with an expression.
proof fn stops(t: Seq<TokenSpec>, j: int, left: Ast, m: u8)
    requires
        ends_at(t, j, m as int),
    ensures
        p_infix(t, j, left, m) == Ok::<(Ast, int), (Seq<char>, int)>((left, j)),
{
    if kind(t, j) == TokenType::Op {
        strength_is(t[j].text);
    }
}

spec fn is(r: Parsed, a: Ast, j: int) -> bool {
    r == Ok::<(Ast, int), (Seq<char>, int)>((a, j))
}

proof fn out_is_some(a: Ast)
    requires
        is_formula(a),
    ensures
        written_out(a).len() > 0,
        level(a) >= 7 ==> written_out(a)[0].ty != TokenType::Op,
    decreases a,
{
    match a {
        Ast::Unary { op, operand } => {
            out_is_some(*operand);
        },
        Ast::Binary { op, left, right } => {
            out_is_some(*left);
        },
        _ => {},
    }
}

/// An operand in brackets is read as the operand.
proof fn brackets_read(t: Seq<TokenSpec>, i: int, a: Ast)
    requires
        is_formula(a),
        stand(t, i, in_brackets(written_out(a), true)),
    ensures
        is(p_primary(t, i), a, i + written_out(a).len() + 2),
    decreases a, 4nat,
{
    let open = seq![Word { ty: TokenType::LParen, text: "("@ }];
    let close = seq![Word { ty: TokenType::RParen, text: ")"@ }];
    let w = written_out(a);
    stand_apart(t, i, open + w, close);
    stand_apart(t, i, open, w);
    assert(t[i].ty == open[0].ty);
    let j = i + 1 + w.len();
    assert(t[j + 0].ty == close[0].ty);
    out_is_some(a);
    expr_reads(t, i + 1, a, 0);
    stops(t, j, a, 0);
}

/// An operand, in brackets where they are asked for, is read as the operand.
proof fn operand_reads(t: Seq<TokenSpec>, i: int, a: Ast, asked: bool)
    requires
        is_formula(a),
        asked || level(a) >= 7,
        stand(t, i, in_brackets(written_out(a), asked)),
        ({
            let j = i + in_brackets(written_out(a), asked).len();
            kind(t, j) != TokenType::Colon && kind(t, j) != TokenType::LParen
        }),
    ensures
        p_unary(t, i) == Ok::<(Ast, int), (Seq<char>, int)>(
            p_postfix(t, i + in_brackets(written_out(a), asked).len(), a),
        ),
    decreases
            a,
            if asked {
                5nat
            } else {
                1nat
            },
{
    if asked {
        brackets_read(t, i, a);
        let open = seq![Word { ty: TokenType::LParen, text: "("@ }];
        let w = written_out(a);
        assert(in_brackets(w, true)[0] == open[0]);
        assert(t[i + 0].ty == TokenType::LParen);
    } else {
        tight_reads(t, i, a);
    }
}

/// A tree that is no operator's and no sign's is read as it was written, with the percent signs
/// behind it still to come.
proof fn tight_reads(t: Seq<TokenSpec>, i: int, a: Ast)
    requires
        is_formula(a),
        level(a) >= 7,
        stand(t, i, written_out(a)),
        ({
            let j = i + written_out(a).len();
            kind(t, j) != TokenType::Colon && kind(t, j) != TokenType::LParen
        }),
    ensures
        p_unary(t, i) == Ok::<(Ast, int), (Seq<char>, int)>(
            p_postfix(t, i + written_out(a).len(), a),
        ),
    decreases a, 0nat,
{
    let w = written_out(a);
    out_is_some(a);
    assert(t[i + 0].ty == w[0].ty && t[i + 0].text == w[0].text);
    match a {
        Ast::Range { start, end } => {
            assert(w.len() == 3);
            assert(t[i + 1].ty == w[1].ty);
            assert(t[i + 2].ty == w[2].ty && t[i + 2].text == w[2].text);
            assert(kind(t, i) == TokenType::Ref);
            assert(kind(t, i + 1) == TokenType::Colon);
            assert(kind(t, i + 2) == TokenType::Ref);
            assert(is(p_primary(t, i), a, i + 3));
        },
        Ast::Unary { op, operand } => {
            reveal_strlit("%");
            reveal_strlit("-");
            let asked = level(*operand) < 7;
            let inner = in_brackets(written_out(*operand), asked);
            let sign = seq![Word { ty: TokenType::Percent, text: "%"@ }];
            stand_apart(t, i, inner, sign);
            assert(t[i + inner.len() + 0].ty == sign[0].ty);
            operand_reads(t, i, *operand, asked);
            assert(a == Ast::Unary { op: "%"@, operand });
        },
        Ast::Array(rows) => {
            let open = seq![Word { ty: TokenType::LBrace, text: "{"@ }];
            let close = seq![Word { ty: TokenType::RBrace, text: "}"@ }];
            let inner = rows_out(rows);
            stand_apart(t, i, open + inner, close);
            stand_apart(t, i, open, inner);
            assert(t[i + 1 + inner.len() + 0].ty == close[0].ty);
            rows_read(t, i + 1, Seq::empty(), rows);
            assert(Seq::<Seq<Ast>>::empty() + rows == rows);
        },
        Ast::Call { name, args } => {
            let open = seq![
                Word { ty: TokenType::Ident, text: name },
                Word { ty: TokenType::LParen, text: "("@ },
            ];
            let close = seq![Word { ty: TokenType::RParen, text: ")"@ }];
            let inner = args_out(args);
            stand_apart(t, i, open + inner, close);
            stand_apart(t, i, open, inner);
            assert(t[i + 1].ty == open[1].ty);
            let j = i + 2 + inner.len();
            assert(t[j + 0].ty == close[0].ty);
            if args.len() == 0 {
                assert(args == Seq::<Ast>::empty());
            } else {
                args_first(args);
                call_args_read(t, i + 2, name, args);
                let r = p_expr(t, i + 2, 0);
                assert(kind(t, i + 2) != TokenType::RParen) by {
                    first_is_operand(args[0]);
                    assert(inner[0] == written_out(args[0])[0]);
                    assert(t[i + 2 + 0].ty == inner[0].ty);
                }
            }
        },
        _ => {},
    }
}

proof fn args_first(args: Seq<Ast>)
    requires
        args.len() > 0,
        are_formulas(args),
    ensures
        is_formula(args[0]),
        args_out(args).len() > 0,
        args_out(args)[0] == written_out(args[0])[0],
{
    out_is_some(args[0]);
}

/// A tree does not begin with a bracket that closes.
proof fn first_is_operand(a: Ast)
    requires
        is_formula(a),
    ensures
        written_out(a).len() > 0,
        written_out(a)[0].ty != TokenType::RParen,
    decreases a,
{
    out_is_some(a);
    match a {
        Ast::Unary { operand, .. } => {
            out_is_some(*operand);
            first_is_operand(*operand);
        },
        Ast::Binary { left, .. } => {
            out_is_some(*left);
            first_is_operand(*left);
        },
        _ => {},
    }
}

/// An operand of a sign is read as it was written.
proof fn signed_reads(t: Seq<TokenSpec>, i: int, a: Ast, asked: bool)
    requires
        is_formula(a),
        asked || level(a) >= 6,
        stand(t, i, in_brackets(written_out(a), asked)),
        ({
            let j = i + in_brackets(written_out(a), asked).len();
            &&& kind(t, j) != TokenType::Colon
            &&& kind(t, j) != TokenType::LParen
            &&& kind(t, j) != TokenType::Percent
        }),
    ensures
        is(p_unary(t, i), a, i + in_brackets(written_out(a), asked).len()),
    decreases
            a,
            if asked {
                6nat
            } else {
                2nat
            },
{
    let j = i + in_brackets(written_out(a), asked).len();
    if asked || level(a) >= 7 {
        operand_reads(t, i, a, asked);
    } else {
        match a {
            Ast::Unary { op, operand } => {
                let ask = level(*operand) < 6;
                let sign = seq![Word { ty: TokenType::Op, text: op }];
                let inner = in_brackets(written_out(*operand), ask);
                stand_apart(t, i, sign, inner);
                assert(t[i + 0].ty == sign[0].ty && t[i + 0].text == sign[0].text);
                signed_reads(t, i + 1, *operand, ask);
                assert(op == "-"@);
                assert(p_postfix(t, j, a) == (a, j));
                assert(a == Ast::Unary { op: "-"@, operand });
            },
            Ast::Binary { op, .. } => {
                strength_is(op);
            },
            _ => {},
        }
    }
}

/// An expression is read up to where its tree ends.
proof fn expr_reads(t: Seq<TokenSpec>, i: int, a: Ast, min: u8)
    requires
        is_formula(a),
        level(a) >= min,
        stand(t, i, written_out(a)),
        ends_at(t, i + written_out(a).len(), open_end(a)),
    ensures
        p_expr(t, i, min) == p_infix(t, i + written_out(a).len(), a, min),
    decreases a, 3nat,
{
    out_is_some(a);
    match a {
        Ast::Binary { op, left, right } => {
            binary_reads(t, i, a, min);
        },
        _ => {
            signed_reads(t, i, a, false);
        },
    }
}

proof fn side_reads(t: Seq<TokenSpec>, i: int, a: Ast, asked: bool, min: u8)
    requires
        is_formula(a),
        asked || level(a) >= min,
        stand(t, i, in_brackets(written_out(a), asked)),
        ends_at(
            t,
            i + in_brackets(written_out(a), asked).len(),
            if asked {
                9
            } else {
                open_end(a)
            },
        ),
    ensures
        p_expr(t, i, min) == p_infix(t, i + in_brackets(written_out(a), asked).len(), a, min),
        in_brackets(written_out(a), asked).len() > 0,
    decreases a, 7nat,
{
    out_is_some(a);
    if asked {
        signed_reads(t, i, a, true);
    } else {
        expr_reads(t, i, a, min);
    }
}

proof fn binary_reads(t: Seq<TokenSpec>, i: int, a: Ast, min: u8)
    requires
        is_formula(a),
        a is Binary,
        level(a) >= min,
        stand(t, i, written_out(a)),
        ends_at(t, i + written_out(a).len(), open_end(a)),
    ensures
        p_expr(t, i, min) == p_infix(t, i + written_out(a).len(), a, min),
    decreases a, 0nat,
{
    match a {
        Ast::Binary { op, left, right } => {
            let s = strength(op);
            strength_is(op);
            let ask_left = level(*left) < s || (op == "^"@ && level(*left) == s);
            let ask_right = level(*right) < s || (op != "^"@ && level(*right) == s);
            let l = in_brackets(written_out(*left), ask_left);
            let o = seq![Word { ty: TokenType::Op, text: op }];
            let r = in_brackets(written_out(*right), ask_right);
            stand_apart(t, i, l + o, r);
            stand_apart(t, i, l, o);
            let k = i + l.len();
            assert(t[k + 0].ty == o[0].ty && t[k + 0].text == o[0].text);
            let j = k + 1 + r.len();
            assert(written_out(a).len() == l.len() + 1 + r.len());
            level_is(*left);
            level_is(*right);
            side_reads(t, i, *left, ask_left, min);
            let m = right_min(op, spec_bin_prec(op)->0);
            assert(ends_at(t, j, m as int));
            assert(ends_at(t, j, if ask_right { 9 } else { open_end(*right) }));
            side_reads(t, k + 1, *right, ask_right, m);
            stops(t, j, *right, m);
            assert(is(p_expr(t, k + 1, m), *right, j));
        },
        _ => {},
    }
}

proof fn level_is(a: Ast)
    requires
        is_formula(a),
    ensures
        1 <= level(a) <= 8,
        a is Binary ==> level(a) <= 5,
        a is Binary && level(a) == 5 ==> open_end(a) == 5,
        a is Binary && level(a) < 5 ==> open_end(a) == level(a) + 1,
        !(a is Binary) ==> open_end(a) == 9 && level(a) >= 6,
{
    match a {
        Ast::Binary { op, .. } => {
            strength_is(op);
            literals();
        },
        _ => {},
    }
}

/// Arguments are read one behind the other, up to the bracket.
proof fn call_args_read(t: Seq<TokenSpec>, i: int, name: Seq<char>, args: Seq<Ast>)
    requires
        args.len() > 0,
        are_formulas(args),
        stand(t, i, args_out(args)),
        kind(t, i + args_out(args).len()) == TokenType::RParen,
    ensures
        ({
            let r = p_expr(t, i, 0);
            &&& advanced(r, i, t.len())
            &&& r->Ok_0.0 == args[0]
            &&& is(
                p_args(t, r->Ok_0.1, name, seq![r->Ok_0.0]),
                Ast::Call { name, args },
                i + args_out(args).len(),
            )
        }),
    decreases args, 1nat,
{
    more_args(t, i, name, Seq::empty(), args);
    assert(Seq::<Ast>::empty().push(args[0]) == seq![args[0]]);
    assert(Seq::<Ast>::empty() + args == args);
}

proof fn more_args(t: Seq<TokenSpec>, i: int, name: Seq<char>, before: Seq<Ast>, args: Seq<Ast>)
    requires
        args.len() > 0,
        are_formulas(args),
        stand(t, i, args_out(args)),
        kind(t, i + args_out(args).len()) == TokenType::RParen,
    ensures
        ({
            let r = p_expr(t, i, 0);
            &&& advanced(r, i, t.len())
            &&& r->Ok_0.0 == args[0]
            &&& is(
                p_args(t, r->Ok_0.1, name, before.push(args[0])),
                Ast::Call { name, args: before + args },
                i + args_out(args).len(),
            )
        }),
    decreases args, 0nat,
{
    let a = args[0];
    let n = written_out(a).len();
    args_first(args);
    out_is_some(a);
    if args.len() == 1 {
        expr_reads(t, i, a, 0);
        stops(t, i + n, a, 0);
        assert(before + args == before.push(a));
    } else {
        let comma = seq![Word { ty: TokenType::Comma, text: ","@ }];
        let rest = args.subrange(1, args.len() as int);
        let w = written_out(a);
        stand_apart(t, i, w + comma, args_out(rest));
        stand_apart(t, i, w, comma);
        assert(t[i + n + 0].ty == comma[0].ty);
        expr_reads(t, i, a, 0);
        stops(t, i + n, a, 0);
        more_args(t, i + n + 1, name, before.push(a), rest);
        assert(before.push(a) + rest == before + args);
    }
}

/// A row of an array is read up to its end, behind rows that are done.
proof fn row_reads(
    t: Seq<TokenSpec>,
    i: int,
    rows: Seq<Seq<Ast>>,
    before: Seq<Ast>,
    row: Seq<Ast>,
)
    requires
        row.len() > 0,
        are_formulas(row),
        stand(t, i, args_out(row)),
        kind(t, i + args_out(row).len()) == TokenType::RBrace || kind(t, i + args_out(row).len())
            == TokenType::Semicolon,
    ensures
        ({
            let r = p_expr(t, i, 0);
            &&& advanced(r, i, t.len())
            &&& r->Ok_0.0 == row[0]
            &&& p_array(t, r->Ok_0.1, rows, before.push(row[0])) == p_array(
                t,
                i + args_out(row).len(),
                rows,
                before + row,
            )
        }),
    decreases row, 0nat,
{
    let a = row[0];
    let n = written_out(a).len();
    args_first(row);
    out_is_some(a);
    if row.len() == 1 {
        expr_reads(t, i, a, 0);
        stops(t, i + n, a, 0);
        assert(before + row == before.push(a));
    } else {
        let comma = seq![Word { ty: TokenType::Comma, text: ","@ }];
        let rest = row.subrange(1, row.len() as int);
        let w = written_out(a);
        stand_apart(t, i, w + comma, args_out(rest));
        stand_apart(t, i, w, comma);
        assert(t[i + n + 0].ty == comma[0].ty);
        expr_reads(t, i, a, 0);
        stops(t, i + n, a, 0);
        row_reads(t, i + n + 1, rows, before.push(a), rest);
        assert(before.push(a) + rest == before + row);
    }
}

/// The rows of an array are read one behind the other, up to the brace.
proof fn rows_read(t: Seq<TokenSpec>, i: int, before: Seq<Seq<Ast>>, rows: Seq<Seq<Ast>>)
    requires
        rows.len() > 0,
        are_rows(rows),
        stand(t, i, rows_out(rows)),
        kind(t, i + rows_out(rows).len()) == TokenType::RBrace,
    ensures
        ({
            let r = p_expr(t, i, 0);
            &&& advanced(r, i, t.len())
            &&& is(
                p_array(t, r->Ok_0.1, before, seq![r->Ok_0.0]),
                Ast::Array(before + rows),
                i + rows_out(rows).len(),
            )
        }),
    decreases rows, 0nat,
{
    let row = rows[0];
    let n = args_out(row).len();
    assert(Seq::<Ast>::empty().push(row[0]) == seq![row[0]]);
    assert(Seq::<Ast>::empty() + row == row);
    if rows.len() == 1 {
        row_reads(t, i, before, Seq::empty(), row);
        assert(before + rows == before.push(row));
    } else {
        let semi = seq![Word { ty: TokenType::Semicolon, text: ";"@ }];
        let rest = rows.subrange(1, rows.len() as int);
        let w = args_out(row);
        stand_apart(t, i, w + semi, rows_out(rest));
        stand_apart(t, i, w, semi);
        assert(t[i + n + 0].ty == semi[0].ty);
        row_reads(t, i, before, Seq::empty(), row);
        rows_read(t, i + n + 1, before.push(row), rest);
        assert(before.push(row) + rest == before + rows);
    }
}

/// Tokens that are a tree written out are read as that tree.
pub proof fn tokens_are_read(t: Seq<TokenSpec>, a: Ast)
    requires
        is_formula(a),
        t.len() == written_out(a).len() + 1,
        forall|k: int|
            0 <= k < written_out(a).len() ==> (#[trigger] t[k]).ty == written_out(a)[k].ty && t[k].text
                == written_out(a)[k].text,
        t.last().ty == TokenType::Eof,
    ensures
        p_formula(t) == Ok::<Ast, (Seq<char>, int)>(a),
{
    let w = written_out(a);
    out_is_some(a);
    level_is(a);
    assert(stand(t, 0, w)) by {
        assert forall|k: int| 0 <= k < w.len() implies t[0 + k].ty == (#[trigger] w[k]).ty && t[0
            + k].text == w[k].text by {
            assert(t[k].ty == w[k].ty);
        }
    }
    expr_reads(t, 0, a, 0);
    stops(t, w.len() as int, a, 0);
    no_end_among(a);
    assert(t[0].ty == w[0].ty);
}

proof fn no_end_among(a: Ast)
    requires
        is_formula(a),
    ensures
        written_out(a).len() > 0,
        written_out(a)[0].ty != TokenType::Eof,
    decreases a,
{
    out_is_some(a);
    match a {
        Ast::Unary { operand, .. } => {
            out_is_some(*operand);
            no_end_among(*operand);
        },
        Ast::Binary { left, .. } => {
            out_is_some(*left);
            no_end_among(*left);
        },
        _ => {},
    }
}

// ---- words in a text

/// A number's numeral in its parts.
pub struct Numeral {
    pub whole: Seq<char>,
    pub fraction: Option<Seq<char>>,
    /// The letter, the sign and the digits of the exponent.
    pub exponent: Option<(char, Seq<char>, Seq<char>)>,
}

pub open spec fn are_digits(s: Seq<char>) -> bool {
    forall|i: int| 0 <= i < s.len() ==> '0' <= #[trigger] s[i] <= '9'
}

pub open spec fn are_letters(s: Seq<char>) -> bool {
    forall|i: int| 0 <= i < s.len() ==> 'a' <= #[trigger] s[i] <= 'z' || 'A' <= s[i] <= 'Z'
}

pub open spec fn is_numeral(n: Numeral) -> bool {
    &&& are_digits(n.whole)
    &&& n.whole.len() > 0 || (n.fraction matches Some(f) && f.len() > 0)
    &&& n.fraction matches Some(f) ==> are_digits(f)
    &&& n.exponent matches Some((e, sign, d)) ==> (e == 'e' || e == 'E') && are_digits(d) && d.len()
        > 0 && (sign == Seq::<char>::empty() || sign == seq!['+'] || sign == seq!['-'])
}

pub open spec fn numeral_text(n: Numeral) -> Seq<char> {
    n.whole + (match n.fraction {
        Some(f) => seq!['.'] + f,
        None => Seq::empty(),
    }) + (match n.exponent {
        Some((e, sign, d)) => seq![e] + sign + d,
        None => Seq::empty(),
    })
}

/// A reference to a cell in its parts.
pub struct Reference {
    /// The name of the sheet, and whether it stands in quotes.
    pub sheet: Option<(Seq<char>, bool)>,
    pub fixed_col: bool,
    pub col: Seq<char>,
    pub fixed_row: bool,
    pub row: Seq<char>,
}

/// Whether a sheet's name can stand in front of a reference without quotes.
pub open spec fn is_plain_sheet(n: Seq<char>) -> bool {
    &&& n.len() > 0
    &&& spec_is_sheet_start(n[0])
    &&& forall|i: int| 0 <= i < n.len() ==> spec_is_sheet_start(#[trigger] n[i]) || '0' <= n[i] <= '9'
}

pub open spec fn is_reference(r: Reference) -> bool {
    &&& are_letters(r.col) && 1 <= r.col.len() <= 3
    &&& are_digits(r.row) && r.row.len() > 0
    &&& r.sheet matches Some((n, quoted)) ==> if quoted {
        n.len() > 0 && without(n, '\'')
    } else {
        is_plain_sheet(n)
    }
}

pub open spec fn dollar(asked: bool) -> Seq<char> {
    if asked {
        seq!['$']
    } else {
        Seq::empty()
    }
}

pub open spec fn sheet_part(r: Reference) -> Seq<char> {
    match r.sheet {
        Some((n, true)) => seq!['\''] + n + seq!['\'', '!'],
        Some((n, false)) => n + seq!['!'],
        None => Seq::empty(),
    }
}

pub open spec fn local_part(r: Reference) -> Seq<char> {
    dollar(r.fixed_col) + r.col + dollar(r.fixed_row) + r.row
}

pub open spec fn reference_text(r: Reference) -> Seq<char> {
    sheet_part(r) + local_part(r)
}

/// A name of 1 to 3 letters, digits and nothing else that a name goes on with is that of a cell,
/// unless a bracket follows.
pub open spec fn is_name(t: Seq<char>, next: Option<char>) -> bool {
    &&& t.len() > 0
    &&& spec_is_ident_start(t[0])
    &&& forall|i: int| 0 <= i < t.len() ==> spec_is_ident_part(#[trigger] t[i])
    &&& forall|n: int, m: int|
        1 <= n <= 3 && n < m <= t.len() && are_letters(#[trigger] t.take(n)) && are_digits(
            #[trigger] t.subrange(n, m),
        ) && (m == t.len() || !('0' <= t[m] <= '9')) ==> (if m == t.len() {
            next == Some('(')
        } else {
            spec_is_letter(t[m]) || t[m] == '_'
        })
}

/// A text with its quotes doubled.
pub open spec fn with_quotes_doubled(s: Seq<char>) -> Seq<char>
    decreases s.len(),
{
    if s.len() == 0 {
        s
    } else if s[0] == '"' {
        seq!['"', '"'] + with_quotes_doubled(s.skip(1))
    } else {
        seq![s[0]] + with_quotes_doubled(s.skip(1))
    }
}

/// A word as it stands in a formula's text.
pub open spec fn source(w: Word) -> Seq<char> {
    if w.ty == TokenType::Str {
        seq!['"'] + with_quotes_doubled(w.text) + seq!['"']
    } else {
        w.text
    }
}

/// What may stand right behind a literal, a reference or a name.
pub open spec fn is_joint(c: char) -> bool {
    c == ' ' || c == '\t' || c == '\n' || c == '\r' || c == '+' || c == '-' || c == '*' || c == '/'
        || c == '^' || c == '&' || c == '=' || c == '<' || c == '>' || c == ')' || c == '}' || c == ','
        || c == ';' || c == '%'
}

/// Whether a word is one, with what stands right behind it.
pub open spec fn is_word(w: Word, next: Option<char>) -> bool {
    match w.ty {
        TokenType::Number => (exists|n: Numeral| #[trigger] is_numeral(n) && numeral_text(n) == w.text)
            && (next matches Some(c) ==> is_joint(c)),
        TokenType::Str => next matches Some(c) ==> is_joint(c),
        TokenType::Ref => (exists|r: Reference| #[trigger]
            is_reference(r) && reference_text(r) == w.text) && (next matches Some(c) ==> is_joint(c)
            || c == ':'),
        TokenType::Ident => is_name(w.text, next) && (next matches Some(c) ==> is_joint(c) || c
            == '('),
        TokenType::Op => strength(w.text) > 0 && (w.text == "<"@ ==> next != Some('>') && next != Some(
            '=',
        )) && (w.text == ">"@ ==> next != Some('=')),
        TokenType::LParen => w.text == "("@,
        TokenType::RParen => w.text == ")"@,
        TokenType::LBrace => w.text == "{"@,
        TokenType::RBrace => w.text == "}"@,
        TokenType::Comma => w.text == ","@,
        TokenType::Semicolon => w.text == ";"@,
        TokenType::Colon => w.text == ":"@,
        TokenType::Percent => w.text == "%"@,
        TokenType::Range => false,
        TokenType::Eof => false,
    }
}

/// Words one behind the other, from the one at `k` on, each with the blanks behind it.
pub open spec fn laid_out(words: Seq<Word>, gaps: Seq<Seq<char>>, k: int) -> Seq<char>
    decreases words.len() - k,
{
    if 0 <= k < words.len() {
        source(words[k]) + gaps[k] + laid_out(words, gaps, k + 1)
    } else {
        Seq::empty()
    }
}

/// The first character of a text.
pub open spec fn first_char(s: Seq<char>) -> Option<char> {
    if s.len() > 0 {
        Some(s[0])
    } else {
        None
    }
}

/// Whether words and the blanks between them are those of a text: where nothing stands between two
/// words, the first still ends where the second begins.
pub open spec fn is_text_of(words: Seq<Word>, gaps: Seq<Seq<char>>) -> bool {
    &&& gaps.len() == words.len()
    &&& forall|k: int|
        0 <= k < words.len() ==> is_word(
            #[trigger] words[k],
            first_char(gaps[k] + laid_out(words, gaps, k + 1)),
        )
    &&& forall|k: int, m: int|
        0 <= k < words.len() && 0 <= m < gaps[k].len() ==> spec_is_blank(#[trigger] gaps[k][m])
}

// ---- reading words

/// Whether a text stands in another one at `i`.
spec fn here(s: Seq<char>, i: int, w: Seq<char>) -> bool {
    0 <= i && i + w.len() <= s.len() && s.subrange(i, i + w.len()) == w
}

proof fn here_apart(s: Seq<char>, i: int, a: Seq<char>, b: Seq<char>)
    requires
        here(s, i, a + b),
    ensures
        here(s, i, a),
        here(s, i + a.len(), b),
{
    let w = a + b;
    assert(s.subrange(i, i + a.len()) =~= a) by {
        assert forall|k: int| 0 <= k < a.len() implies s[i + k] == a[k] by {
            assert(s.subrange(i, i + w.len())[k] == w[k]);
        }
    }
    assert(s.subrange(i + a.len(), i + w.len()) =~= b) by {
        assert forall|k: int| 0 <= k < b.len() implies s[i + a.len() + k] == b[k] by {
            assert(s.subrange(i, i + w.len())[a.len() + k] == w[a.len() + k]);
        }
    }
}

proof fn here_at(s: Seq<char>, i: int, w: Seq<char>, k: int)
    requires
        here(s, i, w),
        0 <= k < w.len(),
    ensures
        i + k < s.len(),
        s[i + k] == w[k],
{
    assert(s.subrange(i, i + w.len())[k] == w[k]);
}

/// A run of a class ends where the next character is not of it.
proof fn run_is(s: Seq<char>, i: int, e: int, c: CharClass)
    requires
        0 <= i <= e <= s.len(),
        forall|k: int| i <= k < e ==> spec_in_class(c, #[trigger] s[k]),
        e == s.len() || !spec_in_class(c, s[e]),
    ensures
        spec_run_end(s, i, c) == e,
    decreases e - i,
{
    if i < e {
        assert(spec_in_class(c, s[i]));
        run_is(s, i + 1, e, c);
    }
}

proof fn digits_run(s: Seq<char>, i: int, d: Seq<char>)
    requires
        here(s, i, d),
        are_digits(d),
        i + d.len() == s.len() || !spec_is_digit(s[i + d.len()]),
    ensures
        spec_run_end(s, i, CharClass::Digit) == i + d.len(),
{
    assert forall|k: int| i <= k < i + d.len() implies spec_in_class(
        CharClass::Digit,
        #[trigger] s[k],
    ) by {
        here_at(s, i, d, k - i);
        assert('0' <= d[k - i] <= '9');
    }
    run_is(s, i, i + d.len(), CharClass::Digit);
}

proof fn letters_run(s: Seq<char>, i: int, d: Seq<char>)
    requires
        here(s, i, d),
        are_letters(d),
        i + d.len() == s.len() || !spec_is_letter(s[i + d.len()]),
    ensures
        spec_run_end(s, i, CharClass::Letter) == i + d.len(),
{
    assert forall|k: int| i <= k < i + d.len() implies spec_in_class(
        CharClass::Letter,
        #[trigger] s[k],
    ) by {
        here_at(s, i, d, k - i);
        assert('a' <= d[k - i] <= 'z' || 'A' <= d[k - i] <= 'Z');
    }
    run_is(s, i, i + d.len(), CharClass::Letter);
}

proof fn number_step(s: Seq<char>, i: int, n: Numeral)
    requires
        is_numeral(n),
        here(s, i, numeral_text(n)),
        i + numeral_text(n).len() == s.len() || is_joint(s[i + numeral_text(n).len()]),
    ensures
        lex_step(s, i) == (LexStep::Take {
            ty: TokenType::Number,
            text: numeral_text(n),
            end: i + numeral_text(n).len(),
        }),
{
    let t = numeral_text(n);
    let f = match n.fraction {
        Some(f) => seq!['.'] + f,
        None => Seq::empty(),
    };
    let x = match n.exponent {
        Some((e, sign, d)) => seq![e] + sign + d,
        None => Seq::empty(),
    };
    here_apart(s, i, n.whole + f, x);
    here_apart(s, i, n.whole, f);
    let a = i + n.whole.len();
    let b = a + f.len();
    let end = b + x.len();
    if x.len() > 0 {
        here_at(s, b, x, 0);
    }
    if f.len() > 0 {
        here_at(s, a, f, 0);
    }
    digits_run(s, i, n.whole);
    if let Some(d) = n.fraction {
        here_apart(s, a, seq!['.'], d);
        digits_run(s, a + 1, d);
        if d.len() > 0 {
            here_at(s, a + 1, d, 0);
            assert('0' <= d[0] <= '9');
        }
    }
    if let Some((e, sign, d)) = n.exponent {
        here_apart(s, b, seq![e] + sign, d);
        here_apart(s, b, seq![e], sign);
        if sign.len() > 0 {
            here_at(s, b + 1, sign, 0);
        }
        here_at(s, b + 1 + sign.len(), d, 0);
        assert('0' <= d[0] <= '9');
        digits_run(s, b + 1 + sign.len(), d);
    }
    if n.whole.len() > 0 {
        here_at(s, i, n.whole, 0);
        assert('0' <= n.whole[0] <= '9');
    }
    assert(spec_number_end(s, i) == end);
    assert(spec_row_end(s, i) == (if n.whole.len() > 0 { Some(a) } else { None }));
    assert(spec_ref_end(s, i, RefShape::Rows) is None);
}

proof fn string_step(s: Seq<char>, i: int, t: Seq<char>)
    requires
        here(s, i, seq!['"'] + with_quotes_doubled(t) + seq!['"']),
        ({
            let e = i + with_quotes_doubled(t).len() + 2;
            e == s.len() || s[e] != '"'
        }),
    ensures
        lex_step(s, i) == (LexStep::Take {
            ty: TokenType::Str,
            text: t,
            end: i + with_quotes_doubled(t).len() + 2,
        }),
{
    let q = seq!['"'];
    let d = with_quotes_doubled(t);
    here_apart(s, i, q + d, q);
    here_apart(s, i, q, d);
    here_at(s, i, q, 0);
    here_at(s, i + 1 + d.len(), q, 0);
    string_reads(s, i + 1, t, Seq::empty());
    assert(Seq::<char>::empty() + t == t);
}

proof fn string_reads(s: Seq<char>, j: int, t: Seq<char>, acc: Seq<char>)
    requires
        here(s, j, with_quotes_doubled(t)),
        ({
            let e = j + with_quotes_doubled(t).len();
            e < s.len() && s[e] == '"' && (e + 1 == s.len() || s[e + 1] != '"')
        }),
    ensures
        spec_string_body(s, j, acc) == Some((acc + t, j + with_quotes_doubled(t).len() + 1)),
    decreases t.len(),
{
    let d = with_quotes_doubled(t);
    if t.len() == 0 {
        assert(acc + t == acc);
    } else {
        let rest = with_quotes_doubled(t.skip(1));
        if t[0] == '"' {
            here_apart(s, j, seq!['"', '"'], rest);
            here_at(s, j, seq!['"', '"'], 0);
            here_at(s, j, seq!['"', '"'], 1);
            string_reads(s, j + 2, t.skip(1), acc.push('"'));
            assert(acc.push('"') + t.skip(1) == acc + t);
        } else {
            here_apart(s, j, seq![t[0]], rest);
            here_at(s, j, seq![t[0]], 0);
            string_reads(s, j + 1, t.skip(1), acc.push(t[0]));
            assert(acc.push(t[0]) + t.skip(1) == acc + t);
        }
    }
}

/// The part of a reference behind its sheet, where it stands.
proof fn local_reads(s: Seq<char>, p: int, r: Reference)
    requires
        is_reference(r),
        here(s, p, local_part(r)),
        ({
            let e = p + local_part(r).len();
            e == s.len() || is_joint(s[e]) || s[e] == ':'
        }),
    ensures
        spec_local_end(s, p, RefShape::Cell) == Some(p + local_part(r).len()),
        spec_local_end(s, p, RefShape::Columns) is None,
        spec_local_end(s, p, RefShape::Rows) is None,
        p < s.len(),
        s[p] == '$' || spec_is_letter(s[p]),
        r.fixed_col ==> s[p] == '$',
{
    let d1 = dollar(r.fixed_col);
    let d2 = dollar(r.fixed_row);
    here_apart(s, p, d1 + r.col + d2, r.row);
    here_apart(s, p, d1 + r.col, d2);
    here_apart(s, p, d1, r.col);
    let a = p + d1.len();
    let b = a + r.col.len();
    let c = b + d2.len();
    let e = c + r.row.len();
    here_at(s, a, r.col, 0);
    assert('a' <= r.col[0] <= 'z' || 'A' <= r.col[0] <= 'Z');
    here_at(s, c, r.row, 0);
    assert('0' <= r.row[0] <= '9');
    if r.fixed_col {
        here_at(s, p, d1, 0);
    }
    if r.fixed_row {
        here_at(s, b, d2, 0);
    }
    letters_run(s, a, r.col);
    digits_run(s, c, r.row);
    assert(spec_column_end(s, p) == Some(b));
    assert(spec_row_end(s, b) == Some(e));
    assert(spec_row_end(s, p) is None) by {
        assert(spec_run_end(s, a, CharClass::Digit) == a);
    }
}

proof fn ref_step(s: Seq<char>, i: int, r: Reference)
    requires
        is_reference(r),
        here(s, i, reference_text(r)),
        ({
            let e = i + reference_text(r).len();
            e == s.len() || is_joint(s[e]) || s[e] == ':'
        }),
    ensures
        lex_step(s, i) == (LexStep::Take {
            ty: TokenType::Ref,
            text: reference_text(r),
            end: i + reference_text(r).len(),
        }),
{
    let h = sheet_part(r);
    let l = local_part(r);
    here_apart(s, i, h, l);
    let p = i + h.len();
    let e = p + l.len();
    local_reads(s, p, r);
    match r.sheet {
        Some((n, true)) => {
            let q = seq!['\''];
            let z = seq!['\'', '!'];
            here_apart(s, i, q + n, z);
            here_apart(s, i, q, n);
            here_at(s, i, q, 0);
            here_at(s, i + 1 + n.len(), z, 0);
            here_at(s, i + 1 + n.len(), z, 1);
            assert forall|k: int| i + 1 <= k < i + 1 + n.len() implies spec_in_class(
                CharClass::Unquoted,
                #[trigger] s[k],
            ) by {
                here_at(s, i + 1, n, k - i - 1);
                assert(n[k - i - 1] != '\'');
            }
            run_is(s, i + 1, i + 1 + n.len(), CharClass::Unquoted);
            assert(spec_prefix_end(s, i) == Some(p));
            assert(spec_run_end(s, i, CharClass::Letter) == i);
            assert(spec_run_end(s, i, CharClass::Digit) == i);
        },
        Some((n, false)) => {
            let z = seq!['!'];
            here_apart(s, i, n, z);
            here_at(s, i, n, 0);
            here_at(s, i + n.len(), z, 0);
            assert forall|k: int| i + 1 <= k < i + n.len() implies spec_in_class(
                CharClass::SheetPart,
                #[trigger] s[k],
            ) by {
                here_at(s, i, n, k - i);
                assert(spec_is_sheet_start(n[k - i]) || '0' <= n[k - i] <= '9');
            }
            run_is(s, i + 1, i + n.len(), CharClass::SheetPart);
            assert(spec_prefix_end(s, i) == Some(p));
            assert(spec_run_end(s, i, CharClass::Digit) == i);
            run_within(s, i, i + n.len(), CharClass::Letter);
            let f = spec_run_end(s, i, CharClass::Letter);
            if f < i + n.len() {
                here_at(s, i, n, f - i);
                assert(spec_is_sheet_start(n[f - i]) || '0' <= n[f - i] <= '9');
            }
            assert(!spec_char_at(s, f, ':'));
        },
        None => {
            assert(h + l == l);
            if !r.fixed_col {
                let k = i + 1;
                let g = i + r.col.len() + (if r.fixed_row {
                    0
                } else {
                    r.row.len() as int
                });
                plain_run(s, i, r);
                assert(spec_run_end(s, i + 1, CharClass::SheetPart) == g);
            }
            assert(spec_prefix_end(s, i) is None);
        },
    }
    assert(s.subrange(i, e) == reference_text(r));
    assert(!spec_continues_name(s, e));
}

/// The letters and digits of a reference that begins with a letter, up to a `$` or its end.
proof fn plain_run(s: Seq<char>, i: int, r: Reference)
    requires
        is_reference(r),
        r.sheet is None,
        !r.fixed_col,
        here(s, i, local_part(r)),
        ({
            let e = i + local_part(r).len();
            e == s.len() || is_joint(s[e]) || s[e] == ':'
        }),
    ensures
        ({
            let g = i + r.col.len() + (if r.fixed_row {
                0
            } else {
                r.row.len() as int
            });
            spec_run_end(s, i + 1, CharClass::SheetPart) == g && !spec_char_at(s, g, '!')
        }),
{
    let d2 = dollar(r.fixed_row);
    here_apart(s, i, dollar(false) + r.col + d2, r.row);
    here_apart(s, i, dollar(false) + r.col, d2);
    here_apart(s, i, dollar(false), r.col);
    let b = i + r.col.len();
    let g = b + (if r.fixed_row {
        0
    } else {
        r.row.len() as int
    });
    if r.fixed_row {
        here_at(s, b, d2, 0);
    }
    assert forall|k: int| i + 1 <= k < g implies spec_in_class(CharClass::SheetPart, #[trigger] s[k]) by {
        if k < b {
            here_at(s, i, r.col, k - i);
            assert('a' <= r.col[k - i] <= 'z' || 'A' <= r.col[k - i] <= 'Z');
        } else {
            here_at(s, b, r.row, k - b);
            assert('0' <= r.row[k - b] <= '9');
        }
    }
    run_is(s, i + 1, g, CharClass::SheetPart);
}

/// A run goes no further than a character that is not of its class.
proof fn run_within(s: Seq<char>, i: int, e: int, c: CharClass)
    requires
        0 <= i <= e < s.len(),
        !spec_in_class(c, s[e]),
    ensures
        i <= spec_run_end(s, i, c) <= e,
        !spec_in_class(c, s[spec_run_end(s, i, c)]),
    decreases e - i,
{
    if i < e && spec_in_class(c, s[i]) {
        run_within(s, i + 1, e, c);
    }
}

/// How far a run goes, and what it is made of.
proof fn run_of(s: Seq<char>, i: int, c: CharClass)
    requires
        0 <= i <= s.len(),
    ensures
        i <= spec_run_end(s, i, c) <= s.len(),
        forall|k: int| i <= k < spec_run_end(s, i, c) ==> spec_in_class(c, #[trigger] s[k]),
        spec_run_end(s, i, c) == s.len() || !spec_in_class(c, s[spec_run_end(s, i, c)]),
    decreases s.len() - i,
{
    if i < s.len() && spec_in_class(c, s[i]) {
        run_of(s, i + 1, c);
    }
}

proof fn name_step(s: Seq<char>, i: int, t: Seq<char>)
    requires
        here(s, i, t),
        is_name(
            t,
            if i + t.len() < s.len() {
                Some(s[i + t.len()])
            } else {
                None
            },
        ),
        i + t.len() == s.len() || is_joint(s[i + t.len()]) || s[i + t.len()] == '(',
    ensures
        lex_step(s, i) == (LexStep::Take { ty: TokenType::Ident, text: t, end: i + t.len() }),
{
    let e = i + t.len();
    here_at(s, i, t, 0);
    assert forall|k: int| i <= k < e implies spec_is_ident_part(#[trigger] s[k]) && s[k] == t[k - i] by {
        here_at(s, i, t, k - i);
        assert(spec_is_ident_part(t[k - i]));
    }
    run_is(s, i + 1, e, CharClass::IdentPart);
    assert(spec_run_end(s, i, CharClass::Digit) == i);
    // no sheet's name
    run_of(s, i + 1, CharClass::SheetPart);
    let g = spec_run_end(s, i + 1, CharClass::SheetPart);
    assert(g <= e) by {
        if g > e {
            assert(spec_in_class(CharClass::SheetPart, s[e]));
        }
    }
    assert(!spec_char_at(s, g, '!'));
    assert(spec_prefix_end(s, i) is None);
    // no columns
    run_of(s, i, CharClass::Letter);
    let b = spec_run_end(s, i, CharClass::Letter);
    assert(b <= e) by {
        if b > e {
            assert(spec_in_class(CharClass::Letter, s[e]));
        }
    }
    assert(!spec_char_at(s, b, ':'));
    assert(!spec_char_at(s, b, '$'));
    // no cell
    if spec_column_end(s, i) is Some && spec_row_end(s, b) is Some {
        run_of(s, b, CharClass::Digit);
        let f = spec_run_end(s, b, CharClass::Digit);
        assert(f <= e) by {
            if f > e {
                assert(spec_in_class(CharClass::Digit, s[e]));
            }
        }
        let (n, m) = (b - i, f - i);
        assert(are_letters(t.take(n))) by {
            assert forall|k: int| 0 <= k < n implies 'a' <= #[trigger] t.take(n)[k] <= 'z' || 'A'
                <= t.take(n)[k] <= 'Z' by {
                assert(spec_in_class(CharClass::Letter, s[i + k]));
                assert(s[i + k] == t[k]);
            }
        }
        assert(are_digits(t.subrange(n, m))) by {
            assert forall|k: int| 0 <= k < m - n implies '0' <= #[trigger] t.subrange(n, m)[k] <= '9' by {
                assert(spec_in_class(CharClass::Digit, s[b + k]));
                assert(s[b + k] == t[n + k]);
            }
        }
        if f < e {
            assert(s[f] == t[m]);
        }
        assert(spec_continues_name(s, f));
    }
    assert(s.subrange(i, e) == t);
}

proof fn sign_step(s: Seq<char>, i: int, w: Word)
    requires
        0 <= i < s.len(),
        here(s, i, w.text),
        is_word(
            w,
            if i + w.text.len() < s.len() {
                Some(s[i + w.text.len()])
            } else {
                None
            },
        ),
        !(w.ty is Number) && !(w.ty is Str) && !(w.ty is Ref) && !(w.ty is Ident),
    ensures
        lex_step(s, i) == (LexStep::Take { ty: w.ty, text: w.text, end: i + w.text.len() }),
{
    literals();
    reveal_strlit("(");
    reveal_strlit(")");
    reveal_strlit("{");
    reveal_strlit("}");
    reveal_strlit(",");
    reveal_strlit(";");
    reveal_strlit(":");
    assert(w.text.len() == 1 || w.text.len() == 2);
    here_at(s, i, w.text, 0);
    if w.text.len() == 2 {
        here_at(s, i, w.text, 1);
    }
    assert(spec_run_end(s, i, CharClass::Letter) == i);
    assert(spec_run_end(s, i, CharClass::Digit) == i);
    assert(spec_column_end(s, i) is None);
    assert(spec_row_end(s, i) is None);
    assert(spec_prefix_end(s, i) is None);
    assert(s.subrange(i, i + w.text.len()) == w.text);
}

proof fn word_step(s: Seq<char>, i: int, w: Word)
    requires
        here(s, i, source(w)),
        source(w).len() > 0,
        is_word(
            w,
            if i + source(w).len() < s.len() {
                Some(s[i + source(w).len()])
            } else {
                None
            },
        ),
    ensures
        lex_step(s, i) == (LexStep::Take { ty: w.ty, text: w.text, end: i + source(w).len() }),
{
    match w.ty {
        TokenType::Number => {
            let n = choose|n: Numeral| #[trigger] is_numeral(n) && numeral_text(n) == w.text;
            number_step(s, i, n);
        },
        TokenType::Str => {
            string_step(s, i, w.text);
        },
        TokenType::Ref => {
            let r = choose|r: Reference| #[trigger] is_reference(r) && reference_text(r) == w.text;
            ref_step(s, i, r);
        },
        TokenType::Ident => {
            name_step(s, i, w.text);
        },
        _ => {
            sign_step(s, i, w);
        },
    }
}

proof fn word_is_some(w: Word, next: Option<char>)
    requires
        is_word(w, next),
    ensures
        source(w).len() > 0,
{
    literals();
    reveal_strlit("(");
    reveal_strlit(")");
    reveal_strlit("{");
    reveal_strlit("}");
    reveal_strlit(",");
    reveal_strlit(";");
    reveal_strlit(":");
    match w.ty {
        TokenType::Number => {
            let n = choose|n: Numeral| #[trigger] is_numeral(n) && numeral_text(n) == w.text;
            assert(numeral_text(n).len() > 0);
        },
        TokenType::Ref => {
            let r = choose|r: Reference| #[trigger] is_reference(r) && reference_text(r) == w.text;
            assert(reference_text(r).len() > 0);
        },
        _ => {},
    }
}

proof fn blanks_skipped(s: Seq<char>, i: int, j: int, acc: Seq<TokenSpec>)
    requires
        0 <= i <= j <= s.len(),
        forall|k: int| i <= k < j ==> spec_is_blank(#[trigger] s[k]),
    ensures
        lex(s, i, acc) == lex(s, j, acc),
    decreases j - i,
{
    if i < j {
        assert(spec_is_blank(s[i]));
        blanks_skipped(s, i + 1, j, acc);
    }
}

/// Whether tokens are others, the words from the one at `k` on, and an end.
spec fn goes_on(t: Seq<TokenSpec>, acc: Seq<TokenSpec>, words: Seq<Word>, k: int) -> bool {
    &&& t.len() == acc.len() + (words.len() - k) + 1
    &&& forall|m: int| 0 <= m < acc.len() ==> #[trigger] t[m] == acc[m]
    &&& forall|m: int|
        acc.len() <= m < t.len() - 1 ==> (#[trigger] t[m]).ty == words[k + m - acc.len()].ty
            && t[m].text == words[k + m - acc.len()].text
    &&& t.last().ty == TokenType::Eof
}

proof fn lex_takes(s: Seq<char>, i: int, acc: Seq<TokenSpec>, ty: TokenType, text: Seq<char>, end: int)
    requires
        0 <= i < end <= s.len(),
        lex_step(s, i) == (LexStep::Take { ty, text, end }),
    ensures
        lex(s, i, acc) == lex(s, end, acc.push(TokenSpec { ty, text, pos: i })),
{
}

/// One word and the blanks behind it.
#[verifier::spinoff_prover]
#[verifier::rlimit(40)]
proof fn one_word(
    s: Seq<char>,
    i: int,
    acc: Seq<TokenSpec>,
    words: Seq<Word>,
    gaps: Seq<Seq<char>>,
    k: int,
)
    requires
        is_text_of(words, gaps),
        0 <= k < words.len(),
        0 <= i <= s.len(),
        s.skip(i) == laid_out(words, gaps, k),
    ensures
        ({
            let w = words[k];
            let j = i + source(w).len() + gaps[k].len();
            &&& i <= j <= s.len()
            &&& s.skip(j) == laid_out(words, gaps, k + 1)
            &&& lex(s, i, acc) == lex(
                s,
                j,
                acc.push(TokenSpec { ty: w.ty, text: w.text, pos: i }),
            )
        }),
{
    let w = words[k];
    let src = source(w);
    let rest = laid_out(words, gaps, k + 1);
    let tail = gaps[k] + rest;
    let all = src + gaps[k] + rest;
    assert(all == src + tail);
    let e = i + src.len();
    let j = e + gaps[k].len();
    assert(s.skip(i).len() == all.len());
    assert(s.subrange(i, e) =~= src) by {
        assert forall|m: int| 0 <= m < src.len() implies s[i + m] == src[m] by {
            assert(s.skip(i)[m] == all[m]);
        }
    }
    assert(s.skip(e) =~= tail) by {
        assert forall|m: int| 0 <= m < tail.len() implies s[e + m] == tail[m] by {
            assert(s.skip(i)[src.len() + m] == all[src.len() + m]);
        }
    }
    if e < s.len() {
        assert(s[e] == s.skip(e)[0]);
    }
    let next = first_char(tail);
    assert(is_word(w, next));
    word_is_some(w, next);
    word_step(s, i, w);
    lex_takes(s, i, acc, w.ty, w.text, e);
    assert forall|m: int| e <= m < j implies spec_is_blank(#[trigger] s[m]) by {
        assert(s[m] == s.skip(e)[m - e]);
        assert(tail[m - e] == gaps[k][m - e]);
    }
    blanks_skipped(s, e, j, acc.push(TokenSpec { ty: w.ty, text: w.text, pos: i }));
    assert(s.skip(j) =~= rest) by {
        assert forall|m: int| 0 <= m < rest.len() implies s[j + m] == rest[m] by {
            assert(s.skip(e)[gaps[k].len() + m] == tail[gaps[k].len() + m]);
        }
    }
}

proof fn goes_on_from(t: Seq<TokenSpec>, acc: Seq<TokenSpec>, words: Seq<Word>, k: int, pos: int)
    requires
        0 <= k < words.len(),
        goes_on(t, acc.push(TokenSpec { ty: words[k].ty, text: words[k].text, pos }), words, k + 1),
    ensures
        goes_on(t, acc, words, k),
{
    let more = acc.push(TokenSpec { ty: words[k].ty, text: words[k].text, pos });
    assert forall|m: int| acc.len() <= m < t.len() - 1 implies (#[trigger] t[m]).ty == words[k + m
        - acc.len()].ty && t[m].text == words[k + m - acc.len()].text by {
        if m == acc.len() {
            assert(t[m] == more[m]);
        }
    }
    assert forall|m: int| 0 <= m < acc.len() implies #[trigger] t[m] == acc[m] by {
        assert(t[m] == more[m]);
    }
}

proof fn words_lexed(
    s: Seq<char>,
    i: int,
    acc: Seq<TokenSpec>,
    words: Seq<Word>,
    gaps: Seq<Seq<char>>,
    k: int,
)
    requires
        is_text_of(words, gaps),
        0 <= k <= words.len(),
        0 <= i <= s.len(),
        s.skip(i) == laid_out(words, gaps, k),
    ensures
        lex(s, i, acc) matches Ok(t) && goes_on(t, acc, words, k),
    decreases words.len() - k,
{
    if k == words.len() {
        assert(s.skip(i).len() == 0);
    } else {
        let w = words[k];
        let j = i + source(w).len() + gaps[k].len();
        let more = acc.push(TokenSpec { ty: w.ty, text: w.text, pos: i });
        one_word(s, i, acc, words, gaps, k);
        words_lexed(s, j, more, words, gaps, k + 1);
        goes_on_from(lex(s, j, more)->Ok_0, acc, words, k, i);
    }
}

/// A formula's text is taken apart into its words, whatever blanks stand between them: numbers with
/// fractions and exponents, texts with doubled quotes, references with sheets and `$`, names,
/// operators and signs. Where nothing stands between two words, the first is as long as it can be.
pub proof fn words_are_read(words: Seq<Word>, gaps: Seq<Seq<char>>)
    requires
        is_text_of(words, gaps),
        first_char(laid_out(words, gaps, 0)) != Some('='),
    ensures
        lex_formula(laid_out(words, gaps, 0)) matches Ok(t) && t.len() == words.len() + 1
            && t.last().ty == TokenType::Eof && forall|k: int|
            0 <= k < words.len() ==> (#[trigger] t[k]).ty == words[k].ty && t[k].text
                == words[k].text,
{
    let s = laid_out(words, gaps, 0);
    assert(strip_equals(s) == s);
    assert(s.skip(0) == s);
    words_lexed(s, 0, Seq::empty(), words, gaps, 0);
}

/// A formula that is written out of a tree is read as that tree: operators of one strength group to
/// the left, powers to the right, a stronger operator takes its operands before a weaker one, a
/// percent sign before a sign, a sign before a power; brackets group, and arguments, rows and
/// columns keep their order.
pub proof fn formulas_are_read(a: Ast, gaps: Seq<Seq<char>>)
    requires
        is_formula(a),
        is_text_of(written_out(a), gaps),
    ensures
        parse_text(laid_out(written_out(a), gaps, 0)) == Ok::<Ast, (Seq<char>, int)>(a),
{
    let w = written_out(a);
    let s = laid_out(w, gaps, 0);
    no_end_among(a);
    assert(first_char(s) != Some('=')) by {
        first_is_no_equals(a);
        let next = first_char(gaps[0] + laid_out(w, gaps, 1));
        assert(is_word(w[0], next));
        word_is_some(w[0], next);
        assert(s[0] == source(w[0])[0]);
        starts_no_equals(w[0], next);
    }
    words_are_read(w, gaps);
    tokens_are_read(lex_formula(s)->Ok_0, a);
}

proof fn first_is_no_equals(a: Ast)
    requires
        is_formula(a),
    ensures
        written_out(a).len() > 0,
        written_out(a)[0].ty == TokenType::Op ==> written_out(a)[0].text == "-"@,
    decreases a,
{
    out_is_some(a);
    match a {
        Ast::Unary { operand, .. } => {
            out_is_some(*operand);
            first_is_no_equals(*operand);
        },
        Ast::Binary { left, .. } => {
            out_is_some(*left);
            first_is_no_equals(*left);
        },
        _ => {},
    }
}

proof fn starts_no_equals(w: Word, next: Option<char>)
    requires
        is_word(w, next),
        w.ty == TokenType::Op ==> w.text == "-"@,
    ensures
        source(w).len() > 0,
        source(w)[0] != '=',
{
    word_is_some(w, next);
    literals();
    reveal_strlit("(");
    reveal_strlit(")");
    reveal_strlit("{");
    reveal_strlit("}");
    reveal_strlit(",");
    reveal_strlit(";");
    reveal_strlit(":");
    match w.ty {
        TokenType::Number => {
            let n = choose|n: Numeral| #[trigger] is_numeral(n) && numeral_text(n) == w.text;
            if n.whole.len() > 0 {
                assert('0' <= n.whole[0] <= '9');
                assert(numeral_text(n)[0] == n.whole[0]);
            } else {
                assert(numeral_text(n)[0] == '.');
            }
        },
        TokenType::Ref => {
            let r = choose|r: Reference| #[trigger] is_reference(r) && reference_text(r) == w.text;
            assert('a' <= r.col[0] <= 'z' || 'A' <= r.col[0] <= 'Z');
            match r.sheet {
                Some((n, true)) => {
                    assert(reference_text(r)[0] == '\'');
                },
                Some((n, false)) => {
                    assert(reference_text(r)[0] == n[0]);
                },
                None => {
                    if r.fixed_col {
                        assert(reference_text(r)[0] == '$');
                    } else {
                        assert(reference_text(r)[0] == r.col[0]);
                    }
                },
            }
        },
        _ => {},
    }
}

/// Two operators of the same strength group to the left, but powers group to the right: what is
/// written without brackets is read as what is written with them.
pub proof fn operators_group(
    p: Seq<char>,
    q: Seq<char>,
    a: Ast,
    b: Ast,
    c: Ast,
    gaps: Seq<Seq<char>>,
)
    requires
        strength(p) > 0,
        strength(p) == strength(q),
        level(a) == 8 && level(b) == 8 && level(c) == 8,
        is_formula(a) && is_formula(b) && is_formula(c),
        is_text_of(three_out(p, q, a, b, c), gaps),
    ensures
        parse_text(laid_out(three_out(p, q, a, b, c), gaps, 0)) == Ok::<Ast, (Seq<char>, int)>(
            if p == "^"@ {
                binary(p, a, binary(q, b, c))
            } else {
                binary(q, binary(p, a, b), c)
            },
        ),
{
    only_power(p);
    only_power(q);
    let u = seq![Word { ty: TokenType::Op, text: p }];
    let v = seq![Word { ty: TokenType::Op, text: q }];
    if p == "^"@ {
        pair_out(q, b, c);
        pair_out(p, a, binary(q, b, c));
        joined_on(written_out(a) + u, written_out(b), v, written_out(c));
        formulas_are_read(binary(p, a, binary(q, b, c)), gaps);
    } else {
        pair_out(p, a, b);
        pair_out(q, binary(p, a, b), c);
        formulas_are_read(binary(q, binary(p, a, b), c), gaps);
    }
}

proof fn only_power(op: Seq<char>)
    ensures
        strength(op) == 5 <==> op == "^"@,
        strength(op) <= 5,
{
    literals();
}

proof fn joined_on(a: Seq<Word>, b: Seq<Word>, c: Seq<Word>, d: Seq<Word>)
    ensures
        a + (b + c + d) == a + b + c + d,
{
}

/// An operator's operands without brackets.
proof fn pair_out(op: Seq<char>, a: Ast, b: Ast)
    requires
        strength(op) > 0,
        is_formula(a) && is_formula(b),
        level(a) > strength(op) || (level(a) == strength(op) && op != "^"@),
        level(b) > strength(op) || (level(b) == strength(op) && op == "^"@),
    ensures
        written_out(binary(op, a, b)) == written_out(a) + seq![Word { ty: TokenType::Op, text: op }]
            + written_out(b),
        is_formula(binary(op, a, b)),
        level(binary(op, a, b)) == strength(op),
{
}

/// An operator with its operands.
pub open spec fn binary(op: Seq<char>, a: Ast, b: Ast) -> Ast {
    Ast::Binary { op, left: Box::new(a), right: Box::new(b) }
}

/// Three operands with two operators between them and no brackets.
pub open spec fn three_out(p: Seq<char>, q: Seq<char>, a: Ast, b: Ast, c: Ast) -> Seq<Word> {
    written_out(a) + seq![Word { ty: TokenType::Op, text: p }] + written_out(b) + seq![
        Word { ty: TokenType::Op, text: q },
    ] + written_out(c)
}

} // verus!
