//! What holds of the value of a formula: what its operators make of the values beside them, and
//! in which order arrays and calls hold what stands in them.
use crate::criteria_law::{in_order, is_operator};
use crate::calling::told_of_args;
use crate::evaluator::{
    eval, evals, first_error_of, flat, flat_arg, flat_args, matrix_of, scalar, Evaluated, Oracle,
};
use crate::parse::Ast;
use crate::sorting::{text_le, text_le_antisym, text_le_total};
use crate::reading::Given;
use crate::text::{trimmed, upper};
use crate::value::{FValue, FormulaError, Num};
use vstd::prelude::*;

verus! {

/// A tree with an operator between two others.
pub open spec fn between(op: Seq<char>, left: Ast, right: Ast) -> Ast {
    Ast::Binary { op, left: Box::new(left), right: Box::new(right) }
}

/// The value of a tree where one value is wanted.
pub open spec fn value_of(a: Ast, o: Oracle) -> FValue {
    scalar(eval(a, o))
}

proof fn operators()
    ensures
        "+"@ == seq!['+'],
        "-"@ == seq!['-'],
        "*"@ == seq!['*'],
        "/"@ == seq!['/'],
        "^"@ == seq!['^'],
        "&"@ == seq!['&'],
        "%"@ == seq!['%'],
        "="@ == seq!['='],
        "<>"@ == seq!['<', '>'],
        "<"@ == seq!['<'],
        ">"@ == seq!['>'],
        "<="@ == seq!['<', '='],
        ">="@ == seq!['>', '='],
{
    reveal_strlit("+");
    reveal_strlit("-");
    reveal_strlit("*");
    reveal_strlit("/");
    reveal_strlit("^");
    reveal_strlit("&");
    reveal_strlit("%");
    reveal_strlit("=");
    reveal_strlit("<>");
    reveal_strlit("<");
    reveal_strlit(">");
    reveal_strlit("<=");
    reveal_strlit(">=");
    assert("+"@ =~= seq!['+']);
    assert("-"@ =~= seq!['-']);
    assert("*"@ =~= seq!['*']);
    assert("/"@ =~= seq!['/']);
    assert("^"@ =~= seq!['^']);
    assert("&"@ =~= seq!['&']);
    assert("%"@ =~= seq!['%']);
    assert("="@ =~= seq!['=']);
    assert("<>"@ =~= seq!['<', '>']);
    assert("<"@ =~= seq!['<']);
    assert(">"@ =~= seq!['>']);
    assert("<="@ =~= seq!['<', '=']);
    assert(">="@ =~= seq!['>', '=']);
}

/// An operator that computes is given the numbers on its left and on its right in this order. A
/// division by zero is `#DIV/0!`, and a power that is not finite `#NUM!`.
pub proof fn operators_compute(
    c: char,
    left: Ast,
    right: Ast,
    o: Oracle,
    x: Num,
    y: Num,
)
    requires
        c == '+' || c == '-' || c == '*' || c == '/' || c == '^',
        value_of(left, o) == FValue::Number(x),
        value_of(right, o) == FValue::Number(y),
        x.finite(),
        y.finite(),
    ensures
        value_of(between(seq![c], left, right), o) == (if c == '/' && y.rank() == 0 {
            FValue::Error(FormulaError::Div0)
        } else if c == '^' && !(o.arith2)(seq![c], x, y).finite() {
            FValue::Error(FormulaError::Num)
        } else {
            FValue::Number((o.arith2)(seq![c], x, y))
        }),
{
    operators();
    one_apart(c);
}

proof fn one_apart(c: char)
    ensures
        forall|d: char| seq![c] == #[trigger] seq![d] ==> c == d,
        seq![c] != seq!['<', '>'],
        seq![c] != seq!['<', '='],
        seq![c] != seq!['>', '='],
{
    assert forall|d: char| seq![c] == #[trigger] seq![d] implies c == d by {
        assert(seq![c][0] == seq![d][0]);
    }
    assert(seq![c].len() == 1);
    assert(seq!['<', '>'].len() == 2);
    assert(seq!['<', '='].len() == 2);
    assert(seq!['>', '='].len() == 2);
}

/// `&` writes the text on its right behind the one on its left.
pub proof fn texts_are_put_together(
    left: Ast,
    right: Ast,
    o: Oracle,
    s: Seq<char>,
    t: Seq<char>,
    n: Num,
)
    requires
        value_of(left, o) == FValue::Text(s),
    ensures
        value_of(right, o) == FValue::Text(t) ==> value_of(between(seq!['&'], left, right), o)
            == FValue::Text(s + t),
        value_of(right, o) == FValue::Number(n) ==> value_of(between(seq!['&'], left, right), o)
            == FValue::Text(s + (o.show)(n)),
        value_of(right, o) == FValue::Blank ==> value_of(between(seq!['&'], left, right), o)
            == FValue::Text(s),
{
    operators();
    one_apart('&');
    assert(s + Seq::<char>::empty() =~= s);
}

/// Numbers are compared by their values.
pub proof fn numbers_are_compared(op: Seq<char>, left: Ast, right: Ast, o: Oracle, x: Num, y: Num)
    requires
        is_operator(op),
        value_of(left, o) == FValue::Number(x),
        value_of(right, o) == FValue::Number(y),
        !x.nan(),
        !y.nan(),
    ensures
        value_of(between(op, left, right), o) == FValue::Bool(in_order(op, x, y)),
{
    operators();
    comparison_is(op);
}

proof fn comparison_is(op: Seq<char>)
    requires
        is_operator(op),
    ensures
        op.len() == 1 || op.len() == 2,
        op == seq!['>', '='] <==> op.len() == 2 && op[0] == '>',
        op == seq!['<', '='] <==> op.len() == 2 && op[0] == '<' && op[1] == '=',
        op == seq!['<', '>'] <==> op.len() == 2 && op[0] == '<' && op[1] == '>',
        op == seq!['>'] <==> op.len() == 1 && op[0] == '>',
        op == seq!['<'] <==> op.len() == 1 && op[0] == '<',
        op == seq!['='] <==> op.len() == 1 && op[0] == '=',
{
}

/// Texts are compared by their letters, in capitals or not; a number comes before a text, and a
/// text before a truth value; false comes before true.
pub proof fn kinds_are_compared(
    left: Ast,
    right: Ast,
    o: Oracle,
    s: Seq<char>,
    t: Seq<char>,
    n: Num,
    a: bool,
    b: bool,
)
    ensures
        s.len() > 0 && t.len() > 0 && value_of(left, o) == FValue::Text(s) && value_of(right, o)
            == FValue::Text(t) ==> {
            &&& value_of(between(seq!['='], left, right), o) == FValue::Bool(upper(s) == upper(t))
            &&& value_of(between(seq!['<'], left, right), o) == FValue::Bool(
                upper(s) != upper(t) && text_le(upper(s), upper(t)),
            )
            &&& value_of(between(seq!['>'], left, right), o) == FValue::Bool(
                upper(s) != upper(t) && text_le(upper(t), upper(s)),
            )
        },
        t.len() > 0 && value_of(left, o) == FValue::Number(n) && value_of(right, o) == FValue::Text(t)
            ==> value_of(between(seq!['<'], left, right), o) == FValue::Bool(true),
        s.len() > 0 && value_of(left, o) == FValue::Text(s) && value_of(right, o) == FValue::Bool(b)
            ==> value_of(between(seq!['<'], left, right), o) == FValue::Bool(true),
        value_of(left, o) == FValue::Bool(a) && value_of(right, o) == FValue::Bool(b) ==> {
            &&& value_of(between(seq!['='], left, right), o) == FValue::Bool(a == b)
            &&& value_of(between(seq!['<'], left, right), o) == FValue::Bool(!a && b)
        },
{
    operators();
    one_apart('=');
    one_apart('<');
    one_apart('>');
    text_le_total(upper(s), upper(t));
    if text_le(upper(s), upper(t)) && text_le(upper(t), upper(s)) {
        text_le_antisym(upper(s), upper(t));
    }
}

/// An error beside an operator comes out of it, the left one first.
pub proof fn errors_come_out(op: Seq<char>, left: Ast, right: Ast, o: Oracle, e: FormulaError)
    ensures
        value_of(left, o) == FValue::Error(e) ==> value_of(between(op, left, right), o)
            == FValue::Error(e),
        !(value_of(left, o) is Error) && value_of(right, o) == FValue::Error(e) ==> value_of(
            between(op, left, right),
            o,
        ) == FValue::Error(e),
        value_of(left, o) == FValue::Error(e) ==> value_of(
            Ast::Unary { op, operand: Box::new(left) },
            o,
        ) == FValue::Error(e),
{
}

/// A sign in front of a number and a percent sign behind it work on that number; a plus sign
/// changes nothing.
pub proof fn signs_compute(operand: Ast, o: Oracle, x: Num)
    requires
        value_of(operand, o) == FValue::Number(x),
        x.finite(),
    ensures
        value_of(Ast::Unary { op: seq!['-'], operand: Box::new(operand) }, o) == FValue::Number(
            (o.arith1)(seq!['-'], x),
        ),
        value_of(Ast::Unary { op: seq!['%'], operand: Box::new(operand) }, o) == FValue::Number(
            (o.arith1)(seq!['%'], x),
        ),
        value_of(Ast::Unary { op: seq!['+'], operand: Box::new(operand) }, o) == FValue::Number(x),
{
    operators();
    one_apart('+');
}

/// An array holds at each place the value of what stands there.
pub proof fn arrays_hold_their_values(rows: Seq<Seq<Ast>>, o: Oracle)
    ensures
        eval(Ast::Array(rows), o) matches Evaluated::Range(vs) && {
            &&& vs.len() == rows.len()
            &&& forall|i: int|
                0 <= i < rows.len() ==> {
                    &&& (#[trigger] vs[i]).len() == rows[i].len()
                    &&& forall|j: int|
                        0 <= j < rows[i].len() ==> #[trigger] vs[i][j] == value_of(rows[i][j], o)
                }
        },
{
}

/// A call of a known function is given the values of its arguments in their order; any other
/// function is `#NAME?`.
pub proof fn calls_are_given_their_values(name: Seq<char>, args: Seq<Ast>, o: Oracle)
    ensures
        evals(args, o).len() == args.len(),
        forall|i: int| 0 <= i < args.len() ==> #[trigger] evals(args, o)[i] == eval(args[i], o),
        (o.known)(name) ==> value_of(Ast::Call { name, args }, o) == (o.call)(name, evals(args, o)),
        !(o.known)(name) ==> value_of(Ast::Call { name, args }, o) == FValue::Error(
            FormulaError::Name,
        ),
{
}

/// A literal, a reference and a name stand for themselves.
pub proof fn leaves_are_read(t: Seq<char>, u: Seq<char>, o: Oracle, n: Num)
    ensures
        (o.parse)(t) == Some(n) ==> value_of(Ast::Number(t), o) == FValue::Number(n),
        value_of(Ast::Str(t), o) == FValue::Text(t),
        value_of(Ast::Ref(t), o) == (o.cell)(t),
        eval(Ast::Range { start: t, end: u }, o) == Evaluated::Range((o.range)(t, u)),
        upper(t) == seq!['T', 'R', 'U', 'E'] ==> value_of(Ast::Name(t), o) == FValue::Bool(true),
        upper(t) == seq!['F', 'A', 'L', 'S', 'E'] ==> value_of(Ast::Name(t), o) == FValue::Bool(
            false,
        ),
{
    reveal_strlit("TRUE");
    reveal_strlit("FALSE");
    assert("TRUE"@ =~= seq!['T', 'R', 'U', 'E']);
    assert("FALSE"@ =~= seq!['F', 'A', 'L', 'S', 'E']);
    assert("TRUE"@.len() == 4 && "FALSE"@.len() == 5);
}

/// Values laid out flat stand row by row: in rows of one width, the value at a row and a column comes
/// behind those of the rows before it.
pub proof fn ranges_are_laid_flat(rows: Seq<Seq<FValue>>, w: nat, i: int, j: int)
    requires
        forall|k: int| 0 <= k < rows.len() ==> (#[trigger] rows[k]).len() == w,
        0 <= i < rows.len(),
        0 <= j < w,
    ensures
        flat_arg(Evaluated::Range(rows)).len() == rows.len() * w,
        flat_arg(Evaluated::Range(rows))[i * w + j] == rows[i][j],
        matrix_of(Evaluated::Range(rows))[i][j] == rows[i][j],
{
    laid_flat(rows, w);
}

proof fn laid_flat(rows: Seq<Seq<FValue>>, w: nat)
    requires
        forall|k: int| 0 <= k < rows.len() ==> (#[trigger] rows[k]).len() == w,
    ensures
        flat(rows).len() == rows.len() * w,
        forall|i: int, j: int|
            0 <= i < rows.len() && 0 <= j < w ==> flat(rows)[i * w + j] == #[trigger] rows[i][j],
    decreases rows.len(),
{
    if rows.len() > 0 {
        let fore = rows.drop_last();
        let n = fore.len();
        assert forall|k: int| 0 <= k < fore.len() implies (#[trigger] fore[k]).len() == w by {
            assert(rows[k].len() == w);
        }
        laid_flat(fore, w);
        assert(rows[rows.len() - 1].len() == w);
        assert(rows.len() * w == n * w + w) by (nonlinear_arith)
            requires
                rows.len() == n + 1,
        ;
        assert forall|i: int, j: int| 0 <= i < rows.len() && 0 <= j < w implies flat(rows)[i * w + j]
            == #[trigger] rows[i][j] by {
            if i < n {
                assert(0 <= i * w + j < n * w) by (nonlinear_arith)
                    requires
                        0 <= i < n,
                        0 <= j < w,
                ;
                assert(fore[i][j] == rows[i][j]);
            }
        }
    } else {
        assert(0 * w == 0) by (nonlinear_arith);
    }
}

/// Arguments are laid out one behind the other, a single value being a list of one.
pub proof fn arguments_are_laid_flat(args: Seq<Evaluated>, e: Evaluated, v: FValue)
    ensures
        flat_args(args.push(e)) == flat_args(args) + flat_arg(e),
        flat_args(Seq::empty()) == Seq::<FValue>::empty(),
        flat_arg(Evaluated::Value(v)) == seq![v],
        matrix_of(Evaluated::Value(v)) == seq![seq![v]],
{
    assert(args.push(e).drop_last() =~= args);
    assert(args.push(e).last() == e);
}

/// The first error among values is the one that no error stands in front of.
pub proof fn first_errors_come_first(vs: Seq<FValue>, k: int)
    ensures
        0 <= k < vs.len() && vs[k] is Error && (forall|i: int|
            0 <= i < k ==> !(#[trigger] vs[i] is Error)) ==> first_error_of(vs) == Some(
            vs[k]->Error_0,
        ),
        (forall|i: int| 0 <= i < vs.len() ==> !(#[trigger] vs[i] is Error)) ==> first_error_of(
            vs,
        ) is None,
    decreases vs.len(),
{
    if vs.len() > 0 {
        let rest = vs.skip(1);
        first_errors_come_first(rest, k - 1);
        if forall|i: int| 0 <= i < vs.len() ==> !(#[trigger] vs[i] is Error) {
            assert(!(vs[0] is Error));
            assert forall|i: int| 0 <= i < rest.len() implies !(#[trigger] rest[i] is Error) by {
                assert(!(vs[i + 1] is Error));
            }
        }
        if 0 < k < vs.len() && (forall|i: int| 0 <= i < k ==> !(#[trigger] vs[i] is Error)) {
            assert(!(vs[0] is Error));
            assert(rest[k - 1] == vs[k]);
            assert forall|i: int| 0 <= i < k - 1 implies !(#[trigger] rest[i] is Error) by {
                assert(!(vs[i + 1] is Error));
            }
        }
    }
}

/// A function is told of each argument at its place: a value with what its text reads as, or a block of
/// them, row by row.
pub proof fn arguments_are_told_in_order(args: Seq<Evaluated>, o: Oracle, i: int, r: int, c: int)
    requires
        0 <= i < args.len(),
    ensures
        told_of_args(args, o).len() == args.len(),
        args[i] matches Evaluated::Value(v) ==> (told_of_args(args, o)[i] matches Given::One(x)
            && x.value == v && x.parsed == (match v {
            FValue::Text(s) => (o.parse)(trimmed(s)),
            _ => None,
        })),
        args[i] matches Evaluated::Range(rows) ==> (told_of_args(args, o)[i] matches Given::Area(xs)
            && xs.len() == rows.len() && (0 <= r < rows.len() ==> xs[r].len() == rows[r].len() && (0
            <= c < rows[r].len() ==> xs[r][c].value == rows[r][c]))),
{
}

} // verus!
