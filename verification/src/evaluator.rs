//! Evaluation of syntax trees.
//!
//! What only the host knows (cells, names, functions) and what only floating-point hardware
//! computes (arithmetic, reading and showing numbers) the evaluator asks for, one question at a
//! time. [`Oracle`] stands for a host's answers; [`eval`] says what a tree's value is, given
//! them, and the evaluator gives that value to any host that answers accordingly.
use crate::parse::{ast_rows, ast_seq, Ast, AstNode};
use crate::text::{chars_of, find_char, position_of, same_text, slice_string, trimmed, upper};
use crate::value::{
    blank, compare_values, compared, number_of, one, text_of, to_number, to_text, zero, FValue,
    FormulaError, FormulaValue, Num,
};
use vstd::prelude::*;

verus! {

/// An evaluated expression: one value, or a range's values row by row.
#[derive(Debug)]
pub enum EvaluatedArg {
    Value(FormulaValue),
    Range(Vec<Vec<FormulaValue>>),
}

/// An evaluated expression as a mathematical value.
pub enum Evaluated {
    Value(FValue),
    Range(Seq<Seq<FValue>>),
}

/// The values of a list.
pub open spec fn value_seq(v: Seq<FormulaValue>) -> Seq<FValue> {
    Seq::new(v.len(), |i: int| v[i]@)
}

/// The values of a list of rows.
pub open spec fn value_rows(v: Seq<Vec<FormulaValue>>) -> Seq<Seq<FValue>> {
    Seq::new(v.len(), |i: int| value_seq(v[i]@))
}

impl View for EvaluatedArg {
    type V = Evaluated;

    open spec fn view(&self) -> Evaluated {
        match self {
            EvaluatedArg::Value(v) => Evaluated::Value(v@),
            EvaluatedArg::Range(rows) => Evaluated::Range(value_rows(rows@)),
        }
    }
}

/// The evaluated expressions of a list.
pub open spec fn arg_seq(v: Seq<EvaluatedArg>) -> Seq<Evaluated> {
    Seq::new(v.len(), |i: int| v[i]@)
}

/// The upper left value of a range, blank where it has none.
pub open spec fn corner(rows: Seq<Seq<FValue>>) -> FValue {
    if rows.len() > 0 && rows[0].len() > 0 {
        rows[0][0]
    } else {
        FValue::Blank
    }
}

/// An evaluated expression where one value is wanted.
pub open spec fn scalar(e: Evaluated) -> FValue {
    match e {
        Evaluated::Value(v) => v,
        Evaluated::Range(rows) => corner(rows),
    }
}

/// All values of a range, row by row.
pub open spec fn flat(rows: Seq<Seq<FValue>>) -> Seq<FValue>
    decreases rows.len(),
{
    if rows.len() == 0 {
        Seq::empty()
    } else {
        flat(rows.drop_last()) + rows.last()
    }
}

/// All values of an evaluated expression.
pub open spec fn flat_arg(e: Evaluated) -> Seq<FValue> {
    match e {
        Evaluated::Value(v) => seq![v],
        Evaluated::Range(rows) => flat(rows),
    }
}

/// All values of several evaluated expressions.
pub open spec fn flat_args(args: Seq<Evaluated>) -> Seq<FValue>
    decreases args.len(),
{
    if args.len() == 0 {
        Seq::empty()
    } else {
        flat_args(args.drop_last()) + flat_arg(args.last())
    }
}

fn push_flat(arg: &EvaluatedArg, out: &mut Vec<FormulaValue>)
    ensures
        value_seq(final(out)@) == value_seq(old(out)@) + flat_arg(arg@),
{
    let ghost before = value_seq(out@);
    match arg {
        EvaluatedArg::Value(v) => {
            out.push(v.copied());
            assert(value_seq(out@) =~= before + seq![v@]);
        },
        EvaluatedArg::Range(rows) => {
            let ghost all = value_rows(rows@);
            let mut i: usize = 0;
            assert(before + flat(all.take(0)) =~= before);
            while i < rows.len()
                invariant
                    i <= rows.len(),
                    all == value_rows(rows@),
                    value_seq(out@) == before + flat(all.take(i as int)),
                decreases rows.len() - i,
            {
                let ghost mid = value_seq(out@);
                let row: &Vec<FormulaValue> = &rows[i];
                let mut j: usize = 0;
                while j < row.len()
                    invariant
                        j <= row.len(),
                        value_seq(out@) == mid + value_seq(row@).take(j as int),
                    decreases row.len() - j,
                {
                    let ghost o = value_seq(out@);
                    out.push(row[j].copied());
                    assert(value_seq(out@) =~= o.push(value_seq(row@)[j as int]));
                    assert(value_seq(row@).take(j + 1) =~= value_seq(row@).take(j as int).push(
                        value_seq(row@)[j as int],
                    ));
                    j = j + 1;
                }
                proof {
                    assert(value_seq(row@).take(j as int) =~= value_seq(row@));
                    assert(all.take(i + 1).drop_last() =~= all.take(i as int));
                    assert(all.take(i + 1).last() == value_seq(row@));
                }
                i = i + 1;
            }
            assert(all.take(i as int) =~= all);
        },
    }
}

/// All values of an evaluated expression, a range's row by row.
pub fn flatten_arg(arg: &EvaluatedArg) -> (r: Vec<FormulaValue>)
    ensures
        value_seq(r@) == flat_arg(arg@),
{
    let mut out: Vec<FormulaValue> = Vec::new();
    push_flat(arg, &mut out);
    assert(value_seq(out@) =~= flat_arg(arg@));
    out
}

/// All values of several evaluated expressions.
pub fn flatten_args(args: &Vec<EvaluatedArg>) -> (r: Vec<FormulaValue>)
    ensures
        value_seq(r@) == flat_args(arg_seq(args@)),
{
    let ghost all = arg_seq(args@);
    let mut out: Vec<FormulaValue> = Vec::new();
    let mut i: usize = 0;
    assert(value_seq(out@) =~= flat_args(all.take(0)));
    while i < args.len()
        invariant
            i <= args.len(),
            all == arg_seq(args@),
            value_seq(out@) == flat_args(all.take(i as int)),
        decreases args.len() - i,
    {
        push_flat(&args[i], &mut out);
        assert(all.take(i + 1).drop_last() =~= all.take(i as int));
        i = i + 1;
    }
    assert(all.take(i as int) =~= all);
    out
}

/// One value of an evaluated expression: a range's upper left one, blank where there is none.
pub fn scalar_arg(arg: Option<&EvaluatedArg>) -> (r: FormulaValue)
    ensures
        r@ == (match arg {
            None => FValue::Blank,
            Some(a) => scalar(a@),
        }),
{
    match arg {
        None => FormulaValue::Blank,
        Some(EvaluatedArg::Value(v)) => v.copied(),
        Some(EvaluatedArg::Range(rows)) => {
            if rows.len() > 0 && rows[0].len() > 0 {
                rows[0][0].copied()
            } else {
                FormulaValue::Blank
            }
        },
    }
}

/// The first error among some values.
pub open spec fn first_error_of(values: Seq<FValue>) -> Option<FormulaError>
    decreases values.len(),
{
    if values.len() == 0 {
        None
    } else {
        match values[0] {
            FValue::Error(e) => Some(e),
            _ => first_error_of(values.skip(1)),
        }
    }
}

/// The first error among some values.
pub fn first_error(values: &Vec<FormulaValue>) -> (r: Option<FormulaError>)
    ensures
        r == first_error_of(value_seq(values@)),
{
    let ghost all = value_seq(values@);
    let mut i: usize = 0;
    assert(all.skip(0) =~= all);
    while i < values.len()
        invariant
            i <= values.len(),
            all == value_seq(values@),
            first_error_of(all) == first_error_of(all.skip(i as int)),
        decreases values.len() - i,
    {
        if let FormulaValue::Error(e) = &values[i] {
            return Some(*e);
        }
        assert(all.skip(i as int).skip(1) =~= all.skip(i + 1));
        i = i + 1;
    }
    None
}

/// An evaluated expression as a matrix.
pub open spec fn matrix_of(e: Evaluated) -> Seq<Seq<FValue>> {
    match e {
        Evaluated::Value(v) => seq![seq![v]],
        Evaluated::Range(rows) => rows,
    }
}

fn copy_row(row: &Vec<FormulaValue>) -> (r: Vec<FormulaValue>)
    ensures
        value_seq(r@) == value_seq(row@),
{
    let mut out: Vec<FormulaValue> = Vec::new();
    let mut i: usize = 0;
    while i < row.len()
        invariant
            i <= row.len(),
            value_seq(out@) == value_seq(row@).take(i as int),
        decreases row.len() - i,
    {
        let ghost o = value_seq(out@);
        out.push(row[i].copied());
        assert(value_seq(out@) =~= o.push(value_seq(row@)[i as int]));
        assert(value_seq(row@).take(i + 1) =~= o.push(value_seq(row@)[i as int]));
        i = i + 1;
    }
    assert(value_seq(row@).take(i as int) =~= value_seq(row@));
    out
}

/// An evaluated expression as a matrix, a single value being one of one row and one column.
pub fn as_matrix(arg: Option<&EvaluatedArg>) -> (r: Vec<Vec<FormulaValue>>)
    ensures
        value_rows(r@) == (match arg {
            None => seq![seq![FValue::Blank]],
            Some(a) => matrix_of(a@),
        }),
{
    let mut out: Vec<Vec<FormulaValue>> = Vec::new();
    match arg {
        Some(EvaluatedArg::Range(rows)) => {
            let ghost all = value_rows(rows@);
            let mut i: usize = 0;
            while i < rows.len()
                invariant
                    i <= rows.len(),
                    all == value_rows(rows@),
                    value_rows(out@) == all.take(i as int),
                decreases rows.len() - i,
            {
                let ghost o = value_rows(out@);
                out.push(copy_row(&rows[i]));
                assert(value_rows(out@) =~= o.push(all[i as int]));
                assert(all.take(i + 1) =~= o.push(all[i as int]));
                i = i + 1;
            }
            assert(all.take(i as int) =~= all);
        },
        _ => {
            let mut row: Vec<FormulaValue> = Vec::new();
            row.push(scalar_arg(arg));
            let ghost one_row = row@;
            out.push(row);
            assert(value_seq(one_row) =~= seq![one_row[0]@]);
            assert(value_rows(out@) =~= seq![value_seq(one_row)]);
        },
    }
    out
}

/// The two ends of a range's text, cut at its first colon.
pub open spec fn spec_split_top_range(reference: Seq<char>) -> Option<(Seq<char>, Seq<char>)> {
    match find_char(reference, ':', 0) {
        Some(i) => Some((reference.take(i), reference.skip(i + 1))),
        None => None,
    }
}

/// The two ends of a range's text, cut at its first colon; none for a single cell.
pub fn split_top_range(reference: &str) -> (r: Option<(String, String)>)
    ensures
        match spec_split_top_range(reference@) {
            Some((a, b)) => r matches Some((x, y)) && x@ == a && y@ == b,
            None => r is None,
        },
{
    let chars: Vec<char> = chars_of(reference);
    match position_of(&chars, ':', 0) {
        Some(i) => Some((slice_string(&chars, 0, i), slice_string(&chars, i + 1, chars.len()))),
        None => None,
    }
}

/// A host's answers, and the arithmetic of its numbers.
pub struct Oracle {
    /// The value of a cell.
    pub cell: spec_fn(Seq<char>) -> FValue,
    /// The values of a range, by its two ends.
    pub range: spec_fn(Seq<char>, Seq<char>) -> Seq<Seq<FValue>>,
    /// The reference that a name stands for.
    pub name_ref: spec_fn(Seq<char>) -> Option<Seq<char>>,
    /// The value that a name stands for.
    pub name_value: spec_fn(Seq<char>) -> Option<FValue>,
    /// Whether there is a function of a name.
    pub known: spec_fn(Seq<char>) -> bool,
    /// What a function gives.
    pub call: spec_fn(Seq<char>, Seq<Evaluated>) -> FValue,
    /// The number that a text reads as.
    pub parse: spec_fn(Seq<char>) -> Option<Num>,
    /// How a number is shown.
    pub show: spec_fn(Num) -> Seq<char>,
    /// What `-x` or `x%` gives.
    pub arith1: spec_fn(Seq<char>, Num) -> Num,
    /// What `+ - * / ^` gives.
    pub arith2: spec_fn(Seq<char>, Num, Num) -> Num,
}

impl Oracle {
    /// The number that a value's text reads as.
    pub open spec fn parsed(self, v: FValue) -> Option<Num> {
        match v {
            FValue::Text(s) => (self.parse)(trimmed(s)),
            _ => None,
        }
    }

    /// How a value's number is shown.
    pub open spec fn shown(self, v: FValue) -> Seq<char> {
        match v {
            FValue::Number(n) => (self.show)(n),
            _ => Seq::empty(),
        }
    }
}

/// A value or an error.
pub open spec fn number_or(r: Result<Num, FormulaError>) -> FValue {
    match r {
        Ok(n) => FValue::Number(n),
        Err(e) => FValue::Error(e),
    }
}

/// What a unary operator gives for a value.
pub open spec fn unary(op: Seq<char>, v: FValue, o: Oracle) -> FValue {
    if v is Error {
        v
    } else if op == "-"@ || op == "%"@ {
        match number_of(v, o.parsed(v)) {
            Ok(n) => FValue::Number((o.arith1)(op, n)),
            Err(e) => FValue::Error(e),
        }
    } else {
        v
    }
}

/// Whether an operator compares.
pub open spec fn compares(op: Seq<char>) -> bool {
    op == "="@ || op == "<>"@ || op == "<"@ || op == ">"@ || op == "<="@ || op == ">="@
}

/// Whether an operator computes.
pub open spec fn computes(op: Seq<char>) -> bool {
    op == "+"@ || op == "-"@ || op == "*"@ || op == "/"@ || op == "^"@
}

/// What an operator gives for two numbers. Division by zero and an infinite power are errors.
pub open spec fn arithmetic(op: Seq<char>, a: Num, b: Num, o: Oracle) -> FValue {
    if op == "/"@ && b.rank() == 0 {
        FValue::Error(FormulaError::Div0)
    } else if !computes(op) {
        FValue::Error(FormulaError::Value)
    } else {
        power_checked(op, (o.arith2)(op, a, b))
    }
}

/// An operator's numeric result: an infinite power is an error.
pub open spec fn power_checked(op: Seq<char>, n: Num) -> FValue {
    if op == "^"@ && !n.finite() {
        FValue::Error(FormulaError::Num)
    } else {
        FValue::Number(n)
    }
}

/// Two values joined as texts; the first error of the two comes out.
pub open spec fn joined(
    a: Result<Seq<char>, FormulaError>,
    b: Result<Seq<char>, FormulaError>,
) -> FValue {
    match a {
        Err(e) => FValue::Error(e),
        Ok(x) => match b {
            Err(e) => FValue::Error(e),
            Ok(y) => FValue::Text(x + y),
        },
    }
}

/// What a binary operator gives for two values.
pub open spec fn binary(op: Seq<char>, a: FValue, b: FValue, o: Oracle) -> FValue {
    if a is Error {
        a
    } else if b is Error {
        b
    } else if compares(op) {
        match compared(a, b, op) {
            Ok(r) => FValue::Bool(r),
            Err(e) => FValue::Error(e),
        }
    } else if op == "&"@ {
        joined(text_of(a, o.shown(a)), text_of(b, o.shown(b)))
    } else {
        match number_of(a, o.parsed(a)) {
            Err(e) => FValue::Error(e),
            Ok(x) => match number_of(b, o.parsed(b)) {
                Err(e) => FValue::Error(e),
                Ok(y) => arithmetic(op, x, y, o),
            },
        }
    }
}

/// What a reference text stands for: a range where it has a colon, a cell otherwise.
pub open spec fn referred(r: Seq<char>, o: Oracle) -> Evaluated {
    match spec_split_top_range(r) {
        Some((start, end)) => Evaluated::Range((o.range)(start, end)),
        None => Evaluated::Value((o.cell)(r)),
    }
}

/// What a name that is no truth value and no reference stands for.
pub open spec fn named(name: Seq<char>, o: Oracle) -> Evaluated {
    match (o.name_value)(name) {
        Some(v) => Evaluated::Value(v),
        None => Evaluated::Value(FValue::Error(FormulaError::Name)),
    }
}

/// What a name stands for.
pub open spec fn name_eval(name: Seq<char>, o: Oracle) -> Evaluated {
    if upper(name) == "TRUE"@ {
        Evaluated::Value(FValue::Bool(true))
    } else if upper(name) == "FALSE"@ {
        Evaluated::Value(FValue::Bool(false))
    } else {
        match (o.name_ref)(name) {
            Some(r) => referred(r, o),
            None => named(name, o),
        }
    }
}

/// A numeric literal's value.
pub open spec fn literal(text: Seq<char>, o: Oracle) -> FValue {
    FValue::Number(
        match (o.parse)(text) {
            Some(n) => n,
            None => zero(),
        },
    )
}

/// The value of a syntax tree.
pub open spec fn eval(node: Ast, o: Oracle) -> Evaluated
    decreases node,
{
    match node {
        Ast::Number(t) => Evaluated::Value(literal(t, o)),
        Ast::Str(s) => Evaluated::Value(FValue::Text(s)),
        Ast::Name(n) => name_eval(n, o),
        Ast::Ref(r) => Evaluated::Value((o.cell)(r)),
        Ast::Range { start, end } => Evaluated::Range((o.range)(start, end)),
        Ast::Array(rows) => Evaluated::Range(
            Seq::new(
                rows.len(),
                |i: int|
                    if 0 <= i < rows.len() {
                        Seq::new(
                            rows[i].len(),
                            |j: int|
                                if 0 <= j < rows[i].len() {
                                    scalar(eval(rows[i][j], o))
                                } else {
                                    arbitrary()
                                },
                        )
                    } else {
                        arbitrary()
                    },
            ),
        ),
        Ast::Unary { op, operand } => Evaluated::Value(unary(op, scalar(eval(*operand, o)), o)),
        Ast::Binary { op, left, right } => Evaluated::Value(
            binary(op, scalar(eval(*left, o)), scalar(eval(*right, o)), o),
        ),
        Ast::Call { name, args } => if (o.known)(name) {
            Evaluated::Value((o.call)(name, evals(args, o)))
        } else {
            Evaluated::Value(FValue::Error(FormulaError::Name))
        },
    }
}

/// The values of several trees.
pub open spec fn evals(nodes: Seq<Ast>, o: Oracle) -> Seq<Evaluated>
    decreases nodes,
{
    Seq::new(
        nodes.len(),
        |i: int|
            if 0 <= i < nodes.len() {
                eval(nodes[i], o)
            } else {
                arbitrary()
            },
    )
}

/// What the evaluator asks of its host.
#[derive(Debug)]
pub enum Query {
    /// The number that a literal reads as.
    Literal(String),
    Cell(String),
    Range(String, String),
    NameRef(String),
    NameValue(String),
    /// Whether there is a function of this name.
    Known(String),
    Call(String, Vec<EvaluatedArg>),
    /// The number that the trimmed text of each value reads as, if it is a text.
    Numbers(FormulaValue, FormulaValue),
    /// How each value's number is shown, if it is a number.
    Shown(FormulaValue, FormulaValue),
    /// `-x` or `x%`.
    Arith1(String, Num),
    /// One of `+ - * / ^`.
    Arith2(String, Num, Num),
}

/// A host's answer to a [`Query`].
#[derive(Debug)]
pub enum Reply {
    Parsed(Option<Num>),
    Value(FormulaValue),
    Rows(Vec<Vec<FormulaValue>>),
    Reference(Option<String>),
    Named(Option<FormulaValue>),
    Truth(bool),
    Numbers(Option<Num>, Option<Num>),
    Shown(String, String),
    Number(Num),
}

/// A question as a mathematical value.
pub enum Question {
    Literal(Seq<char>),
    Cell(Seq<char>),
    Range(Seq<char>, Seq<char>),
    NameRef(Seq<char>),
    NameValue(Seq<char>),
    Known(Seq<char>),
    Call(Seq<char>, Seq<Evaluated>),
    Numbers(FValue, FValue),
    Shown(FValue, FValue),
    Arith1(Seq<char>, Num),
    Arith2(Seq<char>, Num, Num),
}

impl View for Query {
    type V = Question;

    open spec fn view(&self) -> Question {
        match self {
            Query::Literal(t) => Question::Literal(t@),
            Query::Cell(r) => Question::Cell(r@),
            Query::Range(a, b) => Question::Range(a@, b@),
            Query::NameRef(n) => Question::NameRef(n@),
            Query::NameValue(n) => Question::NameValue(n@),
            Query::Known(n) => Question::Known(n@),
            Query::Call(n, args) => Question::Call(n@, arg_seq(args@)),
            Query::Numbers(a, b) => Question::Numbers(a@, b@),
            Query::Shown(a, b) => Question::Shown(a@, b@),
            Query::Arith1(op, n) => Question::Arith1(op@, *n),
            Query::Arith2(op, a, b) => Question::Arith2(op@, *a, *b),
        }
    }
}

/// Whether a reply is what a host's oracle says to a question.
pub open spec fn answers(o: Oracle, q: Question, r: Reply) -> bool {
    match q {
        Question::Literal(t) => r == Reply::Parsed((o.parse)(t)),
        Question::Cell(c) => r matches Reply::Value(v) && v@ == (o.cell)(c),
        Question::Range(a, b) => r matches Reply::Rows(rows) && value_rows(rows@) == (o.range)(a, b),
        Question::NameRef(n) => r matches Reply::Reference(x) && (match (o.name_ref)(n) {
            Some(t) => x matches Some(s) && s@ == t,
            None => x is None,
        }),
        Question::NameValue(n) => r matches Reply::Named(x) && (match (o.name_value)(n) {
            Some(v) => x matches Some(w) && w@ == v,
            None => x is None,
        }),
        Question::Known(n) => r == Reply::Truth((o.known)(n)),
        Question::Call(n, args) => r matches Reply::Value(v) && v@ == (o.call)(n, args),
        Question::Numbers(a, b) => r == Reply::Numbers(o.parsed(a), o.parsed(b)),
        Question::Shown(a, b) => r matches Reply::Shown(x, y) && x@ == o.shown(a) && y@ == o.shown(b),
        Question::Arith1(op, n) => r == Reply::Number((o.arith1)(op, n)),
        Question::Arith2(op, a, b) => r == Reply::Number((o.arith2)(op, a, b)),
    }
}

/// Whether a reply is of the kind that a question asks for.
pub open spec fn fitting(q: Question, r: Reply) -> bool {
    match q {
        Question::Literal(_) => r is Parsed,
        Question::Cell(_) => r is Value,
        Question::Range(_, _) => r is Rows,
        Question::NameRef(_) => r is Reference,
        Question::NameValue(_) => r is Named,
        Question::Known(_) => r is Truth,
        Question::Call(_, _) => r is Value,
        Question::Numbers(_, _) => r is Numbers,
        Question::Shown(_, _) => r is Shown,
        Question::Arith1(_, _) => r is Number,
        Question::Arith2(_, _, _) => r is Number,
    }
}

/// Whether a question is a call of a function.
pub open spec fn calls(name: Seq<char>, q: Question) -> bool {
    q matches Question::Call(n, _) && n == name
}

/// Whether a question is for what a unary operator gives.
pub open spec fn computes1(op: Seq<char>, q: Question) -> bool {
    q matches Question::Arith1(p, _) && p == op
}

/// Whether a question is for what a binary operator gives.
pub open spec fn computes2(op: Seq<char>, q: Question) -> bool {
    q matches Question::Arith2(p, _, _) && p == op
}

/// Whether a unary operator may ask a question.
pub open spec fn unary_asks(op: Seq<char>, q: Question) -> bool {
    (op == "-"@ || op == "%"@) && (q is Numbers || computes1(op, q))
}

/// Whether a binary operator may ask a question.
pub open spec fn binary_asks(op: Seq<char>, q: Question) -> bool {
    if compares(op) {
        false
    } else if op == "&"@ {
        q is Shown
    } else {
        q is Numbers || computes2(op, q)
    }
}

/// Whether a name may ask a question.
pub open spec fn name_asks(name: Seq<char>, q: Question) -> bool {
    upper(name) != "TRUE"@ && upper(name) != "FALSE"@ && (q == Question::NameRef(name) || q
        == Question::NameValue(name))
}

/// Whether a tree may ask a question of its host, cells and ranges apart: for its literals and
/// names, for the functions that it calls itself, and for what its operators give.
pub open spec fn may_ask(node: Ast, q: Question) -> bool
    decreases node,
{
    match node {
        Ast::Number(t) => q == Question::Literal(t),
        Ast::Str(_) => false,
        Ast::Name(n) => name_asks(n, q),
        Ast::Ref(_) => false,
        Ast::Range { .. } => false,
        Ast::Array(rows) => exists|i: int, j: int|
            0 <= i < rows.len() && 0 <= j < rows[i].len() && may_ask(#[trigger] rows[i][j], q),
        Ast::Unary { op, operand } => unary_asks(op, q) || may_ask(*operand, q),
        Ast::Binary { op, left, right } => binary_asks(op, q) || may_ask(*left, q) || may_ask(
            *right,
            q,
        ),
        Ast::Call { name, args } => q == Question::Known(name) || calls(name, q) || exists|i: int|
            0 <= i < args.len() && may_ask(#[trigger] args[i], q),
    }
}

/// What the evaluator still has to do, latest first.
pub enum Todo {
    /// Evaluate a tree.
    Eval(Ast),
    /// Apply an operator to the topmost value.
    Unary(Seq<char>),
    /// Apply an operator to the two topmost values.
    Binary(Seq<char>),
    /// Make a row of an array of the topmost values.
    Row(nat),
    /// Make an array of the topmost rows.
    Rows(nat),
    /// Call a function with the topmost values.
    Call(Seq<char>, nat),
}

/// The first row of a range.
pub open spec fn first_row(e: Evaluated) -> Seq<FValue> {
    match e {
        Evaluated::Value(v) => seq![v],
        Evaluated::Range(rows) => if rows.len() > 0 {
            rows[0]
        } else {
            Seq::empty()
        },
    }
}

/// The values after one thing was done.
pub open spec fn done(t: Todo, vals: Seq<Evaluated>, o: Oracle) -> Seq<Evaluated> {
    let n = vals.len() as int;
    match t {
        Todo::Eval(a) => vals.push(eval(a, o)),
        Todo::Unary(op) => vals.drop_last().push(
            Evaluated::Value(unary(op, scalar(vals[n - 1]), o)),
        ),
        Todo::Binary(op) => vals.take(n - 2).push(
            Evaluated::Value(binary(op, scalar(vals[n - 2]), scalar(vals[n - 1]), o)),
        ),
        Todo::Row(k) => vals.take(n - k).push(
            Evaluated::Range(seq![Seq::new(k, |i: int| scalar(vals[n - k + i]))]),
        ),
        Todo::Rows(k) => vals.take(n - k).push(
            Evaluated::Range(Seq::new(k, |i: int| first_row(vals[n - k + i]))),
        ),
        Todo::Call(name, k) => vals.take(n - k).push(
            Evaluated::Value((o.call)(name, vals.skip(n - k))),
        ),
    }
}

/// The values after everything was done.
pub open spec fn finish(todo: Seq<Todo>, vals: Seq<Evaluated>, o: Oracle) -> Seq<Evaluated>
    decreases todo.len(),
{
    if todo.len() == 0 {
        vals
    } else {
        finish(todo.drop_last(), done(todo.last(), vals, o), o)
    }
}

/// Whether what is to be done finds its operands among `n` values and leaves one.
pub open spec fn balanced(todo: Seq<Todo>, n: int) -> bool
    decreases todo.len(),
{
    if todo.len() == 0 {
        n == 1
    } else {
        match todo.last() {
            Todo::Eval(_) => balanced(todo.drop_last(), n + 1),
            Todo::Unary(_) => n >= 1 && balanced(todo.drop_last(), n),
            Todo::Binary(_) => n >= 2 && balanced(todo.drop_last(), n - 1),
            Todo::Row(k) => n >= k && balanced(todo.drop_last(), n - k + 1),
            Todo::Rows(k) => n >= k && balanced(todo.drop_last(), n - k + 1),
            Todo::Call(_, k) => n >= k && balanced(todo.drop_last(), n - k + 1),
        }
    }
}

/// A list of trees to be evaluated, the first one latest.
pub open spec fn eval_list(nodes: Seq<Ast>) -> Seq<Todo> {
    Seq::new(nodes.len(), |i: int| Todo::Eval(nodes[nodes.len() - 1 - i]))
}

pub proof fn finish_list(todo: Seq<Todo>, nodes: Seq<Ast>, vals: Seq<Evaluated>, o: Oracle)
    ensures
        finish(todo + eval_list(nodes), vals, o) == finish(todo, vals + evals(nodes, o), o),
    decreases nodes.len(),
{
    if nodes.len() == 0 {
        assert(todo + eval_list(nodes) =~= todo);
        assert(vals + evals(nodes, o) =~= vals);
    } else {
        let all = todo + eval_list(nodes);
        let rest = nodes.skip(1);
        assert(all.last() == Todo::Eval(nodes[0]));
        assert(all.drop_last() =~= todo + eval_list(rest));
        let next = vals.push(eval(nodes[0], o));
        finish_list(todo, rest, next, o);
        assert(next + evals(rest, o) =~= vals + evals(nodes, o));
    }
}

pub proof fn balanced_list(todo: Seq<Todo>, nodes: Seq<Ast>, n: int)
    ensures
        balanced(todo + eval_list(nodes), n) == balanced(todo, n + nodes.len()),
    decreases nodes.len(),
{
    if nodes.len() == 0 {
        assert(todo + eval_list(nodes) =~= todo);
    } else {
        let all = todo + eval_list(nodes);
        assert(all.last() == Todo::Eval(nodes[0]));
        assert(all.drop_last() =~= todo + eval_list(nodes.skip(1)));
        balanced_list(todo, nodes.skip(1), n + 1);
    }
}

/// The rows of an array to be evaluated, the first one latest.
pub open spec fn array_list(rows: Seq<Seq<Ast>>) -> Seq<Todo>
    decreases rows.len(),
{
    if rows.len() == 0 {
        Seq::empty()
    } else {
        array_list(rows.skip(1)).push(Todo::Row(rows[0].len())) + eval_list(rows[0])
    }
}

/// A row of an array, evaluated.
pub open spec fn row_eval(row: Seq<Ast>, o: Oracle) -> Evaluated {
    Evaluated::Range(seq![Seq::new(row.len(), |j: int| scalar(eval(row[j], o)))])
}

/// The rows of an array, evaluated.
pub open spec fn rows_eval(rows: Seq<Seq<Ast>>, o: Oracle) -> Seq<Evaluated> {
    Seq::new(rows.len(), |i: int| row_eval(rows[i], o))
}

proof fn finish_array(todo: Seq<Todo>, rows: Seq<Seq<Ast>>, vals: Seq<Evaluated>, o: Oracle)
    ensures
        finish(todo + array_list(rows), vals, o) == finish(todo, vals + rows_eval(rows, o), o),
    decreases rows.len(),
{
    if rows.len() == 0 {
        assert(todo + array_list(rows) =~= todo);
        assert(vals + rows_eval(rows, o) =~= vals);
    } else {
        let rest = array_list(rows.skip(1));
        let row = rows[0];
        let base = (todo + rest).push(Todo::Row(row.len()));
        assert(todo + array_list(rows) =~= base + eval_list(row));
        finish_list(base, row, vals, o);
        let mid = vals + evals(row, o);
        assert(base.last() == Todo::Row(row.len()));
        assert(base.drop_last() =~= todo + rest);
        let next = done(Todo::Row(row.len()), mid, o);
        assert(mid.take(mid.len() - row.len()) =~= vals);
        assert(Seq::new(row.len(), |i: int| scalar(mid[mid.len() - row.len() + i])) =~= Seq::new(
            row.len(),
            |j: int| scalar(eval(row[j], o)),
        ));
        assert(next == vals.push(row_eval(row, o)));
        finish_array(todo, rows.skip(1), next, o);
        assert(next + rows_eval(rows.skip(1), o) =~= vals + rows_eval(rows, o));
    }
}

proof fn balanced_array(todo: Seq<Todo>, rows: Seq<Seq<Ast>>, n: int)
    requires
        n >= 0,
    ensures
        balanced(todo + array_list(rows), n) == balanced(todo, n + rows.len()),
    decreases rows.len(),
{
    if rows.len() == 0 {
        assert(todo + array_list(rows) =~= todo);
    } else {
        let rest = array_list(rows.skip(1));
        let row = rows[0];
        let base = (todo + rest).push(Todo::Row(row.len()));
        assert(todo + array_list(rows) =~= base + eval_list(row));
        balanced_list(base, row, n);
        assert(base.last() == Todo::Row(row.len()));
        assert(base.drop_last() =~= todo + rest);
        balanced_array(todo, rows.skip(1), n + 1);
    }
}

/// An upper bound on the work that a tree makes.
spec fn work(node: Ast) -> nat
    decreases node,
{
    match node {
        Ast::Unary { operand, .. } => 6 + work(*operand),
        Ast::Binary { left, right, .. } => 6 + work(*left) + work(*right),
        Ast::Array(rows) => 2 + work_rows(rows),
        Ast::Call { args, .. } => 8 + work_list(args),
        _ => 8,
    }
}

spec fn work_list(nodes: Seq<Ast>) -> nat
    decreases nodes,
{
    if nodes.len() == 0 {
        0
    } else {
        work(nodes[0]) + work_list(nodes.subrange(1, nodes.len() as int))
    }
}

spec fn work_rows(rows: Seq<Seq<Ast>>) -> nat
    decreases rows,
{
    if rows.len() == 0 {
        0
    } else {
        1 + work_list(rows[0]) + work_rows(rows.subrange(1, rows.len() as int))
    }
}

spec fn work_of(t: Todo) -> nat {
    match t {
        Todo::Eval(a) => work(a),
        Todo::Row(_) | Todo::Rows(_) => 1,
        _ => 4,
    }
}

spec fn work_left(todo: Seq<Todo>) -> nat
    decreases todo.len(),
{
    if todo.len() == 0 {
        0
    } else {
        work_left(todo.drop_last()) + work_of(todo.last())
    }
}

proof fn work_left_list(todo: Seq<Todo>, nodes: Seq<Ast>)
    ensures
        work_left(todo + eval_list(nodes)) == work_left(todo) + work_list(nodes),
    decreases nodes.len(),
{
    if nodes.len() == 0 {
        assert(todo + eval_list(nodes) =~= todo);
    } else {
        let all = todo + eval_list(nodes);
        assert(all.last() == Todo::Eval(nodes[0]));
        assert(all.drop_last() =~= todo + eval_list(nodes.skip(1)));
        assert(nodes.skip(1) == nodes.subrange(1, nodes.len() as int));
        work_left_list(todo, nodes.skip(1));
    }
}

proof fn work_left_array(todo: Seq<Todo>, rows: Seq<Seq<Ast>>)
    ensures
        work_left(todo + array_list(rows)) == work_left(todo) + work_rows(rows),
    decreases rows.len(),
{
    if rows.len() == 0 {
        assert(todo + array_list(rows) =~= todo);
    } else {
        let rest = array_list(rows.skip(1));
        let base = (todo + rest).push(Todo::Row(rows[0].len()));
        assert(todo + array_list(rows) =~= base + eval_list(rows[0]));
        work_left_list(base, rows[0]);
        assert(base.last() == Todo::Row(rows[0].len()));
        assert(base.drop_last() =~= todo + rest);
        assert(rows.skip(1) == rows.subrange(1, rows.len() as int));
        work_left_array(todo, rows.skip(1));
    }
}

spec fn todo_asks(t: Todo, q: Question) -> bool {
    match t {
        Todo::Eval(a) => may_ask(a, q),
        Todo::Unary(op) => unary_asks(op, q),
        Todo::Binary(op) => binary_asks(op, q),
        Todo::Row(_) => false,
        Todo::Rows(_) => false,
        Todo::Call(name, _) => calls(name, q),
    }
}

spec fn list_asks(todo: Seq<Todo>, q: Question) -> bool {
    exists|i: int| 0 <= i < todo.len() && todo_asks(#[trigger] todo[i], q)
}

spec fn nodes_ask(nodes: Seq<Ast>, q: Question) -> bool {
    exists|i: int| 0 <= i < nodes.len() && may_ask(#[trigger] nodes[i], q)
}

proof fn push_asks(todo: Seq<Todo>, t: Todo)
    ensures
        forall|q: Question| #[trigger]
            list_asks(todo.push(t), q) <==> list_asks(todo, q) || todo_asks(t, q),
{
    let all = todo.push(t);
    assert forall|q: Question| #[trigger]
        list_asks(all, q) <==> list_asks(todo, q) || todo_asks(t, q) by {
        if list_asks(all, q) {
            let i = choose|i: int| 0 <= i < all.len() && todo_asks(#[trigger] all[i], q);
            if i < todo.len() {
                assert(todo[i] == all[i]);
            }
        }
        if list_asks(todo, q) {
            let i = choose|i: int| 0 <= i < todo.len() && todo_asks(#[trigger] todo[i], q);
            assert(all[i] == todo[i]);
        }
        if todo_asks(t, q) {
            assert(all[todo.len() as int] == t);
        }
    }
}

proof fn list_asks_nodes(todo: Seq<Todo>, nodes: Seq<Ast>)
    ensures
        forall|q: Question| #[trigger]
            list_asks(todo + eval_list(nodes), q) ==> list_asks(todo, q) || nodes_ask(nodes, q),
{
    let all = todo + eval_list(nodes);
    assert forall|q: Question| #[trigger] list_asks(all, q) implies list_asks(todo, q) || nodes_ask(
        nodes,
        q,
    ) by {
        let i = choose|i: int| 0 <= i < all.len() && todo_asks(#[trigger] all[i], q);
        if i < todo.len() {
            assert(todo[i] == all[i]);
        } else {
            let n = eval_list(nodes);
            let k = i - todo.len();
            assert(n[k] == all[i]);
            assert(exists|j: int| 0 <= j < nodes.len() && n[k] == Todo::Eval(#[trigger] nodes[j])) by {
                assert(n[k] == Todo::Eval(nodes[nodes.len() - 1 - k]));
            }
        }
    }
}

proof fn part_asks(node: Ast, rows: Seq<Seq<Ast>>, i: int, j: int, q: Question)
    requires
        node == Ast::Array(rows),
        0 <= i < rows.len(),
        0 <= j < rows[i].len(),
        may_ask(rows[i][j], q),
    ensures
        may_ask(node, q),
{
    match node {
        Ast::Array(list) => {
            assert(may_ask(list[i][j], q));
            assert(exists|x: int, y: int|
                0 <= x < list.len() && 0 <= y < list[x].len() && may_ask(#[trigger] list[x][y], q));
        },
        _ => {},
    }
}

proof fn list_asks_rows(todo: Seq<Todo>, rows: Seq<Seq<Ast>>)
    ensures
        forall|q: Question| #[trigger]
            list_asks(todo + array_list(rows), q) ==> list_asks(todo, q) || may_ask(
                Ast::Array(rows),
                q,
            ),
    decreases rows.len(),
{
    if rows.len() == 0 {
        assert(todo + array_list(rows) =~= todo);
    } else {
        let tail = rows.skip(1);
        let base = (todo + array_list(tail)).push(Todo::Row(rows[0].len()));
        assert(todo + array_list(rows) =~= base + eval_list(rows[0]));
        list_asks_rows(todo, tail);
        push_asks(todo + array_list(tail), Todo::Row(rows[0].len()));
        list_asks_nodes(base, rows[0]);
        assert forall|q: Question| #[trigger]
            list_asks(todo + array_list(rows), q) implies list_asks(todo, q) || may_ask(
            Ast::Array(rows),
            q,
        ) by {
            assert(list_asks(base + eval_list(rows[0]), q));
            if nodes_ask(rows[0], q) {
                let j = choose|j: int| 0 <= j < rows[0].len() && may_ask(#[trigger] rows[0][j], q);
                part_asks(Ast::Array(rows), rows, 0, j, q);
            } else if !list_asks(todo, q) {
                assert(list_asks(base, q));
                assert(list_asks(todo + array_list(tail), q));
                assert(may_ask(Ast::Array(tail), q));
                let (i, j) = choose|i: int, j: int|
                    0 <= i < tail.len() && 0 <= j < tail[i].len() && may_ask(
                        #[trigger] tail[i][j],
                        q,
                    );
                assert(rows[i + 1][j] == tail[i][j]);
                part_asks(Ast::Array(rows), rows, i + 1, j, q);
            }
        }
    }
}

enum Task<'a> {
    Eval(&'a AstNode),
    Unary(String),
    Binary(String),
    Row(usize),
    Rows(usize),
    Call(String, usize),
}

spec fn todo_of(t: Task) -> Todo {
    match t {
        Task::Eval(a) => Todo::Eval(a.view()),
        Task::Unary(op) => Todo::Unary(op@),
        Task::Binary(op) => Todo::Binary(op@),
        Task::Row(k) => Todo::Row(k as nat),
        Task::Rows(k) => Todo::Rows(k as nat),
        Task::Call(n, k) => Todo::Call(n@, k as nat),
    }
}

spec fn todo_seq(tasks: Seq<Task>) -> Seq<Todo> {
    Seq::new(tasks.len(), |i: int| todo_of(tasks[i]))
}

/// A value that waits for a reply.
enum Wait<'a> {
    Literal(String),
    Cell(String),
    Range(String, String),
    NameRef(String),
    NameValue(String),
    Known(String, &'a Vec<AstNode>),
    Call(String, Ghost<Seq<Evaluated>>),
    Unary(String, FormulaValue),
    Arith1(String, Num),
    Binary(String, FormulaValue, FormulaValue),
    Shown(FormulaValue, FormulaValue),
    Arith2(String, Num, Num),
}

spec fn wait_value(w: Wait, o: Oracle) -> Evaluated {
    match w {
        Wait::Literal(t) => Evaluated::Value(literal(t@, o)),
        Wait::Cell(r) => Evaluated::Value((o.cell)(r@)),
        Wait::Range(a, b) => Evaluated::Range((o.range)(a@, b@)),
        Wait::NameRef(n) => match (o.name_ref)(n@) {
            Some(r) => referred(r, o),
            None => named(n@, o),
        },
        Wait::NameValue(n) => named(n@, o),
        Wait::Known(n, args) => if (o.known)(n@) {
            Evaluated::Value((o.call)(n@, evals(ast_seq(args@), o)))
        } else {
            Evaluated::Value(FValue::Error(FormulaError::Name))
        },
        Wait::Call(n, args) => Evaluated::Value((o.call)(n@, args@)),
        Wait::Unary(op, v) => Evaluated::Value(
            match number_of(v@, o.parsed(v@)) {
                Ok(n) => FValue::Number((o.arith1)(op@, n)),
                Err(e) => FValue::Error(e),
            },
        ),
        Wait::Arith1(op, n) => Evaluated::Value(FValue::Number((o.arith1)(op@, n))),
        Wait::Binary(op, a, b) => Evaluated::Value(
            match number_of(a@, o.parsed(a@)) {
                Err(e) => FValue::Error(e),
                Ok(x) => match number_of(b@, o.parsed(b@)) {
                    Err(e) => FValue::Error(e),
                    Ok(y) => arithmetic(op@, x, y, o),
                },
            },
        ),
        Wait::Shown(a, b) => Evaluated::Value(
            joined(text_of(a@, o.shown(a@)), text_of(b@, o.shown(b@))),
        ),
        Wait::Arith2(op, a, b) => Evaluated::Value(power_checked(op@, (o.arith2)(op@, a, b))),
    }
}

spec fn wait_question(w: Wait) -> Question {
    match w {
        Wait::Literal(t) => Question::Literal(t@),
        Wait::Cell(r) => Question::Cell(r@),
        Wait::Range(a, b) => Question::Range(a@, b@),
        Wait::NameRef(n) => Question::NameRef(n@),
        Wait::NameValue(n) => Question::NameValue(n@),
        Wait::Known(n, args) => Question::Known(n@),
        Wait::Call(n, args) => Question::Call(n@, args@),
        Wait::Unary(op, v) => Question::Numbers(v@, FValue::Blank),
        Wait::Arith1(op, n) => Question::Arith1(op@, n),
        Wait::Binary(op, a, b) => Question::Numbers(a@, b@),
        Wait::Shown(a, b) => Question::Shown(a@, b@),
        Wait::Arith2(op, a, b) => Question::Arith2(op@, a, b),
    }
}

/// Whether a value that waits may ask a question, cells and ranges apart.
spec fn wait_asks(w: Wait, q: Question) -> bool {
    match w {
        Wait::Literal(t) => q == Question::Literal(t@),
        Wait::Cell(_) => false,
        Wait::Range(_, _) => false,
        Wait::NameRef(n) => q == Question::NameRef(n@) || q == Question::NameValue(n@),
        Wait::NameValue(n) => q == Question::NameValue(n@),
        Wait::Known(n, args) => q == Question::Known(n@) || calls(n@, q) || nodes_ask(
            ast_seq(args@),
            q,
        ),
        Wait::Call(n, _) => calls(n@, q),
        Wait::Unary(op, _) => q is Numbers || computes1(op@, q),
        Wait::Arith1(op, _) => computes1(op@, q),
        Wait::Binary(op, _, _) => q is Numbers || computes2(op@, q),
        Wait::Shown(_, _) => q is Shown,
        Wait::Arith2(op, _, _) => computes2(op@, q),
    }
}

proof fn waits_for(w: Wait)
    ensures
        wait_question(w) is Cell || wait_question(w) is Range || wait_asks(w, wait_question(w)),
{
}

/// An upper bound on the work that a reply makes.
spec fn wait_work(w: Wait) -> nat {
    match w {
        Wait::NameRef(_) => 3,
        Wait::Known(_, args) => 6 + work_list(ast_seq(args@)),
        Wait::Unary(_, _) | Wait::Binary(_, _, _) => 2,
        _ => 1,
    }
}

/// What an evaluator does next: ask its host, or end with a value.
pub enum Step {
    Ask(Query),
    Done(EvaluatedArg),
}

/// An evaluation under way.
pub struct Evaluator<'a> {
    tasks: Vec<Task<'a>>,
    values: Vec<EvaluatedArg>,
    wait: Option<Wait<'a>>,
}

/// What a step amounts to: a value that waits for a reply, or a value.
enum Outcome<'a> {
    Wait(Wait<'a>, Query),
    Value(EvaluatedArg),
}

spec fn outcome_value(r: Outcome, o: Oracle) -> Evaluated {
    match r {
        Outcome::Wait(w, _) => wait_value(w, o),
        Outcome::Value(v) => v@,
    }
}

spec fn outcome_work(r: Outcome) -> nat {
    match r {
        Outcome::Wait(w, _) => wait_work(w),
        Outcome::Value(_) => 0,
    }
}

spec fn outcome_asks(r: Outcome, q: Question) -> bool {
    match r {
        Outcome::Wait(w, _) => wait_asks(w, q),
        Outcome::Value(_) => false,
    }
}

spec fn outcome_ok(r: Outcome) -> bool {
    match r {
        Outcome::Wait(w, q) => q@ == wait_question(w),
        Outcome::Value(v) => true,
    }
}

spec fn outcome_is(r: Outcome, e: spec_fn(Oracle) -> Evaluated) -> bool {
    outcome_ok(r) && forall|o: Oracle| #[trigger] outcome_value(r, o) == e(o)
}

fn ask_cell<'a>(r: &String) -> (out: Outcome<'a>)
    ensures
        outcome_is(out, |o: Oracle| Evaluated::Value((o.cell)(r@))),
        outcome_work(out) == 1,
        forall|x: Question| !#[trigger] outcome_asks(out, x),
{
    Outcome::Wait(Wait::Cell(r.clone()), Query::Cell(r.clone()))
}

fn ask_range<'a>(a: &String, b: &String) -> (out: Outcome<'a>)
    ensures
        outcome_is(out, |o: Oracle| Evaluated::Range((o.range)(a@, b@))),
        outcome_work(out) == 1,
        forall|x: Question| !#[trigger] outcome_asks(out, x),
{
    Outcome::Wait(Wait::Range(a.clone(), b.clone()), Query::Range(a.clone(), b.clone()))
}

fn value_out<'a>(v: FormulaValue) -> (out: Outcome<'a>)
    ensures
        out matches Outcome::Value(x) && x@ == Evaluated::Value(v@),
{
    Outcome::Value(EvaluatedArg::Value(v))
}

fn eval_name_node<'a>(name: &String) -> (out: Outcome<'a>)
    ensures
        outcome_is(out, |o: Oracle| name_eval(name@, o)),
        outcome_work(out) <= 3,
        forall|x: Question| #[trigger] outcome_asks(out, x) ==> name_asks(name@, x),
{
    let up: String = name.as_str().to_uppercase();
    if same_text(up.as_str(), "TRUE") {
        return value_out(FormulaValue::Bool(true));
    }
    if same_text(up.as_str(), "FALSE") {
        proof {
            reveal_strlit("TRUE");
            reveal_strlit("FALSE");
        }
        return value_out(FormulaValue::Bool(false));
    }
    Outcome::Wait(Wait::NameRef(name.clone()), Query::NameRef(name.clone()))
}

fn eval_unary<'a>(op: String, v: FormulaValue) -> (out: Outcome<'a>)
    ensures
        outcome_is(out, |o: Oracle| Evaluated::Value(unary(op@, v@, o))),
        outcome_work(out) <= 2,
        forall|x: Question| #[trigger] outcome_asks(out, x) ==> unary_asks(op@, x),
{
    if v.is_error() {
        return value_out(v);
    }
    if same_text(op.as_str(), "-") || same_text(op.as_str(), "%") {
        let q: Query = Query::Numbers(v.copied(), FormulaValue::Blank);
        Outcome::Wait(Wait::Unary(op, v), q)
    } else {
        value_out(v)
    }
}

fn is_comparison(op: &str) -> (r: bool)
    ensures
        r == compares(op@),
{
    same_text(op, "=") || same_text(op, "<>") || same_text(op, "<") || same_text(op, ">")
        || same_text(op, "<=") || same_text(op, ">=")
}

fn is_arithmetic(op: &str) -> (r: bool)
    ensures
        r == computes(op@),
{
    same_text(op, "+") || same_text(op, "-") || same_text(op, "*") || same_text(op, "/")
        || same_text(op, "^")
}

fn eval_binary<'a>(op: String, a: FormulaValue, b: FormulaValue) -> (out: Outcome<'a>)
    ensures
        outcome_is(out, |o: Oracle| Evaluated::Value(binary(op@, a@, b@, o))),
        outcome_work(out) <= 2,
        forall|x: Question| #[trigger] outcome_asks(out, x) ==> binary_asks(op@, x),
{
    if a.is_error() {
        return value_out(a);
    }
    if b.is_error() {
        return value_out(b);
    }
    if is_comparison(op.as_str()) {
        return match compare_values(&a, &b, op.as_str()) {
            Ok(r) => value_out(FormulaValue::Bool(r)),
            Err(e) => value_out(FormulaValue::Error(e)),
        };
    }
    if same_text(op.as_str(), "&") {
        let q: Query = Query::Shown(a.copied(), b.copied());
        return Outcome::Wait(Wait::Shown(a, b), q);
    }
    let q: Query = Query::Numbers(a.copied(), b.copied());
    Outcome::Wait(Wait::Binary(op, a, b), q)
}

/// The reply to the numbers of a unary operator's operand.
fn unary_numbers<'a>(op: String, v: FormulaValue, n: Option<Num>) -> (out: Outcome<'a>)
    ensures
        outcome_is(
            out,
            |o: Oracle|
                Evaluated::Value(
                    match number_of(v@, n) {
                        Ok(x) => FValue::Number((o.arith1)(op@, x)),
                        Err(e) => FValue::Error(e),
                    },
                ),
        ),
        outcome_work(out) <= 1,
        forall|x: Question| #[trigger] outcome_asks(out, x) ==> computes1(op@, x),
{
    match to_number(&v, n) {
        Ok(x) => {
            let q: Query = Query::Arith1(op.clone(), x);
            Outcome::Wait(Wait::Arith1(op, x), q)
        },
        Err(e) => value_out(FormulaValue::Error(e)),
    }
}

/// The reply to the numbers of a binary operator's operands.
fn binary_numbers<'a>(
    op: String,
    a: FormulaValue,
    b: FormulaValue,
    na: Option<Num>,
    nb: Option<Num>,
) -> (out: Outcome<'a>)
    ensures
        outcome_is(
            out,
            |o: Oracle|
                Evaluated::Value(
                    match number_of(a@, na) {
                        Err(e) => FValue::Error(e),
                        Ok(x) => match number_of(b@, nb) {
                            Err(e) => FValue::Error(e),
                            Ok(y) => arithmetic(op@, x, y, o),
                        },
                    },
                ),
        ),
        outcome_work(out) <= 1,
        forall|x: Question| #[trigger] outcome_asks(out, x) ==> computes2(op@, x),
{
    let x: Num = match to_number(&a, na) {
        Ok(x) => x,
        Err(e) => {
            return value_out(FormulaValue::Error(e));
        },
    };
    let y: Num = match to_number(&b, nb) {
        Ok(y) => y,
        Err(e) => {
            return value_out(FormulaValue::Error(e));
        },
    };
    if same_text(op.as_str(), "/") && y.is_zero() {
        return value_out(FormulaValue::Error(FormulaError::Div0));
    }
    if !is_arithmetic(op.as_str()) {
        return value_out(FormulaValue::Error(FormulaError::Value));
    }
    let q: Query = Query::Arith2(op.clone(), x, y);
    Outcome::Wait(Wait::Arith2(op, x, y), q)
}

fn join_shown(a: FormulaValue, b: FormulaValue, x: String, y: String) -> (r: FormulaValue)
    ensures
        r@ == joined(text_of(a@, x@), text_of(b@, y@)),
{
    let mut s: String = match to_text(&a, x.as_str()) {
        Ok(s) => s,
        Err(e) => {
            return FormulaValue::Error(e);
        },
    };
    let t: String = match to_text(&b, y.as_str()) {
        Ok(t) => t,
        Err(e) => {
            return FormulaValue::Error(e);
        },
    };
    s.append(t.as_str());
    FormulaValue::Text(s)
}

spec fn known_eval(name: Seq<char>, args: Seq<Ast>, o: Oracle) -> Evaluated {
    if (o.known)(name) {
        Evaluated::Value((o.call)(name, evals(args, o)))
    } else {
        Evaluated::Value(FValue::Error(FormulaError::Name))
    }
}

proof fn eval_call_is(name: Seq<char>, args: Seq<Ast>, o: Oracle)
    ensures
        eval(Ast::Call { name, args }, o) == known_eval(name, args, o),
{
}

proof fn eval_array_is(rows: Seq<Seq<Ast>>, o: Oracle)
    ensures
        eval(Ast::Array(rows), o) == Evaluated::Range(
            Seq::new(rows.len(), |i: int| first_row(row_eval(rows[i], o))),
        ),
{
    let a = eval(Ast::Array(rows), o)->Range_0;
    let b = Seq::new(rows.len(), |i: int| first_row(row_eval(rows[i], o)));
    assert forall|i: int| 0 <= i < rows.len() implies a[i] == b[i] by {
        assert(a[i] =~= b[i]);
    }
    assert(a =~= b);
}

impl<'a> Evaluator<'a> {
    closed spec fn todo(&self) -> Seq<Todo> {
        todo_seq(self.tasks@)
    }

    closed spec fn vals(&self) -> Seq<Evaluated> {
        arg_seq(self.values@)
    }

    /// The value that the evaluation ends with.
    pub closed spec fn rest(&self, o: Oracle) -> Evaluated {
        match self.wait {
            Some(w) => finish(self.todo(), self.vals().push(wait_value(w, o)), o)[0],
            None => finish(self.todo(), self.vals(), o)[0],
        }
    }

    /// What the evaluation waits for.
    pub closed spec fn question(&self) -> Option<Question> {
        match self.wait {
            Some(w) => Some(wait_question(w)),
            None => None,
        }
    }

    /// Whether the evaluation may still ask a question, cells and ranges apart.
    pub closed spec fn asks(&self, q: Question) -> bool {
        list_asks(self.todo(), q) || (self.wait matches Some(w) && wait_asks(w, q))
    }

    pub closed spec fn wf(&self) -> bool {
        balanced(
            self.todo(),
            self.vals().len() + (if self.wait is Some {
                1int
            } else {
                0
            }),
        )
    }

    /// An upper bound on the replies that the evaluation still waits for.
    pub closed spec fn left(&self) -> nat {
        work_left(self.todo()) + (match self.wait {
            Some(w) => wait_work(w),
            None => 0,
        })
    }

    /// Starts the evaluation of a tree.
    pub fn new(node: &'a AstNode) -> (r: Evaluator<'a>)
        ensures
            r.wf(),
            r.question() is None,
            forall|o: Oracle| #[trigger] r.rest(o) == eval(node.view(), o),
            forall|q: Question| #[trigger] r.asks(q) ==> may_ask(node.view(), q),
    {
        let mut tasks: Vec<Task<'a>> = Vec::new();
        tasks.push(Task::Eval(node));
        let r: Evaluator<'a> = Evaluator { tasks, values: Vec::new(), wait: None };
        proof {
            assert(r.todo() =~= seq![Todo::Eval(node.view())]);
            assert(r.vals() =~= Seq::<Evaluated>::empty());
            reveal_with_fuel(balanced, 2);
            reveal_with_fuel(finish, 2);
            assert(r.todo().drop_last() =~= Seq::<Todo>::empty());
        }
        r
    }

    fn push_task(&mut self, t: Task<'a>)
        ensures
            final(self).todo() == old(self).todo().push(todo_of(t)),
            final(self).values == old(self).values,
            final(self).wait == old(self).wait,
    {
        self.tasks.push(t);
        assert(self.todo() =~= old(self).todo().push(todo_of(t)));
    }

    fn push_value(&mut self, v: EvaluatedArg)
        ensures
            final(self).vals() == old(self).vals().push(v@),
            final(self).tasks == old(self).tasks,
            final(self).wait == old(self).wait,
    {
        self.values.push(v);
        assert(self.vals() =~= old(self).vals().push(v@));
    }

    fn pop_scalar(&mut self) -> (r: FormulaValue)
        requires
            old(self).vals().len() > 0,
        ensures
            r@ == scalar(old(self).vals().last()),
            final(self).vals() == old(self).vals().drop_last(),
            final(self).tasks == old(self).tasks,
            final(self).wait == old(self).wait,
    {
        let v: EvaluatedArg = self.values.pop().unwrap();
        assert(self.vals() =~= old(self).vals().drop_last());
        assert(old(self).vals().last() == v@);
        scalar_arg(Some(&v))
    }

    /// Takes the `k` topmost values off, in order.
    fn pop_args(&mut self, k: usize) -> (r: Vec<EvaluatedArg>)
        requires
            k <= old(self).vals().len(),
        ensures
            arg_seq(r@) == old(self).vals().skip(old(self).vals().len() - k),
            final(self).vals() == old(self).vals().take(old(self).vals().len() - k),
            final(self).tasks == old(self).tasks,
            final(self).wait == old(self).wait,
    {
        let at: usize = self.values.len() - k;
        let r: Vec<EvaluatedArg> = self.values.split_off(at);
        assert(self.vals() =~= old(self).vals().take(at as int));
        assert(arg_seq(r@) =~= old(self).vals().skip(at as int));
        r
    }

    /// Pushes the trees `nodes`, the first one latest.
    fn push_nodes(&mut self, nodes: &'a Vec<AstNode>)
        ensures
            final(self).todo() == old(self).todo() + eval_list(ast_seq(nodes@)),
            final(self).values == old(self).values,
            final(self).wait == old(self).wait,
    {
        let ghost base = self.todo();
        let ghost list = ast_seq(nodes@);
        let mut i: usize = nodes.len();
        assert(self.todo() =~= base + eval_list(list.skip(i as int)));
        while i > 0
            invariant
                i <= nodes.len(),
                list == ast_seq(nodes@),
                self.todo() == base + eval_list(list.skip(i as int)),
                self.values == old(self).values,
                self.wait == old(self).wait,
            decreases i,
        {
            i = i - 1;
            self.push_task(Task::Eval(&nodes[i]));
            assert(self.todo() =~= base + eval_list(list.skip(i as int)));
        }
        assert(list.skip(0) =~= list);
    }

    /// Pushes the rows of an array, the first one latest.
    fn push_rows(&mut self, rows: &'a Vec<Vec<AstNode>>)
        ensures
            final(self).todo() == old(self).todo() + array_list(ast_rows(rows@)),
            final(self).values == old(self).values,
            final(self).wait == old(self).wait,
    {
        let ghost base = self.todo();
        let ghost list = ast_rows(rows@);
        let mut i: usize = rows.len();
        assert(self.todo() =~= base + array_list(list.skip(i as int)));
        while i > 0
            invariant
                i <= rows.len(),
                list == ast_rows(rows@),
                self.todo() == base + array_list(list.skip(i as int)),
                self.values == old(self).values,
                self.wait == old(self).wait,
            decreases i,
        {
            i = i - 1;
            let row: &'a Vec<AstNode> = &rows[i];
            let ghost row_view = ast_seq(row@);
            assert(list[i as int] == row_view);
            self.push_task(Task::Row(row.len()));
            self.push_nodes(row);
            proof {
                let tail = list.skip(i as int);
                assert(tail.skip(1) =~= list.skip(i + 1));
                assert(tail[0] == row_view);
                assert(self.todo() =~= base + array_list(tail));
            }
        }
        assert(list.skip(0) =~= list);
    }

    /// Begins the evaluation of a tree: gives its value, or puts what is to be done instead.
    fn begin(&mut self, node: &'a AstNode) -> (r: Option<Outcome<'a>>)
        requires
            old(self).wait is None,
        ensures
            final(self).wait is None,
            final(self).values == old(self).values,
            match r {
                None => {
                    &&& forall|q: Question| #[trigger]
                        list_asks(final(self).todo(), q) ==> list_asks(old(self).todo(), q)
                            || may_ask(node.view(), q)
                    &&& work_left(final(self).todo()) < work_left(old(self).todo()) + work(node.view())
                    &&& balanced(final(self).todo(), old(self).vals().len() as int) == balanced(
                        old(self).todo(),
                        old(self).vals().len() + 1int,
                    )
                    &&& forall|o: Oracle| #[trigger]
                        finish(final(self).todo(), old(self).vals(), o) == finish(
                            old(self).todo(),
                            old(self).vals().push(eval(node.view(), o)),
                            o,
                        )
                },
                Some(out) => final(self).tasks == old(self).tasks && outcome_is(
                    out,
                    |o: Oracle| eval(node.view(), o),
                ) && outcome_work(out) < work(node.view()) && forall|q: Question| #[trigger]
                    outcome_asks(out, q) ==> may_ask(node.view(), q),
            },
    {
        let ghost under = self.todo();
        let ghost vals = self.vals();
        match node {
            AstNode::Number(t) => Some(
                Outcome::Wait(Wait::Literal(t.clone()), Query::Literal(t.clone())),
            ),
            AstNode::Str(s) => Some(value_out(FormulaValue::Text(s.clone()))),
            AstNode::Name(n) => Some(eval_name_node(n)),
            AstNode::Ref(r) => Some(ask_cell(r)),
            AstNode::Range { start: a, end: b } => Some(ask_range(a, b)),
            AstNode::Array(rows) => {
                self.push_task(Task::Rows(rows.len()));
                self.push_rows(rows);
                proof {
                    let list = ast_rows(rows@);
                    let base = under.push(Todo::Rows(list.len()));
                    assert(node.view()->Array_0 =~~= list);
                    assert(base.drop_last() =~= under);
                    assert(base.last() == Todo::Rows(list.len()));
                    balanced_array(base, list, vals.len() as int);
                    work_left_array(base, list);
                    push_asks(under, Todo::Rows(list.len()));
                    list_asks_rows(base, list);
                    assert forall|o: Oracle| #[trigger]
                        finish(self.todo(), vals, o) == finish(
                            under,
                            vals.push(eval(node.view(), o)),
                            o,
                        ) by {
                        finish_array(base, list, vals, o);
                        eval_array_is(list, o);
                        let mid = vals + rows_eval(list, o);
                        assert(mid.take(mid.len() - list.len()) =~= vals);
                        assert(Seq::new(
                            list.len(),
                            |i: int| first_row(mid[mid.len() - list.len() + i]),
                        ) =~= Seq::new(list.len(), |i: int| first_row(row_eval(list[i], o))));
                    }
                }
                None
            },
            AstNode::Unary { op, operand } => {
                self.push_task(Task::Unary(op.clone()));
                self.push_task(Task::Eval(operand));
                proof {
                    let mid = under.push(Todo::Unary(op@));
                    assert(self.todo() == mid.push(Todo::Eval(operand.view())));
                    push_asks(under, Todo::Unary(op@));
                    push_asks(mid, Todo::Eval(operand.view()));
                    assert(self.todo().drop_last() =~= mid);
                    assert(mid.drop_last() =~= under);
                    reveal_with_fuel(finish, 3);
                    reveal_with_fuel(balanced, 3);
                    reveal_with_fuel(work_left, 3);
                    assert forall|o: Oracle| #[trigger]
                        finish(self.todo(), vals, o) == finish(
                            under,
                            vals.push(eval(node.view(), o)),
                            o,
                        ) by {
                        let v = vals.push(eval(operand.view(), o));
                        assert(v.drop_last() =~= vals);
                    }
                }
                None
            },
            AstNode::Binary { op, left, right } => {
                self.push_task(Task::Binary(op.clone()));
                self.push_task(Task::Eval(right));
                self.push_task(Task::Eval(left));
                proof {
                    let m1 = under.push(Todo::Binary(op@));
                    let m2 = m1.push(Todo::Eval(right.view()));
                    assert(self.todo() == m2.push(Todo::Eval(left.view())));
                    push_asks(under, Todo::Binary(op@));
                    push_asks(m1, Todo::Eval(right.view()));
                    push_asks(m2, Todo::Eval(left.view()));
                    assert(self.todo().drop_last() =~= m2);
                    assert(m2.drop_last() =~= m1);
                    assert(m1.drop_last() =~= under);
                    reveal_with_fuel(finish, 4);
                    reveal_with_fuel(balanced, 4);
                    reveal_with_fuel(work_left, 4);
                    assert forall|o: Oracle| #[trigger]
                        finish(self.todo(), vals, o) == finish(
                            under,
                            vals.push(eval(node.view(), o)),
                            o,
                        ) by {
                        let v = vals.push(eval(left.view(), o)).push(eval(right.view(), o));
                        assert(v.take(v.len() - 2) =~= vals);
                    }
                }
                None
            },
            AstNode::Call { name, args } => {
                proof {
                    assert(node.view()->args =~= ast_seq(args@));
                    assert forall|o: Oracle| #[trigger] eval(node.view(), o) == known_eval(
                        name@,
                        ast_seq(args@),
                        o,
                    ) by {
                        eval_call_is(name@, ast_seq(args@), o);
                    }
                }
                Some(Outcome::Wait(Wait::Known(name.clone(), args), Query::Known(name.clone())))
            },
        }
    }

    /// Applies an operator, an array or a call to the values it takes.
    fn apply(&mut self, task: Task<'a>) -> (out: Outcome<'a>)
        requires
            old(self).wait is None,
            !(task is Eval),
            balanced(old(self).todo().push(todo_of(task)), old(self).vals().len() as int),
        ensures
            final(self).wait is None,
            final(self).tasks == old(self).tasks,
            balanced(old(self).todo(), final(self).vals().len() + 1int),
            outcome_ok(out),
            outcome_work(out) < work_of(todo_of(task)),
            forall|q: Question| #[trigger] outcome_asks(out, q) ==> todo_asks(todo_of(task), q),
            forall|o: Oracle| #[trigger]
                done(todo_of(task), old(self).vals(), o) == final(self).vals().push(
                    outcome_value(out, o),
                ),
    {
        let ghost vals = self.vals();
        let ghost under = self.todo();
        proof {
            let all = under.push(todo_of(task));
            assert(all.drop_last() =~= under);
            assert(all.last() == todo_of(task));
        }
        match task {
            Task::Eval(_) => value_out(FormulaValue::Blank),
            Task::Unary(op) => {
                let v: FormulaValue = self.pop_scalar();
                eval_unary(op, v)
            },
            Task::Binary(op) => {
                let b: FormulaValue = self.pop_scalar();
                let a: FormulaValue = self.pop_scalar();
                assert(self.vals() =~= vals.take(vals.len() - 2));
                eval_binary(op, a, b)
            },
            Task::Row(k) => {
                let args: Vec<EvaluatedArg> = self.pop_args(k);
                let mut row: Vec<FormulaValue> = Vec::new();
                let mut i: usize = 0;
                while i < args.len()
                    invariant
                        i <= args.len(),
                        value_seq(row@) == Seq::new(i as nat, |j: int| scalar(arg_seq(args@)[j])),
                    decreases args.len() - i,
                {
                    let ghost r0 = value_seq(row@);
                    row.push(scalar_arg(Some(&args[i])));
                    assert(value_seq(row@) =~= r0.push(scalar(arg_seq(args@)[i as int])));
                    assert(value_seq(row@) =~= Seq::new(
                        (i + 1) as nat,
                        |j: int| scalar(arg_seq(args@)[j]),
                    ));
                    i = i + 1;
                }
                let ghost row_view = value_seq(row@);
                let mut rows: Vec<Vec<FormulaValue>> = Vec::new();
                rows.push(row);
                proof {
                    assert(value_rows(rows@) =~= seq![row_view]);
                    assert(arg_seq(args@) == vals.skip(vals.len() - k));
                    assert(args@.len() == arg_seq(args@).len());
                    assert(row_view =~= Seq::new(
                        k as nat,
                        |i: int| scalar(vals[vals.len() - k + i]),
                    ));
                }
                Outcome::Value(EvaluatedArg::Range(rows))
            },
            Task::Rows(k) => {
                let args: Vec<EvaluatedArg> = self.pop_args(k);
                let mut rows: Vec<Vec<FormulaValue>> = Vec::new();
                let mut i: usize = 0;
                while i < args.len()
                    invariant
                        i <= args.len(),
                        value_rows(rows@) == Seq::new(
                            i as nat,
                            |j: int| first_row(arg_seq(args@)[j]),
                        ),
                    decreases args.len() - i,
                {
                    let ghost r0 = value_rows(rows@);
                    rows.push(first_row_of(&args[i]));
                    assert(value_rows(rows@) =~= r0.push(first_row(arg_seq(args@)[i as int])));
                    assert(value_rows(rows@) =~= Seq::new(
                        (i + 1) as nat,
                        |j: int| first_row(arg_seq(args@)[j]),
                    ));
                    i = i + 1;
                }
                proof {
                    assert(arg_seq(args@) == vals.skip(vals.len() - k));
                    assert(args@.len() == arg_seq(args@).len());
                    assert(value_rows(rows@) =~= Seq::new(
                        k as nat,
                        |i: int| first_row(vals[vals.len() - k + i]),
                    ));
                }
                Outcome::Value(EvaluatedArg::Range(rows))
            },
            Task::Call(name, k) => {
                let args: Vec<EvaluatedArg> = self.pop_args(k);
                let ghost list = arg_seq(args@);
                Outcome::Wait(Wait::Call(name.clone(), Ghost(list)), Query::Call(name, args))
            },
        }
    }

    /// Goes on until there is something to ask or a value.
    fn run(&mut self) -> (r: Step)
        requires
            old(self).wf(),
            old(self).wait is None,
        ensures
            match r {
                Step::Ask(q) => {
                    &&& final(self).wf()
                    &&& final(self).left() < old(self).left()
                    &&& final(self).question() == Some(q@)
                    &&& q is Cell || q is Range || old(self).asks(q@)
                    &&& forall|x: Question| #[trigger] final(self).asks(x) ==> old(self).asks(x)
                    &&& forall|o: Oracle| #[trigger] final(self).rest(o) == old(self).rest(o)
                },
                Step::Done(v) => forall|o: Oracle| #[trigger] old(self).rest(o) == v@,
            },
    {
        let ghost start = *self;
        loop
            invariant
                start == *old(self),
                self.wf(),
                self.wait is None,
                self.left() <= start.left(),
                forall|o: Oracle| #[trigger] self.rest(o) == start.rest(o),
                forall|x: Question| #[trigger] self.asks(x) ==> start.asks(x),
            decreases work_left(self.todo()),
        {
            let ghost before = *self;
            let ghost todo = self.todo();
            let ghost vals = self.vals();
            let task: Task<'a> = match self.tasks.pop() {
                Some(t) => t,
                None => {
                    let v: EvaluatedArg = self.values.pop().unwrap();
                    proof {
                        assert(vals[0] == v@);
                        assert forall|o: Oracle| #[trigger] start.rest(o) == v@ by {
                            assert(before.rest(o) == start.rest(o));
                        }
                    }
                    return Step::Done(v);
                },
            };
            let ghost under = self.todo();
            proof {
                assert(under =~= todo.drop_last());
                assert(todo.last() == todo_of(task));
                assert(under.push(todo_of(task)) =~= todo);
                push_asks(under, todo_of(task));
                assert forall|x: Question|
                    list_asks(under, x) || todo_asks(todo_of(task), x) implies #[trigger] start.asks(
                    x,
                ) by {
                    assert(list_asks(todo, x));
                    assert(before.asks(x));
                }
            }
            let outcome: Outcome<'a> = match task {
                Task::Eval(node) => match self.begin(node) {
                    Some(out) => {
                        assert forall|o: Oracle| #[trigger]
                            done(todo.last(), vals, o) == self.vals().push(outcome_value(out, o)) by {}
                        out
                    },
                    None => {
                        assert forall|o: Oracle| #[trigger] self.rest(o) == start.rest(o) by {
                            assert(before.rest(o) == start.rest(o));
                            assert(finish(self.todo(), vals, o) == finish(todo, vals, o));
                        }
                        continue ;
                    },
                },
                _ => {
                    assert(self.vals() == vals);
                    let out: Outcome<'a> = self.apply(task);
                    assert forall|o: Oracle| #[trigger]
                        done(todo.last(), vals, o) == self.vals().push(outcome_value(out, o)) by {
                        assert(done(todo_of(task), vals, o) == self.vals().push(outcome_value(out, o)));
                    }
                    out
                },
            };
            let ghost after = self.vals();
            proof {
                assert forall|o: Oracle| #[trigger]
                    done(todo.last(), vals, o) == after.push(outcome_value(outcome, o)) by {}
            }
            proof {
                assert forall|x: Question| #[trigger] outcome_asks(outcome, x) implies start.asks(
                    x,
                ) by {
                    assert(todo_asks(todo_of(task), x));
                }
            }
            match outcome {
                Outcome::Wait(w, q) => {
                    self.wait = Some(w);
                    assert(self.vals() == after);
                    assert forall|x: Question| #[trigger] self.asks(x) implies start.asks(x) by {
                        if wait_asks(w, x) {
                            assert(outcome_asks(outcome, x));
                        }
                    }
                    proof {
                        waits_for(w);
                    }
                    assert(q is Cell || q is Range || self.asks(q@));
                    assert forall|o: Oracle| #[trigger] self.rest(o) == start.rest(o) by {
                        assert(before.rest(o) == start.rest(o));
                        assert(done(todo.last(), vals, o) == self.vals().push(wait_value(w, o)));
                    }
                    return Step::Ask(q);
                },
                Outcome::Value(v) => {
                    self.push_value(v);
                    assert forall|o: Oracle| #[trigger] self.rest(o) == start.rest(o) by {
                        assert(before.rest(o) == start.rest(o));
                        assert(done(todo.last(), vals, o) == self.vals());
                    }
                },
            }
        }
    }
}

/// What a value that waited becomes with a reply.
enum Resumed<'a> {
    /// The value, or the next thing to wait for.
    Out(Outcome<'a>),
    /// A call's arguments are to be evaluated.
    Args(String, &'a Vec<AstNode>),
    /// The reply was of the wrong kind.
    Misfit,
}

spec fn resumed_is(r: Resumed, w: Wait, o: Oracle) -> bool {
    match r {
        Resumed::Out(out) => outcome_ok(out) && outcome_value(out, o) == wait_value(w, o),
        Resumed::Args(name, args) => wait_value(w, o) == Evaluated::Value(
            (o.call)(name@, evals(ast_seq(args@), o)),
        ),
        Resumed::Misfit => false,
    }
}

fn resume_value<'a>(w: Wait<'a>, reply: Reply) -> (r: Resumed<'a>)
    ensures
        r matches Resumed::Out(out) ==> outcome_ok(out) && outcome_work(out) < wait_work(w),
        r matches Resumed::Args(_, args) ==> wait_work(w) == 6 + work_list(ast_seq(args@)),
        r matches Resumed::Out(out) ==> forall|x: Question| #[trigger]
            outcome_asks(out, x) ==> wait_asks(w, x),
        r matches Resumed::Args(n, args) ==> forall|x: Question|
            calls(n@, x) || nodes_ask(ast_seq(args@), x) ==> #[trigger] wait_asks(w, x),
        r is Misfit <==> !fitting(wait_question(w), reply),
        forall|o: Oracle|
            answers(o, wait_question(w), reply) ==> #[trigger] resumed_is(r, w, o),
{
    match w {
        Wait::Literal(_) => match reply {
            Reply::Parsed(Some(n)) => Resumed::Out(value_out(FormulaValue::Number(n))),
            Reply::Parsed(None) => Resumed::Out(value_out(FormulaValue::Number(Num { bits: 0 }))),
            _ => Resumed::Misfit,
        },
        Wait::Cell(_) => match reply {
            Reply::Value(v) => Resumed::Out(value_out(v)),
            _ => Resumed::Misfit,
        },
        Wait::Range(_, _) => match reply {
            Reply::Rows(rows) => Resumed::Out(Outcome::Value(EvaluatedArg::Range(rows))),
            _ => Resumed::Misfit,
        },
        Wait::NameRef(n) => match reply {
            Reply::Reference(Some(r)) => match split_top_range(r.as_str()) {
                Some((a, b)) => Resumed::Out(ask_range(&a, &b)),
                None => Resumed::Out(ask_cell(&r)),
            },
            Reply::Reference(None) => Resumed::Out(
                Outcome::Wait(Wait::NameValue(n.clone()), Query::NameValue(n)),
            ),
            _ => Resumed::Misfit,
        },
        Wait::NameValue(_) => match reply {
            Reply::Named(Some(v)) => Resumed::Out(value_out(v)),
            Reply::Named(None) => Resumed::Out(
                value_out(FormulaValue::Error(FormulaError::Name)),
            ),
            _ => Resumed::Misfit,
        },
        Wait::Known(n, args) => match reply {
            Reply::Truth(true) => Resumed::Args(n, args),
            Reply::Truth(false) => Resumed::Out(
                value_out(FormulaValue::Error(FormulaError::Name)),
            ),
            _ => Resumed::Misfit,
        },
        Wait::Call(_, _) => match reply {
            Reply::Value(v) => Resumed::Out(value_out(v)),
            _ => Resumed::Misfit,
        },
        Wait::Unary(op, v) => match reply {
            Reply::Numbers(n, _) => Resumed::Out(unary_numbers(op, v, n)),
            _ => Resumed::Misfit,
        },
        Wait::Arith1(_, _) => match reply {
            Reply::Number(n) => Resumed::Out(value_out(FormulaValue::Number(n))),
            _ => Resumed::Misfit,
        },
        Wait::Binary(op, a, b) => match reply {
            Reply::Numbers(x, y) => Resumed::Out(binary_numbers(op, a, b, x, y)),
            _ => Resumed::Misfit,
        },
        Wait::Shown(a, b) => match reply {
            Reply::Shown(x, y) => Resumed::Out(value_out(join_shown(a, b, x, y))),
            _ => Resumed::Misfit,
        },
        Wait::Arith2(op, _, _) => match reply {
            Reply::Number(n) => {
                if same_text(op.as_str(), "^") && !n.is_finite() {
                    Resumed::Out(value_out(FormulaValue::Error(FormulaError::Num)))
                } else {
                    Resumed::Out(value_out(FormulaValue::Number(n)))
                }
            },
            _ => Resumed::Misfit,
        },
    }
}

impl<'a> Evaluator<'a> {
    /// The first step of an evaluation.
    pub fn start(&mut self) -> (r: Step)
        requires
            old(self).wf(),
            old(self).question() is None,
        ensures
            match r {
                Step::Ask(q) => {
                    &&& final(self).wf()
                    &&& final(self).question() == Some(q@)
                    &&& q is Cell || q is Range || old(self).asks(q@)
                    &&& forall|x: Question| #[trigger] final(self).asks(x) ==> old(self).asks(x)
                    &&& forall|o: Oracle| #[trigger] final(self).rest(o) == old(self).rest(o)
                },
                Step::Done(v) => forall|o: Oracle| #[trigger] old(self).rest(o) == v@,
            },
    {
        self.run()
    }

    /// Goes on with the host's reply to the latest question. For every oracle that the reply
    /// agrees with, the evaluation still ends with the same value. A reply of a kind that does
    /// not fit the question ends the evaluation with `#VALUE!`.
    pub fn resume(&mut self, reply: Reply) -> (r: Step)
        requires
            old(self).wf(),
            old(self).question() is Some,
        ensures
            match r {
                Step::Ask(q) => {
                    &&& fitting(old(self).question()->0, reply)
                    &&& final(self).wf()
                    &&& final(self).left() < old(self).left()
                    &&& final(self).question() == Some(q@)
                    &&& q is Cell || q is Range || old(self).asks(q@)
                    &&& forall|x: Question| #[trigger] final(self).asks(x) ==> old(self).asks(x)
                },
                Step::Done(v) => !fitting(old(self).question()->0, reply) ==> v@
                    == Evaluated::Value(FValue::Error(FormulaError::Value)),
            },
            forall|o: Oracle| #[trigger]
                answers(o, old(self).question()->0, reply) ==> match r {
                    Step::Ask(q) => final(self).rest(o) == old(self).rest(o),
                    Step::Done(v) => v@ == old(self).rest(o),
                },
    {
        let ghost before = *self;
        let ghost vals = self.vals();
        let ghost todo = self.todo();
        assert(self.wait is Some);
        let w: Wait<'a> = match self.wait.take() {
            Some(w) => w,
            None => {
                return Step::Done(EvaluatedArg::Value(FormulaValue::Error(FormulaError::Value)));
            },
        };
        match resume_value(w, reply) {
            Resumed::Out(Outcome::Wait(next, q)) => {
                self.wait = Some(next);
                proof {
                    assert(self.vals() == vals && self.todo() == todo);
                    assert forall|x: Question| #[trigger] self.asks(x) implies before.asks(x) by {
                        if wait_asks(next, x) {
                            assert(outcome_asks(Outcome::Wait(next, q), x));
                        }
                    }
                    waits_for(next);
                    assert(q is Cell || q is Range || self.asks(q@));
                    assert forall|o: Oracle| #[trigger]
                        answers(o, before.question()->0, reply) implies self.rest(o) == before.rest(
                        o,
                    ) by {
                        assert(resumed_is(Resumed::Out(Outcome::Wait(next, q)), w, o));
                    }
                }
                Step::Ask(q)
            },
            Resumed::Out(Outcome::Value(v)) => {
                self.push_value(v);
                let ghost mid = *self;
                proof {
                    assert forall|o: Oracle| #[trigger]
                        answers(o, before.question()->0, reply) implies mid.rest(o) == before.rest(
                        o,
                    ) by {
                        assert(resumed_is(Resumed::Out(Outcome::Value(v)), w, o));
                    }
                }
                let r: Step = self.run();
                assert forall|o: Oracle| #[trigger]
                    answers(o, before.question()->0, reply) implies (match r {
                    Step::Ask(q) => self.rest(o) == before.rest(o),
                    Step::Done(v) => v@ == before.rest(o),
                }) by {
                    assert(mid.rest(o) == before.rest(o));
                }
                r
            },
            Resumed::Args(name, args) => {
                self.push_task(Task::Call(name, args.len()));
                self.push_nodes(args);
                let ghost mid = *self;
                proof {
                    let list = ast_seq(args@);
                    let base = todo.push(Todo::Call(name@, list.len()));
                    assert(base.drop_last() =~= todo);
                    assert(base.last() == Todo::Call(name@, list.len()));
                    balanced_list(base, list, vals.len() as int);
                    work_left_list(base, list);
                    push_asks(todo, Todo::Call(name@, list.len()));
                    list_asks_nodes(base, list);
                    assert forall|x: Question| #[trigger] mid.asks(x) implies before.asks(x) by {
                        if calls(name@, x) || nodes_ask(list, x) {
                            assert(wait_asks(w, x));
                        }
                    }
                    assert forall|o: Oracle| #[trigger]
                        answers(o, before.question()->0, reply) implies mid.rest(o) == before.rest(
                        o,
                    ) by {
                        assert(resumed_is(Resumed::Args(name, args), w, o));
                        finish_list(base, list, vals, o);
                        let all = vals + evals(list, o);
                        assert(all.take(all.len() - list.len()) =~= vals);
                        assert(all.skip(all.len() - list.len()) =~= evals(list, o));
                    }
                }
                let r: Step = self.run();
                assert forall|o: Oracle| #[trigger]
                    answers(o, before.question()->0, reply) implies (match r {
                    Step::Ask(q) => self.rest(o) == before.rest(o),
                    Step::Done(v) => v@ == before.rest(o),
                }) by {
                    assert(mid.rest(o) == before.rest(o));
                }
                r
            },
            Resumed::Misfit => {
                assert forall|o: Oracle| #[trigger]
                    answers(o, before.question()->0, reply) implies false by {
                    assert(resumed_is(Resumed::Misfit, w, o));
                }
                Step::Done(EvaluatedArg::Value(FormulaValue::Error(FormulaError::Value)))
            },
        }
    }
}

fn first_row_of(e: &EvaluatedArg) -> (r: Vec<FormulaValue>)
    ensures
        value_seq(r@) == first_row(e@),
{
    match e {
        EvaluatedArg::Value(v) => {
            let mut r: Vec<FormulaValue> = Vec::new();
            r.push(v.copied());
            assert(value_seq(r@) =~= seq![v@]);
            r
        },
        EvaluatedArg::Range(rows) => {
            if rows.len() > 0 {
                copy_row(&rows[0])
            } else {
                let r: Vec<FormulaValue> = Vec::new();
                assert(value_seq(r@) =~= Seq::<FValue>::empty());
                r
            }
        },
    }
}

} // verus!
