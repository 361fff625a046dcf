//! Calls of built-in functions: from the values that a formula hands over to what the function
//! replies. Only a host can read numerals and show numbers; it hands in how.
use crate::builtin::{builtin_named, builtin_says, call_by_name, Place};
use crate::criteria::{operator_of, split_operator};
use crate::engineering_fn::{ends_imaginary, last_sign, split_complex};
use crate::evaluator::{arg_seq, value_rows, value_seq, Evaluated, EvaluatedArg, Oracle};
use crate::reading::{given, read_rows, read_seq, reply_view, Arg, Given, Read, Reading, Reply};
use crate::text::{trim_text, trimmed, upper};
use crate::value::{text_of, to_text, FValue, FormulaError, FormulaValue, Num};
use vstd::prelude::*;

verus! {

/// The numerals of a complex number's two parts in its text.
pub open spec fn part_texts(text: Seq<char>) -> (Seq<char>, Seq<char>) {
    let t = trimmed(text);
    if ends_imaginary(t) {
        let body = t.drop_last();
        let k = last_sign(body, body.len() as int);
        (body.take(k), body.skip(k))
    } else {
        (t, Seq::empty())
    }
}

/// What stands behind the comparison operator in front of a text.
pub open spec fn behind_operator(text: Seq<char>) -> Seq<char> {
    trimmed(trimmed(text).skip(operator_of(trimmed(text)).len() as int))
}

/// What the numeral of a part of a complex number reads as, where a value's text is taken for one.
pub open spec fn part_read(v: FValue, o: Oracle, imaginary: bool) -> Option<Num> {
    match text_of(v, o.shown(v)) {
        Ok(t) => if trimmed(t).len() == 0 {
            None
        } else if imaginary {
            (o.parse)(part_texts(t).1)
        } else {
            (o.parse)(part_texts(t).0)
        },
        Err(_) => None,
    }
}

/// A value with what a host's numerals tell of it.
pub open spec fn told_of(v: FValue, o: Oracle) -> Read {
    Read {
        value: v,
        parsed: o.parsed(v),
        shown: o.shown(v),
        operand: match v {
            FValue::Text(s) => (o.parse)(behind_operator(s)),
            _ => None,
        },
        re: part_read(v, o, false),
        im: part_read(v, o, true),
    }
}

/// Values with what a host's numerals tell of them.
pub open spec fn told_of_row(row: Seq<FValue>, o: Oracle) -> Seq<Read> {
    Seq::new(row.len(), |j: int| told_of(row[j], o))
}

/// An argument with what a host's numerals tell of it.
pub open spec fn told_of_arg(e: Evaluated, o: Oracle) -> Given {
    match e {
        Evaluated::Value(v) => Given::One(told_of(v, o)),
        Evaluated::Range(rows) => Given::Area(
            Seq::new(rows.len(), |i: int| told_of_row(rows[i], o)),
        ),
    }
}

/// Arguments with what a host's numerals tell of them.
pub open spec fn told_of_args(args: Seq<Evaluated>, o: Oracle) -> Seq<Given> {
    Seq::new(args.len(), |i: int| told_of_arg(args[i], o))
}

/// Whether numerals can be read and numbers shown, whatever they are.
pub open spec fn can_read<P: Fn(String) -> Option<Num>, S: Fn(Num) -> String>(
    parse: P,
    show: S,
) -> bool {
    &&& forall|t: String| call_requires(parse, (t,))
    &&& forall|n: Num| call_requires(show, (n,))
}

/// Whether numerals are read and numbers are shown as an oracle says.
pub open spec fn reads_by<P: Fn(String) -> Option<Num>, S: Fn(Num) -> String>(
    parse: P,
    show: S,
    o: Oracle,
) -> bool {
    &&& forall|t: String, r: Option<Num>| #[trigger]
        call_ensures(parse, (t,), r) ==> r == (o.parse)(t@)
    &&& forall|n: Num, r: String| #[trigger] call_ensures(show, (n,), r) ==> r@ == (o.show)(n)
}

/// A value with what reading and showing numbers tells of it. A text is read without white space
/// at its ends, and once more without a comparison operator in front of it.
pub fn read_one<P: Fn(String) -> Option<Num>, S: Fn(Num) -> String>(
    v: &FormulaValue,
    parse: &P,
    show: &S,
) -> (r: Reading)
    requires
        can_read(*parse, *show),
    ensures
        r@.value == v@,
        forall|o: Oracle| #[trigger] reads_by(*parse, *show, o) ==> r@ == told_of(v@, o),
{
    let (parsed, operand): (Option<Num>, Option<Num>) = match v {
        FormulaValue::Text(s) => {
            let t: String = trim_text(s.as_str());
            let behind: String = split_operator(t.as_str()).1;
            let end: String = trim_text(behind.as_str());
            (parse(t), parse(end))
        },
        _ => (None, None),
    };
    let shown: String = match v {
        FormulaValue::Number(n) => show(*n),
        _ => String::new(),
    };
    let ghost text = text_of(v@, shown@);
    let (re, im): (Option<Num>, Option<Num>) = match to_text(v, shown.as_str()) {
        Ok(t) => match split_complex(t.as_str()) {
            Some(c) => {
                proof {
                    assert(text == Ok::<Seq<char>, FormulaError>(t@));
                    assert(c.re@ == part_texts(t@).0);
                    assert(c.im@ =~= part_texts(t@).1);
                }
                (parse(c.re), parse(c.im))
            },
            None => (None, None),
        },
        Err(_) => (None, None),
    };
    let r: Reading = Reading { value: v.copied(), parsed, shown, operand, re, im };
    proof {
        assert forall|o: Oracle| #[trigger] reads_by(*parse, *show, o) implies r@ == told_of(
            v@,
            o,
        ) by {
            assert(r@.shown =~= o.shown(v@));
        }
    }
    r
}

fn read_row<P: Fn(String) -> Option<Num>, S: Fn(Num) -> String>(
    row: &Vec<FormulaValue>,
    parse: &P,
    show: &S,
) -> (r: Vec<Reading>)
    requires
        can_read(*parse, *show),
    ensures
        forall|o: Oracle| #[trigger]
            reads_by(*parse, *show, o) ==> read_seq(r@) == told_of_row(value_seq(row@), o),
{
    let mut r: Vec<Reading> = Vec::new();
    let mut j: usize = 0;
    while j < row.len()
        invariant
            j <= row.len(),
            r.len() == j,
            can_read(*parse, *show),
            forall|o: Oracle, k: int|
                #![trigger reads_by(*parse, *show, o), r@[k]]
                reads_by(*parse, *show, o) && 0 <= k < j ==> r@[k]@ == told_of(row@[k]@, o),
        decreases row.len() - j,
    {
        r.push(read_one(&row[j], parse, show));
        j = j + 1;
    }
    proof {
        assert forall|o: Oracle| #[trigger] reads_by(*parse, *show, o) implies read_seq(r@)
            == told_of_row(value_seq(row@), o) by {
            assert forall|k: int| 0 <= k < r@.len() implies r@[k]@ == told_of(row@[k]@, o) by {}
            assert(read_seq(r@) =~= told_of_row(value_seq(row@), o));
        }
    }
    r
}

/// An argument with what reading and showing numbers tells of it.
pub fn read_arg<P: Fn(String) -> Option<Num>, S: Fn(Num) -> String>(
    arg: &EvaluatedArg,
    parse: &P,
    show: &S,
) -> (r: Arg)
    requires
        can_read(*parse, *show),
    ensures
        forall|o: Oracle| #[trigger] reads_by(*parse, *show, o) ==> r@ == told_of_arg(arg@, o),
{
    match arg {
        EvaluatedArg::Value(v) => Arg::One(read_one(v, parse, show)),
        EvaluatedArg::Range(rows) => {
            let mut r: Vec<Vec<Reading>> = Vec::new();
            let mut i: usize = 0;
            while i < rows.len()
                invariant
                    i <= rows.len(),
                    r.len() == i,
                    can_read(*parse, *show),
                    forall|o: Oracle, k: int|
                        #![trigger reads_by(*parse, *show, o), r@[k]]
                        reads_by(*parse, *show, o) && 0 <= k < i ==> read_seq(r@[k]@)
                            == told_of_row(value_seq(rows@[k]@), o),
                decreases rows.len() - i,
            {
                r.push(read_row(&rows[i], parse, show));
                i = i + 1;
            }
            proof {
                assert forall|o: Oracle| #[trigger] reads_by(*parse, *show, o) implies read_rows(r@)
                    == told_of_arg(arg@, o)->Area_0 by {
                    assert forall|k: int| 0 <= k < r@.len() implies #[trigger] read_rows(r@)[k]
                        == told_of_row(value_rows(rows@)[k], o) by {
                        assert(read_seq(r@[k]@) == told_of_row(value_seq(rows@[k]@), o));
                    }
                    assert(read_rows(r@) =~= told_of_arg(arg@, o)->Area_0);
                }
            }
            Arg::Area(r)
        },
    }
}

/// Arguments with what reading and showing numbers tells of them.
pub fn read_args<P: Fn(String) -> Option<Num>, S: Fn(Num) -> String>(
    args: &Vec<EvaluatedArg>,
    parse: &P,
    show: &S,
) -> (r: Vec<Arg>)
    requires
        can_read(*parse, *show),
    ensures
        forall|o: Oracle| #[trigger]
            reads_by(*parse, *show, o) ==> given(r@) == told_of_args(arg_seq(args@), o),
{
    let mut r: Vec<Arg> = Vec::new();
    let mut i: usize = 0;
    while i < args.len()
        invariant
            i <= args.len(),
            r.len() == i,
            can_read(*parse, *show),
            forall|o: Oracle, k: int|
                #![trigger reads_by(*parse, *show, o), r@[k]]
                reads_by(*parse, *show, o) && 0 <= k < i ==> r@[k]@ == told_of_arg(args@[k]@, o),
        decreases args.len() - i,
    {
        r.push(read_arg(&args[i], parse, show));
        i = i + 1;
    }
    proof {
        assert forall|o: Oracle| #[trigger] reads_by(*parse, *show, o) implies given(r@)
            == told_of_args(arg_seq(args@), o) by {
            assert forall|k: int| 0 <= k < r@.len() implies r@[k]@ == told_of_arg(args@[k]@, o) by {}
            assert(given(r@) =~= told_of_args(arg_seq(args@), o));
        }
    }
    r
}

/// The value of a text that a function takes for a number, by what its numeral reads as: `#VALUE!`
/// where it is none or not finite.
pub fn numeral_value(n: Option<Num>) -> (r: FormulaValue)
    ensures
        r@ == match n {
            Some(x) if x.finite() => FValue::Number(x),
            _ => FValue::Error(FormulaError::Value),
        },
{
    match n {
        Some(x) => if x.is_finite() {
            FormulaValue::Number(x)
        } else {
            FormulaValue::Error(FormulaError::Value)
        },
        None => FormulaValue::Error(FormulaError::Value),
    }
}

/// Calls the built-in function under a name, however its letters are written, with the values that
/// a formula hands over; nothing where there is none of the name.
pub fn call_function<P: Fn(String) -> Option<Num>, S: Fn(Num) -> String>(
    name: &str,
    args: &Vec<EvaluatedArg>,
    place: Place,
    parse: &P,
    show: &S,
) -> (r: Option<Option<Reply>>)
    requires
        can_read(*parse, *show),
    ensures
        r is None <==> builtin_named(upper(name@)) is None,
        forall|o: Oracle| #[trigger]
            reads_by(*parse, *show, o) ==> (builtin_named(upper(name@)) matches Some(f) ==> builtin_says(
                f,
                told_of_args(arg_seq(args@), o),
                place,
                reply_view(r->0),
            )),
{
    let key: String = name.to_uppercase();
    let read: Vec<Arg> = read_args(args, parse, show);
    call_by_name(key.as_str(), &read, place)
}

} // verus!
