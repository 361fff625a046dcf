//! Functions that decide: conditions, choices, and questions about a value's kind.
use crate::reading::{
    arg_at, counted, everything, failed, figure, given, given_from, matrix, matrix_arg, nth, num,
    number_at, plain, read_rows, read_seq, truncated, truth, truth_at, values_from, whole, yes, Arg,
    Given, Read, Reading, Reply, Said,
};
use crate::text::{same_text, upper};
use crate::value::{blank, one, zero, FValue, FormulaError, FormulaValue, Num};
use vstd::prelude::*;

verus! {

/// Whether two numbers have the same value.
pub open spec fn equal(x: Num, y: Num) -> bool {
    !x.nan() && !y.nan() && x.rank() == y.rank()
}

/// Whether two numbers have the same value.
pub fn same_number(x: Num, y: Num) -> (r: bool)
    ensures
        r == equal(x, y),
{
    !x.is_nan() && !y.is_nan() && !x.less(y) && !y.less(x)
}

/// `IF`: the second argument where the first is true, the third where it is not, the truth value
/// itself where that argument is not given.
pub open spec fn if_of(args: Seq<Given>) -> Said {
    match truth(nth(args, 0)) {
        Err(e) => failed(e),
        Ok(b) => {
            let i: int = if b {
                1
            } else {
                2
            };
            if i < args.len() {
                Said::Value(nth(args, i).value)
            } else {
                yes(b)
            }
        },
    }
}

pub fn f_if(args: &Vec<Arg>) -> (r: Reply)
    ensures
        r@ == if_of(given(args@)),
{
    match truth_at(args, 0) {
        Err(e) => Reply::error(e),
        Ok(b) => {
            let i: usize = if b {
                1
            } else {
                2
            };
            if i < args.len() {
                Reply::Value(arg_at(args, i).value)
            } else {
                Reply::truth(b)
            }
        },
    }
}

/// The first argument, or the second where the first is an error: any error, or `only` that one.
pub open spec fn unless_error(args: Seq<Given>, only: Option<FormulaError>) -> Said {
    match nth(args, 0).value {
        FValue::Error(e) => if only is None || only == Some(e) {
            Said::Value(nth(args, 1).value)
        } else {
            failed(e)
        },
        v => Said::Value(v),
    }
}

/// `IFERROR` and `IFNA`.
pub fn if_error(args: &Vec<Arg>, only: Option<FormulaError>) -> (r: Reply)
    ensures
        r@ == unless_error(given(args@), only),
{
    let v: FormulaValue = arg_at(args, 0).value;
    match v {
        FormulaValue::Error(e) => {
            let caught: bool = match only {
                None => true,
                Some(o) => o == e,
            };
            if caught {
                Reply::Value(arg_at(args, 1).value)
            } else {
                Reply::error(e)
            }
        },
        other => Reply::Value(other),
    }
}

/// The first error among some values.
pub open spec fn error_in(vs: Seq<Read>) -> Option<FormulaError>
    decreases vs.len(),
{
    if vs.len() == 0 {
        None
    } else {
        match error_in(vs.drop_last()) {
            Some(e) => Some(e),
            None => match vs.last().value {
                FValue::Error(e) => Some(e),
                _ => None,
            },
        }
    }
}

/// How the values that are not blank read as truth values: the first error among them, or how
/// many there are and how many of them are true.
pub open spec fn tally(vs: Seq<Read>) -> Result<(nat, nat), FormulaError>
    decreases vs.len(),
{
    if vs.len() == 0 {
        Ok((0, 0))
    } else {
        match tally(vs.drop_last()) {
            Err(e) => Err(e),
            Ok((n, k)) => if blank(vs.last().value) {
                Ok((n, k))
            } else {
                match truth(vs.last()) {
                    Err(e) => Err(e),
                    Ok(b) => Ok(
                        (
                            n + 1,
                            if b {
                                k + 1
                            } else {
                                k
                            },
                        ),
                    ),
                }
            },
        }
    }
}

/// The place of the first value that is not blank and either fails to read as a truth value or
/// reads as `wanted`.
pub open spec fn decides(v: Read, wanted: bool) -> bool {
    !blank(v.value) && truth(v) != Ok::<bool, FormulaError>(!wanted)
}

/// What the first deciding value reads as, if there is one.
pub open spec fn decision(vs: Seq<Read>, wanted: bool) -> Option<Result<bool, FormulaError>>
    decreases vs.len(),
{
    if vs.len() == 0 {
        None
    } else {
        match decision(vs.drop_last(), wanted) {
            Some(d) => Some(d),
            None => if decides(vs.last(), wanted) {
                Some(truth(vs.last()))
            } else {
                None
            },
        }
    }
}

/// Whether some value is not blank.
pub open spec fn any_filled(vs: Seq<Read>) -> bool {
    exists|i: int| 0 <= i < vs.len() && !blank((#[trigger] vs[i]).value)
}

/// `AND`: an error among the values first; then the first value that is not true decides; with
/// only blank values there is nothing to decide.
pub open spec fn and_of(args: Seq<Given>) -> Said {
    let vs = everything(args);
    match error_in(vs) {
        Some(e) => failed(e),
        None => match decision(vs, false) {
            Some(Ok(b)) => yes(b),
            Some(Err(e)) => failed(e),
            None => if any_filled(vs) {
                yes(true)
            } else {
                failed(FormulaError::Value)
            },
        },
    }
}

/// `OR`: an error among the values first; then the first value that is not false decides.
pub open spec fn or_of(args: Seq<Given>) -> Said {
    let vs = everything(args);
    match error_in(vs) {
        Some(e) => failed(e),
        None => match decision(vs, true) {
            Some(Ok(b)) => yes(b),
            Some(Err(e)) => failed(e),
            None => yes(false),
        },
    }
}

fn find_error(vs: &Vec<Reading>) -> (r: Option<FormulaError>)
    ensures
        r == error_in(read_seq(vs@)),
{
    let ghost all = read_seq(vs@);
    let mut found: Option<FormulaError> = None;
    let mut i: usize = 0;
    while i < vs.len()
        invariant
            i <= vs.len(),
            all == read_seq(vs@),
            found == error_in(all.take(i as int)),
        decreases vs.len() - i,
    {
        assert(all.take(i + 1).drop_last() =~= all.take(i as int));
        assert(all.take(i + 1).last() == vs@[i as int]@);
        if found.is_none() {
            found = vs[i].value.as_error();
        }
        i = i + 1;
    }
    assert(all.take(i as int) =~= all);
    found
}

fn find_decision(vs: &Vec<Reading>, wanted: bool) -> (r: (Option<Result<bool, FormulaError>>, bool))
    ensures
        r.0 == decision(read_seq(vs@), wanted),
        r.1 == any_filled(read_seq(vs@)),
{
    let ghost all = read_seq(vs@);
    let mut found: Option<Result<bool, FormulaError>> = None;
    let mut filled: bool = false;
    let mut i: usize = 0;
    while i < vs.len()
        invariant
            i <= vs.len(),
            all == read_seq(vs@),
            found == decision(all.take(i as int), wanted),
            filled == exists|k: int| 0 <= k < i && !blank((#[trigger] all[k]).value),
        decreases vs.len() - i,
    {
        assert(all.take(i + 1).drop_last() =~= all.take(i as int));
        assert(all.take(i + 1).last() == vs@[i as int]@);
        assert(all[i as int] == vs@[i as int]@);
        if !vs[i].value.is_blank() {
            filled = true;
            if found.is_none() {
                let t: Result<bool, FormulaError> = vs[i].truth();
                match t {
                    Ok(b) => if b == wanted {
                        found = Some(t);
                    },
                    Err(_) => {
                        found = Some(t);
                    },
                }
            }
        }
        i = i + 1;
    }
    assert(all.take(i as int) =~= all);
    (found, filled)
}

pub fn f_and(args: &Vec<Arg>) -> (r: Reply)
    ensures
        r@ == and_of(given(args@)),
{
    assert(given_from(given(args@), 0) =~= given(args@));
    let vs: Vec<Reading> = values_from(args, 0);
    if let Some(e) = find_error(&vs) {
        return Reply::error(e);
    }
    let (found, filled) = find_decision(&vs, false);
    match found {
        Some(Ok(b)) => Reply::truth(b),
        Some(Err(e)) => Reply::error(e),
        None => if filled {
            Reply::truth(true)
        } else {
            Reply::error(FormulaError::Value)
        },
    }
}

pub fn f_or(args: &Vec<Arg>) -> (r: Reply)
    ensures
        r@ == or_of(given(args@)),
{
    assert(given_from(given(args@), 0) =~= given(args@));
    let vs: Vec<Reading> = values_from(args, 0);
    if let Some(e) = find_error(&vs) {
        return Reply::error(e);
    }
    let (found, _) = find_decision(&vs, true);
    match found {
        Some(Ok(b)) => Reply::truth(b),
        Some(Err(e)) => Reply::error(e),
        None => Reply::truth(false),
    }
}

/// `XOR`: whether an odd number of the values is true.
pub open spec fn xor_of(args: Seq<Given>) -> Said {
    match tally(everything(args)) {
        Err(e) => failed(e),
        Ok((_, k)) => yes(k % 2 == 1),
    }
}

pub fn xor_fn(args: &Vec<Arg>) -> (r: Reply)
    ensures
        r@ == xor_of(given(args@)),
{
    assert(given_from(given(args@), 0) =~= given(args@));
    let vs: Vec<Reading> = values_from(args, 0);
    let ghost all = read_seq(vs@);
    let mut error: Option<FormulaError> = None;
    let mut count: usize = 0;
    let mut i: usize = 0;
    while i < vs.len()
        invariant
            i <= vs.len(),
            count <= i,
            all == read_seq(vs@),
            match tally(all.take(i as int)) {
                Err(e) => error == Some(e),
                Ok((_, k)) => error is None && count == k,
            },
        decreases vs.len() - i,
    {
        assert(all.take(i + 1).drop_last() =~= all.take(i as int));
        assert(all.take(i + 1).last() == vs@[i as int]@);
        if error.is_none() && !vs[i].value.is_blank() {
            match vs[i].truth() {
                Ok(b) => if b {
                    count = count + 1;
                },
                Err(e) => {
                    error = Some(e);
                },
            }
        }
        i = i + 1;
    }
    assert(all.take(i as int) =~= all);
    match error {
        Some(e) => Reply::error(e),
        None => Reply::truth(count % 2 == 1),
    }
}

/// `NOT`.
pub open spec fn not_of(args: Seq<Given>) -> Said {
    match truth(nth(args, 0)) {
        Ok(b) => yes(!b),
        Err(e) => failed(e),
    }
}

pub fn not_fn(args: &Vec<Arg>) -> (r: Reply)
    ensures
        r@ == not_of(given(args@)),
{
    match truth_at(args, 0) {
        Ok(b) => Reply::truth(!b),
        Err(e) => Reply::error(e),
    }
}

/// `IFS` from the pair at `i` on: the value of the first pair whose condition holds.
pub open spec fn ifs_of(args: Seq<Given>, i: int) -> Said
    decreases args.len() - i,
{
    if 0 <= i && i + 1 < args.len() {
        match truth(nth(args, i)) {
            Ok(true) => Said::Value(nth(args, i + 1).value),
            Ok(false) => ifs_of(args, i + 2),
            Err(e) => failed(e),
        }
    } else {
        failed(FormulaError::Na)
    }
}

pub fn ifs(args: &Vec<Arg>) -> (r: Reply)
    ensures
        r@ == ifs_of(given(args@), 0),
{
    let ghost all = given(args@);
    let n: usize = args.len();
    let mut i: usize = 0;
    while n >= 2 && i <= n - 2
        invariant
            n == args.len(),
            i <= n,
            all == given(args@),
            ifs_of(all, 0) == ifs_of(all, i as int),
        decreases n - i,
    {
        match truth_at(args, i) {
            Ok(true) => {
                return Reply::Value(arg_at(args, i + 1).value);
            },
            Ok(false) => {},
            Err(e) => {
                return Reply::error(e);
            },
        }
        i = i + 2;
    }
    Reply::error(FormulaError::Na)
}

/// Whether two values count as the same: numbers by value, anything else by text without regard
/// to case.
pub open spec fn alike(a: Read, b: Read) -> bool {
    match (a.value, b.value) {
        (FValue::Number(x), FValue::Number(y)) => equal(x, y),
        _ => upper(plain(a)) == upper(plain(b)),
    }
}

pub fn compare_eq(a: &Reading, b: &Reading) -> (r: bool)
    ensures
        r == alike(a@, b@),
{
    if let FormulaValue::Number(x) = &a.value {
        if let FormulaValue::Number(y) = &b.value {
            return same_number(*x, *y);
        }
    }
    let s: String = a.plain_text().as_str().to_uppercase();
    let t: String = b.plain_text().as_str().to_uppercase();
    same_text(s.as_str(), t.as_str())
}

/// `SWITCH` from the pair at `i` on: the value of the first pair whose key is like the first
/// argument, or the last argument where it stands alone.
pub open spec fn switch_of(args: Seq<Given>, i: int) -> Said
    decreases args.len() - i,
{
    if 1 <= i && i + 1 < args.len() {
        if alike(nth(args, i), nth(args, 0)) {
            Said::Value(nth(args, i + 1).value)
        } else {
            switch_of(args, i + 2)
        }
    } else if i < args.len() {
        Said::Value(nth(args, i).value)
    } else {
        failed(FormulaError::Na)
    }
}

/// What `SWITCH` says: blank where it is given nothing.
pub open spec fn switch_or_blank(args: Seq<Given>) -> Said {
    if args.len() > 0 {
        switch_of(args, 1)
    } else {
        Said::Value(FValue::Blank)
    }
}

/// `SWITCH`.
pub fn switch_fn(args: &Vec<Arg>) -> (r: Reply)
    requires
        args.len() > 0,
    ensures
        r@ == switch_of(given(args@), 1),
{
    let ghost all = given(args@);
    let target: Reading = arg_at(args, 0);
    let n: usize = args.len();
    let mut i: usize = 1;
    while n >= 2 && i <= n - 2
        invariant
            n == args.len(),
            1 <= i <= n,
            all == given(args@),
            target@ == nth(all, 0),
            switch_of(all, 1) == switch_of(all, i as int),
        decreases n - i,
    {
        if compare_eq(&arg_at(args, i), &target) {
            return Reply::Value(arg_at(args, i + 1).value);
        }
        i = i + 2;
    }
    if i < n {
        Reply::Value(arg_at(args, i).value)
    } else {
        Reply::error(FormulaError::Na)
    }
}

/// `CHOOSE`: the argument whose number the first one gives.
pub open spec fn choose_of(args: Seq<Given>) -> Said {
    match num(nth(args, 0)) {
        Err(e) => failed(e),
        Ok(n) => if 1 <= truncated(n) < args.len() {
            Said::Value(nth(args, truncated(n)).value)
        } else {
            failed(FormulaError::Value)
        },
    }
}

/// `CHOOSE`.
pub fn pick_arg(args: &Vec<Arg>) -> (r: Reply)
    ensures
        r@ == choose_of(given(args@)),
{
    match number_at(args, 0) {
        Err(e) => Reply::error(e),
        Ok(n) => {
            let k: i64 = whole(n);
            if k >= 1 && (k as u64) < args.len() as u64 {
                Reply::Value(arg_at(args, k as usize).value)
            } else {
                Reply::error(FormulaError::Value)
            }
        },
    }
}

/// `COALESCE`: the first argument that is not blank.
pub open spec fn coalesce_of(args: Seq<Given>, i: int) -> Said
    decreases args.len() - i,
{
    if 0 <= i < args.len() {
        if !blank(nth(args, i).value) {
            Said::Value(nth(args, i).value)
        } else {
            coalesce_of(args, i + 1)
        }
    } else {
        Said::Value(FValue::Blank)
    }
}

/// `COALESCE`.
pub fn coalesce(args: &Vec<Arg>) -> (r: Reply)
    ensures
        r@ == coalesce_of(given(args@), 0),
{
    let ghost all = given(args@);
    let mut i: usize = 0;
    while i < args.len()
        invariant
            i <= args.len(),
            all == given(args@),
            coalesce_of(all, 0) == coalesce_of(all, i as int),
        decreases args.len() - i,
    {
        let v: FormulaValue = arg_at(args, i).value;
        if !v.is_blank() {
            return Reply::Value(v);
        }
        i = i + 1;
    }
    Reply::Value(FormulaValue::Blank)
}

/// A question about a value's kind.
#[derive(Debug, Clone, Copy, PartialEq, Eq, Structural)]
pub enum Kind {
    Blank,
    Error,
    Number,
    Text,
    Logical,
    NonText,
    Na,
    OtherError,
}

/// Whether a value is of a kind.
pub open spec fn is_kind(v: FValue, k: Kind) -> bool {
    match k {
        Kind::Blank => blank(v),
        Kind::Error => v is Error,
        Kind::Number => v is Number,
        Kind::Text => v is Text,
        Kind::Logical => v is Bool,
        Kind::NonText => !(v is Text),
        Kind::Na => v == FValue::Error(FormulaError::Na),
        Kind::OtherError => v is Error && v != FValue::Error(FormulaError::Na),
    }
}

/// `ISBLANK`, `ISERROR` and the like.
pub fn ask_kind(args: &Vec<Arg>, k: Kind) -> (r: Reply)
    ensures
        r@ == yes(is_kind(nth(given(args@), 0).value, k)),
{
    let v: FormulaValue = arg_at(args, 0).value;
    let na: bool = match &v {
        FormulaValue::Error(e) => *e == FormulaError::Na,
        _ => false,
    };
    let b: bool = match k {
        Kind::Blank => v.is_blank(),
        Kind::Error => v.is_error(),
        Kind::Number => matches!(v, FormulaValue::Number(_)),
        Kind::Text => matches!(v, FormulaValue::Text(_)),
        Kind::Logical => matches!(v, FormulaValue::Bool(_)),
        Kind::NonText => !matches!(v, FormulaValue::Text(_)),
        Kind::Na => na,
        Kind::OtherError => v.is_error() && !na,
    };
    Reply::truth(b)
}

/// `ISODD` and `ISEVEN`.
pub open spec fn parity_of(args: Seq<Given>, odd: bool) -> Said {
    match num(nth(args, 0)) {
        Err(e) => failed(e),
        Ok(n) => {
            let k = magnitude_whole(n);
            yes(
                if odd {
                    k % 2 == 1
                } else {
                    k % 2 == 0
                },
            )
        },
    }
}

/// The whole part of a number without its sign, held within the range of 64-bit integers.
pub open spec fn magnitude_whole(n: Num) -> int {
    truncated(
        if n.bits >= crate::value::SIGN {
            Num { bits: (n.bits - crate::value::SIGN) as u64 }
        } else {
            n
        },
    )
}

/// `ISODD` and `ISEVEN`.
pub fn parity(args: &Vec<Arg>, odd: bool) -> (r: Reply)
    ensures
        r@ == parity_of(given(args@), odd),
{
    match number_at(args, 0) {
        Err(e) => Reply::error(e),
        Ok(n) => {
            let m: Num = if n.bits >= crate::value::SIGN {
                Num { bits: n.bits - crate::value::SIGN }
            } else {
                n
            };
            let k: i64 = whole(m);
            proof {
                let e = m.magnitude() / 0x10_0000_0000_0000;
                whole_not_negative(m);
            }
            Reply::truth(
                if odd {
                    k % 2 == 1
                } else {
                    k % 2 == 0
                },
            )
        },
    }
}

proof fn whole_not_negative(m: Num)
    requires
        m.bits < crate::value::SIGN,
    ensures
        truncated(m) >= 0,
{
    let e = m.magnitude() / 0x10_0000_0000_0000;
    let f = m.magnitude() % 0x10_0000_0000_0000;
    let s = if e == 0 {
        f
    } else {
        f + 0x10_0000_0000_0000
    };
    let up = crate::reading::two_to(e - 1075);
    let down = crate::reading::two_to(1075 - e);
    two_to_positive(e - 1075);
    two_to_positive(1075 - e);
    assert(s * up >= 0) by (nonlinear_arith)
        requires
            s >= 0,
            up >= 1,
    ;
    assert(s / down >= 0) by (nonlinear_arith)
        requires
            s >= 0,
            down >= 1,
    ;
}

proof fn two_to_positive(k: int)
    ensures
        crate::reading::two_to(k) >= 1,
    decreases k,
{
    if k > 0 {
        two_to_positive(k - 1);
    }
}

/// `N`: a number, or what stands for a truth value; 0 for anything else that is no error.
pub open spec fn n_of(v: FValue) -> Said {
    match v {
        FValue::Error(e) => failed(e),
        FValue::Number(n) => figure(n),
        FValue::Bool(b) => figure(
            if b {
                one()
            } else {
                zero()
            },
        ),
        _ => figure(zero()),
    }
}

/// `N`.
pub fn n_fn(args: &Vec<Arg>) -> (r: Reply)
    ensures
        r@ == n_of(nth(given(args@), 0).value),
{
    match arg_at(args, 0).value {
        FormulaValue::Error(e) => Reply::error(e),
        FormulaValue::Number(n) => Reply::number(n),
        FormulaValue::Bool(b) => Reply::number(
            if b {
                Num { bits: 0x3ff0_0000_0000_0000 }
            } else {
                Num { bits: 0 }
            },
        ),
        _ => Reply::number(Num { bits: 0 }),
    }
}

/// `T`: a text, the empty text for anything else that is no error.
pub open spec fn t_of(v: FValue) -> Said {
    match v {
        FValue::Error(e) => failed(e),
        FValue::Text(s) => Said::Value(FValue::Text(s)),
        _ => Said::Value(FValue::Text(Seq::empty())),
    }
}

/// `T`.
pub fn t_fn(args: &Vec<Arg>) -> (r: Reply)
    ensures
        r@ == t_of(nth(given(args@), 0).value),
{
    match arg_at(args, 0).value {
        FormulaValue::Error(e) => Reply::error(e),
        FormulaValue::Text(s) => Reply::text(s),
        _ => {
            let none: String = String::new();
            assert(none@ =~= Seq::empty());
            Reply::text(none)
        },
    }
}

/// `TYPE`: a number for a value's kind.
pub open spec fn type_of(v: FValue) -> int {
    match v {
        FValue::Number(_) => 1,
        FValue::Text(_) => 2,
        FValue::Bool(_) => 4,
        FValue::Error(_) => 16,
        FValue::Blank => 1,
    }
}

/// `TYPE`.
pub fn type_fn(args: &Vec<Arg>) -> (r: Reply)
    ensures
        r@ == Said::Int(type_of(nth(given(args@), 0).value)),
{
    Reply::Int(
        match arg_at(args, 0).value {
            FormulaValue::Number(_) => 1,
            FormulaValue::Text(_) => 2,
            FormulaValue::Bool(_) => 4,
            FormulaValue::Error(_) => 16,
            FormulaValue::Blank => 1,
        },
    )
}

/// A number for an error's kind.
pub open spec fn error_code(e: FormulaError) -> int {
    match e {
        FormulaError::Div0 => 2,
        FormulaError::Value => 3,
        FormulaError::Ref => 4,
        FormulaError::Name => 5,
        FormulaError::Num => 6,
        FormulaError::Na => 7,
        FormulaError::Spill => 7,
        FormulaError::Circ => 7,
    }
}

/// What `ERROR.TYPE` says: the number of the error, `#N/A` for what is none.
pub open spec fn error_type_of(args: Seq<Given>) -> Said {
    match nth(args, 0).value {
        FValue::Error(e) => Said::Int(error_code(e)),
        _ => failed(FormulaError::Na),
    }
}

/// `ERROR.TYPE`.
pub fn error_type(args: &Vec<Arg>) -> (r: Reply)
    ensures
        r@ == error_type_of(given(args@)),
{
    match arg_at(args, 0).value.as_error() {
        Some(e) => Reply::Int(
            match e {
                FormulaError::Div0 => 2,
                FormulaError::Value => 3,
                FormulaError::Ref => 4,
                FormulaError::Name => 5,
                FormulaError::Num => 6,
                FormulaError::Na => 7,
                FormulaError::Spill => 7,
                FormulaError::Circ => 7,
            },
        ),
        None => Reply::error(FormulaError::Na),
    }
}

/// `ISREF`: whether the argument is an area.
pub fn is_ref(args: &Vec<Arg>) -> (r: Reply)
    ensures
        r@ == yes(args.len() > 0 && given(args@)[0] is Area),
{
    Reply::truth(args.len() > 0 && matches!(args[0], Arg::Area(_)))
}

/// `ROWS` and `COLUMNS`: how many rows an argument has, or how many values its first row has.
pub open spec fn extent(m: Seq<Seq<Read>>, rows: bool) -> nat {
    if rows {
        m.len()
    } else if m.len() > 0 {
        m[0].len()
    } else {
        0
    }
}

/// `ROWS` and `COLUMNS`.
pub fn extent_fn(args: &Vec<Arg>, rows: bool) -> (r: Reply)
    ensures
        r@ == counted(extent(matrix(given(args@), 0), rows) as int),
{
    let m: Vec<Vec<Reading>> = matrix_arg(args, 0);
    let n: usize = if rows {
        m.len()
    } else if m.len() > 0 {
        m[0].len()
    } else {
        0
    };
    assert(n == extent(read_rows(m@), rows));
    Reply::count(n)
}

} // verus!
