//! What holds of functions that decide: which argument comes out of a choice, and when several
//! conditions hold together.
use crate::logic_fn::{
    and_of, choose_of, coalesce_of, decision, error_code, error_in, error_type_of, if_of, ifs_of,
    is_kind, n_of, not_of, or_of, parity_of, switch_of, switch_or_blank, t_of, tally, type_of,
    unless_error, xor_of, Kind,
};
use crate::reading::{everything, failed, truncated, yes, Given, Said};
use crate::text_law::count_given;
use crate::value::{blank, one, zero, FValue, FormulaError, Num};
use vstd::prelude::*;

verus! {

/// Whether an argument is a value.
pub open spec fn value_given(args: Seq<Given>, i: int, v: FValue) -> bool {
    0 <= i < args.len() && (args[i] matches Given::One(r) && r.value == v)
}

/// Whether the arguments are truth values.
pub open spec fn truths_given(args: Seq<Given>, bs: Seq<bool>) -> bool {
    args.len() == bs.len() && forall|i: int|
        0 <= i < bs.len() ==> value_given(args, i, FValue::Bool(#[trigger] bs[i]))
}

/// `IF` gives its second argument where its first is true, and its third where it is false; where
/// that argument is not there, it gives the truth value.
pub proof fn conditions_choose(args: Seq<Given>, b: bool, v: FValue, w: FValue)
    requires
        value_given(args, 0, FValue::Bool(b)),
    ensures
        b && value_given(args, 1, v) ==> if_of(args) == Said::Value(v),
        !b && value_given(args, 2, w) ==> if_of(args) == Said::Value(w),
        b && args.len() == 1 ==> if_of(args) == yes(true),
        !b && args.len() <= 2 ==> if_of(args) == yes(false),
        not_of(args) == yes(!b),
{
}

/// `IF` takes a number for true unless it is zero, and an error for itself.
pub proof fn numbers_are_conditions(args: Seq<Given>, n: Num, e: FormulaError, v: FValue, w: FValue)
    requires
        value_given(args, 1, v),
        value_given(args, 2, w),
    ensures
        value_given(args, 0, FValue::Number(n)) ==> if_of(args) == Said::Value(
            if n.rank() == 0 {
                w
            } else {
                v
            },
        ),
        value_given(args, 0, FValue::Blank) ==> if_of(args) == Said::Value(w),
        value_given(args, 0, FValue::Error(e)) ==> if_of(args) == failed(e),
{
}

/// `IFERROR` and `IFNA` give their first argument, and their second where the first is an error,
/// or that one error.
pub proof fn errors_are_replaced(args: Seq<Given>, v: FValue, w: FValue)
    requires
        value_given(args, 0, v),
        value_given(args, 1, w),
    ensures
        !(v is Error) ==> unless_error(args, None) == Said::Value(v),
        v is Error ==> unless_error(args, None) == Said::Value(w),
        v != FValue::Error(FormulaError::Na) ==> unless_error(args, Some(FormulaError::Na))
            == Said::Value(v),
        v == FValue::Error(FormulaError::Na) ==> unless_error(args, Some(FormulaError::Na))
            == Said::Value(w),
{
}

/// How many of some truth values hold.
pub open spec fn how_many(bs: Seq<bool>) -> nat {
    bs.filter(|b: bool| b).len()
}

proof fn truths_read(args: Seq<Given>, bs: Seq<bool>)
    requires
        truths_given(args, bs),
    ensures
        everything(args).len() == bs.len(),
        forall|i: int|
            0 <= i < bs.len() ==> (#[trigger] everything(args)[i]).value == FValue::Bool(bs[i]),
        error_in(everything(args)) is None,
        tally(everything(args)) == Ok::<(nat, nat), FormulaError>((bs.len(), how_many(bs))),
        forall|w: bool|
            #![trigger decision(everything(args), w)]
            decision(everything(args), w) == (if bs.contains(w) {
                Some(Ok::<bool, FormulaError>(w))
            } else {
                None
            }),
    decreases bs.len(),
{
    let vs = everything(args);
    let keep = |b: bool| b;
    if bs.len() == 0 {
        assert(bs =~= Seq::empty());
        reveal(Seq::filter);
        assert(bs.filter(keep).len() == 0);
    } else {
        let fore = args.drop_last();
        let less = bs.drop_last();
        let k = bs.len() - 1;
        assert forall|i: int| 0 <= i < less.len() implies value_given(
            fore,
            i,
            FValue::Bool(#[trigger] less[i]),
        ) by {
            assert(value_given(args, i, FValue::Bool(bs[i])));
        }
        truths_read(fore, less);
        assert(value_given(args, k, FValue::Bool(bs[k])));
        let r = args[k]->One_0;
        assert(vs =~= everything(fore).push(r));
        assert(vs.drop_last() =~= everything(fore));
        assert(vs.last() == r);
        assert(bs =~= less.push(bs[k]));
        reveal(Seq::filter);
        assert(bs.drop_last() =~= less);
        assert(how_many(bs) == how_many(less) + if bs[k] {
            1nat
        } else {
            0nat
        });
        assert forall|w: bool|
            #![trigger decision(everything(args), w)]
            decision(everything(args), w) == (if bs.contains(w) {
                Some(Ok::<bool, FormulaError>(w))
            } else {
                None
            }) by {
            assert(decision(everything(fore), w) == (if less.contains(w) {
                Some(Ok::<bool, FormulaError>(w))
            } else {
                None
            }));
            if less.contains(w) {
                let j = choose|j: int| 0 <= j < less.len() && less[j] == w;
                assert(bs[j] == w);
            }
            if bs.contains(w) && bs[k] != w {
                let j = choose|j: int| 0 <= j < bs.len() && bs[j] == w;
                assert(less[j] == w);
            }
            if bs[k] == w {
                assert(bs.contains(w));
            }
        }
    }
}

/// Of truth values, `AND` says whether all hold, `OR` whether one does, and `XOR` whether an odd
/// number of them does.
pub proof fn conditions_hold_together(args: Seq<Given>, bs: Seq<bool>)
    requires
        truths_given(args, bs),
        bs.len() > 0,
    ensures
        and_of(args) == yes(!bs.contains(false)),
        or_of(args) == yes(bs.contains(true)),
        xor_of(args) == yes(how_many(bs) % 2 == 1),
{
    truths_read(args, bs);
    let vs = everything(args);
    assert(vs[0].value == FValue::Bool(bs[0]));
    assert(crate::logic_fn::any_filled(vs));
    if bs.contains(false) {
        assert(decision(vs, false) == Some(Ok::<bool, FormulaError>(false)));
    }
}

/// `IFS` gives the value behind the first condition that holds, and `#N/A` where none does.
pub proof fn first_condition_chooses(args: Seq<Given>, bs: Seq<bool>, k: int, v: FValue)
    requires
        args.len() == 2 * bs.len(),
        forall|i: int|
            0 <= i < bs.len() ==> value_given(args, 2 * i, FValue::Bool(#[trigger] bs[i])),
        0 <= k <= bs.len(),
        forall|i: int| 0 <= i < k ==> !#[trigger] bs[i],
        k < bs.len() ==> bs[k] && value_given(args, 2 * k + 1, v),
    ensures
        k < bs.len() ==> ifs_of(args, 0) == Said::Value(v),
        k == bs.len() ==> ifs_of(args, 0) == failed(FormulaError::Na),
{
    ifs_from(args, bs, 0, k, v);
}

proof fn ifs_from(args: Seq<Given>, bs: Seq<bool>, j: int, k: int, v: FValue)
    requires
        args.len() == 2 * bs.len(),
        forall|i: int|
            0 <= i < bs.len() ==> value_given(args, 2 * i, FValue::Bool(#[trigger] bs[i])),
        0 <= j <= k <= bs.len(),
        forall|i: int| 0 <= i < k ==> !#[trigger] bs[i],
        k < bs.len() ==> bs[k] && value_given(args, 2 * k + 1, v),
    ensures
        k < bs.len() ==> ifs_of(args, 2 * j) == Said::Value(v),
        k == bs.len() ==> ifs_of(args, 2 * j) == failed(FormulaError::Na),
    decreases k - j,
{
    if j < bs.len() {
        assert(value_given(args, 2 * j, FValue::Bool(bs[j])));
        if j < k {
            ifs_from(args, bs, j + 1, k, v);
        }
    }
}

/// Whether arguments are numbers that are none of a kind that compares with nothing.
pub open spec fn key_given(args: Seq<Given>, i: int, n: Num) -> bool {
    value_given(args, i, FValue::Number(n)) && !n.nan()
}

/// `SWITCH` gives the value behind the first key that equals its first argument; where none does,
/// the argument that stands alone at the end, or `#N/A`.
pub proof fn first_key_chooses(args: Seq<Given>, x: Num, keys: Seq<Num>, k: int, v: FValue)
    requires
        key_given(args, 0, x),
        args.len() == 1 + 2 * keys.len() || args.len() == 2 + 2 * keys.len(),
        forall|i: int| 0 <= i < keys.len() ==> key_given(args, 1 + 2 * i, #[trigger] keys[i]),
        0 <= k <= keys.len(),
        forall|i: int| 0 <= i < k ==> (#[trigger] keys[i]).rank() != x.rank(),
        k < keys.len() ==> keys[k].rank() == x.rank() && value_given(args, 2 + 2 * k, v),
        k == keys.len() && args.len() == 2 + 2 * keys.len() ==> value_given(
            args,
            (1 + 2 * keys.len()) as int,
            v,
        ),
    ensures
        k < keys.len() || args.len() == 2 + 2 * keys.len() ==> switch_or_blank(args) == Said::Value(
            v,
        ),
        k == keys.len() && args.len() == 1 + 2 * keys.len() ==> switch_or_blank(args) == failed(
            FormulaError::Na,
        ),
{
    switch_from(args, x, keys, 0, k, v);
}

proof fn switch_from(args: Seq<Given>, x: Num, keys: Seq<Num>, j: int, k: int, v: FValue)
    requires
        key_given(args, 0, x),
        args.len() == 1 + 2 * keys.len() || args.len() == 2 + 2 * keys.len(),
        forall|i: int| 0 <= i < keys.len() ==> key_given(args, 1 + 2 * i, #[trigger] keys[i]),
        0 <= j <= k <= keys.len(),
        forall|i: int| 0 <= i < k ==> (#[trigger] keys[i]).rank() != x.rank(),
        k < keys.len() ==> keys[k].rank() == x.rank() && value_given(args, 2 + 2 * k, v),
        k == keys.len() && args.len() == 2 + 2 * keys.len() ==> value_given(
            args,
            (1 + 2 * keys.len()) as int,
            v,
        ),
    ensures
        k < keys.len() || args.len() == 2 + 2 * keys.len() ==> switch_of(args, 1 + 2 * j)
            == Said::Value(v),
        k == keys.len() && args.len() == 1 + 2 * keys.len() ==> switch_of(args, 1 + 2 * j)
            == failed(FormulaError::Na),
    decreases k - j,
{
    if j < keys.len() {
        assert(key_given(args, 1 + 2 * j, keys[j]));
        if j < k {
            switch_from(args, x, keys, j + 1, k, v);
        }
    }
}

/// `CHOOSE` gives the argument whose number is asked for, counted from 1 behind the first, and
/// `#VALUE!` where there is none.
pub proof fn numbers_choose(args: Seq<Given>, k: int, v: FValue)
    requires
        count_given(args, 0, k),
    ensures
        1 <= k && value_given(args, k, v) ==> choose_of(args) == Said::Value(v),
        k < 1 || k >= args.len() ==> choose_of(args) == failed(FormulaError::Value),
{
}

/// `COALESCE` gives the first argument that is not blank.
pub proof fn first_filled_is_given(args: Seq<Given>, vs: Seq<FValue>, k: int)
    requires
        args.len() == vs.len(),
        forall|i: int| 0 <= i < vs.len() ==> value_given(args, i, #[trigger] vs[i]),
        0 <= k < vs.len(),
        forall|i: int| 0 <= i < k ==> #[trigger] vs[i] is Blank,
        !blank(vs[k]),
    ensures
        coalesce_of(args, 0) == Said::Value(vs[k]),
{
    coalesce_from(args, vs, 0, k);
}

proof fn coalesce_from(args: Seq<Given>, vs: Seq<FValue>, j: int, k: int)
    requires
        args.len() == vs.len(),
        forall|i: int| 0 <= i < vs.len() ==> value_given(args, i, #[trigger] vs[i]),
        0 <= j <= k < vs.len(),
        forall|i: int| 0 <= i < k ==> #[trigger] vs[i] is Blank,
        !blank(vs[k]),
    ensures
        coalesce_of(args, j) == Said::Value(vs[k]),
    decreases k - j,
{
    assert(value_given(args, j, vs[j]));
    if j < k {
        coalesce_from(args, vs, j + 1, k);
    }
}

/// The tests of a value's kind tell the kinds apart: each value has one kind, an error is `#N/A` or
/// another, and what is no text is one of the rest.
pub proof fn kinds_tell_values_apart(n: Num, s: Seq<char>, b: bool, e: FormulaError)
    ensures
        forall|k: Kind|
            #![trigger is_kind(FValue::Number(n), k)]
            is_kind(FValue::Number(n), k) == (k is Number || k is NonText),
        s.len() > 0 ==> forall|k: Kind|
            #![trigger is_kind(FValue::Text(s), k)]
            is_kind(FValue::Text(s), k) == (k is Text),
        forall|k: Kind|
            #![trigger is_kind(FValue::Bool(b), k)]
            is_kind(FValue::Bool(b), k) == (k is Logical || k is NonText),
        forall|k: Kind|
            #![trigger is_kind(FValue::Blank, k)]
            is_kind(FValue::Blank, k) == (k is Blank || k is NonText),
        forall|k: Kind|
            #![trigger is_kind(FValue::Error(e), k)]
            is_kind(FValue::Error(e), k) == (k is Error || k is NonText || (if e
                == FormulaError::Na {
                k is Na
            } else {
                k is OtherError
            })),
{
}

/// `ISODD` and `ISEVEN` of a whole number that is not negative.
pub proof fn whole_numbers_are_odd_or_even(args: Seq<Given>, k: int, n: Num)
    requires
        value_given(args, 0, FValue::Number(n)),
        n.finite(),
        n.bits < crate::value::SIGN,
        truncated(n) == k,
    ensures
        parity_of(args, true) == yes(k % 2 == 1),
        parity_of(args, false) == yes(k % 2 == 0),
{
}

/// The numbers of errors are apart from each other, and only an error has one.
pub proof fn errors_have_numbers(args: Seq<Given>, v: FValue, e: FormulaError, f: FormulaError)
    requires
        value_given(args, 0, v),
    ensures
        v == FValue::Error(e) ==> error_type_of(args) == Said::Int(error_code(e)),
        !(v is Error) ==> error_type_of(args) == failed(FormulaError::Na),
        error_code(e) == error_code(f) && error_code(e) < 7 ==> e == f,
        type_of(v) == 16 <==> v is Error,
        type_of(v) == 4 <==> v is Bool,
        type_of(v) == 2 <==> v is Text,
        type_of(v) == 1 <==> v is Number || v is Blank,
{
}

/// `N` gives numbers and what stands for truth values, and `T` gives texts; each gives nothing of the
/// other kinds, and errors come out of both.
pub proof fn numbers_and_texts_are_told_apart(n: Num, s: Seq<char>, b: bool, e: FormulaError)
    ensures
        n_of(FValue::Number(n)) == Said::Value(FValue::Number(n)),
        n_of(FValue::Bool(true)) == Said::Value(FValue::Number(one())),
        n_of(FValue::Bool(false)) == Said::Value(FValue::Number(zero())),
        n_of(FValue::Text(s)) == Said::Value(FValue::Number(zero())),
        n_of(FValue::Error(e)) == failed(e),
        t_of(FValue::Text(s)) == Said::Value(FValue::Text(s)),
        t_of(FValue::Number(n)) == Said::Value(FValue::Text(Seq::empty())),
        t_of(FValue::Bool(b)) == Said::Value(FValue::Text(Seq::empty())),
        t_of(FValue::Error(e)) == failed(e),
{
}

} // verus!
