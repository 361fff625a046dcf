//! What holds of functions that look values up: the value that comes out stands beside the key that
//! was looked for.
use crate::lookup_fn::{
    exactly, first_exact, index_of, lookup_list_of, lookup_of, loose, match_of, reached, table_keys,
    xlookup_of,
};
use crate::reading::{all_of, counted, failed, num, truncated, truth, Given, Read, Said};
use crate::sorting::{text_le, text_le_antisym, text_le_total, text_le_trans};
use crate::text::upper;
use crate::value::{FValue, FormulaError};
use vstd::prelude::*;

verus! {

/// Whether a value is not greater than another of its kind: numbers by value, texts by their
/// letters, in capitals or not.
pub open spec fn not_above(a: Read, b: Read) -> bool {
    match (a.value, b.value) {
        (FValue::Number(x), FValue::Number(y)) => x.rank() <= y.rank(),
        (FValue::Text(s), FValue::Text(t)) => text_le(upper(s), upper(t)),
        _ => false,
    }
}

/// Whether all values can be compared: numbers, or texts with something in them.
pub open spec fn of_one_kind(keys: Seq<Read>, target: Read) -> bool {
    match target.value {
        FValue::Number(y) => !y.nan() && forall|i: int|
            0 <= i < keys.len() ==> ((#[trigger] keys[i]).value matches FValue::Number(x) && !x.nan()),
        FValue::Text(_) => forall|i: int|
            0 <= i < keys.len() ==> ((#[trigger] keys[i]).value matches FValue::Text(s) && s.len() > 0),
        _ => false,
    }
}

/// Whether each value is not greater than those behind it.
pub open spec fn rising(keys: Seq<Read>) -> bool {
    forall|i: int, j: int|
        0 <= i <= j < keys.len() ==> not_above(#[trigger] keys[i], #[trigger] keys[j])
}

/// Whether each value is not smaller than those behind it.
pub open spec fn falling(keys: Seq<Read>) -> bool {
    forall|i: int, j: int|
        0 <= i <= j < keys.len() ==> not_above(#[trigger] keys[j], #[trigger] keys[i])
}

/// Whether `k` is the last place whose key is not greater than a target.
pub open spec fn is_last_below(keys: Seq<Read>, target: Read, k: int) -> bool {
    &&& 0 <= k < keys.len()
    &&& not_above(keys[k], target)
    &&& forall|j: int| k < j < keys.len() ==> !not_above(#[trigger] keys[j], target)
}

/// Whether `k` is the last place whose key is not smaller than a target.
pub open spec fn is_last_above(keys: Seq<Read>, target: Read, k: int) -> bool {
    &&& 0 <= k < keys.len()
    &&& not_above(target, keys[k])
    &&& forall|j: int| k < j < keys.len() ==> !not_above(target, #[trigger] keys[j])
}

proof fn loose_is(a: Read, b: Read)
    requires
        of_one_kind(seq![a], b),
    ensures
        loose(a, b) is Some,
        loose(a, b)->0 <= 0 <==> not_above(a, b),
        loose(a, b)->0 >= 0 <==> not_above(b, a),
{
    assert(seq![a][0] == a);
    match (a.value, b.value) {
        (FValue::Text(s), FValue::Text(t)) => {
            text_le_total(upper(s), upper(t));
            if text_le(upper(s), upper(t)) && text_le(upper(t), upper(s)) {
                text_le_antisym(upper(s), upper(t));
            }
        },
        _ => {},
    }
}

proof fn below_goes_down(a: Read, b: Read, c: Read)
    requires
        not_above(a, b),
        not_above(b, c),
    ensures
        not_above(a, c),
{
    match (a.value, b.value, c.value) {
        (FValue::Text(r), FValue::Text(s), FValue::Text(t)) => {
            text_le_trans(upper(r), upper(s), upper(t));
        },
        _ => {},
    }
}

proof fn one_kind(keys: Seq<Read>, target: Read, i: int)
    requires
        of_one_kind(keys, target),
        0 <= i < keys.len(),
    ensures
        of_one_kind(seq![keys[i]], target),
{
    let one = seq![keys[i]];
    assert forall|j: int| 0 <= j < one.len() implies #[trigger] one[j] == keys[i] by {}
}

proof fn reached_below(keys: Seq<Read>, target: Read, i: int, found: int, k: int)
    requires
        of_one_kind(keys, target),
        rising(keys),
        is_last_below(keys, target, k),
        0 <= i <= k + 1,
        found == i - 1,
    ensures
        reached(keys, target, false, i, found) == k,
    decreases keys.len() - i,
{
    if i < keys.len() {
        one_kind(keys, target, i);
        loose_is(keys[i], target);
        if i <= k {
            assert(not_above(keys[i], keys[k]));
            below_goes_down(keys[i], keys[k], target);
            reached_below(keys, target, i + 1, i, k);
        } else {
            assert(!not_above(keys[i], target));
        }
    }
}

proof fn reached_above(keys: Seq<Read>, target: Read, i: int, found: int, k: int)
    requires
        of_one_kind(keys, target),
        falling(keys),
        is_last_above(keys, target, k),
        0 <= i <= k + 1,
        found == i - 1,
    ensures
        reached(keys, target, true, i, found) == k,
    decreases keys.len() - i,
{
    if i < keys.len() {
        one_kind(keys, target, i);
        loose_is(keys[i], target);
        if i <= k {
            assert(not_above(keys[k], keys[i]));
            below_goes_down(target, keys[k], keys[i]);
            reached_above(keys, target, i + 1, i, k);
        } else {
            assert(!not_above(target, keys[i]));
        }
    }
}

proof fn reached_nothing(keys: Seq<Read>, target: Read)
    requires
        of_one_kind(keys, target),
        keys.len() > 0,
        !not_above(keys[0], target),
    ensures
        reached(keys, target, false, 0, -1) == -1,
{
    one_kind(keys, target, 0);
    loose_is(keys[0], target);
}

/// Whether `k` is the first place of a key.
pub open spec fn is_first_exact(keys: Seq<Read>, target: Read, k: int) -> bool {
    &&& 0 <= k < keys.len()
    &&& exactly(keys[k], target)
    &&& forall|j: int| 0 <= j < k ==> !exactly(#[trigger] keys[j], target)
}

proof fn exact_found(keys: Seq<Read>, target: Read, i: int, k: int)
    requires
        is_first_exact(keys, target, k),
        0 <= i <= k,
    ensures
        first_exact(keys, target, i) == Some(k),
    decreases k - i,
{
    if i < k {
        assert(!exactly(keys[i], target));
        exact_found(keys, target, i + 1, k);
    }
}

proof fn exact_missing(keys: Seq<Read>, target: Read, i: int)
    requires
        forall|j: int| 0 <= j < keys.len() ==> !exactly(#[trigger] keys[j], target),
        0 <= i,
    ensures
        first_exact(keys, target, i) is None,
    decreases keys.len() - i,
{
    if i < keys.len() {
        assert(!exactly(keys[i], target));
        exact_missing(keys, target, i + 1);
    }
}

/// Numbers are the one looked for where they have its value, and texts without wildcards where they
/// have its letters, in capitals or not.
pub proof fn exact_is_equal(a: Read, b: Read)
    ensures
        (a.value matches FValue::Number(x) && b.value matches FValue::Number(y) && !x.nan()
            && !y.nan()) ==> (exactly(a, b) <==> a.value->Number_0.rank()
            == b.value->Number_0.rank()),
        (a.value matches FValue::Text(s) && b.value matches FValue::Text(t) && !t.contains('*')
            && !t.contains('?')) ==> (exactly(a, b) <==> upper(a.value->Text_0) == upper(
            b.value->Text_0,
        )),
{
    if let FValue::Text(t) = b.value {
        if !t.contains('*') && !t.contains('?') {
            assert(!crate::criteria::is_wild(t));
        }
    }
}

/// The first values of the rows of a table.
pub open spec fn first_column(m: Seq<Seq<Read>>) -> Seq<Read> {
    Seq::new(m.len(), |i: int| m[i][0])
}

/// Whether a table has as many columns in each row, and some.
pub open spec fn is_table(m: Seq<Seq<Read>>, cols: int) -> bool {
    cols > 0 && forall|i: int| 0 <= i < m.len() ==> (#[trigger] m[i]).len() == cols
}

/// Whether arguments ask for an approximate search, by saying nothing or by a fourth one that is
/// true.
pub open spec fn asks_about(args: Seq<Given>) -> bool {
    args.len() == 3 || (args.len() > 3 && args[3] is One && truth(args[3]->One_0) == Ok::<
        bool,
        FormulaError,
    >(true))
}

/// Whether arguments ask for an exact search, by a fourth one that is false.
pub open spec fn asks_exactly(args: Seq<Given>) -> bool {
    args.len() > 3 && args[3] is One && truth(args[3]->One_0) == Ok::<bool, FormulaError>(false)
}

/// Whether arguments are a target, a table and the number of a column or row, counted from 1.
pub open spec fn looks_in(
    args: Seq<Given>,
    target: Read,
    m: Seq<Seq<Read>>,
    number: int,
) -> bool {
    &&& args.len() >= 3
    &&& args[0] == Given::One(target)
    &&& args[1] == Given::Area(m)
    &&& args[2] is One
    &&& num(args[2]->One_0) matches Ok(n) && truncated(n) == number
}

/// `VLOOKUP` in a table whose first column rises gives the value of the asked column in the row of
/// the last key that is not greater than the target; so a target that is one of the keys, and is
/// there once, gives that key's own row. Where all keys are greater it is `#N/A`.
pub proof fn vlookup_finds_the_row(
    args: Seq<Given>,
    target: Read,
    m: Seq<Seq<Read>>,
    cols: int,
    number: int,
    k: int,
)
    requires
        looks_in(args, target, m, number),
        asks_about(args),
        is_table(m, cols),
        1 <= number <= cols,
        of_one_kind(first_column(m), target),
        rising(first_column(m)),
    ensures
        is_last_below(first_column(m), target, k) ==> lookup_of(args, true) == Said::Value(
            m[k][number - 1].value,
        ),
        m.len() > 0 && !not_above(m[0][0], target) ==> lookup_of(args, true) == failed(
            FormulaError::Na,
        ),
{
    let keys = first_column(m);
    assert(table_keys(m, true) =~= keys);
    if is_last_below(keys, target, k) {
        reached_below(keys, target, 0, -1, k);
    }
    if m.len() > 0 && !not_above(m[0][0], target) {
        reached_nothing(keys, target);
    }
}

/// `HLOOKUP` in a table whose first row rises gives the value of the asked row in the column of the
/// last key that is not greater than the target. Where all keys are greater it is `#N/A`.
pub proof fn hlookup_finds_the_column(
    args: Seq<Given>,
    target: Read,
    m: Seq<Seq<Read>>,
    cols: int,
    number: int,
    k: int,
)
    requires
        looks_in(args, target, m, number),
        asks_about(args),
        is_table(m, cols),
        1 <= number <= m.len(),
        of_one_kind(m[0], target),
        rising(m[0]),
    ensures
        is_last_below(m[0], target, k) ==> lookup_of(args, false) == Said::Value(
            m[number - 1][k].value,
        ),
        !not_above(m[0][0], target) ==> lookup_of(args, false) == failed(FormulaError::Na),
{
    assert(m[0].len() == cols);
    assert(m[number - 1].len() == cols);
    if is_last_below(m[0], target, k) {
        reached_below(m[0], target, 0, -1, k);
    }
    if !not_above(m[0][0], target) {
        reached_nothing(m[0], target);
    }
}

/// An exact `VLOOKUP` gives the value of the asked column in the first row whose key is the target,
/// in whatever order the keys are, and `#N/A` where no key is.
pub proof fn vlookup_finds_the_key(
    args: Seq<Given>,
    target: Read,
    m: Seq<Seq<Read>>,
    cols: int,
    number: int,
    k: int,
)
    requires
        looks_in(args, target, m, number),
        asks_exactly(args),
        is_table(m, cols),
        1 <= number <= cols,
    ensures
        is_first_exact(first_column(m), target, k) ==> lookup_of(args, true) == Said::Value(
            m[k][number - 1].value,
        ),
        (forall|j: int| 0 <= j < m.len() ==> !exactly(#[trigger] m[j][0], target)) ==> lookup_of(
            args,
            true,
        ) == failed(FormulaError::Na),
{
    let keys = first_column(m);
    assert(table_keys(m, true) =~= keys);
    if is_first_exact(keys, target, k) {
        exact_found(keys, target, 0, k);
    }
    if forall|j: int| 0 <= j < m.len() ==> !exactly(#[trigger] m[j][0], target) {
        assert forall|j: int| 0 <= j < keys.len() implies !exactly(#[trigger] keys[j], target) by {
            assert(!exactly(m[j][0], target));
        }
        exact_missing(keys, target, 0);
    }
}

/// An exact `HLOOKUP` gives the value of the asked row in the first column whose key is the target,
/// and `#N/A` where no key is.
pub proof fn hlookup_finds_the_key(
    args: Seq<Given>,
    target: Read,
    m: Seq<Seq<Read>>,
    cols: int,
    number: int,
    k: int,
)
    requires
        looks_in(args, target, m, number),
        asks_exactly(args),
        is_table(m, cols),
        1 <= number <= m.len(),
    ensures
        is_first_exact(m[0], target, k) ==> lookup_of(args, false) == Said::Value(
            m[number - 1][k].value,
        ),
        (forall|j: int| 0 <= j < cols ==> !exactly(#[trigger] m[0][j], target)) ==> lookup_of(
            args,
            false,
        ) == failed(FormulaError::Na),
{
    assert(m[0].len() == cols);
    assert(m[number - 1].len() == cols);
    if is_first_exact(m[0], target, k) {
        exact_found(m[0], target, 0, k);
    }
    if forall|j: int| 0 <= j < cols ==> !exactly(#[trigger] m[0][j], target) {
        exact_missing(m[0], target, 0);
    }
}

/// A column or row that a table does not have is `#REF!` where the key is found, and one under 1 is
/// `#VALUE!`.
pub proof fn lookups_stay_in_the_table(
    args: Seq<Given>,
    target: Read,
    m: Seq<Seq<Read>>,
    cols: int,
    number: int,
    k: int,
    vertical: bool,
)
    requires
        looks_in(args, target, m, number),
        asks_exactly(args),
        is_table(m, cols),
    ensures
        number < 1 ==> lookup_of(args, vertical) == failed(FormulaError::Value),
        number > cols && is_first_exact(first_column(m), target, k) ==> lookup_of(args, true)
            == failed(FormulaError::Ref),
        m.len() > 0 && number > m.len() && is_first_exact(m[0], target, k) ==> lookup_of(args, false)
            == failed(FormulaError::Ref),
{
    let keys = first_column(m);
    assert(table_keys(m, true) =~= keys);
    if is_first_exact(keys, target, k) {
        exact_found(keys, target, 0, k);
    }
    if m.len() > 0 && is_first_exact(m[0], target, k) {
        exact_found(m[0], target, 0, k);
    }
}

/// `INDEX` gives the value at a row and a column, counted from 1, and `#REF!` where the table has no
/// such place.
pub proof fn index_finds_the_place(
    args: Seq<Given>,
    m: Seq<Seq<Read>>,
    cols: int,
    r: int,
    c: int,
)
    requires
        args.len() == 3,
        args[0] == Given::Area(m),
        args[1] is One && args[2] is One,
        num(args[1]->One_0) matches Ok(n) && truncated(n) == r,
        num(args[2]->One_0) matches Ok(n) && truncated(n) == c,
        is_table(m, cols),
    ensures
        1 <= r <= m.len() && 1 <= c <= cols ==> index_of(args) == Said::Value(m[r - 1][c - 1].value),
        r > m.len() || c > cols || r < 0 || c < 0 ==> index_of(args) == failed(FormulaError::Ref),
        r == 0 && c == 0 && m.len() > 0 ==> index_of(args) == Said::Value(m[0][0].value),
{
    if 1 <= r <= m.len() {
        assert(m[r - 1].len() == cols);
    }
    if m.len() > 0 {
        assert(m[0].len() == cols);
    }
}

/// `INDEX` with one number gives the value at that place of a single row or column.
pub proof fn index_finds_in_a_line(args: Seq<Given>, m: Seq<Seq<Read>>, cols: int, k: int)
    requires
        args.len() == 2,
        args[0] == Given::Area(m),
        args[1] is One,
        num(args[1]->One_0) matches Ok(n) && truncated(n) == k,
        is_table(m, cols),
    ensures
        m.len() == 1 && 1 <= k <= cols ==> index_of(args) == Said::Value(m[0][k - 1].value),
        cols == 1 && 1 <= k <= m.len() ==> index_of(args) == Said::Value(m[k - 1][0].value),
        m.len() > 1 && cols > 1 ==> index_of(args) == failed(FormulaError::Ref),
{
    if m.len() > 0 {
        assert(m[0].len() == cols);
    }
    if 1 <= k <= m.len() {
        assert(m[k - 1].len() == cols);
    }
}

/// `MATCH` gives the place of a target, counted from 1: with 0, of the first value that is the
/// target; with 1 or nothing, of the last one that is not greater, where they rise; with -1, of the
/// last one that is not smaller, where they fall. Where there is none it is `#N/A`.
pub proof fn match_finds_the_place(args: Seq<Given>, target: Read, how: int, k: int)
    requires
        args.len() >= 2,
        args[0] == Given::One(target),
        args.len() > 2 ==> args[2] is One && (num(args[2]->One_0) matches Ok(n) && truncated(n)
            == how),
        args.len() == 2 ==> how == 1,
        all_of(args[1]).len() < i64::MAX,
    ensures
        ({
            let keys = all_of(args[1]);
            &&& how == 0 && is_first_exact(keys, target, k) ==> match_of(args) == Said::Int(k + 1)
            &&& how > 0 && of_one_kind(keys, target) && rising(keys) && is_last_below(keys, target, k)
                ==> match_of(args) == Said::Int(k + 1)
            &&& how < 0 && of_one_kind(keys, target) && falling(keys) && is_last_above(
                keys,
                target,
                k,
            ) ==> match_of(args) == Said::Int(k + 1)
            &&& how == 0 && (forall|j: int|
                0 <= j < keys.len() ==> !exactly(#[trigger] keys[j], target)) ==> match_of(args)
                == failed(FormulaError::Na)
            &&& how > 0 && of_one_kind(keys, target) && keys.len() > 0 && !not_above(keys[0], target)
                ==> match_of(args) == failed(FormulaError::Na)
        }),
{
    let keys = all_of(args[1]);
    if is_first_exact(keys, target, k) {
        exact_found(keys, target, 0, k);
    }
    if forall|j: int| 0 <= j < keys.len() ==> !exactly(#[trigger] keys[j], target) {
        exact_missing(keys, target, 0);
    }
    if of_one_kind(keys, target) {
        if rising(keys) && is_last_below(keys, target, k) {
            reached_below(keys, target, 0, -1, k);
        }
        if falling(keys) && is_last_above(keys, target, k) {
            reached_above(keys, target, 0, -1, k);
        }
        if keys.len() > 0 && !not_above(keys[0], target) {
            reached_nothing(keys, target);
        }
    }
}

/// `LOOKUP` gives what stands in its second list, or in its only one, at the place of the last value
/// of the first list that is not greater than the target, where they rise.
pub proof fn lookup_finds_beside(args: Seq<Given>, target: Read, k: int)
    requires
        args.len() == 2 || args.len() == 3,
        args[0] == Given::One(target),
        of_one_kind(all_of(args[1]), target),
        rising(all_of(args[1])),
        is_last_below(all_of(args[1]), target, k),
    ensures
        args.len() == 2 ==> lookup_list_of(args) == Said::Value(all_of(args[1])[k].value),
        args.len() == 3 && k < all_of(args[2]).len() ==> lookup_list_of(args) == Said::Value(
            all_of(args[2])[k].value,
        ),
{
    reached_below(all_of(args[1]), target, 0, -1, k);
}

/// `XLOOKUP` gives what stands in its second list at the place where the target first stands in its
/// first; where it stands nowhere, its fourth argument, or `#N/A` without one.
pub proof fn xlookup_finds_beside(args: Seq<Given>, target: Read, k: int)
    requires
        args.len() >= 3,
        args[0] == Given::One(target),
        args.len() > 3 ==> args[3] is One,
    ensures
        is_first_exact(all_of(args[1]), target, k) && k < all_of(args[2]).len() ==> xlookup_of(args)
            == Said::Value(all_of(args[2])[k].value),
        (forall|j: int|
            0 <= j < all_of(args[1]).len() ==> !exactly(#[trigger] all_of(args[1])[j], target))
            ==> xlookup_of(args) == (if args.len() > 3 {
            Said::Value(args[3]->One_0.value)
        } else {
            failed(FormulaError::Na)
        }),
{
    let keys = all_of(args[1]);
    if is_first_exact(keys, target, k) {
        exact_found(keys, target, 0, k);
    }
    if forall|j: int| 0 <= j < keys.len() ==> !exactly(#[trigger] keys[j], target) {
        exact_missing(keys, target, 0);
    }
}

/// The values of an area are taken row by row, each row from the left.
pub proof fn areas_are_laid_flat(m: Seq<Seq<Read>>, cols: int, i: int, j: int)
    requires
        is_table(m, cols),
        0 <= i < m.len(),
        0 <= j < cols,
    ensures
        all_of(Given::Area(m)).len() == m.len() * cols,
        0 <= i * cols + j < m.len() * cols,
        all_of(Given::Area(m))[i * cols + j] == m[i][j],
    decreases m.len(),
{
    flat_len(m, cols);
    let p = m.drop_last();
    assert(is_table(p, cols)) by {
        assert forall|a: int| 0 <= a < p.len() implies (#[trigger] p[a]).len() == cols by {
            assert(p[a] == m[a]);
        }
    }
    flat_len(p, cols);
    assert(m[m.len() - 1].len() == cols);
    let n = m.len() as int;
    assert((n - 1) * cols + cols == n * cols) by (nonlinear_arith);
    if i == n - 1 {
        assert(i * cols + j == p.len() * cols + j);
    } else {
        areas_are_laid_flat(p, cols, i, j);
        assert(p[i] == m[i]);
    }
    assert(0 <= i * cols + j < n * cols) by (nonlinear_arith)
        requires
            0 <= i < n,
            0 <= j < cols,
    ;
}

proof fn flat_len(m: Seq<Seq<Read>>, cols: int)
    requires
        is_table(m, cols),
    ensures
        all_of(Given::Area(m)).len() == m.len() * cols,
    decreases m.len(),
{
    if m.len() > 0 {
        let p = m.drop_last();
        assert forall|a: int| 0 <= a < p.len() implies (#[trigger] p[a]).len() == cols by {
            assert(p[a] == m[a]);
        }
        flat_len(p, cols);
        assert(m[m.len() - 1].len() == cols);
        let n = m.len() as int;
        assert((n - 1) * cols + cols == n * cols) by (nonlinear_arith);
    }
}

} // verus!
