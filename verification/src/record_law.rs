//! What holds of addresses as texts and of tables as databases: an address names the place that it was
//! made for, and a record counts where the criteria select it.
use crate::address::{addr, label};
use crate::criteria::meets;
use crate::criteria_law::{is_choice, is_number, the_number};
use crate::database_fn::{
    at_or_nothing, chosen_column, column_of, column_values, dfn_of, filled, heading,
    meets_condition, meets_row, selected, Reduction,
};
use crate::date_law::whole_given;
use crate::decimal::{all_digits, dec, dec_round_trip, parse_unsigned_dec};
use crate::find_law::{find_char_past, without};
use crate::kernel::Kernel;
use crate::logic_law::value_given;
use crate::lookup_fn::{address_core, address_of, indirect_of, r1c1_of};
use crate::reading::{failed, plain, say, work, Given, Read, Said};
use crate::stat_fn::{gathered, Pick, Total};
use crate::stat_law::{are_numbers, the_numbers};
use crate::text::{find_char, trimmed, upper};
use crate::text_law::text_given;
use crate::value::{FValue, FormulaError};
use vstd::prelude::*;

verus! {

/// `ADDRESS` writes the address of a place, counted from 1, with a dollar in front of the column, the
/// row, both or none.
pub proof fn addresses_are_written(args: Seq<Given>, r: int, c: int, ab: int)
    requires
        whole_given(args, 0, r),
        whole_given(args, 1, c),
        args.len() == 3,
        whole_given(args, 2, ab),
        1 <= r,
        1 <= c <= u32::MAX,
    ensures
        ab == 4 ==> address_of(args) == say(addr((r - 1) as nat, (c - 1) as nat)),
        ab == 3 ==> address_of(args) == say(seq!['$'] + addr((r - 1) as nat, (c - 1) as nat)),
        ab == 2 ==> address_of(args) == say(
            label((c - 1) as nat) + seq!['$'] + dec(r as nat),
        ),
        ab == 1 ==> address_of(args) == say(
            seq!['$'] + label((c - 1) as nat) + seq!['$'] + dec(r as nat),
        ),
        ab < 1 || ab > 4 ==> address_of(args) == failed(FormulaError::Value),
{
    reveal_strlit("$");
    assert("$"@ =~= seq!['$']);
    let col = label((c - 1) as nat);
    let e = Seq::<char>::empty();
    assert((c - 1) % 0x1_0000_0000 == c - 1);
    assert(e + address_core(r, c, false, false, true) =~= col + dec(r as nat));
    assert(e + address_core(r, c, false, true, true) =~= seq!['$'] + (col + dec(r as nat)));
    assert(e + address_core(r, c, true, false, true) =~= col + seq!['$'] + dec(r as nat));
    assert(e + address_core(r, c, true, true, true) =~= seq!['$'] + col + seq!['$'] + dec(
        r as nat,
    ));
}

/// An address in numbers: the row behind an `R`, and the column behind a `C`.
pub open spec fn in_numbers(r: nat, c: nat) -> Seq<char> {
    seq!['R'] + dec(r) + seq!['C'] + dec(c)
}

/// An address in numbers names its row and its column, and `ADDRESS` writes it so.
pub proof fn numbers_name_places(r: nat, c: nat)
    requires
        r <= u32::MAX,
        c <= u32::MAX,
    ensures
        r1c1_of(in_numbers(r, c)) == Some((r as int, c as int)),
        address_core(r as int, c as int, true, true, false) == in_numbers(r, c),
{
    reveal_strlit("R");
    reveal_strlit("C");
    assert("R"@ =~= seq!['R']);
    assert("C"@ =~= seq!['C']);
    let s = in_numbers(r, c);
    assert(address_core(r as int, c as int, true, true, false) =~= s);
    let a = seq!['R'] + dec(r);
    let b = seq!['C'] + dec(c);
    assert(s =~= a + b);
    dec_round_trip(r);
    dec_round_trip(c);
    assert(without(a, 'C')) by {
        assert forall|i: int| 0 <= i < a.len() implies #[trigger] a[i] != 'C' by {
            if i > 0 {
                assert(a[i] == dec(r)[i - 1]);
                assert(all_digits(dec(r)));
            }
        }
    }
    assert(b[0] == 'C');
    find_char_past(a, b, 'C', 0);
    assert(find_char(s, 'C', 0) == Some(a.len() as int));
    assert(s.subrange(1, a.len() as int) =~= dec(r));
    assert(s.skip(a.len() as int + 1) =~= dec(c));
    parse_unsigned_dec(r, u32::MAX as nat);
    parse_unsigned_dec(c, u32::MAX as nat);
    assert(s[0] == 'R');
}

/// `INDIRECT` reads what its text names: the text itself where it is an address with letters, and the
/// place of the numbers where it is one in numbers.
pub proof fn texts_are_references(args: Seq<Given>, t: Seq<char>, r: nat, c: nat)
    requires
        text_given(args, 0, t),
        trimmed(t) == t,
        t.len() > 0,
    ensures
        args.len() == 1 || value_given(args, 1, FValue::Bool(true)) ==> indirect_of(args)
            == Said::Fetch(t),
        value_given(args, 1, FValue::Bool(false)) && upper(t) == in_numbers(r, c) && 0 < r
            <= u32::MAX && 0 < c <= u32::MAX ==> indirect_of(args) == Said::Fetch(
            addr((r - 1) as nat, (c - 1) as nat),
        ),
{
    if upper(t) == in_numbers(r, c) && 0 < r <= u32::MAX && 0 < c <= u32::MAX {
        numbers_name_places(r, c);
        assert(r - 1 + 1 == r);
    }
}

/// Whether a heading, without white space at its ends and in capitals or not, is first found in a
/// column.
pub open spec fn is_heading(headers: Seq<Read>, name: Seq<char>, k: int) -> bool {
    0 <= k < headers.len() && heading(plain(headers[k])) == heading(name) && forall|i: int|
        0 <= i < k ==> heading(plain(#[trigger] headers[i])) != heading(name)
}

proof fn heading_found(headers: Seq<Read>, name: Seq<char>, k: int, i: int)
    requires
        is_heading(headers, name, k),
        0 <= i <= k,
    ensures
        column_of(headers, name, i) == Some(k),
    decreases k - i,
{
    if i < k {
        assert(heading(plain(headers[i])) != heading(name));
        heading_found(headers, name, k, i + 1);
    }
}

proof fn chosen_are(db: Seq<Seq<Read>>, crit: Seq<Seq<Read>>, f: int, n: int, ks: Seq<int>)
    requires
        1 <= n <= db.len(),
        is_choice(ks, n, |i: int| i >= 1 && selected(db[i], db[0], crit)),
    ensures
        chosen_column(db, crit, f, n) == Seq::new(ks.len(), |j: int| at_or_nothing(db[ks[j]], f)),
    decreases n,
{
    let p = |i: int| i >= 1 && selected(db[i], db[0], crit);
    let out = Seq::new(ks.len(), |j: int| at_or_nothing(db[ks[j]], f));
    crate::criteria_law::choice_less(ks, n, p);
    if n == 1 {
        assert(!p(0));
        crate::criteria_law::choice_none(ks, p);
        assert(out =~= Seq::empty());
    } else {
        let less = if p(n - 1) {
            ks.drop_last()
        } else {
            ks
        };
        chosen_are(db, crit, f, n - 1, less);
        let inner = Seq::new(less.len(), |j: int| at_or_nothing(db[less[j]], f));
        if p(n - 1) {
            assert(out =~= inner.push(at_or_nothing(db[n - 1], f)));
        } else {
            assert(out =~= inner);
        }
    }
}

/// A database function works on the values of the field in the records, below the headings, that the
/// criteria select, in their order: the field is the column whose heading is asked for, or whose
/// number is.
pub proof fn selected_records_are_used(
    db: Seq<Seq<Read>>,
    field: Read,
    crit: Seq<Seq<Read>>,
    f: int,
    ks: Seq<int>,
)
    requires
        db.len() > 0,
        crit.len() > 0,
        (field.value matches FValue::Text(t) && is_heading(db[0], t, f)) || (field.value matches
            FValue::Number(n) && crate::reading::is_whole(n, f + 1) && 0 <= f < db[0].len() < i64::MAX),
        is_choice(ks, db.len() as int, |i: int| i >= 1 && selected(db[i], db[0], crit)),
    ensures
        column_values(seq![Given::Area(db), Given::One(field), Given::Area(crit)]) == Ok::<
            Seq<Read>,
            FormulaError,
        >(Seq::new(ks.len(), |j: int| at_or_nothing(db[ks[j]], f))),
{
    let args = seq![Given::Area(db), Given::One(field), Given::Area(crit)];
    assert(args[0] == Given::Area(db) && args[1] == Given::One(field) && args[2] == Given::Area(crit));
    match field.value {
        FValue::Text(t) => {
            heading_found(db[0], t, f, 0);
        },
        _ => {},
    }
    chosen_are(db, crit, f, db.len() as int, ks);
}

/// A record is selected by one row of criteria where it meets every condition in that row that is not
/// blank, each in the column of its own heading.
pub proof fn records_meet_their_conditions(
    record: Seq<Read>,
    headers: Seq<Read>,
    names: Seq<Read>,
    conds: Seq<Read>,
    cols: Seq<int>,
)
    requires
        names.len() == conds.len() == cols.len(),
        forall|c: int|
            0 <= c < names.len() ==> is_heading(
                headers,
                plain(names[c]),
                #[trigger] cols[c],
            ) && cols[c] < record.len() && !(conds[c].value is Blank),
        forall|c: int|
            0 <= c < names.len() ==> ((#[trigger] conds[c]).value matches FValue::Text(t) ==> t.len()
                > 0),
    ensures
        selected(record, headers, seq![names, conds]) == forall|c: int|
            0 <= c < names.len() ==> meets(record[#[trigger] cols[c]], conds[c]),
        selected(record, headers, seq![names]),
{
    let crit = seq![names, conds];
    assert(crit[0] == names && crit[1] == conds && crit.len() == 2);
    assert(seq![names].len() == 1);
    assert forall|c: int| 0 <= c < names.len() implies #[trigger] meets_condition(
        record,
        headers,
        names,
        conds,
        c,
    ) == meets(record[cols[c]], conds[c]) by {
        assert(is_heading(headers, plain(names[c]), cols[c]));
        heading_found(headers, plain(names[c]), cols[c], 0);
    }
    if meets_row(record, headers, names, conds) {
        assert(meets_row(record, headers, crit[0], crit[1]));
        assert forall|c: int| 0 <= c < names.len() implies meets(
            record[#[trigger] cols[c]],
            conds[c],
        ) by {
            assert(meets_condition(record, headers, names, conds, c));
        }
    }
    if forall|c: int| 0 <= c < names.len() ==> meets(record[#[trigger] cols[c]], conds[c]) {
        assert forall|c: int| 0 <= c < names.len() implies #[trigger] meets_condition(
            record,
            headers,
            names,
            conds,
            c,
        ) by {
            assert(meets(record[cols[c]], conds[c]));
        }
        assert(meets_row(record, headers, crit[0], crit[1]));
    }
}

proof fn numbers_filled(vs: Seq<Read>)
    requires
        are_numbers(vs),
    ensures
        gathered(vs, Pick::Filled) == Ok::<_, FormulaError>(the_numbers(vs)),
        filled(vs) == vs,
    decreases vs.len(),
{
    if vs.len() == 0 {
        assert(the_numbers(vs) =~= Seq::empty());
    } else {
        let fore = vs.drop_last();
        assert forall|i: int| 0 <= i < fore.len() implies is_number(#[trigger] fore[i]) by {
            assert(is_number(vs[i]));
        }
        numbers_filled(fore);
        assert(is_number(vs[vs.len() - 1]));
        assert(the_numbers(vs) =~= the_numbers(fore).push(the_number(vs.last())));
        assert(fore.push(vs.last()) =~= vs);
    }
}

/// `DSUM` adds the numbers that were selected, `DCOUNT` counts them, and `DGET` gives the only one.
pub proof fn selected_numbers_are_used(args: Seq<Given>, vs: Seq<Read>)
    requires
        column_values(args) == Ok::<Seq<Read>, FormulaError>(vs),
        are_numbers(vs),
        vs.len() <= i64::MAX,
    ensures
        dfn_of(args, Reduction::Total(Total::Sum)) == work(Kernel::Sum, the_numbers(vs)),
        dfn_of(args, Reduction::CountNumbers) == Said::Int(vs.len() as int),
        vs.len() == 1 ==> dfn_of(args, Reduction::Only) == Said::Value(vs[0].value),
        vs.len() > 1 ==> dfn_of(args, Reduction::Only) == failed(FormulaError::Num),
        vs.len() == 0 ==> dfn_of(args, Reduction::Only) == failed(FormulaError::Value),
{
    numbers_filled(vs);
}

} // verus!
