//! Functions on a table with headings, of which criteria choose the records.
use crate::criteria::{match_one, meets};
use crate::reading::{
    arg_at, counted, failed, given, matrix, matrix_arg, nothing, nth, plain, read_rows, read_seq,
    truncated, whole, Arg, Given, Read, Reading, Reply, Said,
};
use crate::series_fn::collected;
use crate::stat_fn::{count_in, count_values, gather, total_of, totalled, Counted, Pick, Total};
use crate::text::{same_text, trim_text, trimmed, upper};
use crate::value::{blank, FValue, FormulaError, FormulaValue, Num};
use vstd::prelude::*;

verus! {

/// How headings are compared: without white space at the ends and without regard to case.
pub open spec fn heading(s: Seq<char>) -> Seq<char> {
    upper(trimmed(s))
}

/// The first column at or behind `i` that has a heading.
pub open spec fn column_of(headers: Seq<Read>, name: Seq<char>, i: int) -> Option<int>
    decreases headers.len() - i,
{
    if i < 0 || i >= headers.len() {
        None
    } else if heading(plain(headers[i])) == heading(name) {
        Some(i)
    } else {
        column_of(headers, name, i + 1)
    }
}

/// The first column that has a heading.
pub fn header_index(headers: &Vec<Reading>, name: &str) -> (r: Option<usize>)
    ensures
        crate::text::opt_pos(r) == column_of(read_seq(headers@), name@, 0),
        r matches Some(k) ==> k < headers.len(),
{
    let ghost all = read_seq(headers@);
    let target: String = trim_text(name).as_str().to_uppercase();
    let mut i: usize = 0;
    while i < headers.len()
        invariant
            i <= headers.len(),
            all == read_seq(headers@),
            target@ == heading(name@),
            column_of(all, name@, 0) == column_of(all, name@, i as int),
        decreases headers.len() - i,
    {
        assert(all[i as int] == headers@[i as int]@);
        let h: String = trim_text(headers[i].plain_text().as_str()).as_str().to_uppercase();
        if same_text(h.as_str(), target.as_str()) {
            return Some(i);
        }
        i = i + 1;
    }
    None
}

/// The column that a field names: by its number counted from 1, or by its heading.
pub open spec fn field_column(headers: Seq<Read>, field: Read) -> Option<int> {
    match field.value {
        FValue::Number(n) => if n.finite() && 1 <= truncated(n) <= headers.len() {
            Some(truncated(n) - 1)
        } else {
            None
        },
        _ => column_of(headers, plain(field), 0),
    }
}

fn find_field(headers: &Vec<Reading>, field: &Reading) -> (r: Option<usize>)
    ensures
        crate::text::opt_pos(r) == field_column(read_seq(headers@), field@),
        r matches Some(k) ==> k < headers.len(),
{
    match &field.value {
        FormulaValue::Number(n) => {
            if !n.is_finite() {
                return None;
            }
            let k: i64 = whole(*n);
            if k >= 1 && k as u64 <= headers.len() as u64 {
                Some((k - 1) as usize)
            } else {
                None
            }
        },
        _ => {
            let name: String = field.plain_text();
            header_index(headers, name.as_str())
        },
    }
}

/// The value at a place of a row, nothing where the row is shorter.
pub open spec fn at_or_nothing(row: Seq<Read>, j: int) -> Read {
    if 0 <= j < row.len() {
        row[j]
    } else {
        nothing()
    }
}

fn value_or_nothing(row: &Vec<Reading>, j: usize) -> (r: Reading)
    ensures
        r@ == at_or_nothing(read_seq(row@), j as int),
{
    if j < row.len() {
        row[j].copied()
    } else {
        Reading::nothing()
    }
}

/// Whether a record meets the condition under one heading of the criteria: a blank one asks for
/// nothing, and a heading that the table has not is met by no record.
pub open spec fn meets_condition(
    record: Seq<Read>,
    headers: Seq<Read>,
    crit_headers: Seq<Read>,
    cond_row: Seq<Read>,
    c: int,
) -> bool {
    let cond = at_or_nothing(cond_row, c);
    blank(cond.value) || (match column_of(headers, plain(crit_headers[c]), 0) {
        Some(k) => meets(at_or_nothing(record, k), cond),
        None => false,
    })
}

/// Whether a record meets all conditions of a row of the criteria.
pub open spec fn meets_row(
    record: Seq<Read>,
    headers: Seq<Read>,
    crit_headers: Seq<Read>,
    cond_row: Seq<Read>,
) -> bool {
    forall|c: int|
        0 <= c < crit_headers.len() ==> #[trigger] meets_condition(
            record,
            headers,
            crit_headers,
            cond_row,
            c,
        )
}

/// Whether a record meets some row of the criteria; criteria without rows are met by all.
pub open spec fn selected(record: Seq<Read>, headers: Seq<Read>, crit: Seq<Seq<Read>>) -> bool {
    crit.len() == 1 || exists|r: int|
        1 <= r < crit.len() && #[trigger] meets_row(record, headers, crit[0], crit[r])
}

/// The values of a column in the first `n` rows behind the headings whose records are selected.
pub open spec fn chosen_column(db: Seq<Seq<Read>>, crit: Seq<Seq<Read>>, field: int, n: int) -> Seq<Read>
    decreases n,
{
    if n <= 1 {
        Seq::empty()
    } else {
        let front = chosen_column(db, crit, field, n - 1);
        if selected(db[n - 1], db[0], crit) {
            front.push(at_or_nothing(db[n - 1], field))
        } else {
            front
        }
    }
}

/// The values of the field named by the second argument in the records of the table in the first
/// that the criteria in the third select.
pub open spec fn column_values(args: Seq<Given>) -> Result<Seq<Read>, FormulaError> {
    let db = matrix(args, 0);
    let crit = matrix(args, 2);
    if db.len() == 0 {
        Err(FormulaError::Value)
    } else {
        match field_column(db[0], nth(args, 1)) {
            None => Err(FormulaError::Value),
            Some(f) => if crit.len() == 0 {
                Err(FormulaError::Value)
            } else {
                Ok(chosen_column(db, crit, f, db.len() as int))
            },
        }
    }
}

fn row_is_met(
    record: &Vec<Reading>,
    headers: &Vec<Reading>,
    crit_headers: &Vec<Reading>,
    cond_row: &Vec<Reading>,
) -> (r: bool)
    ensures
        r == meets_row(
            read_seq(record@),
            read_seq(headers@),
            read_seq(crit_headers@),
            read_seq(cond_row@),
        ),
{
    let ghost rec = read_seq(record@);
    let ghost head = read_seq(headers@);
    let ghost ch = read_seq(crit_headers@);
    let ghost row = read_seq(cond_row@);
    let mut c: usize = 0;
    while c < crit_headers.len()
        invariant
            c <= crit_headers.len(),
            rec == read_seq(record@),
            head == read_seq(headers@),
            ch == read_seq(crit_headers@),
            row == read_seq(cond_row@),
            forall|k: int| 0 <= k < c ==> #[trigger] meets_condition(rec, head, ch, row, k),
        decreases crit_headers.len() - c,
    {
        assert(ch[c as int] == crit_headers@[c as int]@);
        let cond: Reading = value_or_nothing(cond_row, c);
        if !cond.value.is_blank() {
            let name: String = crit_headers[c].plain_text();
            let met: bool = match header_index(headers, name.as_str()) {
                Some(k) => match_one(&value_or_nothing(record, k), &cond),
                None => false,
            };
            if !met {
                assert(!meets_condition(rec, head, ch, row, c as int));
                return false;
            }
        }
        assert(meets_condition(rec, head, ch, row, c as int));
        c = c + 1;
    }
    true
}

fn record_is_selected(
    record: &Vec<Reading>,
    headers: &Vec<Reading>,
    crit: &Vec<Vec<Reading>>,
) -> (r: bool)
    requires
        crit.len() > 0,
    ensures
        r == selected(read_seq(record@), read_seq(headers@), read_rows(crit@)),
{
    let ghost rows = read_rows(crit@);
    if crit.len() == 1 {
        return true;
    }
    let mut i: usize = 1;
    assert(rows[0] == read_seq(crit@[0]@));
    while i < crit.len()
        invariant
            1 <= i <= crit.len(),
            rows == read_rows(crit@),
            rows[0] == read_seq(crit@[0]@),
            forall|k: int|
                1 <= k < i ==> !#[trigger] meets_row(
                    read_seq(record@),
                    read_seq(headers@),
                    rows[0],
                    rows[k],
                ),
        decreases crit.len() - i,
    {
        assert(rows[i as int] == read_seq(crit@[i as int]@));
        if row_is_met(record, headers, &crit[0], &crit[i]) {
            assert(meets_row(read_seq(record@), read_seq(headers@), rows[0], rows[i as int]));
            return true;
        }
        i = i + 1;
    }
    false
}

/// The values of a field in the records that criteria select.
pub fn select_column(args: &Vec<Arg>) -> (r: Result<Vec<Reading>, FormulaError>)
    ensures
        match column_values(given(args@)) {
            Ok(vs) => r matches Ok(v) && read_seq(v@) == vs,
            Err(e) => r matches Err(x) && x == e,
        },
{
    let db: Vec<Vec<Reading>> = matrix_arg(args, 0);
    let ghost rows = read_rows(db@);
    if db.len() == 0 {
        return Err(FormulaError::Value);
    }
    assert(rows[0] == read_seq(db@[0]@));
    let field: usize = match find_field(&db[0], &arg_at(args, 1)) {
        Some(f) => f,
        None => {
            return Err(FormulaError::Value);
        },
    };
    let crit: Vec<Vec<Reading>> = matrix_arg(args, 2);
    if crit.len() == 0 {
        return Err(FormulaError::Value);
    }
    let mut out: Vec<Reading> = Vec::new();
    let mut i: usize = 1;
    assert(read_seq(out@) =~= chosen_column(rows, read_rows(crit@), field as int, 1));
    while i < db.len()
        invariant
            1 <= i <= db.len(),
            rows == read_rows(db@),
            rows[0] == read_seq(db@[0]@),
            crit.len() > 0,
            read_seq(out@) == chosen_column(rows, read_rows(crit@), field as int, i as int),
        decreases db.len() - i,
    {
        assert(rows[i as int] == read_seq(db@[i as int]@));
        let ghost o = read_seq(out@);
        if record_is_selected(&db[i], &db[0], &crit) {
            let v: Reading = value_or_nothing(&db[i], field);
            let ghost vv = v@;
            out.push(v);
            assert(read_seq(out@) =~= o.push(vv));
        }
        i = i + 1;
    }
    Ok(out)
}

/// What a database function makes of the values that it selects.
#[derive(Debug, Clone, Copy, PartialEq, Eq, Structural)]
pub enum Reduction {
    /// Of those that are numbers.
    Total(Total),
    CountNumbers,
    CountFilled,
    /// The only value that is not blank.
    Only,
}

/// The values that are not blank.
pub open spec fn filled(vs: Seq<Read>) -> Seq<Read>
    decreases vs.len(),
{
    if vs.len() == 0 {
        vs
    } else if blank(vs.last().value) {
        filled(vs.drop_last())
    } else {
        filled(vs.drop_last()).push(vs.last())
    }
}

/// What a database function makes of some values.
pub open spec fn reduced(vs: Seq<Read>, how: Reduction) -> Said {
    match how {
        Reduction::Total(t) => totalled(collected(vs, Pick::Filled), t),
        Reduction::CountNumbers => counted(collected(vs, Pick::Filled).len() as int),
        Reduction::CountFilled => counted(count_in(vs, Counted::Filled) as int),
        Reduction::Only => if filled(vs).len() == 0 {
            failed(FormulaError::Value)
        } else if filled(vs).len() > 1 {
            failed(FormulaError::Num)
        } else {
            Said::Value(filled(vs)[0].value)
        },
    }
}

/// `DSUM`, `DCOUNT`, `DGET` and the like.
pub open spec fn dfn_of(args: Seq<Given>, how: Reduction) -> Said {
    match column_values(args) {
        Err(e) => failed(e),
        Ok(vs) => reduced(vs, how),
    }
}

fn filled_gathers(vs: &Vec<Reading>) -> (r: Vec<Num>)
    ensures
        r@ == collected(read_seq(vs@), Pick::Filled),
{
    match gather(vs, Pick::Filled) {
        Ok(ns) => ns,
        Err(_) => {
            let none: Vec<Num> = Vec::new();
            assert(none@ =~= Seq::empty());
            none
        },
    }
}

fn only_value(vs: &Vec<Reading>) -> (r: Reply)
    ensures
        r@ == reduced(read_seq(vs@), Reduction::Only),
{
    let ghost all = read_seq(vs@);
    let mut found: usize = 0;
    let mut first: FormulaValue = FormulaValue::Blank;
    let mut i: usize = 0;
    assert(all.take(0).len() == 0);
    while i < vs.len()
        invariant
            i <= vs.len(),
            found <= i,
            all == read_seq(vs@),
            found == filled(all.take(i as int)).len(),
            found > 0 ==> first@ == filled(all.take(i as int))[0].value,
        decreases vs.len() - i,
    {
        assert(all.take(i + 1).drop_last() =~= all.take(i as int));
        assert(all.take(i + 1).last() == vs@[i as int]@);
        if !vs[i].value.is_blank() {
            if found == 0 {
                first = vs[i].value.copied();
            }
            found = found + 1;
        }
        i = i + 1;
    }
    assert(all.take(i as int) =~= all);
    if found == 0 {
        Reply::error(FormulaError::Value)
    } else if found > 1 {
        Reply::error(FormulaError::Num)
    } else {
        Reply::Value(first)
    }
}

/// `DSUM`, `DCOUNT`, `DGET` and the like.
pub fn dfn(args: &Vec<Arg>, how: Reduction) -> (r: Reply)
    ensures
        r@ == dfn_of(given(args@), how),
{
    let vs: Vec<Reading> = match select_column(args) {
        Ok(v) => v,
        Err(e) => {
            return Reply::error(e);
        },
    };
    match how {
        Reduction::Total(t) => total_of(filled_gathers(&vs), t),
        Reduction::CountNumbers => Reply::count(filled_gathers(&vs).len()),
        Reduction::CountFilled => Reply::count(count_values(&vs, Counted::Filled)),
        Reduction::Only => only_value(&vs),
    }
}

} // verus!
