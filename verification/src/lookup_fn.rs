//! Functions that look values up, and functions on references.
use crate::address::{col_to_label, label};
use crate::criteria::{text_fits, text_matches};
use crate::decimal::{dec, dec_string, parse_unsigned, read_unsigned};
use crate::logic_fn::{equal, same_number};
use crate::reading::{
    all_at, arg_at, counted, failed, flag, flag_at, given, matrix, matrix_arg, matrix_at, nothing,
    nth, num, num_or, number_at, number_or, plain, read_rows, read_seq, say, text_at, truncated,
    txt, values_at, values_or_blank, whole, Arg, Given, Read, Reading, Reply, Said,
};
use crate::sorting::{text_le, text_not_after};
use crate::text::{
    chars_of, find_char, position_of, same_text, slice_string, trim_text, trimmed, upper,
};
use crate::value::{blank, one, FValue, FormulaError, FormulaValue, Num};
use crate::xml::{replace_all, replaced};
use vstd::prelude::*;

verus! {

/// Whether a value is the one looked for: numbers by value, anything else by text, with
/// wildcards where the text looked for holds some.
pub open spec fn exactly(a: Read, b: Read) -> bool {
    match (a.value, b.value) {
        (FValue::Number(x), FValue::Number(y)) => equal(x, y),
        _ => text_fits(plain(a), plain(b)),
    }
}

/// Whether a value is the one looked for.
pub fn match_exact(a: &Reading, b: &Reading) -> (r: bool)
    ensures
        r == exactly(a@, b@),
{
    if let FormulaValue::Number(x) = &a.value {
        if let FormulaValue::Number(y) = &b.value {
            return same_number(*x, *y);
        }
    }
    let s: String = a.plain_text();
    let t: String = b.plain_text();
    text_matches(s.as_str(), t.as_str())
}

/// The order of a value and the one looked for: negative, zero or positive, or nothing where the
/// value is blank or one of two numbers is not a number.
pub open spec fn loose(a: Read, b: Read) -> Option<int> {
    if blank(a.value) {
        None
    } else {
        match (a.value, b.value) {
            (FValue::Number(x), FValue::Number(y)) => if x.nan() || y.nan() {
                None
            } else if x.lt(y) {
                Some(-1)
            } else if y.lt(x) {
                Some(1)
            } else {
                Some(0)
            },
            _ => {
                let s = upper(plain(a));
                let t = upper(plain(b));
                if s == t {
                    Some(0)
                } else if text_le(s, t) {
                    Some(-1)
                } else {
                    Some(1)
                }
            },
        }
    }
}

/// An order as an integer.
pub open spec fn order_view(r: Option<i32>) -> Option<int> {
    match r {
        Some(o) => Some(o as int),
        None => None,
    }
}

/// The order of a value and the one looked for.
pub fn compare_loose(a: &Reading, b: &Reading) -> (r: Option<i32>)
    ensures
        order_view(r) == loose(a@, b@),
{
    if a.value.is_blank() {
        return None;
    }
    if let FormulaValue::Number(x) = &a.value {
        if let FormulaValue::Number(y) = &b.value {
            if x.is_nan() || y.is_nan() {
                return None;
            }
            return Some(
                if x.less(*y) {
                    -1
                } else if y.less(*x) {
                    1
                } else {
                    0
                },
            );
        }
    }
    let s: String = a.plain_text().as_str().to_uppercase();
    let t: String = b.plain_text().as_str().to_uppercase();
    Some(
        if same_text(s.as_str(), t.as_str()) {
            0
        } else if text_not_after(s.as_str(), t.as_str()) {
            -1
        } else {
            1
        },
    )
}

/// Where an approximate search gets, going on at `i` with `found` behind it: it stops at the first
/// key past the target, and has found the last key before that which can be compared.
pub open spec fn reached(keys: Seq<Read>, target: Read, down: bool, i: int, found: int) -> int
    decreases keys.len() - i,
{
    if i < 0 || i >= keys.len() {
        found
    } else {
        match loose(keys[i], target) {
            None => reached(keys, target, down, i + 1, found),
            Some(o) => if !down && o > 0 || down && o < 0 {
                found
            } else {
                reached(keys, target, down, i + 1, i)
            },
        }
    }
}

/// In keys in rising order that can all be compared, an approximate search finds the last one
/// that is not past the target; -1 where there is none.
pub proof fn approximate_match(keys: Seq<Read>, target: Read, k: int)
    requires
        forall|i: int| 0 <= i < keys.len() ==> loose(#[trigger] keys[i], target) is Some,
        forall|i: int, j: int|
            0 <= i <= j < keys.len() && loose(#[trigger] keys[i], target)->0 > 0 ==> loose(
                #[trigger] keys[j],
                target,
            )->0 > 0,
        0 <= k < keys.len(),
    ensures
        -1 <= reached(keys, target, false, 0, -1) < keys.len(),
        k <= reached(keys, target, false, 0, -1) <==> loose(keys[k], target)->0 <= 0,
{
    reached_from(keys, target, 0, k);
}

proof fn reached_from(keys: Seq<Read>, target: Read, i: int, k: int)
    requires
        forall|i: int| 0 <= i < keys.len() ==> loose(#[trigger] keys[i], target) is Some,
        forall|i: int, j: int|
            0 <= i <= j < keys.len() && loose(#[trigger] keys[i], target)->0 > 0 ==> loose(
                #[trigger] keys[j],
                target,
            )->0 > 0,
        0 <= i <= keys.len(),
        0 <= k < keys.len(),
    ensures
        i - 1 <= reached(keys, target, false, i, i - 1) < keys.len(),
        k >= i ==> (k <= reached(keys, target, false, i, i - 1) <==> loose(keys[k], target)->0 <= 0),
    decreases keys.len() - i,
{
    if i < keys.len() {
        if loose(keys[i], target)->0 <= 0 {
            reached_from(keys, target, i + 1, k);
        }
    }
}

fn approximate(keys: &Vec<Reading>, target: &Reading, down: bool) -> (r: Option<usize>)
    ensures
        match r {
            Some(k) => k < keys.len() && k == reached(read_seq(keys@), target@, down, 0, -1),
            None => reached(read_seq(keys@), target@, down, 0, -1) == -1,
        },
{
    let ghost all = read_seq(keys@);
    let mut found: Option<usize> = None;
    let mut i: usize = 0;
    while i < keys.len()
        invariant
            i <= keys.len(),
            all == read_seq(keys@),
            found matches Some(k) ==> k < i,
            reached(all, target@, down, 0, -1) == reached(
                all,
                target@,
                down,
                i as int,
                match found {
                    Some(k) => k as int,
                    None => -1,
                },
            ),
        decreases keys.len() - i,
    {
        assert(all[i as int] == keys@[i as int]@);
        match compare_loose(&keys[i], target) {
            None => {},
            Some(o) => {
                if (!down && o > 0) || (down && o < 0) {
                    return found;
                }
                found = Some(i);
            },
        }
        i = i + 1;
    }
    found
}

/// The first place at or behind `i` where the key is the one looked for.
pub open spec fn first_exact(keys: Seq<Read>, target: Read, i: int) -> Option<int>
    decreases keys.len() - i,
{
    if i < 0 || i >= keys.len() {
        None
    } else if exactly(keys[i], target) {
        Some(i)
    } else {
        first_exact(keys, target, i + 1)
    }
}

fn exact_place(keys: &Vec<Reading>, target: &Reading) -> (r: Option<usize>)
    ensures
        crate::text::opt_pos(r) == first_exact(read_seq(keys@), target@, 0),
        r matches Some(k) ==> k < keys.len(),
{
    let ghost all = read_seq(keys@);
    let mut i: usize = 0;
    while i < keys.len()
        invariant
            i <= keys.len(),
            all == read_seq(keys@),
            first_exact(all, target@, 0) == first_exact(all, target@, i as int),
        decreases keys.len() - i,
    {
        assert(all[i as int] == keys@[i as int]@);
        if match_exact(&keys[i], target) {
            return Some(i);
        }
        i = i + 1;
    }
    None
}

/// The place of a key: by an approximate or an exact search.
pub open spec fn place_of_key(keys: Seq<Read>, target: Read, approx: bool) -> Option<int> {
    if approx {
        let k = reached(keys, target, false, 0, -1);
        if k < 0 {
            None
        } else {
            Some(k)
        }
    } else {
        first_exact(keys, target, 0)
    }
}

/// The keys of a table: its first column, or its first row.
pub open spec fn table_keys(m: Seq<Seq<Read>>, vertical: bool) -> Seq<Read> {
    if vertical {
        Seq::new(
            m.len(),
            |i: int|
                if m[i].len() > 0 {
                    m[i][0]
                } else {
                    nothing()
                },
        )
    } else if m.len() > 0 {
        m[0]
    } else {
        Seq::empty()
    }
}

/// The value at a place of a table, `#REF!` where the table has no such place.
pub open spec fn table_value(m: Seq<Seq<Read>>, i: int, j: int) -> Said {
    match matrix_at(m, i, j) {
        Some(v) => Said::Value(v),
        None => failed(FormulaError::Ref),
    }
}

/// What a table gives for a key.
pub open spec fn looked_up(
    m: Seq<Seq<Read>>,
    target: Read,
    idx: int,
    approx: bool,
    vertical: bool,
) -> Said {
    match place_of_key(table_keys(m, vertical), target, approx) {
        None => failed(FormulaError::Na),
        Some(k) => if vertical {
            table_value(m, k, idx)
        } else {
            table_value(m, idx, k)
        },
    }
}

fn keys_of(table: &Vec<Vec<Reading>>, vertical: bool) -> (r: Vec<Reading>)
    ensures
        read_seq(r@) == table_keys(read_rows(table@), vertical),
{
    let ghost m = read_rows(table@);
    let mut out: Vec<Reading> = Vec::new();
    if vertical {
        let mut i: usize = 0;
        while i < table.len()
            invariant
                i <= table.len(),
                m == read_rows(table@),
                read_seq(out@) == table_keys(m, true).take(i as int),
            decreases table.len() - i,
        {
            let ghost o = read_seq(out@);
            let v: Reading = if table[i].len() > 0 {
                table[i][0].copied()
            } else {
                Reading::nothing()
            };
            let ghost vv = v@;
            out.push(v);
            assert(m[i as int] == read_seq(table@[i as int]@));
            assert(vv == table_keys(m, true)[i as int]);
            assert(read_seq(out@) =~= o.push(vv));
            assert(table_keys(m, true).take(i + 1) =~= o.push(vv));
            i = i + 1;
        }
        assert(table_keys(m, true).take(i as int) =~= table_keys(m, true));
        out
    } else if table.len() > 0 {
        assert(m[0] == read_seq(table@[0]@));
        crate::reading::copy_readings(&table[0])
    } else {
        assert(read_seq(out@) =~= Seq::empty());
        out
    }
}

fn value_in(table: &Vec<Vec<Reading>>, i: u64, j: u64) -> (r: Reply)
    ensures
        r@ == table_value(read_rows(table@), i as int, j as int),
{
    if i >= table.len() as u64 {
        return Reply::error(FormulaError::Ref);
    }
    let row: &Vec<Reading> = &table[i as usize];
    assert(read_rows(table@)[i as int] == read_seq(row@));
    if j >= row.len() as u64 {
        return Reply::error(FormulaError::Ref);
    }
    Reply::Value(row[j as usize].value.copied())
}

/// What a table gives for a key: the table's columns or rows hold the values.
pub fn lookup_row_col(
    table: &Vec<Vec<Reading>>,
    target: &Reading,
    idx: u64,
    approx: bool,
    vertical: bool,
) -> (r: Reply)
    ensures
        r@ == looked_up(read_rows(table@), target@, idx as int, approx, vertical),
{
    let keys: Vec<Reading> = keys_of(table, vertical);
    let place: Option<usize> = if approx {
        approximate(&keys, target, false)
    } else {
        exact_place(&keys, target)
    };
    match place {
        None => Reply::error(FormulaError::Na),
        Some(k) => {
            if vertical {
                value_in(table, k as u64, idx)
            } else {
                value_in(table, idx, k as u64)
            }
        },
    }
}

/// `VLOOKUP` and `HLOOKUP`.
pub open spec fn lookup_of(args: Seq<Given>, vertical: bool) -> Said {
    match num(nth(args, 2)) {
        Err(e) => failed(e),
        Ok(n) => if truncated(n) < 1 {
            failed(FormulaError::Value)
        } else {
            looked_up(matrix(args, 1), nth(args, 0), truncated(n) - 1, flag(args, 3, true), vertical)
        },
    }
}

/// `VLOOKUP` and `HLOOKUP`.
pub fn table_lookup(args: &Vec<Arg>, vertical: bool) -> (r: Reply)
    ensures
        r@ == lookup_of(given(args@), vertical),
{
    let target: Reading = arg_at(args, 0);
    let table: Vec<Vec<Reading>> = matrix_arg(args, 1);
    let n: i64 = match number_at(args, 2) {
        Ok(n) => whole(n),
        Err(e) => {
            return Reply::error(e);
        },
    };
    if n < 1 {
        return Reply::error(FormulaError::Value);
    }
    let approx: bool = flag_at(args, 3, true);
    lookup_row_col(&table, &target, (n - 1) as u64, approx, vertical)
}

/// `INDEX`: the value at a row and a column, counted from 1, of which 0 means the first; with one
/// number, the value at that place of a single row or column.
pub open spec fn index_of(args: Seq<Given>) -> Said {
    let m = matrix(args, 0);
    match num(nth(args, 1)) {
        Err(e) => failed(e),
        Ok(row) => if args.len() > 2 {
            match num(nth(args, 2)) {
                Err(e) => failed(e),
                Ok(col) => table_value(m, from_one(truncated(row)), from_one(truncated(col))),
            }
        } else if m.len() == 1 {
            table_value(m, 0, truncated(row) - 1)
        } else if m.len() > 0 && m[0].len() == 1 {
            table_value(m, truncated(row) - 1, 0)
        } else {
            failed(FormulaError::Ref)
        },
    }
}

/// A place counted from 0, for one counted from 1; 0 counts as 1.
pub open spec fn from_one(k: int) -> int {
    if k == 0 {
        0
    } else {
        k - 1
    }
}

fn value_from_one(table: &Vec<Vec<Reading>>, row: i64, col: i64) -> (r: Reply)
    ensures
        r@ == table_value(read_rows(table@), row - 1, col - 1),
{
    if row < 1 || col < 1 {
        return Reply::error(FormulaError::Ref);
    }
    value_in(table, (row - 1) as u64, (col - 1) as u64)
}

/// `INDEX`.
pub fn index_fn(args: &Vec<Arg>) -> (r: Reply)
    ensures
        r@ == index_of(given(args@)),
{
    let table: Vec<Vec<Reading>> = matrix_arg(args, 0);
    let row: i64 = match number_at(args, 1) {
        Ok(n) => whole(n),
        Err(e) => {
            return Reply::error(e);
        },
    };
    if args.len() > 2 {
        let col: i64 = match number_at(args, 2) {
            Ok(n) => whole(n),
            Err(e) => {
                return Reply::error(e);
            },
        };
        return value_from_one(
            &table,
            if row == 0 {
                1
            } else {
                row
            },
            if col == 0 {
                1
            } else {
                col
            },
        );
    }
    proof {
        if table@.len() > 0 {
            assert(read_rows(table@)[0] == read_seq(table@[0]@));
        }
    }
    if table.len() == 1 {
        value_from_one(&table, 1, row)
    } else if table.len() > 0 && table[0].len() == 1 {
        value_from_one(&table, row, 1)
    } else {
        Reply::error(FormulaError::Ref)
    }
}

/// `MATCH`: the place of a value in a range, counted from 1: exactly, or approximately in rising
/// or falling order.
pub open spec fn match_of(args: Seq<Given>) -> Said {
    if args.len() < 2 {
        failed(FormulaError::Na)
    } else {
        let keys = all_at(args, 1, Seq::empty());
        let mt = if args.len() > 2 {
            match num(nth(args, 2)) {
                Ok(n) => truncated(n),
                Err(_) => 1,
            }
        } else {
            1
        };
        let k = if mt == 0 {
            match first_exact(keys, nth(args, 0), 0) {
                Some(k) => k,
                None => -1,
            }
        } else {
            reached(keys, nth(args, 0), mt < 0, 0, -1)
        };
        if k < 0 {
            failed(FormulaError::Na)
        } else {
            counted(k + 1)
        }
    }
}

/// `MATCH`.
pub fn match_fn(args: &Vec<Arg>) -> (r: Reply)
    ensures
        r@ == match_of(given(args@)),
{
    if args.len() < 2 {
        return Reply::error(FormulaError::Na);
    }
    let target: Reading = arg_at(args, 0);
    let mt: i64 = if args.len() > 2 {
        match number_at(args, 2) {
            Ok(n) => whole(n),
            Err(_) => 1,
        }
    } else {
        1
    };
    let keys: Vec<Reading> = values_at(args, 1);
    let place: Option<usize> = if mt == 0 {
        exact_place(&keys, &target)
    } else {
        approximate(&keys, &target, mt < 0)
    };
    match place {
        None => Reply::error(FormulaError::Na),
        Some(k) => Reply::count(k + 1),
    }
}

/// The value at a place of a list, `#N/A` where it has no such place.
pub open spec fn list_value(vs: Seq<Read>, k: int) -> Said {
    if 0 <= k < vs.len() {
        Said::Value(vs[k].value)
    } else {
        failed(FormulaError::Na)
    }
}

fn value_of_list(vs: &Vec<Reading>, k: usize) -> (r: Reply)
    ensures
        r@ == list_value(read_seq(vs@), k as int),
{
    if k < vs.len() {
        Reply::Value(vs[k].value.copied())
    } else {
        Reply::error(FormulaError::Na)
    }
}

/// `LOOKUP`: an approximate search in one list, and the value at the same place of another.
pub open spec fn lookup_list_of(args: Seq<Given>) -> Said {
    let keys = all_at(args, 1, seq![nothing()]);
    let k = reached(keys, nth(args, 0), false, 0, -1);
    if k < 0 {
        failed(FormulaError::Na)
    } else {
        list_value(all_at(args, 2, keys), k)
    }
}

/// `LOOKUP`.
pub fn lookup_fn(args: &Vec<Arg>) -> (r: Reply)
    ensures
        r@ == lookup_list_of(given(args@)),
{
    let target: Reading = arg_at(args, 0);
    let keys: Vec<Reading> = values_or_blank(args, 1);
    match approximate(&keys, &target, false) {
        None => Reply::error(FormulaError::Na),
        Some(k) => if args.len() > 2 {
            let result: Vec<Reading> = values_at(args, 2);
            value_of_list(&result, k)
        } else {
            value_of_list(&keys, k)
        },
    }
}

/// `XLOOKUP`: an exact search in one list, and the value at the same place of another; the fourth
/// argument where nothing is found.
pub open spec fn xlookup_of(args: Seq<Given>) -> Said {
    match first_exact(all_at(args, 1, seq![nothing()]), nth(args, 0), 0) {
        Some(k) => list_value(all_at(args, 2, seq![nothing()]), k),
        None => if args.len() > 3 {
            Said::Value(nth(args, 3).value)
        } else {
            failed(FormulaError::Na)
        },
    }
}

/// `XLOOKUP`.
pub fn xlookup(args: &Vec<Arg>) -> (r: Reply)
    ensures
        r@ == xlookup_of(given(args@)),
{
    let target: Reading = arg_at(args, 0);
    let keys: Vec<Reading> = values_or_blank(args, 1);
    match exact_place(&keys, &target) {
        Some(k) => {
            let result: Vec<Reading> = values_or_blank(args, 2);
            value_of_list(&result, k)
        },
        None => if args.len() > 3 {
            Reply::Value(arg_at(args, 3).value)
        } else {
            Reply::error(FormulaError::Na)
        },
    }
}

/// Whether a sheet's name needs quotes in an address.
pub open spec fn needs_quotes(sheet: Seq<char>) -> bool {
    exists|i: int| 0 <= i < sheet.len() && !crate::xlsx_drawing::is_plain_char(#[trigger] sheet[i])
}

/// An address without a sheet: its row and column counted from 1, each absolute or not, in the
/// style with letters or the one with numbers.
pub open spec fn address_core(r: int, c: int, row_abs: bool, col_abs: bool, a1: bool) -> Seq<char> {
    if a1 {
        (if col_abs {
            "$"@
        } else {
            Seq::empty()
        }) + label(((c - 1) % 0x1_0000_0000) as nat) + (if row_abs {
            "$"@
        } else {
            Seq::empty()
        }) + dec(r as nat)
    } else {
        (if row_abs {
            "R"@ + dec(r as nat)
        } else {
            "R["@ + dec(r as nat) + "]"@
        }) + (if col_abs {
            "C"@ + dec(c as nat)
        } else {
            "C["@ + dec(c as nat) + "]"@
        })
    }
}

/// A sheet's name in front of an address, in quotes where it needs some.
pub open spec fn sheet_prefix(sheet: Seq<char>) -> Seq<char> {
    if sheet.len() == 0 {
        Seq::empty()
    } else if needs_quotes(sheet) {
        "'"@ + replaced(sheet, "'"@, "''"@) + "'"@ + "!"@
    } else {
        sheet + "!"@
    }
}

/// The text of the argument at `i`, empty where it is not given.
pub open spec fn given_text(args: Seq<Given>, i: int) -> Result<Seq<char>, FormulaError> {
    if i < args.len() {
        txt(nth(args, i))
    } else {
        Ok(Seq::empty())
    }
}

/// `ADDRESS`.
pub open spec fn address_of(args: Seq<Given>) -> Said {
    match num(nth(args, 0)) {
        Err(e) => failed(e),
        Ok(row) => match num(nth(args, 1)) {
            Err(e) => failed(e),
            Ok(col) => match num_or(args, 2, one()) {
                Err(e) => failed(e),
                Ok(abs) => match given_text(args, 4) {
                    Err(e) => failed(e),
                    Ok(sheet) => {
                        let (r, c, ab) = (truncated(row), truncated(col), truncated(abs));
                        if r < 1 || c < 1 || ab < 1 || ab > 4 {
                            failed(FormulaError::Value)
                        } else {
                            say(
                                sheet_prefix(sheet) + address_core(
                                    r,
                                    c,
                                    ab == 1 || ab == 2,
                                    ab == 1 || ab == 3,
                                    flag(args, 3, true),
                                ),
                            )
                        }
                    },
                },
            },
        },
    }
}

fn quotes_needed(sheet: &str) -> (r: bool)
    ensures
        r == needs_quotes(sheet@),
{
    let chars: Vec<char> = chars_of(sheet);
    let mut i: usize = 0;
    while i < chars.len()
        invariant
            i <= chars.len(),
            chars@ == sheet@,
            forall|k: int| 0 <= k < i ==> crate::xlsx_drawing::is_plain_char(#[trigger] sheet@[k]),
        decreases chars.len() - i,
    {
        if !crate::xlsx_drawing::plain_char(chars[i]) {
            assert(!crate::xlsx_drawing::is_plain_char(sheet@[i as int]));
            return true;
        }
        i = i + 1;
    }
    false
}

fn write_address(r: i64, c: i64, row_abs: bool, col_abs: bool, a1: bool) -> (s: String)
    requires
        r >= 1,
        c >= 1,
    ensures
        s@ == address_core(r as int, c as int, row_abs, col_abs, a1),
{
    let row: String = dec_string(r as u128);
    let mut out: String = String::new();
    if a1 {
        let low: u32 = ((c - 1) as u64 % 0x1_0000_0000) as u32;
        let col: String = col_to_label(low);
        if col_abs {
            out.append("$");
        }
        out.append(col.as_str());
        if row_abs {
            out.append("$");
        }
        out.append(row.as_str());
    } else {
        let col: String = dec_string(c as u128);
        if row_abs {
            out.append("R");
            out.append(row.as_str());
        } else {
            out.append("R[");
            out.append(row.as_str());
            out.append("]");
        }
        if col_abs {
            out.append("C");
            out.append(col.as_str());
        } else {
            out.append("C[");
            out.append(col.as_str());
            out.append("]");
        }
    }
    assert(out@ =~= address_core(r as int, c as int, row_abs, col_abs, a1));
    out
}

fn write_prefix(sheet: &str) -> (s: String)
    ensures
        s@ == sheet_prefix(sheet@),
{
    let mut out: String = String::new();
    if !sheet.is_empty() {
        if quotes_needed(sheet) {
            let q: String = replace_all(sheet, "'", "''");
            out.append("'");
            out.append(q.as_str());
            out.append("'");
            out.append("!");
        } else {
            out.append(sheet);
            out.append("!");
        }
    }
    assert(out@ =~= sheet_prefix(sheet@));
    out
}

/// `ADDRESS`: the text of an address.
pub fn address(args: &Vec<Arg>) -> (r: Reply)
    ensures
        r@ == address_of(given(args@)),
{
    let r: i64 = match number_at(args, 0) {
        Ok(n) => whole(n),
        Err(e) => {
            return Reply::error(e);
        },
    };
    let c: i64 = match number_at(args, 1) {
        Ok(n) => whole(n),
        Err(e) => {
            return Reply::error(e);
        },
    };
    let ab: i64 = match number_or(args, 2, Num { bits: 0x3ff0_0000_0000_0000 }) {
        Ok(n) => {
            assert(n.finite());
            whole(n)
        },
        Err(e) => {
            return Reply::error(e);
        },
    };
    let a1: bool = flag_at(args, 3, true);
    let sheet: String = if args.len() > 4 {
        match text_at(args, 4) {
            Ok(t) => t,
            Err(e) => {
                return Reply::error(e);
            },
        }
    } else {
        let none: String = String::new();
        assert(none@ =~= Seq::empty());
        none
    };
    if r < 1 || c < 1 || ab < 1 || ab > 4 {
        return Reply::error(FormulaError::Value);
    }
    let mut out: String = write_prefix(sheet.as_str());
    let core: String = write_address(r, c, ab == 1 || ab == 2, ab == 1 || ab == 3, a1);
    out.append(core.as_str());
    Reply::text(out)
}

/// The row and column, counted from 1, that an absolute address in numbers names.
pub open spec fn r1c1_of(s: Seq<char>) -> Option<(int, int)> {
    if s.len() == 0 || s[0] != 'R' {
        None
    } else {
        match find_char(s, 'C', 0) {
            None => None,
            Some(p) => match (
                parse_unsigned(s.subrange(1, p), u32::MAX as nat),
                parse_unsigned(s.skip(p + 1), u32::MAX as nat),
            ) {
                (Some(r), Some(c)) => Some((r as int, c as int)),
                _ => None,
            },
        }
    }
}

/// The row and column, counted from 1, that an absolute address in numbers names.
pub fn parse_r1c1(s: &str) -> (r: Option<(u32, u32)>)
    ensures
        match r1c1_of(s@) {
            Some((x, y)) => r == Some((x as u32, y as u32)) && 0 <= x <= u32::MAX && 0 <= y
                <= u32::MAX,
            None => r is None,
        },
{
    let chars: Vec<char> = chars_of(s);
    if chars.len() == 0 || chars[0] != 'R' {
        return None;
    }
    let p: usize = match position_of(&chars, 'C', 0) {
        Some(p) => p,
        None => {
            return None;
        },
    };
    assert(p > 0) by {
        crate::lookup_fn::found_char(s@, 'C', 0);
    }
    let row_text: String = slice_string(&chars, 1, p);
    let col_text: String = slice_string(&chars, p + 1, chars.len());
    assert(col_text@ =~= s@.skip(p + 1));
    let row: u64 = match read_unsigned(&chars_of(row_text.as_str()), u32::MAX as u64) {
        Some(n) => n,
        None => {
            return None;
        },
    };
    match read_unsigned(&chars_of(col_text.as_str()), u32::MAX as u64) {
        Some(n) => Some((row as u32, n as u32)),
        None => None,
    }
}

proof fn found_char(s: Seq<char>, c: char, from: int)
    ensures
        find_char(s, c, from) matches Some(p) ==> from <= p < s.len() && s[p] == c,
    decreases s.len() - from,
{
    if 0 <= from < s.len() && s[from] != c {
        found_char(s, c, from + 1);
    }
}

/// `INDIRECT`: the reference that a text names, in the style with letters or the one with numbers.
pub open spec fn indirect_of(args: Seq<Given>) -> Said {
    match txt(nth(args, 0)) {
        Err(e) => failed(e),
        Ok(t) => if trimmed(t).len() == 0 {
            failed(FormulaError::Ref)
        } else if flag(args, 1, true) {
            Said::Fetch(trimmed(t))
        } else {
            match r1c1_of(upper(trimmed(t))) {
                Some((r, c)) => if c == 0 {
                    failed(FormulaError::Ref)
                } else {
                    Said::Fetch(label((c - 1) as nat) + dec(r as nat))
                },
                None => failed(FormulaError::Ref),
            }
        },
    }
}

/// `INDIRECT`.
pub fn indirect(args: &Vec<Arg>) -> (r: Reply)
    ensures
        r@ == indirect_of(given(args@)),
{
    let t: String = match text_at(args, 0) {
        Ok(t) => t,
        Err(e) => {
            return Reply::error(e);
        },
    };
    let reference: String = trim_text(t.as_str());
    if reference.as_str().is_empty() {
        return Reply::error(FormulaError::Ref);
    }
    if flag_at(args, 1, true) {
        return Reply::Fetch(reference);
    }
    let up: String = reference.as_str().to_uppercase();
    match parse_r1c1(up.as_str()) {
        None => Reply::error(FormulaError::Ref),
        Some((row, col)) => {
            if col == 0 {
                return Reply::error(FormulaError::Ref);
            }
            let mut out: String = col_to_label(col - 1);
            let digits: String = dec_string(row as u128);
            out.append(digits.as_str());
            Reply::Fetch(out)
        },
    }
}

} // verus!
