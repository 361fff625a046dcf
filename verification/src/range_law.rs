//! What holds of reading cells and ranges: a cell reads as what it holds, and a range reads the cells
//! between its ends, each at its own place.
use crate::address::{addr, addr_round_trip, all_letters, label, label_round_trip, letters_end};
use crate::decimal::{all_digits, dec, dec_round_trip};
use crate::depgraph::{
    range_holds, reads, reads_any, reads_rows, span_of, spec_bounds, spec_cell_key,
    spec_endpoint_of, spec_split_local, wrap32, SheetSize,
};
use crate::engine::{
    cell_value, find_cell, find_sheet, opt_content, range_value, value_of, written, BookSheet,
    CellWrite,
};
use crate::evaluator::{scalar, Evaluated};
use crate::find_law::{find_char_past, without};
use crate::parse::Ast;
use crate::recalc_law::{key_names_one, tidy};
use crate::text::{find_char, trim_char, trim_end_char, trim_start_char, without_char};
use crate::value::{FValue, FormulaError};
use vstd::prelude::*;

verus! {

/// A reference, with the name of a sheet in front of it where one is given.
pub open spec fn on_sheet(name: Option<Seq<char>>, local: Seq<char>) -> Seq<char> {
    match name {
        Some(n) => n + "!"@ + local,
        None => local,
    }
}

/// The sheet that a reference is for.
pub open spec fn sheet_for(name: Option<Seq<char>>, own: Seq<char>) -> Seq<char> {
    match name {
        Some(n) => n,
        None => own,
    }
}

/// Whether the name of a sheet can stand in front of a reference as it is.
pub open spec fn is_bare_name(name: Option<Seq<char>>) -> bool {
    name matches Some(n) ==> without(n, '!') && without(n, '\'')
}

/// Whether sheet `k` is the first of a name.
pub open spec fn is_first_of(sheets: Seq<BookSheet>, name: Seq<char>, k: int) -> bool {
    &&& 0 <= k < sheets.len()
    &&& sheets[k].name@ == name
    &&& forall|m: int| 0 <= m < k ==> (#[trigger] sheets[m]).name@ != name
}

proof fn first_is_found(sheets: Seq<BookSheet>, name: Seq<char>, k: int, from: int)
    requires
        is_first_of(sheets, name, k),
        0 <= from <= k,
    ensures
        find_sheet(sheets, name, from) == Some(k),
    decreases k - from,
{
    if from < k {
        assert(sheets[from].name@ != name);
        first_is_found(sheets, name, k, from + 1);
    }
}

proof fn none_is_found(sheets: Seq<BookSheet>, name: Seq<char>, from: int)
    requires
        0 <= from,
        forall|m: int| 0 <= m < sheets.len() ==> (#[trigger] sheets[m]).name@ != name,
    ensures
        find_sheet(sheets, name, from) is None,
    decreases sheets.len() - from,
{
    if from < sheets.len() {
        assert(sheets[from].name@ != name);
        none_is_found(sheets, name, from + 1);
    }
}

proof fn nothing_to_trim(s: Seq<char>, c: char)
    requires
        without(s, c),
    ensures
        trim_char(s, c) == s,
{
    if s.len() > 0 {
        assert(s[0] != c);
        assert(s[s.len() - 1] != c);
    }
    assert(trim_start_char(s, c) == s);
    assert(trim_end_char(s, c) == s);
}

proof fn nothing_to_drop(s: Seq<char>, c: char)
    requires
        without(s, c),
    ensures
        without_char(s, c) == s,
    decreases s.len(),
{
    if s.len() > 0 {
        assert(s[s.len() - 1] != c);
        assert forall|i: int| 0 <= i < s.drop_last().len() implies #[trigger] s.drop_last()[i] != c by {
            assert(s[i] != c);
        }
        nothing_to_drop(s.drop_last(), c);
        assert(s.drop_last().push(s.last()) == s);
    }
}

proof fn not_found(s: Seq<char>, c: char, i: int)
    requires
        0 <= i,
        without(s, c),
    ensures
        find_char(s, c, i) is None,
    decreases s.len() - i,
{
    if i < s.len() {
        assert(s[i] != c);
        not_found(s, c, i + 1);
    }
}

/// The sheet and the rest of a reference.
proof fn splits(name: Option<Seq<char>>, own: Seq<char>, local: Seq<char>)
    requires
        is_bare_name(name),
        without(local, '!'),
    ensures
        spec_split_local(on_sheet(name, local), own) == (sheet_for(name, own), local),
{
    reveal_strlit("!");
    match name {
        Some(n) => {
            let tail = "!"@ + local;
            let s = n + "!"@ + local;
            assert(s == n + tail);
            find_char_past(n, tail, '!', 0);
            assert(s[n.len() as int] == '!');
            assert(s.take(n.len() as int) == n);
            assert(s.skip(n.len() as int + 1) == local);
            nothing_to_trim(n, '\'');
        },
        None => {
            not_found(local, '!', 0);
        },
    }
}

proof fn letters_plain(s: Seq<char>)
    requires
        all_letters(s),
    ensures
        without(s, '!'),
        without(s, '$'),
{
    assert forall|i: int| 0 <= i < s.len() implies #[trigger] s[i] != '!' && s[i] != '$' by {
        assert(crate::token::spec_is_letter(s[i]));
    }
}

proof fn digits_plain(s: Seq<char>)
    requires
        all_digits(s),
    ensures
        without(s, '!'),
        without(s, '$'),
{
    assert forall|i: int| 0 <= i < s.len() implies #[trigger] s[i] != '!' && s[i] != '$' by {
        assert(crate::token::spec_is_digit(s[i]));
    }
}

proof fn addr_plain(row: nat, col: nat)
    ensures
        without(addr(row, col), '!'),
        without(addr(row, col), '$'),
{
    label_round_trip(col);
    dec_round_trip(row + 1);
    letters_plain(label(col));
    digits_plain(dec(row + 1));
    let s = addr(row, col);
    assert forall|i: int| 0 <= i < s.len() implies #[trigger] s[i] != '!' && s[i] != '$' by {
        if i < label(col).len() {
            assert(s[i] == label(col)[i]);
        } else {
            assert(s[i] == dec(row + 1)[i - label(col).len()]);
        }
    }
}

proof fn addr_names(name: Option<Seq<char>>, own: Seq<char>, row: nat, col: nat)
    requires
        is_bare_name(name),
        row < u32::MAX,
        col <= u32::MAX,
    ensures
        ({
            let e = spec_endpoint_of(on_sheet(name, addr(row, col)), own);
            e.sheet == sheet_for(name, own) && e.row == row && e.col == col
        }),
        spec_split_local(on_sheet(name, addr(row, col)), own) == (
            sheet_for(name, own),
            addr(row, col),
        ),
        without_char(addr(row, col), '$') == addr(row, col),
{
    addr_plain(row, col);
    splits(name, own, addr(row, col));
    nothing_to_drop(addr(row, col), '$');
    addr_round_trip(row, col);
}

/// What a cell's address reads is what was written to the place, and otherwise what its cell holds;
/// blank where there is no cell. The name of a sheet in front of the address tells of which sheet;
/// without it, it is the formula's own.
pub proof fn address_reads_its_cell(
    sheets: Seq<BookSheet>,
    own: Seq<char>,
    name: Option<Seq<char>>,
    row: u32,
    col: u32,
    k: int,
)
    requires
        is_bare_name(name),
        is_first_of(sheets, sheet_for(name, own), k),
        row < u32::MAX,
    ensures
        forall|m: int|
            0 <= m < sheets[k].cells@.len() && (#[trigger] sheets[k].cells@[m]).row == row
                && sheets[k].cells@[m].col == col && tidy(sheets) ==> cell_value(
                sheets,
                Seq::empty(),
                own,
                on_sheet(name, addr(row as nat, col as nat)),
            ) == value_of(opt_content(sheets[k].cells@[m].content)),
        (forall|m: int|
            0 <= m < sheets[k].cells@.len() ==> (#[trigger] sheets[k].cells@[m]).row != row
                || sheets[k].cells@[m].col != col) ==> cell_value(
            sheets,
            Seq::empty(),
            own,
            on_sheet(name, addr(row as nat, col as nat)),
        ) == FValue::Blank,
{
    addr_names(name, own, row as nat, col as nat);
    addr_round_trip(row as nat, col as nat);
    first_is_found(sheets, sheet_for(name, own), k, 0);
    let cells = sheets[k].cells@;
    find_is(cells, row, col, 0);
    assert forall|m: int|
        0 <= m < cells.len() && (#[trigger] cells[m]).row == row && cells[m].col == col && tidy(
            sheets,
        ) implies find_cell(cells, row, col, 0) == Some(m) by {
        assert(crate::recalc_law::spread_out(sheets[k].cells@));
        let f = find_cell(cells, row, col, 0)->0;
        if f < m {
            assert(cells[f].row != cells[m].row || cells[f].col != cells[m].col);
        } else if m < f {
            assert(cells[m].row != cells[f].row || cells[m].col != cells[f].col);
        }
    }
}

proof fn find_is(cells: Seq<crate::engine::BookCell>, row: u32, col: u32, from: int)
    requires
        0 <= from,
    ensures
        match find_cell(cells, row, col, from) {
            Some(f) => from <= f < cells.len() && cells[f].row == row && cells[f].col == col,
            None => forall|m: int|
                from <= m < cells.len() ==> (#[trigger] cells[m]).row != row || cells[m].col != col,
        },
    decreases cells.len() - from,
{
    if from < cells.len() {
        find_is(cells, row, col, from + 1);
    }
}

/// A `$` in front of a column or a row changes nothing of what an address reads.
pub proof fn dollars_change_nothing(
    sheets: Seq<BookSheet>,
    writes: Seq<CellWrite>,
    own: Seq<char>,
    row: u32,
    col: u32,
    r: Seq<char>,
)
    requires
        row < u32::MAX,
        r == "$"@ + label(col as nat) + dec((row + 1) as nat) || r == label(col as nat) + "$"@ + dec(
            (row + 1) as nat,
        ) || r == "$"@ + label(col as nat) + "$"@ + dec((row + 1) as nat),
    ensures
        cell_value(sheets, writes, own, r) == cell_value(
            sheets,
            writes,
            own,
            addr(row as nat, col as nat),
        ),
{
    let a = label(col as nat);
    let b = dec((row + 1) as nat);
    reveal_strlit("$");
    label_round_trip(col as nat);
    dec_round_trip((row + 1) as nat);
    letters_plain(a);
    digits_plain(b);
    addr_names(None, own, row as nat, col as nat);
    addr_plain(row as nat, col as nat);
    not_found(addr(row as nat, col as nat), '!', 0);
    let d = "$"@;
    nothing_to_drop(a, '$');
    nothing_to_drop(b, '$');
    assert(without_char(d, '$') == Seq::<char>::empty()) by {
        reveal_with_fuel(without_char, 2);
        assert(d.drop_last() == Seq::<char>::empty());
    }
    dropped_apart(d, a, '$');
    dropped_apart(a, d, '$');
    dropped_apart(d + a, b, '$');
    dropped_apart(a + d, b, '$');
    dropped_apart(d + a, d, '$');
    dropped_apart(d + a + d, b, '$');
    assert(Seq::<char>::empty() + a == a);
    assert(a + Seq::<char>::empty() == a);
    assert(without_char(r, '$') == a + b);
    assert(without(r, '!')) by {
        assert forall|i: int| 0 <= i < r.len() implies #[trigger] r[i] != '!' by {
            assert(a.contains(r[i]) || b.contains(r[i]) || r[i] == '$');
        }
    }
    not_found(r, '!', 0);
}

proof fn dropped_apart(a: Seq<char>, b: Seq<char>, c: char)
    ensures
        without_char(a + b, c) == without_char(a, c) + without_char(b, c),
    decreases b.len(),
{
    if b.len() == 0 {
        assert(a + b == a);
        assert(without_char(a, c) + b == without_char(a, c));
    } else {
        dropped_apart(a, b.drop_last(), c);
        assert((a + b).drop_last() == a + b.drop_last());
        assert((a + b).last() == b.last());
        assert(without_char(a, c) + without_char(b.drop_last(), c).push(b.last()) == (
        without_char(a, c) + without_char(b.drop_last(), c)).push(b.last()));
    }
}

/// What was written last to a place is what its address reads; other addresses read what they read
/// before.
pub proof fn writes_are_read(
    sheets: Seq<BookSheet>,
    writes: Seq<CellWrite>,
    w: CellWrite,
    row: u32,
    col: u32,
    k: int,
)
    requires
        is_first_of(sheets, w.sheet_name@, k),
        w.row < u32::MAX,
        row < u32::MAX,
    ensures
        cell_value(sheets, writes.push(w), w.sheet_name@, addr(w.row as nat, w.col as nat))
            == w.value@,
        (row, col) != (w.row, w.col) ==> cell_value(
            sheets,
            writes.push(w),
            w.sheet_name@,
            addr(row as nat, col as nat),
        ) == cell_value(sheets, writes, w.sheet_name@, addr(row as nat, col as nat)),
{
    let own = w.sheet_name@;
    addr_names(None, own, w.row as nat, w.col as nat);
    addr_names(None, own, row as nat, col as nat);
    addr_round_trip(w.row as nat, w.col as nat);
    addr_round_trip(row as nat, col as nat);
    first_is_found(sheets, own, k, 0);
    assert(writes.push(w).last() == w);
    assert(writes.push(w).drop_last() == writes);
}

/// An address of a sheet that is not there reads `#REF!`, and so does a range's one value.
pub proof fn no_sheet_reads_an_error(
    sheets: Seq<BookSheet>,
    writes: Seq<CellWrite>,
    own: Seq<char>,
    name: Option<Seq<char>>,
    a: (u32, u32),
    b: (u32, u32),
)
    requires
        is_bare_name(name),
        forall|m: int|
            0 <= m < sheets.len() ==> (#[trigger] sheets[m]).name@ != sheet_for(name, own),
        a.0 < u32::MAX,
        b.0 < u32::MAX,
    ensures
        cell_value(sheets, writes, own, on_sheet(name, addr(a.0 as nat, a.1 as nat)))
            == FValue::Error(FormulaError::Ref),
        scalar(
            Evaluated::Range(
                range_value(
                    sheets,
                    writes,
                    own,
                    on_sheet(name, addr(a.0 as nat, a.1 as nat)),
                    addr(b.0 as nat, b.1 as nat),
                ),
            ),
        ) == FValue::Error(FormulaError::Ref),
{
    addr_names(name, own, a.0 as nat, a.1 as nat);
    addr_names(None, own, b.0 as nat, b.1 as nat);
    addr_round_trip(a.0 as nat, a.1 as nat);
    none_is_found(sheets, sheet_for(name, own), 0);
}

/// Whether values are those of the cells of a block, row by row: the value at row `i` and column `j`
/// is what the address of the cell `i` rows below and `j` columns to the right of the first one
/// reads.
pub open spec fn reads_block(
    v: Seq<Seq<FValue>>,
    sheets: Seq<BookSheet>,
    writes: Seq<CellWrite>,
    own: Seq<char>,
    name: Option<Seq<char>>,
    rows: (int, int),
    cols: (int, int),
) -> bool {
    &&& v.len() == (if rows.0 <= rows.1 {
        rows.1 - rows.0 + 1
    } else {
        0
    })
    &&& forall|i: int|
        0 <= i < v.len() ==> (#[trigger] v[i]).len() == (if cols.0 <= cols.1 {
            cols.1 - cols.0 + 1
        } else {
            0
        })
    &&& forall|i: int, j: int|
        0 <= i < v.len() && 0 <= j < v[i].len() ==> #[trigger] v[i][j] == cell_value(
            sheets,
            writes,
            own,
            on_sheet(name, addr((rows.0 + i) as nat, (cols.0 + j) as nat)),
        )
}

proof fn block_reads(
    sheets: Seq<BookSheet>,
    writes: Seq<CellWrite>,
    own: Seq<char>,
    name: Option<Seq<char>>,
    start: Seq<char>,
    end: Seq<char>,
    rows: (int, int),
    cols: (int, int),
    k: int,
)
    requires
        is_bare_name(name),
        is_first_of(sheets, sheet_for(name, own), k),
        0 <= rows.0,
        0 <= cols.0,
        rows.1 < u32::MAX,
        cols.1 < u32::MAX,
        ({
            let a = spec_endpoint_of(start, own);
            let b = spec_endpoint_of(end, own);
            &&& a.sheet == sheet_for(name, own)
            &&& crate::engine::clipped(a.row, b.row, sheets[k].rows) == rows
            &&& crate::engine::clipped(a.col, b.col, sheets[k].cols) == cols
        }),
    ensures
        reads_block(range_value(sheets, writes, own, start, end), sheets, writes, own, name, rows, cols),
{
    let s = sheet_for(name, own);
    let v = range_value(sheets, writes, own, start, end);
    first_is_found(sheets, s, k, 0);
    assert forall|i: int, j: int|
        0 <= i < v.len() && 0 <= j < v[i].len() implies #[trigger] v[i][j] == cell_value(
        sheets,
        writes,
        own,
        on_sheet(name, addr((rows.0 + i) as nat, (cols.0 + j) as nat)),
    ) by {
        addr_names(name, own, (rows.0 + i) as nat, (cols.0 + j) as nat);
        addr_round_trip((rows.0 + i) as nat, (cols.0 + j) as nat);
    }
}

/// A range reads the cells between its two ends, in whatever corners they are, cut to the sheet.
/// The value at row `i` and column `j` is that of the cell `i` rows below and `j` columns to the
/// right of the upper left one; where one value is wanted, it is that of the upper left cell.
pub proof fn range_reads_its_cells(
    sheets: Seq<BookSheet>,
    writes: Seq<CellWrite>,
    own: Seq<char>,
    name: Option<Seq<char>>,
    a: (u32, u32),
    b: (u32, u32),
    k: int,
)
    requires
        is_bare_name(name),
        is_first_of(sheets, sheet_for(name, own), k),
        a.0 < u32::MAX,
        b.0 < u32::MAX,
        a.1 < u32::MAX,
        b.1 < u32::MAX,
        sheets[k].rows > 0,
        sheets[k].cols > 0,
    ensures
        ({
            let v = range_value(
                sheets,
                writes,
                own,
                on_sheet(name, addr(a.0 as nat, a.1 as nat)),
                addr(b.0 as nat, b.1 as nat),
            );
            let top = if a.0 <= b.0 { a.0 } else { b.0 };
            let left = if a.1 <= b.1 { a.1 } else { b.1 };
            let low = if a.0 <= b.0 { b.0 } else { a.0 };
            let right = if a.1 <= b.1 { b.1 } else { a.1 };
            let bottom = if low < sheets[k].rows { low as int } else { sheets[k].rows - 1 };
            let last = if right < sheets[k].cols { right as int } else { sheets[k].cols - 1 };
            &&& reads_block(v, sheets, writes, own, name, (top as int, bottom), (left as int, last))
            &&& top < sheets[k].rows && left < sheets[k].cols ==> scalar(Evaluated::Range(v))
                == cell_value(sheets, writes, own, on_sheet(name, addr(top as nat, left as nat)))
        }),
{
    let start = on_sheet(name, addr(a.0 as nat, a.1 as nat));
    let end = addr(b.0 as nat, b.1 as nat);
    addr_names(name, own, a.0 as nat, a.1 as nat);
    addr_names(None, own, b.0 as nat, b.1 as nat);
    let rows = crate::engine::clipped(a.0 as int, b.0 as int, sheets[k].rows);
    let cols = crate::engine::clipped(a.1 as int, b.1 as int, sheets[k].cols);
    block_reads(sheets, writes, own, name, start, end, rows, cols, k);
    let v = range_value(sheets, writes, own, start, end);
    if rows.0 <= rows.1 && cols.0 <= cols.1 {
        assert(v[0].len() > 0);
        assert(v[0][0] == cell_value(
            sheets,
            writes,
            own,
            on_sheet(name, addr(rows.0 as nat, cols.0 as nat)),
        ));
    }
}

/// A range of whole columns reads them from the first row of the sheet to the last.
pub proof fn columns_read_their_cells(
    sheets: Seq<BookSheet>,
    writes: Seq<CellWrite>,
    own: Seq<char>,
    name: Option<Seq<char>>,
    c: u32,
    d: u32,
    k: int,
)
    requires
        is_bare_name(name),
        is_first_of(sheets, sheet_for(name, own), k),
        sheets[k].rows > 0,
        c <= d < sheets[k].cols,
    ensures
        reads_block(
            range_value(
                sheets,
                writes,
                own,
                on_sheet(name, label(c as nat)),
                on_sheet(name, label(d as nat)),
            ),
            sheets,
            writes,
            own,
            name,
            (0, sheets[k].rows - 1),
            (c as int, d as int),
        ),
{
    column_names(name, own, c as nat);
    column_names(name, own, d as nat);
    block_reads(
        sheets,
        writes,
        own,
        name,
        on_sheet(name, label(c as nat)),
        on_sheet(name, label(d as nat)),
        (0, sheets[k].rows - 1),
        (c as int, d as int),
        k,
    );
}

proof fn column_names(name: Option<Seq<char>>, own: Seq<char>, col: nat)
    requires
        is_bare_name(name),
        col <= u32::MAX,
    ensures
        ({
            let e = spec_endpoint_of(on_sheet(name, label(col)), own);
            e.sheet == sheet_for(name, own) && e.row == -1 && e.col == col
        }),
{
    let s = label(col);
    label_round_trip(col);
    letters_plain(s);
    splits(name, own, s);
    nothing_to_drop(s, '$');
    all_of_them(s);
    assert(s.skip(s.len() as int) == Seq::<char>::empty());
}

proof fn all_of_them(s: Seq<char>)
    requires
        all_letters(s),
    ensures
        letters_end(s) == s.len(),
    decreases s.len(),
{
    if s.len() > 0 {
        assert(crate::token::spec_is_letter(s[0]));
        assert forall|i: int| 0 <= i < s.skip(1).len() implies crate::token::spec_is_letter(
            #[trigger] s.skip(1)[i],
        ) by {
            assert(crate::token::spec_is_letter(s[i + 1]));
        }
        all_of_them(s.skip(1));
    }
}

/// A range of whole rows reads them from the first column of the sheet to the last.
pub proof fn rows_read_their_cells(
    sheets: Seq<BookSheet>,
    writes: Seq<CellWrite>,
    own: Seq<char>,
    name: Option<Seq<char>>,
    r: u32,
    s: u32,
    k: int,
)
    requires
        is_bare_name(name),
        is_first_of(sheets, sheet_for(name, own), k),
        sheets[k].cols > 0,
        r <= s < sheets[k].rows,
    ensures
        reads_block(
            range_value(
                sheets,
                writes,
                own,
                on_sheet(name, dec((r + 1) as nat)),
                on_sheet(name, dec((s + 1) as nat)),
            ),
            sheets,
            writes,
            own,
            name,
            (r as int, s as int),
            (0, sheets[k].cols - 1),
        ),
{
    row_names(name, own, r as nat);
    row_names(name, own, s as nat);
    block_reads(
        sheets,
        writes,
        own,
        name,
        on_sheet(name, dec((r + 1) as nat)),
        on_sheet(name, dec((s + 1) as nat)),
        (r as int, s as int),
        (0, sheets[k].cols - 1),
        k,
    );
}

proof fn row_names(name: Option<Seq<char>>, own: Seq<char>, row: nat)
    requires
        is_bare_name(name),
        row < u32::MAX,
    ensures
        ({
            let e = spec_endpoint_of(on_sheet(name, dec(row + 1)), own);
            e.sheet == sheet_for(name, own) && e.row == row && e.col == -1
        }),
{
    let s = dec(row + 1);
    dec_round_trip(row + 1);
    digits_plain(s);
    splits(name, own, s);
    nothing_to_drop(s, '$');
    assert(crate::token::spec_is_digit(s[0]));
    assert(letters_end(s) == 0);
    assert(s.take(0) == Seq::<char>::empty());
}

/// Whether a number lies between two others, whichever of them is the smaller.
pub open spec fn lies_between(x: int, a: int, b: int) -> bool {
    a <= x <= b || b <= x <= a
}

proof fn held_in_range(
    start: Seq<char>,
    end: Seq<char>,
    own: Seq<char>,
    bounds: Seq<SheetSize>,
    sheet: Seq<char>,
    rows: (int, int),
    cols: (int, int),
    row: u32,
    col: u32,
)
    requires
        ({
            let a = spec_endpoint_of(start, own);
            let b = spec_endpoint_of(end, own);
            let (m, n) = spec_bounds(bounds, a.sheet);
            a.sheet == sheet && span_of(a.row, b.row, m) == rows && span_of(a.col, b.col, n) == cols
        }),
        0 <= rows.0 && rows.1 <= u32::MAX,
        0 <= cols.0 && cols.1 <= u32::MAX,
    ensures
        range_holds(start, end, own, bounds, spec_cell_key(sheet, row as nat, col as nat)) == (
        rows.0 <= row <= rows.1 && cols.0 <= col <= cols.1),
{
    let k = spec_cell_key(sheet, row as nat, col as nat);
    if range_holds(start, end, own, bounds, k) {
        let (r, c) = choose|r: int, c: int|
            rows.0 <= r <= rows.1 && cols.0 <= c <= cols.1 && k == #[trigger] spec_cell_key(
                sheet,
                wrap32(r),
                wrap32(c),
            );
        key_names_one(sheet, row as nat, col as nat, sheet, wrap32(r), wrap32(c));
    }
    if rows.0 <= row <= rows.1 && cols.0 <= col <= cols.1 {
        assert(wrap32(row as int) == row && wrap32(col as int) == col);
        assert(k == spec_cell_key(sheet, wrap32(row as int), wrap32(col as int)));
    }
}

/// A formula with a cell's address depends on that cell and no other.
pub proof fn addresses_are_dependencies(
    name: Option<Seq<char>>,
    own: Seq<char>,
    bounds: Seq<SheetSize>,
    r: u32,
    c: u32,
    row: u32,
    col: u32,
    other: Seq<char>,
)
    requires
        is_bare_name(name),
        r < u32::MAX,
    ensures
        reads(
            Ast::Ref(on_sheet(name, addr(r as nat, c as nat))),
            own,
            bounds,
            spec_cell_key(other, row as nat, col as nat),
        ) == (other == sheet_for(name, own) && row == r && col == c),
{
    addr_names(name, own, r as nat, c as nat);
    addr_round_trip(r as nat, c as nat);
    let s = sheet_for(name, own);
    if spec_cell_key(s, r as nat, c as nat) == spec_cell_key(other, row as nat, col as nat) {
        key_names_one(s, r as nat, c as nat, other, row as nat, col as nat);
    }
}

/// A formula with a range depends on the cells between the range's ends and on no other of the
/// sheet.
pub proof fn ranges_are_dependencies(
    name: Option<Seq<char>>,
    own: Seq<char>,
    bounds: Seq<SheetSize>,
    r: u32,
    c: u32,
    r2: u32,
    c2: u32,
    row: u32,
    col: u32,
)
    requires
        is_bare_name(name),
        r < u32::MAX,
        r2 < u32::MAX,
    ensures
        reads(
            Ast::Range {
                start: on_sheet(name, addr(r as nat, c as nat)),
                end: addr(r2 as nat, c2 as nat),
            },
            own,
            bounds,
            spec_cell_key(sheet_for(name, own), row as nat, col as nat),
        ) == (lies_between(row as int, r as int, r2 as int) && lies_between(
            col as int,
            c as int,
            c2 as int,
        )),
{
    addr_names(name, own, r as nat, c as nat);
    addr_names(None, own, r2 as nat, c2 as nat);
    let (r, c, r2, c2) = (r as int, c as int, r2 as int, c2 as int);
    held_in_range(
        on_sheet(name, addr(r as nat, c as nat)),
        addr(r2 as nat, c2 as nat),
        own,
        bounds,
        sheet_for(name, own),
        (if r <= r2 {
            (r, r2)
        } else {
            (r2, r)
        }),
        (if c <= c2 {
            (c, c2)
        } else {
            (c2, c)
        }),
        row,
        col,
    );
}

/// A formula with whole columns depends on their cells in all rows of the sheet.
pub proof fn columns_are_dependencies(
    name: Option<Seq<char>>,
    own: Seq<char>,
    bounds: Seq<SheetSize>,
    c: u32,
    c2: u32,
    row: u32,
    col: u32,
)
    requires
        is_bare_name(name),
    ensures
        reads(
            Ast::Range { start: on_sheet(name, label(c as nat)), end: label(c2 as nat) },
            own,
            bounds,
            spec_cell_key(sheet_for(name, own), row as nat, col as nat),
        ) == (lies_between(col as int, c as int, c2 as int) && (row == 0 || row < spec_bounds(
            bounds,
            sheet_for(name, own),
        ).0)),
{
    column_names(name, own, c as nat);
    column_names(None, own, c2 as nat);
    let m = spec_bounds(bounds, sheet_for(name, own)).0 as int;
    let (c, c2) = (c as int, c2 as int);
    held_in_range(
        on_sheet(name, label(c as nat)),
        label(c2 as nat),
        own,
        bounds,
        sheet_for(name, own),
        (0, if m > 0 {
            m - 1
        } else {
            0
        }),
        (if c <= c2 {
            (c, c2)
        } else {
            (c2, c)
        }),
        row,
        col,
    );
}

proof fn any_reads(list: Seq<Ast>, own: Seq<char>, bounds: Seq<SheetSize>, k: Seq<char>)
    ensures
        reads_any(list, own, bounds, k) == exists|i: int|
            0 <= i < list.len() && reads(#[trigger] list[i], own, bounds, k),
    decreases list.len(),
{
    if list.len() > 0 {
        let fore = list.drop_last();
        any_reads(fore, own, bounds, k);
        if reads_any(fore, own, bounds, k) {
            let i = choose|i: int| 0 <= i < fore.len() && reads(#[trigger] fore[i], own, bounds, k);
            assert(list[i] == fore[i]);
        }
        if exists|i: int| 0 <= i < list.len() && reads(#[trigger] list[i], own, bounds, k) {
            let i = choose|i: int| 0 <= i < list.len() && reads(#[trigger] list[i], own, bounds, k);
            if i < fore.len() {
                assert(fore[i] == list[i]);
            }
        }
        if reads(list.last(), own, bounds, k) {
            assert(list[list.len() - 1] == list.last());
        }
    }
}

proof fn rows_read(rows: Seq<Seq<Ast>>, own: Seq<char>, bounds: Seq<SheetSize>, k: Seq<char>)
    ensures
        reads_rows(rows, own, bounds, k) == exists|i: int|
            0 <= i < rows.len() && reads_any(#[trigger] rows[i], own, bounds, k),
    decreases rows.len(),
{
    if rows.len() > 0 {
        let fore = rows.drop_last();
        rows_read(fore, own, bounds, k);
        if reads_rows(fore, own, bounds, k) {
            let i = choose|i: int|
                0 <= i < fore.len() && reads_any(#[trigger] fore[i], own, bounds, k);
            assert(rows[i] == fore[i]);
        }
        if exists|i: int| 0 <= i < rows.len() && reads_any(#[trigger] rows[i], own, bounds, k) {
            let i = choose|i: int|
                0 <= i < rows.len() && reads_any(#[trigger] rows[i], own, bounds, k);
            if i < fore.len() {
                assert(fore[i] == rows[i]);
            }
        }
        if reads_any(rows.last(), own, bounds, k) {
            assert(rows[rows.len() - 1] == rows.last());
        }
    }
}

/// A formula depends on what its parts depend on: both sides of an operator, every argument of a
/// call and every place of an array.
pub proof fn parts_are_dependencies(
    left: Ast,
    right: Ast,
    args: Seq<Ast>,
    rows: Seq<Seq<Ast>>,
    op: Seq<char>,
    own: Seq<char>,
    bounds: Seq<SheetSize>,
    k: Seq<char>,
    i: int,
    j: int,
)
    ensures
        reads(left, own, bounds, k) || reads(right, own, bounds, k) <==> reads(
            Ast::Binary { op, left: Box::new(left), right: Box::new(right) },
            own,
            bounds,
            k,
        ),
        reads(Ast::Unary { op, operand: Box::new(left) }, own, bounds, k) == reads(
            left,
            own,
            bounds,
            k,
        ),
        0 <= i < args.len() && reads(args[i], own, bounds, k) ==> reads(
            Ast::Call { name: op, args },
            own,
            bounds,
            k,
        ),
        reads(Ast::Call { name: op, args }, own, bounds, k) ==> exists|m: int|
            0 <= m < args.len() && reads(#[trigger] args[m], own, bounds, k),
        0 <= i < rows.len() && 0 <= j < rows[i].len() && reads(rows[i][j], own, bounds, k)
            ==> reads(Ast::Array(rows), own, bounds, k),
        !reads(Ast::Number(op), own, bounds, k),
        !reads(Ast::Str(op), own, bounds, k),
{
    any_reads(args, own, bounds, k);
    rows_read(rows, own, bounds, k);
    if 0 <= i < rows.len() {
        any_reads(rows[i], own, bounds, k);
    }
}

} // verus!
