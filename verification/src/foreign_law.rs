//! What holds of reading workbooks that others wrote: values by their type, merged cells by either pair
//! of corners, and columns that stand together.
use crate::address::{addr, addr_round_trip, all_letters, label_round_trip};
use crate::cell_law::{escaped_is_bare, lit_clear, piece_clear};
use crate::decimal::{all_digits, dec, dec_round_trip, parse_unsigned_dec};
use crate::find_law::{clear, clear_without, enclosed_found, find_char_past, find_missing, without};
use crate::numeral::is_number_text;
use crate::snapshot::Span;
use crate::text::find_char;
use crate::xlsx_read::{
    cell_value_read, col_range_read, col_read, inline_text, merges_read, ref_ends, ColsRead,
    ValueView,
};
use crate::scan::first_enclosed;
use crate::xml::{esc_text, escape_round_trip, Escape};
use vstd::prelude::*;

verus! {

/// A value as it stands in a cell.
pub open spec fn value_xml(raw: Seq<char>) -> Seq<char> {
    "<v>"@ + raw + "</v>"@
}

proof fn value_found(raw: Seq<char>)
    requires
        without(raw, '<'),
    ensures
        inline_text(value_xml(raw)) is None,
        first_enclosed(value_xml(raw), "<v>"@, "</v>"@) == Some(raw),
{
    reveal_strlit("<v>");
    reveal_strlit("</v>");
    reveal_strlit("<is>");
    let s = value_xml(raw);
    let e = Seq::<char>::empty();
    lit_clear("<v>"@, "<is>"@, 1);
    lit_clear("</v>"@, "<is>"@, 1);
    piece_clear("<v>"@, raw, "</v>"@, "<is>"@);
    find_missing(s, "<is>"@, 0);
    clear_without(raw, "</v>"@);
    assert(clear(e, "<v>"@));
    enclosed_found(e, "<v>"@, raw, "</v>"@, e);
    assert(e + "<v>"@ + raw + "</v>"@ + e =~= s);
}

/// A cell's value is read by its type: `s` gives the place of a shared string, `b` a truth value, `str`
/// a text; without a type it is a number where it reads as one.
pub proof fn values_are_read_by_their_type(
    sst: Seq<Seq<char>>,
    i: nat,
    t: Seq<char>,
    n: Seq<char>,
)
    requires
        is_number_text(n),
        n.len() > 0,
        without(n, '<'),
        i <= usize::MAX,
    ensures
        i < sst.len() ==> cell_value_read(value_xml(dec(i)), Some(seq!['s']), sst) == Some(
            ValueView::Text(sst[i as int]),
        ),
        cell_value_read(value_xml(seq!['1']), Some(seq!['b']), sst) == Some(ValueView::Bool(true)),
        cell_value_read(value_xml(seq!['0']), Some(seq!['b']), sst) == Some(ValueView::Bool(false)),
        cell_value_read(value_xml(esc_text(t, Escape::Full)), Some(seq!['s', 't', 'r']), sst) == Some(
            ValueView::Text(t),
        ),
        cell_value_read(value_xml(n), None, sst) == Some(ValueView::Number(n)),
{
    reveal_strlit("s");
    reveal_strlit("b");
    reveal_strlit("str");
    reveal_strlit("1");
    assert("s"@ =~= seq!['s']);
    assert("b"@ =~= seq!['b']);
    assert("str"@ =~= seq!['s', 't', 'r']);
    assert("1"@ =~= seq!['1']);
    assert(seq!['s'] != seq!['b']) by {
        assert(seq!['s'][0] != seq!['b'][0]);
    }
    assert(seq!['0'] != seq!['1']) by {
        assert(seq!['0'][0] != seq!['1'][0]);
    }
    assert(seq!['s', 't', 'r'].len() == 3 && seq!['s'].len() == 1 && seq!['b'].len() == 1);
    dec_round_trip(i);
    assert(without(dec(i), '<')) by {
        assert forall|k: int| 0 <= k < dec(i).len() implies #[trigger] dec(i)[k] != '<' by {
            assert(all_digits(dec(i)));
        }
    }
    value_found(dec(i));
    value_found(seq!['1']);
    value_found(seq!['0']);
    escaped_is_bare(t);
    value_found(esc_text(t, Escape::Full));
    value_found(n);
    escape_round_trip(t);
    if i < sst.len() {
        parse_unsigned_dec(i, usize::MAX as nat);
    }
}

proof fn no_colon(row: nat, col: nat)
    ensures
        without(addr(row, col), ':'),
{
    let s = addr(row, col);
    label_round_trip(col);
    dec_round_trip(row + 1);
    let l = crate::address::label(col);
    let d = dec(row + 1);
    assert forall|i: int| 0 <= i < s.len() implies #[trigger] s[i] != ':' by {
        if i < l.len() {
            assert(s[i] == l[i]);
            assert(all_letters(l));
        } else {
            assert(s[i] == d[i - l.len()]);
            assert(all_digits(d));
        }
    }
}

/// Two addresses with a colon between them.
pub open spec fn corners(r: nat, c: nat, r2: nat, c2: nat) -> Seq<char> {
    addr(r, c) + seq![':'] + addr(r2, c2)
}

proof fn ends_read(r: nat, c: nat, r2: nat, c2: nat)
    ensures
        ref_ends(corners(r, c, r2, c2)) == (addr(r, c), addr(r2, c2)),
{
    let a = addr(r, c);
    let b = addr(r2, c2);
    let s = corners(r, c, r2, c2);
    no_colon(r, c);
    no_colon(r2, c2);
    let tail = seq![':'] + b;
    assert(s =~= a + tail);
    assert(tail[0] == ':');
    find_char_past(a, tail, ':', 0);
    let p = a.len() as int;
    assert(s.take(p) =~= a);
    assert(s.skip(p + 1) =~= b);
    nothing_behind(s, b, p + 1, p + 1);
}

proof fn nothing_behind(s: Seq<char>, b: Seq<char>, p: int, i: int)
    requires
        0 <= p <= i,
        s.len() == p + b.len(),
        s.skip(p) == b,
        without(b, ':'),
    ensures
        find_char(s, ':', i) is None,
    decreases s.len() - i,
{
    if i < s.len() {
        assert(s[i] == s.skip(p)[i - p]);
        assert(b[i - p] != ':');
        nothing_behind(s, b, p, i + 1);
    }
}

/// Merged cells are read from any two corners that lie across from each other: they start with the
/// smaller row and the smaller column, and take all rows and columns up to the larger ones.
pub proof fn merged_cells_are_read_from_their_corners(
    refs: Seq<Seq<char>>,
    spans: Seq<Span>,
    rows: u32,
    cols: u32,
    r: u32,
    c: u32,
    h: u32,
    w: u32,
    max_row: u32,
    max_col: u32,
)
    requires
        merges_read(refs, max_row, max_col) matches Some(p) && p.spans == spans && p.max_row == rows
            && p.max_col == cols,
        h > 0,
        w > 0,
        r + h < u32::MAX,
        c + w < u32::MAX,
    ensures
        ({
            let (t, b) = (r as nat, (r + h - 1) as nat);
            let (f, l) = (c as nat, (c + w - 1) as nat);
            let span = Span { row: r, col: c, row_count: h, col_count: w };
            &&& merges_read(refs.push(corners(t, f, b, l)), max_row, max_col) matches Some(q)
                && q.spans == spans.push(span)
            &&& merges_read(refs.push(corners(b, l, t, f)), max_row, max_col) matches Some(q)
                && q.spans == spans.push(span)
            &&& merges_read(refs.push(corners(t, l, b, f)), max_row, max_col) matches Some(q)
                && q.spans == spans.push(span)
        }),
        merges_read(Seq::empty(), max_row, max_col) matches Some(q) && q.spans.len() == 0,
{
    let (t, b) = (r as nat, (r + h - 1) as nat);
    let (f, l) = (c as nat, (c + w - 1) as nat);
    one_merge(refs, spans, rows, cols, t, f, b, l, max_row, max_col);
    one_merge(refs, spans, rows, cols, b, l, t, f, max_row, max_col);
    one_merge(refs, spans, rows, cols, t, l, b, f, max_row, max_col);
}

proof fn one_merge(
    refs: Seq<Seq<char>>,
    spans: Seq<Span>,
    rows: u32,
    cols: u32,
    r: nat,
    c: nat,
    r2: nat,
    c2: nat,
    max_row: u32,
    max_col: u32,
)
    requires
        merges_read(refs, max_row, max_col) matches Some(p) && p.spans == spans && p.max_row == rows
            && p.max_col == cols,
        r < u32::MAX - 1,
        c < u32::MAX - 1,
        r2 < u32::MAX - 1,
        c2 < u32::MAX - 1,
    ensures
        merges_read(refs.push(corners(r, c, r2, c2)), max_row, max_col) matches Some(q) && q.spans
            == spans.push(
            Span {
                row: (if r <= r2 {
                    r
                } else {
                    r2
                }) as u32,
                col: (if c <= c2 {
                    c
                } else {
                    c2
                }) as u32,
                row_count: (if r <= r2 {
                    r2 - r + 1
                } else {
                    r - r2 + 1
                }) as u32,
                col_count: (if c <= c2 {
                    c2 - c + 1
                } else {
                    c - c2 + 1
                }) as u32,
            },
        ),
{
    let more = refs.push(corners(r, c, r2, c2));
    assert(more.drop_last() =~= refs);
    assert(more.last() == corners(r, c, r2, c2));
    ends_read(r, c, r2, c2);
    addr_round_trip(r, c);
    addr_round_trip(r2, c2);
}

/// A description of several columns holds for each of them: they are read one by one, from the first to
/// the last.
pub proof fn columns_that_stand_together_are_read(
    st: ColsRead,
    attrs: Seq<char>,
    min: int,
    end: int,
    mid: int,
)
    requires
        min <= mid <= end,
    ensures
        col_range_read(st, attrs, min, end) == col_range_read(
            col_range_read(st, attrs, min, mid),
            attrs,
            mid,
            end,
        ),
        col_range_read(st, attrs, min, min) == st,
        col_range_read(st, attrs, min, min + 1) == col_read(st, attrs, min as u32),
    decreases end - mid,
{
    reveal_with_fuel(col_range_read, 2);
    if mid < end {
        columns_that_stand_together_are_read(st, attrs, min, end - 1, mid);
    }
}

} // verus!
