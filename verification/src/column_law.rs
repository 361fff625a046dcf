//! Columns and merged cells of spreadsheet files are read back as they were written.
use crate::address::{addr, addr_round_trip};
use crate::cell_law::{addr_is_plain, dec_is_plain, number_is_plain, plain, plain_is_bare};
use crate::decimal::{dec, parse_unsigned_dec};
use crate::find_law::{
    attr_found, attr_in_list, attr_item, attr_list, clear, clear_join, clear_without,
    find_char_move, find_char_past, head_apart, holds_refs, holds_short, is_name, key_of, list_push,
    list_without, name_apart, names_apart, ref_one, refs_join, refs_none, short_join, short_none,
    short_one, without,
};
use crate::numeral::is_number_text;
use crate::outline::{is_boundary, level};
use crate::row_law::{
    last_pair_valid, level_bound, number_if, one_if, outline_attrs_form, sizes_valid,
};
use crate::scan::attr_of;
use crate::snapshot::{SheetSnapshot, Span};
use crate::text::{find_char, opt};
use crate::xlsx::{
    col_hidden, col_list_xml, col_xml, last_pair, merge_list, merge_text, outline_attrs, right,
    span_fits, width_attr,
};
use crate::xlsx_read::{
    col_range_read, col_read, cols_read, max_of, merges_read, ref_ends, ColsRead, MergesRead,
};
use crate::xlsx_styles_read::attr_number;
use vstd::prelude::*;

verus! {

/// The attributes of a column behind its first number.
pub open spec fn col_list(
    k: nat,
    w: Option<Seq<char>>,
    n: nat,
    hidden: bool,
    boundary: bool,
) -> Seq<(Seq<char>, Option<Seq<char>>)> {
    Seq::empty().push(("max"@, Some(dec(k)))).push(("width"@, width_value(w))).push(
        ("customWidth"@, one_if(w is Some)),
    ).push(("outlineLevel"@, number_if(n))).push(
        ("hidden"@, one_if(hidden)),
    ).push(("collapsed"@, one_if(boundary)))
}

/// The attributes of a column.
pub open spec fn col_attrs(s: SheetSnapshot, c: u32) -> Seq<char> {
    key_of("min"@) + dec((c + 1) as nat) + "\""@ + attr_list(
        col_list(
            (c + 1) as nat,
            last_pair(s.col_widths@, c),
            level(s.col_outlines@, c as int, right(s)),
            col_hidden(s, c),
            is_boundary(s.col_outlines@, c as int, right(s)),
        ),
    )
}

proof fn col_names()
    ensures
        is_name("min"@),
        is_name("max"@),
        is_name("width"@),
        is_name("customWidth"@),
        is_name("outlineLevel"@),
        is_name("hidden"@),
        is_name("collapsed"@),
        "min"@.len() == 3,
        "max"@.len() == 3,
        "width"@.len() == 5,
        "customWidth"@.len() == 11,
        "outlineLevel"@.len() == 12,
        "hidden"@.len() == 6,
        "collapsed"@.len() == 9,
        "min"@[0] == 'm',
        "min"@[2] == 'n',
        "max"@[2] == 'x',
        "width"@[4] == 'h',
        "width"@[0] == 'w',
        "customWidth"@[6] == 'W',
        "customWidth"@[10] == 'h',
        "outlineLevel"@[11] == 'l',
        "hidden"@[5] == 'n',
        "collapsed"@[8] == 'd',
{
    reveal_strlit("min");
    reveal_strlit("max");
    reveal_strlit("width");
    reveal_strlit("customWidth");
    reveal_strlit("outlineLevel");
    reveal_strlit("hidden");
    reveal_strlit("collapsed");
}

/// What the width of a column is written as.
pub open spec fn width_value(w: Option<Seq<char>>) -> Option<Seq<char>> {
    match w {
        Some(t) => Some(t),
        None => Some("8.43"@),
    }
}

proof fn width_items(w: Option<Seq<char>>)
    ensures
        attr_item("width"@, width_value(w)) + attr_item("customWidth"@, one_if(w is Some))
            == width_attr(w),
{
    reveal_strlit(" width=\"");
    reveal_strlit(" width=\"8.43\"");
    reveal_strlit("8.43");
    reveal_strlit("\" customWidth=\"1\"");
    reveal_strlit("width");
    reveal_strlit("customWidth");
    reveal_strlit(" ");
    reveal_strlit("=\"");
    reveal_strlit("\"");
    reveal_strlit("1");
    assert(" "@ + key_of("width"@) == " width=\""@);
    let c = " "@ + key_of("customWidth"@) + "1"@ + "\""@;
    assert("\""@ + c == "\" customWidth=\"1\""@);
    assert(" width=\""@ + "8.43"@ + "\""@ == " width=\"8.43\""@);
    match w {
        Some(t) => {
            assert(" width=\""@ + t + "\""@ + c == " width=\""@ + t + ("\""@ + c));
        },
        None => {},
    }
}

proof fn min_max(d: Seq<char>)
    ensures
        key_of("min"@) + d + "\""@ + attr_item("max"@, Some(d)) == "min=\""@ + d + "\" max=\""@ + d
            + "\""@,
{
    reveal_strlit("min=\"");
    reveal_strlit("\" max=\"");
    reveal_strlit("min");
    reveal_strlit("max");
    reveal_strlit(" ");
    reveal_strlit("=\"");
    reveal_strlit("\"");
    assert(key_of("min"@) == "min=\""@);
    let m = " "@ + key_of("max"@);
    assert("\""@ + m == "\" max=\""@);
    assert("min=\""@ + d + "\""@ + (m + d + "\""@) == "min=\""@ + d + ("\""@ + m) + d + "\""@);
}

#[verifier::spinoff_prover]
#[verifier::rlimit(40)]
proof fn col_list_form(k: nat, w: Option<Seq<char>>, n: nat, hidden: bool, boundary: bool)
    ensures
        key_of("min"@) + dec(k) + "\""@ + attr_list(col_list(k, w, n, hidden, boundary)) == "min=\""@
            + dec(k) + "\" max=\""@ + dec(k) + "\""@ + width_attr(w) + (opt(
            n > 0,
            " outlineLevel=\""@ + dec(n) + "\""@,
        ) + opt(hidden, " hidden=\"1\""@) + opt(boundary, " collapsed=\"1\""@)),
{
    let a0 = ("max"@, Some(dec(k)));
    let a1 = ("width"@, width_value(w));
    let a2 = ("customWidth"@, one_if(w is Some));
    let a3 = ("outlineLevel"@, number_if(n));
    let a4 = ("hidden"@, one_if(hidden));
    let a5 = ("collapsed"@, one_if(boundary));
    let l0 = Seq::<(Seq<char>, Option<Seq<char>>)>::empty();
    list_push(l0, a0);
    list_push(l0.push(a0), a1);
    list_push(l0.push(a0).push(a1), a2);
    list_push(l0.push(a0).push(a1).push(a2), a3);
    list_push(l0.push(a0).push(a1).push(a2).push(a3), a4);
    list_push(l0.push(a0).push(a1).push(a2).push(a3).push(a4), a5);
    outline_attrs_form(n, hidden, boundary);
    width_items(w);
    min_max(dec(k));
    let i0 = attr_item("max"@, Some(dec(k)));
    let i1 = attr_item("width"@, width_value(w));
    let i2 = attr_item("customWidth"@, one_if(w is Some));
    let i3 = attr_item("outlineLevel"@, number_if(n));
    let i4 = attr_item("hidden"@, one_if(hidden));
    let i5 = attr_item("collapsed"@, one_if(boundary));
    let e = Seq::<char>::empty();
    assert(attr_list(col_list(k, w, n, hidden, boundary)) == e + i0 + i1 + i2 + i3 + i4 + i5);
    let head = key_of("min"@) + dec(k) + "\""@;
    assert(head + (e + i0 + i1 + i2 + i3 + i4 + i5) == (head + i0) + (i1 + i2) + (i3 + i4 + i5));
}

proof fn col_values(k: nat, w: Option<Seq<char>>, n: nat, hidden: bool, boundary: bool)
    requires
        w matches Some(t) ==> is_number_text(t),
    ensures
        ({
            let l = col_list(k, w, n, hidden, boundary);
            &&& l.len() == 6
            &&& l[0] == ("max"@, Some(dec(k)))
            &&& l[1] == ("width"@, width_value(w))
            &&& l[2] == ("customWidth"@, one_if(w is Some))
            &&& l[3] == ("outlineLevel"@, number_if(n))
            &&& l[4] == ("hidden"@, one_if(hidden))
            &&& l[5] == ("collapsed"@, one_if(boundary))
            &&& forall|j: int| 0 <= j < 6 ==> ((#[trigger] l[j]).1 matches Some(v) ==> plain(v))
        }),
{
    reveal_strlit("1");
    reveal_strlit("8.43");
    dec_is_plain(n);
    dec_is_plain(k);
    match w {
        Some(t) => {
            number_is_plain(t);
        },
        None => {},
    }
}

/// The attributes of a column are read as they were written.
proof fn col_attrs_back(k: nat, w: Option<Seq<char>>, n: nat, hidden: bool, boundary: bool)
    requires
        w matches Some(t) ==> is_number_text(t),
    ensures
        ({
            let attrs = key_of("min"@) + dec(k) + "\""@ + attr_list(
                col_list(k, w, n, hidden, boundary),
            );
            &&& attr_of(attrs, "min"@) == Some(dec(k))
            &&& attr_of(attrs, "max"@) == Some(dec(k))
            &&& attr_of(attrs, "width"@) == width_value(w)
            &&& attr_of(attrs, "customWidth"@) == one_if(w is Some)
            &&& attr_of(attrs, "outlineLevel"@) == number_if(n)
            &&& attr_of(attrs, "hidden"@) == one_if(hidden)
            &&& attr_of(attrs, "collapsed"@) == one_if(boundary)
            &&& attrs.len() > 0
            &&& attrs[0] == 'm'
            &&& without(attrs, '>')
            &&& without(attrs, '/')
            &&& without(attrs, '<')
        }),
{
    let l = col_list(k, w, n, hidden, boundary);
    let head = key_of("min"@) + dec(k) + "\""@;
    let attrs = head + attr_list(l);
    let e = Seq::<char>::empty();
    col_names();
    col_values(k, w, n, hidden, boundary);
    dec_is_plain(k);
    plain_is_bare(dec(k));
    reveal_strlit(" ");
    reveal_strlit("\"");
    reveal_strlit("=\"");
    assert forall|j: int| 0 <= j < 6 implies ((#[trigger] l[j]).1 matches Some(v) ==> without(v, '=')
        && without(v, '"') && without(v, '>') && without(v, '/') && without(v, '<')) by {
        match l[j].1 {
            Some(v) => {
                plain_is_bare(v);
            },
            None => {},
        }
    }
    name_apart("max"@);
    name_apart("width"@);
    name_apart("customWidth"@);
    name_apart("outlineLevel"@);
    name_apart("hidden"@);
    name_apart("collapsed"@);
    head_apart("min"@, dec(k), "max"@, 2);
    head_apart("min"@, dec(k), "width"@, 0);
    head_apart("min"@, dec(k), "customWidth"@, 0);
    head_apart("min"@, dec(k), "outlineLevel"@, 0);
    head_apart("min"@, dec(k), "hidden"@, 0);
    head_apart("min"@, dec(k), "collapsed"@, 0);
    names_apart("max"@, "width"@, 0);
    names_apart("max"@, "customWidth"@, 0);
    names_apart("width"@, "customWidth"@, 0);
    names_apart("outlineLevel"@, "customWidth"@, 10);
    names_apart("hidden"@, "customWidth"@, 0);
    names_apart("collapsed"@, "customWidth"@, 0);
    names_apart("max"@, "outlineLevel"@, 0);
    names_apart("width"@, "outlineLevel"@, 0);
    names_apart("customWidth"@, "outlineLevel"@, 11);
    names_apart("hidden"@, "outlineLevel"@, 0);
    names_apart("collapsed"@, "outlineLevel"@, 0);
    names_apart("max"@, "hidden"@, 0);
    names_apart("width"@, "hidden"@, 5);
    names_apart("customWidth"@, "hidden"@, 5);
    names_apart("outlineLevel"@, "hidden"@, 5);
    names_apart("collapsed"@, "hidden"@, 5);
    names_apart("max"@, "collapsed"@, 0);
    names_apart("width"@, "collapsed"@, 0);
    names_apart("customWidth"@, "collapsed"@, 8);
    names_apart("outlineLevel"@, "collapsed"@, 8);
    names_apart("hidden"@, "collapsed"@, 0);
    attr_in_list(head, l, 0);
    attr_in_list(head, l, 1);
    attr_in_list(head, l, 2);
    attr_in_list(head, l, 3);
    attr_in_list(head, l, 4);
    attr_in_list(head, l, 5);
    clear_without(e, key_of("min"@));
    attr_found(e, "min"@, dec(k), attr_list(l));
    assert(attrs == e + key_of("min"@) + dec(k) + "\""@ + attr_list(l));
    list_without(l, '>');
    list_without(l, '/');
    list_without(l, '<');
    assert(attrs[0] == key_of("min"@)[0]);
}

/// A column is a tag with attributes.
proof fn col_form(s: SheetSnapshot, c: u32)
    ensures
        col_xml(s, c) == "<col"@ + " "@ + col_attrs(s, c) + "/>"@,
{
    let w = last_pair(s.col_widths@, c);
    let n = level(s.col_outlines@, c as int, right(s));
    let hidden = col_hidden(s, c);
    let boundary = is_boundary(s.col_outlines@, c as int, right(s));
    let k = (c + 1) as nat;
    col_list_form(k, w, n, hidden, boundary);
    reveal_strlit("<col min=\"");
    reveal_strlit("<col");
    reveal_strlit(" ");
    reveal_strlit("min=\"");
    assert("<col"@ + " "@ + "min=\""@ == "<col min=\""@);
    let o = outline_attrs(s.col_outlines@, c as int, right(s), hidden);
    let attrs = "min=\""@ + dec(k) + "\" max=\""@ + dec(k) + "\""@ + width_attr(w) + o;
    assert(col_attrs(s, c) == attrs);
    assert("<col"@ + " "@ + attrs + "/>"@ == "<col min=\""@ + dec(k) + "\" max=\""@ + dec(k) + "\""@
        + width_attr(w) + o + "/>"@);
}

/// Column `c`, put behind what has been read.
pub open spec fn col_back(st: ColsRead, s: SheetSnapshot, c: u32) -> ColsRead {
    ColsRead {
        max_col: max_of(st.max_col, c),
        widths: match last_pair(s.col_widths@, c) {
            Some(t) => st.widths.push((c, t)),
            None => st.widths,
        },
        hidden: if col_hidden(s, c) {
            st.hidden.push(c)
        } else {
            st.hidden
        },
        levels: if level(s.col_outlines@, c as int, right(s)) > 0 {
            st.levels.push((c, level(s.col_outlines@, c as int, right(s)) as u32))
        } else {
            st.levels
        },
        collapsed: if is_boundary(s.col_outlines@, c as int, right(s)) {
            st.collapsed.push(c)
        } else {
            st.collapsed
        },
    }
}

/// Columns as they come back.
pub open spec fn cols_back(s: SheetSnapshot, max_col: u32, list: Seq<u32>) -> ColsRead
    decreases list.len(),
{
    if list.len() == 0 {
        ColsRead {
            max_col,
            widths: Seq::empty(),
            hidden: Seq::empty(),
            levels: Seq::empty(),
            collapsed: Seq::empty(),
        }
    } else {
        col_back(cols_back(s, max_col, list.drop_last()), s, list.last())
    }
}

/// The attributes of columns.
pub open spec fn col_tags(s: SheetSnapshot, list: Seq<u32>) -> Seq<Seq<char>> {
    Seq::new(list.len(), |i: int| col_attrs(s, list[i]))
}

proof fn one_col(st: ColsRead, s: SheetSnapshot, c: u32)
    requires
        c < u32::MAX,
        sizes_valid(s.col_widths@),
        s.col_outlines@.len() <= u32::MAX,
    ensures
        col_range_read(st, col_attrs(s, c), c as int, c + 1) == col_back(st, s, c),
        attr_number(col_attrs(s, c), "min"@, 0xffff_ffff) == Some((c + 1) as nat),
        attr_number(col_attrs(s, c), "max"@, 0xffff_ffff) == Some((c + 1) as nat),
        col_attrs(s, c).len() > 0,
        col_attrs(s, c)[0] == 'm',
        without(col_attrs(s, c), '>'),
        without(col_attrs(s, c), '<'),
        without(col_attrs(s, c), '/'),
{
    let w = last_pair(s.col_widths@, c);
    let n = level(s.col_outlines@, c as int, right(s));
    last_pair_valid(s.col_widths@, c);
    level_bound(s.col_outlines@, c as int, right(s));
    col_attrs_back(
        (c + 1) as nat,
        w,
        n,
        col_hidden(s, c),
        is_boundary(s.col_outlines@, c as int, right(s)),
    );
    parse_unsigned_dec((c + 1) as nat, 0xffff_ffff);
    parse_unsigned_dec(n, 0xffff_ffff);
    let attrs = col_attrs(s, c);
    assert(col_range_read(st, attrs, c as int, c as int) == st);
    assert(col_read(st, attrs, c) == col_back(st, s, c));
}

/// Columns are read as they were written.
pub proof fn cols_come_back(s: SheetSnapshot, max_col: u32, list: Seq<u32>)
    requires
        sizes_valid(s.col_widths@),
        s.col_outlines@.len() <= u32::MAX,
        forall|i: int| 0 <= i < list.len() ==> #[trigger] list[i] < u32::MAX,
    ensures
        holds_short(col_list_xml(s, list), "<col"@, col_tags(s, list)),
        cols_read(col_tags(s, list), max_col) == Some(cols_back(s, max_col, list)),
        forall|pat: Seq<char>|
            pat.len() > 0 && pat[0] == '<' && clear("<col "@, pat) ==> #[trigger] clear(
                col_list_xml(s, list),
                pat,
            ),
    decreases list.len(),
{
    reveal_strlit("<col");
    if list.len() == 0 {
        let e = Seq::<char>::empty();
        clear_without(e, "<col"@);
        short_none(e, "<col"@);
        assert(col_tags(s, list) == Seq::<Seq<char>>::empty());
        assert forall|pat: Seq<char>| pat.len() > 0 && pat[0] == '<' && clear("<col "@, pat) implies #[trigger] clear(
            col_list_xml(s, list),
            pat,
        ) by {
            clear_without(e, pat);
        }
    } else {
        let c = list.last();
        let q = list.drop_last();
        assert(c == list[list.len() - 1]);
        assert forall|i: int| 0 <= i < q.len() implies #[trigger] q[i] < u32::MAX by {
            assert(q[i] == list[i]);
        }
        cols_come_back(s, max_col, q);
        one_col(cols_back(s, max_col, q), s, c);
        col_form(s, c);
        short_one("<col"@, col_attrs(s, c));
        let before = col_tags(s, q);
        let one = seq![col_attrs(s, c)];
        short_join(col_list_xml(s, q), col_xml(s, c), "<col"@, before, one);
        let all = col_tags(s, list);
        assert(all == before + one);
        assert(all.drop_last() == before);
        assert(all.last() == one[0]);
        reveal_strlit(" ");
        reveal_strlit("<col ");
        reveal_strlit("/>");
        assert("<col"@ + " "@ == "<col "@);
        assert forall|pat: Seq<char>| pat.len() > 0 && pat[0] == '<' && clear("<col "@, pat) implies #[trigger] clear(
            col_list_xml(s, list),
            pat,
        ) by {
            assert(clear(col_list_xml(s, q), pat));
            clear_without(col_attrs(s, c), pat);
            clear_without("/>"@, pat);
            clear_join("<col "@, col_attrs(s, c), pat);
            clear_join("<col "@ + col_attrs(s, c), "/>"@, pat);
            clear_join(col_list_xml(s, q), col_xml(s, c), pat);
        }
    }
}

// ---- merged cells

/// Whether merged cells have addresses that can be counted.
pub open spec fn span_valid(s: Span) -> bool {
    span_fits(s) && s.row < u32::MAX && s.col < u32::MAX
}

pub open spec fn spans_valid(spans: Seq<Span>) -> bool {
    forall|k: int| 0 <= k < spans.len() ==> span_valid(#[trigger] spans[k])
}

/// Merged cells as they come back. Those of no rows are written from a row to the one above it,
/// and so come back as these two; those of no columns likewise.
pub open spec fn span_back(s: Span) -> Span {
    Span {
        row: if s.row_count == 0 {
            (s.row - 1) as u32
        } else {
            s.row
        },
        col: if s.col_count == 0 {
            (s.col - 1) as u32
        } else {
            s.col
        },
        row_count: if s.row_count == 0 {
            2
        } else {
            s.row_count
        },
        col_count: if s.col_count == 0 {
            2
        } else {
            s.col_count
        },
    }
}

/// The merged cells of a sheet as they come back.
pub open spec fn spans_back(spans: Seq<Span>) -> Seq<Span> {
    Seq::new(spans.len(), |i: int| span_back(spans[i]))
}

/// Merged cells that hold a cell come back as they were.
pub proof fn merges_come_back(spans: Seq<Span>)
    requires
        forall|k: int|
            0 <= k < spans.len() ==> (#[trigger] spans[k]).row_count > 0 && spans[k].col_count > 0,
    ensures
        spans_back(spans) == spans,
{
    assert forall|k: int| 0 <= k < spans.len() implies span_back(#[trigger] spans[k]) == spans[k] by {}
    assert(spans_back(spans) =~= spans);
}

/// The reference of merged cells.
pub open spec fn span_ref(s: Span) -> Seq<char> {
    addr(s.row as nat, s.col as nat) + ":"@ + addr(
        (s.row + s.row_count - 1) as nat,
        (s.col + s.col_count - 1) as nat,
    )
}

/// The references of merged cells.
pub open spec fn span_refs(spans: Seq<Span>) -> Seq<Seq<char>> {
    Seq::new(spans.len(), |i: int| span_ref(spans[i]))
}

/// The ends of a reference are read as they were written.
pub proof fn ends_of(a: Seq<char>, b: Seq<char>)
    requires
        without(a, ':'),
        without(b, ':'),
    ensures
        ref_ends(a + ":"@ + b) == (a, b),
{
    reveal_strlit(":");
    let s = a + ":"@ + b;
    let tail = ":"@ + b;
    assert(s == a + tail);
    find_char_past(a, tail, ':', 0);
    let head = a + ":"@;
    assert(s == head + b);
    find_char_move(head, b, ':', 0);
    no_char(b, ':', 0);
    assert(s.take(a.len() as int) == a);
    assert(s.skip(a.len() as int + 1) == b);
}

pub proof fn no_char(s: Seq<char>, c: char, i: int)
    requires
        0 <= i,
        without(s, c),
    ensures
        find_char(s, c, i) is None,
    decreases s.len() - i,
{
    if i < s.len() {
        no_char(s, c, i + 1);
    }
}

/// The highest row that spans reach.
pub open spec fn spans_row(spans: Seq<Span>, max_row: u32) -> u32
    decreases spans.len(),
{
    if spans.len() == 0 {
        max_row
    } else {
        max_of(
            max_of(spans_row(spans.drop_last(), max_row), spans.last().row),
            (spans.last().row + spans.last().row_count - 1) as u32,
        )
    }
}

/// The highest column that spans reach.
pub open spec fn spans_col(spans: Seq<Span>, max_col: u32) -> u32
    decreases spans.len(),
{
    if spans.len() == 0 {
        max_col
    } else {
        max_of(
            max_of(spans_col(spans.drop_last(), max_col), spans.last().col),
            (spans.last().col + spans.last().col_count - 1) as u32,
        )
    }
}

/// Merged cells are a tag with a reference.
proof fn span_one(x: Span)
    requires
        span_valid(x),
    ensures
        holds_refs(merge_text(x), "<mergeCell"@, "ref=\""@, seq![span_ref(x)]),
        merge_text(x) == "<mergeCell "@ + ("ref=\""@ + span_ref(x) + "\"/>"@),
        without("ref=\""@ + span_ref(x) + "\"/>"@, '<'),
        ref_ends(span_ref(x)) == (
            addr(x.row as nat, x.col as nat),
            addr((x.row + x.row_count - 1) as nat, (x.col + x.col_count - 1) as nat),
        ),
{
    let a = addr(x.row as nat, x.col as nat);
    let row = (x.row + x.row_count - 1) as nat;
    let col = (x.col + x.col_count - 1) as nat;
    let b = addr(row, col);
    addr_is_plain(x.row as nat, x.col as nat);
    addr_is_plain(row, col);
    plain_is_bare(a);
    plain_is_bare(b);
    ends_of(a, b);
    let v = span_ref(x);
    reveal_strlit("<mergeCell");
    reveal_strlit("ref=\"");
    reveal_strlit(":");
    reveal_strlit("\"/>");
    reveal_strlit(" ");
    reveal_strlit("<mergeCell ref=\"");
    reveal_strlit("<mergeCell ");
    clear_without("\"/>"@, "<mergeCell"@);
    ref_one("<mergeCell"@, "ref=\""@, v);
    assert("<mergeCell"@ + " "@ == "<mergeCell "@);
    assert("<mergeCell "@ + "ref=\""@ == "<mergeCell ref=\""@);
    assert(merge_text(x) == "<mergeCell ref=\""@ + v + "\"/>"@);
    assert("<mergeCell ref=\""@ + v + "\"/>"@ == "<mergeCell "@ + ("ref=\""@ + v + "\"/>"@));
}

/// The patterns that do not start in merged cells.
proof fn spans_clear(spans: Seq<Span>, pat: Seq<char>)
    requires
        spans_valid(spans),
        pat.len() > 0,
        pat[0] == '<',
        clear("<mergeCell "@, pat),
    ensures
        clear(merge_list(spans), pat),
    decreases spans.len(),
{
    if spans.len() == 0 {
        clear_without(Seq::<char>::empty(), pat);
    } else {
        let x = spans.last();
        let q = spans.drop_last();
        assert(x == spans[spans.len() - 1]);
        assert forall|k: int| 0 <= k < q.len() implies span_valid(#[trigger] q[k]) by {
            assert(q[k] == spans[k]);
        }
        spans_clear(q, pat);
        span_one(x);
        let tail = "ref=\""@ + span_ref(x) + "\"/>"@;
        clear_without(tail, pat);
        clear_join("<mergeCell "@, tail, pat);
        clear_join(merge_list(q), merge_text(x), pat);
    }
}

/// Merged cells are read as they were written.
pub proof fn spans_come_back(spans: Seq<Span>, max_row: u32, max_col: u32)
    requires
        spans_valid(spans),
    ensures
        holds_refs(merge_list(spans), "<mergeCell"@, "ref=\""@, span_refs(spans)),
        merges_read(span_refs(spans), max_row, max_col) == Some(
            MergesRead {
                spans: spans_back(spans),
                max_row: spans_row(spans, max_row),
                max_col: spans_col(spans, max_col),
            },
        ),
        forall|pat: Seq<char>|
            pat.len() > 0 && pat[0] == '<' && clear("<mergeCell "@, pat) ==> #[trigger] clear(
                merge_list(spans),
                pat,
            ),
    decreases spans.len(),
{
    assert forall|pat: Seq<char>|
        pat.len() > 0 && pat[0] == '<' && clear("<mergeCell "@, pat) implies #[trigger] clear(
        merge_list(spans),
        pat,
    ) by {
        spans_clear(spans, pat);
    }
    if spans.len() == 0 {
        let e = Seq::<char>::empty();
        reveal_strlit("<mergeCell");
        clear_without(e, "<mergeCell"@);
        refs_none(e, "<mergeCell"@, "ref=\""@);
        assert(span_refs(spans) == Seq::<Seq<char>>::empty());
        assert(spans_back(spans) == Seq::<Span>::empty());
    } else {
        let x = spans.last();
        let q = spans.drop_last();
        assert(x == spans[spans.len() - 1]);
        assert forall|k: int| 0 <= k < q.len() implies span_valid(#[trigger] q[k]) by {
            assert(q[k] == spans[k]);
        }
        spans_come_back(q, max_row, max_col);
        span_one(x);
        addr_round_trip(x.row as nat, x.col as nat);
        addr_round_trip((x.row + x.row_count - 1) as nat, (x.col + x.col_count - 1) as nat);
        let v = span_ref(x);
        let before = span_refs(q);
        let one = seq![v];
        refs_join(merge_list(q), merge_text(x), "<mergeCell"@, "ref=\""@, before, one);
        let all = span_refs(spans);
        assert(all == before + one);
        assert(all.drop_last() == before);
        assert(all.last() == v);
        assert(spans_back(q).push(span_back(x)) == spans_back(spans));
    }
}

} // verus!
