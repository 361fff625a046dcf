//! Rows of spreadsheet files are read back as they were written.
use crate::cell_law::{
    attrs_of, cell_attrs_read, cell_back, cell_form, cell_is_record, cell_records, cell_valid,
    dec_is_plain, escaped_is_bare, formula_text, inner_form, lit_clear, number_is_plain,
    piece_clear, plain, plain_is_bare, raw_is_bare, raw_value, type_of_cell, value_text,
};
use crate::decimal::{dec, parse_unsigned_dec};
use crate::find_law::{
    attr_found, attr_in_list, attr_item, attr_list, clear, clear_join, clear_without, head_apart,
    holds_records, is_name, key_of, list_push, list_without, name_apart, names_apart, record_full,
    records_join, records_none, records_whole, without,
};
use crate::numeral::is_number_text;
use crate::outline::{is_boundary, level};
use crate::scan::attr_of;
use crate::snapshot::{CellSnapshot, NamedStyle, NumPair, OutlineGroupSnapshot, SheetSnapshot};
use crate::style::StyleView;
use crate::text::{opt, place, put};
use crate::xlsx::{
    below, cell_xml, height_attr, last_pair, outline_attrs, resolved, row_cells, row_hidden,
    row_list_xml, row_xml, shared_of, write_cell, write_cells, Shared,
};
use crate::xlsx_read::{
    cells_read, holds, max_of, no_rows_read, row_attrs_read, rows_read, CellView, RowsRead,
};
use crate::xlsx_style::{interned, put_keeps};
use crate::xlsx_styles_read::attr_number;
use crate::xml::{esc_text, Escape};
use vstd::prelude::*;

verus! {

// ---- attributes of rows

pub open spec fn one_if(b: bool) -> Option<Seq<char>> {
    if b {
        Some("1"@)
    } else {
        None
    }
}

pub open spec fn number_if(n: nat) -> Option<Seq<char>> {
    if n > 0 {
        Some(dec(n))
    } else {
        None
    }
}

/// The attributes of a row behind its number.
pub open spec fn row_list(h: Option<Seq<char>>, n: nat, hidden: bool, boundary: bool) -> Seq<
    (Seq<char>, Option<Seq<char>>),
> {
    Seq::empty().push(("ht"@, h)).push(("customHeight"@, one_if(h is Some))).push(
        ("outlineLevel"@, number_if(n)),
    ).push(("hidden"@, one_if(hidden))).push(("collapsed"@, one_if(boundary)))
}

/// The attributes of a row.
pub open spec fn row_attrs(s: SheetSnapshot, r: u32) -> Seq<char> {
    key_of("r"@) + dec((r + 1) as nat) + "\""@ + attr_list(
        row_list(
            last_pair(s.row_heights@, r),
            level(s.row_outlines@, r as int, below(s)),
            row_hidden(s, r),
            is_boundary(s.row_outlines@, r as int, below(s)),
        ),
    )
}

proof fn row_names()
    ensures
        is_name("r"@),
        is_name("ht"@),
        is_name("customHeight"@),
        is_name("outlineLevel"@),
        is_name("hidden"@),
        is_name("collapsed"@),
        "r"@.len() == 1,
        "ht"@.len() == 2,
        "customHeight"@.len() == 12,
        "outlineLevel"@.len() == 12,
        "hidden"@.len() == 6,
        "collapsed"@.len() == 9,
        "r"@[0] == 'r',
        "ht"@[1] == 't',
        "ht"@[0] == 'h',
        "customHeight"@[11] == 't',
        "outlineLevel"@[11] == 'l',
        "hidden"@[5] == 'n',
        "collapsed"@[8] == 'd',
{
    reveal_strlit("r");
    reveal_strlit("ht");
    reveal_strlit("customHeight");
    reveal_strlit("outlineLevel");
    reveal_strlit("hidden");
    reveal_strlit("collapsed");
}

/// The outline attributes that rows and columns have in common.
pub proof fn outline_attrs_form(n: nat, hidden: bool, boundary: bool)
    ensures
        attr_item("outlineLevel"@, number_if(n)) == opt(n > 0, " outlineLevel=\""@ + dec(n) + "\""@),
        attr_item("hidden"@, one_if(hidden)) == opt(hidden, " hidden=\"1\""@),
        attr_item("collapsed"@, one_if(boundary)) == opt(boundary, " collapsed=\"1\""@),
{
    reveal_strlit(" outlineLevel=\"");
    reveal_strlit(" hidden=\"1\"");
    reveal_strlit(" collapsed=\"1\"");
    reveal_strlit("outlineLevel");
    reveal_strlit("hidden");
    reveal_strlit("collapsed");
    reveal_strlit(" ");
    reveal_strlit("=\"");
    reveal_strlit("\"");
    reveal_strlit("1");
    assert(" "@ + key_of("outlineLevel"@) == " outlineLevel=\""@);
    assert(" "@ + key_of("hidden"@) + "1"@ + "\""@ == " hidden=\"1\""@);
    assert(" "@ + key_of("collapsed"@) + "1"@ + "\""@ == " collapsed=\"1\""@);
}

proof fn row_list_form(h: Option<Seq<char>>, n: nat, hidden: bool, boundary: bool)
    ensures
        attr_list(row_list(h, n, hidden, boundary)) == height_attr(h) + (opt(
            n > 0,
            " outlineLevel=\""@ + dec(n) + "\""@,
        ) + opt(hidden, " hidden=\"1\""@) + opt(boundary, " collapsed=\"1\""@)),
{
    let l0 = Seq::<(Seq<char>, Option<Seq<char>>)>::empty();
    let l1 = l0.push(("ht"@, h));
    let l2 = l1.push(("customHeight"@, one_if(h is Some)));
    let l3 = l2.push(("outlineLevel"@, number_if(n)));
    let l4 = l3.push(("hidden"@, one_if(hidden)));
    list_push(l0, ("ht"@, h));
    list_push(l1, ("customHeight"@, one_if(h is Some)));
    list_push(l2, ("outlineLevel"@, number_if(n)));
    list_push(l3, ("hidden"@, one_if(hidden)));
    list_push(l4, ("collapsed"@, one_if(boundary)));
    outline_attrs_form(n, hidden, boundary);
    reveal_strlit(" ht=\"");
    reveal_strlit("\" customHeight=\"1\"");
    reveal_strlit("ht");
    reveal_strlit("customHeight");
    reveal_strlit(" ");
    reveal_strlit("=\"");
    reveal_strlit("\"");
    reveal_strlit("1");
    assert(" "@ + key_of("ht"@) == " ht=\""@);
    assert("\""@ + (" "@ + key_of("customHeight"@) + "1"@ + "\""@) == "\" customHeight=\"1\""@);
    match h {
        Some(t) => {
            assert(attr_list(l2) == " ht=\""@ + t + "\" customHeight=\"1\""@);
        },
        None => {
            assert(attr_list(l2) == Seq::<char>::empty());
        },
    }
}

proof fn one_is_plain()
    ensures
        plain("1"@),
        "1"@.len() == 1,
{
    reveal_strlit("1");
}

proof fn row_values(h: Option<Seq<char>>, n: nat, hidden: bool, boundary: bool)
    requires
        h matches Some(t) ==> is_number_text(t),
    ensures
        ({
            let l = row_list(h, n, hidden, boundary);
            &&& l.len() == 5
            &&& l[0] == ("ht"@, h)
            &&& l[1] == ("customHeight"@, one_if(h is Some))
            &&& l[2] == ("outlineLevel"@, number_if(n))
            &&& l[3] == ("hidden"@, one_if(hidden))
            &&& l[4] == ("collapsed"@, one_if(boundary))
            &&& forall|j: int| 0 <= j < 5 ==> ((#[trigger] l[j]).1 matches Some(v) ==> plain(v))
        }),
{
    one_is_plain();
    dec_is_plain(n);
    match h {
        Some(t) => {
            number_is_plain(t);
        },
        None => {},
    }
}

/// The attributes of a row are read as they were written.
proof fn row_attrs_back(k: nat, h: Option<Seq<char>>, n: nat, hidden: bool, boundary: bool)
    requires
        h matches Some(t) ==> is_number_text(t),
    ensures
        ({
            let attrs = key_of("r"@) + dec(k) + "\""@ + attr_list(row_list(h, n, hidden, boundary));
            &&& attr_of(attrs, "r"@) == Some(dec(k))
            &&& attr_of(attrs, "ht"@) == h
            &&& attr_of(attrs, "customHeight"@) == one_if(h is Some)
            &&& attr_of(attrs, "outlineLevel"@) == number_if(n)
            &&& attr_of(attrs, "hidden"@) == one_if(hidden)
            &&& attr_of(attrs, "collapsed"@) == one_if(boundary)
            &&& attrs.len() > 0
            &&& attrs[0] == 'r'
            &&& without(attrs, '>')
            &&& without(attrs, '/')
            &&& without(attrs, '<')
        }),
{
    let l = row_list(h, n, hidden, boundary);
    let head = key_of("r"@) + dec(k) + "\""@;
    let attrs = head + attr_list(l);
    let e = Seq::<char>::empty();
    row_names();
    row_values(h, n, hidden, boundary);
    dec_is_plain(k);
    plain_is_bare(dec(k));
    reveal_strlit(" ");
    reveal_strlit("\"");
    reveal_strlit("=\"");
    assert forall|j: int| 0 <= j < 5 implies ((#[trigger] l[j]).1 matches Some(v) ==> without(v, '=')
        && without(v, '"') && without(v, '>') && without(v, '/') && without(v, '<')) by {
        match l[j].1 {
            Some(v) => {
                plain_is_bare(v);
            },
            None => {},
        }
    }
    name_apart("ht"@);
    name_apart("customHeight"@);
    name_apart("outlineLevel"@);
    name_apart("hidden"@);
    name_apart("collapsed"@);
    head_apart("r"@, dec(k), "ht"@, 1);
    head_apart("r"@, dec(k), "customHeight"@, 0);
    head_apart("r"@, dec(k), "outlineLevel"@, 0);
    head_apart("r"@, dec(k), "hidden"@, 0);
    head_apart("r"@, dec(k), "collapsed"@, 0);
    names_apart("outlineLevel"@, "ht"@, 1);
    names_apart("hidden"@, "ht"@, 1);
    names_apart("collapsed"@, "ht"@, 1);
    names_apart("ht"@, "customHeight"@, 0);
    names_apart("outlineLevel"@, "customHeight"@, 11);
    names_apart("hidden"@, "customHeight"@, 0);
    names_apart("collapsed"@, "customHeight"@, 0);
    names_apart("ht"@, "outlineLevel"@, 0);
    names_apart("customHeight"@, "outlineLevel"@, 11);
    names_apart("hidden"@, "outlineLevel"@, 0);
    names_apart("collapsed"@, "outlineLevel"@, 0);
    names_apart("ht"@, "hidden"@, 0);
    names_apart("customHeight"@, "hidden"@, 5);
    names_apart("outlineLevel"@, "hidden"@, 5);
    names_apart("collapsed"@, "hidden"@, 5);
    names_apart("ht"@, "collapsed"@, 0);
    names_apart("customHeight"@, "collapsed"@, 8);
    names_apart("outlineLevel"@, "collapsed"@, 8);
    names_apart("hidden"@, "collapsed"@, 0);
    attr_in_list(head, l, 0);
    attr_in_list(head, l, 1);
    attr_in_list(head, l, 2);
    attr_in_list(head, l, 3);
    attr_in_list(head, l, 4);
    clear_without(e, key_of("r"@));
    attr_found(e, "r"@, dec(k), attr_list(l));
    assert(attrs == e + key_of("r"@) + dec(k) + "\""@ + attr_list(l));
    list_without(l, '>');
    list_without(l, '/');
    list_without(l, '<');
    assert(attrs[0] == key_of("r"@)[0]);
}

/// A row is an element with attributes.
proof fn row_form(s: SheetSnapshot, cells: Seq<CellSnapshot>, xs: Seq<Seq<char>>, r: u32)
    ensures
        row_xml(s, cells, xs, r) == "<row"@ + " "@ + row_attrs(s, r) + ">"@ + row_cells(
            cells,
            xs,
            r,
            cells.len() as int,
        ) + "</row>"@,
{
    let h = last_pair(s.row_heights@, r);
    let n = level(s.row_outlines@, r as int, below(s));
    let hidden = row_hidden(s, r);
    let boundary = is_boundary(s.row_outlines@, r as int, below(s));
    row_list_form(h, n, hidden, boundary);
    reveal_strlit("<row r=\"");
    reveal_strlit("<row");
    reveal_strlit(" ");
    reveal_strlit("r");
    reveal_strlit("=\"");
    assert("<row"@ + " "@ + key_of("r"@) == "<row r=\""@);
    let tail = height_attr(h) + outline_attrs(s.row_outlines@, r as int, below(s), hidden);
    assert(row_attrs(s, r) == key_of("r"@) + dec((r + 1) as nat) + "\""@ + tail);
    let inner = row_cells(cells, xs, r, cells.len() as int);
    let lhs = row_xml(s, cells, xs, r);
    assert(lhs == "<row r=\""@ + dec((r + 1) as nat) + "\""@ + tail + ">"@ + inner + "</row>"@);
}

// ---- cells, one behind the other

/// What is shared when the cell at `i` is written.
pub open spec fn shared_at(cells: Seq<CellSnapshot>, styles: Seq<NamedStyle>, sh: Shared, i: int) -> Shared {
    write_cells(cells.take(i), styles, sh).1
}

/// The number of the cell format of the cell at `i`.
pub open spec fn format_at(cells: Seq<CellSnapshot>, styles: Seq<NamedStyle>, sh: Shared, i: int) -> nat {
    interned(shared_at(cells, styles, sh, i).tables, resolved(cells[i].s, styles)).1
}

/// The number of the text of the cell at `i` among the shared strings.
pub open spec fn text_at(cells: Seq<CellSnapshot>, styles: Seq<NamedStyle>, sh: Shared, i: int) -> nat {
    match shared_of(cells[i]) {
        Some(t) => place(shared_at(cells, styles, sh, i).texts, t),
        None => 0,
    }
}

/// Whether what is shared can be counted.
pub open spec fn countable(sh: Shared) -> bool {
    sh.texts.len() <= usize::MAX && sh.tables.keys.len() < usize::MAX && sh.tables.xfs.len()
        < usize::MAX
}

/// Whether texts are the first of others.
pub open spec fn leads(a: Seq<Seq<char>>, b: Seq<Seq<char>>) -> bool {
    a.len() <= b.len() && forall|i: int| 0 <= i < a.len() ==> #[trigger] a[i] == b[i]
}

/// What is shared only grows.
pub open spec fn grows(a: Shared, b: Shared) -> bool {
    leads(a.texts, b.texts) && a.tables.keys.len() <= b.tables.keys.len() && a.tables.xfs.len()
        <= b.tables.xfs.len()
}

proof fn cell_grows(cell: CellSnapshot, styles: Seq<NamedStyle>, sh: Shared)
    ensures
        grows(sh, write_cell(cell, styles, sh).1),
{
    match shared_of(cell) {
        Some(t) => {
            put_keeps(sh.texts, t);
        },
        None => {},
    }
}

pub proof fn cells_grow(cells: Seq<CellSnapshot>, styles: Seq<NamedStyle>, sh: Shared)
    ensures
        grows(sh, write_cells(cells, styles, sh).1),
        write_cells(cells, styles, sh).0.len() == cells.len(),
    decreases cells.len(),
{
    if cells.len() > 0 {
        cells_grow(cells.drop_last(), styles, sh);
        let p = write_cells(cells.drop_last(), styles, sh);
        cell_grows(cells.last(), styles, p.1);
    }
}

/// What is written of the cell at `i`.
proof fn cell_at(cells: Seq<CellSnapshot>, styles: Seq<NamedStyle>, sh: Shared, i: int)
    requires
        0 <= i < cells.len(),
    ensures
        write_cells(cells, styles, sh).0[i] == cell_xml(
            cells[i],
            format_at(cells, styles, sh, i),
            text_at(cells, styles, sh, i),
        ),
        grows(shared_at(cells, styles, sh, i + 1), write_cells(cells, styles, sh).1),
    decreases cells.len(),
{
    let p = cells.drop_last();
    cells_grow(p, styles, sh);
    let q = write_cells(p, styles, sh);
    cell_grows(cells.last(), styles, q.1);
    if i < cells.len() - 1 {
        cell_at(p, styles, sh, i);
        assert(p.take(i) == cells.take(i));
        assert(p.take(i + 1) == cells.take(i + 1));
        assert(write_cells(cells, styles, sh).0[i] == q.0[i]);
    } else {
        assert(cells.take(i) == p);
        assert(cells.take(i + 1) == cells);
    }
}

proof fn numbers_at(cells: Seq<CellSnapshot>, styles: Seq<NamedStyle>, sh: Shared, i: int, sst: Seq<Seq<char>>)
    requires
        0 <= i < cells.len(),
        countable(write_cells(cells, styles, sh).1),
        leads(write_cells(cells, styles, sh).1.texts, sst),
    ensures
        format_at(cells, styles, sh, i) <= usize::MAX,
        text_at(cells, styles, sh, i) <= usize::MAX,
        shared_of(cells[i]) matches Some(t) ==> text_at(cells, styles, sh, i) < sst.len()
            && sst[text_at(cells, styles, sh, i) as int] == t,
{
    cell_at(cells, styles, sh, i);
    let a = shared_at(cells, styles, sh, i);
    let b = shared_at(cells, styles, sh, i + 1);
    let end = write_cells(cells, styles, sh).1;
    assert(cells.take(i + 1).drop_last() == cells.take(i));
    assert(cells.take(i + 1).last() == cells[i]);
    assert(b == write_cell(cells[i], styles, a).1);
    cell_grows(cells[i], styles, a);
    match shared_of(cells[i]) {
        Some(t) => {
            put_keeps(a.texts, t);
            let k = place(a.texts, t);
            assert(b.texts[k as int] == t);
            assert(end.texts[k as int] == b.texts[k as int]);
        },
        None => {},
    }
}

/// The cell at `i` as it comes back.
pub open spec fn back_at(
    cells: Seq<CellSnapshot>,
    styles: Seq<NamedStyle>,
    sh: Shared,
    xf: Seq<StyleView>,
    i: int,
) -> CellView {
    cell_back(cells[i], format_at(cells, styles, sh, i), xf)
}

/// The elements that the cell at `i` is written as.
pub open spec fn records_at(cells: Seq<CellSnapshot>, styles: Seq<NamedStyle>, sh: Shared, i: int) -> Seq<
    (Seq<char>, Seq<char>),
> {
    cell_records(cells[i], format_at(cells, styles, sh, i), text_at(cells, styles, sh, i))
}

/// Whether the cell at `i` is written.
pub open spec fn written(cells: Seq<CellSnapshot>, styles: Seq<NamedStyle>, sh: Shared, i: int) -> bool {
    records_at(cells, styles, sh, i).len() > 0
}

/// What is read of the cell at `i`, put behind what has been read.
pub open spec fn cell_added(
    st: RowsRead,
    cells: Seq<CellSnapshot>,
    styles: Seq<NamedStyle>,
    sh: Shared,
    xf: Seq<StyleView>,
    i: int,
) -> RowsRead {
    let c = back_at(cells, styles, sh, xf, i);
    if written(cells, styles, sh, i) {
        RowsRead {
            cells: if holds(c) {
                st.cells.push(c)
            } else {
                st.cells
            },
            max_col: max_of(st.max_col, c.c),
            ..st
        }
    } else {
        st
    }
}

/// What is read of those of the first `n` cells that stand in row `r`.
pub open spec fn row_added(
    st: RowsRead,
    cells: Seq<CellSnapshot>,
    styles: Seq<NamedStyle>,
    sh: Shared,
    xf: Seq<StyleView>,
    r: u32,
    n: int,
) -> RowsRead
    decreases n,
{
    if n <= 0 {
        st
    } else {
        let p = row_added(st, cells, styles, sh, xf, r, n - 1);
        if cells[n - 1].r == r {
            cell_added(p, cells, styles, sh, xf, n - 1)
        } else {
            p
        }
    }
}

/// The elements of those of the first `n` cells that stand in row `r`.
pub open spec fn row_records(
    cells: Seq<CellSnapshot>,
    styles: Seq<NamedStyle>,
    sh: Shared,
    r: u32,
    n: int,
) -> Seq<(Seq<char>, Seq<char>)>
    decreases n,
{
    if n <= 0 {
        Seq::empty()
    } else {
        let p = row_records(cells, styles, sh, r, n - 1);
        if cells[n - 1].r == r {
            p + records_at(cells, styles, sh, n - 1)
        } else {
            p
        }
    }
}

/// Whether the numbers of cells are numbers, and their rows have addresses.
pub open spec fn cells_valid(cells: Seq<CellSnapshot>) -> bool {
    forall|i: int| 0 <= i < cells.len() ==> cell_valid(#[trigger] cells[i])
}

/// The cells of a row are read as they were written.
proof fn row_cells_back(
    st: RowsRead,
    cells: Seq<CellSnapshot>,
    styles: Seq<NamedStyle>,
    sh: Shared,
    sst: Seq<Seq<char>>,
    xf: Seq<StyleView>,
    r: u32,
    n: int,
)
    requires
        0 <= n <= cells.len(),
        cells_valid(cells),
        countable(write_cells(cells, styles, sh).1),
        leads(write_cells(cells, styles, sh).1.texts, sst),
    ensures
        holds_records(
            row_cells(cells, write_cells(cells, styles, sh).0, r, n),
            "<c"@,
            "</c>"@,
            row_records(cells, styles, sh, r, n),
        ),
        cells_read(st, row_records(cells, styles, sh, r, n), sst, xf) == row_added(
            st,
            cells,
            styles,
            sh,
            xf,
            r,
            n,
        ),
    decreases n,
{
    let xs = write_cells(cells, styles, sh).0;
    if n == 0 {
        reveal_strlit("<c");
        clear_without(Seq::<char>::empty(), "<c"@);
        records_none(Seq::<char>::empty(), "<c"@, "</c>"@);
    } else {
        row_cells_back(st, cells, styles, sh, sst, xf, r, n - 1);
        if cells[n - 1].r == r {
            let s = format_at(cells, styles, sh, n - 1);
            let si = text_at(cells, styles, sh, n - 1);
            cell_at(cells, styles, sh, n - 1);
            numbers_at(cells, styles, sh, n - 1, sst);
            cell_is_record(cells[n - 1], s, si, sst, xf);
            let p = row_records(cells, styles, sh, r, n - 1);
            let q = records_at(cells, styles, sh, n - 1);
            records_join(row_cells(cells, xs, r, n - 1), xs[n - 1], "<c"@, "</c>"@, p, q);
            if q.len() > 0 {
                assert((p + q).drop_last() == p);
                assert((p + q).last() == q[0]);
            } else {
                assert(p + q == p);
            }
        }
    }
}

// ---- where other tags do not start

/// Whether a pattern starts in no tag of a cell.
pub open spec fn foreign(pat: Seq<char>) -> bool {
    &&& pat.len() > 0
    &&& pat[0] == '<'
    &&& clear("<c "@, pat)
    &&& clear("</c>"@, pat)
    &&& clear("<f>"@, pat)
    &&& clear("</f>"@, pat)
    &&& clear("<v>"@, pat)
    &&& clear("</v>"@, pat)
}

/// Whether a pattern starts in no tag of a row.
pub open spec fn strange(pat: Seq<char>) -> bool {
    &&& foreign(pat)
    &&& clear("<row "@, pat)
    &&& clear("</row>"@, pat)
}

/// A text that differs from a tag of a cell in the characters 1 to 3.
proof fn foreign_if(pat: Seq<char>)
    requires
        pat.len() > 3,
        pat[0] == '<',
        pat[1] != 'c' || pat[2] != ' ',
        pat[1] != '/' || (pat[2] != 'c' && pat[2] != 'f' && pat[2] != 'v'),
        pat[1] != 'f',
        pat[1] != 'v',
    ensures
        foreign(pat),
{
    reveal_strlit("<c ");
    reveal_strlit("</c>");
    reveal_strlit("<f>");
    reveal_strlit("</f>");
    reveal_strlit("<v>");
    reveal_strlit("</v>");
    let d: int = if pat[1] == 'c' {
        2
    } else {
        1
    };
    let e: int = if pat[1] == '/' {
        2
    } else {
        1
    };
    lit_clear("<c "@, pat, d);
    lit_clear("</c>"@, pat, e);
    lit_clear("<f>"@, pat, 1);
    lit_clear("</f>"@, pat, e);
    lit_clear("<v>"@, pat, 1);
    lit_clear("</v>"@, pat, e);
}

/// A text that differs from the tags of rows and cells.
pub proof fn strange_if(pat: Seq<char>)
    requires
        pat.len() > 3,
        pat[0] == '<',
        pat[1] != 'c' || pat[2] != ' ',
        pat[1] != '/' || (pat[2] != 'c' && pat[2] != 'f' && pat[2] != 'v' && pat[2] != 'r'),
        pat[1] != 'f',
        pat[1] != 'v',
        pat[1] != 'r',
    ensures
        strange(pat),
{
    foreign_if(pat);
    reveal_strlit("<row ");
    reveal_strlit("</row>");
    let e: int = if pat[1] == '/' {
        2
    } else {
        1
    };
    lit_clear("<row "@, pat, 1);
    lit_clear("</row>"@, pat, e);
}

proof fn cell_clear(cell: CellSnapshot, s: nat, si: nat, pat: Seq<char>)
    requires
        cell_valid(cell),
        foreign(pat),
    ensures
        clear(cell_xml(cell, s, si), pat),
{
    cell_form(cell, s, si);
    cell_attrs_read(cell.r as nat, cell.c as nat, s, type_of_cell(cell));
    inner_form(cell, si);
    raw_is_bare(cell, si);
    reveal_strlit("<c");
    reveal_strlit(" ");
    reveal_strlit("<c ");
    reveal_strlit(">");
    reveal_strlit("/>");
    let attrs = attrs_of(cell, s);
    assert("<c"@ + " "@ == "<c "@);
    clear_without(">"@, pat);
    clear_without("/>"@, pat);
    clear_without(attrs, pat);
    clear_join("<c "@, attrs, pat);
    clear_join("<c "@ + attrs, "/>"@, pat);
    clear_join("<c "@ + attrs, ">"@, pat);
    let f = formula_text(cell.f);
    let v = value_text(raw_value(cell, si));
    match cell.f {
        Some(x) => {
            escaped_is_bare(x@);
            piece_clear("<f>"@, esc_text(x@, Escape::Full), "</f>"@, pat);
        },
        None => {
            clear_without(f, pat);
        },
    }
    match raw_value(cell, si) {
        Some(t) => {
            piece_clear("<v>"@, t, "</v>"@, pat);
        },
        None => {
            clear_without(v, pat);
        },
    }
    clear_join(f, v, pat);
    clear_join("<c "@ + attrs + ">"@, f + v, pat);
    clear_join("<c "@ + attrs + ">"@ + (f + v), "</c>"@, pat);
    clear_without(Seq::<char>::empty(), pat);
}

proof fn cells_clear(
    cells: Seq<CellSnapshot>,
    styles: Seq<NamedStyle>,
    sh: Shared,
    r: u32,
    n: int,
    pat: Seq<char>,
)
    requires
        0 <= n <= cells.len(),
        cells_valid(cells),
        foreign(pat),
    ensures
        clear(row_cells(cells, write_cells(cells, styles, sh).0, r, n), pat),
    decreases n,
{
    let xs = write_cells(cells, styles, sh).0;
    if n > 0 {
        cells_clear(cells, styles, sh, r, n - 1, pat);
        if cells[n - 1].r == r {
            cell_at(cells, styles, sh, n - 1);
            cell_clear(
                cells[n - 1],
                format_at(cells, styles, sh, n - 1),
                text_at(cells, styles, sh, n - 1),
                pat,
            );
            clear_join(row_cells(cells, xs, r, n - 1), xs[n - 1], pat);
        }
    }
}

// ---- rows, one behind the other

/// Whether the sizes of rows or columns are numbers.
pub open spec fn sizes_valid(pairs: Seq<NumPair>) -> bool {
    forall|k: int| 0 <= k < pairs.len() ==> is_number_text(#[trigger] pairs[k].1@)
}

pub proof fn last_pair_valid(pairs: Seq<NumPair>, k: u32)
    requires
        sizes_valid(pairs),
    ensures
        last_pair(pairs, k) matches Some(t) ==> is_number_text(t),
    decreases pairs.len(),
{
    if pairs.len() > 0 {
        assert(is_number_text(pairs[pairs.len() - 1].1@));
        let p = pairs.drop_last();
        assert forall|j: int| 0 <= j < p.len() implies is_number_text(#[trigger] p[j].1@) by {
            assert(p[j] == pairs[j]);
        }
        last_pair_valid(p, k);
    }
}

pub proof fn level_bound(groups: Seq<OutlineGroupSnapshot>, i: int, after: bool)
    ensures
        level(groups, i, after) <= groups.len(),
    decreases groups.len(),
{
    if groups.len() > 0 {
        level_bound(groups.drop_last(), i, after);
    }
}

/// The attributes of row `r`, put behind what has been read.
pub open spec fn row_back(st: RowsRead, s: SheetSnapshot, r: u32) -> RowsRead {
    RowsRead {
        max_row: max_of(st.max_row, r),
        heights: match last_pair(s.row_heights@, r) {
            Some(t) => st.heights.push((r, t)),
            None => st.heights,
        },
        hidden: if row_hidden(s, r) {
            st.hidden.push(r)
        } else {
            st.hidden
        },
        levels: if level(s.row_outlines@, r as int, below(s)) > 0 {
            st.levels.push((r, level(s.row_outlines@, r as int, below(s)) as u32))
        } else {
            st.levels
        },
        collapsed: if is_boundary(s.row_outlines@, r as int, below(s)) {
            st.collapsed.push(r)
        } else {
            st.collapsed
        },
        ..st
    }
}

/// Rows as they come back.
pub open spec fn rows_back(
    s: SheetSnapshot,
    cells: Seq<CellSnapshot>,
    styles: Seq<NamedStyle>,
    sh: Shared,
    xf: Seq<StyleView>,
    list: Seq<u32>,
) -> RowsRead
    decreases list.len(),
{
    if list.len() == 0 {
        no_rows_read()
    } else {
        let p = rows_back(s, cells, styles, sh, xf, list.drop_last());
        row_added(row_back(p, s, list.last()), cells, styles, sh, xf, list.last(), cells.len() as int)
    }
}

/// The elements of rows.
pub open spec fn rows_records(
    s: SheetSnapshot,
    cells: Seq<CellSnapshot>,
    xs: Seq<Seq<char>>,
    list: Seq<u32>,
) -> Seq<(Seq<char>, Seq<char>)> {
    Seq::new(
        list.len(),
        |i: int| (row_attrs(s, list[i]), row_cells(cells, xs, list[i], cells.len() as int)),
    )
}

proof fn one_row_attrs(st: RowsRead, s: SheetSnapshot, r: u32)
    requires
        r < u32::MAX,
        sizes_valid(s.row_heights@),
        s.row_outlines@.len() <= u32::MAX,
    ensures
        row_attrs_read(st, row_attrs(s, r), r) == row_back(st, s, r),
        attr_number(row_attrs(s, r), "r"@, 0xffff_ffff) == Some((r + 1) as nat),
        row_attrs(s, r).len() > 0,
        row_attrs(s, r)[0] == 'r',
        without(row_attrs(s, r), '>'),
        without(row_attrs(s, r), '<'),
        row_attrs(s, r).last() != '/',
{
    let h = last_pair(s.row_heights@, r);
    let n = level(s.row_outlines@, r as int, below(s));
    last_pair_valid(s.row_heights@, r);
    level_bound(s.row_outlines@, r as int, below(s));
    row_attrs_back(
        (r + 1) as nat,
        h,
        n,
        row_hidden(s, r),
        is_boundary(s.row_outlines@, r as int, below(s)),
    );
    parse_unsigned_dec((r + 1) as nat, 0xffff_ffff);
    parse_unsigned_dec(n, 0xffff_ffff);
    let attrs = row_attrs(s, r);
    assert(attrs[attrs.len() - 1] != '/');
}

/// Rows are read as they were written.
pub proof fn rows_come_back(
    s: SheetSnapshot,
    cells: Seq<CellSnapshot>,
    styles: Seq<NamedStyle>,
    sh: Shared,
    sst: Seq<Seq<char>>,
    xf: Seq<StyleView>,
    list: Seq<u32>,
)
    requires
        cells_valid(cells),
        countable(write_cells(cells, styles, sh).1),
        leads(write_cells(cells, styles, sh).1.texts, sst),
        sizes_valid(s.row_heights@),
        s.row_outlines@.len() <= u32::MAX,
        forall|i: int| 0 <= i < list.len() ==> #[trigger] list[i] < u32::MAX,
    ensures
        holds_records(
            row_list_xml(s, cells, write_cells(cells, styles, sh).0, list),
            "<row"@,
            "</row>"@,
            rows_records(s, cells, write_cells(cells, styles, sh).0, list),
        ),
        rows_read(rows_records(s, cells, write_cells(cells, styles, sh).0, list), sst, xf) == Some(
            rows_back(s, cells, styles, sh, xf, list),
        ),
    decreases list.len(),
{
    let xs = write_cells(cells, styles, sh).0;
    reveal_strlit("<row");
    reveal_strlit("</row>");
    if list.len() == 0 {
        let e = Seq::<char>::empty();
        clear_without(e, "<row"@);
        records_none(e, "<row"@, "</row>"@);
        assert(rows_records(s, cells, xs, list) == Seq::<(Seq<char>, Seq<char>)>::empty());
    } else {
        let r = list.last();
        let q = list.drop_last();
        assert(r == list[list.len() - 1]);
        assert forall|i: int| 0 <= i < q.len() implies #[trigger] q[i] < u32::MAX by {
            assert(q[i] == list[i]);
        }
        rows_come_back(s, cells, styles, sh, sst, xf, q);
        let n = cells.len() as int;
        let p = rows_back(s, cells, styles, sh, xf, q);
        one_row_attrs(p, s, r);
        row_form(s, cells, xs, r);
        row_cells_back(row_back(p, s, r), cells, styles, sh, sst, xf, r, n);
        records_whole(
            row_cells(cells, xs, r, n),
            "<c"@,
            "</c>"@,
            row_records(cells, styles, sh, r, n),
        );
        foreign_if("</row>"@);
        cells_clear(cells, styles, sh, r, n, "</row>"@);
        record_full("<row"@, row_attrs(s, r), row_cells(cells, xs, r, n), "</row>"@);
        let one = seq![(row_attrs(s, r), row_cells(cells, xs, r, n))];
        let before = rows_records(s, cells, xs, q);
        records_join(
            row_list_xml(s, cells, xs, q),
            row_xml(s, cells, xs, r),
            "<row"@,
            "</row>"@,
            before,
            one,
        );
        let all = rows_records(s, cells, xs, list);
        assert(all == before + one);
        assert(all.drop_last() == before);
        assert(all.last() == one[0]);
    }
}

/// Tags of other kinds do not start in rows.
pub proof fn rows_clear(
    s: SheetSnapshot,
    cells: Seq<CellSnapshot>,
    styles: Seq<NamedStyle>,
    sh: Shared,
    list: Seq<u32>,
    pat: Seq<char>,
)
    requires
        cells_valid(cells),
        sizes_valid(s.row_heights@),
        s.row_outlines@.len() <= u32::MAX,
        forall|i: int| 0 <= i < list.len() ==> #[trigger] list[i] < u32::MAX,
        strange(pat),
    ensures
        clear(row_list_xml(s, cells, write_cells(cells, styles, sh).0, list), pat),
    decreases list.len(),
{
    let xs = write_cells(cells, styles, sh).0;
    if list.len() == 0 {
        clear_without(Seq::<char>::empty(), pat);
    } else {
        let r = list.last();
        let q = list.drop_last();
        assert(r == list[list.len() - 1]);
        assert forall|i: int| 0 <= i < q.len() implies #[trigger] q[i] < u32::MAX by {
            assert(q[i] == list[i]);
        }
        rows_clear(s, cells, styles, sh, q, pat);
        one_row_attrs(no_rows_read(), s, r);
        row_form(s, cells, xs, r);
        let n = cells.len() as int;
        cells_clear(cells, styles, sh, r, n, pat);
        reveal_strlit("<row");
        reveal_strlit(" ");
        reveal_strlit("<row ");
        reveal_strlit(">");
        assert("<row"@ + " "@ == "<row "@);
        let attrs = row_attrs(s, r);
        clear_without(attrs, pat);
        clear_without(">"@, pat);
        clear_join("<row "@, attrs, pat);
        clear_join("<row "@ + attrs, ">"@, pat);
        clear_join("<row "@ + attrs + ">"@, row_cells(cells, xs, r, n), pat);
        clear_join("<row "@ + attrs + ">"@ + row_cells(cells, xs, r, n), "</row>"@, pat);
        clear_join(row_list_xml(s, cells, xs, q), row_xml(s, cells, xs, r), pat);
    }
}

} // verus!
