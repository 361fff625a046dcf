//! The parts of a sheet, each read back as it was written.
use crate::address::{addr, addr_round_trip, label, spec_parse_addr};
use crate::cell_law::{addr_is_plain, dec_is_plain, plain, plain_is_bare};
use crate::column_law::{
    cols_back, cols_come_back, no_char, span_refs, spans_back, spans_col, spans_come_back,
    spans_row, spans_valid,
};
use crate::decimal::{dec, dec_round_trip, parse_unsigned_dec};
use crate::find_law::{
    attr_found, attr_in_list, attr_list, clear, clear_join, clear_miss, clear_without, closed_found,
    closed_missing, element_found, element_missing, find_char_past, head_apart, key_of, list_push,
    list_without, name_apart, open_found, open_missing, ref_found, refs_whole, short_whole, unlike,
    without, without_join,
};
use crate::row_law::{cells_valid, rows_clear, sizes_valid, strange_if};
use crate::scan::{at, attr_of, occurs};
use crate::sheet_law::{bare_quiet, led, led_quiet, mark, marks, quiet, quiet_join, tag_quiet};
use crate::snapshot::{CellSnapshot, NamedStyle, SheetProtection, SheetSnapshot, Span};
use crate::text::opt;
use crate::xlsx::{
    below, col_list_xml, cols_xml, dimension, listed_cols, merge_list, merges_text, protection_text,
    right, row_list_xml, sheet_pr_text, sheet_views_text, write_cells, Shared,
};
use crate::xlsx_read::{
    dimension_read, last_end, pane_read, protection_read, sheet_cols, sheet_merges, summary_read,
    MergesRead,
};
use crate::xlsx_styles_read::block_opt;
use vstd::prelude::*;

verus! {

pub open spec fn flag_text(b: bool) -> Seq<char> {
    if b {
        "1"@
    } else {
        "0"@
    }
}

proof fn flags()
    ensures
        plain("1"@),
        plain("0"@),
        "1"@ != "0"@,
{
    reveal_strlit("1");
    reveal_strlit("0");
    assert("1"@[0] == '1' && "0"@[0] == '0');
}

// ---- outline settings

/// Whether the outline settings of a sheet are written.
pub open spec fn pr_written(s: SheetSnapshot) -> bool {
    s.row_outlines@.len() > 0 || s.col_outlines@.len() > 0 || !below(s) || !right(s)
}

pub open spec fn pr_list(r: bool) -> Seq<(Seq<char>, Option<Seq<char>>)> {
    Seq::empty().push(("summaryRight"@, Some(flag_text(r))))
}

pub open spec fn pr_attrs(b: bool, r: bool) -> Seq<char> {
    key_of("summaryBelow"@) + flag_text(b) + "\""@ + attr_list(pr_list(r))
}

proof fn pr_form(s: SheetSnapshot)
    requires
        pr_written(s),
    ensures
        sheet_pr_text(s) == "<sheetPr>"@ + "<outlinePr"@ + " "@ + pr_attrs(below(s), right(s)) + "/>"@
            + "</sheetPr>"@,
{
    reveal_strlit("<sheetPr><outlinePr summaryBelow=\"");
    reveal_strlit("\" summaryRight=\"");
    reveal_strlit("\"/></sheetPr>");
    reveal_strlit("<sheetPr>");
    reveal_strlit("<outlinePr");
    reveal_strlit(" ");
    reveal_strlit("/>");
    reveal_strlit("</sheetPr>");
    reveal_strlit("summaryBelow");
    reveal_strlit("summaryRight");
    reveal_strlit("=\"");
    reveal_strlit("\"");
    let e = Seq::<(Seq<char>, Option<Seq<char>>)>::empty();
    let r = flag_text(right(s));
    let b = flag_text(below(s));
    list_push(e, ("summaryRight"@, Some(r)));
    let item = " "@ + key_of("summaryRight"@) + r + "\""@;
    assert(attr_list(pr_list(right(s))) == item);
    assert("<sheetPr>"@ + "<outlinePr"@ + " "@ + key_of("summaryBelow"@)
        == "<sheetPr><outlinePr summaryBelow=\""@);
    assert("\""@ + (" "@ + key_of("summaryRight"@)) == "\" summaryRight=\""@);
    assert("\""@ + "/>"@ + "</sheetPr>"@ == "\"/></sheetPr>"@);
    let lhs = sheet_pr_text(s);
    assert(lhs == "<sheetPr><outlinePr summaryBelow=\""@ + b + "\" summaryRight=\""@ + r
        + "\"/></sheetPr>"@);
    let x = "<sheetPr>"@ + "<outlinePr"@ + " "@ + key_of("summaryBelow"@);
    let y = "\""@ + (" "@ + key_of("summaryRight"@));
    let z = "\""@ + "/>"@ + "</sheetPr>"@;
    assert("<sheetPr>"@ + "<outlinePr"@ + " "@ + (key_of("summaryBelow"@) + b + "\""@ + (" "@ + key_of(
        "summaryRight"@,
    ) + r + "\""@)) + "/>"@ + "</sheetPr>"@ == x + b + y + r + z);
}

proof fn pr_attrs_back(b: bool, r: bool)
    ensures
        attr_of(pr_attrs(b, r), "summaryBelow"@) == Some(flag_text(b)),
        attr_of(pr_attrs(b, r), "summaryRight"@) == Some(flag_text(r)),
        pr_attrs(b, r).len() > 0,
        pr_attrs(b, r)[0] == 's',
        without(pr_attrs(b, r), '>'),
        without(pr_attrs(b, r), '<'),
{
    flags();
    plain_is_bare(flag_text(b));
    plain_is_bare(flag_text(r));
    reveal_strlit("summaryBelow");
    reveal_strlit("summaryRight");
    reveal_strlit(" ");
    reveal_strlit("=\"");
    reveal_strlit("\"");
    let l = pr_list(r);
    let head = key_of("summaryBelow"@) + flag_text(b) + "\""@;
    let e = Seq::<char>::empty();
    name_apart("summaryRight"@);
    head_apart("summaryBelow"@, flag_text(b), "summaryRight"@, 11);
    attr_in_list(head, l, 0);
    clear_without(e, key_of("summaryBelow"@));
    attr_found(e, "summaryBelow"@, flag_text(b), attr_list(l));
    assert(pr_attrs(b, r) == e + key_of("summaryBelow"@) + flag_text(b) + "\""@ + attr_list(l));
    list_without(l, '>');
    list_without(l, '<');
    assert(pr_attrs(b, r)[0] == key_of("summaryBelow"@)[0]);
}

pub proof fn pr_quiet(s: SheetSnapshot)
    ensures
        quiet(sheet_pr_text(s), 0),
        !pr_written(s) ==> quiet(sheet_pr_text(s), -1),
{
    if pr_written(s) {
        pr_form(s);
        pr_attrs_back(below(s), right(s));
        reveal_strlit("<sheetPr>");
        reveal_strlit("<outlinePr");
        reveal_strlit(" ");
        reveal_strlit("/>");
        reveal_strlit("</sheetPr>");
        let a = pr_attrs(below(s), right(s));
        tag_quiet("<sheetPr>"@, 0);
        tag_quiet("<outlinePr"@, 0);
        assert(led("</sheetPr>"@));
        led_quiet("</sheetPr>"@, 0);
        bare_quiet(" "@, 0);
        bare_quiet(a, 0);
        bare_quiet("/>"@, 0);
        quiet_join("<sheetPr>"@, "<outlinePr"@, 0);
        quiet_join("<sheetPr>"@ + "<outlinePr"@, " "@, 0);
        quiet_join("<sheetPr>"@ + "<outlinePr"@ + " "@, a, 0);
        quiet_join("<sheetPr>"@ + "<outlinePr"@ + " "@ + a, "/>"@, 0);
        quiet_join("<sheetPr>"@ + "<outlinePr"@ + " "@ + a + "/>"@, "</sheetPr>"@, 0);
    } else {
        bare_quiet(sheet_pr_text(s), 0);
        bare_quiet(sheet_pr_text(s), -1);
    }
}

/// The outline settings are read as they were written.
pub proof fn pr_back(s: SheetSnapshot, a: Seq<char>, b: Seq<char>)
    requires
        clear(a, mark(0)),
        pr_written(s) || clear(a + sheet_pr_text(s) + b, mark(0)),
    ensures
        summary_read(a + sheet_pr_text(s) + b, "summaryBelow"@) == below(s),
        summary_read(a + sheet_pr_text(s) + b, "summaryRight"@) == right(s),
{
    let xml = a + sheet_pr_text(s) + b;
    if pr_written(s) {
        pr_form(s);
        pr_attrs_back(below(s), right(s));
        flags();
        reveal_strlit("<sheetPr>");
        reveal_strlit("<outlinePr");
        lit_apart("<sheetPr>"@, "<outlinePr"@);
        clear_join(a, "<sheetPr>"@, "<outlinePr"@);
        let attrs = pr_attrs(below(s), right(s));
        closed_found(a + "<sheetPr>"@, "<outlinePr"@, attrs, "</sheetPr>"@ + b);
        assert(xml == (a + "<sheetPr>"@) + "<outlinePr"@ + " "@ + attrs + "/>"@ + ("</sheetPr>"@ + b));
    } else {
        closed_missing(xml, "<outlinePr"@);
    }
}

proof fn lit_apart(s: Seq<char>, pat: Seq<char>)
    requires
        s.len() > 1,
        pat.len() > 1,
        s[1] != pat[1],
        forall|i: int| 1 <= i < s.len() ==> #[trigger] s[i] != pat[0],
    ensures
        clear(s, pat),
{
    crate::cell_law::lit_clear(s, pat, 1);
}

// ---- rows and columns that stay in view

pub open spec fn active_pane(rows: u32, cols: u32) -> Seq<char> {
    if rows > 0 && cols > 0 {
        "bottomRight"@
    } else if rows > 0 {
        "bottomLeft"@
    } else {
        "topRight"@
    }
}

pub open spec fn pane_list(rows: u32, cols: u32) -> Seq<(Seq<char>, Option<Seq<char>>)> {
    Seq::empty().push(("ySplit"@, Some(dec(rows as nat)))).push(
        ("topLeftCell"@, Some(addr(rows as nat, cols as nat))),
    ).push(("activePane"@, Some(active_pane(rows, cols)))).push(("state"@, Some("frozen"@)))
}

pub open spec fn pane_attrs(rows: u32, cols: u32) -> Seq<char> {
    key_of("xSplit"@) + dec(cols as nat) + "\""@ + attr_list(pane_list(rows, cols))
}

proof fn pane_literals()
    ensures
        "<sheetViews><sheetView workbookViewId=\"0\"><pane xSplit=\""@ == "<sheetViews>"@
            + "<sheetView workbookViewId=\"0\">"@ + "<pane"@ + " "@ + key_of("xSplit"@),
        "\" ySplit=\""@ == "\""@ + (" "@ + key_of("ySplit"@)),
        "\" topLeftCell=\""@ == "\""@ + (" "@ + key_of("topLeftCell"@)),
        "\" activePane=\""@ == "\""@ + (" "@ + key_of("activePane"@)),
        "\" state=\"frozen\"/></sheetView></sheetViews>"@ == "\""@ + (" "@ + key_of("state"@) + "frozen"@
            + "\""@) + "/>"@ + "</sheetView></sheetViews>"@,
{
    reveal_strlit("<sheetViews><sheetView workbookViewId=\"0\"><pane xSplit=\"");
    reveal_strlit("<sheetViews>");
    reveal_strlit("<sheetView workbookViewId=\"0\">");
    reveal_strlit("<pane");
    reveal_strlit(" ");
    reveal_strlit("xSplit");
    reveal_strlit("=\"");
    reveal_strlit("\"");
    reveal_strlit("\" ySplit=\"");
    reveal_strlit("ySplit");
    reveal_strlit("\" topLeftCell=\"");
    reveal_strlit("topLeftCell");
    reveal_strlit("\" activePane=\"");
    reveal_strlit("activePane");
    reveal_strlit("state");
    reveal_strlit("frozen");
    reveal_strlit("/>");
    reveal_strlit("\" state=\"frozen\"/></sheetView></sheetViews>");
    reveal_strlit("</sheetView></sheetViews>");
}

proof fn pane_joined(
    hd: Seq<char>,
    kx: Seq<char>,
    x: Seq<char>,
    q: Seq<char>,
    ky: Seq<char>,
    y: Seq<char>,
    kt: Seq<char>,
    t: Seq<char>,
    ka: Seq<char>,
    p: Seq<char>,
    st: Seq<char>,
    end: Seq<char>,
)
    ensures
        hd + (kx + x + q + (Seq::<char>::empty() + (ky + y + q) + (kt + t + q) + (ka + p + q) + st)) + end
            == (hd + kx) + x + (q + ky) + y + (q + kt) + t + (q + ka) + p + (q + st + end),
{
    let e = Seq::<char>::empty();
    let a = kx + x + q;
    let b = e + (ky + y + q) + (kt + t + q) + (ka + p + q) + st;
    assert(b == ky + y + (q + kt) + t + (q + ka) + p + (q + st));
    assert(hd + (a + b) + end == (hd + kx) + x + q + b + end);
    assert((hd + kx) + x + q + (ky + y + (q + kt) + t + (q + ka) + p + (q + st)) + end == (hd + kx) + x
        + (q + ky) + y + (q + kt) + t + (q + ka) + p + (q + st + end));
}

#[verifier::rlimit(30)]
proof fn pane_form(rows: u32, cols: u32)
    requires
        rows > 0 || cols > 0,
    ensures
        sheet_views_text(rows, cols) == "<sheetViews>"@ + "<sheetView workbookViewId=\"0\">"@ + "<pane"@
            + " "@ + pane_attrs(rows, cols) + "/>"@ + "</sheetView></sheetViews>"@,
{
    pane_literals();
    let e = Seq::<(Seq<char>, Option<Seq<char>>)>::empty();
    let x = dec(cols as nat);
    let y = dec(rows as nat);
    let t = addr(rows as nat, cols as nat);
    let p = active_pane(rows, cols);
    let a0 = ("ySplit"@, Some(y));
    let a1 = ("topLeftCell"@, Some(t));
    let a2 = ("activePane"@, Some(p));
    let a3 = ("state"@, Some("frozen"@));
    list_push(e, a0);
    list_push(e.push(a0), a1);
    list_push(e.push(a0).push(a1), a2);
    list_push(e.push(a0).push(a1).push(a2), a3);
    let q = "\""@;
    let ky = " "@ + key_of("ySplit"@);
    let kt = " "@ + key_of("topLeftCell"@);
    let ka = " "@ + key_of("activePane"@);
    let st = " "@ + key_of("state"@) + "frozen"@ + q;
    let f = Seq::<char>::empty();
    let items = f + (ky + y + q) + (kt + t + q) + (ka + p + q) + st;
    assert(attr_list(pane_list(rows, cols)) == items);
    let hd = "<sheetViews>"@ + "<sheetView workbookViewId=\"0\">"@ + "<pane"@ + " "@;
    let kx = key_of("xSplit"@);
    let end = "</sheetView></sheetViews>"@;
    pane_joined(hd, kx, x, q, ky, y, kt, t, ka, p, st, "/>"@ + end);
    assert(hd + (kx + x + q + items) + "/>"@ + end == hd + (kx + x + q + items) + ("/>"@ + end));
    assert(q + st + ("/>"@ + end) == q + st + "/>"@ + end);
    assert(label(cols as nat) + dec((rows + 1) as nat) == t);
    assert(sheet_views_text(rows, cols)
        == "<sheetViews><sheetView workbookViewId=\"0\"><pane xSplit=\""@ + x + "\" ySplit=\""@ + y
        + "\" topLeftCell=\""@ + label(cols as nat) + dec((rows + 1) as nat) + "\" activePane=\""@ + p
        + "\" state=\"frozen\"/></sheetView></sheetViews>"@);
    assert("<sheetViews><sheetView workbookViewId=\"0\"><pane xSplit=\""@ + x + "\" ySplit=\""@ + y
        + "\" topLeftCell=\""@ + label(cols as nat) + dec((rows + 1) as nat)
        == "<sheetViews><sheetView workbookViewId=\"0\"><pane xSplit=\""@ + x + "\" ySplit=\""@ + y
        + "\" topLeftCell=\""@ + t);
}

proof fn pane_attrs_back(rows: u32, cols: u32)
    ensures
        attr_of(pane_attrs(rows, cols), "xSplit"@) == Some(dec(cols as nat)),
        attr_of(pane_attrs(rows, cols), "ySplit"@) == Some(dec(rows as nat)),
        pane_attrs(rows, cols).len() > 0,
        pane_attrs(rows, cols)[0] == 'x',
        without(pane_attrs(rows, cols), '>'),
        without(pane_attrs(rows, cols), '<'),
{
    let l = pane_list(rows, cols);
    let x = dec(cols as nat);
    let head = key_of("xSplit"@) + x + "\""@;
    let e = Seq::<char>::empty();
    dec_is_plain(cols as nat);
    dec_is_plain(rows as nat);
    addr_is_plain(rows as nat, cols as nat);
    reveal_strlit("bottomRight");
    reveal_strlit("bottomLeft");
    reveal_strlit("topRight");
    reveal_strlit("frozen");
    reveal_strlit("xSplit");
    reveal_strlit("ySplit");
    reveal_strlit("topLeftCell");
    reveal_strlit("activePane");
    reveal_strlit("state");
    reveal_strlit("\"");
    reveal_strlit(" ");
    reveal_strlit("=\"");
    plain_is_bare(x);
    plain_is_bare(dec(rows as nat));
    plain_is_bare(addr(rows as nat, cols as nat));
    plain_is_bare(active_pane(rows, cols));
    plain_is_bare("frozen"@);
    name_apart("ySplit"@);
    head_apart("xSplit"@, x, "ySplit"@, 0);
    attr_in_list(head, l, 0);
    clear_without(e, key_of("xSplit"@));
    attr_found(e, "xSplit"@, x, attr_list(l));
    assert(pane_attrs(rows, cols) == e + key_of("xSplit"@) + x + "\""@ + attr_list(l));
    list_without(l, '>');
    list_without(l, '<');
    assert(pane_attrs(rows, cols)[0] == key_of("xSplit"@)[0]);
}

pub proof fn pane_quiet(rows: u32, cols: u32)
    ensures
        quiet(sheet_views_text(rows, cols), 1),
        rows == 0 && cols == 0 ==> quiet(sheet_views_text(rows, cols), -1),
{
    if rows > 0 || cols > 0 {
        pane_form(rows, cols);
        pane_attrs_back(rows, cols);
        reveal_strlit("<sheetViews>");
        reveal_strlit("<sheetView workbookViewId=\"0\">");
        reveal_strlit("<pane");
        reveal_strlit(" ");
        reveal_strlit("/>");
        reveal_strlit("</sheetView></sheetViews>");
        let a = "<sheetViews>"@;
        let b = "<sheetView workbookViewId=\"0\">"@;
        let c = "<pane"@;
        let d = " "@;
        let t = pane_attrs(rows, cols);
        let f = "/>"@;
        let g = "</sheetView></sheetViews>"@;
        tag_quiet(a, 1);
        tag_quiet(b, 1);
        tag_quiet(c, 1);
        bare_quiet(d, 1);
        bare_quiet(t, 1);
        bare_quiet(f, 1);
        assert(led(g));
        led_quiet(g, 1);
        quiet_join(a, b, 1);
        quiet_join(a + b, c, 1);
        quiet_join(a + b + c, d, 1);
        quiet_join(a + b + c + d, t, 1);
        quiet_join(a + b + c + d + t, f, 1);
        quiet_join(a + b + c + d + t + f, g, 1);
    } else {
        bare_quiet(sheet_views_text(rows, cols), 1);
        bare_quiet(sheet_views_text(rows, cols), -1);
    }
}

/// The rows and columns that stay in view are read as they were written.
pub proof fn pane_back(rows: u32, cols: u32, a: Seq<char>, b: Seq<char>)
    requires
        clear(a, mark(1)),
        (rows > 0 || cols > 0) || clear(a + sheet_views_text(rows, cols) + b, mark(1)),
    ensures
        pane_read(a + sheet_views_text(rows, cols) + b) == (if rows > 0 || cols > 0 {
            Some((rows, cols))
        } else {
            None
        }),
{
    let xml = a + sheet_views_text(rows, cols) + b;
    if rows > 0 || cols > 0 {
        pane_form(rows, cols);
        pane_attrs_back(rows, cols);
        parse_unsigned_dec(rows as nat, 0xffff_ffff);
        parse_unsigned_dec(cols as nat, 0xffff_ffff);
        reveal_strlit("<sheetViews>");
        reveal_strlit("<sheetView workbookViewId=\"0\">");
        reveal_strlit("<pane");
        let u = "<sheetViews>"@;
        let v = "<sheetView workbookViewId=\"0\">"@;
        lit_apart(u, "<pane"@);
        lit_apart(v, "<pane"@);
        clear_join(a, u, "<pane"@);
        clear_join(a + u, v, "<pane"@);
        let attrs = pane_attrs(rows, cols);
        let end = "</sheetView></sheetViews>"@;
        closed_found(a + u + v, "<pane"@, attrs, end + b);
        assert(xml == (a + u + v) + "<pane"@ + " "@ + attrs + "/>"@ + (end + b));
    } else {
        closed_missing(xml, "<pane"@);
    }
}

// ---- the size of a sheet

pub open spec fn dimension_text(s: SheetSnapshot) -> Seq<char> {
    "<dimension ref=\""@ + dimension(s) + "\"/>"@
}

/// The last row and column that a sheet's size names; nothing for a sheet without rows.
pub open spec fn dimension_back(s: SheetSnapshot) -> (u32, u32) {
    if s.row_count == 0 {
        (0, 0)
    } else if s.col_count == 0 {
        ((s.row_count - 1) as u32, 0)
    } else {
        ((s.row_count - 1) as u32, (s.col_count - 1) as u32)
    }
}

proof fn dimension_bare(s: SheetSnapshot)
    ensures
        without(dimension(s), '"'),
        without(dimension(s), '<'),
        last_end(dimension(s)) == dimension(s).skip(3),
{
    reveal_strlit("A1:");
    let c: nat = if s.col_count > 0 {
        (s.col_count - 1) as nat
    } else {
        0
    };
    let t = label(c) + dec(s.row_count as nat);
    crate::address::label_round_trip(c);
    dec_is_plain(s.row_count as nat);
    assert(plain(t));
    plain_is_bare(t);
    let d = dimension(s);
    assert(d == "A1:"@ + t);
    let head = seq!['A', '1'];
    let tail = seq![':'] + t;
    assert(d == head + tail);
    find_char_past(head, tail, ':', 0);
    assert(d.skip(3) == t);
    no_char(t, ':', 0);
    assert(last_end(t) == t);
}

pub proof fn dimension_quiet(s: SheetSnapshot)
    ensures
        quiet(dimension_text(s), 2),
{
    dimension_bare(s);
    reveal_strlit("<dimension ref=\"");
    reveal_strlit("\"/>");
    let a = "<dimension ref=\""@;
    let b = dimension(s);
    tag_quiet(a, 2);
    bare_quiet(b, 2);
    bare_quiet("\"/>"@, 2);
    quiet_join(a, b, 2);
    quiet_join(a + b, "\"/>"@, 2);
}

/// The size of a sheet is read as it was written.
pub proof fn dimension_comes_back(s: SheetSnapshot, a: Seq<char>, b: Seq<char>)
    requires
        clear(a, mark(2)),
    ensures
        dimension_read(a + dimension_text(s) + b) == dimension_back(s),
{
    let xml = a + dimension_text(s) + b;
    dimension_bare(s);
    reveal_strlit("<dimension");
    reveal_strlit("<dimension ref=\"");
    reveal_strlit("ref=\"");
    reveal_strlit("\"/>");
    reveal_strlit("\"");
    reveal_strlit("/>");
    reveal_strlit(" ");
    ref_found(a, "<dimension"@, "ref=\""@, dimension(s), "/>"@ + b);
    assert("<dimension"@ + " "@ + "ref=\""@ == "<dimension ref=\""@);
    assert("\""@ + "/>"@ == "\"/>"@);
    let d = dimension(s);
    assert(xml == a + ("<dimension"@ + " "@ + "ref=\""@) + d + ("\""@ + "/>"@) + b);
    assert(a + ("<dimension"@ + " "@ + "ref=\""@) + d + ("\""@ + "/>"@) + b == a + "<dimension"@ + " "@
        + "ref=\""@ + d + "\""@ + ("/>"@ + b));
    let c: nat = if s.col_count > 0 {
        (s.col_count - 1) as nat
    } else {
        0
    };
    reveal_strlit("A1:");
    let t = label(c) + dec(s.row_count as nat);
    assert(d.skip(3) == t);
    if s.row_count > 0 {
        addr_round_trip((s.row_count - 1) as nat, c);
        assert(addr((s.row_count - 1) as nat, c) == t);
    } else {
        no_row_zero(c);
    }
}

/// There is no row 0.
proof fn no_row_zero(c: nat)
    ensures
        spec_parse_addr(label(c) + dec(0)) is None,
{
    crate::address::label_round_trip(c);
    dec_round_trip(0);
    crate::address::letters_end_split(label(c), dec(0));
    let s = label(c) + dec(0);
    assert(s.skip(label(c).len() as int) == dec(0));
}

// ---- protection

pub open spec fn sort_text(b: bool) -> Seq<char> {
    if b {
        " sort=\"0\""@
    } else {
        " sort=\"1\""@
    }
}

pub open spec fn filter_text(b: bool) -> Seq<char> {
    if b {
        " autoFilter=\"0\""@
    } else {
        " autoFilter=\"1\""@
    }
}

pub open spec fn format_text(b: bool) -> Seq<char> {
    if b {
        " formatCells=\"0\""@
    } else {
        " formatCells=\"1\""@
    }
}

pub open spec fn insert_text(b: bool) -> Seq<char> {
    opt(b, " insertRows=\"1\" insertColumns=\"1\" deleteRows=\"1\" deleteColumns=\"1\""@)
}

pub open spec fn guard_attrs(p: SheetProtection) -> Seq<char> {
    "sheet=\"1\" objects=\"1\" scenarios=\"1\""@ + sort_text(p.allow_sort == Some(true)) + filter_text(
        p.allow_filter == Some(true),
    ) + format_text(p.allow_format_cells == Some(true)) + insert_text(
        p.allow_insert_delete != Some(true),
    )
}

/// Whether a sheet's protection is written.
pub open spec fn guarded(p: Option<SheetProtection>) -> bool {
    p matches Some(x) && x.enabled
}

/// A sheet's protection as it comes back: what may be sorted, filtered and formatted.
pub open spec fn protection_back(p: Option<SheetProtection>) -> Option<SheetProtection> {
    match p {
        Some(x) if x.enabled => Some(
            SheetProtection {
                enabled: true,
                allow_sort: Some(x.allow_sort == Some(true)),
                allow_filter: Some(x.allow_filter == Some(true)),
                allow_format_cells: Some(x.allow_format_cells == Some(true)),
                allow_insert_delete: None,
                allow_select_locked: None,
            },
        ),
        _ => None,
    }
}

proof fn guard_form(p: SheetProtection)
    requires
        p.enabled,
    ensures
        protection_text(Some(p)) == "<sheetProtection"@ + (" "@ + guard_attrs(p) + "/>"@),
{
    reveal_strlit("<sheetProtection sheet=\"1\" objects=\"1\" scenarios=\"1\"");
    reveal_strlit("<sheetProtection");
    reveal_strlit(" ");
    reveal_strlit("sheet=\"1\" objects=\"1\" scenarios=\"1\"");
    let h = "sheet=\"1\" objects=\"1\" scenarios=\"1\""@;
    assert("<sheetProtection"@ + " "@ + h
        == "<sheetProtection sheet=\"1\" objects=\"1\" scenarios=\"1\""@);
    let a = sort_text(p.allow_sort == Some(true));
    let b = filter_text(p.allow_filter == Some(true));
    let c = format_text(p.allow_format_cells == Some(true));
    let d = insert_text(p.allow_insert_delete != Some(true));
    assert("<sheetProtection"@ + (" "@ + (h + a + b + c + d) + "/>"@) == ("<sheetProtection"@ + " "@ + h)
        + a + b + c + d + "/>"@);
}

/// The patterns that permissions are looked for with.
pub open spec fn permission(k: int) -> Seq<char> {
    if k == 0 {
        "sort=\"0\""@
    } else if k == 1 {
        "autoFilter=\"0\""@
    } else {
        "formatCells=\"0\""@
    }
}

proof fn found_inside(a: Seq<char>, pat: Seq<char>, b: Seq<char>)
    ensures
        occurs(a + pat + b, pat),
{
    let s = a + pat + b;
    assert(s.subrange(a.len() as int, a.len() as int + pat.len()) == pat);
    assert(at(s, pat, a.len() as int));
}

proof fn not_inside(s: Seq<char>, pat: Seq<char>)
    requires
        clear(s, pat),
        pat.len() > 0,
    ensures
        !occurs(s, pat),
{
    let e = Seq::<char>::empty();
    assert(s + e == s);
    assert forall|i: int| !#[trigger] at(s, pat, i) by {
        if 0 <= i < s.len() {
            clear_miss(s, e, pat, i);
        }
    }
}

proof fn permission_literals()
    ensures
        clear("sheet=\"1\" objects=\"1\" scenarios=\"1\""@, permission(0)),
        clear("sheet=\"1\" objects=\"1\" scenarios=\"1\""@, permission(1)),
        clear("sheet=\"1\" objects=\"1\" scenarios=\"1\""@, permission(2)),
        clear(" sort=\"1\""@, permission(0)),
        clear(" sort=\"1\""@, permission(1)),
        clear(" sort=\"1\""@, permission(2)),
        clear(" sort=\"0\""@, permission(1)),
        clear(" sort=\"0\""@, permission(2)),
        permission(0).len() == 8,
        permission(1).len() == 14,
        permission(2).len() == 15,
{
    reveal_strlit("sort=\"0\"");
    reveal_strlit("autoFilter=\"0\"");
    reveal_strlit("formatCells=\"0\"");
    reveal_strlit("sheet=\"1\" objects=\"1\" scenarios=\"1\"");
    reveal_strlit(" sort=\"1\"");
    reveal_strlit(" sort=\"0\"");
    let h = "sheet=\"1\" objects=\"1\" scenarios=\"1\""@;
    assert forall|p: int| 0 <= p < h.len() implies #[trigger] unlike(h, permission(0), p) by {
        if h[p] == 's' {
            if p + 1 < h.len() && h[p + 1] != 'o' {
                assert(h[p + 1] != permission(0)[1]);
            }
        } else {
            assert(h[p + 0] != permission(0)[0]);
        }
    }
    assert forall|p: int| 0 <= p < h.len() implies #[trigger] unlike(h, permission(1), p) by {
        if h[p] == 'a' {
            assert(h[p + 1] != permission(1)[1]);
        } else {
            assert(h[p + 0] != permission(1)[0]);
        }
    }
    assert(without(h, 'f'));
    clear_without(h, permission(2));
    let a = " sort=\"1\""@;
    assert forall|p: int| 0 <= p < a.len() implies #[trigger] unlike(a, permission(0), p) by {
        if p == 1 {
            assert(a[p + 6] != permission(0)[6]);
        } else {
            assert(a[p + 0] != permission(0)[0]);
        }
    }
    clear_without(a, permission(1));
    clear_without(a, permission(2));
    clear_without(" sort=\"0\""@, permission(1));
    clear_without(" sort=\"0\""@, permission(2));
}

proof fn filter_literals()
    ensures
        clear(" autoFilter=\"1\""@, permission(0)),
        clear(" autoFilter=\"1\""@, permission(1)),
        clear(" autoFilter=\"1\""@, permission(2)),
        clear(" autoFilter=\"0\""@, permission(0)),
        clear(" autoFilter=\"0\""@, permission(2)),
{
    reveal_strlit("sort=\"0\"");
    reveal_strlit("autoFilter=\"0\"");
    reveal_strlit("formatCells=\"0\"");
    reveal_strlit(" autoFilter=\"1\"");
    reveal_strlit(" autoFilter=\"0\"");
    let a = " autoFilter=\"1\""@;
    let b = " autoFilter=\"0\""@;
    clear_without(a, permission(0));
    clear_without(b, permission(0));
    clear_without(a, permission(2));
    clear_without(b, permission(2));
    assert forall|p: int| 0 <= p < a.len() implies #[trigger] unlike(a, permission(1), p) by {
        if p == 1 {
            assert(a[p + 12] != permission(1)[12]);
        } else {
            assert(a[p + 0] != permission(1)[0]);
        }
    }
}

proof fn format_literals()
    ensures
        clear(" formatCells=\"1\""@, permission(0)),
        clear(" formatCells=\"1\""@, permission(1)),
        clear(" formatCells=\"1\""@, permission(2)),
        clear(" formatCells=\"0\""@, permission(0)),
        clear(" formatCells=\"0\""@, permission(1)),
{
    reveal_strlit("sort=\"0\"");
    reveal_strlit("autoFilter=\"0\"");
    reveal_strlit("formatCells=\"0\"");
    reveal_strlit(" formatCells=\"1\"");
    reveal_strlit(" formatCells=\"0\"");
    let a = " formatCells=\"1\""@;
    let b = " formatCells=\"0\""@;
    assert forall|p: int| 0 <= p < a.len() implies #[trigger] unlike(a, permission(0), p) by {
        if a[p] == 's' {
            assert(a[p + 1] != permission(0)[1]);
        } else {
            assert(a[p + 0] != permission(0)[0]);
        }
    }
    assert forall|p: int| 0 <= p < b.len() implies #[trigger] unlike(b, permission(0), p) by {
        if b[p] == 's' {
            assert(b[p + 1] != permission(0)[1]);
        } else {
            assert(b[p + 0] != permission(0)[0]);
        }
    }
    assert forall|p: int| 0 <= p < a.len() implies #[trigger] unlike(a, permission(1), p) by {
        if a[p] == 'a' {
            assert(a[p + 1] != permission(1)[1]);
        } else {
            assert(a[p + 0] != permission(1)[0]);
        }
    }
    assert forall|p: int| 0 <= p < b.len() implies #[trigger] unlike(b, permission(1), p) by {
        if b[p] == 'a' {
            assert(b[p + 1] != permission(1)[1]);
        } else {
            assert(b[p + 0] != permission(1)[0]);
        }
    }
    assert forall|p: int| 0 <= p < a.len() implies #[trigger] unlike(a, permission(2), p) by {
        if p == 1 {
            assert(a[p + 13] != permission(2)[13]);
        } else {
            assert(a[p + 0] != permission(2)[0]);
        }
    }
}

proof fn insert_literals(b: bool)
    ensures
        clear(insert_text(b), permission(0)),
        clear(insert_text(b), permission(1)),
        clear(insert_text(b), permission(2)),
{
    reveal_strlit("sort=\"0\"");
    reveal_strlit("autoFilter=\"0\"");
    reveal_strlit("formatCells=\"0\"");
    reveal_strlit(
        " insertRows=\"1\" insertColumns=\"1\" deleteRows=\"1\" deleteColumns=\"1\"",
    );
    let a = insert_text(b);
    assert forall|p: int| 0 <= p < a.len() implies #[trigger] unlike(a, permission(0), p) by {
        if a[p] == 's' {
            assert(a[p + 1] != permission(0)[1]);
        } else {
            assert(a[p + 0] != permission(0)[0]);
        }
    }
    clear_without(a, permission(1));
    clear_without(a, permission(2));
}

/// The permissions are read as they were written.
proof fn permissions_back(p: SheetProtection)
    ensures
        occurs(guard_attrs(p), "sheet=\"1\""@),
        occurs(guard_attrs(p), permission(0)) == (p.allow_sort == Some(true)),
        occurs(guard_attrs(p), permission(1)) == (p.allow_filter == Some(true)),
        occurs(guard_attrs(p), permission(2)) == (p.allow_format_cells == Some(true)),
{
    let h = "sheet=\"1\" objects=\"1\" scenarios=\"1\""@;
    let a = sort_text(p.allow_sort == Some(true));
    let b = filter_text(p.allow_filter == Some(true));
    let c = format_text(p.allow_format_cells == Some(true));
    let d = insert_text(p.allow_insert_delete != Some(true));
    let t = guard_attrs(p);
    reveal_strlit(" ");
    assert(t == h + a + b + c + d);
    // the sheet itself
    reveal_strlit("sheet=\"1\"");
    reveal_strlit(" objects=\"1\" scenarios=\"1\"");
    reveal_strlit("sheet=\"1\" objects=\"1\" scenarios=\"1\"");
    let e = Seq::<char>::empty();
    let w = " objects=\"1\" scenarios=\"1\""@;
    assert(h == "sheet=\"1\""@ + w);
    found_inside(e, "sheet=\"1\""@, w + a + b + c + d);
    assert(t == e + "sheet=\"1\""@ + (w + a + b + c + d));
    permission_literals();
    filter_literals();
    format_literals();
    insert_literals(p.allow_insert_delete != Some(true));
    reveal_strlit("sort=\"0\"");
    reveal_strlit("autoFilter=\"0\"");
    reveal_strlit("formatCells=\"0\"");
    reveal_strlit(" sort=\"0\"");
    reveal_strlit(" autoFilter=\"0\"");
    reveal_strlit(" formatCells=\"0\"");
    assert(" sort=\"0\""@ == " "@ + permission(0));
    assert(" autoFilter=\"0\""@ == " "@ + permission(1));
    assert(" formatCells=\"0\""@ == " "@ + permission(2));
    if p.allow_sort == Some(true) {
        found_inside(h + " "@, permission(0), b + c + d);
        assert(t == (h + " "@) + permission(0) + (b + c + d));
    } else {
        clear_join(h, a, permission(0));
        clear_join(h + a, b, permission(0));
        clear_join(h + a + b, c, permission(0));
        clear_join(h + a + b + c, d, permission(0));
        not_inside(t, permission(0));
    }
    if p.allow_filter == Some(true) {
        found_inside(h + a + " "@, permission(1), c + d);
        assert(t == (h + a + " "@) + permission(1) + (c + d));
    } else {
        clear_join(h, a, permission(1));
        clear_join(h + a, b, permission(1));
        clear_join(h + a + b, c, permission(1));
        clear_join(h + a + b + c, d, permission(1));
        not_inside(t, permission(1));
    }
    if p.allow_format_cells == Some(true) {
        found_inside(h + a + b + " "@, permission(2), d);
        assert(t == (h + a + b + " "@) + permission(2) + d);
    } else {
        clear_join(h, a, permission(2));
        clear_join(h + a, b, permission(2));
        clear_join(h + a + b, c, permission(2));
        clear_join(h + a + b + c, d, permission(2));
        not_inside(t, permission(2));
    }
}

proof fn guard_bare(p: SheetProtection)
    ensures
        without(guard_attrs(p), '<'),
        without(guard_attrs(p), '>'),
        without(guard_attrs(p), '/'),
        guard_attrs(p).len() > 0,
        guard_attrs(p)[0] == 's',
{
    reveal_strlit("sheet=\"1\" objects=\"1\" scenarios=\"1\"");
    reveal_strlit(" sort=\"0\"");
    reveal_strlit(" sort=\"1\"");
    reveal_strlit(" autoFilter=\"0\"");
    reveal_strlit(" autoFilter=\"1\"");
    reveal_strlit(" formatCells=\"0\"");
    reveal_strlit(" formatCells=\"1\"");
    reveal_strlit(
        " insertRows=\"1\" insertColumns=\"1\" deleteRows=\"1\" deleteColumns=\"1\"",
    );
    let h = "sheet=\"1\" objects=\"1\" scenarios=\"1\""@;
    let a = sort_text(p.allow_sort == Some(true));
    let b = filter_text(p.allow_filter == Some(true));
    let c = format_text(p.allow_format_cells == Some(true));
    let d = insert_text(p.allow_insert_delete != Some(true));
    bare_five(h, a, b, c, d, '<');
    bare_five(h, a, b, c, d, '>');
    bare_five(h, a, b, c, d, '/');
    assert(guard_attrs(p)[0] == h[0]);
}

proof fn bare_five(
    h: Seq<char>,
    a: Seq<char>,
    b: Seq<char>,
    c: Seq<char>,
    d: Seq<char>,
    x: char,
)
    requires
        without(h, x),
        without(a, x),
        without(b, x),
        without(c, x),
        without(d, x),
    ensures
        without(h + a + b + c + d, x),
{
    without_join(h, a, x);
    without_join(h + a, b, x);
    without_join(h + a + b, c, x);
    without_join(h + a + b + c, d, x);
}

pub proof fn guard_quiet(p: Option<SheetProtection>)
    ensures
        quiet(protection_text(p), 5),
        !guarded(p) ==> quiet(protection_text(p), -1),
{
    if guarded(p) {
        let x = p->0;
        guard_form(x);
        guard_bare(x);
        reveal_strlit("<sheetProtection");
        reveal_strlit(" ");
        reveal_strlit("/>");
        tag_quiet("<sheetProtection"@, 5);
        let t = " "@ + guard_attrs(x) + "/>"@;
        without_join(" "@, guard_attrs(x), '<');
        without_join(" "@ + guard_attrs(x), "/>"@, '<');
        bare_quiet(t, 5);
        quiet_join("<sheetProtection"@, t, 5);
    } else {
        bare_quiet(protection_text(p), 5);
        bare_quiet(protection_text(p), -1);
    }
}

/// A sheet's protection comes back.
pub proof fn guard_back(p: Option<SheetProtection>, a: Seq<char>, b: Seq<char>)
    requires
        clear(a, mark(5)),
        guarded(p) || clear(a + protection_text(p) + b, mark(5)),
    ensures
        protection_read(a + protection_text(p) + b) == protection_back(p),
{
    let xml = a + protection_text(p) + b;
    if guarded(p) {
        let x = p->0;
        guard_form(x);
        guard_bare(x);
        permissions_back(x);
        reveal_strlit("<sheetProtection");
        let attrs = guard_attrs(x);
        open_found(a, "<sheetProtection"@, attrs, b);
        assert(xml == a + ("<sheetProtection"@ + (" "@ + attrs + "/>"@ + b)));
    } else {
        open_missing(xml, "<sheetProtection"@);
    }
}

// ---- columns, rows and merged cells in their elements

pub proof fn cols_quiet(s: SheetSnapshot)
    requires
        sizes_valid(s.col_widths@),
        s.col_outlines@.len() <= u32::MAX,
        forall|i: int| 0 <= i < listed_cols(s).len() ==> #[trigger] listed_cols(s)[i] < u32::MAX,
    ensures
        quiet(cols_xml(s), 3),
        listed_cols(s).len() == 0 ==> quiet(cols_xml(s), -1),
{
    if listed_cols(s).len() > 0 {
        let l = col_list_xml(s, listed_cols(s));
        cols_come_back(s, 0, listed_cols(s));
        reveal_strlit("<cols>");
        reveal_strlit("</cols>");
        reveal_strlit("<col ");
        marks();
        tag_quiet("<cols>"@, 3);
        assert(led("</cols>"@));
        led_quiet("</cols>"@, 3);
        tag_quiet("<col "@, 3);
        assert forall|k: int| 0 <= k < 8 && k != 3 implies clear(l, #[trigger] mark(k)) by {
            assert(clear("<col "@, mark(k)));
        }
        quiet_join("<cols>"@, l, 3);
        quiet_join("<cols>"@ + l, "</cols>"@, 3);
    } else {
        bare_quiet(cols_xml(s), 3);
        bare_quiet(cols_xml(s), -1);
    }
}

/// Columns come back.
pub proof fn sheet_cols_back(s: SheetSnapshot, max_col: u32, a: Seq<char>, b: Seq<char>)
    requires
        sizes_valid(s.col_widths@),
        s.col_outlines@.len() <= u32::MAX,
        forall|i: int| 0 <= i < listed_cols(s).len() ==> #[trigger] listed_cols(s)[i] < u32::MAX,
        clear(a, mark(3)),
        listed_cols(s).len() > 0 || clear(a + cols_xml(s) + b, mark(3)),
    ensures
        sheet_cols(a + cols_xml(s) + b, max_col) == Some(cols_back(s, max_col, listed_cols(s))),
{
    let xml = a + cols_xml(s) + b;
    let list = listed_cols(s);
    reveal_strlit("<");
    reveal_strlit("</");
    reveal_strlit(">");
    reveal_strlit("cols");
    reveal_strlit("<cols");
    reveal_strlit("<cols>");
    reveal_strlit("</cols>");
    assert("<"@ + "cols"@ == "<cols"@);
    assert("</"@ + "cols"@ + ">"@ == "</cols>"@);
    if list.len() > 0 {
        let l = col_list_xml(s, list);
        cols_come_back(s, max_col, list);
        reveal_strlit("<col ");
        lit_apart("<col "@, "</cols>"@);
        assert(clear(l, "</cols>"@));
        let e = Seq::<char>::empty();
        element_found(a, "<cols"@, e, l, "</cols>"@, b);
        assert("<cols>"@ == "<cols"@ + ">"@);
        assert(xml == a + "<cols"@ + e + ">"@ + l + "</cols>"@ + b);
        short_whole(l, "<col"@, crate::column_law::col_tags(s, list));
    } else {
        element_missing(xml, "<cols"@, "</cols>"@);
        assert(crate::column_law::col_tags(s, list) == Seq::<Seq<char>>::empty());
        cols_come_back(s, max_col, list);
    }
}

pub open spec fn data_text(rows: Seq<char>) -> Seq<char> {
    "<sheetData>"@ + rows + "</sheetData>"@
}

pub proof fn data_quiet(
    s: SheetSnapshot,
    cells: Seq<CellSnapshot>,
    styles: Seq<NamedStyle>,
    sh: Shared,
    list: Seq<u32>,
)
    requires
        cells_valid(cells),
        sizes_valid(s.row_heights@),
        s.row_outlines@.len() <= u32::MAX,
        forall|i: int| 0 <= i < list.len() ==> #[trigger] list[i] < u32::MAX,
    ensures
        quiet(data_text(row_list_xml(s, cells, write_cells(cells, styles, sh).0, list)), 4),
{
    let rows = row_list_xml(s, cells, write_cells(cells, styles, sh).0, list);
    marks();
    reveal_strlit("<sheetData>");
    reveal_strlit("</sheetData>");
    tag_quiet("<sheetData>"@, 4);
    assert(led("</sheetData>"@));
    led_quiet("</sheetData>"@, 4);
    assert forall|k: int| 0 <= k < 8 && k != 4 implies clear(rows, #[trigger] mark(k)) by {
        strange_if(mark(k));
        rows_clear(s, cells, styles, sh, list, mark(k));
    }
    quiet_join("<sheetData>"@, rows, 4);
    quiet_join("<sheetData>"@ + rows, "</sheetData>"@, 4);
}

/// The rows of a sheet stand where they are looked for.
pub proof fn data_back(rows: Seq<char>, a: Seq<char>, b: Seq<char>)
    requires
        clear(a, mark(4)),
        clear(rows, "</sheetData>"@),
    ensures
        block_opt(a + data_text(rows) + b, "sheetData"@) == Some(rows),
{
    let xml = a + data_text(rows) + b;
    reveal_strlit("<");
    reveal_strlit("</");
    reveal_strlit(">");
    reveal_strlit("sheetData");
    reveal_strlit("<sheetData");
    reveal_strlit("<sheetData>");
    reveal_strlit("</sheetData>");
    assert("<"@ + "sheetData"@ == "<sheetData"@);
    assert("</"@ + "sheetData"@ + ">"@ == "</sheetData>"@);
    assert("<sheetData>"@ == "<sheetData"@ + ">"@);
    let e = Seq::<char>::empty();
    element_found(a, "<sheetData"@, e, rows, "</sheetData>"@, b);
    assert(xml == a + "<sheetData"@ + e + ">"@ + rows + "</sheetData>"@ + b);
}

pub proof fn merges_quiet(spans: Seq<Span>)
    requires
        spans_valid(spans),
    ensures
        quiet(merges_text(spans), 6),
        spans.len() == 0 ==> quiet(merges_text(spans), -1),
{
    if spans.len() > 0 {
        let l = merge_list(spans);
        spans_come_back(spans, 0, 0);
        dec_is_plain(spans.len());
        plain_is_bare(dec(spans.len()));
        reveal_strlit("<mergeCells count=\"");
        reveal_strlit("\">");
        reveal_strlit("</mergeCells>");
        reveal_strlit("<mergeCell ");
        marks();
        let h = "<mergeCells count=\""@;
        let n = dec(spans.len());
        tag_quiet(h, 6);
        bare_quiet(n, 6);
        bare_quiet("\">"@, 6);
        assert(led("</mergeCells>"@));
        led_quiet("</mergeCells>"@, 6);
        tag_quiet("<mergeCell "@, 6);
        assert forall|k: int| 0 <= k < 8 && k != 6 implies clear(l, #[trigger] mark(k)) by {
            assert(clear("<mergeCell "@, mark(k)));
        }
        quiet_join(h, n, 6);
        quiet_join(h + n, "\">"@, 6);
        quiet_join(h + n + "\">"@, l, 6);
        quiet_join(h + n + "\">"@ + l, "</mergeCells>"@, 6);
    } else {
        bare_quiet(merges_text(spans), 6);
        bare_quiet(merges_text(spans), -1);
    }
}

/// Merged cells come back.
pub proof fn sheet_merges_back(
    spans: Seq<Span>,
    max_row: u32,
    max_col: u32,
    a: Seq<char>,
    b: Seq<char>,
)
    requires
        spans_valid(spans),
        clear(a, mark(6)),
        spans.len() > 0 || clear(a + merges_text(spans) + b, mark(6)),
    ensures
        sheet_merges(a + merges_text(spans) + b, max_row, max_col) == Some(
            MergesRead {
                spans: spans_back(spans),
                max_row: spans_row(spans, max_row),
                max_col: spans_col(spans, max_col),
            },
        ),
{
    let xml = a + merges_text(spans) + b;
    reveal_strlit("<");
    reveal_strlit("</");
    reveal_strlit(">");
    reveal_strlit("mergeCells");
    reveal_strlit("<mergeCells");
    reveal_strlit("</mergeCells>");
    assert("<"@ + "mergeCells"@ == "<mergeCells"@);
    assert("</"@ + "mergeCells"@ + ">"@ == "</mergeCells>"@);
    if spans.len() > 0 {
        let l = merge_list(spans);
        spans_come_back(spans, max_row, max_col);
        let n = dec(spans.len());
        dec_is_plain(spans.len());
        plain_is_bare(n);
        reveal_strlit("<mergeCells count=\"");
        reveal_strlit(" count=\"");
        reveal_strlit("\">");
        reveal_strlit("\"");
        reveal_strlit("<mergeCell ");
        lit_apart("<mergeCell "@, "</mergeCells>"@);
        assert(clear(l, "</mergeCells>"@));
        let c = " count=\""@ + n + "\""@;
        without_join(" count=\""@, n, '>');
        without_join(" count=\""@ + n, "\""@, '>');
        element_found(a, "<mergeCells"@, c, l, "</mergeCells>"@, b);
        assert("<mergeCells"@ + " count=\""@ == "<mergeCells count=\""@);
        assert("\""@ + ">"@ == "\">"@);
        assert(merges_text(spans) == "<mergeCells count=\""@ + n + "\">"@ + l + "</mergeCells>"@);
        assert(a + (("<mergeCells"@ + " count=\""@) + n + ("\""@ + ">"@) + l + "</mergeCells>"@) + b == a
            + "<mergeCells"@ + c + ">"@ + l + "</mergeCells>"@ + b);
        refs_whole(l, "<mergeCell"@, "ref=\""@, span_refs(spans));
    } else {
        element_missing(xml, "<mergeCells"@, "</mergeCells>"@);
        assert(spans_back(spans) == Seq::<Span>::empty());
    }
}

} // verus!
