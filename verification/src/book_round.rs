//! The list of a workbook's sheets, read back as it was written, and the law on workbooks.
use crate::archive::{holds_parts, named_part, unpacks_what_was_packed};
use crate::book_law::{fixed_parts_found, shared_before, shared_by, sheet_at, sheet_part_found};
use crate::cell_law::{dec_is_plain, escaped_is_bare, lit_clear, plain, plain_is_bare};
use crate::decimal::{dec, parse_unsigned_dec};
use crate::find_law::{
    attr_found, captures_skip, clear, clear_join, clear_without, holds_short, key_first,
    key_missing, key_of, short_join, short_none, short_one, short_rest, short_whole, tag_starts,
    tag_stop_past, tag_stop_shift, unlike, without, without_join,
};
use crate::row_law::countable;
use crate::page_law::page_back;
use crate::round_trip::{sheet_back, sheet_comes_back, sheet_counts, sheet_valid};
use crate::scan::{at, first_key_in_tag, short_tag, short_tags};
use crate::snapshot::{SheetSnapshot, WorkbookSnapshot};
use crate::strings_law::strings_round_trip;
use crate::style::StyleView;
use crate::text::{is_white, opt};
use crate::xlsx::book_styles;
use crate::xlsx_book::{
    active_sheet, book_parts, frozen_in, has_charts, sheet_entries, sheet_part_name, sheet_rels,
    sheet_title, workbook_rels_text, workbook_text, write_sheets,
};
use crate::xlsx_read::{
    active_read, book_frozen, book_of, book_read, sheet_name_read, sheet_read, sheet_target,
    sheets_read, Book, BookView, SheetView,
};
use crate::xlsx_style::{styles_xml, xml_decl};
use crate::xlsx_styles_read::xfs_read;
use crate::xml::{esc_text, escape_round_trip, Escape};
use vstd::prelude::*;

verus! {

// ---- texts without a tag that closes itself

/// Whether at every place of a text no tag starts, or one of a longer name does.
pub open spec fn tagless(s: Seq<char>, open_tag: Seq<char>) -> bool {
    forall|p: int|
        0 <= p < s.len() ==> #[trigger] unlike(s, open_tag, p) || (p + open_tag.len() < s.len()
            && !is_white(s[p + open_tag.len()]))
}

pub proof fn short_tagless(s: Seq<char>, open_tag: Seq<char>)
    requires
        tagless(s, open_tag),
    ensures
        holds_short(s, open_tag, Seq::empty()),
{
    assert forall|b: Seq<char>| #[trigger]
        short_tags(s + b, open_tag) == Seq::<Seq<char>>::empty() + short_tags(b, open_tag) by {
        let t = s + b;
        let f = |i: int| short_tag(t, open_tag, i);
        assert forall|k: int| 0 <= k < s.len() implies (#[trigger] f(k)) is None by {
            if unlike(s, open_tag, k) {
                let j = choose|j: int|
                    0 <= j < open_tag.len() && k + j < s.len() && s[k + j] != #[trigger] open_tag[j];
                if at(t, open_tag, k) {
                    assert(t.subrange(k, k + open_tag.len())[j] == open_tag[j]);
                    assert(t[k + j] == s[k + j]);
                }
            } else {
                assert(t[k + open_tag.len()] == s[k + open_tag.len()]);
            }
        }
        captures_skip(t, f, 0, s.len() as int);
        short_rest(s, b, open_tag);
    }
}

/// A tag whose attributes hold a `/` is none that closes itself.
pub proof fn short_slash(open_tag: Seq<char>, x: Seq<char>, rest: Seq<char>)
    requires
        open_tag.len() > 1,
        open_tag[0] == '<',
        forall|i: int| 1 <= i < open_tag.len() ==> #[trigger] open_tag[i] != '<',
        x.len() > 0,
        !is_white(x[0]),
        without(x, '/'),
        without(x, '>'),
        without(x, '<'),
        without(rest, '<'),
        rest.len() > 1,
        rest[0] == '/',
        rest[1] == '/',
    ensures
        holds_short(open_tag + " "@ + x + rest, open_tag, Seq::empty()),
{
    reveal_strlit(" ");
    let s = open_tag + " "@ + x + rest;
    assert forall|b: Seq<char>| #[trigger]
        short_tags(s + b, open_tag) == Seq::<Seq<char>>::empty() + short_tags(b, open_tag) by {
        let t = s + b;
        let f = |i: int| short_tag(t, open_tag, i);
        let behind = " "@ + x + rest + b;
        assert(t == open_tag + behind);
        assert(behind[1] == x[0]);
        tag_starts(open_tag, behind);
        let head = open_tag + " "@;
        let tail = rest + b;
        assert(t == head + (x + tail));
        tag_stop_shift(head, x + tail, 0);
        tag_stop_past(x, tail, 0);
        let g = (head.len() + x.len()) as int;
        assert(t[g] == tail[0]);
        assert(t[g + 1] == tail[1]);
        assert(f(0) is None);
        assert forall|k: int| 0 <= k < s.len() implies (#[trigger] f(k)) is None by {
            if k > 0 {
                assert(t[k] == s[k]);
                if k < open_tag.len() {
                    assert(s[k] == open_tag[k]);
                } else if k > open_tag.len() {
                    if k < g {
                        assert(s[k] == x[k - head.len()]);
                    } else {
                        assert(s[k] == rest[k - g]);
                    }
                }
                assert(t[k] != '<');
                if at(t, open_tag, k) {
                    assert(t.subrange(k, k + open_tag.len())[0] == open_tag[0]);
                }
            }
        }
        captures_skip(t, f, 0, s.len() as int);
        short_rest(s, b, open_tag);
    }
}

// ---- relations

/// The addresses of relations hold `/`.
proof fn one_rel(n: nat, rest: Seq<char>)
    requires
        without(rest, '<'),
        rest.len() > 1,
        rest[0] == '/',
        rest[1] == '/',
    ensures
        holds_short(
            "<Relationship Id=\"rId"@ + dec(n) + "\" Type=\"http:"@ + rest,
            "<Relationship"@,
            Seq::empty(),
        ),
{
    dec_is_plain(n);
    plain_is_bare(dec(n));
    reveal_strlit("<Relationship Id=\"rId");
    reveal_strlit("<Relationship");
    reveal_strlit(" ");
    reveal_strlit("Id=\"rId");
    reveal_strlit("\" Type=\"http:");
    let i = "Id=\"rId"@;
    let t = "\" Type=\"http:"@;
    let x = i + dec(n) + t;
    without_join(i, dec(n), '/');
    without_join(i + dec(n), t, '/');
    without_join(i, dec(n), '>');
    without_join(i + dec(n), t, '>');
    without_join(i, dec(n), '<');
    without_join(i + dec(n), t, '<');
    assert(x[0] == 'I');
    short_slash("<Relationship"@, x, rest);
    assert("<Relationship"@ + " "@ + i == "<Relationship Id=\"rId"@);
    assert("<Relationship"@ + " "@ + x + rest == ("<Relationship"@ + " "@ + i) + dec(n) + t + rest);
}

proof fn sheet_rel_text(n: nat)
    ensures
        ({
            let rest =
                "//schemas.openxmlformats.org/officeDocument/2006/relationships/worksheet\" Target=\"worksheets/sheet"@
                + dec(n) + ".xml\"/>"@;
            &&& without(rest, '<')
            &&& rest.len() > 1
            &&& rest[0] == '/'
            &&& rest[1] == '/'
            &&& "<Relationship Id=\"rId"@ + dec(n)
                + "\" Type=\"http://schemas.openxmlformats.org/officeDocument/2006/relationships/worksheet\" Target=\"worksheets/sheet"@
                + dec(n) + ".xml\"/>"@ == "<Relationship Id=\"rId"@ + dec(n) + "\" Type=\"http:"@ + rest
        }),
{
    dec_is_plain(n);
    plain_is_bare(dec(n));
    let u = "//schemas.openxmlformats.org/officeDocument/2006/relationships/worksheet\" Target=\"worksheets/sheet"@;
    let full =
        "\" Type=\"http://schemas.openxmlformats.org/officeDocument/2006/relationships/worksheet\" Target=\"worksheets/sheet"@;
    let e = ".xml\"/>"@;
    reveal_strlit(
        "//schemas.openxmlformats.org/officeDocument/2006/relationships/worksheet\" Target=\"worksheets/sheet",
    );
    reveal_strlit(
        "\" Type=\"http://schemas.openxmlformats.org/officeDocument/2006/relationships/worksheet\" Target=\"worksheets/sheet",
    );
    reveal_strlit("\" Type=\"http:");
    reveal_strlit(".xml\"/>");
    assert(full == "\" Type=\"http:"@ + u);
    let h = "<Relationship Id=\"rId"@ + dec(n);
    assert(h + ("\" Type=\"http:"@ + u) + dec(n) + e == h + "\" Type=\"http:"@ + (u + dec(n) + e));
    without_join(u, dec(n), '<');
    without_join(u + dec(n), e, '<');
}

proof fn sheet_rels_empty(n: nat)
    ensures
        holds_short(sheet_rels(n), "<Relationship"@, Seq::empty()),
    decreases n,
{
    if n == 0 {
        let e = Seq::<char>::empty();
        reveal_strlit("<Relationship");
        clear_without(e, "<Relationship"@);
        short_none(e, "<Relationship"@);
    } else {
        sheet_rels_empty((n - 1) as nat);
        sheet_rel_text(n);
        let rest =
            "//schemas.openxmlformats.org/officeDocument/2006/relationships/worksheet\" Target=\"worksheets/sheet"@
            + dec(n) + ".xml\"/>"@;
        one_rel(n, rest);
        let one = "<Relationship Id=\"rId"@ + dec(n) + "\" Type=\"http:"@ + rest;
        let p = sheet_rels((n - 1) as nat);
        let e = Seq::<Seq<char>>::empty();
        short_join(p, one, "<Relationship"@, e, e);
        assert(e + e == e);
        let full =
            "\" Type=\"http://schemas.openxmlformats.org/officeDocument/2006/relationships/worksheet\" Target=\"worksheets/sheet"@;
        let h = "<Relationship Id=\"rId"@;
        assert(p + h + dec(n) + full + dec(n) + ".xml\"/>"@ == p + (h + dec(n) + full + dec(n)
            + ".xml\"/>"@));
    }
}

proof fn last_rel_texts()
    ensures
        ({
            let a =
                "//schemas.openxmlformats.org/officeDocument/2006/relationships/styles\" Target=\"styles.xml\"/>"@;
            let b =
                "//schemas.openxmlformats.org/officeDocument/2006/relationships/sharedStrings\" Target=\"sharedStrings.xml\"/>"@;
            &&& without(a, '<')
            &&& a.len() > 1
            &&& a[0] == '/'
            &&& a[1] == '/'
            &&& without(b, '<')
            &&& b.len() > 1
            &&& b[0] == '/'
            &&& b[1] == '/'
            &&& "\" Type=\"http://schemas.openxmlformats.org/officeDocument/2006/relationships/styles\" Target=\"styles.xml\"/><Relationship Id=\"rId"@
                == "\" Type=\"http:"@ + a + "<Relationship Id=\"rId"@
            &&& "\" Type=\"http://schemas.openxmlformats.org/officeDocument/2006/relationships/sharedStrings\" Target=\"sharedStrings.xml\"/></Relationships>"@
                == "\" Type=\"http:"@ + b + "</Relationships>"@
        }),
{
    reveal_strlit(
        "//schemas.openxmlformats.org/officeDocument/2006/relationships/styles\" Target=\"styles.xml\"/>",
    );
    reveal_strlit(
        "//schemas.openxmlformats.org/officeDocument/2006/relationships/sharedStrings\" Target=\"sharedStrings.xml\"/>",
    );
    reveal_strlit("\" Type=\"http:");
    reveal_strlit("<Relationship Id=\"rId");
    reveal_strlit("</Relationships>");
    reveal_strlit(
        "\" Type=\"http://schemas.openxmlformats.org/officeDocument/2006/relationships/styles\" Target=\"styles.xml\"/><Relationship Id=\"rId",
    );
    reveal_strlit(
        "\" Type=\"http://schemas.openxmlformats.org/officeDocument/2006/relationships/sharedStrings\" Target=\"sharedStrings.xml\"/></Relationships>",
    );
}

proof fn rels_ends()
    ensures
        holds_short(
            xml_decl()
                + "<Relationships xmlns=\"http://schemas.openxmlformats.org/package/2006/relationships\">"@,
            "<Relationship"@,
            Seq::empty(),
        ),
        holds_short("</Relationships>"@, "<Relationship"@, Seq::empty()),
{
    let o = "<Relationship"@;
    let d = xml_decl();
    let r = "<Relationships xmlns=\"http://schemas.openxmlformats.org/package/2006/relationships\">"@;
    let z = "</Relationships>"@;
    reveal_strlit("<Relationship");
    reveal_strlit("<?xml version=\"1.0\" encoding=\"UTF-8\" standalone=\"yes\"?>\n");
    reveal_strlit("<Relationships xmlns=\"http://schemas.openxmlformats.org/package/2006/relationships\">");
    reveal_strlit("</Relationships>");
    lit_clear(d, o, 1);
    lit_clear(z, o, 1);
    short_none(d, o);
    short_none(z, o);
    assert(tagless(r, o)) by {
        assert forall|p: int| 0 <= p < r.len() implies #[trigger] unlike(r, o, p) || (p + o.len()
            < r.len() && !is_white(r[p + o.len()])) by {
            if p == 0 {
                assert(r[13] == 's');
            } else {
                assert(r[p + 0] != o[0]);
            }
        }
    }
    short_tagless(r, o);
    let e = Seq::<Seq<char>>::empty();
    short_join(d, r, o, e, e);
    assert(e + e == e);
}

/// The relations of a workbook to its sheets are not among those that are looked through: their
/// kinds are addresses.
proof fn rels_back(n: nat)
    ensures
        short_tags(workbook_rels_text(n), "<Relationship"@) == Seq::<Seq<char>>::empty(),
{
    let o = "<Relationship"@;
    let e = Seq::<Seq<char>>::empty();
    let a =
        "//schemas.openxmlformats.org/officeDocument/2006/relationships/styles\" Target=\"styles.xml\"/>"@;
    let b =
        "//schemas.openxmlformats.org/officeDocument/2006/relationships/sharedStrings\" Target=\"sharedStrings.xml\"/>"@;
    let d = xml_decl()
        + "<Relationships xmlns=\"http://schemas.openxmlformats.org/package/2006/relationships\">"@;
    let h = "<Relationship Id=\"rId"@;
    let t = "\" Type=\"http:"@;
    let z = "</Relationships>"@;
    last_rel_texts();
    rels_ends();
    sheet_rels_empty(n);
    one_rel(n + 1, a);
    one_rel(n + 2, b);
    let p = h + dec(n + 1) + t + a;
    let q = h + dec(n + 2) + t + b;
    assert(e + e == e);
    short_join(d, sheet_rels(n), o, e, e);
    short_join(d + sheet_rels(n), p, o, e, e);
    short_join(d + sheet_rels(n) + p, q, o, e, e);
    short_join(d + sheet_rels(n) + p + q, z, o, e, e);
    let xml = workbook_rels_text(n);
    rels_joined(d, sheet_rels(n), h, dec(n + 1), t, a, dec(n + 2), b, z);
    assert(xml == d + sheet_rels(n) + p + q + z);
    short_whole(xml, o, e);
}

proof fn rels_joined(
    d: Seq<char>,
    s: Seq<char>,
    h: Seq<char>,
    m: Seq<char>,
    t: Seq<char>,
    a: Seq<char>,
    n: Seq<char>,
    b: Seq<char>,
    z: Seq<char>,
)
    ensures
        d + s + h + m + (t + a + h) + n + (t + b + z) == d + s + (h + m + t + a) + (h + n + t + b) + z,
{
}

// ---- the list of sheets

/// The attributes of a sheet in the list.
pub open spec fn entry_attrs(s: SheetSnapshot, n: nat) -> Seq<char> {
    key_of("name"@) + esc_text(sheet_title(s, n - 1), Escape::Full) + "\""@ + (" sheetId=\""@ + dec(n)
        + "\" r:id=\"rId"@ + dec(n) + "\""@)
}

/// The attributes of the first `n` sheets in the list.
pub open spec fn entry_tags(sheets: Seq<SheetSnapshot>, n: nat) -> Seq<Seq<char>> {
    Seq::new(n, |i: int| entry_attrs(sheets[i], (i + 1) as nat))
}

/// Whether the names of sheets hold no `/`.
pub open spec fn titles_valid(sheets: Seq<SheetSnapshot>) -> bool {
    forall|i: int| 0 <= i < sheets.len() ==> without(#[trigger] sheets[i].name@, '/')
}

pub proof fn escaped_without_slash(s: Seq<char>)
    requires
        without(s, '/'),
    ensures
        without(esc_text(s, Escape::Full), '/'),
    decreases s.len(),
{
    if s.len() > 0 {
        let p = s.drop_last();
        assert forall|i: int| 0 <= i < p.len() implies #[trigger] p[i] != '/' by {
            assert(p[i] == s[i]);
        }
        escaped_without_slash(p);
        reveal_strlit("&amp;");
        reveal_strlit("&lt;");
        reveal_strlit("&gt;");
        reveal_strlit("&quot;");
        reveal_strlit("&apos;");
        assert(s[s.len() - 1] != '/');
    }
}

proof fn title_without_slash(s: SheetSnapshot, i: int)
    requires
        0 <= i,
        without(s.name@, '/'),
    ensures
        without(sheet_title(s, i), '/'),
{
    reveal_strlit("Sheet");
    dec_is_plain((i + 1) as nat);
    plain_is_bare(dec((i + 1) as nat));
    without_join("Sheet"@, dec((i + 1) as nat), '/');
}

proof fn entry_back(s: SheetSnapshot, n: nat)
    requires
        n > 0,
        without(s.name@, '/'),
    ensures
        holds_short(
            "<sheet"@ + " "@ + entry_attrs(s, n) + "/>"@,
            "<sheet"@,
            seq![entry_attrs(s, n)],
        ),
        sheet_name_read(entry_attrs(s, n), n) == sheet_title(s, n - 1),
        without(entry_attrs(s, n), '<'),
        without(entry_attrs(s, n), '>'),
{
    let title = sheet_title(s, n - 1);
    let x = esc_text(title, Escape::Full);
    title_without_slash(s, n - 1);
    escaped_without_slash(title);
    escaped_is_bare(title);
    escape_round_trip(title);
    dec_is_plain(n);
    plain_is_bare(dec(n));
    reveal_strlit("name");
    reveal_strlit("=\"");
    reveal_strlit("\"");
    reveal_strlit(" sheetId=\"");
    reveal_strlit("\" r:id=\"rId");
    reveal_strlit("<sheet");
    let a = " sheetId=\""@;
    let b = "\" r:id=\"rId"@;
    let q = "\""@;
    let d = dec(n);
    let tail = a + d + b + d + q;
    tail_without(a, d, b, q, '/');
    tail_without(a, d, b, q, '<');
    tail_without(a, d, b, q, '>');
    let k = key_of("name"@);
    let attrs = entry_attrs(s, n);
    entry_without(k, x, q, tail, '/');
    entry_without(k, x, q, tail, '<');
    entry_without(k, x, q, tail, '>');
    assert(attrs[0] == k[0]);
    short_one("<sheet"@, attrs);
    let e = Seq::<char>::empty();
    clear_without(e, k);
    attr_found(e, "name"@, x, tail);
    assert(attrs == e + k + x + q + tail);
}

proof fn tail_without(a: Seq<char>, d: Seq<char>, b: Seq<char>, q: Seq<char>, c: char)
    requires
        without(a, c),
        without(b, c),
        without(d, c),
        without(q, c),
    ensures
        without(a + d + b + d + q, c),
{
    without_join(a, d, c);
    without_join(a + d, b, c);
    without_join(a + d + b, d, c);
    without_join(a + d + b + d, q, c);
}

proof fn entry_without(k: Seq<char>, x: Seq<char>, q: Seq<char>, t: Seq<char>, c: char)
    requires
        without(k, c),
        without(x, c),
        without(q, c),
        without(t, c),
    ensures
        without(k + x + q + t, c),
{
    without_join(k, x, c);
    without_join(k + x, q, c);
    without_join(k + x + q, t, c);
}

proof fn entry_form(s: SheetSnapshot, n: nat, p: Seq<char>)
    ensures
        p + "<sheet name=\""@ + esc_text(sheet_title(s, n - 1), Escape::Full) + "\" sheetId=\""@ + dec(n)
            + "\" r:id=\"rId"@ + dec(n) + "\"/>"@ == p + ("<sheet"@ + " "@ + entry_attrs(s, n) + "/>"@),
{
    reveal_strlit("<sheet name=\"");
    reveal_strlit("<sheet");
    reveal_strlit(" ");
    reveal_strlit("name");
    reveal_strlit("=\"");
    reveal_strlit("\"");
    reveal_strlit("\" sheetId=\"");
    reveal_strlit(" sheetId=\"");
    reveal_strlit("\"/>");
    reveal_strlit("/>");
    assert("<sheet"@ + " "@ + key_of("name"@) == "<sheet name=\""@);
    assert("\""@ + " sheetId=\""@ == "\" sheetId=\""@);
    assert("\""@ + "/>"@ == "\"/>"@);
    let x = esc_text(sheet_title(s, n - 1), Escape::Full);
    let q = "\""@;
    let r = "\" r:id=\"rId"@;
    let hd = "<sheet"@ + " "@;
    let k = key_of("name"@);
    let i = " sheetId=\""@;
    let d = dec(n);
    entry_joined(p, hd, k, x, q, i, d, r, "/>"@);
}

proof fn entry_joined(
    p: Seq<char>,
    hd: Seq<char>,
    k: Seq<char>,
    x: Seq<char>,
    q: Seq<char>,
    i: Seq<char>,
    d: Seq<char>,
    r: Seq<char>,
    e: Seq<char>,
)
    ensures
        p + (hd + k) + x + (q + i) + d + r + d + (q + e) == p + (hd + (k + x + q + (i + d + r + d + q)) + e),
{
    let t = i + d + r + d + q;
    assert(hd + (k + x + q + t) + e == (hd + k) + x + q + t + e);
    assert(q + t + e == (q + i) + d + r + d + (q + e));
    assert(p + ((hd + k) + x + (q + t + e)) == p + (hd + k) + x + (q + t + e));
}

proof fn entries_back(sheets: Seq<SheetSnapshot>, n: nat)
    requires
        n <= sheets.len(),
        titles_valid(sheets),
    ensures
        holds_short(sheet_entries(sheets, n), "<sheet"@, entry_tags(sheets, n)),
        clear(sheet_entries(sheets, n), "<workbookView"@),
    decreases n,
{
    reveal_strlit("<sheet");
    reveal_strlit("<workbookView");
    if n == 0 {
        let e = Seq::<char>::empty();
        clear_without(e, "<sheet"@);
        clear_without(e, "<workbookView"@);
        short_none(e, "<sheet"@);
        assert(entry_tags(sheets, n) == Seq::<Seq<char>>::empty());
    } else {
        let m = (n - 1) as nat;
        entries_back(sheets, m);
        let s = sheets[n - 1];
        assert(without(sheets[n - 1].name@, '/'));
        entry_back(s, n);
        let p = sheet_entries(sheets, m);
        let attrs = entry_attrs(s, n);
        let one = "<sheet"@ + " "@ + attrs + "/>"@;
        entry_form(s, n, p);
        assert(sheet_entries(sheets, n) == p + one);
        short_join(p, one, "<sheet"@, entry_tags(sheets, m), seq![attrs]);
        assert(entry_tags(sheets, n) == entry_tags(sheets, m) + seq![attrs]);
        let w = "<workbookView"@;
        reveal_strlit(" ");
        reveal_strlit("/>");
        lit_clear("<sheet"@, w, 1);
        clear_without(" "@, w);
        clear_without("/>"@, w);
        clear_without(attrs, w);
        clear_join("<sheet"@, " "@, w);
        clear_join("<sheet"@ + " "@, attrs, w);
        clear_join("<sheet"@ + " "@ + attrs, "/>"@, w);
        clear_join(p, one, w);
    }
}

/// What stands before the list of sheets.
pub open spec fn book_head(active: usize) -> Seq<char> {
    xml_decl()
        + "<workbook xmlns=\"http://schemas.openxmlformats.org/spreadsheetml/2006/main\" xmlns:r=\"http://schemas.openxmlformats.org/officeDocument/2006/relationships\">"@
        + opt(
        active > 0,
        "<bookViews><workbookView activeTab=\""@ + dec(active as nat) + "\"/></bookViews>"@,
    )
}

proof fn views_form(n: nat)
    ensures
        "<bookViews><workbookView activeTab=\""@ + dec(n) + "\"/></bookViews>"@ == "<bookViews>"@
            + "<workbookView"@ + " "@ + ("activeTab=\""@ + dec(n) + "\"/>"@) + "</bookViews>"@,
{
    reveal_strlit("<bookViews><workbookView activeTab=\"");
    reveal_strlit("<bookViews>");
    reveal_strlit("<workbookView");
    reveal_strlit(" ");
    reveal_strlit("activeTab=\"");
    reveal_strlit("\"/></bookViews>");
    reveal_strlit("\"/>");
    reveal_strlit("</bookViews>");
    assert("<bookViews>"@ + "<workbookView"@ + " "@ + "activeTab=\""@
        == "<bookViews><workbookView activeTab=\""@);
    assert("\"/>"@ + "</bookViews>"@ == "\"/></bookViews>"@);
    let h = "<bookViews>"@ + "<workbookView"@ + " "@;
    assert((h + "activeTab=\""@) + dec(n) + ("\"/>"@ + "</bookViews>"@) == h + ("activeTab=\""@ + dec(n)
        + "\"/>"@) + "</bookViews>"@);
}

proof fn head_clear(active: usize)
    ensures
        clear(book_head(active), "<sheet"@),
        active == 0 ==> clear(book_head(active), "<workbookView"@),
        clear(
            xml_decl()
                + "<workbook xmlns=\"http://schemas.openxmlformats.org/spreadsheetml/2006/main\" xmlns:r=\"http://schemas.openxmlformats.org/officeDocument/2006/relationships\">"@,
            "<workbookView"@,
        ),
{
    let o = "<sheet"@;
    let v = "<workbookView"@;
    let d = xml_decl();
    let w =
        "<workbook xmlns=\"http://schemas.openxmlformats.org/spreadsheetml/2006/main\" xmlns:r=\"http://schemas.openxmlformats.org/officeDocument/2006/relationships\">"@;
    reveal_strlit("<sheet");
    reveal_strlit("<workbookView");
    reveal_strlit("<?xml version=\"1.0\" encoding=\"UTF-8\" standalone=\"yes\"?>\n");
    reveal_strlit(
        "<workbook xmlns=\"http://schemas.openxmlformats.org/spreadsheetml/2006/main\" xmlns:r=\"http://schemas.openxmlformats.org/officeDocument/2006/relationships\">",
    );
    lit_clear(d, o, 1);
    lit_clear(d, v, 1);
    lit_clear(w, o, 1);
    lit_clear(w, v, 9);
    clear_join(d, w, o);
    clear_join(d, w, v);
    let n = active as nat;
    let x = opt(active > 0, "<bookViews><workbookView activeTab=\""@ + dec(n) + "\"/></bookViews>"@);
    if active > 0 {
        views_form(n);
        views_clear(n);
    } else {
        clear_without(x, o);
        clear_without(x, v);
        clear_join(d + w, x, v);
    }
    clear_join(d + w, x, o);
}

proof fn views_clear(n: nat)
    ensures
        clear(
            "<bookViews>"@ + "<workbookView"@ + " "@ + ("activeTab=\""@ + dec(n) + "\"/>"@)
                + "</bookViews>"@,
            "<sheet"@,
        ),
{
    let o = "<sheet"@;
    dec_is_plain(n);
    plain_is_bare(dec(n));
    reveal_strlit("<sheet");
    reveal_strlit("<bookViews>");
    reveal_strlit("<workbookView");
    reveal_strlit(" ");
    reveal_strlit("activeTab=\"");
    reveal_strlit("\"/>");
    reveal_strlit("</bookViews>");
    let a = "<bookViews>"@;
    let b = "<workbookView"@;
    let t = "activeTab=\""@ + dec(n) + "\"/>"@;
    without_join("activeTab=\""@, dec(n), '<');
    without_join("activeTab=\""@ + dec(n), "\"/>"@, '<');
    lit_clear(a, o, 1);
    lit_clear(b, o, 1);
    clear_without(" "@, o);
    clear_without(t, o);
    lit_clear("</bookViews>"@, o, 1);
    clear_join(a, b, o);
    clear_join(a + b, " "@, o);
    clear_join(a + b + " "@, t, o);
    clear_join(a + b + " "@ + t, "</bookViews>"@, o);
}

pub open spec fn book_tail() -> Seq<char> {
    "</sheets></workbook>"@
}

proof fn tail_clear()
    ensures
        clear(book_tail(), "<sheet"@),
        clear(book_tail(), "<workbookView"@),
        clear("<sheets>"@, "<workbookView"@),
        tagless("<sheets>"@, "<sheet"@),
{
    let o = "<sheet"@;
    let v = "<workbookView"@;
    reveal_strlit("<sheet");
    reveal_strlit("<workbookView");
    reveal_strlit("<sheets>");
    reveal_strlit("</sheets></workbook>");
    let z = book_tail();
    assert forall|p: int| 0 <= p < z.len() implies #[trigger] unlike(z, o, p) by {
        if z[p] == '<' {
            assert(z[p + 1] != o[1]);
        } else {
            assert(z[p + 0] != o[0]);
        }
    }
    assert forall|p: int| 0 <= p < z.len() implies #[trigger] unlike(z, v, p) by {
        if z[p] == '<' {
            assert(z[p + 1] != v[1]);
        } else {
            assert(z[p + 0] != v[0]);
        }
    }
    let s = "<sheets>"@;
    lit_clear(s, v, 1);
    assert forall|p: int| 0 <= p < s.len() implies #[trigger] unlike(s, o, p) || (p + o.len() < s.len()
        && !is_white(s[p + o.len()])) by {
        if p == 0 {
            assert(s[6] == 's');
        } else {
            assert(s[p + 0] != o[0]);
        }
    }
}

/// The list of sheets is read as it was written.
pub proof fn list_back(wb: WorkbookSnapshot)
    requires
        titles_valid(wb.sheets@),
    ensures
        short_tags(workbook_text(wb), "<sheet"@) == entry_tags(wb.sheets@, wb.sheets@.len()),
{
    let o = "<sheet"@;
    let e = Seq::<Seq<char>>::empty();
    let n = wb.sheets@.len();
    let h = book_head(active_sheet(wb));
    let m = sheet_entries(wb.sheets@, n);
    let tags = entry_tags(wb.sheets@, n);
    head_clear(active_sheet(wb));
    tail_clear();
    short_none(h, o);
    short_tagless("<sheets>"@, o);
    entries_back(wb.sheets@, n);
    short_none(book_tail(), o);
    short_join(h, "<sheets>"@, o, e, e);
    assert(e + e == e);
    short_join(h + "<sheets>"@, m, o, e, tags);
    assert(e + tags == tags);
    short_join(h + "<sheets>"@ + m, book_tail(), o, tags, e);
    assert(tags + e == tags);
    assert(workbook_text(wb) == h + "<sheets>"@ + m + book_tail());
    short_whole(workbook_text(wb), o, tags);
}

// ---- the sheet that is shown first

/// The key stands once in the tag.
proof fn key_once(v: Seq<char>)
    requires
        plain(v),
        without(v, 'a'),
    ensures
        clear("ctiveTab=\""@ + v + "\"/>"@, "activeTab=\""@),
        "activeTab=\""@ == seq!['a'] + "ctiveTab=\""@,
{
    let key = "activeTab=\""@;
    let c = "ctiveTab=\""@;
    reveal_strlit("activeTab=\"");
    reveal_strlit("ctiveTab=\"");
    reveal_strlit("\"/>");
    assert forall|p: int| 0 <= p < c.len() implies #[trigger] unlike(c, key, p) by {
        if c[p] == 'a' {
            assert(c[p + 1] != key[1]);
        } else {
            assert(c[p + 0] != key[0]);
        }
    }
    clear_without(v, key);
    clear_without("\"/>"@, key);
    clear_join(c, v, key);
    clear_join(c + v, "\"/>"@, key);
}

/// The tag of the sheet that is shown first is read as it was written.
proof fn active_tag(pre: Seq<char>, v: Seq<char>, b: Seq<char>)
    requires
        clear(pre, "<workbookView"@),
        plain(v),
        without(v, 'a'),
    ensures
        first_key_in_tag(
            pre + "<workbookView"@ + " "@ + ("activeTab=\""@ + v + "\"/>"@) + b,
            "<workbookView"@,
            "activeTab=\""@,
        ) == Some(v),
{
    let o = "<workbookView"@;
    let key = "activeTab=\""@;
    plain_is_bare(v);
    key_once(v);
    reveal_strlit("<workbookView");
    reveal_strlit("activeTab=\"");
    assert(seq![key[0]] + "ctiveTab=\""@ == key);
    key_first(pre, o, key, "ctiveTab=\""@, v, b);
    assert(pre + (o + " "@ + (key + v + "\"/>"@) + b) == pre + o + " "@ + (key + v + "\"/>"@) + b);
}

/// The place of the sheet that is shown first, as it comes back.
pub open spec fn active_place(wb: WorkbookSnapshot) -> Option<usize> {
    if active_sheet(wb) > 0 {
        Some(active_sheet(wb))
    } else {
        None
    }
}

/// The place of the sheet that is shown first comes back; none for the first.
pub proof fn active_back(wb: WorkbookSnapshot)
    requires
        titles_valid(wb.sheets@),
    ensures
        active_read(workbook_text(wb)) == active_place(wb),
{
    let n = wb.sheets@.len();
    let m = sheet_entries(wb.sheets@, n);
    let h = book_head(active_sheet(wb));
    let xml = workbook_text(wb);
    let i = active_sheet(wb) as nat;
    let o = "<workbookView"@;
    head_clear(active_sheet(wb));
    tail_clear();
    entries_back(wb.sheets@, n);
    assert(xml == h + "<sheets>"@ + m + book_tail());
    if active_sheet(wb) > 0 {
        let d = xml_decl();
        let w =
            "<workbook xmlns=\"http://schemas.openxmlformats.org/spreadsheetml/2006/main\" xmlns:r=\"http://schemas.openxmlformats.org/officeDocument/2006/relationships\">"@;
        reveal_strlit("<workbookView");
        reveal_strlit("<bookViews>");
        lit_clear("<bookViews>"@, o, 1);
        clear_join(d + w, "<bookViews>"@, o);
        dec_is_plain(i);
        crate::decimal::dec_round_trip(i);
        assert(without(dec(i), 'a'));
        views_form(i);
        let pre = d + w + "<bookViews>"@;
        let t = "activeTab=\""@ + dec(i) + "\"/>"@;
        let b = "</bookViews>"@ + "<sheets>"@ + m + book_tail();
        active_tag(pre, dec(i), b);
        views_joined(d, w, "<bookViews>"@, o, " "@, t, "</bookViews>"@, "<sheets>"@, m, book_tail());
        assert(xml == pre + o + " "@ + t + b);
        parse_unsigned_dec(i, usize::MAX as nat);
    } else {
        clear_join(h, "<sheets>"@, o);
        clear_join(h + "<sheets>"@, m, o);
        clear_join(h + "<sheets>"@ + m, book_tail(), o);
        key_missing(xml, "<workbookView"@, "activeTab=\""@);
    }
}

proof fn views_joined(
    d: Seq<char>,
    w: Seq<char>,
    a: Seq<char>,
    o: Seq<char>,
    s: Seq<char>,
    t: Seq<char>,
    z: Seq<char>,
    l: Seq<char>,
    m: Seq<char>,
    e: Seq<char>,
)
    ensures
        d + w + (a + o + s + t + z) + l + m + e == d + w + a + o + s + t + (z + l + m + e),
{
}

// ---- the law

/// Whether a workbook can be written and read back: its sheets can, and the sheet that is shown
/// first is there.
pub open spec fn book_valid(wb: WorkbookSnapshot, xf: Seq<StyleView>) -> bool {
    sheets_valid(wb, xf) && active_sheet(wb) < wb.sheets@.len()
}

/// Whether the sheets of a workbook can be written and read back: each is valid and can be counted,
/// and no name holds a `/`.
pub open spec fn sheets_valid(wb: WorkbookSnapshot, xf: Seq<StyleView>) -> bool {
    &&& titles_valid(wb.sheets@)
    &&& countable(shared_by(wb))
    &&& forall|k: int|
        0 <= k < wb.sheets@.len() ==> sheet_valid(#[trigger] wb.sheets@[k]) && sheet_counts(
            wb.sheets@[k],
            book_styles(wb),
            shared_before(wb, k),
            xf,
        )
}

/// The styles that the cell formats of a workbook's file stand for.
pub open spec fn formats_back(wb: WorkbookSnapshot) -> Seq<StyleView> {
    xfs_read(Some(styles_xml(shared_by(wb).tables)))
}

/// Sheet `k` of a workbook as it comes back.
pub open spec fn book_sheet(wb: WorkbookSnapshot, k: int) -> SheetView {
    sheet_back(
        wb.sheets@[k],
        sheet_title(wb.sheets@[k], k),
        frozen_in(wb, k),
        book_styles(wb),
        shared_before(wb, k),
        formats_back(wb),
    )
}

/// The first `n` sheets of a workbook as they come back.
pub open spec fn book_sheets(wb: WorkbookSnapshot, n: nat) -> Seq<SheetView> {
    Seq::new(n, |k: int| book_sheet(wb, k))
}

/// A sheet without a relation stands under its number.
proof fn target_of(tag: Seq<char>, n: nat)
    ensures
        "xl/"@ + sheet_target(tag, Seq::empty(), n) == sheet_part_name(n),
{
    reveal_strlit("xl/");
    reveal_strlit("worksheets/sheet");
    reveal_strlit("xl/worksheets/sheet");
    let a = "xl/"@;
    let b = "worksheets/sheet"@;
    let c = ".xml"@;
    assert(a + b == "xl/worksheets/sheet"@);
    assert(a + (b + dec(n) + c) == (a + b) + dec(n) + c);
    assert(sheet_target(tag, Seq::empty(), n) == b + dec(n) + c);
}

/// Sheet `k` comes back from its text.
proof fn one_sheet(wb: WorkbookSnapshot, k: int)
    requires
        sheets_valid(wb, formats_back(wb)),
        0 <= k < wb.sheets@.len(),
    ensures
        sheet_read(
            write_sheets(wb, wb.sheets@.len()).0[k],
            sheet_title(wb.sheets@[k], k),
            shared_by(wb).texts,
            formats_back(wb),
        ) == Some(book_sheet(wb, k)),
{
    sheet_at(wb, wb.sheets@.len(), k);
    assert(sheet_valid(wb.sheets@[k]));
    sheet_comes_back(
        wb.sheets@[k],
        sheet_title(wb.sheets@[k], k),
        book_styles(wb),
        shared_before(wb, k),
        frozen_in(wb, k),
        has_charts(wb.sheets@[k]),
        shared_by(wb).texts,
        formats_back(wb),
    );
}

proof fn one_more(
    book: Book,
    tags: Seq<Seq<char>>,
    sst: Seq<Seq<char>>,
    xf: Seq<StyleView>,
    found: Seq<SheetView>,
    xml: Seq<char>,
    x: SheetView,
)
    requires
        tags.len() > 0,
        sheets_read(book, tags.drop_last(), Seq::empty(), sst, xf) == Some(found),
        book.get(sheet_part_name(found.len() + 1)) == Some(xml),
        sheet_read(xml, sheet_name_read(tags.last(), found.len() + 1), sst, xf) == Some(x),
    ensures
        sheets_read(book, tags, Seq::empty(), sst, xf) == Some(found.push(x)),
{
    target_of(tags.last(), found.len() + 1);
}

proof fn tag_of(sheets: Seq<SheetSnapshot>, n: nat)
    requires
        0 < n <= sheets.len(),
        titles_valid(sheets),
    ensures
        entry_tags(sheets, n).len() == n,
        entry_tags(sheets, n).drop_last() == entry_tags(sheets, (n - 1) as nat),
        sheet_name_read(entry_tags(sheets, n).last(), n) == sheet_title(sheets[n - 1], n - 1),
{
    let tags = entry_tags(sheets, n);
    assert(tags.drop_last() == entry_tags(sheets, (n - 1) as nat));
    assert(tags.last() == entry_attrs(sheets[n - 1], n));
    assert(without(sheets[n - 1].name@, '/'));
    entry_back(sheets[n - 1], n);
}

proof fn sheets_pushed(wb: WorkbookSnapshot, n: nat)
    requires
        n > 0,
    ensures
        book_sheets(wb, (n - 1) as nat).len() == n - 1,
        book_sheets(wb, (n - 1) as nat).push(book_sheet(wb, n - 1)) == book_sheets(wb, n),
{
}

proof fn sheets_back(wb: WorkbookSnapshot, book: Book, n: nat)
    requires
        sheets_valid(wb, formats_back(wb)),
        n <= wb.sheets@.len(),
        forall|k: nat|
            0 < k <= wb.sheets@.len() ==> book.get(#[trigger] sheet_part_name(k)) == Some(
                write_sheets(wb, wb.sheets@.len()).0[k - 1],
            ),
    ensures
        sheets_read(
            book,
            entry_tags(wb.sheets@, n),
            Seq::empty(),
            shared_by(wb).texts,
            formats_back(wb),
        ) == Some(book_sheets(wb, n)),
    decreases n,
{
    if n == 0 {
        assert(entry_tags(wb.sheets@, 0) == Seq::<Seq<char>>::empty());
        assert(book_sheets(wb, 0) == Seq::<SheetView>::empty());
    } else {
        sheets_back(wb, book, (n - 1) as nat);
        tag_of(wb.sheets@, n);
        one_sheet(wb, n - 1);
        sheets_pushed(wb, n);
        assert(book.get(sheet_part_name(n)) == Some(write_sheets(wb, wb.sheets@.len()).0[n - 1]));
        one_more(
            book,
            entry_tags(wb.sheets@, n),
            shared_by(wb).texts,
            formats_back(wb),
            book_sheets(wb, (n - 1) as nat),
            write_sheets(wb, wb.sheets@.len()).0[n - 1],
            book_sheet(wb, n - 1),
        );
    }
}

/// A workbook that is written to a file and read back has its sheets, in order and under their
/// names, each with what a sheet keeps, and the sheet that is shown first, whether it is there or
/// not. A file without sheets is read as one of a blank sheet.
pub proof fn sheets_round_trip(wb: WorkbookSnapshot, bytes: Seq<u8>)
    requires
        wb.sheets@.len() > 0,
        sheets_valid(wb, formats_back(wb)),
        holds_parts(bytes, book_parts(wb)),
    ensures
        book_read(book_of(bytes)) == Some(
            BookView {
                sheets: book_sheets(wb, wb.sheets@.len()),
                active_sheet: active_place(wb),
                frozen: book_frozen(book_sheets(wb, wb.sheets@.len()), active_place(wb)),
            },
        ),
{
    let book = book_of(bytes);
    let n = wb.sheets@.len();
    assert forall|name: Seq<char>| #[trigger] book.get(name) == named_part(book_parts(wb), name) by {
        unpacks_what_was_packed(bytes, book_parts(wb), name);
    }
    fixed_parts_found(wb);
    strings_round_trip(shared_by(wb).texts);
    list_back(wb);
    rels_back(n);
    active_back(wb);
    assert forall|k: nat| 0 < k <= n implies book.get(#[trigger] sheet_part_name(k)) == Some(
        write_sheets(wb, n).0[k - 1],
    ) by {
        sheet_part_found(wb, k);
        unpacks_what_was_packed(bytes, book_parts(wb), sheet_part_name(k));
    }
    sheets_back(wb, book, n);
    assert(book.get("xl/workbook.xml"@) == Some(workbook_text(wb)));
    assert(book.get("xl/_rels/workbook.xml.rels"@) == Some(workbook_rels_text(n)));
    assert(book.get("xl/sharedStrings.xml"@) == Some(
        crate::xlsx_style::shared_xml(shared_by(wb).texts),
    ));
    assert(book.get("xl/styles.xml"@) == Some(styles_xml(shared_by(wb).tables)));
}

/// A workbook that is written to a file and read back has its sheets, in order and under their
/// names, each with what a sheet keeps, the sheet that is shown first and the rows and columns
/// that stay in view.
pub proof fn book_round_trip(wb: WorkbookSnapshot, bytes: Seq<u8>)
    requires
        book_valid(wb, formats_back(wb)),
        holds_parts(bytes, book_parts(wb)),
    ensures
        book_read(book_of(bytes)) == Some(
            BookView {
                sheets: book_sheets(wb, wb.sheets@.len()),
                active_sheet: active_place(wb),
                frozen: (wb.frozen_row_count, wb.frozen_col_count),
            },
        ),
{
    sheets_round_trip(wb, bytes);
    let sheets = book_sheets(wb, wb.sheets@.len());
    let i = active_sheet(wb) as int;
    assert(sheets[i].frozen_pane == book_sheet(wb, i).frozen_pane);
}

/// The page of every sheet comes back with its file: landscape as landscape, A3 as A3, margins,
/// scale and pages as they were. A page that says nothing of its orientation is upright, one of a
/// paper that files have no number for is A4, and margins that are not given are half an inch.
pub proof fn pages_come_back(wb: WorkbookSnapshot, bytes: Seq<u8>, k: int)
    requires
        sheets_valid(wb, formats_back(wb)),
        holds_parts(bytes, book_parts(wb)),
        0 <= k < wb.sheets@.len(),
    ensures
        book_read(book_of(bytes)) matches Some(b) && b.sheets.len() == wb.sheets@.len()
            && b.sheets[k].page_setup == page_back(wb.sheets@[k].page_setup),
{
    sheets_round_trip(wb, bytes);
    assert(book_sheets(wb, wb.sheets@.len())[k] == book_sheet(wb, k));
}

} // verus!
