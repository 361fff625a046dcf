//! Workbooks come back from spreadsheet files.
use crate::archive::named_part;
use crate::decimal::{dec, dec_round_trip};
use crate::row_law::{cells_grow, grows};
use crate::snapshot::{SheetSnapshot, WorkbookSnapshot};
use crate::xlsx::{book_styles, write_sheet, Shared};
use crate::xlsx_book::{
    book_parts, chart_parts, chart_texts, drawing_parts, frozen_in, has_charts, numbered,
    sheet_part_name, sheet_parts, workbook_rels_text, workbook_text, write_sheets,
};
use vstd::prelude::*;

verus! {

// ---- what the sheets share

/// What is shared before sheet `k` is written.
pub open spec fn shared_before(wb: WorkbookSnapshot, k: int) -> Shared {
    write_sheets(wb, k as nat).1
}

/// What the sheets of a workbook share.
pub open spec fn shared_by(wb: WorkbookSnapshot) -> Shared {
    write_sheets(wb, wb.sheets@.len()).1
}

proof fn sheet_grows(wb: WorkbookSnapshot, n: nat)
    requires
        0 < n,
    ensures
        grows(write_sheets(wb, (n - 1) as nat).1, write_sheets(wb, n).1),
        write_sheets(wb, n).0.len() == write_sheets(wb, (n - 1) as nat).0.len() + 1,
{
    let k = (n - 1) as nat;
    let sh = write_sheets(wb, k).1;
    let s = wb.sheets@[k as int];
    cells_grow(crate::xlsx::sorted_cells(s.cells@), book_styles(wb), sh);
}

/// The text of sheet `k`.
pub proof fn sheet_at(wb: WorkbookSnapshot, n: nat, k: int)
    requires
        0 <= k < n,
    ensures
        write_sheets(wb, n).0.len() == n,
        write_sheets(wb, n).0[k] == write_sheet(
            wb.sheets@[k],
            book_styles(wb),
            shared_before(wb, k),
            frozen_in(wb, k),
            has_charts(wb.sheets@[k]),
        ).0,
        grows(
            write_sheet(
                wb.sheets@[k],
                book_styles(wb),
                shared_before(wb, k),
                frozen_in(wb, k),
                has_charts(wb.sheets@[k]),
            ).1,
            write_sheets(wb, n).1,
        ),
    decreases n,
{
    sheet_grows(wb, n);
    let m = (n - 1) as nat;
    if k < m {
        sheet_at(wb, m, k);
    } else if m > 0 {
        sheet_at(wb, m, 0);
    }
}

// ---- parts by name

pub open spec fn nowhere(parts: Seq<(Seq<char>, Seq<char>)>, name: Seq<char>) -> bool {
    forall|i: int| 0 <= i < parts.len() ==> (#[trigger] parts[i]).0 != name
}

proof fn named_before(a: Seq<(Seq<char>, Seq<char>)>, b: Seq<(Seq<char>, Seq<char>)>, name: Seq<char>)
    requires
        nowhere(b, name),
    ensures
        named_part(a + b, name) == named_part(a, name),
    decreases b.len(),
{
    if b.len() == 0 {
        assert(a + b == a);
    } else {
        let c = b.drop_last();
        assert(b[b.len() - 1].0 != name);
        assert forall|i: int| 0 <= i < c.len() implies (#[trigger] c[i]).0 != name by {
            assert(c[i] == b[i]);
        }
        named_before(a, c, name);
        assert((a + b).drop_last() == a + c);
        assert((a + b).last() == b.last());
    }
}

/// Texts that differ somewhere.
proof fn unequal(a: Seq<char>, b: Seq<char>, i: int)
    requires
        0 <= i < a.len(),
        i < b.len(),
        a[i] != b[i],
    ensures
        a != b,
{
}

/// A name that is none of a sheet's, a drawing's or a chart's.
pub open spec fn fixed_name(name: Seq<char>) -> bool {
    name.len() > 7 && name[3] != 'd' && name[3] != 'c' && (name[3] != 'w' || name[7] == 'b')
}

proof fn sheet_parts_names(sheets: Seq<SheetSnapshot>, xs: Seq<Seq<char>>, n: nat, name: Seq<char>)
    requires
        fixed_name(name),
    ensures
        nowhere(sheet_parts(sheets, xs, n), name),
    decreases n,
{
    if n > 0 {
        sheet_parts_names(sheets, xs, (n - 1) as nat, name);
        reveal_strlit("xl/worksheets/sheet");
        reveal_strlit("xl/worksheets/_rels/sheet");
        reveal_strlit(".xml");
        reveal_strlit(".xml.rels");
        let i: int = if name[3] != 'w' {
            3
        } else {
            7
        };
        let p = sheet_part_name(n);
        let r = numbered("xl/worksheets/_rels/sheet"@, n, ".xml.rels"@);
        assert(p[3] == 'w' && p[7] == 's');
        assert(r[3] == 'w' && r[7] == 's');
        unequal(p, name, i);
        unequal(r, name, i);
    }
}

proof fn drawing_parts_names(sheets: Seq<SheetSnapshot>, n: nat, name: Seq<char>)
    requires
        name.len() > 3,
        name[3] != 'd',
    ensures
        nowhere(drawing_parts(sheets, n), name),
    decreases n,
{
    if n > 0 {
        drawing_parts_names(sheets, (n - 1) as nat, name);
        reveal_strlit("xl/drawings/drawing");
        reveal_strlit("xl/drawings/_rels/drawing");
        reveal_strlit(".xml");
        reveal_strlit(".xml.rels");
        let d = crate::xlsx_book::drawing_count(sheets, n);
        let p = numbered("xl/drawings/drawing"@, d, ".xml"@);
        let r = numbered("xl/drawings/_rels/drawing"@, d, ".xml.rels"@);
        assert(p[3] == 'd');
        assert(r[3] == 'd');
        unequal(p, name, 3);
        unequal(r, name, 3);
    }
}

proof fn chart_parts_names(texts: Seq<Seq<char>>, name: Seq<char>)
    requires
        name.len() > 3,
        name[3] != 'c',
    ensures
        nowhere(chart_parts(texts), name),
{
    reveal_strlit("xl/charts/chart");
    assert forall|i: int| 0 <= i < texts.len() implies (#[trigger] chart_parts(texts)[i]).0 != name by {
        let p = numbered("xl/charts/chart"@, (i + 1) as nat, ".xml"@);
        assert(p[3] == 'c');
        unequal(p, name, 3);
    }
}

/// The parts that are not a sheet's.
pub open spec fn fixed_parts(wb: WorkbookSnapshot) -> Seq<(Seq<char>, Seq<char>)> {
    let n = wb.sheets@.len();
    seq![
        (
            "[Content_Types].xml"@,
            crate::xlsx_book::content_types_text(
                n,
                crate::xlsx_book::drawing_count(wb.sheets@, n),
                chart_texts(wb.sheets@, n).len(),
            ),
        ),
        ("_rels/.rels"@, crate::xlsx_book::root_rels_text()),
        ("xl/workbook.xml"@, workbook_text(wb)),
        ("xl/_rels/workbook.xml.rels"@, workbook_rels_text(n)),
        ("xl/styles.xml"@, crate::xlsx_style::styles_xml(shared_by(wb).tables)),
        ("xl/sharedStrings.xml"@, crate::xlsx_style::shared_xml(shared_by(wb).texts)),
    ]
}

proof fn parts_form(wb: WorkbookSnapshot)
    ensures
        book_parts(wb) == fixed_parts(wb) + sheet_parts(
            wb.sheets@,
            write_sheets(wb, wb.sheets@.len()).0,
            wb.sheets@.len(),
        ) + drawing_parts(wb.sheets@, wb.sheets@.len()) + chart_parts(
            chart_texts(wb.sheets@, wb.sheets@.len()),
        ),
{
}

proof fn fixed_part(wb: WorkbookSnapshot, name: Seq<char>)
    requires
        fixed_name(name),
    ensures
        named_part(book_parts(wb), name) == named_part(fixed_parts(wb), name),
{
    let n = wb.sheets@.len();
    let xs = write_sheets(wb, n).0;
    let a = fixed_parts(wb);
    let b = sheet_parts(wb.sheets@, xs, n);
    let c = drawing_parts(wb.sheets@, n);
    let d = chart_parts(chart_texts(wb.sheets@, n));
    parts_form(wb);
    sheet_parts_names(wb.sheets@, xs, n, name);
    drawing_parts_names(wb.sheets@, n, name);
    chart_parts_names(chart_texts(wb.sheets@, n), name);
    named_before(a + b + c, d, name);
    named_before(a + b, c, name);
    named_before(a, b, name);
}

proof fn names_differ()
    ensures
        fixed_name("xl/workbook.xml"@),
        fixed_name("xl/_rels/workbook.xml.rels"@),
        fixed_name("xl/styles.xml"@),
        fixed_name("xl/sharedStrings.xml"@),
        "xl/workbook.xml"@ != "xl/_rels/workbook.xml.rels"@,
        "xl/workbook.xml"@ != "xl/styles.xml"@,
        "xl/workbook.xml"@ != "xl/sharedStrings.xml"@,
        "xl/_rels/workbook.xml.rels"@ != "xl/styles.xml"@,
        "xl/_rels/workbook.xml.rels"@ != "xl/sharedStrings.xml"@,
        "xl/styles.xml"@ != "xl/sharedStrings.xml"@,
{
    reveal_strlit("xl/workbook.xml");
    reveal_strlit("xl/_rels/workbook.xml.rels");
    reveal_strlit("xl/styles.xml");
    reveal_strlit("xl/sharedStrings.xml");
    unequal("xl/workbook.xml"@, "xl/_rels/workbook.xml.rels"@, 3);
    unequal("xl/workbook.xml"@, "xl/styles.xml"@, 3);
    unequal("xl/workbook.xml"@, "xl/sharedStrings.xml"@, 3);
    unequal("xl/_rels/workbook.xml.rels"@, "xl/styles.xml"@, 3);
    unequal("xl/_rels/workbook.xml.rels"@, "xl/sharedStrings.xml"@, 3);
    unequal("xl/styles.xml"@, "xl/sharedStrings.xml"@, 4);
}

/// The parts of a workbook under their names.
pub proof fn fixed_parts_found(wb: WorkbookSnapshot)
    ensures
        named_part(book_parts(wb), "xl/workbook.xml"@) == Some(workbook_text(wb)),
        named_part(book_parts(wb), "xl/_rels/workbook.xml.rels"@) == Some(
            workbook_rels_text(wb.sheets@.len()),
        ),
        named_part(book_parts(wb), "xl/styles.xml"@) == Some(
            crate::xlsx_style::styles_xml(shared_by(wb).tables),
        ),
        named_part(book_parts(wb), "xl/sharedStrings.xml"@) == Some(
            crate::xlsx_style::shared_xml(shared_by(wb).texts),
        ),
{
    names_differ();
    fixed_part(wb, "xl/workbook.xml"@);
    fixed_part(wb, "xl/_rels/workbook.xml.rels"@);
    fixed_part(wb, "xl/styles.xml"@);
    fixed_part(wb, "xl/sharedStrings.xml"@);
    let p = fixed_parts(wb);
    let p5 = p.drop_last();
    let p4 = p5.drop_last();
    let p3 = p4.drop_last();
    assert(p.last() == p[5]);
    assert(p5.last() == p[4]);
    assert(p4.last() == p[3]);
    assert(p3.last() == p[2]);
    let w = "xl/workbook.xml"@;
    let r = "xl/_rels/workbook.xml.rels"@;
    let y = "xl/styles.xml"@;
    assert(named_part(p5, w) == named_part(p4, w));
    assert(named_part(p4, w) == named_part(p3, w));
    assert(named_part(p3, w) == Some(workbook_text(wb)));
    assert(named_part(p5, r) == named_part(p4, r));
    assert(named_part(p4, r) == Some(p[3].1));
    assert(named_part(p5, y) == Some(p[4].1));
}

/// Numerals of different numbers differ.
proof fn dec_apart(a: nat, b: nat)
    requires
        a != b,
    ensures
        dec(a) != dec(b),
{
    dec_round_trip(a);
    dec_round_trip(b);
}

proof fn sheet_names_apart(a: nat, b: nat)
    requires
        a != b,
    ensures
        sheet_part_name(a) != sheet_part_name(b),
{
    dec_apart(a, b);
    let h = "xl/worksheets/sheet"@;
    let t = ".xml"@;
    let x = sheet_part_name(a);
    let y = sheet_part_name(b);
    if x == y {
        assert(x.len() == h.len() + dec(a).len() + t.len());
        assert(y.len() == h.len() + dec(b).len() + t.len());
        assert(x.subrange(h.len() as int, x.len() - t.len()) == dec(a));
        assert(y.subrange(h.len() as int, y.len() - t.len()) == dec(b));
    }
}

proof fn sheet_part_in(sheets: Seq<SheetSnapshot>, xs: Seq<Seq<char>>, n: nat, k: nat)
    requires
        0 < k <= n,
    ensures
        named_part(sheet_parts(sheets, xs, n), sheet_part_name(k)) == Some(xs[k - 1]),
    decreases n,
{
    let name = sheet_part_name(k);
    let p = sheet_parts(sheets, xs, (n - 1) as nat);
    let one = p.push((sheet_part_name(n), xs[n - 1]));
    let r = numbered("xl/worksheets/_rels/sheet"@, n, ".xml.rels"@);
    reveal_strlit("xl/worksheets/sheet");
    reveal_strlit("xl/worksheets/_rels/sheet");
    assert(name[14] == 's');
    assert(r[14] == '_');
    unequal(name, r, 14);
    if k < n {
        sheet_part_in(sheets, xs, (n - 1) as nat, k);
        sheet_names_apart(k, n);
    }
    assert(one.drop_last() == p);
    let all = sheet_parts(sheets, xs, n);
    assert(one.last() == (sheet_part_name(n), xs[n - 1]));
    assert(named_part(one, name) == Some(xs[k - 1]));
    if has_charts(sheets[n - 1]) {
        assert(all.drop_last() == one);
        assert(all.last().0 == r);
    }
}

proof fn named_in(
    a: Seq<(Seq<char>, Seq<char>)>,
    b: Seq<(Seq<char>, Seq<char>)>,
    name: Seq<char>,
)
    requires
        named_part(b, name) is Some,
    ensures
        named_part(a + b, name) == named_part(b, name),
    decreases b.len(),
{
    if b.len() > 0 {
        assert((a + b).drop_last() == a + b.drop_last());
        assert((a + b).last() == b.last());
        if b.last().0 != name {
            named_in(a, b.drop_last(), name);
        }
    }
}

/// The part of a sheet under its name.
pub proof fn sheet_part_found(wb: WorkbookSnapshot, k: nat)
    requires
        0 < k <= wb.sheets@.len(),
    ensures
        named_part(book_parts(wb), sheet_part_name(k)) == Some(
            write_sheets(wb, wb.sheets@.len()).0[k - 1],
        ),
{
    let n = wb.sheets@.len();
    let xs = write_sheets(wb, n).0;
    let name = sheet_part_name(k);
    let a = fixed_parts(wb);
    let b = sheet_parts(wb.sheets@, xs, n);
    let c = drawing_parts(wb.sheets@, n);
    let d = chart_parts(chart_texts(wb.sheets@, n));
    parts_form(wb);
    reveal_strlit("xl/worksheets/sheet");
    assert(name[3] == 'w');
    drawing_parts_names(wb.sheets@, n, name);
    chart_parts_names(chart_texts(wb.sheets@, n), name);
    sheet_part_in(wb.sheets@, xs, n, k);
    named_before(a + b + c, d, name);
    named_before(a + b, c, name);
    named_in(a, b, name);
}

} // verus!
