//! Workbooks as spreadsheet files: the parts of a file and the file itself.
use crate::archive::{can_pack, holds_parts, is_part_name, pack_parts, part_texts, Part};
use crate::decimal::{dec, dec_round_trip, push_dec};
use crate::snapshot::{ChartSpec, SheetSnapshot, WorkbookSnapshot};
use crate::text::opt;
use crate::xlsx::{
    book_styles, shared_view, sheet_fits, sheet_in_range, sheet_to_xml, write_sheet, Shared,
};
use crate::xlsx_drawing::{
    anchors, chart_anchors, chart_fits, chart_in_sheet, chart_text, chart_xml, charts, deref,
    drawing_rels_after, drawing_rels_text, drawing_text, drawing_xml, sheet_charts,
};
use crate::xlsx_style::{
    base_tables, shared_xml, styles_xml, xml_decl, xml_declaration, SharedStrings, StyleRegistry,
};
use crate::xml::{esc, esc_text, Escape};
use vstd::prelude::*;

verus! {

/// Whether a sheet has charts.
pub open spec fn has_charts(s: SheetSnapshot) -> bool {
    charts(s.floating_objects@).len() > 0
}

/// The place of the sheet that is shown first.
pub open spec fn active_sheet(wb: WorkbookSnapshot) -> usize {
    match wb.active_sheet {
        Some(i) => i,
        None => 0,
    }
}

/// The rows and columns that stay in view in a sheet: those of the workbook, in the sheet that is
/// shown first.
pub open spec fn frozen_in(wb: WorkbookSnapshot, i: int) -> (u32, u32) {
    if i == active_sheet(wb) {
        (wb.frozen_row_count, wb.frozen_col_count)
    } else {
        (0, 0)
    }
}

/// The first `n` sheets of a workbook as they are written, and what they share.
pub open spec fn write_sheets(wb: WorkbookSnapshot, n: nat) -> (Seq<Seq<char>>, Shared)
    decreases n,
{
    if n == 0 {
        (Seq::empty(), Shared { tables: base_tables(), texts: Seq::empty() })
    } else {
        let k = (n - 1) as nat;
        let (xs, sh) = write_sheets(wb, k);
        let s = wb.sheets@[k as int];
        let (x, sh1) = write_sheet(s, book_styles(wb), sh, frozen_in(wb, k as int), has_charts(s));
        (xs.push(x), sh1)
    }
}

/// The name of a sheet; one without a name is called after its place.
pub open spec fn sheet_title(s: SheetSnapshot, i: int) -> Seq<char> {
    if s.name@.len() == 0 {
        "Sheet"@ + dec((i + 1) as nat)
    } else {
        s.name@
    }
}

/// The first `n` sheets as the workbook lists them.
pub open spec fn sheet_entries(sheets: Seq<SheetSnapshot>, n: nat) -> Seq<char>
    decreases n,
{
    if n == 0 {
        Seq::empty()
    } else {
        sheet_entries(sheets, (n - 1) as nat) + "<sheet name=\""@ + esc_text(
            sheet_title(sheets[n - 1], n - 1),
            Escape::Full,
        ) + "\" sheetId=\""@ + dec(n) + "\" r:id=\"rId"@ + dec(n) + "\"/>"@
    }
}

/// The workbook's own part.
pub open spec fn workbook_text(wb: WorkbookSnapshot) -> Seq<char> {
    xml_decl()
        + "<workbook xmlns=\"http://schemas.openxmlformats.org/spreadsheetml/2006/main\" xmlns:r=\"http://schemas.openxmlformats.org/officeDocument/2006/relationships\">"@
        + opt(
        active_sheet(wb) > 0,
        "<bookViews><workbookView activeTab=\""@ + dec(active_sheet(wb) as nat)
            + "\"/></bookViews>"@,
    ) + "<sheets>"@ + sheet_entries(wb.sheets@, wb.sheets@.len()) + "</sheets></workbook>"@
}

/// The relations of a workbook to its first `n` sheets.
pub open spec fn sheet_rels(n: nat) -> Seq<char>
    decreases n,
{
    if n == 0 {
        Seq::empty()
    } else {
        sheet_rels((n - 1) as nat) + "<Relationship Id=\"rId"@ + dec(n)
            + "\" Type=\"http://schemas.openxmlformats.org/officeDocument/2006/relationships/worksheet\" Target=\"worksheets/sheet"@
            + dec(n) + ".xml\"/>"@
    }
}

/// The relations of a workbook to its parts.
pub open spec fn workbook_rels_text(n: nat) -> Seq<char> {
    xml_decl()
        + "<Relationships xmlns=\"http://schemas.openxmlformats.org/package/2006/relationships\">"@
        + sheet_rels(n) + "<Relationship Id=\"rId"@ + dec(n + 1)
        + "\" Type=\"http://schemas.openxmlformats.org/officeDocument/2006/relationships/styles\" Target=\"styles.xml\"/><Relationship Id=\"rId"@
        + dec(n + 2)
        + "\" Type=\"http://schemas.openxmlformats.org/officeDocument/2006/relationships/sharedStrings\" Target=\"sharedStrings.xml\"/></Relationships>"@
}

/// Entries for `n` numbered parts.
pub open spec fn overrides(head: Seq<char>, tail: Seq<char>, n: nat) -> Seq<char>
    decreases n,
{
    if n == 0 {
        Seq::empty()
    } else {
        overrides(head, tail, (n - 1) as nat) + head + dec(n) + tail
    }
}

/// The kinds of a file's parts: `n` sheets, `d` drawings, `m` charts.
pub open spec fn content_types_text(n: nat, d: nat, m: nat) -> Seq<char> {
    xml_decl()
        + "<Types xmlns=\"http://schemas.openxmlformats.org/package/2006/content-types\"><Default Extension=\"rels\" ContentType=\"application/vnd.openxmlformats-package.relationships+xml\"/><Default Extension=\"xml\" ContentType=\"application/xml\"/><Override PartName=\"/xl/workbook.xml\" ContentType=\"application/vnd.openxmlformats-officedocument.spreadsheetml.sheet.main+xml\"/>"@
        + overrides(
        "<Override PartName=\"/xl/worksheets/sheet"@,
        ".xml\" ContentType=\"application/vnd.openxmlformats-officedocument.spreadsheetml.worksheet+xml\"/>"@,
        n,
    )
        + "<Override PartName=\"/xl/styles.xml\" ContentType=\"application/vnd.openxmlformats-officedocument.spreadsheetml.styles+xml\"/><Override PartName=\"/xl/sharedStrings.xml\" ContentType=\"application/vnd.openxmlformats-officedocument.spreadsheetml.sharedStrings+xml\"/>"@
        + overrides(
        "<Override PartName=\"/xl/drawings/drawing"@,
        ".xml\" ContentType=\"application/vnd.openxmlformats-officedocument.drawing+xml\"/>"@,
        d,
    ) + overrides(
        "<Override PartName=\"/xl/charts/chart"@,
        ".xml\" ContentType=\"application/vnd.openxmlformats-officedocument.drawingml.chart+xml\"/>"@,
        m,
    ) + "</Types>"@
}

/// The relations of a file to its workbook.
pub open spec fn root_rels_text() -> Seq<char> {
    xml_decl()
        + "<Relationships xmlns=\"http://schemas.openxmlformats.org/package/2006/relationships\"><Relationship Id=\"rId1\" Type=\"http://schemas.openxmlformats.org/officeDocument/2006/relationships/officeDocument\" Target=\"xl/workbook.xml\"/></Relationships>"@
}

/// The relation of a sheet to its drawing.
pub open spec fn sheet_drawing_rels(d: nat) -> Seq<char> {
    xml_decl()
        + "<Relationships xmlns=\"http://schemas.openxmlformats.org/package/2006/relationships\"><Relationship Id=\"rId1\" Type=\"http://schemas.openxmlformats.org/officeDocument/2006/relationships/drawing\" Target=\"../drawings/drawing"@
        + dec(d) + ".xml\"/></Relationships>"@
}

/// How many of the first `n` sheets have charts.
pub open spec fn drawing_count(sheets: Seq<SheetSnapshot>, n: nat) -> nat
    decreases n,
{
    if n == 0 {
        0
    } else {
        drawing_count(sheets, (n - 1) as nat) + (if has_charts(sheets[n - 1]) {
            1nat
        } else {
            0
        })
    }
}

/// The charts of a sheet as they are written.
pub open spec fn sheet_chart_texts(s: SheetSnapshot) -> Seq<Seq<char>> {
    let list = charts(s.floating_objects@);
    Seq::new(list.len(), |k: int| chart_text(s.name@, list[k], s.cells@))
}

/// The charts of the first `n` sheets as they are written.
pub open spec fn chart_texts(sheets: Seq<SheetSnapshot>, n: nat) -> Seq<Seq<char>>
    decreases n,
{
    if n == 0 {
        Seq::empty()
    } else {
        chart_texts(sheets, (n - 1) as nat) + sheet_chart_texts(sheets[n - 1])
    }
}

/// A name with a number.
pub open spec fn numbered(head: Seq<char>, n: nat, tail: Seq<char>) -> Seq<char> {
    head + dec(n) + tail
}

/// The name of a sheet's part.
pub open spec fn sheet_part_name(n: nat) -> Seq<char> {
    numbered("xl/worksheets/sheet"@, n, ".xml"@)
}

/// The parts of the first `n` sheets.
pub open spec fn sheet_parts(sheets: Seq<SheetSnapshot>, xs: Seq<Seq<char>>, n: nat) -> Seq<
    (Seq<char>, Seq<char>),
>
    decreases n,
{
    if n == 0 {
        Seq::empty()
    } else {
        let rest = sheet_parts(sheets, xs, (n - 1) as nat).push((sheet_part_name(n), xs[n - 1]));
        if has_charts(sheets[n - 1]) {
            rest.push(
                (
                    numbered("xl/worksheets/_rels/sheet"@, n, ".xml.rels"@),
                    sheet_drawing_rels(drawing_count(sheets, n)),
                ),
            )
        } else {
            rest
        }
    }
}

/// Where charts stand, with their numbers in the drawing.
pub open spec fn numbered_anchors(a: Seq<(u32, u32, u32, u32)>) -> Seq<(usize, u32, u32, u32, u32)> {
    Seq::new(a.len(), |i: int| ((i + 1) as usize, a[i].0, a[i].1, a[i].2, a[i].3))
}

/// The parts of the drawings of the first `n` sheets.
pub open spec fn drawing_parts(sheets: Seq<SheetSnapshot>, n: nat) -> Seq<(Seq<char>, Seq<char>)>
    decreases n,
{
    if n == 0 {
        Seq::empty()
    } else {
        let rest = drawing_parts(sheets, (n - 1) as nat);
        let s = sheets[n - 1];
        let d = drawing_count(sheets, n);
        if has_charts(s) {
            rest.push(
                (
                    numbered("xl/drawings/drawing"@, d, ".xml"@),
                    drawing_text(numbered_anchors(anchors(s.floating_objects@))),
                ),
            ).push(
                (
                    numbered("xl/drawings/_rels/drawing"@, d, ".xml.rels"@),
                    drawing_rels_text(
                        chart_texts(sheets, (n - 1) as nat).len(),
                        charts(s.floating_objects@).len(),
                    ),
                ),
            )
        } else {
            rest
        }
    }
}

/// The parts of charts.
pub open spec fn chart_parts(texts: Seq<Seq<char>>) -> Seq<(Seq<char>, Seq<char>)> {
    Seq::new(
        texts.len(),
        |m: int| (numbered("xl/charts/chart"@, (m + 1) as nat, ".xml"@), texts[m]),
    )
}

/// The parts of a workbook's file.
pub open spec fn book_parts(wb: WorkbookSnapshot) -> Seq<(Seq<char>, Seq<char>)> {
    let n = wb.sheets@.len();
    let (xs, sh) = write_sheets(wb, n);
    let cs = chart_texts(wb.sheets@, n);
    seq![
        (
            "[Content_Types].xml"@,
            content_types_text(n, drawing_count(wb.sheets@, n), cs.len()),
        ),
        ("_rels/.rels"@, root_rels_text()),
        ("xl/workbook.xml"@, workbook_text(wb)),
        ("xl/_rels/workbook.xml.rels"@, workbook_rels_text(n)),
        ("xl/styles.xml"@, styles_xml(sh.tables)),
        ("xl/sharedStrings.xml"@, shared_xml(sh.texts)),
    ] + sheet_parts(wb.sheets@, xs, n) + drawing_parts(wb.sheets@, n) + chart_parts(cs)
}

/// Whether the data of a sheet's charts is inside the sheet.
pub open spec fn charts_fit(s: SheetSnapshot) -> bool {
    forall|k: int|
        0 <= k < charts(s.floating_objects@).len() ==> chart_fits(
            #[trigger] charts(s.floating_objects@)[k],
        )
}

/// Whether what a workbook writes has addresses.
pub open spec fn book_fits(wb: WorkbookSnapshot) -> bool {
    forall|i: int|
        0 <= i < wb.sheets@.len() ==> sheet_fits(#[trigger] wb.sheets@[i]) && charts_fit(wb.sheets@[i])
}

/// The relations of a sheet's drawing lead to that sheet's charts: behind the charts of the sheets
/// in front of it, its own stand in order among those of the workbook.
pub proof fn drawings_lead_to_their_charts(sheets: Seq<SheetSnapshot>, n: nat, k: nat, j: nat)
    requires
        k < n <= sheets.len(),
        j < sheet_chart_texts(sheets[k as int]).len(),
    ensures
        chart_texts(sheets, k).len() + j < chart_texts(sheets, n).len(),
        chart_texts(sheets, n)[(chart_texts(sheets, k).len() + j) as int] == sheet_chart_texts(
            sheets[k as int],
        )[j as int],
    decreases n,
{
    if k + 1 < n {
        drawings_lead_to_their_charts(sheets, (n - 1) as nat, k, j);
    }
}

// ---- names of parts

/// Ten times itself `k` times.
pub open spec fn ten_to(k: nat) -> nat
    decreases k,
{
    if k == 0 {
        1
    } else {
        10 * ten_to((k - 1) as nat)
    }
}

proof fn dec_len(n: nat, k: nat)
    requires
        k >= 1,
        n < ten_to(k),
    ensures
        1 <= dec(n).len() <= k,
    decreases k,
{
    if n >= 10 {
        assert(k >= 2) by {
            reveal_with_fuel(ten_to, 2);
        }
        dec_len(n / 10, (k - 1) as nat);
    }
}

proof fn dec_short(n: nat)
    requires
        n <= usize::MAX,
    ensures
        1 <= dec(n).len() <= 20,
        forall|i: int| 0 <= i < dec(n).len() ==> '0' <= #[trigger] dec(n)[i] <= '9',
{
    reveal_with_fuel(ten_to, 21);
    assert(ten_to(20) == 100000000000000000000);
    dec_len(n, 20);
    dec_round_trip(n);
    assert forall|i: int| 0 <= i < dec(n).len() implies '0' <= #[trigger] dec(n)[i] <= '9' by {
        assert(crate::token::spec_is_digit(dec(n)[i]));
    }
}

spec fn plain(s: Seq<char>) -> bool {
    forall|i: int| 0 <= i < s.len() ==> ' ' < #[trigger] s[i] <= '~'
}

proof fn numbered_name(head: Seq<char>, n: nat, tail: Seq<char>)
    requires
        n <= usize::MAX,
        plain(head),
        plain(tail),
        head.len() <= 100,
        0 < tail.len() <= 100,
        tail.last() != '/',
    ensures
        is_part_name(numbered(head, n, tail)),
{
    dec_short(n);
    let d = dec(n);
    let s = head + d + tail;
    assert forall|i: int| 0 <= i < s.len() implies ' ' < #[trigger] s[i] <= '~' by {
        if i < head.len() {
            assert(s[i] == head[i]);
        } else if i < head.len() + d.len() {
            assert(s[i] == d[i - head.len()]);
        } else {
            assert(s[i] == tail[i - head.len() - d.len()]);
        }
    }
    assert(s.last() == tail.last());
}

fn numbered_part(head: &str, n: usize, tail: &str, data: String) -> (r: Part)
    requires
        plain(head@),
        plain(tail@),
        head@.len() <= 100,
        0 < tail@.len() <= 100,
        tail@.last() != '/',
    ensures
        r.name@ == numbered(head@, n as nat, tail@),
        r.data == data,
        is_part_name(r.name@),
{
    let mut name: String = head.to_string();
    push_dec(&mut name, n as u128);
    name.append(tail);
    proof {
        numbered_name(head@, n as nat, tail@);
    }
    Part { name, data }
}

spec fn names_ok(parts: Seq<Part>) -> bool {
    forall|i: int| 0 <= i < parts.len() ==> is_part_name(#[trigger] parts[i].name@)
}

fn push_part(parts: &mut Vec<Part>, p: Part)
    requires
        names_ok(old(parts)@),
        is_part_name(p.name@),
    ensures
        names_ok(final(parts)@),
        part_texts(final(parts)@) == part_texts(old(parts)@).push((p.name@, p.data@)),
{
    let ghost before = part_texts(parts@);
    parts.push(p);
    assert(part_texts(parts@) == before.push((p.name@, p.data@)));
}

fn fixed_part(name: &str, data: String) -> (r: Part)
    ensures
        r.name@ == name@,
        r.data == data,
{
    Part { name: name.to_string(), data }
}

// ---- the parts

fn overrides_xml(head: &str, tail: &str, n: usize) -> (r: String)
    ensures
        r@ == overrides(head@, tail@, n as nat),
{
    let mut out: String = String::new();
    let mut i: usize = 0;
    while i < n
        invariant
            i <= n,
            out@ == overrides(head@, tail@, i as nat),
        decreases n - i,
    {
        i = i + 1;
        out.append(head);
        push_dec(&mut out, i as u128);
        out.append(tail);
    }
    out
}

fn content_types_xml(n: usize, d: usize, m: usize) -> (r: String)
    ensures
        r@ == content_types_text(n as nat, d as nat, m as nat),
{
    let sheets: String = overrides_xml(
        "<Override PartName=\"/xl/worksheets/sheet",
        ".xml\" ContentType=\"application/vnd.openxmlformats-officedocument.spreadsheetml.worksheet+xml\"/>",
        n,
    );
    let drawings: String = overrides_xml(
        "<Override PartName=\"/xl/drawings/drawing",
        ".xml\" ContentType=\"application/vnd.openxmlformats-officedocument.drawing+xml\"/>",
        d,
    );
    let chart_types: String = overrides_xml(
        "<Override PartName=\"/xl/charts/chart",
        ".xml\" ContentType=\"application/vnd.openxmlformats-officedocument.drawingml.chart+xml\"/>",
        m,
    );
    let mut out: String = xml_declaration();
    out.append(
        "<Types xmlns=\"http://schemas.openxmlformats.org/package/2006/content-types\"><Default Extension=\"rels\" ContentType=\"application/vnd.openxmlformats-package.relationships+xml\"/><Default Extension=\"xml\" ContentType=\"application/xml\"/><Override PartName=\"/xl/workbook.xml\" ContentType=\"application/vnd.openxmlformats-officedocument.spreadsheetml.sheet.main+xml\"/>",
    );
    out.append(sheets.as_str());
    out.append(
        "<Override PartName=\"/xl/styles.xml\" ContentType=\"application/vnd.openxmlformats-officedocument.spreadsheetml.styles+xml\"/><Override PartName=\"/xl/sharedStrings.xml\" ContentType=\"application/vnd.openxmlformats-officedocument.spreadsheetml.sharedStrings+xml\"/>",
    );
    out.append(drawings.as_str());
    out.append(chart_types.as_str());
    out.append("</Types>");
    out
}

fn root_rels_xml() -> (r: String)
    ensures
        r@ == root_rels_text(),
{
    let mut out: String = xml_declaration();
    out.append(
        "<Relationships xmlns=\"http://schemas.openxmlformats.org/package/2006/relationships\"><Relationship Id=\"rId1\" Type=\"http://schemas.openxmlformats.org/officeDocument/2006/relationships/officeDocument\" Target=\"xl/workbook.xml\"/></Relationships>",
    );
    out
}

fn sheet_drawing_rels_xml(d: usize) -> (r: String)
    ensures
        r@ == sheet_drawing_rels(d as nat),
{
    let mut out: String = xml_declaration();
    out.append(
        "<Relationships xmlns=\"http://schemas.openxmlformats.org/package/2006/relationships\"><Relationship Id=\"rId1\" Type=\"http://schemas.openxmlformats.org/officeDocument/2006/relationships/drawing\" Target=\"../drawings/drawing",
    );
    push_dec(&mut out, d as u128);
    out.append(".xml\"/></Relationships>");
    out
}

fn workbook_xml(snap: &WorkbookSnapshot) -> (r: String)
    ensures
        r@ == workbook_text(*snap),
{
    let mut entries: String = String::new();
    let n: usize = snap.sheets.len();
    let mut i: usize = 0;
    while i < n
        invariant
            i <= n,
            n == snap.sheets@.len(),
            entries@ == sheet_entries(snap.sheets@, i as nat),
        decreases n - i,
    {
        let s = &snap.sheets[i];
        let mut name: String = s.name.clone();
        if s.name.as_str().is_empty() {
            name = "Sheet".to_string();
            push_dec(&mut name, i as u128 + 1);
        }
        assert(name@ == sheet_title(snap.sheets@[i as int], i as int));
        let e: String = esc(name.as_str());
        i = i + 1;
        entries.append("<sheet name=\"");
        entries.append(e.as_str());
        entries.append("\" sheetId=\"");
        push_dec(&mut entries, i as u128);
        entries.append("\" r:id=\"rId");
        push_dec(&mut entries, i as u128);
        entries.append("\"/>");
    }
    let active: usize = match snap.active_sheet {
        Some(i) => i,
        None => 0,
    };
    let mut views: String = String::new();
    if active > 0 {
        views = "<bookViews><workbookView activeTab=\"".to_string();
        push_dec(&mut views, active as u128);
        views.append("\"/></bookViews>");
    }
    let mut out: String = xml_declaration();
    out.append(
        "<workbook xmlns=\"http://schemas.openxmlformats.org/spreadsheetml/2006/main\" xmlns:r=\"http://schemas.openxmlformats.org/officeDocument/2006/relationships\">",
    );
    out.append(views.as_str());
    out.append("<sheets>");
    out.append(entries.as_str());
    out.append("</sheets></workbook>");
    out
}

fn workbook_rels_xml(n: usize) -> (r: String)
    ensures
        r@ == workbook_rels_text(n as nat),
{
    let mut rels: String = String::new();
    let mut i: usize = 0;
    while i < n
        invariant
            i <= n,
            rels@ == sheet_rels(i as nat),
        decreases n - i,
    {
        i = i + 1;
        rels.append("<Relationship Id=\"rId");
        push_dec(&mut rels, i as u128);
        rels.append(
            "\" Type=\"http://schemas.openxmlformats.org/officeDocument/2006/relationships/worksheet\" Target=\"worksheets/sheet",
        );
        push_dec(&mut rels, i as u128);
        rels.append(".xml\"/>");
    }
    let mut out: String = xml_declaration();
    out.append(
        "<Relationships xmlns=\"http://schemas.openxmlformats.org/package/2006/relationships\">",
    );
    out.append(rels.as_str());
    out.append("<Relationship Id=\"rId");
    push_dec(&mut out, n as u128 + 1);
    out.append(
        "\" Type=\"http://schemas.openxmlformats.org/officeDocument/2006/relationships/styles\" Target=\"styles.xml\"/><Relationship Id=\"rId",
    );
    push_dec(&mut out, n as u128 + 2);
    out.append(
        "\" Type=\"http://schemas.openxmlformats.org/officeDocument/2006/relationships/sharedStrings\" Target=\"sharedStrings.xml\"/></Relationships>",
    );
    out
}

fn sheet_chart_xmls(s: &SheetSnapshot, out: &mut Vec<String>) -> (r: usize)
    requires
        charts_fit(*s),
    ensures
        crate::text::texts(final(out)@) == crate::text::texts(old(out)@) + sheet_chart_texts(*s),
        r == charts(s.floating_objects@).len(),
{
    let list: Vec<&ChartSpec> = sheet_charts(s);
    let ghost specs = charts(s.floating_objects@);
    let ghost all = sheet_chart_texts(*s);
    let ghost before = crate::text::texts(out@);
    assert(deref(list@).len() == specs.len());
    let mut k: usize = 0;
    assert(before + all.take(0) == before);
    while k < list.len()
        invariant
            k <= list.len(),
            charts_fit(*s),
            specs == charts(s.floating_objects@),
            deref(list@) == specs,
            list@.len() == specs.len(),
            all == sheet_chart_texts(*s),
            crate::text::texts(out@) == before + all.take(k as int),
        decreases list.len() - k,
    {
        let ghost now = crate::text::texts(out@);
        assert(specs[k as int] == *list@[k as int]);
        let x: String = chart_xml(s.name.as_str(), list[k], s);
        let ghost xt = x@;
        out.push(x);
        assert(crate::text::texts(out@) == now.push(xt));
        assert(all.take(k + 1) == all.take(k as int).push(all[k as int]));
        assert(before + all.take(k + 1) == (before + all.take(k as int)).push(all[k as int]));
        k = k + 1;
    }
    assert(all.take(k as int) == all);
    list.len()
}

fn sheet_drawing(s: &SheetSnapshot) -> (r: String)
    ensures
        r@ == drawing_text(numbered_anchors(anchors(s.floating_objects@))),
{
    let list: Vec<(u32, u32, u32, u32)> = chart_anchors(s);
    let mut out: Vec<(usize, u32, u32, u32, u32)> = Vec::new();
    let ghost all = numbered_anchors(list@);
    let mut k: usize = 0;
    while k < list.len()
        invariant
            k <= list.len(),
            all == numbered_anchors(list@),
            out@ == all.take(k as int),
        decreases list.len() - k,
    {
        let a = list[k];
        out.push((k + 1, a.0, a.1, a.2, a.3));
        assert(all.take(k + 1) == all.take(k as int).push(all[k as int]));
        k = k + 1;
    }
    assert(all.take(k as int) == all);
    drawing_xml(out.as_slice())
}

/// The parts of a workbook's file.
pub fn xlsx_parts(snap: &WorkbookSnapshot) -> (r: Vec<Part>)
    requires
        book_fits(*snap),
    ensures
        part_texts(r@) == book_parts(*snap),
        forall|i: int| 0 <= i < r@.len() ==> is_part_name(#[trigger] r@[i].name@),
{
    proof {
        reveal_strlit("[Content_Types].xml");
        reveal_strlit("_rels/.rels");
        reveal_strlit("xl/workbook.xml");
        reveal_strlit("xl/_rels/workbook.xml.rels");
        reveal_strlit("xl/styles.xml");
        reveal_strlit("xl/sharedStrings.xml");
        reveal_strlit("xl/worksheets/sheet");
        reveal_strlit("xl/worksheets/_rels/sheet");
        reveal_strlit("xl/drawings/drawing");
        reveal_strlit("xl/drawings/_rels/drawing");
        reveal_strlit("xl/charts/chart");
        reveal_strlit(".xml");
        reveal_strlit(".xml.rels");
    }
    let n: usize = snap.sheets.len();
    let active: usize = match snap.active_sheet {
        Some(i) => i,
        None => 0,
    };
    let ghost sheets = snap.sheets@;
    let ghost written = write_sheets(*snap, n as nat);
    let mut styles = StyleRegistry::new();
    let mut sst = SharedStrings::new();
    let mut sheet_list: Vec<Part> = Vec::new();
    let mut drawing_list: Vec<Part> = Vec::new();
    let mut chart_list: Vec<String> = Vec::new();
    let mut drawings: usize = 0;
    let ghost mut xs: Seq<Seq<char>> = Seq::empty();
    let mut i: usize = 0;
    assert(part_texts(sheet_list@) == sheet_parts(sheets, xs, 0));
    assert(part_texts(drawing_list@) == drawing_parts(sheets, 0));
    assert(crate::text::texts(chart_list@) == chart_texts(sheets, 0));
    while i < n
        invariant
            i <= n,
            n == snap.sheets@.len(),
            sheets == snap.sheets@,
            active == active_sheet(*snap),
            book_fits(*snap),
            plain("xl/worksheets/sheet"@) && "xl/worksheets/sheet"@.len() <= 100,
            plain("xl/worksheets/_rels/sheet"@) && "xl/worksheets/_rels/sheet"@.len() <= 100,
            plain("xl/drawings/drawing"@) && "xl/drawings/drawing"@.len() <= 100,
            plain("xl/drawings/_rels/drawing"@) && "xl/drawings/_rels/drawing"@.len() <= 100,
            plain(".xml"@) && 0 < ".xml"@.len() <= 100 && ".xml"@.last() != '/',
            plain(".xml.rels"@) && 0 < ".xml.rels"@.len() <= 100 && ".xml.rels"@.last() != '/',
            styles.wf(),
            sst.wf(),
            (xs, shared_view(styles, sst)) == write_sheets(*snap, i as nat),
            xs.len() == i,
            drawings == drawing_count(sheets, i as nat),
            drawings <= i,
            names_ok(sheet_list@),
            names_ok(drawing_list@),
            part_texts(sheet_list@) == sheet_parts(sheets, xs, i as nat),
            part_texts(drawing_list@) == drawing_parts(sheets, i as nat),
            crate::text::texts(chart_list@) == chart_texts(sheets, i as nat),
        decreases n - i,
    {
        let s = &snap.sheets[i];
        assert(sheet_fits(sheets[i as int]));
        let before: usize = chart_list.len();
        assert(before == crate::text::texts(chart_list@).len());
        let count: usize = sheet_chart_xmls(s, &mut chart_list);
        let frozen_rows: u32 = if i == active {
            snap.frozen_row_count
        } else {
            0
        };
        let frozen_cols: u32 = if i == active {
            snap.frozen_col_count
        } else {
            0
        };
        let xml: String = sheet_to_xml(
            s,
            snap,
            &mut styles,
            &mut sst,
            frozen_rows,
            frozen_cols,
            count > 0,
        );
        let ghost xs0 = xs;
        proof {
            xs = xs.push(xml@);
            sheet_parts_prefix(sheets, xs0, xml@, i as nat);
        }
        i = i + 1;
        let p: Part = numbered_part("xl/worksheets/sheet", i, ".xml", xml);
        push_part(&mut sheet_list, p);
        if count > 0 {
            drawings = drawings + 1;
            let rels: String = sheet_drawing_rels_xml(drawings);
            let q: Part = numbered_part("xl/worksheets/_rels/sheet", i, ".xml.rels", rels);
            push_part(&mut sheet_list, q);
            let dx: String = sheet_drawing(s);
            let dp: Part = numbered_part("xl/drawings/drawing", drawings, ".xml", dx);
            push_part(&mut drawing_list, dp);
            let dr: String = drawing_rels_after(before, count);
            let drp: Part = numbered_part("xl/drawings/_rels/drawing", drawings, ".xml.rels", dr);
            push_part(&mut drawing_list, drp);
        }
    }
    let mut parts: Vec<Part> = Vec::new();
    assert(part_texts(parts@) == Seq::<(Seq<char>, Seq<char>)>::empty());
    push_part(
        &mut parts,
        fixed_part("[Content_Types].xml", content_types_xml(n, drawings, chart_list.len())),
    );
    push_part(&mut parts, fixed_part("_rels/.rels", root_rels_xml()));
    push_part(&mut parts, fixed_part("xl/workbook.xml", workbook_xml(snap)));
    push_part(&mut parts, fixed_part("xl/_rels/workbook.xml.rels", workbook_rels_xml(n)));
    push_part(&mut parts, fixed_part("xl/styles.xml", styles.to_xml()));
    push_part(&mut parts, fixed_part("xl/sharedStrings.xml", sst.to_xml()));
    let ghost head = part_texts(parts@);
    let ghost ct = crate::text::texts(chart_list@);
    assert(ct.len() == chart_list@.len());
    let ghost all_sheets = part_texts(sheet_list@);
    let ghost all_drawings = part_texts(drawing_list@);
    append_parts(&mut parts, sheet_list);
    append_parts(&mut parts, drawing_list);
    let mut m: usize = 0;
    let ghost before = part_texts(parts@);
    assert(before + chart_parts(ct).take(0) == before);
    while m < chart_list.len()
        invariant
            m <= chart_list.len(),
            ct == crate::text::texts(chart_list@),
            plain("xl/charts/chart"@) && "xl/charts/chart"@.len() <= 100,
            plain(".xml"@) && 0 < ".xml"@.len() <= 100 && ".xml"@.last() != '/',
            names_ok(parts@),
            part_texts(parts@) == before + chart_parts(ct).take(m as int),
        decreases chart_list.len() - m,
    {
        let p: Part = numbered_part("xl/charts/chart", m + 1, ".xml", chart_list[m].clone());
        push_part(&mut parts, p);
        assert(chart_parts(ct).take(m + 1) == chart_parts(ct).take(m as int).push(
            chart_parts(ct)[m as int],
        ));
        assert(before + chart_parts(ct).take(m + 1) == (before + chart_parts(ct).take(m as int)).push(
            chart_parts(ct)[m as int],
        ));
        m = m + 1;
    }
    assert(chart_parts(ct).take(m as int) == chart_parts(ct));
    assert(part_texts(parts@) == book_parts(*snap));
    parts
}

fn append_parts(parts: &mut Vec<Part>, more: Vec<Part>)
    requires
        names_ok(old(parts)@),
        names_ok(more@),
    ensures
        names_ok(final(parts)@),
        part_texts(final(parts)@) == part_texts(old(parts)@) + part_texts(more@),
{
    let mut more = more;
    let ghost a = parts@;
    let ghost b = more@;
    parts.append(&mut more);
    assert(parts@ == a + b);
    assert(part_texts(parts@) == part_texts(a) + part_texts(b));
}

proof fn sheet_parts_prefix(sheets: Seq<SheetSnapshot>, xs: Seq<Seq<char>>, x: Seq<char>, n: nat)
    requires
        n <= xs.len(),
    ensures
        sheet_parts(sheets, xs.push(x), n) == sheet_parts(sheets, xs, n),
    decreases n,
{
    if n > 0 {
        sheet_parts_prefix(sheets, xs, x, (n - 1) as nat);
    }
}

/// Whether what a workbook writes has addresses.
pub fn book_in_range(snap: &WorkbookSnapshot) -> (r: bool)
    ensures
        r == book_fits(*snap),
{
    let mut i: usize = 0;
    while i < snap.sheets.len()
        invariant
            i <= snap.sheets.len(),
            forall|k: int|
                0 <= k < i ==> sheet_fits(#[trigger] snap.sheets@[k]) && charts_fit(snap.sheets@[k]),
        decreases snap.sheets.len() - i,
    {
        let s = &snap.sheets[i];
        if !sheet_in_range(s) || !charts_in_sheet(s) {
            assert(!(sheet_fits(snap.sheets@[i as int]) && charts_fit(snap.sheets@[i as int])));
            return false;
        }
        i = i + 1;
    }
    true
}

/// Whether the data of a sheet's charts is inside the sheet.
pub fn charts_in_sheet(s: &SheetSnapshot) -> (r: bool)
    ensures
        r == charts_fit(*s),
{
    let list: Vec<&ChartSpec> = sheet_charts(s);
    let ghost specs = charts(s.floating_objects@);
    assert(deref(list@).len() == specs.len());
    let mut k: usize = 0;
    while k < list.len()
        invariant
            k <= list.len(),
            specs == charts(s.floating_objects@),
            deref(list@) == specs,
            list@.len() == specs.len(),
            forall|j: int| 0 <= j < k ==> chart_fits(#[trigger] specs[j]),
        decreases list.len() - k,
    {
        assert(specs[k as int] == *list@[k as int]);
        if !chart_in_sheet(list[k]) {
            assert(!chart_fits(charts(s.floating_objects@)[k as int]));
            return false;
        }
        k = k + 1;
    }
    true
}

/// A workbook as a file. Nothing comes of it where the archive does not take its parts. Numerals are
/// written as they stand, so the snapshot holds lengths as files count them: widths of columns in
/// characters and margins in inches. A caller that counts pixels, seven to a character, and points,
/// 72 to an inch, turns them before.
pub fn snapshot_to_xlsx(snap: &WorkbookSnapshot) -> (r: Option<Vec<u8>>)
    requires
        book_fits(*snap),
    ensures
        r is Some <==> can_pack(book_parts(*snap)),
        r matches Some(bytes) ==> holds_parts(bytes@, book_parts(*snap)),
{
    let parts: Vec<Part> = xlsx_parts(snap);
    pack_parts(&parts)
}

} // verus!
