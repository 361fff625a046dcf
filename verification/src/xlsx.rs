//! Workbooks as spreadsheet files (Office Open XML): the parts that a file is made of. Widths of
//! columns are counted in characters here and margins in inches, as in files.
use crate::address::{addr, label, push_addr, push_label};
use crate::decimal::{dec, push_dec};
use crate::outline::{is_boundary, is_hidden, level, rebuild_outline, OutlineAxis};
use crate::snapshot::{
    CellSnapshot, CellValue, NamedStyle, NumPair, Orientation, OutlineGroupSnapshot, PageSetup,
    SheetProtection, SheetSnapshot, Span, WorkbookSnapshot,
};
use crate::sorting::{
    all_picked, ascending, ascends, picked_is, places, stable_order, stable_order_sorts,
    stable_sort, u32_count,
};
use crate::style::{empty_style, overlaid, unnamed, Style};
use crate::text::{opt, place, push_if, put, same_text};
use crate::xlsx_drawing::{ext_text, sparkline_ext_lst, sparklines_fit, sparklines_in_sheet};
use crate::xlsx_style::{interned, xml_decl, xml_declaration, SharedStrings, StyleRegistry, Tables};
use crate::xml::{esc, esc_text, Escape};
use std::collections::HashMap;
use vstd::prelude::*;
use vstd::std_specs::hash::*;

verus! {

// ---- styles of cells

/// The style that a name stands for; the empty one where it stands for none.
pub open spec fn named_style(styles: Seq<NamedStyle>, name: Seq<char>) -> Style
    decreases styles.len(),
{
    if styles.len() == 0 {
        empty_style()
    } else {
        let rest = styles.skip(1);
        if styles[0].name@ == name {
            styles[0].style
        } else {
            named_style(rest, name)
        }
    }
}

/// The named styles of a workbook.
pub open spec fn book_styles(wb: WorkbookSnapshot) -> Seq<NamedStyle> {
    match wb.styles {
        Some(v) => v@,
        None => Seq::empty(),
    }
}

/// The style of a cell, with what its named style sets.
pub open spec fn resolved(style: Option<Style>, styles: Seq<NamedStyle>) -> Style {
    match style {
        None => empty_style(),
        Some(s) => match s.style_name {
            None => s,
            Some(n) => unnamed(overlaid(named_style(styles, n@), unnamed(s))),
        },
    }
}

/// The style of a cell, with what its named style sets.
pub fn resolve_cell_style(style: &Option<Style>, wb: &WorkbookSnapshot) -> (r: Style)
    ensures
        r == resolved(*style, book_styles(*wb)),
{
    let s: &Style = match style {
        None => {
            return Style::default();
        },
        Some(s) => s,
    };
    let name: &String = match &s.style_name {
        None => {
            return s.copied();
        },
        Some(n) => n,
    };
    let mut base: Style = Style::default();
    if let Some(list) = &wb.styles {
        let mut i: usize = 0;
        let mut found = false;
        assert(list@.skip(0) == list@);
        while i < list.len() && !found
            invariant
                i <= list.len(),
                !found ==> base == empty_style() && named_style(list@, name@) == named_style(
                    list@.skip(i as int),
                    name@,
                ),
                found ==> base == named_style(list@, name@),
            decreases list.len() - i,
        {
            assert(list@.skip(i as int).skip(1) == list@.skip(i + 1));
            if same_text(list[i].name.as_str(), name.as_str()) {
                base = list[i].style.copied();
                found = true;
            }
            i = i + 1;
        }
    }
    let mut rest: Style = s.copied();
    rest.style_name = None;
    let mut out: Style = base.overlay(&rest);
    out.style_name = None;
    out
}

// ---- cells

/// What a file shares among its sheets: the tables of styles and the shared strings.
pub struct Shared {
    pub tables: Tables,
    pub texts: Seq<Seq<char>>,
}

/// The attribute of a cell's style.
pub open spec fn style_attr(s: nat) -> Seq<char> {
    opt(s != 0, " s=\""@ + dec(s) + "\""@)
}

/// What starts a cell.
pub open spec fn cell_head(cell: CellSnapshot, s: nat) -> Seq<char> {
    "<c r=\""@ + addr(cell.r as nat, cell.c as nat) + "\""@ + style_attr(s)
}

/// The type of a formula's value: texts say what they are.
pub open spec fn formula_type(v: Option<CellValue>) -> Seq<char> {
    match v {
        Some(CellValue::Text(t)) if t@.len() > 0 => " t=\"str\""@,
        _ => Seq::empty(),
    }
}

/// The value of a formula as it is written.
pub open spec fn formula_value(v: Option<CellValue>) -> Seq<char> {
    match v {
        Some(CellValue::Number(n)) => "<v>"@ + n@ + "</v>"@,
        Some(CellValue::Bool(b)) => if b {
            "<v>1</v>"@
        } else {
            "<v>0</v>"@
        },
        Some(CellValue::Text(t)) if t@.len() > 0 => "<v>"@ + esc_text(t@, Escape::Full) + "</v>"@,
        _ => Seq::empty(),
    }
}

/// A cell as it is written, where `s` is the number of its style and `si` that of its text.
pub open spec fn cell_xml(cell: CellSnapshot, s: nat, si: nat) -> Seq<char> {
    match cell.f {
        Some(f) => cell_head(cell, s) + formula_type(cell.v) + "><f>"@ + esc_text(f@, Escape::Full)
            + "</f>"@ + formula_value(cell.v) + "</c>"@,
        None => match cell.v {
            Some(CellValue::Number(n)) => cell_head(cell, s) + "><v>"@ + n@ + "</v></c>"@,
            Some(CellValue::Bool(b)) => cell_head(cell, s) + (if b {
                " t=\"b\"><v>1</v></c>"@
            } else {
                " t=\"b\"><v>0</v></c>"@
            }),
            Some(CellValue::Text(t)) if t@.len() > 0 => cell_head(cell, s) + " t=\"s\"><v>"@ + dec(si)
                + "</v></c>"@,
            _ => opt(s != 0, cell_head(cell, s) + "/>"@),
        },
    }
}

/// The text that a cell puts among the shared strings.
pub open spec fn shared_of(cell: CellSnapshot) -> Option<Seq<char>> {
    match cell.v {
        Some(CellValue::Text(t)) if t@.len() > 0 && cell.f is None => Some(t@),
        _ => None,
    }
}

/// A cell as it is written, and what is shared behind it.
pub open spec fn write_cell(cell: CellSnapshot, styles: Seq<NamedStyle>, sh: Shared) -> (
    Seq<char>,
    Shared,
) {
    let (tables, s) = interned(sh.tables, resolved(cell.s, styles));
    match shared_of(cell) {
        Some(t) => (
            cell_xml(cell, s, place(sh.texts, t)),
            Shared { tables, texts: put(sh.texts, t) },
        ),
        None => (cell_xml(cell, s, 0), Shared { tables, texts: sh.texts }),
    }
}

pub open spec fn shared_view(styles: StyleRegistry, sst: SharedStrings) -> Shared {
    Shared { tables: styles@, texts: sst@ }
}

/// A cell as it is written. Texts go to the shared strings, styles to the tables.
pub fn cell_to_xml(
    cell: &CellSnapshot,
    wb: &WorkbookSnapshot,
    styles: &mut StyleRegistry,
    sst: &mut SharedStrings,
) -> (r: String)
    requires
        old(styles).wf(),
        old(sst).wf(),
    ensures
        final(styles).wf(),
        final(sst).wf(),
        (r@, shared_view(*final(styles), *final(sst))) == write_cell(
            *cell,
            book_styles(*wb),
            shared_view(*old(styles), *old(sst)),
        ),
{
    let style: Style = resolve_cell_style(&cell.s, wb);
    let s: usize = styles.intern(&style);
    let mut out: String = "<c r=\"".to_string();
    push_addr(&mut out, cell.r, cell.c);
    out.append("\"");
    let mut attr: String = " s=\"".to_string();
    push_dec(&mut attr, s as u128);
    attr.append("\"");
    push_if(&mut out, s != 0, attr.as_str());
    assert(out@ == cell_head(*cell, s as nat));
    if let Some(f) = &cell.f {
        let mut value: String = String::new();
        let mut kind: &str = "";
        proof {
            reveal_strlit("");
        }
        assert(kind@ == Seq::<char>::empty());
        match &cell.v {
            Some(CellValue::Number(n)) => {
                value = "<v>".to_string();
                value.append(n.as_str());
                value.append("</v>");
            },
            Some(CellValue::Bool(b)) => {
                value = if *b {
                    "<v>1</v>".to_string()
                } else {
                    "<v>0</v>".to_string()
                };
            },
            Some(CellValue::Text(t)) => {
                if !t.as_str().is_empty() {
                    let e: String = esc(t.as_str());
                    value = "<v>".to_string();
                    value.append(e.as_str());
                    value.append("</v>");
                    kind = " t=\"str\"";
                }
            },
            None => {},
        }
        let fe: String = esc(f.as_str());
        out.append(kind);
        out.append("><f>");
        out.append(fe.as_str());
        out.append("</f>");
        out.append(value.as_str());
        out.append("</c>");
        return out;
    }
    match &cell.v {
        Some(CellValue::Number(n)) => {
            out.append("><v>");
            out.append(n.as_str());
            out.append("</v></c>");
            out
        },
        Some(CellValue::Bool(b)) => {
            if *b {
                out.append(" t=\"b\"><v>1</v></c>");
            } else {
                out.append(" t=\"b\"><v>0</v></c>");
            }
            out
        },
        Some(CellValue::Text(t)) => {
            if !t.as_str().is_empty() {
                let si: usize = sst.intern(t.as_str());
                out.append(" t=\"s\"><v>");
                push_dec(&mut out, si as u128);
                out.append("</v></c>");
                return out;
            }
            if s != 0 {
                out.append("/>");
                out
            } else {
                String::new()
            }
        },
        None => {
            if s != 0 {
                out.append("/>");
                out
            } else {
                String::new()
            }
        },
    }
}

/// What cells are ordered by: their row, then their column.
pub open spec fn cell_keys(cells: Seq<CellSnapshot>) -> Seq<u64> {
    Seq::new(cells.len(), |i: int| (cells[i].r * 0x1_0000_0000 + cells[i].c) as u64)
}

/// Cells by row, then by column; cells of one place keep their order.
pub open spec fn sorted_cells(cells: Seq<CellSnapshot>) -> Seq<CellSnapshot> {
    let o = stable_order(cell_keys(cells), cells.len());
    Seq::new(o.len(), |i: int| cells[o[i]])
}

/// Cells as they are written, and what is shared behind them.
pub open spec fn write_cells(cells: Seq<CellSnapshot>, styles: Seq<NamedStyle>, sh: Shared) -> (
    Seq<Seq<char>>,
    Shared,
)
    decreases cells.len(),
{
    if cells.len() == 0 {
        (Seq::empty(), sh)
    } else {
        let (xs, sh1) = write_cells(cells.drop_last(), styles, sh);
        let (x, sh2) = write_cell(cells.last(), styles, sh1);
        (xs.push(x), sh2)
    }
}

/// The order of cells by row, then by column.
pub fn order_cells(cells: &Vec<CellSnapshot>) -> (r: Vec<usize>)
    ensures
        places(r@) == stable_order(cell_keys(cells@), cells@.len()),
{
    let mut keys: Vec<u64> = Vec::new();
    let mut j: usize = 0;
    while j < cells.len()
        invariant
            j <= cells.len(),
            keys@ == cell_keys(cells@).take(j as int),
        decreases cells.len() - j,
    {
        let key: u64 = cells[j].r as u64 * 0x1_0000_0000 + cells[j].c as u64;
        keys.push(key);
        assert(cell_keys(cells@).take(j + 1) == cell_keys(cells@).take(j as int).push(key));
        j = j + 1;
    }
    assert(keys@ == cell_keys(cells@));
    stable_sort(&keys)
}

// ---- rows and columns

/// The text that a list of pairs gives an index: that of its last pair.
pub open spec fn last_pair(pairs: Seq<NumPair>, k: u32) -> Option<Seq<char>>
    decreases pairs.len(),
{
    if pairs.len() == 0 {
        None
    } else if pairs.last().0 == k {
        Some(pairs.last().1@)
    } else {
        last_pair(pairs.drop_last(), k)
    }
}

/// Whether summaries stand below their rows.
pub open spec fn below(s: SheetSnapshot) -> bool {
    s.summary_below != Some(false)
}

/// Whether summaries stand right of their columns.
pub open spec fn right(s: SheetSnapshot) -> bool {
    s.summary_right != Some(false)
}

/// The attributes of a row or a column in an outline.
pub open spec fn outline_attrs(
    groups: Seq<OutlineGroupSnapshot>,
    i: int,
    after: bool,
    hidden: bool,
) -> Seq<char> {
    opt(level(groups, i, after) > 0, " outlineLevel=\""@ + dec(level(groups, i, after)) + "\""@) + opt(
        hidden,
        " hidden=\"1\""@,
    ) + opt(is_boundary(groups, i, after), " collapsed=\"1\""@)
}

pub open spec fn col_hidden(s: SheetSnapshot, c: u32) -> bool {
    s.hidden_cols@.contains(c) || is_hidden(s.col_outlines@, c as int, right(s))
}

/// Whether a column is written: it has a width, is hidden or is a detail.
pub open spec fn col_listed(s: SheetSnapshot, c: u32) -> bool {
    last_pair(s.col_widths@, c) is Some || col_hidden(s, c) || (c < s.col_count && level(
        s.col_outlines@,
        c as int,
        right(s),
    ) > 0)
}

/// The width of a column as it is written: its numeral as it stands, in characters.
pub open spec fn width_attr(w: Option<Seq<char>>) -> Seq<char> {
    match w {
        Some(t) => " width=\""@ + t + "\" customWidth=\"1\""@,
        None => " width=\"8.43\""@,
    }
}

/// A column as it is written.
pub open spec fn col_xml(s: SheetSnapshot, c: u32) -> Seq<char> {
    "<col min=\""@ + dec((c + 1) as nat) + "\" max=\""@ + dec((c + 1) as nat) + "\""@ + width_attr(
        last_pair(s.col_widths@, c),
    ) + outline_attrs(s.col_outlines@, c as int, right(s), col_hidden(s, c)) + "/>"@
}

pub open spec fn col_list_xml(s: SheetSnapshot, list: Seq<u32>) -> Seq<char>
    decreases list.len(),
{
    if list.len() == 0 {
        Seq::empty()
    } else {
        col_list_xml(s, list.drop_last()) + col_xml(s, list.last())
    }
}

/// The columns that are written.
pub open spec fn listed_cols(s: SheetSnapshot) -> Seq<u32> {
    all_picked(|c: u32| col_listed(s, c))
}

/// The columns of a sheet as they are written.
pub open spec fn cols_xml(s: SheetSnapshot) -> Seq<char> {
    opt(
        listed_cols(s).len() > 0,
        "<cols>"@ + col_list_xml(s, listed_cols(s)) + "</cols>"@,
    )
}

pub open spec fn row_hidden(s: SheetSnapshot, r: u32) -> bool {
    s.hidden_rows@.contains(r) || is_hidden(s.row_outlines@, r as int, below(s))
}

/// Whether a cell stands in a row.
pub open spec fn has_row(cells: Seq<CellSnapshot>, r: u32) -> bool {
    exists|k: int| 0 <= k < cells.len() && (#[trigger] cells[k]).r == r
}

/// Whether a row is written: it has cells or a height, is hidden or is a detail.
pub open spec fn row_listed(s: SheetSnapshot, r: u32) -> bool {
    has_row(s.cells@, r) || last_pair(s.row_heights@, r) is Some || row_hidden(s, r) || (r
        < s.row_count && level(s.row_outlines@, r as int, below(s)) > 0)
}

/// The height of a row as it is written.
pub open spec fn height_attr(h: Option<Seq<char>>) -> Seq<char> {
    match h {
        Some(t) => " ht=\""@ + t + "\" customHeight=\"1\""@,
        None => Seq::empty(),
    }
}

/// The texts of those of the first `n` cells that stand in a row.
pub open spec fn row_cells(cells: Seq<CellSnapshot>, xs: Seq<Seq<char>>, r: u32, n: int) -> Seq<char>
    decreases n,
{
    if n <= 0 {
        Seq::empty()
    } else if cells[n - 1].r == r {
        row_cells(cells, xs, r, n - 1) + xs[n - 1]
    } else {
        row_cells(cells, xs, r, n - 1)
    }
}

/// A row as it is written. `cells` are the sheet's cells in order and `xs` their texts.
pub open spec fn row_xml(s: SheetSnapshot, cells: Seq<CellSnapshot>, xs: Seq<Seq<char>>, r: u32) -> Seq<
    char,
> {
    "<row r=\""@ + dec((r + 1) as nat) + "\""@ + height_attr(last_pair(s.row_heights@, r))
        + outline_attrs(s.row_outlines@, r as int, below(s), row_hidden(s, r)) + ">"@ + row_cells(
        cells,
        xs,
        r,
        cells.len() as int,
    ) + "</row>"@
}

pub open spec fn row_list_xml(
    s: SheetSnapshot,
    cells: Seq<CellSnapshot>,
    xs: Seq<Seq<char>>,
    list: Seq<u32>,
) -> Seq<char>
    decreases list.len(),
{
    if list.len() == 0 {
        Seq::empty()
    } else {
        row_list_xml(s, cells, xs, list.drop_last()) + row_xml(s, cells, xs, list.last())
    }
}

/// The rows that are written.
pub open spec fn listed_rows(s: SheetSnapshot) -> Seq<u32> {
    all_picked(|r: u32| row_listed(s, r))
}

fn index_pairs(pairs: &Vec<NumPair>) -> (r: HashMap<u32, usize>)
    ensures
        forall|k: u32| #[trigger]
            r@.contains_key(k) <==> last_pair(pairs@, k) is Some,
        forall|k: u32| #[trigger]
            r@.contains_key(k) ==> r@[k] < pairs@.len() && last_pair(pairs@, k) == Some(
                pairs@[r@[k] as int].1@,
            ),
{
    broadcast use group_hash_axioms;

    let mut m: HashMap<u32, usize> = HashMap::new();
    let mut i: usize = 0;
    while i < pairs.len()
        invariant
            i <= pairs.len(),
            forall|k: u32| #[trigger]
                m@.contains_key(k) <==> last_pair(pairs@.take(i as int), k) is Some,
            forall|k: u32| #[trigger]
                m@.contains_key(k) ==> m@[k] < i && last_pair(pairs@.take(i as int), k) == Some(
                    pairs@[m@[k] as int].1@,
                ),
        decreases pairs.len() - i,
    {
        assert(pairs@.take(i + 1).drop_last() == pairs@.take(i as int));
        m.insert(pairs[i].0, i);
        i = i + 1;
    }
    assert(pairs@.take(i as int) == pairs@);
    m
}

fn pair_keys(pairs: &Vec<NumPair>) -> (r: Vec<u32>)
    ensures
        forall|k: u32| #[trigger] r@.contains(k) <==> last_pair(pairs@, k) is Some,
{
    let mut out: Vec<u32> = Vec::new();
    let mut i: usize = 0;
    while i < pairs.len()
        invariant
            i <= pairs.len(),
            forall|k: u32| #[trigger]
                out@.contains(k) <==> last_pair(pairs@.take(i as int), k) is Some,
        decreases pairs.len() - i,
    {
        assert(pairs@.take(i + 1).drop_last() == pairs@.take(i as int));
        let ghost before = out@;
        let x: u32 = pairs[i].0;
        out.push(x);
        proof {
            pushed(before, x);
        }
        i = i + 1;
    }
    assert(pairs@.take(i as int) == pairs@);
    out
}

proof fn pushed(s: Seq<u32>, x: u32)
    ensures
        forall|k: u32| #[trigger] s.push(x).contains(k) <==> s.contains(k) || k == x,
{
    assert forall|k: u32| #[trigger] s.push(x).contains(k) <==> s.contains(k) || k == x by {
        if s.contains(k) {
            let j = choose|j: int| 0 <= j < s.len() && s[j] == k;
            assert(s.push(x)[j] == k);
        }
        assert(s.push(x)[s.len() as int] == x);
        if s.push(x).contains(k) {
            let j = choose|j: int| 0 <= j < s.len() + 1 && s.push(x)[j] == k;
            if j < s.len() {
                assert(s[j] == k);
            }
        }
    }
}

fn append_all(dst: &mut Vec<u32>, src: &Vec<u32>)
    ensures
        forall|k: u32| #[trigger] final(dst)@.contains(k) <==> old(dst)@.contains(k) || src@.contains(k),
{
    let ghost d0 = dst@;
    let mut i: usize = 0;
    while i < src.len()
        invariant
            i <= src.len(),
            forall|k: u32| #[trigger]
                dst@.contains(k) <==> d0.contains(k) || src@.take(i as int).contains(k),
        decreases src.len() - i,
    {
        let ghost before = dst@;
        dst.push(src[i]);
        proof {
            pushed(before, src@[i as int]);
            pushed(src@.take(i as int), src@[i as int]);
            assert(src@.take(i + 1) == src@.take(i as int).push(src@[i as int]));
        }
        i = i + 1;
    }
    assert(src@.take(i as int) == src@);
}

fn levelled(axis: &OutlineAxis, count: u32, after: bool) -> (r: Vec<u32>)
    ensures
        forall|k: u32| #[trigger] r@.contains(k) <==> k < count && level(axis@, k as int, after) > 0,
{
    let mut out: Vec<u32> = Vec::new();
    let mut i: u32 = 0;
    while i < count
        invariant
            i <= count,
            forall|k: u32| #[trigger]
                out@.contains(k) <==> k < i && level(axis@, k as int, after) > 0,
        decreases count - i,
    {
        if axis.detail_level_at(i, after) > 0 {
            let ghost before = out@;
            out.push(i);
            proof {
                pushed(before, i);
            }
        }
        i = i + 1;
    }
    out
}

fn cell_rows(cells: &Vec<CellSnapshot>) -> (r: Vec<u32>)
    ensures
        forall|k: u32| #[trigger] r@.contains(k) <==> has_row(cells@, k),
{
    let mut out: Vec<u32> = Vec::new();
    let mut i: usize = 0;
    while i < cells.len()
        invariant
            i <= cells.len(),
            forall|k: u32| #[trigger] out@.contains(k) <==> has_row(cells@.take(i as int), k),
        decreases cells.len() - i,
    {
        let ghost before = out@;
        let x: u32 = cells[i].r;
        out.push(x);
        proof {
            pushed(before, x);
            let a = cells@.take(i as int);
            let b = cells@.take(i + 1);
            assert forall|k: u32| #[trigger] out@.contains(k) <==> has_row(b, k) by {
                if has_row(a, k) {
                    let j = choose|j: int| 0 <= j < a.len() && (#[trigger] a[j]).r == k;
                    assert(b[j].r == k);
                }
                if has_row(b, k) {
                    let j = choose|j: int| 0 <= j < b.len() && (#[trigger] b[j]).r == k;
                    if j < i {
                        assert(a[j].r == k);
                    }
                }
                assert(b[i as int].r == x);
            }
        }
        i = i + 1;
    }
    assert(cells@.take(i as int) == cells@);
    out
}

fn member_map(v: &Vec<u32>) -> (r: HashMap<u32, bool>)
    ensures
        forall|k: u32| #[trigger] r@.contains_key(k) <==> v@.contains(k),
{
    broadcast use group_hash_axioms;

    let mut m: HashMap<u32, bool> = HashMap::new();
    let mut i: usize = 0;
    while i < v.len()
        invariant
            i <= v.len(),
            forall|k: u32| #[trigger] m@.contains_key(k) <==> v@.take(i as int).contains(k),
        decreases v.len() - i,
    {
        proof {
            pushed(v@.take(i as int), v@[i as int]);
            assert(v@.take(i + 1) == v@.take(i as int).push(v@[i as int]));
        }
        m.insert(v[i], true);
        i = i + 1;
    }
    assert(v@.take(i as int) == v@);
    m
}

fn push_outline(out: &mut String, axis: &OutlineAxis, i: u32, after: bool, hidden: bool)
    ensures
        final(out)@ == old(out)@ + outline_attrs(axis@, i as int, after, hidden),
{
    let n: usize = axis.detail_level_at(i, after);
    let mut lvl: String = " outlineLevel=\"".to_string();
    push_dec(&mut lvl, n as u128);
    lvl.append("\"");
    let mut s: String = String::new();
    push_if(&mut s, n > 0, lvl.as_str());
    assert(s@ == opt(n > 0, lvl@));
    push_if(&mut s, hidden, " hidden=\"1\"");
    push_if(&mut s, axis.is_collapse_boundary(i, after), " collapsed=\"1\"");
    out.append(s.as_str());
}

fn is_not_false(o: Option<bool>) -> (r: bool)
    ensures
        r == (o != Some(false)),
{
    match o {
        Some(b) => b,
        None => true,
    }
}

fn cols_to_xml(snap: &SheetSnapshot, axis: &OutlineAxis) -> (r: String)
    requires
        axis@ == snap.col_outlines@,
    ensures
        r@ == cols_xml(*snap),
{
    broadcast use group_hash_axioms;

    let after = is_not_false(snap.summary_right);
    let mut hidden: Vec<u32> = axis.hidden_indices(after);
    append_all(&mut hidden, &snap.hidden_cols);
    let mut all: Vec<u32> = pair_keys(&snap.col_widths);
    append_all(&mut all, &hidden);
    let lv: Vec<u32> = levelled(axis, snap.col_count, after);
    append_all(&mut all, &lv);
    let list: Vec<u32> = ascending(&all);
    let ghost s = *snap;
    assert forall|c: u32| #[trigger] list@.contains(c) <==> col_listed(s, c) by {
        assert(all@.contains(c) <==> list@.contains(c));
        assert(hidden@.contains(c) <==> col_hidden(s, c));
        assert(lv@.contains(c) <==> c < s.col_count && level(s.col_outlines@, c as int, right(s)) > 0);
    }
    proof {
        picked_is(list@, |c: u32| col_listed(s, c), u32_count());
    }
    assert(list@ == listed_cols(s));
    if list.len() == 0 {
        return String::new();
    }
    let widths: HashMap<u32, usize> = index_pairs(&snap.col_widths);
    let is_hid: HashMap<u32, bool> = member_map(&hidden);
    let mut out: String = String::new();
    let mut i: usize = 0;
    while i < list.len()
        invariant
            i <= list.len(),
            s == *snap,
            after == right(s),
            axis@ == snap.col_outlines@,
            forall|c: u32| #[trigger] hidden@.contains(c) <==> col_hidden(s, c),
            forall|c: u32| #[trigger] is_hid@.contains_key(c) <==> hidden@.contains(c),
            forall|k: u32| #[trigger]
                widths@.contains_key(k) <==> last_pair(snap.col_widths@, k) is Some,
            forall|k: u32| #[trigger]
                widths@.contains_key(k) ==> widths@[k] < snap.col_widths@.len() && last_pair(
                    snap.col_widths@,
                    k,
                ) == Some(snap.col_widths@[widths@[k] as int].1@),
            out@ == col_list_xml(s, list@.take(i as int)),
        decreases list.len() - i,
    {
        let c: u32 = list[i];
        let mut x: String = "<col min=\"".to_string();
        push_dec(&mut x, c as u128 + 1);
        x.append("\" max=\"");
        push_dec(&mut x, c as u128 + 1);
        x.append("\"");
        let mut w: String = " width=\"8.43\"".to_string();
        match widths.get(&c) {
            Some(k) => {
                w = " width=\"".to_string();
                w.append(snap.col_widths[*k].1.as_str());
                w.append("\" customWidth=\"1\"");
            },
            None => {},
        }
        assert(w@ == width_attr(last_pair(s.col_widths@, c))) by {
            assert(widths@.contains_key(c) || !widths@.contains_key(c));
        }
        x.append(w.as_str());
        let h = is_hid.contains_key(&c);
        assert(h == col_hidden(s, c)) by {
            assert(is_hid@.contains_key(c) <==> hidden@.contains(c));
        }
        push_outline(&mut x, axis, c, after, h);
        x.append("/>");
        assert(x@ == col_xml(s, c));
        out.append(x.as_str());
        assert(list@.take(i + 1).drop_last() == list@.take(i as int));
        i = i + 1;
    }
    assert(list@.take(i as int) == list@);
    let mut r: String = "<cols>".to_string();
    r.append(out.as_str());
    r.append("</cols>");
    r
}

proof fn row_cells_skip(cells: Seq<CellSnapshot>, xs: Seq<Seq<char>>, r: u32, a: int, b: int)
    requires
        0 <= a <= b <= cells.len(),
        forall|k: int| a <= k < b ==> (#[trigger] cells[k]).r != r,
    ensures
        row_cells(cells, xs, r, b) == row_cells(cells, xs, r, a),
    decreases b - a,
{
    if a < b {
        row_cells_skip(cells, xs, r, a, b - 1);
    }
}

/// The rows of a sheet as they are written, with what is shared behind them.
pub open spec fn write_rows(s: SheetSnapshot, styles: Seq<NamedStyle>, sh: Shared) -> (Seq<char>, Shared) {
    let cells = sorted_cells(s.cells@);
    let (xs, sh1) = write_cells(cells, styles, sh);
    (row_list_xml(s, cells, xs, listed_rows(s)), sh1)
}

fn listed_rows_of(snap: &SheetSnapshot, axis: &OutlineAxis, hidden: &Vec<u32>) -> (r: Vec<u32>)
    requires
        axis@ == snap.row_outlines@,
        forall|x: u32| #[trigger] hidden@.contains(x) <==> row_hidden(*snap, x),
    ensures
        r@ == listed_rows(*snap),
        ascends(r@),
        forall|x: u32| #[trigger] r@.contains(x) <==> row_listed(*snap, x),
{
    let after = is_not_false(snap.summary_below);
    let mut all: Vec<u32> = cell_rows(&snap.cells);
    let hts: Vec<u32> = pair_keys(&snap.row_heights);
    append_all(&mut all, &hts);
    append_all(&mut all, hidden);
    let lv: Vec<u32> = levelled(axis, snap.row_count, after);
    append_all(&mut all, &lv);
    let list: Vec<u32> = ascending(&all);
    let ghost s = *snap;
    assert forall|x: u32| #[trigger] list@.contains(x) <==> row_listed(s, x) by {
        assert(all@.contains(x) <==> list@.contains(x));
        assert(hidden@.contains(x) <==> row_hidden(s, x));
        assert(hts@.contains(x) <==> last_pair(s.row_heights@, x) is Some);
        assert(lv@.contains(x) <==> x < s.row_count && level(s.row_outlines@, x as int, below(s)) > 0);
    }
    proof {
        picked_is(list@, |x: u32| row_listed(s, x), u32_count());
    }
    list
}

fn write_all_cells(
    snap: &SheetSnapshot,
    order: &Vec<usize>,
    wb: &WorkbookSnapshot,
    styles: &mut StyleRegistry,
    sst: &mut SharedStrings,
) -> (r: Vec<String>)
    requires
        places(order@) == stable_order(cell_keys(snap.cells@), snap.cells@.len()),
        old(styles).wf(),
        old(sst).wf(),
    ensures
        final(styles).wf(),
        final(sst).wf(),
        (crate::text::texts(r@), shared_view(*final(styles), *final(sst))) == write_cells(
            sorted_cells(snap.cells@),
            book_styles(*wb),
            shared_view(*old(styles), *old(sst)),
        ),
{
    let ghost cells = sorted_cells(snap.cells@);
    let ghost sh = shared_view(*styles, *sst);
    let ghost bs = book_styles(*wb);
    proof {
        stable_order_sorts(cell_keys(snap.cells@), snap.cells@.len());
    }
    let mut xs: Vec<String> = Vec::new();
    let mut k: usize = 0;
    assert(crate::text::texts(xs@) == Seq::<Seq<char>>::empty());
    assert(cells.take(0) == Seq::<CellSnapshot>::empty());
    while k < order.len()
        invariant
            k <= order.len(),
            cells == sorted_cells(snap.cells@),
            cells.len() == order.len(),
            places(order@) == stable_order(cell_keys(snap.cells@), snap.cells@.len()),
            forall|i: int|
                0 <= i < order@.len() ==> 0 <= #[trigger] places(order@)[i] < snap.cells@.len(),
            bs == book_styles(*wb),
            styles.wf(),
            sst.wf(),
            (crate::text::texts(xs@), shared_view(*styles, *sst)) == write_cells(
                cells.take(k as int),
                bs,
                sh,
            ),
        decreases order.len() - k,
    {
        assert(places(order@)[k as int] == order@[k as int]);
        let cell = &snap.cells[order[k]];
        assert(*cell == cells[k as int]);
        let ghost before = crate::text::texts(xs@);
        let x: String = cell_to_xml(cell, wb, styles, sst);
        let ghost xt = x@;
        xs.push(x);
        assert(crate::text::texts(xs@) == before.push(xt));
        assert(cells.take(k + 1).drop_last() == cells.take(k as int));
        assert(cells.take(k + 1).last() == cells[k as int]);
        k = k + 1;
    }
    assert(cells.take(k as int) == cells);
    xs
}

fn rows_to_xml(
    snap: &SheetSnapshot,
    axis: &OutlineAxis,
    wb: &WorkbookSnapshot,
    styles: &mut StyleRegistry,
    sst: &mut SharedStrings,
) -> (r: String)
    requires
        axis@ == snap.row_outlines@,
        old(styles).wf(),
        old(sst).wf(),
    ensures
        final(styles).wf(),
        final(sst).wf(),
        (r@, shared_view(*final(styles), *final(sst))) == write_rows(
            *snap,
            book_styles(*wb),
            shared_view(*old(styles), *old(sst)),
        ),
{
    broadcast use group_hash_axioms;

    let ghost s = *snap;
    let after = is_not_false(snap.summary_below);
    let mut hidden: Vec<u32> = axis.hidden_indices(after);
    append_all(&mut hidden, &snap.hidden_rows);
    assert forall|x: u32| #[trigger] hidden@.contains(x) <==> row_hidden(s, x) by {}
    let list: Vec<u32> = listed_rows_of(snap, axis, &hidden);
    let order: Vec<usize> = order_cells(&snap.cells);
    let xs: Vec<String> = write_all_cells(snap, &order, wb, styles, sst);
    let ghost cells = sorted_cells(snap.cells@);
    let ghost xt = crate::text::texts(xs@);
    let ghost keys = cell_keys(snap.cells@);
    let ghost o = stable_order(keys, snap.cells@.len());
    proof {
        stable_order_sorts(keys, snap.cells@.len());
        assert forall|i: int, j: int| 0 <= i < j < cells.len() implies cells[i].r <= cells[j].r by {
            assert(keys[o[i]] <= keys[o[j]]);
            assert(keys[o[i]] == cells[i].r * 0x1_0000_0000 + cells[i].c);
            assert(keys[o[j]] == cells[j].r * 0x1_0000_0000 + cells[j].c);
        }
        assert forall|i: int| 0 <= i < cells.len() implies list@.contains((#[trigger] cells[i]).r) by {
            assert(cells[i] == snap.cells@[o[i]]);
            assert(has_row(snap.cells@, cells[i].r));
            assert(row_listed(s, cells[i].r));
        }
        write_cells_len(cells, book_styles(*wb), shared_view(*old(styles), *old(sst)));
    }
    let heights: HashMap<u32, usize> = index_pairs(&snap.row_heights);
    let is_hid: HashMap<u32, bool> = member_map(&hidden);
    let mut out: String = String::new();
    let mut p: usize = 0;
    let mut j: usize = 0;
    proof {
        if list@.len() > 0 {
            assert forall|k: int| 0 <= k < cells.len() implies (#[trigger] cells[k]).r >= list@[0] by {
                let q = choose|q: int| 0 <= q < list@.len() && list@[q] == cells[k].r;
            }
        } else if cells.len() > 0 {
            assert(list@.contains(cells[0].r));
        }
    }
    while j < list.len()
        invariant
            j <= list.len(),
            s == *snap,
            after == below(s),
            axis@ == snap.row_outlines@,
            order@.len() == cells.len(),
            places(order@) == o,
            o == stable_order(keys, snap.cells@.len()),
            cells == sorted_cells(snap.cells@),
            keys == cell_keys(snap.cells@),
            forall|i: int| 0 <= i < o.len() ==> 0 <= #[trigger] o[i] < snap.cells@.len(),
            xt == crate::text::texts(xs@),
            xt.len() == cells.len(),
            ascends(list@),
            forall|a: int, b: int| 0 <= a < b < cells.len() ==> cells[a].r <= cells[b].r,
            forall|i: int| 0 <= i < cells.len() ==> list@.contains((#[trigger] cells[i]).r),
            forall|x: u32| #[trigger] hidden@.contains(x) <==> row_hidden(s, x),
            forall|c: u32| #[trigger] is_hid@.contains_key(c) <==> hidden@.contains(c),
            forall|k: u32| #[trigger]
                heights@.contains_key(k) <==> last_pair(snap.row_heights@, k) is Some,
            forall|k: u32| #[trigger]
                heights@.contains_key(k) ==> heights@[k] < snap.row_heights@.len() && last_pair(
                    snap.row_heights@,
                    k,
                ) == Some(snap.row_heights@[heights@[k] as int].1@),
            p <= cells.len(),
            j < list@.len() ==> forall|k: int| 0 <= k < p ==> (#[trigger] cells[k]).r < list@[j as int],
            j < list@.len() ==> forall|k: int|
                p <= k < cells.len() ==> (#[trigger] cells[k]).r >= list@[j as int],
            out@ == row_list_xml(s, cells, xt, list@.take(j as int)),
        decreases list.len() - j,
    {
        let r: u32 = list[j];
        let mut x: String = "<row r=\"".to_string();
        push_dec(&mut x, r as u128 + 1);
        x.append("\"");
        let mut h: String = String::new();
        match heights.get(&r) {
            Some(k) => {
                h = " ht=\"".to_string();
                h.append(snap.row_heights[*k].1.as_str());
                h.append("\" customHeight=\"1\"");
            },
            None => {},
        }
        assert(h@ == height_attr(last_pair(s.row_heights@, r))) by {
            assert(heights@.contains_key(r) || !heights@.contains_key(r));
        }
        x.append(h.as_str());
        let hid = is_hid.contains_key(&r);
        assert(hid == row_hidden(s, r)) by {
            assert(is_hid@.contains_key(r) <==> hidden@.contains(r));
        }
        push_outline(&mut x, axis, r, after, hid);
        x.append(">");
        let ghost p0 = p as int;
        let mut inner: String = String::new();
        proof {
            row_cells_skip(cells, xt, r, 0, p0);
            assert forall|i: int| 0 <= i < order@.len() implies #[trigger] order@[i] < snap.cells@.len() by {
                assert(o[i] == order@[i]);
            }
        }
        while p < xs.len() && snap.cells[order[p]].r == r
            invariant
                p0 <= p <= cells.len(),
                xs@.len() == cells.len(),
                order@.len() == cells.len(),
                places(order@) == o,
                o == stable_order(keys, snap.cells@.len()),
                cells == sorted_cells(snap.cells@),
                keys == cell_keys(snap.cells@),
                forall|i: int| 0 <= i < o.len() ==> 0 <= #[trigger] o[i] < snap.cells@.len(),
                forall|i: int| 0 <= i < order@.len() ==> #[trigger] order@[i] < snap.cells@.len(),
                forall|k: int| p0 <= k < p ==> (#[trigger] cells[k]).r == r,
                xt == crate::text::texts(xs@),
                inner@ == row_cells(cells, xt, r, p as int),
            decreases xs.len() - p,
        {
            assert(o[p as int] == order@[p as int]);
            assert(cells[p as int] == snap.cells@[o[p as int]]);
            inner.append(xs[p].as_str());
            p = p + 1;
        }
        proof {
            if p < cells.len() {
                assert(o[p as int] == order@[p as int]);
                assert(cells[p as int] == snap.cells@[o[p as int]]);
                assert(cells[p as int].r > r);
            }
            assert forall|k: int| p <= k < cells.len() implies (#[trigger] cells[k]).r > r by {
                assert(cells[p as int].r <= cells[k].r) by {
                    if p < k {
                    }
                }
            }
            row_cells_skip(cells, xt, r, p as int, cells.len() as int);
            if j + 1 < list@.len() {
                assert forall|k: int| p <= k < cells.len() implies (#[trigger] cells[k]).r >= list@[j
                    + 1] by {
                    let q = choose|q: int| 0 <= q < list@.len() && list@[q] == cells[k].r;
                    assert(list@[j as int] < list@[q]);
                    if q <= j {
                        assert(q == j || list@[q] < list@[j as int]);
                    }
                    assert(q == j + 1 || list@[j + 1] < list@[q]);
                }
                assert(list@[j as int] < list@[j + 1]);
            }
        }
        x.append(inner.as_str());
        x.append("</row>");
        assert(x@ == row_xml(s, cells, xt, r));
        out.append(x.as_str());
        assert(list@.take(j + 1).drop_last() == list@.take(j as int));
        j = j + 1;
    }
    assert(list@.take(j as int) == list@);
    out
}

proof fn write_cells_len(cells: Seq<CellSnapshot>, styles: Seq<NamedStyle>, sh: Shared)
    ensures
        write_cells(cells, styles, sh).0.len() == cells.len(),
    decreases cells.len(),
{
    if cells.len() > 0 {
        write_cells_len(cells.drop_last(), styles, sh);
    }
}

// ---- the other parts of a sheet

/// The outline settings of a sheet as they are written: nothing at the defaults.
pub open spec fn sheet_pr_text(s: SheetSnapshot) -> Seq<char> {
    opt(
        s.row_outlines@.len() > 0 || s.col_outlines@.len() > 0 || !below(s) || !right(s),
        "<sheetPr><outlinePr summaryBelow=\""@ + (if below(s) {
            "1"@
        } else {
            "0"@
        }) + "\" summaryRight=\""@ + (if right(s) {
            "1"@
        } else {
            "0"@
        }) + "\"/></sheetPr>"@,
    )
}

/// The rows and columns that stay in view, as they are written.
pub open spec fn sheet_views_text(rows: u32, cols: u32) -> Seq<char> {
    opt(
        rows > 0 || cols > 0,
        "<sheetViews><sheetView workbookViewId=\"0\"><pane xSplit=\""@ + dec(cols as nat)
            + "\" ySplit=\""@ + dec(rows as nat) + "\" topLeftCell=\""@ + label(cols as nat) + dec(
            (rows + 1) as nat,
        ) + "\" activePane=\""@ + (if rows > 0 && cols > 0 {
            "bottomRight"@
        } else if rows > 0 {
            "bottomLeft"@
        } else {
            "topRight"@
        }) + "\" state=\"frozen\"/></sheetView></sheetViews>"@,
    )
}

/// A sheet's protection as it is written. The attributes forbid, so what is allowed is 0.
pub open spec fn protection_text(p: Option<SheetProtection>) -> Seq<char> {
    match p {
        Some(p) if p.enabled => "<sheetProtection sheet=\"1\" objects=\"1\" scenarios=\"1\""@ + (if p.allow_sort
            == Some(true) {
            " sort=\"0\""@
        } else {
            " sort=\"1\""@
        }) + (if p.allow_filter == Some(true) {
            " autoFilter=\"0\""@
        } else {
            " autoFilter=\"1\""@
        }) + (if p.allow_format_cells == Some(true) {
            " formatCells=\"0\""@
        } else {
            " formatCells=\"1\""@
        }) + opt(
            p.allow_insert_delete != Some(true),
            " insertRows=\"1\" insertColumns=\"1\" deleteRows=\"1\" deleteColumns=\"1\""@,
        ) + "/>"@,
        _ => Seq::empty(),
    }
}

/// The number of a paper size.
pub open spec fn paper_number(size: Option<String>) -> Seq<char> {
    match size {
        Some(s) => if s@ == "Letter"@ {
            "1"@
        } else if s@ == "Legal"@ {
            "5"@
        } else if s@ == "A3"@ {
            "8"@
        } else {
            "9"@
        },
        None => "9"@,
    }
}

/// Margins as they are written: their numerals as they stand, in inches.
pub open spec fn margins_text(left: Seq<char>, right: Seq<char>, top: Seq<char>, bottom: Seq<char>) -> Seq<
    char,
> {
    "<pageMargins left=\""@ + left + "\" right=\""@ + right + "\" top=\""@ + top + "\" bottom=\""@
        + bottom + "\" header=\"0.3\" footer=\"0.3\"/>"@
}

/// A sheet's page as it is written.
pub open spec fn page_text(p: Option<PageSetup>) -> Seq<char> {
    match p {
        Some(ps) => (match ps.margins {
            Some(m) => margins_text(m.left@, m.right@, m.top@, m.bottom@),
            None => margins_text("0.5"@, "0.5"@, "0.5"@, "0.5"@),
        }) + "<pageSetup paperSize=\""@ + paper_number(ps.paper_size) + "\" orientation=\""@ + (
        if ps.orientation == Some(Orientation::Landscape) {
            "landscape"@
        } else {
            "portrait"@
        }) + "\""@ + (match ps.scale {
            Some(t) => " scale=\""@ + t@ + "\""@,
            None => Seq::empty(),
        }) + (match ps.fit_to_pages {
            Some(f) => " fitToWidth=\""@ + dec(f.width as nat) + "\" fitToHeight=\""@ + dec(
                f.height as nat,
            ) + "\""@,
            None => Seq::empty(),
        }) + "/>"@,
        None => Seq::empty(),
    }
}

/// Whether the last cell of merged cells has an address.
pub open spec fn span_fits(s: Span) -> bool {
    1 <= s.row + s.row_count <= u32::MAX && 1 <= s.col + s.col_count <= u32::MAX
}

/// Merged cells as they are written.
pub open spec fn merge_text(s: Span) -> Seq<char> {
    "<mergeCell ref=\""@ + addr(s.row as nat, s.col as nat) + ":"@ + addr(
        (s.row + s.row_count - 1) as nat,
        (s.col + s.col_count - 1) as nat,
    ) + "\"/>"@
}

pub open spec fn merge_list(spans: Seq<Span>) -> Seq<char>
    decreases spans.len(),
{
    if spans.len() == 0 {
        Seq::empty()
    } else {
        merge_list(spans.drop_last()) + merge_text(spans.last())
    }
}

/// The merged cells of a sheet as they are written.
pub open spec fn merges_text(spans: Seq<Span>) -> Seq<char> {
    opt(
        spans.len() > 0,
        "<mergeCells count=\""@ + dec(spans.len()) + "\">"@ + merge_list(spans) + "</mergeCells>"@,
    )
}

/// The size of a sheet as it is written.
pub open spec fn dimension(s: SheetSnapshot) -> Seq<char> {
    "A1:"@ + label(
        if s.col_count > 0 {
            (s.col_count - 1) as nat
        } else {
            0
        },
    ) + dec(s.row_count as nat)
}

/// Whether what a sheet writes has addresses.
pub open spec fn sheet_fits(s: SheetSnapshot) -> bool {
    &&& forall|k: int| 0 <= k < s.spans@.len() ==> span_fits(#[trigger] s.spans@[k])
    &&& sparklines_fit(s.sparklines@)
}

/// Whether what a sheet writes has addresses.
pub fn sheet_in_range(s: &SheetSnapshot) -> (r: bool)
    ensures
        r == sheet_fits(*s),
{
    let mut i: usize = 0;
    while i < s.spans.len()
        invariant
            i <= s.spans.len(),
            forall|k: int| 0 <= k < i ==> span_fits(#[trigger] s.spans@[k]),
        decreases s.spans.len() - i,
    {
        let m = s.spans[i];
        let fits = m.row <= u32::MAX - m.row_count && m.row + m.row_count >= 1 && m.col
            <= u32::MAX - m.col_count && m.col + m.col_count >= 1;
        if !fits {
            assert(!span_fits(s.spans@[i as int]));
            return false;
        }
        i = i + 1;
    }
    sparklines_in_sheet(s.sparklines.as_slice())
}

/// A sheet as it is written, and what is shared behind it.
pub open spec fn write_sheet(
    s: SheetSnapshot,
    styles: Seq<NamedStyle>,
    sh: Shared,
    frozen: (u32, u32),
    drawing: bool,
) -> (Seq<char>, Shared) {
    let (rows, sh1) = write_rows(s, styles, sh);
    (
        xml_decl()
            + "<worksheet xmlns=\"http://schemas.openxmlformats.org/spreadsheetml/2006/main\" xmlns:r=\"http://schemas.openxmlformats.org/officeDocument/2006/relationships\">"@
            + sheet_pr_text(s) + sheet_views_text(frozen.0, frozen.1) + "<dimension ref=\""@
            + dimension(s) + "\"/>"@ + cols_xml(s) + "<sheetData>"@ + rows + "</sheetData>"@
            + protection_text(s.protection) + merges_text(s.spans@) + page_text(s.page_setup) + opt(
            drawing,
            "<drawing xmlns:r=\"http://schemas.openxmlformats.org/officeDocument/2006/relationships\" r:id=\"rId1\"/>"@,
        ) + ext_text(s.name@, s.sparklines@) + "</worksheet>"@,
        sh1,
    )
}

/// The outline settings of a sheet as they are written.
pub fn sheet_pr_xml(
    summary_below: bool,
    summary_right: bool,
    row_axis: &OutlineAxis,
    col_axis: &OutlineAxis,
) -> (r: String)
    ensures
        forall|s: SheetSnapshot|
            s.row_outlines@ == row_axis@ && s.col_outlines@ == col_axis@ && below(s) == summary_below
                && right(s) == summary_right ==> r@ == #[trigger] sheet_pr_text(s),
{
    if row_axis.list().len() == 0 && col_axis.list().len() == 0 && summary_below && summary_right {
        return String::new();
    }
    let mut out: String = "<sheetPr><outlinePr summaryBelow=\"".to_string();
    if summary_below {
        out.append("1");
    } else {
        out.append("0");
    }
    out.append("\" summaryRight=\"");
    if summary_right {
        out.append("1");
    } else {
        out.append("0");
    }
    out.append("\"/></sheetPr>");
    out
}

/// The rows and columns that stay in view, as they are written.
pub fn sheet_views_xml(frozen_rows: u32, frozen_cols: u32) -> (r: String)
    ensures
        r@ == sheet_views_text(frozen_rows, frozen_cols),
{
    if frozen_rows == 0 && frozen_cols == 0 {
        return String::new();
    }
    let mut out: String =
        "<sheetViews><sheetView workbookViewId=\"0\"><pane xSplit=\"".to_string();
    push_dec(&mut out, frozen_cols as u128);
    out.append("\" ySplit=\"");
    push_dec(&mut out, frozen_rows as u128);
    out.append("\" topLeftCell=\"");
    push_label(&mut out, frozen_cols);
    push_dec(&mut out, frozen_rows as u128 + 1);
    out.append("\" activePane=\"");
    if frozen_rows > 0 && frozen_cols > 0 {
        out.append("bottomRight");
    } else if frozen_rows > 0 {
        out.append("bottomLeft");
    } else {
        out.append("topRight");
    }
    out.append("\" state=\"frozen\"/></sheetView></sheetViews>");
    out
}

fn is_some_true(o: Option<bool>) -> (r: bool)
    ensures
        r == (o == Some(true)),
{
    match o {
        Some(b) => b,
        None => false,
    }
}

/// A sheet's protection as it is written.
pub fn sheet_protection_xml(snap: &SheetSnapshot) -> (r: String)
    ensures
        r@ == protection_text(snap.protection),
{
    let p: SheetProtection = match snap.protection {
        Some(p) => p,
        None => {
            return String::new();
        },
    };
    if !p.enabled {
        return String::new();
    }
    let mut out: String =
        "<sheetProtection sheet=\"1\" objects=\"1\" scenarios=\"1\"".to_string();
    if is_some_true(p.allow_sort) {
        out.append(" sort=\"0\"");
    } else {
        out.append(" sort=\"1\"");
    }
    if is_some_true(p.allow_filter) {
        out.append(" autoFilter=\"0\"");
    } else {
        out.append(" autoFilter=\"1\"");
    }
    if is_some_true(p.allow_format_cells) {
        out.append(" formatCells=\"0\"");
    } else {
        out.append(" formatCells=\"1\"");
    }
    push_if(
        &mut out,
        !is_some_true(p.allow_insert_delete),
        " insertRows=\"1\" insertColumns=\"1\" deleteRows=\"1\" deleteColumns=\"1\"",
    );
    out.append("/>");
    out
}

fn margins_xml(left: &str, right: &str, top: &str, bottom: &str) -> (r: String)
    ensures
        r@ == margins_text(left@, right@, top@, bottom@),
{
    let mut out: String = "<pageMargins left=\"".to_string();
    out.append(left);
    out.append("\" right=\"");
    out.append(right);
    out.append("\" top=\"");
    out.append(top);
    out.append("\" bottom=\"");
    out.append(bottom);
    out.append("\" header=\"0.3\" footer=\"0.3\"/>");
    out
}

/// A sheet's page as it is written.
pub fn page_setup_xml(snap: &SheetSnapshot) -> (r: String)
    ensures
        r@ == page_text(snap.page_setup),
{
    let ps: &PageSetup = match &snap.page_setup {
        Some(ps) => ps,
        None => {
            return String::new();
        },
    };
    let mut out: String = match &ps.margins {
        Some(m) => margins_xml(m.left.as_str(), m.right.as_str(), m.top.as_str(), m.bottom.as_str()),
        None => margins_xml("0.5", "0.5", "0.5", "0.5"),
    };
    out.append("<pageSetup paperSize=\"");
    let mut paper: &str = "9";
    if let Some(t) = &ps.paper_size {
        if same_text(t.as_str(), "Letter") {
            paper = "1";
        } else if same_text(t.as_str(), "Legal") {
            paper = "5";
        } else if same_text(t.as_str(), "A3") {
            paper = "8";
        }
    }
    assert(paper@ == paper_number(ps.paper_size));
    out.append(paper);
    out.append("\" orientation=\"");
    match ps.orientation {
        Some(Orientation::Landscape) => out.append("landscape"),
        _ => out.append("portrait"),
    }
    out.append("\"");
    let mut scale: String = String::new();
    if let Some(t) = &ps.scale {
        scale = " scale=\"".to_string();
        scale.append(t.as_str());
        scale.append("\"");
    }
    out.append(scale.as_str());
    let mut fit: String = String::new();
    if let Some(f) = ps.fit_to_pages {
        fit = " fitToWidth=\"".to_string();
        push_dec(&mut fit, f.width as u128);
        fit.append("\" fitToHeight=\"");
        push_dec(&mut fit, f.height as u128);
        fit.append("\"");
    }
    out.append(fit.as_str());
    out.append("/>");
    out
}

fn merges_xml(spans: &Vec<Span>) -> (r: String)
    requires
        forall|k: int| 0 <= k < spans@.len() ==> span_fits(#[trigger] spans@[k]),
    ensures
        r@ == merges_text(spans@),
{
    if spans.len() == 0 {
        return String::new();
    }
    let mut list: String = String::new();
    let mut i: usize = 0;
    while i < spans.len()
        invariant
            i <= spans.len(),
            forall|k: int| 0 <= k < spans@.len() ==> span_fits(#[trigger] spans@[k]),
            list@ == merge_list(spans@.take(i as int)),
        decreases spans.len() - i,
    {
        let s = spans[i];
        assert(span_fits(spans@[i as int]));
        let mut x: String = "<mergeCell ref=\"".to_string();
        push_addr(&mut x, s.row, s.col);
        x.append(":");
        push_addr(&mut x, s.row + s.row_count - 1, s.col + s.col_count - 1);
        x.append("\"/>");
        list.append(x.as_str());
        assert(spans@.take(i + 1).drop_last() == spans@.take(i as int));
        i = i + 1;
    }
    assert(spans@.take(i as int) == spans@);
    let mut out: String = "<mergeCells count=\"".to_string();
    push_dec(&mut out, spans.len() as u128);
    out.append("\">");
    out.append(list.as_str());
    out.append("</mergeCells>");
    out
}

/// A sheet as it is written. Texts go to the shared strings, styles to the tables.
pub fn sheet_to_xml(
    snap: &SheetSnapshot,
    wb: &WorkbookSnapshot,
    styles: &mut StyleRegistry,
    sst: &mut SharedStrings,
    frozen_rows: u32,
    frozen_cols: u32,
    drawing: bool,
) -> (r: String)
    requires
        sheet_fits(*snap),
        old(styles).wf(),
        old(sst).wf(),
    ensures
        final(styles).wf(),
        final(sst).wf(),
        (r@, shared_view(*final(styles), *final(sst))) == write_sheet(
            *snap,
            book_styles(*wb),
            shared_view(*old(styles), *old(sst)),
            (frozen_rows, frozen_cols),
            drawing,
        ),
{
    let row_axis: OutlineAxis = rebuild_outline(&snap.row_outlines);
    let col_axis: OutlineAxis = rebuild_outline(&snap.col_outlines);
    let pr: String = sheet_pr_xml(
        is_not_false(snap.summary_below),
        is_not_false(snap.summary_right),
        &row_axis,
        &col_axis,
    );
    assert(pr@ == sheet_pr_text(*snap));
    let views: String = sheet_views_xml(frozen_rows, frozen_cols);
    let last: u32 = if snap.col_count > 0 {
        snap.col_count - 1
    } else {
        0
    };
    let mut dim: String = "A1:".to_string();
    push_label(&mut dim, last);
    push_dec(&mut dim, snap.row_count as u128);
    let cols: String = cols_to_xml(snap, &col_axis);
    let rows: String = rows_to_xml(snap, &row_axis, wb, styles, sst);
    let protection: String = sheet_protection_xml(snap);
    let merges: String = merges_xml(&snap.spans);
    let page: String = page_setup_xml(snap);
    let ext: String = sparkline_ext_lst(snap.name.as_str(), snap);
    let mut out: String = xml_declaration();
    out.append(
        "<worksheet xmlns=\"http://schemas.openxmlformats.org/spreadsheetml/2006/main\" xmlns:r=\"http://schemas.openxmlformats.org/officeDocument/2006/relationships\">",
    );
    out.append(pr.as_str());
    out.append(views.as_str());
    out.append("<dimension ref=\"");
    out.append(dim.as_str());
    out.append("\"/>");
    out.append(cols.as_str());
    out.append("<sheetData>");
    out.append(rows.as_str());
    out.append("</sheetData>");
    out.append(protection.as_str());
    out.append(merges.as_str());
    out.append(page.as_str());
    push_if(
        &mut out,
        drawing,
        "<drawing xmlns:r=\"http://schemas.openxmlformats.org/officeDocument/2006/relationships\" r:id=\"rId1\"/>",
    );
    out.append(ext.as_str());
    out.append("</worksheet>");
    out
}

} // verus!
