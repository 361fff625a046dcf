//! Sheets and workbooks while they are worked on, and their snapshots.
use crate::outline::{is_hidden, rebuild_outline, OutlineAxis};
use crate::snapshot::{
    snapshot_format, SNAPSHOT_VERSION, CellSnapshot, CellValue, CommentEntry, ConditionalRule,
    DataValidation, DefinedNameSnapshot, FloatingObject, HyperlinkEntry, NamedStyle, NumPair,
    OutlineGroupSnapshot, PageSetup, RichText, SheetProtection, SheetSnapshot, Span, SparklineEntry,
    StylePair, WorkbookSnapshot,
};
use crate::sorting::{text_le, text_not_after};
use crate::style::{empty_style, Style};
use crate::text::{chars_of, same_text, slice_string};
use vstd::prelude::*;

verus! {

/// A cell that is not empty.
#[derive(Debug, Clone, PartialEq)]
pub struct SheetCell {
    pub r: u32,
    pub c: u32,
    pub value: Option<CellValue>,
    /// The formula, without `=`.
    pub formula: Option<String>,
    pub style: Option<Style>,
    pub rich: Option<RichText>,
}

/// A sheet.
#[derive(Debug, Clone, PartialEq)]
pub struct Worksheet {
    pub name: String,
    pub row_count: u32,
    pub col_count: u32,
    /// The cells by row, then by column, one for each place.
    pub cells: Vec<SheetCell>,
    pub spans: Vec<Span>,
    pub row_heights: Vec<NumPair>,
    pub col_widths: Vec<NumPair>,
    pub row_styles: Vec<StylePair>,
    pub col_styles: Vec<StylePair>,
    pub default_style: Style,
    /// The rows that were hidden by hand, not by an outline.
    pub hidden_rows: Vec<u32>,
    pub hidden_cols: Vec<u32>,
    pub row_outlines: OutlineAxis,
    pub column_outlines: OutlineAxis,
    pub summary_below: bool,
    pub summary_right: bool,
    /// The zoom, as a numeral.
    pub zoom: String,
    pub active_row: u32,
    pub active_col: u32,
    pub validations: Vec<DataValidation>,
    pub hyperlinks: Vec<HyperlinkEntry>,
    pub conditional_rules: Vec<ConditionalRule>,
    pub comments: Vec<CommentEntry>,
    pub floating_objects: Vec<FloatingObject>,
    pub page_setup: Option<PageSetup>,
    pub protection: Option<SheetProtection>,
    pub sparklines: Vec<SparklineEntry>,
    /// The named styles.
    pub style_sheet: Vec<NamedStyle>,
}

/// How many rows a sheet has that nothing is said of.
pub const DEFAULT_ROWS: u32 = 40;

/// How many columns a sheet has that nothing is said of.
pub const DEFAULT_COLS: u32 = 12;

/// What cells are ordered by: their row, then their column.
pub open spec fn place_key(r: u32, c: u32) -> int {
    r * 0x1_0000_0000 + c
}

/// Whether cells stand by row, then by column, one for each place.
pub open spec fn in_order(cells: Seq<SheetCell>) -> bool {
    forall|i: int, j: int|
        0 <= i < j < cells.len() ==> place_key(cells[i].r, cells[i].c) < place_key(
            cells[j].r,
            cells[j].c,
        )
}

/// A cell without anything.
pub open spec fn blank_cell(r: u32, c: u32) -> SheetCell {
    SheetCell { r, c, value: None, formula: None, style: None, rich: None }
}

/// Whether a cell holds anything.
pub open spec fn is_blank_cell(x: SheetCell) -> bool {
    x.value is None && x.formula is None && x.style is None && x.rich is None
}

/// The cell at a place; one without anything where there is none.
pub open spec fn cell_at(cells: Seq<SheetCell>, r: u32, c: u32) -> SheetCell
    decreases cells.len(),
{
    if cells.len() == 0 {
        blank_cell(r, c)
    } else if cells.last().r == r && cells.last().c == c {
        cells.last()
    } else {
        cell_at(cells.drop_last(), r, c)
    }
}

/// Cells with the one at `x`'s place replaced by `x`; one that holds nothing is left out.
pub open spec fn with_cell(cells: Seq<SheetCell>, x: SheetCell) -> Seq<SheetCell>
    decreases cells.len(),
{
    if cells.len() == 0 || place_key(cells.last().r, cells.last().c) < place_key(x.r, x.c) {
        if is_blank_cell(x) {
            cells
        } else {
            cells.push(x)
        }
    } else if cells.last().r == x.r && cells.last().c == x.c {
        if is_blank_cell(x) {
            cells.drop_last()
        } else {
            cells.drop_last().push(x)
        }
    } else {
        with_cell(cells.drop_last(), x).push(cells.last())
    }
}

/// Whether a formula has a `=` in front.
pub open spec fn has_equals(f: Seq<char>) -> bool {
    f.len() > 0 && f[0] == '='
}

/// Whether cells are as before but for a formula at a place.
pub open spec fn formula_put(
    before: Seq<SheetCell>,
    after: Seq<SheetCell>,
    r: u32,
    c: u32,
    formula: String,
) -> bool {
    after == with_cell(before, SheetCell { formula: Some(formula), ..cell_at(before, r, c) })
}

/// A formula without a `=` in front.
pub open spec fn bare_formula(f: Seq<char>) -> Seq<char> {
    if has_equals(f) {
        f.skip(1)
    } else {
        f
    }
}

fn key_of(r: u32, c: u32) -> (k: u64)
    ensures
        k == place_key(r, c),
{
    r as u64 * 0x1_0000_0000 + c as u64
}

/// How many cells stand before a place.
pub open spec fn cells_before(cells: Seq<SheetCell>, k: int, p: int) -> bool {
    &&& 0 <= p <= cells.len()
    &&& forall|i: int| 0 <= i < p ==> place_key((#[trigger] cells[i]).r, cells[i].c) < k
    &&& forall|i: int| p <= i < cells.len() ==> place_key((#[trigger] cells[i]).r, cells[i].c) >= k
}

fn find_before(cells: &Vec<SheetCell>, r: u32, c: u32) -> (p: usize)
    requires
        in_order(cells@),
    ensures
        cells_before(cells@, place_key(r, c), p as int),
{
    let k: u64 = key_of(r, c);
    let mut lo: usize = 0;
    let mut hi: usize = cells.len();
    while lo < hi
        invariant
            lo <= hi <= cells.len(),
            k == place_key(r, c),
            in_order(cells@),
            forall|i: int| 0 <= i < lo ==> place_key((#[trigger] cells@[i]).r, cells@[i].c) < k,
            forall|i: int|
                hi <= i < cells@.len() ==> place_key((#[trigger] cells@[i]).r, cells@[i].c) >= k,
        decreases hi - lo,
    {
        let mid: usize = lo + (hi - lo) / 2;
        if key_of(cells[mid].r, cells[mid].c) < k {
            assert forall|i: int| 0 <= i < mid + 1 implies place_key((#[trigger] cells@[i]).r, cells@[i].c)
                < k by {
                if i < mid {
                    assert(place_key(cells@[i].r, cells@[i].c) < place_key(
                        cells@[mid as int].r,
                        cells@[mid as int].c,
                    ));
                }
            }
            lo = mid + 1;
        } else {
            assert forall|i: int| mid <= i < cells@.len() implies place_key(
                (#[trigger] cells@[i]).r,
                cells@[i].c,
            ) >= k by {
                if mid < i {
                    assert(place_key(cells@[mid as int].r, cells@[mid as int].c) < place_key(
                        cells@[i].r,
                        cells@[i].c,
                    ));
                }
            }
            hi = mid;
        }
    }
    lo
}

proof fn key_is_place(r: u32, c: u32, r2: u32, c2: u32)
    ensures
        place_key(r, c) == place_key(r2, c2) <==> r == r2 && c == c2,
{
}

proof fn cell_at_is(cells: Seq<SheetCell>, r: u32, c: u32, p: int)
    requires
        in_order(cells),
        cells_before(cells, place_key(r, c), p),
    ensures
        cell_at(cells, r, c) == (if p < cells.len() && cells[p].r == r && cells[p].c == c {
            cells[p]
        } else {
            blank_cell(r, c)
        }),
    decreases cells.len(),
{
    if cells.len() > 0 {
        let d = cells.drop_last();
        let q = if p < cells.len() {
            p
        } else {
            p - 1
        };
        key_is_place(cells.last().r, cells.last().c, r, c);
        if cells.last().r == r && cells.last().c == c {
            if p < cells.len() - 1 {
                assert(place_key(cells[p].r, cells[p].c) < place_key(
                    cells[cells.len() - 1].r,
                    cells[cells.len() - 1].c,
                ));
            }
        } else {
            assert forall|i: int, j: int| 0 <= i < j < d.len() implies place_key(d[i].r, d[i].c)
                < place_key(d[j].r, d[j].c) by {
                assert(d[i] == cells[i] && d[j] == cells[j]);
            }
            let q2 = if p < d.len() {
                p
            } else {
                d.len() as int
            };
            assert forall|i: int| 0 <= i < q2 implies place_key((#[trigger] d[i]).r, d[i].c)
                < place_key(r, c) by {
                assert(d[i] == cells[i]);
            }
            assert forall|i: int| q2 <= i < d.len() implies place_key((#[trigger] d[i]).r, d[i].c)
                >= place_key(r, c) by {
                assert(d[i] == cells[i]);
            }
            cell_at_is(d, r, c, q2);
        }
    }
}

/// Cells with the one at `x`'s place replaced, where `p` cells stand before it.
spec fn spliced(cells: Seq<SheetCell>, x: SheetCell, p: int) -> Seq<SheetCell> {
    let same = p < cells.len() && cells[p].r == x.r && cells[p].c == x.c;
    let tail = if same {
        cells.skip(p + 1)
    } else {
        cells.skip(p)
    };
    if is_blank_cell(x) {
        cells.take(p) + tail
    } else {
        cells.take(p).push(x) + tail
    }
}

proof fn with_cell_is(cells: Seq<SheetCell>, x: SheetCell, p: int)
    requires
        in_order(cells),
        cells_before(cells, place_key(x.r, x.c), p),
    ensures
        with_cell(cells, x) == spliced(cells, x, p),
    decreases cells.len(),
{
    let k = place_key(x.r, x.c);
    if p == cells.len() {
        if cells.len() > 0 {
            assert(place_key(cells[p - 1].r, cells[p - 1].c) < k);
        }
        assert(cells.take(p) == cells);
        assert(cells.skip(p) == Seq::<SheetCell>::empty());
        assert(spliced(cells, x, p) == with_cell(cells, x));
    } else {
        let last = cells[cells.len() - 1];
        assert(place_key(last.r, last.c) >= k);
        key_is_place(last.r, last.c, x.r, x.c);
        if last.r == x.r && last.c == x.c {
            if p < cells.len() - 1 {
                assert(place_key(cells[p].r, cells[p].c) < place_key(last.r, last.c));
            }
            assert(cells.take(p) == cells.drop_last());
            assert(spliced(cells, x, p) == with_cell(cells, x));
        } else {
            let d = cells.drop_last();
            assert forall|i: int, j: int| 0 <= i < j < d.len() implies place_key(d[i].r, d[i].c)
                < place_key(d[j].r, d[j].c) by {
                assert(d[i] == cells[i] && d[j] == cells[j]);
            }
            assert forall|i: int| 0 <= i < p implies place_key((#[trigger] d[i]).r, d[i].c) < k by {
                assert(d[i] == cells[i]);
            }
            assert forall|i: int| p <= i < d.len() implies place_key((#[trigger] d[i]).r, d[i].c) >= k by {
                assert(d[i] == cells[i]);
            }
            with_cell_is(d, x, p);
            assert(spliced(cells, x, p) == spliced(d, x, p).push(last));
        }
    }
}

proof fn spliced_in_order(cells: Seq<SheetCell>, x: SheetCell, p: int)
    requires
        in_order(cells),
        cells_before(cells, place_key(x.r, x.c), p),
    ensures
        in_order(spliced(cells, x, p)),
{
    let s = spliced(cells, x, p);
    let same = p < cells.len() && cells[p].r == x.r && cells[p].c == x.c;
    if p < cells.len() {
        key_is_place(cells[p].r, cells[p].c, x.r, x.c);
    }
    assert forall|i: int, j: int| 0 <= i < j < s.len() implies place_key(s[i].r, s[i].c) < place_key(
        s[j].r,
        s[j].c,
    ) by {
        let drop = if same {
            1int
        } else {
            0
        };
        let put = if is_blank_cell(x) {
            0int
        } else {
            1
        };
        let oi = if i < p {
            i
        } else {
            i - put + drop
        };
        let oj = if j < p {
            j
        } else {
            j - put + drop
        };
        if i < p {
            assert(s[i] == cells[i]);
        } else if put == 1 && i == p {
            assert(s[i] == x);
        } else {
            assert(s[i] == cells[oi]);
        }
        if j < p {
            assert(s[j] == cells[j]);
        } else if put == 1 && j == p {
            assert(s[j] == x);
        } else {
            assert(s[j] == cells[oj]);
            if same {
                assert(place_key(cells[p].r, cells[p].c) < place_key(cells[oj].r, cells[oj].c));
            } else {
                key_is_place(cells[oj].r, cells[oj].c, x.r, x.c);
                if oj > p {
                    assert(place_key(cells[p].r, cells[p].c) < place_key(cells[oj].r, cells[oj].c));
                }
            }
        }
    }
}

/// Takes the cell at a place out.
fn take_cell(cells: &mut Vec<SheetCell>, r: u32, c: u32) -> (res: (SheetCell, usize))
    requires
        in_order(old(cells)@),
    ensures
        res.0 == cell_at(old(cells)@, r, c),
        res.0.r == r && res.0.c == c,
        cells_before(old(cells)@, place_key(r, c), res.1 as int),
        final(cells)@ == (if res.1 < old(cells)@.len() && old(cells)@[res.1 as int].r == r && old(
            cells,
        )@[res.1 as int].c == c {
            old(cells)@.remove(res.1 as int)
        } else {
            old(cells)@
        }),
{
    let p: usize = find_before(cells, r, c);
    proof {
        cell_at_is(cells@, r, c, p as int);
    }
    if p < cells.len() && cells[p].r == r && cells[p].c == c {
        let x = cells.remove(p);
        (x, p)
    } else {
        (SheetCell { r, c, value: None, formula: None, style: None, rich: None }, p)
    }
}

/// Puts a cell back where it was taken out.
fn put_cell(cells: &mut Vec<SheetCell>, x: SheetCell, p: usize, Ghost(before): Ghost<Seq<SheetCell>>)
    requires
        in_order(before),
        cells_before(before, place_key(x.r, x.c), p as int),
        old(cells)@ == (if p < before.len() && before[p as int].r == x.r && before[p as int].c == x.c {
            before.remove(p as int)
        } else {
            before
        }),
    ensures
        final(cells)@ == with_cell(before, x),
        in_order(final(cells)@),
{
    proof {
        with_cell_is(before, x, p as int);
        spliced_in_order(before, x, p as int);
    }
    let blank = x.value.is_none() && x.formula.is_none() && x.style.is_none() && x.rich.is_none();
    if !blank {
        cells.insert(p, x);
    }
    assert(cells@ == spliced(before, x, p as int));
}

impl Worksheet {
    /// Whether the cells stand in order.
    pub open spec fn wf(&self) -> bool {
        in_order(self.cells@)
    }

    /// A sheet without cells.
    pub fn with_size(name: &str, row_count: u32, col_count: u32) -> (r: Worksheet)
        ensures
            r.wf(),
            r.name@ == name@,
            r.row_count == row_count,
            r.col_count == col_count,
            r.fresh(),
    {
        Worksheet {
            name: name.to_string(),
            row_count,
            col_count,
            cells: Vec::new(),
            spans: Vec::new(),
            row_heights: Vec::new(),
            col_widths: Vec::new(),
            row_styles: Vec::new(),
            col_styles: Vec::new(),
            default_style: Style::default(),
            hidden_rows: Vec::new(),
            hidden_cols: Vec::new(),
            row_outlines: OutlineAxis::new(),
            column_outlines: OutlineAxis::new(),
            summary_below: true,
            summary_right: true,
            zoom: "1".to_string(),
            active_row: 0,
            active_col: 0,
            validations: Vec::new(),
            hyperlinks: Vec::new(),
            conditional_rules: Vec::new(),
            comments: Vec::new(),
            floating_objects: Vec::new(),
            page_setup: None,
            protection: None,
            sparklines: Vec::new(),
            style_sheet: Vec::new(),
        }
    }

    /// Whether everything but the name and the size is at its default.
    pub open spec fn fresh(&self) -> bool {
        self.unfilled() && self.style_sheet@.len() == 0
    }

    /// Whether everything but the name, the size and the named styles is at its default.
    pub open spec fn unfilled(&self) -> bool {
        &&& self.cells@.len() == 0
        &&& self.spans@.len() == 0
        &&& self.row_heights@.len() == 0
        &&& self.col_widths@.len() == 0
        &&& self.row_styles@.len() == 0
        &&& self.col_styles@.len() == 0
        &&& self.default_style == empty_style()
        &&& self.hidden_rows@.len() == 0
        &&& self.hidden_cols@.len() == 0
        &&& self.row_outlines@.len() == 0
        &&& self.column_outlines@.len() == 0
        &&& self.summary_below
        &&& self.summary_right
        &&& self.zoom@ == "1"@
        &&& self.active_row == 0
        &&& self.active_col == 0
        &&& self.validations@.len() == 0
        &&& self.hyperlinks@.len() == 0
        &&& self.conditional_rules@.len() == 0
        &&& self.comments@.len() == 0
        &&& self.floating_objects@.len() == 0
        &&& self.page_setup is None
        &&& self.protection is None
        &&& self.sparklines@.len() == 0
    }

    /// Puts a value into a cell, in place of a formula.
    pub fn set_value(&mut self, r: u32, c: u32, value: Option<CellValue>)
        requires
            old(self).wf(),
        ensures
            final(self).wf(),
            *final(self) == (Worksheet { cells: final(self).cells, ..*old(self) }),
            final(self).cells@ == with_cell(
                old(self).cells@,
                (SheetCell { value, formula: None, ..cell_at(old(self).cells@, r, c) }),
            ),
    {
        let ghost before = self.cells@;
        let (x, p) = take_cell(&mut self.cells, r, c);
        let y = SheetCell { r, c, value, formula: None, style: x.style, rich: x.rich };
        put_cell(&mut self.cells, y, p, Ghost(before));
    }

    /// Puts the result of a formula into its cell.
    pub fn set_computed_value(&mut self, r: u32, c: u32, value: Option<CellValue>)
        requires
            old(self).wf(),
        ensures
            final(self).wf(),
            *final(self) == (Worksheet { cells: final(self).cells, ..*old(self) }),
            final(self).cells@ == with_cell(
                old(self).cells@,
                (SheetCell { value, ..cell_at(old(self).cells@, r, c) }),
            ),
    {
        let ghost before = self.cells@;
        let (x, p) = take_cell(&mut self.cells, r, c);
        let y = SheetCell { r, c, value, formula: x.formula, style: x.style, rich: x.rich };
        put_cell(&mut self.cells, y, p, Ghost(before));
    }

    /// Puts a formula into a cell, without its `=`.
    pub fn set_formula(&mut self, r: u32, c: u32, formula: String)
        requires
            old(self).wf(),
        ensures
            final(self).wf(),
            *final(self) == (Worksheet { cells: final(self).cells, ..*old(self) }),
            exists|s: String| #[trigger]
                formula_put(old(self).cells@, final(self).cells@, r, c, s) && s@ == bare_formula(formula@)
                    && (!has_equals(formula@) ==> s == formula),
    {
        let ghost before = self.cells@;
        let chars: Vec<char> = chars_of(formula.as_str());
        let s: String = if chars.len() > 0 && chars[0] == '=' {
            let t: String = slice_string(&chars, 1, chars.len());
            assert(t@ == formula@.skip(1));
            t
        } else {
            formula
        };
        let (x, p) = take_cell(&mut self.cells, r, c);
        let y = SheetCell { r, c, value: x.value, formula: Some(s), style: x.style, rich: x.rich };
        put_cell(&mut self.cells, y, p, Ghost(before));
        assert(formula_put(before, self.cells@, r, c, s));
    }

    /// Puts a style on a cell.
    pub fn set_style(&mut self, r: u32, c: u32, style: Option<Style>)
        requires
            old(self).wf(),
        ensures
            final(self).wf(),
            *final(self) == (Worksheet { cells: final(self).cells, ..*old(self) }),
            final(self).cells@ == with_cell(
                old(self).cells@,
                (SheetCell { style, ..cell_at(old(self).cells@, r, c) }),
            ),
    {
        let ghost before = self.cells@;
        let (x, p) = take_cell(&mut self.cells, r, c);
        let y = SheetCell { r, c, value: x.value, formula: x.formula, style, rich: x.rich };
        put_cell(&mut self.cells, y, p, Ghost(before));
    }

    /// Puts rich text into a cell.
    pub fn set_rich_text(&mut self, r: u32, c: u32, rich: Option<RichText>)
        requires
            old(self).wf(),
        ensures
            final(self).wf(),
            *final(self) == (Worksheet { cells: final(self).cells, ..*old(self) }),
            final(self).cells@ == with_cell(
                old(self).cells@,
                (SheetCell { rich, ..cell_at(old(self).cells@, r, c) }),
            ),
    {
        let ghost before = self.cells@;
        let (x, p) = take_cell(&mut self.cells, r, c);
        let y = SheetCell { r, c, value: x.value, formula: x.formula, style: x.style, rich };
        put_cell(&mut self.cells, y, p, Ghost(before));
    }

    /// The cell at a place.
    pub fn get_cell(&self, r: u32, c: u32) -> (x: Option<&SheetCell>)
        requires
            self.wf(),
        ensures
            match x {
                Some(d) => *d == cell_at(self.cells@, r, c),
                None => cell_at(self.cells@, r, c) == blank_cell(r, c),
            },
    {
        let p: usize = find_before(&self.cells, r, c);
        proof {
            cell_at_is(self.cells@, r, c, p as int);
        }
        if p < self.cells.len() && self.cells[p].r == r && self.cells[p].c == c {
            Some(&self.cells[p])
        } else {
            None
        }
    }

    /// What a cell shows.
    pub fn get_value(&self, r: u32, c: u32) -> (v: Option<CellValue>)
        requires
            self.wf(),
        ensures
            v == cell_at(self.cells@, r, c).value,
    {
        match self.get_cell(r, c) {
            Some(x) => match &x.value {
                Some(v) => Some(v.copied()),
                None => None,
            },
            None => None,
        }
    }

    /// The merged cells that a cell is part of; the first of several.
    pub fn get_span(&self, r: u32, c: u32) -> (s: Option<Span>)
        ensures
            s == span_at(self.spans@, r, c),
    {
        let mut i: usize = 0;
        assert(self.spans@.skip(0) == self.spans@);
        while i < self.spans.len()
            invariant
                i <= self.spans.len(),
                span_at(self.spans@, r, c) == span_at(self.spans@.skip(i as int), r, c),
            decreases self.spans.len() - i,
        {
            let s = self.spans[i];
            assert(self.spans@.skip(i as int).skip(1) == self.spans@.skip(i + 1));
            if s.row <= r && (r as u64) < s.row as u64 + s.row_count as u64 && s.col <= c && (c as u64)
                < s.col as u64 + s.col_count as u64 {
                return Some(s);
            }
            i = i + 1;
        }
        None
    }

    /// Whether a row is shown: it was not hidden by hand, nor is it a detail of a collapsed group.
    pub fn is_row_visible(&self, r: u32) -> (v: bool)
        ensures
            v == !(self.hidden_rows@.contains(r) || is_hidden(
                self.row_outlines@,
                r as int,
                self.summary_below,
            )),
    {
        !has_index(&self.hidden_rows, r) && !has_index(
            &self.row_outlines.hidden_indices(self.summary_below),
            r,
        )
    }

    /// Whether a column is shown.
    pub fn is_column_visible(&self, c: u32) -> (v: bool)
        ensures
            v == !(self.hidden_cols@.contains(c) || is_hidden(
                self.column_outlines@,
                c as int,
                self.summary_right,
            )),
    {
        !has_index(&self.hidden_cols, c) && !has_index(
            &self.column_outlines.hidden_indices(self.summary_right),
            c,
        )
    }
}

fn has_index(v: &Vec<u32>, i: u32) -> (r: bool)
    ensures
        r == v@.contains(i),
{
    let mut k: usize = 0;
    while k < v.len()
        invariant
            k <= v.len(),
            forall|j: int| 0 <= j < k ==> v@[j] != i,
        decreases v.len() - k,
    {
        if v[k] == i {
            return true;
        }
        k = k + 1;
    }
    false
}

/// The first of merged cells that a cell is part of.
pub open spec fn span_at(spans: Seq<Span>, r: u32, c: u32) -> Option<Span>
    decreases spans.len(),
{
    if spans.len() == 0 {
        None
    } else {
        let s = spans[0];
        if s.row <= r < s.row + s.row_count && s.col <= c < s.col + s.col_count {
            Some(s)
        } else {
            span_at(spans.skip(1), r, c)
        }
    }
}

// ---- snapshots of sheets

/// A formula as it is stored: an empty one is left out.
pub open spec fn stored_formula(f: Option<String>) -> Option<String> {
    match f {
        Some(t) if t@.len() > 0 => f,
        _ => None,
    }
}

/// A style as it is stored: one that says nothing is left out.
pub open spec fn stored_style(s: Option<Style>) -> Option<Style> {
    match s {
        Some(st) if st != empty_style() => s,
        _ => None,
    }
}

/// A cell as it is stored.
pub open spec fn stored_cell(x: SheetCell) -> CellSnapshot {
    CellSnapshot {
        r: x.r,
        c: x.c,
        v: x.value,
        f: stored_formula(x.formula),
        s: stored_style(x.style),
        rich: x.rich,
    }
}

/// Whether a stored cell holds anything.
pub open spec fn is_stored(x: CellSnapshot) -> bool {
    x.v is Some || x.f is Some || x.s is Some || x.rich is Some
}

/// The cells that are stored.
pub open spec fn stored_cells(cells: Seq<SheetCell>) -> Seq<CellSnapshot>
    decreases cells.len(),
{
    if cells.len() == 0 {
        Seq::empty()
    } else {
        let x = stored_cell(cells.last());
        if is_stored(x) {
            stored_cells(cells.drop_last()).push(x)
        } else {
            stored_cells(cells.drop_last())
        }
    }
}

/// A number that is stored only where it is not 0.
pub open spec fn stored_number(n: u32) -> Option<u32> {
    if n != 0 {
        Some(n)
    } else {
        None
    }
}

/// Whether a snapshot is that of a sheet.
pub open spec fn is_snapshot_of(snap: SheetSnapshot, ws: Worksheet) -> bool {
    &&& snap.name == ws.name
    &&& snap.row_count == ws.row_count
    &&& snap.col_count == ws.col_count
    &&& snap.cells@ == stored_cells(ws.cells@)
    &&& snap.spans == ws.spans
    &&& snap.row_heights == ws.row_heights
    &&& snap.col_widths == ws.col_widths
    &&& snap.row_styles == ws.row_styles
    &&& snap.col_styles == ws.col_styles
    &&& snap.default_style == (if ws.default_style == empty_style() {
        None
    } else {
        Some(ws.default_style)
    })
    &&& snap.hidden_rows == ws.hidden_rows
    &&& snap.hidden_cols == ws.hidden_cols
    &&& snap.row_outlines@ == ws.row_outlines@
    &&& snap.col_outlines@ == ws.column_outlines@
    &&& snap.summary_below == (if ws.summary_below {
        None
    } else {
        Some(false)
    })
    &&& snap.summary_right == (if ws.summary_right {
        None
    } else {
        Some(false)
    })
    &&& snap.zoom == (if ws.zoom@ == "1"@ {
        None
    } else {
        Some(ws.zoom)
    })
    &&& snap.active_row == stored_number(ws.active_row)
    &&& snap.active_col == stored_number(ws.active_col)
    &&& snap.validations == ws.validations
    &&& snap.hyperlinks == ws.hyperlinks
    &&& snap.conditional_rules == ws.conditional_rules
    &&& snap.comments == ws.comments
    &&& snap.floating_objects == ws.floating_objects
    &&& snap.page_setup == ws.page_setup
    &&& snap.protection == ws.protection
    &&& snap.sparklines == ws.sparklines
    &&& snap.frozen_pane is None
}

/// The items of a list in the opposite order.
fn reversed<T>(v: Vec<T>) -> (r: Vec<T>)
    ensures
        r@ == v@.reverse(),
{
    let ghost all = v@;
    let mut v = v;
    let mut out: Vec<T> = Vec::new();
    while v.len() > 0
        invariant
            v@ == all.take(v@.len() as int),
            v@.len() <= all.len(),
            out@ == all.skip(v@.len() as int).reverse(),
        decreases v.len(),
    {
        let ghost n = v@.len() as int;
        if let Some(x) = v.pop() {
            out.push(x);
            assert(all.skip(n - 1).reverse() == all.skip(n).reverse().push(all[n - 1]));
        }
    }
    assert(all.skip(0) == all);
    out
}

fn store_cells(cells: Vec<SheetCell>) -> (r: Vec<CellSnapshot>)
    ensures
        r@ == stored_cells(cells@),
{
    let ghost all = cells@;
    let mut rest: Vec<SheetCell> = reversed(cells);
    let mut out: Vec<CellSnapshot> = Vec::new();
    assert(all.skip(0) == all);
    while rest.len() > 0
        invariant
            rest@.len() <= all.len(),
            rest@ == all.skip(all.len() - rest@.len()).reverse(),
            out@ == stored_cells(all.take(all.len() - rest@.len())),
        decreases rest.len(),
    {
        let ghost i = all.len() - rest@.len();
        let ghost r0 = rest@;
        assert(r0.last() == all[i]);
        if let Some(x) = rest.pop() {
            assert(rest@ == all.skip(i + 1).reverse());
            assert(all.take(i + 1).drop_last() == all.take(i));
            let f: Option<String> = match x.formula {
                Some(t) => if t.as_str().is_empty() {
                    None
                } else {
                    Some(t)
                },
                None => None,
            };
            let s: Option<Style> = match x.style {
                Some(st) => if st.is_empty() {
                    None
                } else {
                    Some(st)
                },
                None => None,
            };
            let y = CellSnapshot { r: x.r, c: x.c, v: x.value, f, s, rich: x.rich };
            assert(y == stored_cell(all[i]));
            if y.v.is_some() || y.f.is_some() || y.s.is_some() || y.rich.is_some() {
                out.push(y);
            }
        }
    }
    assert(all.take(all.len() as int) == all);
    out
}

fn nonzero_number(n: u32) -> (r: Option<u32>)
    ensures
        r == stored_number(n),
{
    if n != 0 {
        Some(n)
    } else {
        None
    }
}

/// The snapshot of a sheet. Cells that hold nothing and settings at their defaults are left out.
pub fn sheet_to_json(ws: Worksheet) -> (r: SheetSnapshot)
    requires
        ws.wf(),
    ensures
        is_snapshot_of(r, ws),
{
    let default_style: Option<Style> = if ws.default_style.is_empty() {
        None
    } else {
        Some(ws.default_style)
    };
    let zoom: Option<String> = if same_text(ws.zoom.as_str(), "1") {
        None
    } else {
        Some(ws.zoom)
    };
    SheetSnapshot {
        name: ws.name,
        row_count: ws.row_count,
        col_count: ws.col_count,
        cells: store_cells(ws.cells),
        spans: ws.spans,
        row_heights: ws.row_heights,
        col_widths: ws.col_widths,
        row_styles: ws.row_styles,
        col_styles: ws.col_styles,
        default_style,
        hidden_rows: ws.hidden_rows,
        hidden_cols: ws.hidden_cols,
        row_outlines: outlines_to_json(ws.row_outlines),
        col_outlines: outlines_to_json(ws.column_outlines),
        summary_below: if ws.summary_below {
            None
        } else {
            Some(false)
        },
        summary_right: if ws.summary_right {
            None
        } else {
            Some(false)
        },
        zoom,
        active_row: nonzero_number(ws.active_row),
        active_col: nonzero_number(ws.active_col),
        validations: ws.validations,
        hyperlinks: ws.hyperlinks,
        conditional_rules: ws.conditional_rules,
        comments: ws.comments,
        floating_objects: ws.floating_objects,
        page_setup: ws.page_setup,
        protection: ws.protection,
        sparklines: ws.sparklines,
        frozen_pane: None,
    }
}

/// The groups of an outline.
pub fn outlines_to_json(axis: OutlineAxis) -> (r: Vec<OutlineGroupSnapshot>)
    ensures
        r@ == axis@,
{
    axis.groups
}

// ---- sheets from snapshots

/// Whether `g` is the formula `f` without a `=` in front.
pub open spec fn is_bare(f: Option<String>, g: Option<String>) -> bool {
    match f {
        Some(t) => g matches Some(b) && b@ == bare_formula(t@) && (!has_equals(t@) ==> b == t),
        None => g is None,
    }
}

/// Cells with a stored cell put in. `f` is its formula without a `=`.
pub open spec fn load_cell(cells: Seq<SheetCell>, x: CellSnapshot, f: Option<String>) -> Seq<SheetCell> {
    let a = match f {
        Some(t) => with_cell(cells, SheetCell { formula: Some(t), ..cell_at(cells, x.r, x.c) }),
        None => cells,
    };
    let b = match x.v {
        Some(v) => with_cell(
            a,
            if x.f is Some {
                SheetCell { value: x.v, ..cell_at(a, x.r, x.c) }
            } else {
                SheetCell { value: x.v, formula: None, ..cell_at(a, x.r, x.c) }
            },
        ),
        None => a,
    };
    let c = match x.s {
        Some(st) => with_cell(b, SheetCell { style: x.s, ..cell_at(b, x.r, x.c) }),
        None => b,
    };
    match x.rich {
        Some(t) => with_cell(c, SheetCell { rich: x.rich, ..cell_at(c, x.r, x.c) }),
        None => c,
    }
}

/// Cells from stored cells, put in one by one. `fs` are their formulas without a `=`.
pub open spec fn load_cells(xs: Seq<CellSnapshot>, fs: Seq<Option<String>>) -> Seq<SheetCell>
    decreases xs.len(),
{
    if xs.len() == 0 {
        Seq::empty()
    } else {
        load_cell(load_cells(xs.drop_last(), fs.drop_last()), xs.last(), fs.last())
    }
}

/// Whether `fs` are the formulas of stored cells without a `=` in front.
pub open spec fn all_bare(xs: Seq<CellSnapshot>, fs: Seq<Option<String>>) -> bool {
    fs.len() == xs.len() && forall|i: int| 0 <= i < xs.len() ==> is_bare(xs[i].f, #[trigger] fs[i])
}

/// Whether a sheet is the one of a snapshot.
pub open spec fn is_sheet_of(ws: Worksheet, snap: SheetSnapshot, styles: Seq<NamedStyle>) -> bool {
    &&& ws.wf()
    &&& ws.name == snap.name
    &&& ws.row_count == snap.row_count
    &&& ws.col_count == snap.col_count
    &&& exists|fs: Seq<Option<String>>|
        all_bare(snap.cells@, fs) && ws.cells@ == #[trigger] load_cells(snap.cells@, fs)
    &&& ws.spans == snap.spans
    &&& ws.row_heights == snap.row_heights
    &&& ws.col_widths == snap.col_widths
    &&& ws.row_styles == snap.row_styles
    &&& ws.col_styles == snap.col_styles
    &&& ws.default_style == (match snap.default_style {
        Some(s) => s,
        None => empty_style(),
    })
    &&& ws.hidden_rows == snap.hidden_rows
    &&& ws.hidden_cols == snap.hidden_cols
    &&& ws.row_outlines@ == snap.row_outlines@
    &&& ws.column_outlines@ == snap.col_outlines@
    &&& ws.summary_below == (snap.summary_below != Some(false))
    &&& ws.summary_right == (snap.summary_right != Some(false))
    &&& match snap.zoom {
        Some(z) => ws.zoom == z,
        None => ws.zoom@ == "1"@,
    }
    &&& ws.active_row == (match snap.active_row {
        Some(n) => n,
        None => 0,
    })
    &&& ws.active_col == (match snap.active_col {
        Some(n) => n,
        None => 0,
    })
    &&& ws.validations == snap.validations
    &&& ws.hyperlinks == snap.hyperlinks
    &&& ws.conditional_rules == snap.conditional_rules
    &&& ws.comments == snap.comments
    &&& ws.floating_objects == snap.floating_objects
    &&& ws.page_setup == snap.page_setup
    &&& ws.protection == snap.protection
    &&& ws.sparklines == snap.sparklines
    &&& ws.style_sheet@ == styles
}

fn load_into(ws: &mut Worksheet, cells: Vec<CellSnapshot>)
    requires
        old(ws).wf(),
        old(ws).cells@.len() == 0,
    ensures
        final(ws).wf(),
        *final(ws) == (Worksheet { cells: final(ws).cells, ..*old(ws) }),
        exists|fs: Seq<Option<String>>|
            all_bare(cells@, fs) && final(ws).cells@ == #[trigger] load_cells(cells@, fs),
{
    let ghost all = cells@;
    let ghost mut fs: Seq<Option<String>> = Seq::empty();
    let mut rest: Vec<CellSnapshot> = reversed(cells);
    assert(all.skip(0) == all);
    assert(ws.cells@ == load_cells(all.take(0), fs));
    while rest.len() > 0
        invariant
            rest@.len() <= all.len(),
            rest@ == all.skip(all.len() - rest@.len()).reverse(),
            ws.wf(),
            *ws == (Worksheet { cells: ws.cells, ..*old(ws) }),
            all_bare(all.take(all.len() - rest@.len()), fs),
            ws.cells@ == load_cells(all.take(all.len() - rest@.len()), fs),
        decreases rest.len(),
    {
        let ghost i = all.len() - rest@.len();
        assert(rest@.last() == all[i]);
        let ghost c0 = ws.cells@;
        let ghost fs0 = fs;
        if let Some(x) = rest.pop() {
            assert(rest@ == all.skip(i + 1).reverse());
            assert(all.take(i + 1).drop_last() == all.take(i));
            assert(x == all[i]);
            let (r, c) = (x.r, x.c);
            let has_formula = x.f.is_some();
            let ghost mut bare: Option<String> = None;
            if let Some(f) = x.f {
                ws.set_formula(r, c, f);
                proof {
                    let t = choose|t: String| #[trigger]
                        formula_put(c0, ws.cells@, r, c, t) && t@ == bare_formula(f@) && (!has_equals(f@)
                            ==> t == f);
                    bare = Some(t);
                }
            }
            if let Some(v) = x.v {
                if has_formula {
                    ws.set_computed_value(r, c, Some(v));
                } else {
                    ws.set_value(r, c, Some(v));
                }
            }
            if let Some(s) = x.s {
                ws.set_style(r, c, Some(s));
            }
            if let Some(t) = x.rich {
                ws.set_rich_text(r, c, Some(t));
            }
            proof {
                fs = fs0.push(bare);
                assert(fs.drop_last() == fs0);
                assert(ws.cells@ == load_cell(c0, all[i], bare));
                assert(all_bare(all.take(i + 1), fs)) by {
                    assert forall|k: int| 0 <= k < i + 1 implies is_bare(
                        all.take(i + 1)[k].f,
                        #[trigger] fs[k],
                    ) by {
                        if k < i {
                            assert(fs0[k] == fs[k]);
                            assert(all.take(i)[k] == all.take(i + 1)[k]);
                        }
                    }
                }
            }
        }
    }
    assert(all.take(all.len() as int) == all);
}

/// The sheet of a snapshot, with named styles.
pub fn sheet_from_json(snap: SheetSnapshot, style_sheet: Vec<NamedStyle>) -> (r: Worksheet)
    ensures
        is_sheet_of(r, snap, style_sheet@),
{
    let mut ws = Worksheet::with_size("", snap.row_count, snap.col_count);
    ws.name = snap.name;
    ws.style_sheet = style_sheet;
    if let Some(s) = snap.default_style {
        ws.default_style = s;
    }
    ws.row_heights = snap.row_heights;
    ws.col_widths = snap.col_widths;
    ws.row_styles = snap.row_styles;
    ws.col_styles = snap.col_styles;
    load_into(&mut ws, snap.cells);
    ws.spans = snap.spans;
    ws.row_outlines = rebuild_outline(&snap.row_outlines);
    ws.column_outlines = rebuild_outline(&snap.col_outlines);
    ws.summary_below = match snap.summary_below {
        Some(b) => b,
        None => true,
    };
    ws.summary_right = match snap.summary_right {
        Some(b) => b,
        None => true,
    };
    ws.hidden_rows = snap.hidden_rows;
    ws.hidden_cols = snap.hidden_cols;
    if let Some(z) = snap.zoom {
        ws.zoom = z;
    }
    ws.active_row = match snap.active_row {
        Some(n) => n,
        None => 0,
    };
    ws.active_col = match snap.active_col {
        Some(n) => n,
        None => 0,
    };
    ws.validations = snap.validations;
    ws.hyperlinks = snap.hyperlinks;
    ws.conditional_rules = snap.conditional_rules;
    ws.comments = snap.comments;
    ws.floating_objects = snap.floating_objects;
    ws.page_setup = snap.page_setup;
    ws.protection = snap.protection;
    ws.sparklines = snap.sparklines;
    ws
}

// ---- there and back

/// Whether a cell is kept as it is by a snapshot: it holds something, a formula that is not empty
/// and has no `=` in front, a style that says something.
pub open spec fn keeps(x: SheetCell) -> bool {
    &&& !is_blank_cell(x)
    &&& x.formula matches Some(f) ==> f@.len() > 0 && !has_equals(f@)
    &&& x.style matches Some(s) ==> s != empty_style()
}

/// Whether two sheets are the same but for their named styles.
pub open spec fn same_sheet(a: Worksheet, b: Worksheet) -> bool {
    &&& a.name == b.name
    &&& a.row_count == b.row_count
    &&& a.col_count == b.col_count
    &&& a.cells@ == b.cells@
    &&& a.spans == b.spans
    &&& a.row_heights == b.row_heights
    &&& a.col_widths == b.col_widths
    &&& a.row_styles == b.row_styles
    &&& a.col_styles == b.col_styles
    &&& a.default_style == b.default_style
    &&& a.hidden_rows == b.hidden_rows
    &&& a.hidden_cols == b.hidden_cols
    &&& a.row_outlines@ == b.row_outlines@
    &&& a.column_outlines@ == b.column_outlines@
    &&& a.summary_below == b.summary_below
    &&& a.summary_right == b.summary_right
    &&& a.zoom@ == b.zoom@
    &&& a.active_row == b.active_row
    &&& a.active_col == b.active_col
    &&& a.validations == b.validations
    &&& a.hyperlinks == b.hyperlinks
    &&& a.conditional_rules == b.conditional_rules
    &&& a.comments == b.comments
    &&& a.floating_objects == b.floating_objects
    &&& a.page_setup == b.page_setup
    &&& a.protection == b.protection
    &&& a.sparklines == b.sparklines
}

proof fn cell_at_end(cells: Seq<SheetCell>, r: u32, c: u32)
    requires
        in_order(cells),
        cells.len() > 0 ==> place_key(cells.last().r, cells.last().c) < place_key(r, c),
    ensures
        cell_at(cells, r, c) == blank_cell(r, c),
{
    assert forall|i: int| 0 <= i < cells.len() implies place_key((#[trigger] cells[i]).r, cells[i].c)
        < place_key(r, c) by {
        if i < cells.len() - 1 {
            assert(place_key(cells[i].r, cells[i].c) < place_key(
                cells[cells.len() - 1].r,
                cells[cells.len() - 1].c,
            ));
        }
    }
    cell_at_is(cells, r, c, cells.len() as int);
}

proof fn with_last(cells: Seq<SheetCell>, y: SheetCell, x: SheetCell)
    requires
        y.r == x.r,
        y.c == x.c,
        !is_blank_cell(x),
    ensures
        cell_at(cells.push(y), x.r, x.c) == y,
        with_cell(cells.push(y), x) == cells.push(x),
{
    assert(cells.push(y).drop_last() == cells);
}

proof fn load_cell_behind(cells: Seq<SheetCell>, x: SheetCell)
    requires
        in_order(cells),
        cells.len() > 0 ==> place_key(cells.last().r, cells.last().c) < place_key(x.r, x.c),
        keeps(x),
    ensures
        load_cell(cells, stored_cell(x), x.formula) == cells.push(x),
{
    let k = stored_cell(x);
    cell_at_end(cells, x.r, x.c);
    let blank = blank_cell(x.r, x.c);
    let xa = SheetCell { formula: x.formula, ..blank };
    let a = if x.formula is Some {
        cells.push(xa)
    } else {
        cells
    };
    let xb = SheetCell { value: x.value, ..xa };
    let b = if x.formula is Some || x.value is Some {
        cells.push(xb)
    } else {
        cells
    };
    if x.formula is Some {
        with_last(cells, xa, xb);
    }
    let xc = SheetCell { style: x.style, ..xb };
    let c = if x.formula is Some || x.value is Some || x.style is Some {
        cells.push(xc)
    } else {
        cells
    };
    if x.formula is Some || x.value is Some {
        with_last(cells, xb, xc);
    }
    let xd = SheetCell { rich: x.rich, ..xc };
    assert(xd == x);
    if x.formula is Some || x.value is Some || x.style is Some {
        with_last(cells, xc, xd);
    }
}

pub(crate) proof fn load_stored(cells: Seq<SheetCell>, fs: Seq<Option<String>>)
    requires
        in_order(cells),
        forall|i: int| 0 <= i < cells.len() ==> keeps(#[trigger] cells[i]),
        all_bare(stored_cells(cells), fs),
    ensures
        stored_cells(cells).len() == cells.len(),
        load_cells(stored_cells(cells), fs) == cells,
    decreases cells.len(),
{
    if cells.len() > 0 {
        let p = cells.drop_last();
        let x = cells.last();
        assert(keeps(cells[cells.len() - 1]));
        assert forall|i: int| 0 <= i < p.len() implies keeps(#[trigger] p[i]) by {
            assert(p[i] == cells[i]);
        }
        assert forall|i: int, j: int| 0 <= i < j < p.len() implies place_key(p[i].r, p[i].c)
            < place_key(p[j].r, p[j].c) by {
            assert(p[i] == cells[i] && p[j] == cells[j]);
        }
        let all = stored_cells(cells);
        assert(is_stored(stored_cell(x)));
        assert(all == stored_cells(p).push(stored_cell(x)));
        let n = all.len() - 1;
        let gs = fs.drop_last();
        assert(all_bare(stored_cells(p), gs)) by {
            assert forall|i: int| 0 <= i < stored_cells(p).len() implies is_bare(
                stored_cells(p)[i].f,
                #[trigger] gs[i],
            ) by {
                assert(all[i] == stored_cells(p)[i]);
                assert(fs[i] == gs[i]);
            }
        }
        load_stored(p, gs);
        assert(is_bare(all[n].f, fs[n]));
        assert(fs.last() == x.formula);
        if p.len() > 0 {
            assert(place_key(cells[p.len() - 1].r, cells[p.len() - 1].c) < place_key(x.r, x.c));
        }
        load_cell_behind(p, x);
        assert(all.drop_last() == stored_cells(p));
        assert(p.push(x) == cells);
    } else {
        assert(load_cells(stored_cells(cells), fs) == cells);
    }
}

/// A sheet comes back from its snapshot as it was. Left out are sheets with cells that a snapshot
/// does not keep as they are: cells with an empty formula or an empty style, which are stored
/// without them, and formulas with a `=` in front, which lose it.
pub proof fn sheet_round_trip(ws: Worksheet, snap: SheetSnapshot, back: Worksheet)
    requires
        ws.wf(),
        forall|i: int| 0 <= i < ws.cells@.len() ==> keeps(#[trigger] ws.cells@[i]),
        is_snapshot_of(snap, ws),
        is_sheet_of(back, snap, ws.style_sheet@),
    ensures
        same_sheet(back, ws),
        back.style_sheet@ == ws.style_sheet@,
{
    let fs = choose|fs: Seq<Option<String>>|
        all_bare(snap.cells@, fs) && back.cells@ == #[trigger] load_cells(snap.cells@, fs);
    load_stored(ws.cells@, fs);
}

// ---- workbooks

/// A workbook.
#[derive(Debug, Clone, PartialEq)]
pub struct Workbook {
    pub sheets: Vec<Worksheet>,
    pub active_sheet: usize,
    pub names: Vec<DefinedNameSnapshot>,
    pub frozen_row_count: u32,
    pub frozen_col_count: u32,
    pub trailing_row_count: u32,
    pub trailing_col_count: u32,
    pub split_row: bool,
    pub split_col: bool,
}

impl Workbook {
    pub open spec fn wf(&self) -> bool {
        forall|i: int| 0 <= i < self.sheets@.len() ==> (#[trigger] self.sheets@[i]).wf()
    }

    /// A workbook without sheets.
    pub fn empty() -> (r: Workbook)
        ensures
            r.wf(),
            r.sheets@.len() == 0,
            r.active_sheet == 0,
            r.names@.len() == 0,
            r.frozen_row_count == 0 && r.frozen_col_count == 0,
            r.trailing_row_count == 0 && r.trailing_col_count == 0,
            !r.split_row && !r.split_col,
    {
        Workbook {
            sheets: Vec::new(),
            active_sheet: 0,
            names: Vec::new(),
            frozen_row_count: 0,
            frozen_col_count: 0,
            trailing_row_count: 0,
            trailing_col_count: 0,
            split_row: false,
            split_col: false,
        }
    }

    /// The first sheet of a name.
    pub fn sheet_by_name(&self, name: &str) -> (r: Option<&Worksheet>)
        ensures
            match r {
                Some(w) => w.name@ == name@ && exists|i: int|
                    0 <= i < self.sheets@.len() && *w == #[trigger] self.sheets@[i] && forall|k: int|
                        0 <= k < i ==> (#[trigger] self.sheets@[k]).name@ != name@,
                None => forall|k: int|
                    0 <= k < self.sheets@.len() ==> (#[trigger] self.sheets@[k]).name@ != name@,
            },
    {
        let mut i: usize = 0;
        while i < self.sheets.len()
            invariant
                i <= self.sheets.len(),
                forall|k: int| 0 <= k < i ==> (#[trigger] self.sheets@[k]).name@ != name@,
            decreases self.sheets.len() - i,
        {
            if same_text(self.sheets[i].name.as_str(), name) {
                assert(self.sheets@[i as int].name@ == name@);
                return Some(&self.sheets[i]);
            }
            i = i + 1;
        }
        None
    }
}

/// Named styles with one put in by name, unless its name is there.
pub open spec fn with_named(list: Seq<NamedStyle>, x: NamedStyle) -> Seq<NamedStyle>
    decreases list.len(),
{
    if list.len() == 0 || (text_le(list.last().name@, x.name@) && list.last().name@ != x.name@) {
        list.push(x)
    } else if list.last().name@ == x.name@ {
        list
    } else {
        with_named(list.drop_last(), x).push(list.last())
    }
}

/// Named styles with others put in one by one.
pub open spec fn with_all_named(list: Seq<NamedStyle>, xs: Seq<NamedStyle>) -> Seq<NamedStyle>
    decreases xs.len(),
{
    if xs.len() == 0 {
        list
    } else {
        with_named(with_all_named(list, xs.drop_last()), xs.last())
    }
}

/// The named styles of sheets, by name; of several styles of a name that of the first sheet.
pub open spec fn book_style_sheet(sheets: Seq<Worksheet>) -> Seq<NamedStyle>
    decreases sheets.len(),
{
    if sheets.len() == 0 {
        Seq::empty()
    } else {
        with_all_named(book_style_sheet(sheets.drop_last()), sheets.last().style_sheet@)
    }
}

/// Whether a snapshot is that of a workbook.
pub open spec fn is_book_snapshot_of(snap: WorkbookSnapshot, wb: Workbook) -> bool {
    &&& snap.format@ == "cmx-megasheet"@
    &&& snap.version == SNAPSHOT_VERSION
    &&& snap.active_sheet == (if wb.active_sheet != 0 {
        Some(wb.active_sheet)
    } else {
        None
    })
    &&& match snap.styles {
        Some(v) => v@ == book_style_sheet(wb.sheets@) && v@.len() > 0,
        None => book_style_sheet(wb.sheets@).len() == 0,
    }
    &&& snap.defined_names == wb.names
    &&& snap.frozen_row_count == wb.frozen_row_count
    &&& snap.frozen_col_count == wb.frozen_col_count
    &&& snap.trailing_row_count == wb.trailing_row_count
    &&& snap.trailing_col_count == wb.trailing_col_count
    &&& snap.split_row == wb.split_row
    &&& snap.split_col == wb.split_col
    &&& snap.sheets@.len() == wb.sheets@.len()
    &&& forall|i: int|
        0 <= i < wb.sheets@.len() ==> is_snapshot_of(#[trigger] snap.sheets@[i], wb.sheets@[i])
}

/// Whether a workbook is the one of a snapshot. One without sheets gets an empty sheet.
pub open spec fn is_book_of(wb: Workbook, snap: WorkbookSnapshot) -> bool {
    let styles = match snap.styles {
        Some(v) => v@,
        None => Seq::empty(),
    };
    &&& wb.wf()
    &&& snap.sheets@.len() > 0 ==> wb.sheets@.len() == snap.sheets@.len()
    &&& forall|i: int|
        0 <= i < snap.sheets@.len() ==> is_sheet_of(
            #[trigger] wb.sheets@[i],
            snap.sheets@[i],
            styles,
        )
    &&& snap.sheets@.len() == 0 ==> wb.sheets@.len() == 1 && wb.sheets@[0].name@ == "Sheet1"@
        && wb.sheets@[0].row_count == DEFAULT_ROWS && wb.sheets@[0].col_count == DEFAULT_COLS
        && wb.sheets@[0].unfilled() && wb.sheets@[0].style_sheet@ == styles
    &&& wb.active_sheet == (match snap.active_sheet {
        Some(i) => i,
        None => 0,
    })
    &&& wb.names == snap.defined_names
    &&& wb.frozen_row_count == snap.frozen_row_count
    &&& wb.frozen_col_count == snap.frozen_col_count
    &&& wb.trailing_row_count == snap.trailing_row_count
    &&& wb.trailing_col_count == snap.trailing_col_count
    &&& wb.split_row == snap.split_row
    &&& wb.split_col == snap.split_col
}

fn copy_named(x: &NamedStyle) -> (r: NamedStyle)
    ensures
        r == *x,
{
    NamedStyle { name: x.name.clone(), style: x.style.copied() }
}

fn copy_styles(v: &Vec<NamedStyle>) -> (r: Vec<NamedStyle>)
    ensures
        r@ == v@,
{
    let mut out: Vec<NamedStyle> = Vec::new();
    let mut i: usize = 0;
    while i < v.len()
        invariant
            i <= v.len(),
            out@ == v@.take(i as int),
        decreases v.len() - i,
    {
        out.push(copy_named(&v[i]));
        assert(v@.take(i + 1) == v@.take(i as int).push(v@[i as int]));
        i = i + 1;
    }
    assert(v@.take(i as int) == v@);
    out
}

fn put_named(list: &mut Vec<NamedStyle>, x: &NamedStyle)
    ensures
        final(list)@ == with_named(old(list)@, *x),
{
    let ghost all = list@;
    let mut p: usize = list.len();
    assert(all.take(p as int) == all);
    assert(with_named(all, *x) + all.skip(p as int) == with_named(all, *x));
    while p > 0
        invariant
            p <= all.len(),
            list@ == all,
            all == old(list)@,
            with_named(all, *x) == with_named(all.take(p as int), *x) + all.skip(p as int),
        decreases p,
    {
        let ghost head = all.take(p as int);
        assert(head.last() == all[p - 1]);
        assert(head.drop_last() == all.take(p - 1));
        if same_text(list[p - 1].name.as_str(), x.name.as_str()) {
            assert(head + all.skip(p as int) == all);
            return ;
        }
        if text_not_after(list[p - 1].name.as_str(), x.name.as_str()) {
            list.insert(p, copy_named(x));
            assert(head.push(*x) + all.skip(p as int) == all.insert(p as int, *x));
            return ;
        }
        assert(with_named(head.drop_last(), *x).push(head.last()) + all.skip(p as int) == with_named(
            all.take(p - 1),
            *x,
        ) + all.skip(p - 1));
        p = p - 1;
    }
    list.insert(0, copy_named(x));
    assert(all.take(0).push(*x) + all.skip(0) == all.insert(0, *x));
}

/// The snapshot of a workbook.
pub fn workbook_to_json(wb: Workbook) -> (r: WorkbookSnapshot)
    requires
        wb.wf(),
    ensures
        is_book_snapshot_of(r, wb),
{
    let ghost all = wb.sheets@;
    let mut styles: Vec<NamedStyle> = Vec::new();
    let mut sheets: Vec<SheetSnapshot> = Vec::new();
    let mut rest: Vec<Worksheet> = reversed(wb.sheets);
    assert(all.skip(0) == all);
    while rest.len() > 0
        invariant
            rest@.len() <= all.len(),
            rest@ == all.skip(all.len() - rest@.len()).reverse(),
            forall|i: int| 0 <= i < all.len() ==> (#[trigger] all[i]).wf(),
            sheets@.len() == all.len() - rest@.len(),
            forall|i: int| 0 <= i < sheets@.len() ==> is_snapshot_of(#[trigger] sheets@[i], all[i]),
            styles@ == book_style_sheet(all.take(all.len() - rest@.len())),
        decreases rest.len(),
    {
        let ghost i = all.len() - rest@.len();
        assert(rest@.last() == all[i]);
        if let Some(ws) = rest.pop() {
            assert(rest@ == all.skip(i + 1).reverse());
            assert(all.take(i + 1).drop_last() == all.take(i));
            assert(all[i].wf());
            let ghost s0 = styles@;
            let ghost named = ws.style_sheet@;
            let mut k: usize = 0;
            assert(named.take(0) == Seq::<NamedStyle>::empty());
            while k < ws.style_sheet.len()
                invariant
                    k <= ws.style_sheet.len(),
                    named == ws.style_sheet@,
                    styles@ == with_all_named(s0, named.take(k as int)),
                decreases ws.style_sheet.len() - k,
            {
                put_named(&mut styles, &ws.style_sheet[k]);
                assert(named.take(k + 1).drop_last() == named.take(k as int));
                k = k + 1;
            }
            assert(named.take(k as int) == named);
            sheets.push(sheet_to_json(ws));
        }
    }
    assert(all.take(all.len() as int) == all);
    WorkbookSnapshot {
        format: snapshot_format(),
        version: SNAPSHOT_VERSION,
        active_sheet: if wb.active_sheet != 0 {
            Some(wb.active_sheet)
        } else {
            None
        },
        styles: if styles.len() == 0 {
            None
        } else {
            Some(styles)
        },
        defined_names: wb.names,
        frozen_row_count: wb.frozen_row_count,
        frozen_col_count: wb.frozen_col_count,
        trailing_row_count: wb.trailing_row_count,
        trailing_col_count: wb.trailing_col_count,
        split_row: wb.split_row,
        split_col: wb.split_col,
        sheets,
    }
}

/// The workbook of a snapshot.
pub fn workbook_from_json(snap: WorkbookSnapshot) -> (r: Workbook)
    ensures
        is_book_of(r, snap),
{
    let ghost all = snap.sheets@;
    let styles: Vec<NamedStyle> = match snap.styles {
        Some(v) => v,
        None => Vec::new(),
    };
    let ghost named = styles@;
    let mut sheets: Vec<Worksheet> = Vec::new();
    let mut rest: Vec<SheetSnapshot> = reversed(snap.sheets);
    assert(all.skip(0) == all);
    while rest.len() > 0
        invariant
            rest@.len() <= all.len(),
            rest@ == all.skip(all.len() - rest@.len()).reverse(),
            named == styles@,
            sheets@.len() == all.len() - rest@.len(),
            forall|i: int|
                0 <= i < sheets@.len() ==> is_sheet_of(#[trigger] sheets@[i], all[i], named),
        decreases rest.len(),
    {
        let ghost i = all.len() - rest@.len();
        assert(rest@.last() == all[i]);
        if let Some(s) = rest.pop() {
            assert(rest@ == all.skip(i + 1).reverse());
            sheets.push(sheet_from_json(s, copy_styles(&styles)));
        }
    }
    if sheets.len() == 0 {
        let mut ws = Worksheet::with_size("Sheet1", DEFAULT_ROWS, DEFAULT_COLS);
        ws.style_sheet = styles;
        sheets.push(ws);
    }
    Workbook {
        sheets,
        active_sheet: match snap.active_sheet {
            Some(i) => i,
            None => 0,
        },
        names: snap.defined_names,
        frozen_row_count: snap.frozen_row_count,
        frozen_col_count: snap.frozen_col_count,
        trailing_row_count: snap.trailing_row_count,
        trailing_col_count: snap.trailing_col_count,
        split_row: snap.split_row,
        split_col: snap.split_col,
    }
}

/// A workbook comes back from its snapshot as it was, but that all sheets share the named styles
/// of all. Left out are workbooks without sheets, which get one, and sheets with cells that a
/// snapshot does not keep as they are.
pub proof fn workbook_round_trip(wb: Workbook, snap: WorkbookSnapshot, back: Workbook)
    requires
        wb.wf(),
        wb.sheets@.len() > 0,
        forall|i: int, k: int|
            0 <= i < wb.sheets@.len() && 0 <= k < wb.sheets@[i].cells@.len() ==> keeps(
                #[trigger] wb.sheets@[i].cells@[k],
            ),
        is_book_snapshot_of(snap, wb),
        is_book_of(back, snap),
    ensures
        back.sheets@.len() == wb.sheets@.len(),
        forall|i: int|
            0 <= i < wb.sheets@.len() ==> same_sheet(#[trigger] back.sheets@[i], wb.sheets@[i])
                && back.sheets@[i].style_sheet@ == book_style_sheet(wb.sheets@),
        back.active_sheet == wb.active_sheet,
        back.names == wb.names,
        back.frozen_row_count == wb.frozen_row_count,
        back.frozen_col_count == wb.frozen_col_count,
        back.trailing_row_count == wb.trailing_row_count,
        back.trailing_col_count == wb.trailing_col_count,
        back.split_row == wb.split_row,
        back.split_col == wb.split_col,
{
    assert forall|i: int| 0 <= i < wb.sheets@.len() implies same_sheet(
        #[trigger] back.sheets@[i],
        wb.sheets@[i],
    ) && back.sheets@[i].style_sheet@ == book_style_sheet(wb.sheets@) by {
        let ws = wb.sheets@[i];
        let sn = snap.sheets@[i];
        let b = back.sheets@[i];
        assert(is_snapshot_of(sn, ws));
        assert(ws.wf());
        assert forall|k: int| 0 <= k < ws.cells@.len() implies keeps(#[trigger] ws.cells@[k]) by {
            assert(keeps(wb.sheets@[i].cells@[k]));
        }
        let fs = choose|fs: Seq<Option<String>>|
            all_bare(sn.cells@, fs) && b.cells@ == #[trigger] load_cells(sn.cells@, fs);
        load_stored(ws.cells@, fs);
        if snap.styles is None {
            assert(b.style_sheet@ == book_style_sheet(wb.sheets@));
        }
    }
}

} // verus!
