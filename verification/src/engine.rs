//! The formula engine: reads cells for formulas, finds out which formulas are to be computed
//! and in which order, and collects what they give.
//!
//! What a formula gives is computed elsewhere: an [`Evaluator`](crate::evaluator::Evaluator) runs
//! for each formula that a [`Round`] hands out.
use crate::address::{parse_addr, spec_parse_addr};
use crate::depgraph::{
    cell_key, endpoint_of, extract_deps, is_affected, is_topo, max_i64, max_of, min_i64, min_of,
    reads, sizes, spec_cell_key, spec_endpoint_of, spec_split_local, split_local, CellKey,
    DependencyGraph, Endpoint, GraphView, SheetBounds, SheetSize, TopoResult,
};
use crate::evaluator::{value_rows, value_seq};
use crate::keyset::KeySet;
use crate::parse::{ast_rows, ast_seq, parse_formula, parse_text, Ast, AstNode};
use crate::text::{chars_of, contains_text, remove_char, same_text, texts, upper, without_char};
use crate::value::{error_of, error_text, FValue, FormulaError, FormulaValue, Num};
use vstd::prelude::*;

verus! {

/// What a cell holds.
#[derive(Debug, PartialEq)]
pub enum CellContent {
    Number(Num),
    Text(String),
    Bool(bool),
}

/// What a cell holds, as a mathematical value.
pub enum Content {
    Number(Num),
    Text(Seq<char>),
    Bool(bool),
}

impl View for CellContent {
    type V = Content;

    open spec fn view(&self) -> Content {
        match self {
            CellContent::Number(n) => Content::Number(*n),
            CellContent::Text(s) => Content::Text(s@),
            CellContent::Bool(b) => Content::Bool(*b),
        }
    }
}

/// How a formula's value is kept in its cell: an error as the text that shows it.
pub open spec fn content_of(v: FValue) -> Content {
    match v {
        FValue::Number(n) => Content::Number(n),
        FValue::Text(s) => Content::Text(s),
        FValue::Bool(b) => Content::Bool(b),
        FValue::Error(e) => Content::Text(error_text(e)),
        FValue::Blank => Content::Text(Seq::empty()),
    }
}

/// How a formula reads a cell: the empty text is blank, a text that shows an error is the error.
pub open spec fn value_of(c: Option<Content>) -> FValue {
    match c {
        None => FValue::Blank,
        Some(Content::Number(n)) => FValue::Number(n),
        Some(Content::Bool(b)) => FValue::Bool(b),
        Some(Content::Text(s)) => if s.len() == 0 {
            FValue::Blank
        } else {
            match error_of(s) {
                Some(e) => FValue::Error(e),
                None => FValue::Text(s),
            }
        },
    }
}

/// A formula that reads a computed cell sees the computed value; only the empty text, and a text
/// that shows an error, are not told from a blank and from the error.
pub proof fn content_round_trip(v: FValue)
    requires
        v matches FValue::Text(s) ==> s.len() > 0 && error_of(s) is None,
    ensures
        value_of(Some(content_of(v))) == v,
{
    if let FValue::Error(e) = v {
        crate::value::error_text_round_trip(e, error_text(e));
        reveal_strlit("#DIV/0!");
        reveal_strlit("#VALUE!");
        reveal_strlit("#REF!");
        reveal_strlit("#NAME?");
        reveal_strlit("#NUM!");
        reveal_strlit("#N/A");
        reveal_strlit("#SPILL!");
        reveal_strlit("#CIRC!");
    }
}

/// How a formula's value is kept in its cell.
pub fn formula_to_cell(v: &FormulaValue) -> (r: CellContent)
    ensures
        r@ == content_of(v@),
{
    match v {
        FormulaValue::Number(n) => CellContent::Number(*n),
        FormulaValue::Text(s) => CellContent::Text(s.clone()),
        FormulaValue::Bool(b) => CellContent::Bool(*b),
        FormulaValue::Error(e) => CellContent::Text(e.as_str().to_string()),
        FormulaValue::Blank => CellContent::Text(String::new()),
    }
}

/// An optional content as a mathematical value.
pub open spec fn opt_content(c: Option<CellContent>) -> Option<Content> {
    match c {
        Some(x) => Some(x@),
        None => None,
    }
}

/// How a formula reads a cell.
pub fn cell_to_formula(c: &Option<CellContent>) -> (r: FormulaValue)
    ensures
        r@ == value_of(opt_content(*c)),
{
    match c {
        None => FormulaValue::Blank,
        Some(CellContent::Number(n)) => FormulaValue::Number(*n),
        Some(CellContent::Bool(b)) => FormulaValue::Bool(*b),
        Some(CellContent::Text(s)) => {
            if s.as_str().is_empty() {
                FormulaValue::Blank
            } else if let Some(e) = FormulaError::from_str(s.as_str()) {
                FormulaValue::Error(e)
            } else {
                FormulaValue::Text(s.clone())
            }
        },
    }
}

/// A cell of a sheet.
#[derive(Debug)]
pub struct BookCell {
    pub row: u32,
    pub col: u32,
    pub content: Option<CellContent>,
    /// The formula's text, without its leading `=`.
    pub formula: Option<String>,
}

/// A sheet: its name, its size and the cells that hold something.
#[derive(Debug)]
pub struct BookSheet {
    pub name: String,
    pub rows: u32,
    pub cols: u32,
    pub cells: Vec<BookCell>,
}

/// The first sheet of a name, at or behind `from`.
pub open spec fn find_sheet(sheets: Seq<BookSheet>, name: Seq<char>, from: int) -> Option<int>
    decreases sheets.len() - from,
{
    if 0 <= from < sheets.len() {
        if sheets[from].name@ == name {
            Some(from)
        } else {
            find_sheet(sheets, name, from + 1)
        }
    } else {
        None
    }
}

/// The number of the first sheet of a name.
pub fn index_of_sheet(sheets: &Vec<BookSheet>, name: &str) -> (r: Option<usize>)
    ensures
        match find_sheet(sheets@, name@, 0) {
            Some(i) => r matches Some(k) && k == i && k < sheets@.len(),
            None => r is None,
        },
{
    let mut i: usize = 0;
    while i < sheets.len()
        invariant
            i <= sheets.len(),
            find_sheet(sheets@, name@, 0) == find_sheet(sheets@, name@, i as int),
        decreases sheets.len() - i,
    {
        if same_text(sheets[i].name.as_str(), name) {
            return Some(i);
        }
        i = i + 1;
    }
    None
}

/// The first cell at a place, at or behind `from`.
pub open spec fn find_cell(cells: Seq<BookCell>, row: u32, col: u32, from: int) -> Option<int>
    decreases cells.len() - from,
{
    if 0 <= from < cells.len() {
        if cells[from].row == row && cells[from].col == col {
            Some(from)
        } else {
            find_cell(cells, row, col, from + 1)
        }
    } else {
        None
    }
}

pub(crate) fn index_of_cell(cells: &Vec<BookCell>, row: u32, col: u32) -> (r: Option<usize>)
    ensures
        match find_cell(cells@, row, col, 0) {
            Some(i) => r matches Some(k) && k == i && k < cells@.len(),
            None => r is None,
        },
{
    let mut i: usize = 0;
    while i < cells.len()
        invariant
            i <= cells.len(),
            find_cell(cells@, row, col, 0) == find_cell(cells@, row, col, i as int),
        decreases cells.len() - i,
    {
        if cells[i].row == row && cells[i].col == col {
            return Some(i);
        }
        i = i + 1;
    }
    None
}

/// A value computed in the current round.
#[derive(Debug)]
pub struct CellWrite {
    pub sheet_index: usize,
    pub sheet_name: String,
    pub row: u32,
    pub col: u32,
    pub value: FormulaValue,
}

/// Whether a write is to a place.
pub open spec fn writes_to(w: CellWrite, sheet: Seq<char>, row: u32, col: u32) -> bool {
    w.sheet_name@ == sheet && w.row == row && w.col == col
}

/// The latest value written to a place.
pub open spec fn written(writes: Seq<CellWrite>, sheet: Seq<char>, row: u32, col: u32) -> Option<
    FValue,
>
    decreases writes.len(),
{
    if writes.len() == 0 {
        None
    } else if writes_to(writes.last(), sheet, row, col) {
        Some(writes.last().value@)
    } else {
        written(writes.drop_last(), sheet, row, col)
    }
}

/// What a formula reads at a place: what was computed in this round, or what the cell holds. A
/// sheet that does not exist gives `#REF!`.
pub open spec fn read_value(
    sheets: Seq<BookSheet>,
    writes: Seq<CellWrite>,
    sheet: Seq<char>,
    row: u32,
    col: u32,
) -> FValue {
    match written(writes, sheet, row, col) {
        Some(v) => v,
        None => match find_sheet(sheets, sheet, 0) {
            Some(i) => match find_cell(sheets[i].cells@, row, col, 0) {
                Some(j) => value_of(opt_content(sheets[i].cells@[j].content)),
                None => FValue::Blank,
            },
            None => FValue::Error(FormulaError::Ref),
        },
    }
}

fn read(
    sheets: &Vec<BookSheet>,
    writes: &Vec<CellWrite>,
    sheet: &str,
    row: u32,
    col: u32,
) -> (r: FormulaValue)
    ensures
        r@ == read_value(sheets@, writes@, sheet@, row, col),
{
    let mut i: usize = writes.len();
    assert(writes@.take(i as int) =~= writes@);
    while i > 0
        invariant
            i <= writes.len(),
            written(writes@, sheet@, row, col) == written(
                writes@.take(i as int),
                sheet@,
                row,
                col,
            ),
        decreases i,
    {
        let w: &CellWrite = &writes[i - 1];
        assert(writes@.take(i as int).last() == *w);
        assert(writes@.take(i as int).drop_last() =~= writes@.take(i - 1));
        if w.row == row && w.col == col && same_text(w.sheet_name.as_str(), sheet) {
            return w.value.copied();
        }
        i = i - 1;
    }
    match index_of_sheet(sheets, sheet) {
        Some(s) => match index_of_cell(&sheets[s].cells, row, col) {
            Some(c) => cell_to_formula(&sheets[s].cells[c].content),
            None => FormulaValue::Blank,
        },
        None => FormulaValue::Error(FormulaError::Ref),
    }
}

/// What a single-cell reference on `default_sheet` reads.
pub open spec fn cell_value(
    sheets: Seq<BookSheet>,
    writes: Seq<CellWrite>,
    default_sheet: Seq<char>,
    reference: Seq<char>,
) -> FValue {
    let (sheet, local) = spec_split_local(reference, default_sheet);
    match spec_parse_addr(without_char(local, '$')) {
        Some((row, col)) => if find_sheet(sheets, sheet, 0) is Some {
            read_value(sheets, writes, sheet, row as u32, col as u32)
        } else {
            FValue::Error(FormulaError::Ref)
        },
        None => FValue::Error(FormulaError::Ref),
    }
}

/// What a single-cell reference on `default_sheet` reads; `#REF!` where it names no cell of an
/// existing sheet.
pub fn get_cell_value(
    sheets: &Vec<BookSheet>,
    writes: &Vec<CellWrite>,
    default_sheet: &str,
    reference: &str,
) -> (r: FormulaValue)
    ensures
        r@ == cell_value(sheets@, writes@, default_sheet@, reference@),
{
    let (sheet, local) = split_local(reference, default_sheet);
    let clean: String = remove_char(&chars_of(local.as_str()), '$');
    match parse_addr(clean.as_str()) {
        Some(p) => match index_of_sheet(sheets, sheet.as_str()) {
            Some(_) => read(sheets, writes, sheet.as_str(), p.row, p.col),
            None => FormulaValue::Error(FormulaError::Ref),
        },
        None => FormulaValue::Error(FormulaError::Ref),
    }
}

/// The first and the last row (or column) of a range on a sheet of `size` rows (or columns), cut
/// to the sheet. The range is empty where the first is behind the last.
pub open spec fn clipped(a: int, b: int, size: u32) -> (int, int) {
    let last = size - 1;
    let from = if a < 0 {
        0
    } else {
        a
    };
    let to = if b < 0 {
        last
    } else {
        b
    };
    (max_of(min_of(from, to), 0), min_of(max_of(from, to), max_of(last, 0)))
}

/// The values of the rectangle from row `r1` to `r2` and column `c1` to `c2`.
pub open spec fn rectangle(
    sheets: Seq<BookSheet>,
    writes: Seq<CellWrite>,
    sheet: Seq<char>,
    rows: (int, int),
    cols: (int, int),
) -> Seq<Seq<FValue>> {
    Seq::new(
        size_of(rows),
        |i: int|
            Seq::new(
                size_of(cols),
                |j: int|
                    read_value(sheets, writes, sheet, (rows.0 + i) as u32, (cols.0 + j) as u32),
            ),
    )
}

/// How many numbers there are from the first to the second.
pub open spec fn size_of(span: (int, int)) -> nat {
    if span.1 >= span.0 {
        (span.1 - span.0 + 1) as nat
    } else {
        0
    }
}

/// What a range on `default_sheet` reads.
pub open spec fn range_value(
    sheets: Seq<BookSheet>,
    writes: Seq<CellWrite>,
    default_sheet: Seq<char>,
    start: Seq<char>,
    end: Seq<char>,
) -> Seq<Seq<FValue>> {
    let a = spec_endpoint_of(start, default_sheet);
    let b = spec_endpoint_of(end, default_sheet);
    match find_sheet(sheets, a.sheet, 0) {
        None => seq![seq![FValue::Error(FormulaError::Ref)]],
        Some(i) => rectangle(
            sheets,
            writes,
            a.sheet,
            clipped(a.row, b.row, sheets[i].rows),
            clipped(a.col, b.col, sheets[i].cols),
        ),
    }
}

fn clip(a: i64, b: i64, size: u32) -> (r: (i64, i64))
    requires
        -1 <= a,
        -1 <= b,
    ensures
        (r.0 as int, r.1 as int) == clipped(a as int, b as int, size),
        0 <= r.0,
        -1 <= r.1 <= u32::MAX - 1,
{
    let last: i64 = size as i64 - 1;
    let from: i64 = if a < 0 {
        0
    } else {
        a
    };
    let to: i64 = if b < 0 {
        last
    } else {
        b
    };
    (max_i64(min_i64(from, to), 0), min_i64(max_i64(from, to), max_i64(last, 0)))
}

/// What a range on `default_sheet` reads, row by row, cut to the sheet.
pub fn get_range_values(
    sheets: &Vec<BookSheet>,
    writes: &Vec<CellWrite>,
    default_sheet: &str,
    start: &str,
    end: &str,
) -> (r: Vec<Vec<FormulaValue>>)
    ensures
        value_rows(r@) == range_value(sheets@, writes@, default_sheet@, start@, end@),
{
    let a: Endpoint = endpoint_of(start, default_sheet);
    let b: Endpoint = endpoint_of(end, default_sheet);
    let mut out: Vec<Vec<FormulaValue>> = Vec::new();
    let s: usize = match index_of_sheet(sheets, a.sheet.as_str()) {
        Some(s) => s,
        None => {
            let mut row: Vec<FormulaValue> = Vec::new();
            row.push(FormulaValue::Error(FormulaError::Ref));
            let ghost only = row@;
            out.push(row);
            assert(value_seq(only) =~= seq![FValue::Error(FormulaError::Ref)]);
            assert(value_rows(out@) =~= seq![value_seq(only)]);
            return out;
        },
    };
    let (r1, r2) = clip(a.row, b.row, sheets[s].rows);
    let (c1, c2) = clip(a.col, b.col, sheets[s].cols);
    let ghost all = rectangle(
        sheets@,
        writes@,
        a.sheet@,
        (r1 as int, r2 as int),
        (c1 as int, c2 as int),
    );
    let mut r: i64 = r1;
    assert(value_rows(out@) =~= all.take(0));
    while r <= r2
        invariant
            0 <= r1 <= r,
            r <= r2 + 1 || r == r1,
            r2 < u32::MAX,
            0 <= c1,
            c2 < u32::MAX,
            all == rectangle(
                sheets@,
                writes@,
                a.sheet@,
                (r1 as int, r2 as int),
                (c1 as int, c2 as int),
            ),
            value_rows(out@) == all.take(r - r1),
        decreases r2 + 1 - r,
    {
        let mut row: Vec<FormulaValue> = Vec::new();
        let mut c: i64 = c1;
        let ghost want = all[r - r1];
        assert(value_seq(row@) =~= want.take(0));
        while c <= c2
            invariant
                0 <= r1 <= r <= r2,
                r2 < u32::MAX,
                0 <= c1 <= c,
                c <= c2 + 1 || c == c1,
                c2 < u32::MAX,
                want == Seq::new(
                    size_of((c1 as int, c2 as int)),
                    |j: int|
                        read_value(sheets@, writes@, a.sheet@, r as u32, (c1 as int + j) as u32),
                ),
                value_seq(row@) == want.take(c - c1),
            decreases c2 + 1 - c,
        {
            let ghost so_far = value_seq(row@);
            row.push(read(sheets, writes, a.sheet.as_str(), r as u32, c as u32));
            assert(value_seq(row@) =~= so_far.push(want[c - c1]));
            assert(value_seq(row@) =~= want.take(c + 1 - c1));
            c = c + 1;
        }
        let ghost so_far = value_rows(out@);
        assert(value_seq(row@) =~= want);
        out.push(row);
        assert(value_rows(out@) =~= so_far.push(want));
        assert(value_rows(out@) =~= all.take(r + 1 - r1));
        r = r + 1;
    }
    assert(value_rows(out@) =~= all);
    out
}

/// A formula's cell: where it is and what its formula parses to, if it parses.
#[derive(Debug)]
pub struct FormulaCell {
    pub sheet_index: usize,
    pub sheet_name: String,
    pub row: u32,
    pub col: u32,
    pub ast: Option<AstNode>,
}

/// A formula's cell as a mathematical value.
pub struct Entry {
    pub sheet_index: int,
    pub sheet: Seq<char>,
    pub row: u32,
    pub col: u32,
    pub ast: Option<Ast>,
}

impl View for FormulaCell {
    type V = Entry;

    open spec fn view(&self) -> Entry {
        Entry {
            sheet_index: self.sheet_index as int,
            sheet: self.sheet_name@,
            row: self.row,
            col: self.col,
            ast: match self.ast {
                Some(a) => Some(a.view()),
                None => None,
            },
        }
    }
}

/// What formula text parses to, if it parses.
pub open spec fn parsed_ast(formula: Seq<char>) -> Option<Ast> {
    match parse_text(formula) {
        Ok(a) => Some(a),
        Err(_) => None,
    }
}

/// The entry of a formula.
pub open spec fn entry_of(
    sheet_index: int,
    sheet: Seq<char>,
    row: u32,
    col: u32,
    formula: Seq<char>,
) -> Entry {
    Entry { sheet_index, sheet, row, col, ast: parsed_ast(formula) }
}

/// The key of a formula's cell.
pub open spec fn entry_key(e: Entry) -> Seq<char> {
    spec_cell_key(e.sheet, e.row as nat, e.col as nat)
}

/// What a formula reads; nothing where it does not parse.
pub open spec fn entry_deps(e: Entry, bounds: Seq<SheetSize>) -> Set<Seq<char>> {
    Set::new(|k: Seq<char>| e.ast matches Some(a) && reads(a, e.sheet, bounds, k))
}

/// The formulas among the first `n` cells of a sheet.
pub open spec fn cell_entries(sheet: BookSheet, index: int, n: int) -> Seq<Entry>
    decreases n,
{
    if n <= 0 {
        Seq::empty()
    } else {
        let c = sheet.cells@[n - 1];
        match c.formula {
            Some(f) => cell_entries(sheet, index, n - 1).push(
                entry_of(index, sheet.name@, c.row, c.col, f@),
            ),
            None => cell_entries(sheet, index, n - 1),
        }
    }
}

/// The formulas of the first `n` sheets.
pub open spec fn sheet_entries(sheets: Seq<BookSheet>, n: int) -> Seq<Entry>
    decreases n,
{
    if n <= 0 {
        Seq::empty()
    } else {
        sheet_entries(sheets, n - 1) + cell_entries(
            sheets[n - 1],
            n - 1,
            sheets[n - 1].cells@.len() as int,
        )
    }
}

/// The graph of some formulas.
pub open spec fn graph_of(entries: Seq<Entry>, bounds: Seq<SheetSize>) -> GraphView
    decreases entries.len(),
{
    if entries.len() == 0 {
        GraphView::empty()
    } else {
        graph_of(entries.drop_last(), bounds).insert(
            entry_key(entries.last()),
            entry_deps(entries.last(), bounds),
        )
    }
}

/// Some formulas by their keys.
pub open spec fn cells_of(entries: Seq<Entry>) -> Map<Seq<char>, Entry>
    decreases entries.len(),
{
    if entries.len() == 0 {
        Map::empty()
    } else {
        cells_of(entries.drop_last()).insert(entry_key(entries.last()), entries.last())
    }
}

/// The sizes of the sheets, the later ones first.
pub open spec fn book_sizes(sheets: Seq<BookSheet>) -> Seq<SheetSize> {
    Seq::new(
        sheets.len(),
        |i: int|
            SheetSize {
                sheet: sheets[sheets.len() - 1 - i].name@,
                rows: sheets[sheets.len() - 1 - i].rows,
                cols: sheets[sheets.len() - 1 - i].cols,
            },
    )
}

/// The sizes of the sheets, the later ones first.
pub fn collect_bounds(sheets: &Vec<BookSheet>) -> (r: Vec<SheetBounds>)
    ensures
        sizes(r@) == book_sizes(sheets@),
{
    let ghost all = book_sizes(sheets@);
    let mut out: Vec<SheetBounds> = Vec::new();
    let mut i: usize = sheets.len();
    assert(sizes(out@) =~= all.take(0));
    while i > 0
        invariant
            i <= sheets.len(),
            all == book_sizes(sheets@),
            sizes(out@) == all.take(sheets.len() - i),
        decreases i,
    {
        i = i - 1;
        let ghost so_far = sizes(out@);
        out.push(
            SheetBounds {
                sheet: sheets[i].name.clone(),
                rows: sheets[i].rows,
                cols: sheets[i].cols,
            },
        );
        assert(sizes(out@) =~= so_far.push(all[sheets.len() - 1 - i]));
        assert(sizes(out@) =~= all.take(sheets.len() - i));
    }
    assert(all.take(sheets.len() as int) =~= all);
    out
}

/// Whether a function's result changes by itself: those that tell the time do, and the functions
/// `names`.
pub open spec fn changes_by_itself(name: Seq<char>, names: Seq<Seq<char>>) -> bool {
    name == "NOW"@ || name == "TODAY"@ || names.contains(name)
}

/// Whether a formula may have a new value though no cell that it is known to read has: it calls a
/// function whose result changes by itself, or reads a name, which is looked up when the formula is
/// computed. `TRUE` and `FALSE` are no such names.
pub open spec fn is_volatile(node: Ast, names: Seq<Seq<char>>) -> bool
    decreases node,
{
    match node {
        Ast::Call { name, args } => changes_by_itself(name, names) || any_volatile(args, names),
        Ast::Name(n) => upper(n) != "TRUE"@ && upper(n) != "FALSE"@,
        Ast::Unary { operand, .. } => is_volatile(*operand, names),
        Ast::Binary { left, right, .. } => is_volatile(*left, names) || is_volatile(*right, names),
        Ast::Array(rows) => rows_volatile(rows, names),
        _ => false,
    }
}

pub open spec fn any_volatile(list: Seq<Ast>, names: Seq<Seq<char>>) -> bool
    decreases list,
{
    list.len() > 0 && (is_volatile(list.last(), names) || any_volatile(list.drop_last(), names))
}

pub open spec fn rows_volatile(rows: Seq<Seq<Ast>>, names: Seq<Seq<char>>) -> bool
    decreases rows,
{
    rows.len() > 0 && (any_volatile(rows.last(), names) || rows_volatile(rows.drop_last(), names))
}

/// Whether a formula may have a new value though no cell that it is known to read has.
pub fn is_volatile_ast(node: &AstNode, names: &Vec<String>) -> (r: bool)
    ensures
        r == is_volatile(node.view(), texts(names@)),
    decreases node,
{
    match node {
        AstNode::Call { name, args } => {
            assert(node.view()->args =~= ast_seq(args@));
            same_text(name.as_str(), "NOW") || same_text(name.as_str(), "TODAY") || contains_text(
                names,
                name.as_str(),
            ) || any_volatile_ast(args, names)
        },
        AstNode::Name(n) => {
            let up: String = n.as_str().to_uppercase();
            !same_text(up.as_str(), "TRUE") && !same_text(up.as_str(), "FALSE")
        },
        AstNode::Unary { operand, .. } => is_volatile_ast(operand, names),
        AstNode::Binary { left, right, .. } => is_volatile_ast(left, names) || is_volatile_ast(
            right,
            names,
        ),
        AstNode::Array(rows) => {
            let ghost list = ast_rows(rows@);
            assert(node.view()->Array_0 =~~= list);
            let mut found = false;
            let mut i: usize = 0;
            while i < rows.len()
                invariant
                    i <= rows.len(),
                    node is Array && node->Array_0 == *rows,
                    list == ast_rows(rows@),
                    found == rows_volatile(list.take(i as int), texts(names@)),
                decreases rows.len() - i,
            {
                assert(decreases_to!(node => rows@[i as int]));
                let here = any_volatile_ast(&rows[i], names);
                found = found || here;
                assert(list.take(i + 1).drop_last() =~= list.take(i as int));
                assert(list.take(i + 1).last() == ast_seq(rows@[i as int]@));
                i = i + 1;
            }
            assert(list.take(i as int) =~= list);
            found
        },
        _ => false,
    }
}

fn any_volatile_ast(nodes: &Vec<AstNode>, names: &Vec<String>) -> (r: bool)
    ensures
        r == any_volatile(ast_seq(nodes@), texts(names@)),
    decreases nodes,
{
    let ghost list = ast_seq(nodes@);
    let mut found = false;
    let mut i: usize = 0;
    while i < nodes.len()
        invariant
            i <= nodes.len(),
            list == ast_seq(nodes@),
            found == any_volatile(list.take(i as int), texts(names@)),
        decreases nodes.len() - i,
    {
        assert(decreases_to!(nodes => nodes@[i as int]));
        let here = is_volatile_ast(&nodes[i], names);
        found = found || here;
        assert(list.take(i + 1).drop_last() =~= list.take(i as int));
        assert(list.take(i + 1).last() == nodes@[i as int].view());
        i = i + 1;
    }
    assert(list.take(i as int) =~= list);
    found
}

/// The formulas of a workbook and their graph.
pub open spec fn known_of(sheets: Seq<BookSheet>) -> Known {
    let entries = sheet_entries(sheets, sheets.len() as int);
    Known { graph: graph_of(entries, book_sizes(sheets)), cells: cells_of(entries) }
}

/// A cell whose content changed.
#[derive(Debug)]
pub struct Seed {
    pub sheet: String,
    pub row: u32,
    pub col: u32,
}

/// The key of a changed cell.
pub open spec fn seed_key(s: Seed) -> Seq<char> {
    spec_cell_key(s.sheet@, s.row as nat, s.col as nat)
}

/// The formula at a place of a sheet.
pub open spec fn formula_at(sheet: BookSheet, row: u32, col: u32) -> Option<Seq<char>> {
    match find_cell(sheet.cells@, row, col, 0) {
        Some(j) => match sheet.cells@[j].formula {
            Some(f) => Some(f@),
            None => None,
        },
        None => None,
    }
}

/// The formulas and their graph.
pub struct Known {
    pub graph: GraphView,
    pub cells: Map<Seq<char>, Entry>,
}

/// What is known after the cell `s` changed: its new formula, or none. A cell of a sheet that
/// does not exist changes nothing.
pub open spec fn after_seed(
    k: Known,
    sheets: Seq<BookSheet>,
    bounds: Seq<SheetSize>,
    s: Seed,
) -> Known {
    match find_sheet(sheets, s.sheet@, 0) {
        None => k,
        Some(i) => match formula_at(sheets[i], s.row, s.col) {
            Some(f) => {
                let e = entry_of(i, s.sheet@, s.row, s.col, f);
                Known {
                    graph: k.graph.insert(seed_key(s), entry_deps(e, bounds)),
                    cells: k.cells.insert(seed_key(s), e),
                }
            },
            None => if k.cells.contains_key(seed_key(s)) {
                Known {
                    graph: k.graph.insert(seed_key(s), Set::empty()),
                    cells: k.cells.remove(seed_key(s)),
                }
            } else {
                k
            },
        },
    }
}

/// What is known after several cells changed.
pub open spec fn after_seeds(
    k: Known,
    sheets: Seq<BookSheet>,
    bounds: Seq<SheetSize>,
    seeds: Seq<Seed>,
) -> Known
    decreases seeds.len(),
{
    if seeds.len() == 0 {
        k
    } else {
        after_seed(
            after_seeds(k, sheets, bounds, seeds.drop_last()),
            sheets,
            bounds,
            seeds.last(),
        )
    }
}

/// The keys of the changed cells whose sheet exists.
pub open spec fn seed_keys(sheets: Seq<BookSheet>, seeds: Seq<Seed>) -> Seq<Seq<char>>
    decreases seeds.len(),
{
    if seeds.len() == 0 {
        Seq::empty()
    } else if find_sheet(sheets, seeds.last().sheet@, 0) is Some {
        seed_keys(sheets, seeds.drop_last()).push(seed_key(seeds.last()))
    } else {
        seed_keys(sheets, seeds.drop_last())
    }
}

/// Whether a formula is to be computed again: it depends on a changed cell, is itself in one, or
/// is volatile.
pub open spec fn is_due(
    k: Known,
    keys: Seq<Seq<char>>,
    volatile: Seq<Seq<char>>,
    cell: Seq<char>,
) -> bool {
    ||| is_affected(k.graph, keys, cell)
    ||| keys.contains(cell) && k.cells.contains_key(cell)
    ||| k.cells.contains_key(cell) && (k.cells[cell].ast matches Some(a) && is_volatile(a, volatile))
}

/// The formulas that are to be computed again.
pub open spec fn due(k: Known, keys: Seq<Seq<char>>, volatile: Seq<Seq<char>>) -> Set<Seq<char>> {
    Set::new(|c: Seq<char>| is_due(k, keys, volatile, c))
}

/// The formulas of a workbook and which of them read which cells.
pub struct FormulaEngine {
    graph: DependencyGraph,
    keys: KeySet,
    slots: Vec<Option<FormulaCell>>,
    built: bool,
}

impl FormulaEngine {
    pub closed spec fn wf(&self) -> bool {
        &&& self.graph.wf()
        &&& self.keys.wf()
        &&& self.slots@.len() == self.keys.view().len()
    }

    spec fn slot(&self, k: Seq<char>) -> Option<FormulaCell> {
        if self.keys.view().contains(k) {
            self.slots@[self.keys.view().index_of(k)]
        } else {
            None
        }
    }

    /// The formulas and their graph.
    pub closed spec fn known(&self) -> Known {
        Known {
            graph: self.graph@,
            cells: Map::new(
                |k: Seq<char>| self.slot(k) is Some,
                |k: Seq<char>| self.slot(k)->0@,
            ),
        }
    }

    /// Whether a workbook's formulas were read.
    pub closed spec fn ready(&self) -> bool {
        self.built
    }

    /// An engine that knows no formulas.
    pub fn new() -> (r: FormulaEngine)
        ensures
            r.wf(),
            !r.ready(),
            r.known() == (Known { graph: GraphView::empty(), cells: Map::empty() }),
    {
        let r: FormulaEngine = FormulaEngine {
            graph: DependencyGraph::new(),
            keys: KeySet::new(),
            slots: Vec::new(),
            built: false,
        };
        assert(r.known().cells =~= Map::<Seq<char>, Entry>::empty());
        r
    }

    /// Puts a formula's cell in the place of what was known under its key.
    fn set_cell(&mut self, key: &str, cell: Option<FormulaCell>)
        requires
            old(self).wf(),
        ensures
            final(self).wf(),
            final(self).built == old(self).built,
            final(self).known().graph == old(self).known().graph,
            final(self).known().cells == (match cell {
                Some(c) => old(self).known().cells.insert(key@, c@),
                None => old(self).known().cells.remove(key@),
            }),
    {
        let ghost before = *self;
        let ghost names = self.keys.view();
        match self.keys.find(key) {
            Some(i) => {
                self.slots.set(i, cell);
            },
            None => {
                self.keys.insert(key);
                self.slots.push(cell);
            },
        }
        proof {
            before.keys.distinct();
            self.keys.distinct();
            assert forall|k: Seq<char>| #[trigger] self.slot(k) == (if k == key@ {
                cell
            } else {
                before.slot(k)
            }) by {
                let now = self.keys.view();
                if names.contains(key@) {
                    assert(now == names);
                } else {
                    assert(now == names.push(key@));
                    assert(now[names.len() as int] == key@);
                    if names.contains(k) {
                        let p = names.index_of(k);
                        assert(now[p] == k);
                        assert(now.index_of(k) == p);
                    }
                    if k == key@ {
                        assert(now.contains(k));
                        assert(now.index_of(k) == names.len());
                    }
                    if k != key@ && now.contains(k) {
                        let p = now.index_of(k);
                        assert(names[p] == k);
                    }
                }
                if k == key@ && names.contains(k) {
                    let p = names.index_of(k);
                    assert(names[p] == k);
                }
            }
            let want = if cell is Some {
                before.known().cells.insert(key@, cell->0@)
            } else {
                before.known().cells.remove(key@)
            };
            assert(self.known().cells =~= want);
        }
    }

    /// Reads a formula: what it parses to and what it reads.
    fn set_formula(
        &mut self,
        index: usize,
        sheet: &str,
        row: u32,
        col: u32,
        formula: &str,
        bounds: &Vec<SheetBounds>,
    ) -> (key: CellKey)
        requires
            old(self).wf(),
        ensures
            final(self).wf(),
            final(self).built == old(self).built,
            key@ == spec_cell_key(sheet@, row as nat, col as nat),
            ({
                let e = entry_of(index as int, sheet@, row, col, formula@);
                final(self).known() == Known {
                    graph: old(self).known().graph.insert(entry_key(e), entry_deps(e, sizes(bounds@))),
                    cells: old(self).known().cells.insert(entry_key(e), e),
                }
            }),
    {
        let key: CellKey = cell_key(sheet, row, col);
        let ast: Option<AstNode> = match parse_formula(formula) {
            Ok(a) => Some(a),
            Err(_) => None,
        };
        let deps: Vec<CellKey> = match &ast {
            Some(a) => extract_deps(a, sheet, bounds),
            None => Vec::new(),
        };
        let ghost e = entry_of(index as int, sheet@, row, col, formula@);
        assert(texts(deps@).to_set() =~= entry_deps(e, sizes(bounds@)));
        self.graph.set_deps(key.as_str(), deps);
        let cell: FormulaCell = FormulaCell {
            sheet_index: index,
            sheet_name: sheet.to_string(),
            row,
            col,
            ast,
        };
        assert(cell@ == e);
        let ghost mid = *self;
        assert(mid.known().cells =~= old(self).known().cells);
        self.set_cell(key.as_str(), Some(cell));
        key
    }

    /// Reads all formulas of a workbook and orders them.
    pub fn plan_all(&mut self, sheets: &Vec<BookSheet>) -> (r: TopoResult)
        requires
            old(self).wf(),
        ensures
            final(self).wf(),
            final(self).ready(),
            final(self).known() == known_of(sheets@),
            is_topo(
                final(self).known().graph,
                final(self).known().cells.dom(),
                texts(r.order@),
                texts(r.cyclic@),
            ),
    {
        *self = FormulaEngine::new();
        let bounds: Vec<SheetBounds> = collect_bounds(sheets);
        let mut all: Vec<CellKey> = Vec::new();
        let mut i: usize = 0;
        while i < sheets.len()
            invariant
                i <= sheets.len(),
                self.wf(),
                self.known() == (Known {
                    graph: graph_of(sheet_entries(sheets@, i as int), sizes(bounds@)),
                    cells: cells_of(sheet_entries(sheets@, i as int)),
                }),
                forall|k: Seq<char>| #[trigger]
                    texts(all@).contains(k) <==> self.known().cells.contains_key(k),
            decreases sheets.len() - i,
        {
            let sheet: &BookSheet = &sheets[i];
            let ghost head = sheet_entries(sheets@, i as int);
            let mut j: usize = 0;
            assert(head + cell_entries(*sheet, i as int, 0) =~= head);
            while j < sheet.cells.len()
                invariant
                    i < sheets.len(),
                    *sheet == sheets@[i as int],
                    j <= sheet.cells.len(),
                    self.wf(),
                    self.known() == (Known {
                        graph: graph_of(head + cell_entries(*sheet, i as int, j as int), sizes(bounds@)),
                        cells: cells_of(head + cell_entries(*sheet, i as int, j as int)),
                    }),
                    forall|k: Seq<char>| #[trigger]
                        texts(all@).contains(k) <==> self.known().cells.contains_key(k),
                decreases sheet.cells.len() - j,
            {
                let c: &BookCell = &sheet.cells[j];
                let ghost list = head + cell_entries(*sheet, i as int, j as int);
                if let Some(f) = &c.formula {
                    let ghost all0 = texts(all@);
                    let key: CellKey = self.set_formula(
                        i,
                        sheet.name.as_str(),
                        c.row,
                        c.col,
                        f.as_str(),
                        &bounds,
                    );
                    proof {
                        let e = entry_of(i as int, sheet.name@, c.row, c.col, f@);
                        let next = head + cell_entries(*sheet, i as int, j + 1);
                        assert(next =~= list.push(e));
                        assert(next.drop_last() =~= list);
                    }
                    let ghost k0 = key@;
                    all.push(key);
                    proof {
                        assert(texts(all@) =~= all0.push(k0));
                        assert forall|k: Seq<char>| #[trigger]
                            texts(all@).contains(k) <==> self.known().cells.contains_key(k) by {
                            if all0.contains(k) {
                                assert(texts(all@)[all0.index_of(k)] == k);
                            }
                            if k == k0 {
                                assert(texts(all@)[all0.len() as int] == k);
                            }
                        }
                    }
                }
                j = j + 1;
            }
            i = i + 1;
        }
        let ghost mid = *self;
        self.built = true;
        assert(self.known().cells =~= mid.known().cells);
        let ghost set = texts(all@).to_set();
        let r: TopoResult = self.graph.topo_sort(all);
        proof {
            assert(set =~= self.known().cells.dom());
        }
        r
    }

    /// Reads the formulas of the changed cells again and orders what is to be computed. Before
    /// the first [`plan_all`](FormulaEngine::plan_all) it does what that does.
    pub fn plan_cells(
        &mut self,
        sheets: &Vec<BookSheet>,
        seeds: &Vec<Seed>,
        volatile: &Vec<String>,
    ) -> (r: TopoResult)
        requires
            old(self).wf(),
        ensures
            final(self).wf(),
            final(self).ready(),
            final(self).known() == (if old(self).ready() {
                after_seeds(old(self).known(), sheets@, book_sizes(sheets@), seeds@)
            } else {
                known_of(sheets@)
            }),
            is_topo(
                final(self).known().graph,
                if old(self).ready() {
                    due(final(self).known(), seed_keys(sheets@, seeds@), texts(volatile@))
                } else {
                    final(self).known().cells.dom()
                },
                texts(r.order@),
                texts(r.cyclic@),
            ),
    {
        if !self.built {
            return self.plan_all(sheets);
        }
        let bounds: Vec<SheetBounds> = collect_bounds(sheets);
        let ghost start = self.known();
        let mut keys: Vec<CellKey> = Vec::new();
        let mut i: usize = 0;
        assert(texts(keys@) =~= seed_keys(sheets@, seeds@.take(0)));
        while i < seeds.len()
            invariant
                i <= seeds.len(),
                self.wf(),
                self.built,
                self.known() == after_seeds(start, sheets@, sizes(bounds@), seeds@.take(i as int)),
                texts(keys@) == seed_keys(sheets@, seeds@.take(i as int)),
            decreases seeds.len() - i,
        {
            let s: &Seed = &seeds[i];
            proof {
                let next = seeds@.take(i + 1);
                assert(next.drop_last() =~= seeds@.take(i as int));
                assert(next.last() == *s);
            }
            if let Some(si) = index_of_sheet(sheets, s.sheet.as_str()) {
                let sheet: &BookSheet = &sheets[si];
                let ghost keys0 = texts(keys@);
                let key: CellKey = cell_key(s.sheet.as_str(), s.row, s.col);
                let formula: Option<&String> = match index_of_cell(&sheet.cells, s.row, s.col) {
                    Some(c) => match &sheet.cells[c].formula {
                        Some(f) => Some(f),
                        None => None,
                    },
                    None => None,
                };
                match formula {
                    Some(f) => {
                        self.set_formula(
                            si,
                            s.sheet.as_str(),
                            s.row,
                            s.col,
                            f.as_str(),
                            &bounds,
                        );
                    },
                    None => {
                        if self.has_cell(key.as_str()) {
                            let ghost was = self.known();
                            let ghost none: Seq<String> = Seq::empty();
                            self.graph.set_deps(key.as_str(), Vec::new());
                            proof {
                                assert(texts(none).to_set() =~= Set::<Seq<char>>::empty());
                                assert(texts(none) =~= Seq::<Seq<char>>::empty());
                                assert(self.known().cells =~= was.cells);
                                assert(self.known().graph =~= was.graph.insert(
                                    key@,
                                    Set::empty(),
                                ));
                            }
                            self.set_cell(key.as_str(), None);
                        }
                    },
                }
                keys.push(key);
                assert(texts(keys@) =~= keys0.push(key@));
            }
            i = i + 1;
        }
        assert(seeds@.take(i as int) =~= seeds@);
        let due_cells: Vec<CellKey> = self.due_cells(&keys, volatile);
        let ghost set = texts(due_cells@).to_set();
        let r: TopoResult = self.graph.topo_sort(due_cells);
        proof {
            assert(set =~= due(self.known(), texts(keys@), texts(volatile@)));
        }
        r
    }

    /// Whether there is a formula under a key.
    fn has_cell(&self, key: &str) -> (r: bool)
        requires
            self.wf(),
        ensures
            r == self.known().cells.contains_key(key@),
    {
        match self.keys.find(key) {
            Some(i) => {
                proof {
                    self.keys.distinct();
                    assert(self.keys.view().index_of(key@) == i);
                }
                self.slots[i].is_some()
            },
            None => false,
        }
    }

    /// The formulas that are to be computed again.
    fn due_cells(&self, keys: &Vec<CellKey>, volatile: &Vec<String>) -> (r: Vec<CellKey>)
        requires
            self.wf(),
        ensures
            forall|c: Seq<char>| #[trigger]
                texts(r@).contains(c) <==> is_due(
                    self.known(),
                    texts(keys@),
                    texts(volatile@),
                    c,
                ),
    {
        let ghost k = self.known();
        let ghost list = texts(keys@);
        let ghost names = texts(volatile@);
        let mut out: Vec<CellKey> = self.graph.affected_by(keys.as_slice());
        let mut i: usize = 0;
        while i < keys.len()
            invariant
                i <= keys.len(),
                self.wf(),
                k == self.known(),
                list == texts(keys@),
                forall|c: Seq<char>| #[trigger]
                    texts(out@).contains(c) <==> is_affected(k.graph, list, c) || (list.take(
                        i as int,
                    ).contains(c) && k.cells.contains_key(c)),
            decreases keys.len() - i,
        {
            let ghost out0 = texts(out@);
            let ghost x = list[i as int];
            if self.has_cell(keys[i].as_str()) {
                out.push(keys[i].clone());
                assert(texts(out@) =~= out0.push(x));
            }
            proof {
                let head = list.take(i as int);
                let next = list.take(i + 1);
                assert(next =~= head.push(x));
                assert forall|c: Seq<char>| #[trigger]
                    texts(out@).contains(c) <==> is_affected(k.graph, list, c) || (next.contains(c)
                        && k.cells.contains_key(c)) by {
                    contains_push(head, x, c);
                    contains_push(out0, x, c);
                }
            }
            i = i + 1;
        }
        assert(list.take(i as int) =~= list);
        let ghost base = texts(out@);
        let ghost all = self.keys.view();
        proof {
            self.keys.distinct();
        }
        let mut j: usize = 0;
        while j < self.slots.len()
            invariant
                j <= self.slots.len(),
                self.wf(),
                k == self.known(),
                all == self.keys.view(),
                all.no_duplicates(),
                names == texts(volatile@),
                forall|c: Seq<char>| #[trigger]
                    texts(out@).contains(c) <==> base.contains(c) || (all.take(j as int).contains(c)
                        && k.cells.contains_key(c) && (k.cells[c].ast matches Some(a) && is_volatile(
                        a,
                        names,
                    ))),
            decreases self.slots.len() - j,
        {
            let ghost out0 = texts(out@);
            let ghost x = all[j as int];
            let mut hit = false;
            if let Some(c) = &self.slots[j] {
                if let Some(a) = &c.ast {
                    hit = is_volatile_ast(a, volatile);
                }
            }
            if hit {
                out.push(self.keys.at(j).clone());
                assert(texts(out@) =~= out0.push(x));
            }
            proof {
                let head = all.take(j as int);
                let next = all.take(j + 1);
                assert(next =~= head.push(x));
                assert(all.contains(x));
                assert(all.index_of(x) == j);
                assert(self.slot(x) == self.slots@[j as int]);
                assert(hit == (k.cells.contains_key(x) && (k.cells[x].ast matches Some(a)
                    && is_volatile(a, names))));
                assert forall|c: Seq<char>| #[trigger]
                    texts(out@).contains(c) <==> base.contains(c) || (next.contains(c)
                        && k.cells.contains_key(c) && (k.cells[c].ast matches Some(a) && is_volatile(
                        a,
                        names,
                    ))) by {
                    contains_push(head, x, c);
                    contains_push(out0, x, c);
                }
            }
            j = j + 1;
        }
        proof {
            assert(all.take(j as int) =~= all);
            assert forall|c: Seq<char>| k.cells.contains_key(c) implies #[trigger] all.contains(c) by {}
        }
        out
    }
}

/// A write as a mathematical value.
pub struct WriteSpec {
    pub sheet_index: int,
    pub sheet: Seq<char>,
    pub row: u32,
    pub col: u32,
    pub value: FValue,
}

impl View for CellWrite {
    type V = WriteSpec;

    open spec fn view(&self) -> WriteSpec {
        WriteSpec {
            sheet_index: self.sheet_index as int,
            sheet: self.sheet_name@,
            row: self.row,
            col: self.col,
            value: self.value@,
        }
    }
}

/// The writes of a list.
pub open spec fn write_seq(v: Seq<CellWrite>) -> Seq<WriteSpec> {
    Seq::new(v.len(), |i: int| v[i]@)
}

/// The write of a value to a formula's cell.
pub open spec fn write_of(e: Entry, value: FValue) -> WriteSpec {
    WriteSpec { sheet_index: e.sheet_index, sheet: e.sheet, row: e.row, col: e.col, value }
}

/// The writes of `#CIRC!` to the formulas among `keys`.
pub open spec fn circ_writes(cells: Map<Seq<char>, Entry>, keys: Seq<Seq<char>>) -> Seq<WriteSpec>
    decreases keys.len(),
{
    if keys.len() == 0 {
        Seq::empty()
    } else if cells.contains_key(keys.last()) {
        circ_writes(cells, keys.drop_last()).push(
            write_of(cells[keys.last()], FValue::Error(FormulaError::Circ)),
        )
    } else {
        circ_writes(cells, keys.drop_last())
    }
}

/// The first place at or behind `i` whose formula parses, and the writes of `#NAME?` to the
/// formulas in front of it that do not.
pub open spec fn settle(cells: Map<Seq<char>, Entry>, order: Seq<Seq<char>>, i: int) -> (
    int,
    Seq<WriteSpec>,
)
    decreases order.len() - i,
{
    if i < 0 || i >= order.len() {
        (i, Seq::empty())
    } else if !cells.contains_key(order[i]) {
        settle(cells, order, i + 1)
    } else if cells[order[i]].ast is None {
        let (j, w) = settle(cells, order, i + 1);
        (j, seq![write_of(cells[order[i]], FValue::Error(FormulaError::Name))] + w)
    } else {
        (i, Seq::empty())
    }
}

/// One pass over the formulas that are to be computed.
pub struct Round {
    order: Vec<CellKey>,
    next: usize,
    writes: Vec<CellWrite>,
}

impl Round {
    /// The formulas in the order in which they are computed.
    pub closed spec fn plan(&self) -> Seq<Seq<char>> {
        texts(self.order@)
    }

    /// How many of them are done.
    pub closed spec fn done(&self) -> int {
        self.next as int
    }

    /// The values written so far.
    pub closed spec fn written(&self) -> Seq<CellWrite> {
        self.writes@
    }

    /// The values written so far, in order.
    pub fn writes(&self) -> (r: &Vec<CellWrite>)
        ensures
            r@ == self.written(),
    {
        &self.writes
    }

    /// The values written, in order.
    pub fn into_writes(self) -> (r: Vec<CellWrite>)
        ensures
            r@ == self.written(),
    {
        self.writes
    }
}

fn write_to(c: &FormulaCell, value: FormulaValue) -> (r: CellWrite)
    ensures
        r@ == write_of(c@, value@),
{
    CellWrite {
        sheet_index: c.sheet_index,
        sheet_name: c.sheet_name.clone(),
        row: c.row,
        col: c.col,
        value,
    }
}

impl FormulaEngine {
    fn cell(&self, key: &str) -> (r: Option<&FormulaCell>)
        requires
            self.wf(),
        ensures
            match r {
                Some(c) => self.known().cells.contains_key(key@) && self.known().cells[key@] == c@,
                None => !self.known().cells.contains_key(key@),
            },
    {
        match self.keys.find(key) {
            Some(i) => {
                proof {
                    self.keys.distinct();
                    assert(self.keys.view().index_of(key@) == i);
                }
                match &self.slots[i] {
                    Some(c) => Some(c),
                    None => None,
                }
            },
            None => None,
        }
    }

    /// Begins a pass: formulas on a cycle get `#CIRC!` at once.
    pub fn begin_round(&self, topo: TopoResult) -> (r: Round)
        requires
            self.wf(),
        ensures
            r.plan() == texts(topo.order@),
            r.done() == 0,
            write_seq(r.written()) == circ_writes(self.known().cells, texts(topo.cyclic@)),
    {
        let ghost cells = self.known().cells;
        let ghost keys = texts(topo.cyclic@);
        let mut writes: Vec<CellWrite> = Vec::new();
        let mut i: usize = 0;
        assert(write_seq(writes@) =~= circ_writes(cells, keys.take(0)));
        while i < topo.cyclic.len()
            invariant
                i <= topo.cyclic.len(),
                self.wf(),
                cells == self.known().cells,
                keys == texts(topo.cyclic@),
                write_seq(writes@) == circ_writes(cells, keys.take(i as int)),
            decreases topo.cyclic.len() - i,
        {
            let ghost so_far = write_seq(writes@);
            assert(keys.take(i + 1).drop_last() =~= keys.take(i as int));
            assert(keys.take(i + 1).last() == topo.cyclic@[i as int]@);
            if let Some(c) = self.cell(topo.cyclic[i].as_str()) {
                let w: CellWrite = write_to(c, FormulaValue::Error(FormulaError::Circ));
                let ghost wv = w@;
                writes.push(w);
                assert(write_seq(writes@) =~= so_far.push(wv));
            }
            i = i + 1;
        }
        assert(keys.take(i as int) =~= keys);
        Round { order: topo.order, next: 0, writes }
    }

    /// Goes on to the next formula that is to be computed. Formulas that do not parse get
    /// `#NAME?` on the way.
    pub fn next_formula(&self, round: &mut Round) -> (r: Option<&FormulaCell>)
        requires
            self.wf(),
            0 <= old(round).done() <= old(round).plan().len(),
        ensures
            final(round).plan() == old(round).plan(),
            ({
                let (j, w) = settle(self.known().cells, old(round).plan(), old(round).done());
                &&& final(round).done() == j
                &&& write_seq(final(round).written()) == write_seq(old(round).written()) + w
                &&& 0 <= j <= old(round).plan().len()
                &&& r is Some <==> j < old(round).plan().len()
                &&& r matches Some(c) ==> self.known().cells.contains_key(old(round).plan()[j])
                    && self.known().cells[old(round).plan()[j]] == c@ && c@.ast is Some
            }),
    {
        let ghost cells = self.known().cells;
        let ghost plan = round.plan();
        let ghost start = settle(cells, plan, round.done());
        let ghost before = write_seq(round.writes@);
        while round.next < round.order.len()
            invariant
                self.wf(),
                cells == self.known().cells,
                round.next <= round.order.len(),
                plan == texts(round.order@),
                plan == old(round).plan(),
                start == settle(cells, plan, old(round).done()),
                before == write_seq(old(round).written()),
                start.0 == settle(cells, plan, round.next as int).0,
                before + start.1 == write_seq(round.writes@) + settle(
                    cells,
                    plan,
                    round.next as int,
                ).1,
            decreases round.order.len() - round.next,
        {
            let i: usize = round.next;
            assert(plan[i as int] == round.order@[i as int]@);
            match self.cell(round.order[i].as_str()) {
                Some(c) => {
                    if c.ast.is_some() {
                        assert(write_seq(round.writes@) + Seq::empty() =~= write_seq(round.writes@));
                        return Some(c);
                    }
                    let ghost so_far = write_seq(round.writes@);
                    let w: CellWrite = write_to(c, FormulaValue::Error(FormulaError::Name));
                    let ghost wv = w@;
                    round.writes.push(w);
                    assert(write_seq(round.writes@) =~= so_far.push(wv));
                    assert(so_far.push(wv) + settle(cells, plan, i + 1).1 =~= so_far + (seq![wv]
                        + settle(cells, plan, i + 1).1));
                },
                None => {},
            }
            round.next = i + 1;
        }
        assert(write_seq(round.writes@) + Seq::empty() =~= write_seq(round.writes@));
        None
    }

    /// Takes the value of the formula that was handed out last.
    pub fn put(&self, round: &mut Round, value: FormulaValue)
        requires
            self.wf(),
            0 <= old(round).done() < old(round).plan().len(),
            self.known().cells.contains_key(old(round).plan()[old(round).done()]),
        ensures
            final(round).plan() == old(round).plan(),
            final(round).done() == old(round).done() + 1,
            write_seq(final(round).written()) == write_seq(old(round).written()).push(
                write_of(self.known().cells[old(round).plan()[old(round).done()]], value@),
            ),
    {
        let ghost so_far = write_seq(round.writes@);
        let i: usize = round.next;
        assert(i < round.order.len());
        if let Some(c) = self.cell(round.order[i].as_str()) {
            let w: CellWrite = write_to(c, value);
            let ghost wv = w@;
            round.writes.push(w);
            assert(write_seq(round.writes@) =~= so_far.push(wv));
        }
        round.next = i + 1;
    }
}

proof fn contains_push(s: Seq<Seq<char>>, x: Seq<char>, k: Seq<char>)
    ensures
        s.push(x).contains(k) <==> s.contains(k) || k == x,
{
    if s.contains(k) {
        assert(s.push(x)[s.index_of(k)] == k);
    }
    if k == x {
        assert(s.push(x)[s.len() as int] == k);
    }
}

} // verus!
