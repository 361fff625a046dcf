//! Which cells a formula reads, and in which order formulas are to be computed.
//!
//! A cell is named by a key, `sheet!row,col`. The graph maps each formula's cell to the cells
//! that the formula reads.
use crate::address::{label_to_col, parse_addr, spec_label_to_col, spec_parse_addr};
use crate::decimal::{all_digits, dec, dec_value, push_dec, read_unsigned};
use crate::keyset::KeySet;
use crate::parse::{ast_rows, ast_seq, Ast, AstNode};
use crate::text::{
    chars_of, find_char, position_of, push_unique, remove_char, same_text, slice_string, texts,
    trim_char, trim_char_of, unique_texts, without_char, without_text,
};
use crate::token::{is_digit, spec_is_digit};
use crate::sorting::{sort_texts, sorted_texts};
use crate::toposort::{is_chain, needs, on_cycle, order_nodes, ordered};
use vstd::hash_map::StringHashMap;
use vstd::prelude::*;

verus! {

/// A cell's key.
pub type CellKey = String;

/// The key of a cell.
pub open spec fn spec_cell_key(sheet: Seq<char>, row: nat, col: nat) -> Seq<char> {
    sheet + "!"@ + dec(row) + ","@ + dec(col)
}

/// The key of a cell.
pub fn cell_key(sheet: &str, row: u32, col: u32) -> (r: CellKey)
    ensures
        r@ == spec_cell_key(sheet@, row as nat, col as nat),
{
    let mut out: String = sheet.to_string();
    out.append("!");
    push_dec(&mut out, row as u128);
    out.append(",");
    push_dec(&mut out, col as u128);
    out
}

/// A sheet's size, by which whole-column and whole-row ranges are cut.
#[derive(Debug, Clone)]
pub struct SheetBounds {
    pub sheet: String,
    pub rows: u32,
    pub cols: u32,
}

/// A sheet's size as a mathematical value.
pub struct SheetSize {
    pub sheet: Seq<char>,
    pub rows: u32,
    pub cols: u32,
}

/// The sizes of a list.
pub open spec fn sizes(v: Seq<SheetBounds>) -> Seq<SheetSize> {
    Seq::new(
        v.len(),
        |i: int| SheetSize { sheet: v[i].sheet@, rows: v[i].rows, cols: v[i].cols },
    )
}

/// The rows and columns of a sheet, both 0 where its size is not given.
pub open spec fn spec_bounds(bounds: Seq<SheetSize>, sheet: Seq<char>) -> (u32, u32)
    decreases bounds.len(),
{
    if bounds.len() == 0 {
        (0, 0)
    } else if bounds[0].sheet == sheet {
        (bounds[0].rows, bounds[0].cols)
    } else {
        spec_bounds(bounds.skip(1), sheet)
    }
}

fn bounds_of(bounds: &Vec<SheetBounds>, sheet: &str) -> (r: (u32, u32))
    ensures
        r == spec_bounds(sizes(bounds@), sheet@),
{
    let ghost all = sizes(bounds@);
    let mut i: usize = 0;
    assert(all.skip(0) == all);
    while i < bounds.len()
        invariant
            i <= bounds.len(),
            all == sizes(bounds@),
            spec_bounds(all, sheet@) == spec_bounds(all.skip(i as int), sheet@),
        decreases bounds.len() - i,
    {
        if same_text(bounds[i].sheet.as_str(), sheet) {
            return (bounds[i].rows, bounds[i].cols);
        }
        assert(all.skip(i as int).skip(1) == all.skip(i + 1));
        i = i + 1;
    }
    (0, 0)
}

/// The sheet of a reference, without its quotes, and the rest of it.
pub open spec fn spec_split_local(reference: Seq<char>, default_sheet: Seq<char>) -> (
    Seq<char>,
    Seq<char>,
) {
    match find_char(reference, '!', 0) {
        Some(b) => (trim_char(reference.take(b), '\''), reference.skip(b + 1)),
        None => (default_sheet, reference),
    }
}

/// The sheet of a reference, without its quotes, and the rest of it.
pub fn split_local(reference: &str, default_sheet: &str) -> (r: (String, String))
    ensures
        (r.0@, r.1@) == spec_split_local(reference@, default_sheet@),
{
    let chars: Vec<char> = chars_of(reference);
    match position_of(&chars, '!', 0) {
        Some(b) => {
            let sheet: String = trim_char_of(&chars, 0, b, '\'');
            assert(chars@.subrange(0, b as int) == reference@.take(b as int));
            (sheet, slice_string(&chars, b + 1, chars.len()))
        },
        None => (default_sheet.to_string(), reference.to_string()),
    }
}

/// The cell that a single-cell reference names, if it names one.
pub open spec fn spec_ref_to_key(reference: Seq<char>, default_sheet: Seq<char>) -> Option<
    Seq<char>,
> {
    let (sheet, local) = spec_split_local(reference, default_sheet);
    match spec_parse_addr(without_char(local, '$')) {
        Some((row, col)) => Some(spec_cell_key(sheet, row as nat, col as nat)),
        None => None,
    }
}

fn ref_to_key(reference: &str, default_sheet: &str) -> (r: Option<CellKey>)
    ensures
        match spec_ref_to_key(reference@, default_sheet@) {
            Some(k) => r matches Some(key) && key@ == k,
            None => r is None,
        },
{
    let (sheet, local) = split_local(reference, default_sheet);
    let clean: String = remove_char(&chars_of(local.as_str()), '$');
    match parse_addr(clean.as_str()) {
        Some(p) => Some(cell_key(sheet.as_str(), p.row, p.col)),
        None => None,
    }
}

/// One end of a range. A row or column of -1 means all of them.
pub struct EndpointSpec {
    pub sheet: Seq<char>,
    pub row: int,
    pub col: int,
}

/// One end of a range: a cell, a whole column, a whole row, or nothing that can be read.
pub open spec fn spec_endpoint_of(reference: Seq<char>, default_sheet: Seq<char>) -> EndpointSpec {
    let (sheet, local) = spec_split_local(reference, default_sheet);
    let clean = without_char(local, '$');
    if let Some((row, col)) = spec_parse_addr(clean) {
        EndpointSpec { sheet, row, col }
    } else if let Some(col) = spec_label_to_col(clean) {
        EndpointSpec { sheet, row: -1, col }
    } else if clean.len() > 0 && all_digits(clean) && dec_value(clean) <= i64::MAX {
        EndpointSpec { sheet, row: dec_value(clean) - 1, col: -1 }
    } else {
        EndpointSpec { sheet, row: -1, col: -1 }
    }
}

/// One end of a range. A row or column of -1 means all of them.
pub(crate) struct Endpoint {
    pub sheet: String,
    pub row: i64,
    pub col: i64,
}

pub(crate) open spec fn endpoint_is(e: Endpoint, s: EndpointSpec) -> bool {
    e.sheet@ == s.sheet && e.row == s.row && e.col == s.col && -1 <= s.row && -1 <= s.col
        <= u32::MAX
}

fn all_digit_chars(s: &Vec<char>) -> (r: bool)
    ensures
        r == all_digits(s@),
{
    let mut i: usize = 0;
    while i < s.len()
        invariant
            i <= s.len(),
            forall|k: int| 0 <= k < i ==> spec_is_digit(#[trigger] s@[k]),
        decreases s.len() - i,
    {
        if !is_digit(s[i]) {
            return false;
        }
        i = i + 1;
    }
    true
}

pub(crate) fn endpoint_of(reference: &str, default_sheet: &str) -> (r: Endpoint)
    ensures
        endpoint_is(r, spec_endpoint_of(reference@, default_sheet@)),
{
    let (sheet, local) = split_local(reference, default_sheet);
    let clean: String = remove_char(&chars_of(local.as_str()), '$');
    if let Some(p) = parse_addr(clean.as_str()) {
        return Endpoint { sheet, row: p.row as i64, col: p.col as i64 };
    }
    if let Some(c) = label_to_col(clean.as_str()) {
        return Endpoint { sheet, row: -1, col: c as i64 };
    }
    let chars: Vec<char> = chars_of(clean.as_str());
    if chars.len() > 0 && all_digit_chars(&chars) {
        assert(spec_is_digit(chars@[0]));
        if let Some(n) = read_unsigned(&chars, 0x7fff_ffff_ffff_ffff) {
            return Endpoint { sheet, row: n as i64 - 1, col: -1 };
        }
    }
    Endpoint { sheet, row: -1, col: -1 }
}

pub open spec fn min_of(a: int, b: int) -> int {
    if a <= b {
        a
    } else {
        b
    }
}

pub open spec fn max_of(a: int, b: int) -> int {
    if a >= b {
        a
    } else {
        b
    }
}

/// The rows (or columns) between two ends, the first and the last: -1 stands for the first at
/// the start of a range, and for the last of `size` at its end.
pub open spec fn span_of(a: int, b: int, size: u32) -> (int, int) {
    let from = if a < 0 {
        0
    } else {
        a
    };
    let to = if b < 0 {
        max_of(size - 1, 0)
    } else {
        b
    };
    (min_of(from, to), max_of(from, to))
}

/// Row and column numbers have 32 bits.
pub open spec fn wrap32(n: int) -> nat {
    (n % 0x1_0000_0000) as nat
}

/// Whether `k` is the key of a cell of the range from `start` to `end`.
pub open spec fn range_holds(
    start: Seq<char>,
    end: Seq<char>,
    sheet: Seq<char>,
    bounds: Seq<SheetSize>,
    k: Seq<char>,
) -> bool {
    let a = spec_endpoint_of(start, sheet);
    let b = spec_endpoint_of(end, sheet);
    let (rows, cols) = spec_bounds(bounds, a.sheet);
    let (r1, r2) = span_of(a.row, b.row, rows);
    let (c1, c2) = span_of(a.col, b.col, cols);
    exists|r: int, c: int|
        r1 <= r <= r2 && c1 <= c <= c2 && k == #[trigger] spec_cell_key(
            a.sheet,
            wrap32(r),
            wrap32(c),
        )
}

/// Whether a formula on `sheet` reads the cell with key `k`.
pub open spec fn reads(node: Ast, sheet: Seq<char>, bounds: Seq<SheetSize>, k: Seq<char>) -> bool
    decreases node,
{
    match node {
        Ast::Ref(r) => spec_ref_to_key(r, sheet) == Some(k),
        Ast::Range { start, end } => range_holds(start, end, sheet, bounds, k),
        Ast::Unary { operand, .. } => reads(*operand, sheet, bounds, k),
        Ast::Binary { left, right, .. } => reads(*left, sheet, bounds, k) || reads(
            *right,
            sheet,
            bounds,
            k,
        ),
        Ast::Call { args, .. } => reads_any(args, sheet, bounds, k),
        Ast::Array(rows) => reads_rows(rows, sheet, bounds, k),
        _ => false,
    }
}

/// Whether one of several formulas on `sheet` reads the cell with key `k`.
pub open spec fn reads_any(
    list: Seq<Ast>,
    sheet: Seq<char>,
    bounds: Seq<SheetSize>,
    k: Seq<char>,
) -> bool
    decreases list,
{
    list.len() > 0 && (reads(list.last(), sheet, bounds, k) || reads_any(
        list.drop_last(),
        sheet,
        bounds,
        k,
    ))
}

/// Whether one of the formulas of an array on `sheet` reads the cell with key `k`.
pub open spec fn reads_rows(
    rows: Seq<Seq<Ast>>,
    sheet: Seq<char>,
    bounds: Seq<SheetSize>,
    k: Seq<char>,
) -> bool
    decreases rows,
{
    rows.len() > 0 && (reads_any(rows.last(), sheet, bounds, k) || reads_rows(
        rows.drop_last(),
        sheet,
        bounds,
        k,
    ))
}

/// Whether `after` holds what `before` holds and the keys that the formula reads.
spec fn grown(
    before: Seq<Seq<char>>,
    after: Seq<Seq<char>>,
    node: Ast,
    sheet: Seq<char>,
    bounds: Seq<SheetSize>,
) -> bool {
    forall|k: Seq<char>| #[trigger]
        after.contains(k) <==> before.contains(k) || reads(node, sheet, bounds, k)
}

proof fn push_contains(s: Seq<Seq<char>>, x: Seq<char>, k: Seq<char>)
    ensures
        s.push(x).contains(k) <==> s.contains(k) || k == x,
{
    if s.contains(k) {
        assert(s.push(x)[s.index_of(k)] == k);
    }
    if k == x {
        assert(s.push(x)[s.len() as int] == k);
    }
}

pub(crate) fn min_i64(a: i64, b: i64) -> (r: i64)
    ensures
        r == min_of(a as int, b as int),
{
    if a <= b {
        a
    } else {
        b
    }
}

pub(crate) fn max_i64(a: i64, b: i64) -> (r: i64)
    ensures
        r == max_of(a as int, b as int),
{
    if a >= b {
        a
    } else {
        b
    }
}

fn walk_range(start: &str, end: &str, sheet: &str, bounds: &Vec<SheetBounds>, deps: &mut KeySet)
    requires
        old(deps).wf(),
    ensures
        final(deps).wf(),
        forall|k: Seq<char>| #[trigger]
            final(deps).view().contains(k) <==> old(deps).view().contains(k) || range_holds(
                start@,
                end@,
                sheet@,
                sizes(bounds@),
                k,
            ),
{
    let a: Endpoint = endpoint_of(start, sheet);
    let b: Endpoint = endpoint_of(end, sheet);
    let (rows, cols) = bounds_of(bounds, a.sheet.as_str());
    let from_row: i64 = if a.row < 0 {
        0
    } else {
        a.row
    };
    let to_row: i64 = if b.row < 0 {
        max_i64(rows as i64 - 1, 0)
    } else {
        b.row
    };
    let from_col: i64 = if a.col < 0 {
        0
    } else {
        a.col
    };
    let to_col: i64 = if b.col < 0 {
        max_i64(cols as i64 - 1, 0)
    } else {
        b.col
    };
    let r1: i64 = min_i64(from_row, to_row);
    let r2: i64 = max_i64(from_row, to_row);
    let c1: i64 = min_i64(from_col, to_col);
    let c2: i64 = max_i64(from_col, to_col);
    let ghost before = deps.view();
    let ghost name = a.sheet@;
    let mut r: i64 = r1;
    while r <= r2
        invariant
            deps.wf(),
            name == a.sheet@,
            0 <= r1 <= r,
            r <= r2 + 1,
            r2 < i64::MAX,
            0 <= c1 <= c2 <= u32::MAX,
            forall|k: Seq<char>| #[trigger]
                deps.view().contains(k) <==> before.contains(k) || exists|x: int, y: int|
                    r1 <= x < r && c1 <= y <= c2 && k == #[trigger] spec_cell_key(
                        name,
                        wrap32(x),
                        wrap32(y),
                    ),
        decreases r2 + 1 - r,
    {
        let mut c: i64 = c1;
        while c <= c2
            invariant
                deps.wf(),
                name == a.sheet@,
                0 <= r1 <= r,
                r <= r2,
                0 <= c1 <= c,
                c <= c2 + 1,
                c2 <= u32::MAX,
                forall|k: Seq<char>| #[trigger]
                    deps.view().contains(k) <==> before.contains(k) || exists|x: int, y: int|
                        r1 <= x && c1 <= y <= c2 && (x < r || (x == r && y < c)) && k
                            == #[trigger] spec_cell_key(name, wrap32(x), wrap32(y)),
            decreases c2 + 1 - c,
        {
            let ghost seen = deps.view();
            let row: u32 = (r % 0x1_0000_0000) as u32;
            let key: CellKey = cell_key(a.sheet.as_str(), row, c as u32);
            deps.insert(key.as_str());
            proof {
                let fresh = spec_cell_key(name, wrap32(r as int), wrap32(c as int));
                assert(key@ == fresh);
                assert forall|k: Seq<char>| #[trigger]
                    deps.view().contains(k) <==> before.contains(k) || exists|x: int, y: int|
                        r1 <= x && c1 <= y <= c2 && (x < r || (x == r && y < c + 1)) && k
                            == #[trigger] spec_cell_key(name, wrap32(x), wrap32(y)) by {
                    push_contains(seen, fresh, k);
                    assert(deps.view().contains(k) <==> seen.contains(k) || k == fresh);
                    if exists|x: int, y: int|
                        r1 <= x && c1 <= y <= c2 && (x < r || (x == r && y < c + 1)) && k
                            == #[trigger] spec_cell_key(name, wrap32(x), wrap32(y)) {
                        let (x, y) = choose|x: int, y: int|
                            r1 <= x && c1 <= y <= c2 && (x < r || (x == r && y < c + 1)) && k
                                == #[trigger] spec_cell_key(name, wrap32(x), wrap32(y));
                        if !(x == r && y == c) {
                            assert(seen.contains(k));
                        }
                    }
                }
            }
            c = c + 1;
        }
        r = r + 1;
    }
}

fn walk(node: &AstNode, sheet: &str, bounds: &Vec<SheetBounds>, deps: &mut KeySet)
    requires
        old(deps).wf(),
    ensures
        final(deps).wf(),
        grown(old(deps).view(), final(deps).view(), node.view(), sheet@, sizes(bounds@)),
    decreases node,
{
    match node {
        AstNode::Ref(r) => {
            if let Some(k) = ref_to_key(r.as_str(), sheet) {
                let ghost before = deps.view();
                deps.insert(k.as_str());
                proof {
                    assert forall|x: Seq<char>| #[trigger]
                        deps.view().contains(x) <==> before.contains(x) || reads(
                            node.view(),
                            sheet@,
                            sizes(bounds@),
                            x,
                        ) by {
                        push_contains(before, k@, x);
                    }
                }
            }
        },
        AstNode::Range { start, end } => {
            walk_range(start.as_str(), end.as_str(), sheet, bounds, deps);
        },
        AstNode::Unary { operand, .. } => {
            walk(operand, sheet, bounds, deps);
        },
        AstNode::Binary { left, right, .. } => {
            walk(left, sheet, bounds, deps);
            walk(right, sheet, bounds, deps);
        },
        AstNode::Call { args, .. } => {
            walk_all(args, sheet, bounds, deps);
            assert(node.view()->args =~= ast_seq(args@));
        },
        AstNode::Array(rows) => {
            let ghost before = deps.view();
            let ghost list = ast_rows(rows@);
            let mut i: usize = 0;
            while i < rows.len()
                invariant
                    i <= rows.len(),
                    deps.wf(),
                    node is Array && node->Array_0 == *rows,
                    list == ast_rows(rows@),
                    forall|k: Seq<char>| #[trigger]
                        deps.view().contains(k) <==> before.contains(k) || reads_rows(
                            list.take(i as int),
                            sheet@,
                            sizes(bounds@),
                            k,
                        ),
                decreases rows.len() - i,
            {
                assert(decreases_to!(node => rows@[i as int]));
                walk_all(&rows[i], sheet, bounds, deps);
                assert(list.take(i + 1).drop_last() == list.take(i as int));
                assert(list.take(i + 1).last() == ast_seq(rows@[i as int]@));
                i = i + 1;
            }
            assert(list.take(i as int) == list);
            assert(node.view()->Array_0 =~~= list);
        },
        _ => {},
    }
}

fn walk_all(nodes: &Vec<AstNode>, sheet: &str, bounds: &Vec<SheetBounds>, deps: &mut KeySet)
    requires
        old(deps).wf(),
    ensures
        final(deps).wf(),
        forall|k: Seq<char>| #[trigger]
            final(deps).view().contains(k) <==> old(deps).view().contains(k) || reads_any(
                ast_seq(nodes@),
                sheet@,
                sizes(bounds@),
                k,
            ),
    decreases nodes,
{
    let ghost before = deps.view();
    let ghost list = ast_seq(nodes@);
    let mut i: usize = 0;
    while i < nodes.len()
        invariant
            i <= nodes.len(),
            deps.wf(),
            list == ast_seq(nodes@),
            forall|k: Seq<char>| #[trigger]
                deps.view().contains(k) <==> before.contains(k) || reads_any(
                    list.take(i as int),
                    sheet@,
                    sizes(bounds@),
                    k,
                ),
        decreases nodes.len() - i,
    {
        assert(decreases_to!(nodes => nodes@[i as int]));
        walk(&nodes[i], sheet, bounds, deps);
        assert(list.take(i + 1).drop_last() == list.take(i as int));
        assert(list.take(i + 1).last() == nodes@[i as int].view());
        i = i + 1;
    }
    assert(list.take(i as int) == list);
}

/// The keys of the cells that a formula on `default_sheet` reads, each once.
pub fn extract_deps(node: &AstNode, default_sheet: &str, bounds: &Vec<SheetBounds>) -> (r: Vec<
    CellKey,
>)
    ensures
        texts(r@).no_duplicates(),
        forall|k: Seq<char>| #[trigger]
            texts(r@).contains(k) <==> reads(node.view(), default_sheet@, sizes(bounds@), k),
{
    let mut deps: KeySet = KeySet::new();
    walk(node, default_sheet, bounds, &mut deps);
    proof {
        deps.distinct();
    }
    deps.into_vec()
}

/// A graph as a mathematical value: what each formula's cell reads.
pub type GraphView = Map<Seq<char>, Set<Seq<char>>>;

/// Whether the formula at `cell` reads `dep`.
pub open spec fn has_edge(g: GraphView, cell: Seq<char>, dep: Seq<char>) -> bool {
    g.contains_key(cell) && g[cell].contains(dep)
}

/// Whether a non-empty path leads from `from` to `to`, each cell being read by the next.
pub open spec fn feeds(g: GraphView, path: Seq<Seq<char>>) -> bool {
    forall|i: int, j: int|
        #![trigger path[i], path[j]]
        0 <= i && j == i + 1 && j < path.len() ==> has_edge(g, path[j], path[i])
}

/// Whether the value at `cell` depends, directly or not, on one of `seeds`.
pub open spec fn is_affected(g: GraphView, seeds: Seq<Seq<char>>, cell: Seq<char>) -> bool {
    exists|path: Seq<Seq<char>>|
        path.len() >= 2 && seeds.contains(path[0]) && path.last() == cell && #[trigger] feeds(
            g,
            path,
        )
}

/// Whether both cells are in `cells` and the formula at the first reads the second.
pub open spec fn target_edge(
    g: GraphView,
    cells: Set<Seq<char>>,
    cell: Seq<char>,
    dep: Seq<char>,
) -> bool {
    cells.contains(cell) && cells.contains(dep) && has_edge(g, cell, dep)
}

/// Whether each cell of `path` reads the next, all of them in `cells`.
pub open spec fn target_chain(g: GraphView, cells: Set<Seq<char>>, path: Seq<Seq<char>>) -> bool {
    forall|i: int, j: int|
        #![trigger path[i], path[j]]
        0 <= i && j == i + 1 && j < path.len() ==> target_edge(g, cells, path[i], path[j])
}

/// Whether `cell` reads itself through a chain of cells that are all in `cells`.
pub open spec fn target_cycle(g: GraphView, cells: Set<Seq<char>>, cell: Seq<char>) -> bool {
    exists|path: Seq<Seq<char>>|
        path.len() >= 2 && path[0] == cell && path.last() == cell && #[trigger] target_chain(
            g,
            cells,
            path,
        )
}

/// An order of the cells `cells`: the cells on a cycle are reported, the others are in the order,
/// and what a cell reads stands in front of it unless it is reported.
pub open spec fn is_topo(
    g: GraphView,
    cells: Set<Seq<char>>,
    order: Seq<Seq<char>>,
    cyclic: Seq<Seq<char>>,
) -> bool {
    &&& order.no_duplicates()
    &&& cyclic.no_duplicates()
    &&& forall|k: Seq<char>| #[trigger] order.contains(k) ==> cells.contains(k)
    &&& forall|k: Seq<char>| #[trigger] cyclic.contains(k) ==> cells.contains(k)
    &&& forall|k: Seq<char>| #[trigger]
        cells.contains(k) ==> (order.contains(k) <==> !cyclic.contains(k))
    &&& forall|k: Seq<char>| #[trigger]
        cyclic.contains(k) <==> cells.contains(k) && target_cycle(g, cells, k)
    &&& forall|p: int, d: Seq<char>|
        0 <= p < order.len() && #[trigger] target_edge(g, cells, order[p], d) ==> cyclic.contains(d)
            || order.take(p).contains(d)
}

/// What ordering a set of cells gives.
pub struct TopoResult {
    pub order: Vec<CellKey>,
    pub cyclic: Vec<CellKey>,
}

/// Which cells each formula reads, and which formulas read each cell.
pub struct DependencyGraph {
    deps: StringHashMap<Vec<String>>,
    dependents: StringHashMap<Vec<String>>,
}

impl View for DependencyGraph {
    type V = GraphView;

    closed spec fn view(&self) -> GraphView {
        Map::new(
            |c: Seq<char>| self.deps@.contains_key(c),
            |c: Seq<char>| texts(self.deps@[c]@).to_set(),
        )
    }
}

impl DependencyGraph {
    spec fn back(&self, dep: Seq<char>, cell: Seq<char>) -> bool {
        self.dependents@.contains_key(dep) && texts(self.dependents@[dep]@).contains(cell)
    }

    /// The two directions agree, and no list holds a key twice.
    pub closed spec fn wf(&self) -> bool {
        &&& self.deps@.dom().finite()
        &&& forall|c: Seq<char>| #[trigger]
            self.deps@.contains_key(c) ==> texts(self.deps@[c]@).no_duplicates()
        &&& forall|d: Seq<char>| #[trigger]
            self.dependents@.contains_key(d) ==> texts(self.dependents@[d]@).no_duplicates()
        &&& forall|c: Seq<char>, d: Seq<char>| #[trigger]
            self.back(d, c) <==> has_edge(self@, c, d)
    }

    /// A graph without formulas.
    pub fn new() -> (r: DependencyGraph)
        ensures
            r.wf(),
            r@ == GraphView::empty(),
    {
        DependencyGraph { deps: StringHashMap::new(), dependents: StringHashMap::new() }
    }

    /// Removes the formula at `cell`.
    pub fn clear_deps(&mut self, cell: &str)
        requires
            old(self).wf(),
        ensures
            final(self).wf(),
            final(self)@ == old(self)@.remove(cell@),
    {
        let ghost before = *self;
        let old_deps: Vec<String> = match self.deps.get(cell) {
            Some(list) => unique_texts(list),
            None => {
                assert(self@ == before@.remove(cell@));
                return;
            },
        };
        let ghost list = texts(old_deps@);
        proof {
            assert forall|d: Seq<char>| #[trigger] list.contains(d) <==> has_edge(before@, cell@, d) by {
                assert(list.to_set().contains(d) <==> list.contains(d));
                assert(texts(before.deps@[cell@]@).to_set().contains(d) <==> texts(
                    before.deps@[cell@]@,
                ).contains(d));
            }
        }
        let mut i: usize = 0;
        while i < old_deps.len()
            invariant
                i <= old_deps.len(),
                list == texts(old_deps@),
                before.wf(),
                self.deps@ == before.deps@,
                forall|d: Seq<char>| #[trigger] list.contains(d) <==> has_edge(before@, cell@, d),
                forall|d: Seq<char>| #[trigger]
                    self.dependents@.contains_key(d) ==> texts(
                        self.dependents@[d]@,
                    ).no_duplicates(),
                forall|c: Seq<char>, d: Seq<char>| #[trigger]
                    self.back(d, c) <==> before.back(d, c) && !(c == cell@ && list.take(
                        i as int,
                    ).contains(d)),
            decreases old_deps.len() - i,
        {
            let ghost mid = *self;
            let ghost x = list[i as int];
            assert(list.contains(x));
            let fewer: Option<Vec<String>> = match self.dependents.get(old_deps[i].as_str()) {
                Some(readers) => Some(without_text(readers, cell)),
                None => None,
            };
            if let Some(readers) = fewer {
                self.dependents.insert(old_deps[i].clone(), readers);
                proof {
                    assert forall|c: Seq<char>| #[trigger]
                        texts(readers@).contains(c) <==> texts(mid.dependents@[x]@).contains(c) && c
                            != cell@ by {
                        assert(texts(readers@).to_set().contains(c) <==> texts(readers@).contains(c));
                        assert(texts(mid.dependents@[x]@).to_set().contains(c) <==> texts(
                            mid.dependents@[x]@,
                        ).contains(c));
                    }
                }
            }
            proof {
                let head = list.take(i as int);
                let next = list.take(i + 1);
                assert(next == head.push(x));
                assert forall|c: Seq<char>, d: Seq<char>| #[trigger]
                    self.back(d, c) <==> before.back(d, c) && !(c == cell@ && next.contains(d)) by {
                    push_contains(head, x, d);
                    assert(mid.back(d, c) <==> before.back(d, c) && !(c == cell@ && head.contains(d)));
                }
            }
            i = i + 1;
        }
        let ghost last = *self;
        self.deps.remove(cell);
        proof {
            assert(list.take(i as int) == list);
            assert(self@ =~= before@.remove(cell@));
            assert forall|c: Seq<char>, d: Seq<char>| #[trigger] self.back(d, c) <==> has_edge(
                self@,
                c,
                d,
            ) by {
                assert(self.back(d, c) == last.back(d, c));
                assert(before.back(d, c) <==> has_edge(before@, c, d));
            }
        }
    }

    /// Sets what the formula at `cell` reads.
    pub fn set_deps(&mut self, cell: &str, deps: Vec<CellKey>)
        requires
            old(self).wf(),
        ensures
            final(self).wf(),
            final(self)@ == old(self)@.insert(cell@, texts(deps@).to_set()),
    {
        self.clear_deps(cell);
        let ghost before = *self;
        let set: Vec<String> = unique_texts(&deps);
        let ghost list = texts(set@);
        let mut i: usize = 0;
        while i < set.len()
            invariant
                i <= set.len(),
                list == texts(set@),
                before.wf(),
                !before@.contains_key(cell@),
                self.deps@ == before.deps@,
                forall|d: Seq<char>| #[trigger]
                    self.dependents@.contains_key(d) ==> texts(
                        self.dependents@[d]@,
                    ).no_duplicates(),
                forall|c: Seq<char>, d: Seq<char>| #[trigger]
                    self.back(d, c) <==> before.back(d, c) || (c == cell@ && list.take(
                        i as int,
                    ).contains(d)),
            decreases set.len() - i,
        {
            let ghost mid = *self;
            let ghost x = list[i as int];
            let mut readers: Vec<String> = match self.dependents.get(set[i].as_str()) {
                Some(v) => unique_texts(v),
                None => Vec::new(),
            };
            proof {
                assert forall|c: Seq<char>| #[trigger] texts(readers@).contains(c) <==> mid.back(
                    x,
                    c,
                ) by {
                    assert(texts(readers@).to_set().contains(c) <==> texts(readers@).contains(c));
                    if mid.dependents@.contains_key(x) {
                        assert(texts(mid.dependents@[x]@).to_set().contains(c) <==> texts(
                            mid.dependents@[x]@,
                        ).contains(c));
                    }
                }
            }
            let ghost readers0 = texts(readers@);
            push_unique(&mut readers, cell);
            self.dependents.insert(set[i].clone(), readers);
            proof {
                let head = list.take(i as int);
                let next = list.take(i + 1);
                assert(next == head.push(x));
                assert forall|c: Seq<char>| #[trigger]
                    texts(readers@).contains(c) <==> readers0.contains(c) || c == cell@ by {
                    push_contains(readers0, cell@, c);
                }
                assert forall|c: Seq<char>, d: Seq<char>| #[trigger]
                    self.back(d, c) <==> before.back(d, c) || (c == cell@ && next.contains(d)) by {
                    push_contains(head, x, d);
                    assert(mid.back(d, c) <==> before.back(d, c) || (c == cell@ && head.contains(d)));
                    if d == x {
                        assert(texts(readers@).contains(c) <==> readers0.contains(c) || c == cell@);
                    }
                }
            }
            i = i + 1;
        }
        let ghost last = *self;
        self.deps.insert(cell.to_string(), set);
        proof {
            assert(list.take(i as int) == list);
            assert(self@ =~= before@.insert(cell@, list.to_set()));
            assert forall|c: Seq<char>, d: Seq<char>| #[trigger] self.back(d, c) <==> has_edge(
                self@,
                c,
                d,
            ) by {
                assert(self.back(d, c) == last.back(d, c));
                assert(before.back(d, c) <==> has_edge(before@, c, d));
                assert(list.to_set().contains(d) <==> list.contains(d));
            }
        }
    }

    /// Whether there is a formula at `cell`.
    pub fn has_formula(&self, cell: &str) -> (r: bool)
        ensures
            r == self@.contains_key(cell@),
    {
        self.deps.contains_key(cell)
    }

    /// Removes every formula.
    pub fn clear_all(&mut self)
        ensures
            final(self).wf(),
            final(self)@ == GraphView::empty(),
    {
        self.deps.clear();
        self.dependents.clear();
        assert(self@ =~= GraphView::empty());
    }

    /// The cells whose formulas read `cell`, each once.
    pub fn get_dependents(&self, cell: &str) -> (r: Vec<CellKey>)
        requires
            self.wf(),
        ensures
            texts(r@).no_duplicates(),
            forall|c: Seq<char>| #[trigger] texts(r@).contains(c) <==> has_edge(self@, c, cell@),
    {
        let r: Vec<String> = match self.dependents.get(cell) {
            Some(v) => unique_texts(v),
            None => Vec::new(),
        };
        proof {
            assert forall|c: Seq<char>| #[trigger] texts(r@).contains(c) <==> has_edge(
                self@,
                c,
                cell@,
            ) by {
                assert(self.back(cell@, c) <==> has_edge(self@, c, cell@));
                assert(texts(r@).to_set().contains(c) <==> texts(r@).contains(c));
                if self.dependents@.contains_key(cell@) {
                    assert(texts(self.dependents@[cell@]@).to_set().contains(c) <==> texts(
                        self.dependents@[cell@]@,
                    ).contains(c));
                }
            }
        }
        r
    }

    /// The cells whose value depends, directly or not, on one of `seeds`, each once.
    pub fn affected_by(&self, seeds: &[CellKey]) -> (r: Vec<CellKey>)
        requires
            self.wf(),
        ensures
            texts(r@).no_duplicates(),
            forall|k: Seq<char>| #[trigger]
                texts(r@).contains(k) <==> is_affected(self@, texts(seeds@), k),
    {
        let ghost g = self@;
        let ghost roots = texts(seeds@);
        let mut affected: KeySet = KeySet::new();
        let mut stack: Vec<String> = Vec::new();
        let mut i: usize = 0;
        while i < seeds.len()
            invariant
                i <= seeds.len(),
                texts(stack@) == texts(seeds@).take(i as int),
            decreases seeds.len() - i,
        {
            let ghost s0 = texts(stack@);
            stack.push(seeds[i].clone());
            assert(texts(stack@) == s0.push(texts(seeds@)[i as int]));
            assert(texts(stack@) == texts(seeds@).take(i + 1));
            i = i + 1;
        }
        assert(texts(stack@) == roots);
        while stack.len() > 0
            invariant
                self.wf(),
                g == self@,
                roots == texts(seeds@),
                affected.wf(),
                spread(g, roots, affected.view(), texts(stack@)),
                affected.view().len() <= self.deps@.dom().len(),
            decreases self.deps@.dom().len() - affected.view().len(), stack@.len(),
        {
            let ghost affected0 = affected.view();
            let ghost stack0 = texts(stack@);
            let cur: String = stack.pop().unwrap();
            let ghost rest = texts(stack@);
            assert(stack0 == rest.push(cur@));
            let readers: Vec<CellKey> = self.get_dependents(cur.as_str());
            let ghost list = texts(readers@);
            let mut j: usize = 0;
            proof {
                assert forall|k: Seq<char>| #[trigger] stack0.contains(k) <==> rest.contains(k) || k
                    == cur@ by {
                    push_contains(rest, cur@, k);
                }
                assert(stack0.contains(cur@));
                assert forall|k: Seq<char>| #[trigger] rest.contains(k) implies roots.contains(k)
                    || affected.view().contains(k) by {
                    assert(stack0.contains(k));
                }
            }
            while j < readers.len()
                invariant
                    self.wf(),
                    g == self@,
                    list == texts(readers@),
                    j <= readers.len(),
                    affected.wf(),
                    forall|c: Seq<char>| #[trigger] list.contains(c) <==> has_edge(g, c, cur@),
                    roots.contains(cur@) || is_affected(g, roots, cur@),
                    forall|k: Seq<char>| #[trigger]
                        affected.view().contains(k) ==> is_affected(g, roots, k),
                    forall|k: Seq<char>| #[trigger]
                        texts(stack@).contains(k) ==> roots.contains(k) || affected.view().contains(k),
                    forall|k: Seq<char>| #[trigger]
                        affected.view().contains(k) ==> affected0.contains(k) || texts(
                            stack@,
                        ).contains(k),
                    forall|k: Seq<char>| #[trigger] rest.contains(k) ==> texts(stack@).contains(k),
                    forall|k: Seq<char>| #[trigger]
                        affected0.contains(k) ==> affected.view().contains(k),
                    forall|a: int| 0 <= a < j ==> affected.view().contains(#[trigger] list[a]),
                    affected.view().len() >= affected0.len(),
                    affected.view().len() == affected0.len() ==> stack@.len() == rest.len(),
                    affected.view().len() <= self.deps@.dom().len(),
                decreases readers.len() - j,
            {
                let ghost x = list[j as int];
                let ghost a0 = affected.view();
                let ghost s0 = texts(stack@);
                assert(list.contains(x));
                let fresh = affected.insert(readers[j].as_str());
                proof {
                    affected_step(g, roots, cur@, x);
                    assert forall|k: Seq<char>| #[trigger]
                        affected.view().contains(k) <==> a0.contains(k) || k == x by {
                        push_contains(a0, x, k);
                    }
                    affected.distinct();
                    assert forall|k: Seq<char>| #[trigger]
                        affected.view().contains(k) implies self.deps@.dom().contains(k) by {
                        affected_reads(g, roots, k);
                    }
                    self.subset_len(affected.view());
                }
                if fresh {
                    stack.push(readers[j].clone());
                    proof {
                        assert(texts(stack@) == s0.push(x));
                        assert forall|k: Seq<char>| #[trigger]
                            texts(stack@).contains(k) <==> s0.contains(k) || k == x by {
                            push_contains(s0, x, k);
                        }
                    }
                }
                j = j + 1;
            }
            proof {
                assert forall|k: Seq<char>, c: Seq<char>|
                    (roots.contains(k) || affected.view().contains(k)) && !texts(stack@).contains(k)
                        && #[trigger] has_edge(g, c, k) implies affected.view().contains(c) by {
                    if k == cur@ {
                        assert(list.contains(c));
                        let a = list.index_of(c);
                        assert(affected.view().contains(list[a]));
                    } else {
                        if !roots.contains(k) {
                            assert(affected0.contains(k));
                        }
                        assert(!stack0.contains(k));
                        assert(affected0.contains(c));
                    }
                }
            }
        }
        proof {
            affected.distinct();
            assert forall|k: Seq<char>| #[trigger]
                affected.view().contains(k) <==> is_affected(g, roots, k) by {
                if is_affected(g, roots, k) {
                    spread_complete(g, roots, affected.view(), k);
                }
            }
        }
        affected.into_vec()
    }

    proof fn subset_len(&self, s: Seq<Seq<char>>)
        requires
            self.wf(),
            s.no_duplicates(),
            forall|k: Seq<char>| #[trigger] s.contains(k) ==> self.deps@.dom().contains(k),
        ensures
            s.len() <= self.deps@.dom().len(),
    {
        s.unique_seq_to_set();
        assert(s.to_set().subset_of(self.deps@.dom()));
        vstd::set_lib::lemma_len_subset(s.to_set(), self.deps@.dom());
    }

    /// What the formula at `cell` reads among `targets`, in the order of the keys.
    fn sorted_target_deps(&self, cell: &str, targets: &KeySet) -> (r: Vec<CellKey>)
        requires
            self.wf(),
            targets.wf(),
        ensures
            sorted_texts(texts(r@)),
            texts(r@).no_duplicates(),
            forall|d: Seq<char>| #[trigger]
                texts(r@).contains(d) <==> has_edge(self@, cell@, d) && targets.view().contains(d),
    {
        let all: &Vec<String> = match self.deps.get(cell) {
            Some(list) => list,
            None => {
                return Vec::new();
            },
        };
        let ghost list = texts(all@);
        let mut kept: Vec<String> = Vec::new();
        let mut i: usize = 0;
        while i < all.len()
            invariant
                i <= all.len(),
                list == texts(all@),
                list.no_duplicates(),
                targets.wf(),
                texts(kept@).no_duplicates(),
                forall|d: Seq<char>| #[trigger]
                    texts(kept@).contains(d) <==> list.take(i as int).contains(d)
                        && targets.view().contains(d),
            decreases all.len() - i,
        {
            let ghost head = list.take(i as int);
            let ghost x = list[i as int];
            let ghost kept0 = texts(kept@);
            if targets.contains(all[i].as_str()) {
                push_unique(&mut kept, all[i].as_str());
            }
            proof {
                assert(list.take(i + 1) == head.push(x));
                assert forall|d: Seq<char>| #[trigger]
                    texts(kept@).contains(d) <==> list.take(i + 1).contains(d)
                        && targets.view().contains(d) by {
                    push_contains(head, x, d);
                    push_contains(kept0, x, d);
                }
            }
            i = i + 1;
        }
        proof {
            assert(list.take(i as int) == list);
            assert forall|d: Seq<char>| has_edge(self@, cell@, d) <==> #[trigger] list.contains(d) by {
                assert(list.to_set().contains(d) <==> list.contains(d));
            }
        }
        sort_texts(&kept)
    }

    /// Orders `cells` so that what a formula reads stands in front of it.
    pub fn topo_sort(&self, cells: Vec<CellKey>) -> (r: TopoResult)
        requires
            self.wf(),
        ensures
            is_topo(self@, texts(cells@).to_set(), texts(r.order@), texts(r.cyclic@)),
    {
        let ghost g = self@;
        let ghost set = texts(cells@).to_set();
        let mut targets: KeySet = KeySet::new();
        let mut i: usize = 0;
        while i < cells.len()
            invariant
                i <= cells.len(),
                targets.wf(),
                forall|k: Seq<char>| #[trigger]
                    targets.view().contains(k) <==> texts(cells@).take(i as int).contains(k),
            decreases cells.len() - i,
        {
            let ghost before = targets.view();
            let ghost head = texts(cells@).take(i as int);
            let ghost x = texts(cells@)[i as int];
            targets.insert(cells[i].as_str());
            proof {
                assert(texts(cells@).take(i + 1) == head.push(x));
                assert forall|k: Seq<char>| #[trigger]
                    targets.view().contains(k) <==> texts(cells@).take(i + 1).contains(k) by {
                    push_contains(head, x, k);
                    push_contains(before, x, k);
                }
            }
            i = i + 1;
        }
        let ghost names = targets.view();
        proof {
            assert(texts(cells@).take(i as int) == texts(cells@));
            assert forall|k: Seq<char>| names.contains(k) <==> #[trigger] set.contains(k) by {
                assert(texts(cells@).to_set().contains(k) <==> texts(cells@).contains(k));
            }
            targets.distinct();
        }
        let n: usize = targets.len();
        let mut adj: Vec<Vec<usize>> = Vec::new();
        let mut v: usize = 0;
        while v < n
            invariant
                v <= n,
                n == names.len(),
                self.wf(),
                g == self@,
                targets.wf(),
                names == targets.view(),
                adj@.len() == v,
                forall|u: int| 0 <= u < v ==> #[trigger] lists_edges(g, names, u, adj@[u]@),
            decreases n - v,
        {
            let list: Vec<CellKey> = self.sorted_target_deps(targets.at(v).as_str(), &targets);
            let mut row: Vec<usize> = Vec::new();
            let mut j: usize = 0;
            while j < list.len()
                invariant
                    j <= list.len(),
                    v < n,
                    n == names.len(),
                    targets.wf(),
                    names == targets.view(),
                    row@.len() == j,
                    forall|d: Seq<char>| #[trigger]
                        texts(list@).contains(d) <==> has_edge(g, names[v as int], d)
                            && names.contains(d),
                    forall|e: int|
                        0 <= e < j ==> (#[trigger] row@[e]) < n && names[row@[e] as int] == texts(
                            list@,
                        )[e],
                decreases list.len() - j,
            {
                assert(texts(list@).contains(texts(list@)[j as int]));
                match targets.find(list[j].as_str()) {
                    Some(d) => {
                        row.push(d);
                    },
                    None => {
                        assert(false);
                    },
                }
                j = j + 1;
            }
            proof {
                assert forall|d: int| 0 <= d < n implies (row_has(row@, d) <==> has_edge(
                    g,
                    names[v as int],
                    #[trigger] names[d],
                )) by {
                    targets.distinct();
                    if has_edge(g, names[v as int], names[d]) {
                        assert(names.contains(names[d]));
                        assert(texts(list@).contains(names[d]));
                        let e = texts(list@).index_of(names[d]);
                        assert(row@[e] == d);
                    }
                    if row_has(row@, d) {
                        let e = choose|e: int| 0 <= e < row@.len() && #[trigger] row@[e] == d;
                        assert(texts(list@).contains(texts(list@)[e]));
                    }
                }
            }
            adj.push(row);
            assert(lists_edges(g, names, v as int, row@));
            v = v + 1;
        }
        proof {
            assert forall|u: int, e: int|
                #![trigger adj@[u]@[e]]
                0 <= u < adj@.len() && 0 <= e < adj@[u]@.len() implies adj@[u]@[e] < adj@.len() by {
                assert(lists_edges(g, names, u, adj@[u]@));
            }
        }
        let (order_idx, cyclic_idx) = order_nodes(&adj);
        let mut order: Vec<CellKey> = Vec::new();
        let mut p: usize = 0;
        while p < order_idx.len()
            invariant
                p <= order_idx.len(),
                names == targets.view(),
                targets.wf(),
                forall|q: int| 0 <= q < order_idx@.len() ==> (#[trigger] order_idx@[q]) < names.len(),
                texts(order@) == Seq::new(p as nat, |q: int| names[order_idx@[q] as int]),
            decreases order_idx.len() - p,
        {
            let ghost order0 = texts(order@);
            order.push(targets.at(order_idx[p]).clone());
            assert(texts(order@) == order0.push(names[order_idx@[p as int] as int]));
            assert(texts(order@) =~= Seq::new(
                (p + 1) as nat,
                |q: int| names[order_idx@[q] as int],
            ));
            p = p + 1;
        }
        let mut cyclic: Vec<CellKey> = Vec::new();
        let mut u: usize = 0;
        while u < n
            invariant
                u <= n,
                n == names.len(),
                cyclic_idx@.len() == n,
                names == targets.view(),
                names.no_duplicates(),
                targets.wf(),
                texts(cyclic@).no_duplicates(),
                forall|k: Seq<char>| #[trigger]
                    texts(cyclic@).contains(k) <==> exists|w: int|
                        0 <= w < u && cyclic_idx@[w] && #[trigger] names[w] == k,
            decreases n - u,
        {
            let ghost cyclic0 = texts(cyclic@);
            if cyclic_idx[u] {
                cyclic.push(targets.at(u).clone());
                proof {
                    let x = names[u as int];
                    assert(texts(cyclic@) == cyclic0.push(x));
                    assert(!cyclic0.contains(x));
                    assert forall|k: Seq<char>| #[trigger]
                        texts(cyclic@).contains(k) <==> exists|w: int|
                            0 <= w < u + 1 && cyclic_idx@[w] && #[trigger] names[w] == k by {
                        push_contains(cyclic0, x, k);
                        if k == x {
                            assert(names[u as int] == k);
                        }
                    }
                }
            }
            u = u + 1;
        }
        proof {
            topo_by_index(g, set, names, adj@, order_idx@, cyclic_idx@, texts(order@), texts(cyclic@));
        }
        TopoResult { order, cyclic }
    }
}

/// Whether the row of node numbers `row` holds `d`.
spec fn row_has(row: Seq<usize>, d: int) -> bool {
    exists|e: int| 0 <= e < row.len() && #[trigger] row[e] == d
}

/// Whether `row` lists the numbers of the cells that the formula at number `v` reads.
spec fn lists_edges(g: GraphView, names: Seq<Seq<char>>, v: int, row: Seq<usize>) -> bool {
    &&& forall|e: int| 0 <= e < row.len() ==> (#[trigger] row[e]) < names.len()
    &&& forall|d: int|
        0 <= d < names.len() ==> (row_has(row, d) <==> has_edge(g, names[v], #[trigger] names[d]))
}

/// What holds between the cells found so far and those still to be followed.
spec fn spread(
    g: GraphView,
    roots: Seq<Seq<char>>,
    affected: Seq<Seq<char>>,
    stack: Seq<Seq<char>>,
) -> bool {
    &&& forall|k: Seq<char>| #[trigger] affected.contains(k) ==> is_affected(g, roots, k)
    &&& forall|k: Seq<char>| #[trigger]
        stack.contains(k) ==> roots.contains(k) || affected.contains(k)
    &&& forall|k: Seq<char>, c: Seq<char>|
        (roots.contains(k) || affected.contains(k)) && !stack.contains(k) && #[trigger] has_edge(
            g,
            c,
            k,
        ) ==> affected.contains(c)
}

proof fn affected_step(g: GraphView, roots: Seq<Seq<char>>, k: Seq<char>, c: Seq<char>)
    requires
        roots.contains(k) || is_affected(g, roots, k),
        has_edge(g, c, k),
    ensures
        is_affected(g, roots, c),
{
    let path = if roots.contains(k) {
        seq![k]
    } else {
        choose|path: Seq<Seq<char>>|
            path.len() >= 2 && roots.contains(path[0]) && path.last() == k && #[trigger] feeds(
                g,
                path,
            )
    };
    let longer = path.push(c);
    assert forall|i: int, j: int|
        #![trigger longer[i], longer[j]]
        0 <= i && j == i + 1 && j < longer.len() implies has_edge(g, longer[j], longer[i]) by {
        if j < path.len() {
            assert(longer[i] == path[i] && longer[j] == path[j]);
        } else {
            assert(longer[i] == path.last());
        }
    }
    assert(feeds(g, longer));
    assert(longer[0] == path[0]);
}

proof fn affected_reads(g: GraphView, roots: Seq<Seq<char>>, k: Seq<char>)
    requires
        is_affected(g, roots, k),
    ensures
        g.contains_key(k),
{
    let path = choose|path: Seq<Seq<char>>|
        path.len() >= 2 && roots.contains(path[0]) && path.last() == k && #[trigger] feeds(g, path);
    assert(has_edge(g, path[path.len() - 1], path[path.len() - 2]));
}

proof fn spread_complete(
    g: GraphView,
    roots: Seq<Seq<char>>,
    affected: Seq<Seq<char>>,
    k: Seq<char>,
)
    requires
        spread(g, roots, affected, Seq::empty()),
        is_affected(g, roots, k),
    ensures
        affected.contains(k),
{
    let path = choose|path: Seq<Seq<char>>|
        path.len() >= 2 && roots.contains(path[0]) && path.last() == k && #[trigger] feeds(g, path);
    spread_along(g, roots, affected, path, path.len() - 1);
}

proof fn spread_along(
    g: GraphView,
    roots: Seq<Seq<char>>,
    affected: Seq<Seq<char>>,
    path: Seq<Seq<char>>,
    i: int,
)
    requires
        spread(g, roots, affected, Seq::empty()),
        roots.contains(path[0]),
        feeds(g, path),
        1 <= i < path.len(),
    ensures
        affected.contains(path[i]),
    decreases i,
{
    if i > 1 {
        spread_along(g, roots, affected, path, i - 1);
    }
    assert(has_edge(g, path[i], path[i - 1]));
    assert(!Seq::<Seq<char>>::empty().contains(path[i - 1]));
}

proof fn topo_by_index(
    g: GraphView,
    set: Set<Seq<char>>,
    names: Seq<Seq<char>>,
    adj: Seq<Vec<usize>>,
    order_idx: Seq<usize>,
    cyclic_idx: Seq<bool>,
    order: Seq<Seq<char>>,
    cyclic: Seq<Seq<char>>,
)
    requires
        names.no_duplicates(),
        names.len() <= usize::MAX,
        adj.len() == names.len(),
        forall|k: Seq<char>| names.contains(k) <==> #[trigger] set.contains(k),
        forall|u: int| 0 <= u < adj.len() ==> #[trigger] lists_edges(g, names, u, adj[u]@),
        ordered(adj, order_idx, cyclic_idx),
        order == Seq::new(order_idx.len(), |q: int| names[order_idx[q] as int]),
        cyclic.no_duplicates(),
        forall|k: Seq<char>| #[trigger]
            cyclic.contains(k) <==> exists|w: int|
                0 <= w < names.len() && cyclic_idx[w] && #[trigger] names[w] == k,
    ensures
        is_topo(g, set, order, cyclic),
{
    assert forall|k: Seq<char>| #[trigger] order.contains(k) implies set.contains(k) by {
        let p = order.index_of(k);
        assert(names[order_idx[p] as int] == k);
        assert(names.contains(k));
    }
    assert forall|k: Seq<char>| #[trigger] cyclic.contains(k) implies set.contains(k)
        && target_cycle(g, set, k) by {
        let w = choose|w: int| 0 <= w < names.len() && cyclic_idx[w] && #[trigger] names[w] == k;
        assert(names.contains(k));
        assert(on_cycle(adj, w));
        let p = choose|p: Seq<int>|
            p.len() >= 2 && p[0] == w && p[p.len() - 1] == w && #[trigger] is_chain(adj, p);
        let path = Seq::new(p.len(), |i: int| names[p[i]]);
        assert forall|i: int, j: int|
            #![trigger path[i], path[j]]
            0 <= i && j == i + 1 && j < path.len() implies target_edge(g, set, path[i], path[j]) by {
            assert(needs(adj, p[i], p[j]));
            assert(lists_edges(g, names, p[i], adj[p[i]]@));
            let e = choose|e: int| 0 <= e < adj[p[i]]@.len() && #[trigger] adj[p[i]]@[e] == p[j];
            assert(row_has(adj[p[i]]@, p[j]));
            assert(names.contains(names[p[i]]));
            assert(names.contains(names[p[j]]));
        }
        assert(target_chain(g, set, path));
        assert(path.last() == k);
    }
    assert forall|k: Seq<char>| set.contains(k) && target_cycle(g, set, k) implies #[trigger]
        cyclic.contains(k) by {
        let path = choose|path: Seq<Seq<char>>|
            path.len() >= 2 && path[0] == k && path.last() == k && #[trigger] target_chain(
                g,
                set,
                path,
            );
        let p = Seq::new(path.len(), |i: int| names.index_of(path[i]));
        assert forall|i: int| 0 <= i < path.len() implies 0 <= #[trigger] p[i] < names.len()
            && names[p[i]] == path[i] by {
            if i > 0 {
                assert(target_edge(g, set, path[i - 1], path[i]));
            }
            assert(names.contains(path[i]));
        }
        assert forall|i: int, j: int|
            #![trigger p[i], p[j]]
            0 <= i && j == i + 1 && j < p.len() implies needs(adj, p[i], p[j]) by {
            assert(target_edge(g, set, path[i], path[j]));
            assert(lists_edges(g, names, p[i], adj[p[i]]@));
            assert(names[p[j]] == path[j]);
            assert(row_has(adj[p[i]]@, p[j]));
        }
        assert(is_chain(adj, p));
        assert(p[p.len() - 1] == p[0]);
        assert(on_cycle(adj, p[0]));
        assert(cyclic_idx[p[0]]);
        assert(names[p[0]] == k);
    }
    assert forall|k: Seq<char>| #[trigger] set.contains(k) implies (order.contains(k)
        <==> !cyclic.contains(k)) by {
        assert(names.contains(k));
        let w = names.index_of(k);
        assert(cyclic_idx[w] <==> !order_idx.contains(w as usize));
        if order_idx.contains(w as usize) {
            let p = order_idx.index_of(w as usize);
            assert(order[p] == k);
        }
        if order.contains(k) {
            let p = order.index_of(k);
            assert(order_idx[p] == w);
        }
        if cyclic_idx[w] {
            assert(names[w] == k);
        }
    }
    assert forall|p: int, d: Seq<char>|
        0 <= p < order.len() && #[trigger] target_edge(g, set, order[p], d) implies cyclic.contains(d)
        || order.take(p).contains(d) by {
        let v = order_idx[p] as int;
        assert(names.contains(d));
        let w = names.index_of(d);
        assert(lists_edges(g, names, v, adj[v]@));
        assert(row_has(adj[v]@, w));
        assert(needs(adj, v, w));
        if cyclic_idx[w] {
            assert(names[w] == d);
        } else {
            let q = order_idx.take(p).index_of(w as usize);
            assert(order.take(p)[q] == d);
        }
    }
}

/// Every cell of a cycle among the cells is reported, and none of them is in the order.
pub proof fn topo_reports_cycles(
    g: GraphView,
    cells: Set<Seq<char>>,
    order: Seq<Seq<char>>,
    cyclic: Seq<Seq<char>>,
    path: Seq<Seq<char>>,
    i: int,
)
    requires
        is_topo(g, cells, order, cyclic),
        path.len() >= 2,
        path[0] == path.last(),
        target_chain(g, cells, path),
        0 <= i < path.len(),
    ensures
        cyclic.contains(path[i]),
        !order.contains(path[i]),
{
    let n = path.len() - 1;
    let q = path.subrange(i, n as int) + path.subrange(0, i + 1);
    assert(target_edge(g, cells, path[0], path[1]));
    if i == n {
        assert(target_cycle(g, cells, path[0]));
        assert(cells.contains(path[i]));
    } else {
        assert forall|k: int, l: int|
            #![trigger q[k], q[l]]
            0 <= k && l == k + 1 && l < q.len() implies target_edge(g, cells, q[k], q[l]) by {
            let a = n - i;
            if l < a {
                assert(q[k] == path[i + k] && q[l] == path[i + l]);
            } else if k == a - 1 {
                assert(q[k] == path[n - 1] && q[l] == path[0]);
                assert(path[n as int] == path[0]);
                assert(target_edge(g, cells, path[n - 1], path[n as int]));
            } else {
                assert(q[k] == path[k - a] && q[l] == path[l - a]);
            }
        }
        assert(target_chain(g, cells, q));
        assert(q[0] == path[i] && q.last() == path[i]);
        assert(target_cycle(g, cells, path[i]));
        assert(target_edge(g, cells, path[i], path[i + 1]));
    }
}

/// Without a cycle among the ordered cells nothing is reported.
pub proof fn topo_acyclic(
    g: GraphView,
    cells: Set<Seq<char>>,
    order: Seq<Seq<char>>,
    cyclic: Seq<Seq<char>>,
)
    requires
        is_topo(g, cells, order, cyclic),
        forall|k: Seq<char>| cells.contains(k) ==> !#[trigger] target_cycle(g, cells, k),
    ensures
        cyclic.len() == 0,
        forall|k: Seq<char>| #[trigger] cells.contains(k) <==> order.contains(k),
{
    if cyclic.len() > 0 {
        assert(cyclic.contains(cyclic[0]));
    }
}

} // verus!
