//! Sheets of spreadsheet files are read back as they were written.
use crate::address::addr;
use crate::cell_law::{dec_is_plain, lit_clear, number_is_plain, plain, plain_is_bare};
use crate::decimal::dec;
use crate::find_law::{clear, clear_join, clear_without, unlike, without, without_join};
use crate::numeral::is_number_text;
use crate::row_law::{back_at, cells_valid, row_added, row_back, rows_back, written};
use crate::scan::at;
use crate::snapshot::{
    CellSnapshot, NamedStyle, Orientation, PageSetup, SheetSnapshot, SparklineEntry,
};
use crate::sorting::{ascends, stable_order, stable_order_of_sorted, stable_order_sorts};
use crate::style::StyleView;
use crate::text::opt;
use crate::xlsx::{
    cell_keys, dimension, margins_text, page_text, paper_number, right, sorted_cells, Shared,
};
use crate::xlsx_drawing::{ext_text, native_name, region_ref, sparkline_text, sparklines_text};
use crate::xlsx_read::{holds, sorted_views, view_keys, CellView, RowsRead};
use crate::xlsx_style::xml_decl;
use crate::xml::{esc_text, Escape};
use vstd::prelude::*;

verus! {

// ---- cells in order

/// Those of the first `n` cells that hold anything when they come back.
pub open spec fn cells_back(
    cells: Seq<CellSnapshot>,
    styles: Seq<NamedStyle>,
    sh: Shared,
    xf: Seq<StyleView>,
    n: int,
) -> Seq<CellView>
    decreases n,
{
    if n <= 0 {
        Seq::empty()
    } else {
        let p = cells_back(cells, styles, sh, xf, n - 1);
        let c = back_at(cells, styles, sh, xf, n - 1);
        if written(cells, styles, sh, n - 1) && holds(c) {
            p.push(c)
        } else {
            p
        }
    }
}

/// Whether cells stand row by row.
pub open spec fn by_row(cells: Seq<CellSnapshot>) -> bool {
    forall|i: int, j: int| 0 <= i < j < cells.len() ==> cells[i].r <= cells[j].r
}

/// A row with the cells `a` up to `b`.
proof fn row_adds(
    st: RowsRead,
    cells: Seq<CellSnapshot>,
    styles: Seq<NamedStyle>,
    sh: Shared,
    xf: Seq<StyleView>,
    r: u32,
    a: int,
    b: int,
    n: int,
)
    requires
        0 <= a <= b <= cells.len(),
        0 <= n <= cells.len(),
        st.cells == cells_back(cells, styles, sh, xf, a),
        forall|i: int| 0 <= i < a ==> (#[trigger] cells[i]).r != r,
        forall|i: int| a <= i < b ==> (#[trigger] cells[i]).r == r,
        forall|i: int| b <= i < cells.len() ==> (#[trigger] cells[i]).r != r,
    ensures
        row_added(st, cells, styles, sh, xf, r, n).cells == cells_back(
            cells,
            styles,
            sh,
            xf,
            if n < a {
                a
            } else if n < b {
                n
            } else {
                b
            },
        ),
    decreases n,
{
    if n > 0 {
        row_adds(st, cells, styles, sh, xf, r, a, b, n - 1);
        assert(cells[n - 1].r == cells[n - 1].r);
    }
}

/// Where the cells of the last row start.
proof fn row_start(cells: Seq<CellSnapshot>, r: u32, m: int) -> (a: int)
    requires
        0 <= m <= cells.len(),
        by_row(cells),
        forall|i: int| 0 <= i < m ==> (#[trigger] cells[i]).r <= r,
    ensures
        0 <= a <= m,
        forall|i: int| 0 <= i < a ==> (#[trigger] cells[i]).r < r,
        forall|i: int| a <= i < m ==> (#[trigger] cells[i]).r == r,
    decreases m,
{
    if m == 0 {
        0
    } else if cells[m - 1].r == r {
        row_start(cells, r, m - 1)
    } else {
        assert forall|i: int| 0 <= i < m implies (#[trigger] cells[i]).r < r by {
            if i < m - 1 {
                assert(cells[i].r <= cells[m - 1].r);
            }
        }
        m
    }
}

/// Row by row, the cells come back in their order.
pub proof fn rows_in_order(
    s: SheetSnapshot,
    cells: Seq<CellSnapshot>,
    styles: Seq<NamedStyle>,
    sh: Shared,
    xf: Seq<StyleView>,
    list: Seq<u32>,
    m: int,
)
    requires
        0 <= m <= cells.len(),
        by_row(cells),
        ascends(list),
        forall|i: int| 0 <= i < m ==> list.contains((#[trigger] cells[i]).r),
        forall|i: int, k: int|
            m <= i < cells.len() && 0 <= k < list.len() ==> (#[trigger] cells[i]).r > #[trigger] list[k],
    ensures
        rows_back(s, cells, styles, sh, xf, list).cells == cells_back(cells, styles, sh, xf, m),
    decreases list.len(),
{
    if list.len() == 0 {
        if m > 0 {
            assert(list.contains(cells[0].r));
        }
    } else {
        let r = list.last();
        let q = list.drop_last();
        assert forall|i: int| 0 <= i < m implies (#[trigger] cells[i]).r <= r by {
            assert(list.contains(cells[i].r));
            let k = choose|k: int| 0 <= k < list.len() && list[k] == cells[i].r;
            if k < list.len() - 1 {
                assert(list[k] < list[list.len() - 1]);
            }
        }
        let a = row_start(cells, r, m);
        assert forall|i: int| 0 <= i < a implies q.contains((#[trigger] cells[i]).r) by {
            assert(list.contains(cells[i].r));
            let k = choose|k: int| 0 <= k < list.len() && list[k] == cells[i].r;
            assert(k < list.len() - 1);
            assert(q[k] == list[k]);
        }
        assert forall|i: int, k: int| a <= i < cells.len() && 0 <= k < q.len() implies (#[trigger] cells[i]).r
            > #[trigger] q[k] by {
            assert(q[k] == list[k]);
            assert(list[k] < list[list.len() - 1]);
            if i >= m {
                assert(cells[i].r > list[k]);
            }
        }
        assert(ascends(q)) by {
            assert forall|i: int, j: int| 0 <= i < j < q.len() implies q[i] < q[j] by {
                assert(q[i] == list[i] && q[j] == list[j]);
            }
        }
        rows_in_order(s, cells, styles, sh, xf, q, a);
        let p = rows_back(s, cells, styles, sh, xf, q);
        let st = row_back(p, s, r);
        assert forall|i: int| m <= i < cells.len() implies (#[trigger] cells[i]).r != r by {
            assert(cells[i].r > list[list.len() - 1]);
        }
        row_adds(st, cells, styles, sh, xf, r, a, m, cells.len() as int);
    }
}

/// The cells of a sheet in order.
pub proof fn sorted_by_row(cells: Seq<CellSnapshot>)
    ensures
        by_row(sorted_cells(cells)),
        sorted_cells(cells).len() == cells.len(),
        forall|i: int, j: int|
            0 <= i < j < cells.len() ==> (sorted_cells(cells)[i].r < sorted_cells(cells)[j].r || (
            sorted_cells(cells)[i].r == sorted_cells(cells)[j].r && sorted_cells(cells)[i].c
                <= sorted_cells(cells)[j].c)),
        forall|i: int| 0 <= i < cells.len() ==> cells.contains(#[trigger] sorted_cells(cells)[i]),
{
    let keys = cell_keys(cells);
    let o = stable_order(keys, cells.len());
    stable_order_sorts(keys, cells.len());
    let v = sorted_cells(cells);
    assert forall|i: int, j: int| 0 <= i < j < cells.len() implies (v[i].r < v[j].r || (v[i].r == v[j].r
        && v[i].c <= v[j].c)) by {
        assert(0 <= o[i] < cells.len() && 0 <= o[j] < cells.len());
        assert(keys[o[i]] <= keys[o[j]]);
    }
    assert forall|i: int| 0 <= i < cells.len() implies cells.contains(#[trigger] v[i]) by {
        assert(0 <= o[i] < cells.len());
        assert(v[i] == cells[o[i]]);
    }
}

pub proof fn sorted_valid(cells: Seq<CellSnapshot>)
    requires
        cells_valid(cells),
    ensures
        cells_valid(sorted_cells(cells)),
{
    sorted_by_row(cells);
    assert forall|i: int| 0 <= i < sorted_cells(cells).len() implies crate::cell_law::cell_valid(
        #[trigger] sorted_cells(cells)[i],
    ) by {
        let k = choose|k: int| 0 <= k < cells.len() && cells[k] == sorted_cells(cells)[i];
        assert(crate::cell_law::cell_valid(cells[k]));
    }
}

/// Whether a cell stands no later than another.
pub open spec fn not_after(r: u32, c: u32, q: u32, d: u32) -> bool {
    r < q || (r == q && c <= d)
}

/// What comes back is in order.
proof fn back_in_order(
    cells: Seq<CellSnapshot>,
    styles: Seq<NamedStyle>,
    sh: Shared,
    xf: Seq<StyleView>,
    n: int,
)
    requires
        0 <= n <= cells.len(),
        forall|i: int, j: int|
            0 <= i < j < cells.len() ==> not_after(cells[i].r, cells[i].c, cells[j].r, cells[j].c),
    ensures
        ({
            let v = cells_back(cells, styles, sh, xf, n);
            &&& forall|i: int, j: int| 0 <= i < j < v.len() ==> not_after(v[i].r, v[i].c, v[j].r, v[j].c)
            &&& forall|i: int, j: int|
                0 <= i < v.len() && n <= j < cells.len() ==> not_after(
                    (#[trigger] v[i]).r,
                    v[i].c,
                    (#[trigger] cells[j]).r,
                    cells[j].c,
                )
        }),
    decreases n,
{
    if n > 0 {
        back_in_order(cells, styles, sh, xf, n - 1);
        let p = cells_back(cells, styles, sh, xf, n - 1);
        let v = cells_back(cells, styles, sh, xf, n);
        assert forall|i: int, j: int| 0 <= i < j < v.len() implies not_after(
            v[i].r,
            v[i].c,
            v[j].r,
            v[j].c,
        ) by {
            if j == p.len() {
                assert(v[i] == p[i]);
                assert(not_after(p[i].r, p[i].c, cells[n - 1].r, cells[n - 1].c));
            } else {
                assert(v[i] == p[i] && v[j] == p[j]);
            }
        }
        assert forall|i: int, j: int| 0 <= i < v.len() && n <= j < cells.len() implies not_after(
            (#[trigger] v[i]).r,
            v[i].c,
            (#[trigger] cells[j]).r,
            cells[j].c,
        ) by {
            if i == p.len() {
                assert(not_after(cells[n - 1].r, cells[n - 1].c, cells[j].r, cells[j].c));
            } else {
                assert(v[i] == p[i]);
            }
        }
    }
}

/// What comes back need not be put in order.
pub proof fn back_is_sorted(
    cells: Seq<CellSnapshot>,
    styles: Seq<NamedStyle>,
    sh: Shared,
    xf: Seq<StyleView>,
)
    requires
        forall|i: int, j: int|
            0 <= i < j < cells.len() ==> not_after(cells[i].r, cells[i].c, cells[j].r, cells[j].c),
    ensures
        ({
            let v = cells_back(cells, styles, sh, xf, cells.len() as int);
            sorted_views(v) == v
        }),
{
    let v = cells_back(cells, styles, sh, xf, cells.len() as int);
    back_in_order(cells, styles, sh, xf, cells.len() as int);
    let keys = view_keys(v);
    assert forall|i: int, j: int| 0 <= i < j < v.len() implies keys[i] <= keys[j] by {
        assert(not_after(v[i].r, v[i].c, v[j].r, v[j].c));
    }
    stable_order_of_sorted(keys, v.len());
    assert(sorted_views(v) == v);
}

// ---- the tags that a sheet is looked through for

/// The tags that a sheet is looked through for, in the order in which they stand.
pub open spec fn mark(k: int) -> Seq<char> {
    if k == 0 {
        "<outlinePr"@
    } else if k == 1 {
        "<pane"@
    } else if k == 2 {
        "<dimension"@
    } else if k == 3 {
        "<cols"@
    } else if k == 4 {
        "<sheetData"@
    } else if k == 5 {
        "<sheetProtection"@
    } else if k == 6 {
        "<mergeCells"@
    } else {
        "<page"@
    }
}

/// Whether none of the tags but tag `j` starts in a text.
pub open spec fn quiet(s: Seq<char>, j: int) -> bool {
    forall|k: int| 0 <= k < 8 && k != j ==> clear(s, #[trigger] mark(k))
}

pub proof fn quiet_join(a: Seq<char>, b: Seq<char>, j: int)
    requires
        quiet(a, j),
        quiet(b, j),
    ensures
        quiet(a + b, j),
{
    assert forall|k: int| 0 <= k < 8 && k != j implies clear(a + b, #[trigger] mark(k)) by {
        clear_join(a, b, mark(k));
    }
}

pub proof fn marks()
    ensures
        forall|k: int| 0 <= k < 8 ==> (#[trigger] mark(k)).len() > 4 && mark(k)[0] == '<',
        mark(0)[1] == 'o',
        mark(1)[1] == 'p' && mark(1)[2] == 'a' && mark(1)[3] == 'n',
        mark(2)[1] == 'd' && mark(2)[2] == 'i',
        mark(3)[1] == 'c' && mark(3)[2] == 'o' && mark(3)[3] == 'l' && mark(3)[4] == 's',
        mark(4).len() == 10 && mark(4)[1] == 's' && mark(4)[6] == 'D',
        mark(5).len() == 16 && mark(5)[1] == 's' && mark(5)[6] == 'P' && mark(5)[8] == 'o',
        mark(6).len() == 11 && mark(6)[1] == 'm' && mark(6)[10] == 's',
        mark(7)[1] == 'p' && mark(7)[2] == 'a' && mark(7)[3] == 'g',
{
    reveal_strlit("<outlinePr");
    reveal_strlit("<pane");
    reveal_strlit("<dimension");
    reveal_strlit("<cols");
    reveal_strlit("<sheetData");
    reveal_strlit("<sheetProtection");
    reveal_strlit("<mergeCells");
    reveal_strlit("<page");
}

pub proof fn bare_quiet(s: Seq<char>, j: int)
    requires
        without(s, '<'),
    ensures
        quiet(s, j),
{
    marks();
    assert forall|k: int| 0 <= k < 8 && k != j implies clear(s, #[trigger] mark(k)) by {
        clear_without(s, mark(k));
    }
}

/// Whether what starts with one tag does not start with tag `k`.
pub open spec fn other_tag(s: Seq<char>, k: int) -> bool {
    if k == 0 {
        s[1] != 'o'
    } else if k == 1 {
        s[1] != 'p' || s[2] != 'a' || s[3] != 'n'
    } else if k == 2 {
        s[1] != 'd' || s[2] != 'i'
    } else if k == 3 {
        s[1] != 'c' || s[2] != 'o' || s[3] != 'l' || s[4] != 's'
    } else if k == 4 {
        s[1] != 's' || (s.len() > 6 && s[6] != 'D')
    } else if k == 5 {
        s[1] != 's' || (s.len() > 6 && s[6] != 'P') || (s.len() > 8 && s[8] != 'o')
    } else if k == 6 {
        s[1] != 'm' || (s.len() > 10 && s[10] != 's')
    } else {
        s[1] != 'p' || s[2] != 'a' || s[3] != 'g'
    }
}

/// A text with one tag, at its start.
pub proof fn tag_quiet(s: Seq<char>, j: int)
    requires
        s.len() > 4,
        forall|i: int| 1 <= i < s.len() ==> #[trigger] s[i] != '<',
        forall|k: int| 0 <= k < 8 && k != j ==> #[trigger] other_tag(s, k),
    ensures
        quiet(s, j),
{
    marks();
    assert forall|k: int| 0 <= k < 8 && k != j implies clear(s, #[trigger] mark(k)) by {
        assert(other_tag(s, k));
        let m = mark(k);
        let d: int = if s[1] != m[1] {
            1
        } else if s[2] != m[2] {
            2
        } else if s[3] != m[3] {
            3
        } else if s[4] != m[4] {
            4
        } else if k == 4 {
            6
        } else if k == 5 && s[6] != m[6] {
            6
        } else if k == 5 {
            8
        } else {
            10
        };
        lit_clear(s, m, d);
    }
}

/// Whether every tag of a text starts with a letter that none of the tags starts with.
pub open spec fn led(s: Seq<char>) -> bool {
    forall|p: int|
        0 <= p < s.len() && #[trigger] s[p] == '<' ==> p + 1 < s.len() && (s[p + 1] == 'x' || s[p + 1]
            == 'e' || s[p + 1] == '/' || s[p + 1] == 'w' || s[p + 1] == '?')
}

pub proof fn led_quiet(s: Seq<char>, j: int)
    requires
        led(s),
    ensures
        quiet(s, j),
{
    marks();
    assert forall|k: int| 0 <= k < 8 && k != j implies clear(s, #[trigger] mark(k)) by {
        let m = mark(k);
        assert forall|p: int| 0 <= p < s.len() implies #[trigger] unlike(s, m, p) by {
            if s[p] == '<' {
                assert(s[p + 1] != m[1]);
            } else {
                assert(s[p + 0] != m[0]);
            }
        }
    }
}

// ---- the start and the end of a sheet

pub open spec fn start_text() -> Seq<char> {
    xml_decl()
        + "<worksheet xmlns=\"http://schemas.openxmlformats.org/spreadsheetml/2006/main\" xmlns:r=\"http://schemas.openxmlformats.org/officeDocument/2006/relationships\">"@
}

pub proof fn start_quiet()
    ensures
        quiet(start_text(), -1),
{
    reveal_strlit("<?xml version=\"1.0\" encoding=\"UTF-8\" standalone=\"yes\"?>\n");
    reveal_strlit(
        "<worksheet xmlns=\"http://schemas.openxmlformats.org/spreadsheetml/2006/main\" xmlns:r=\"http://schemas.openxmlformats.org/officeDocument/2006/relationships\">",
    );
    let w =
        "<worksheet xmlns=\"http://schemas.openxmlformats.org/spreadsheetml/2006/main\" xmlns:r=\"http://schemas.openxmlformats.org/officeDocument/2006/relationships\">"@;
    assert(led(xml_decl()));
    assert(led(w));
    led_quiet(xml_decl(), -1);
    led_quiet(w, -1);
    quiet_join(xml_decl(), w, -1);
}

/// Whether the numbers of a page are numbers.
pub open spec fn page_valid(p: Option<PageSetup>) -> bool {
    p matches Some(ps) ==> (ps.margins matches Some(m) ==> is_number_text(m.left@) && is_number_text(
        m.right@,
    ) && is_number_text(m.top@) && is_number_text(m.bottom@)) && (ps.scale matches Some(t)
        ==> is_number_text(t@))
}

proof fn margins_quiet(left: Seq<char>, right: Seq<char>, top: Seq<char>, bottom: Seq<char>)
    requires
        plain(left),
        plain(right),
        plain(top),
        plain(bottom),
    ensures
        quiet(margins_text(left, right, top, bottom), 7),
{
    plain_is_bare(left);
    plain_is_bare(right);
    plain_is_bare(top);
    plain_is_bare(bottom);
    reveal_strlit("<pageMargins left=\"");
    reveal_strlit("\" right=\"");
    reveal_strlit("\" top=\"");
    reveal_strlit("\" bottom=\"");
    reveal_strlit("\" header=\"0.3\" footer=\"0.3\"/>");
    let a = "<pageMargins left=\""@;
    let b = left + "\" right=\""@ + right + "\" top=\""@ + top + "\" bottom=\""@ + bottom
        + "\" header=\"0.3\" footer=\"0.3\"/>"@;
    assert(without("\" right=\""@, '<'));
    assert(without("\" top=\""@, '<'));
    assert(without("\" bottom=\""@, '<'));
    assert(without("\" header=\"0.3\" footer=\"0.3\"/>"@, '<'));
    assert(without(b, '<'));
    bare_quiet(b, 7);
    tag_quiet(a, 7);
    quiet_join(a, b, 7);
    assert(margins_text(left, right, top, bottom) == a + b);
}

/// The margins of a page as they are written.
pub open spec fn margins_of(ps: PageSetup) -> Seq<char> {
    match ps.margins {
        Some(m) => margins_text(m.left@, m.right@, m.top@, m.bottom@),
        None => margins_text("0.5"@, "0.5"@, "0.5"@, "0.5"@),
    }
}

pub open spec fn direction_of(ps: PageSetup) -> Seq<char> {
    if ps.orientation == Some(Orientation::Landscape) {
        "landscape"@
    } else {
        "portrait"@
    }
}

pub open spec fn scale_of(ps: PageSetup) -> Seq<char> {
    match ps.scale {
        Some(t) => " scale=\""@ + t@ + "\""@,
        None => Seq::empty(),
    }
}

pub open spec fn fit_of(ps: PageSetup) -> Seq<char> {
    match ps.fit_to_pages {
        Some(f) => " fitToWidth=\""@ + dec(f.width as nat) + "\" fitToHeight=\""@ + dec(
            f.height as nat,
        ) + "\""@,
        None => Seq::empty(),
    }
}

proof fn scale_bare(ps: PageSetup)
    requires
        ps.scale matches Some(t) ==> is_number_text(t@),
    ensures
        without(scale_of(ps), '<'),
{
    reveal_strlit("\"");
    reveal_strlit(" scale=\"");
    match ps.scale {
        Some(t) => {
            number_is_plain(t@);
            plain_is_bare(t@);
            without_join(" scale=\""@, t@, '<');
            without_join(" scale=\""@ + t@, "\""@, '<');
        },
        None => {},
    }
}

proof fn fit_bare(ps: PageSetup)
    ensures
        without(fit_of(ps), '<'),
{
    reveal_strlit("\"");
    reveal_strlit(" fitToWidth=\"");
    reveal_strlit("\" fitToHeight=\"");
    match ps.fit_to_pages {
        Some(f) => {
            let w = dec(f.width as nat);
            let h = dec(f.height as nat);
            dec_is_plain(f.width as nat);
            dec_is_plain(f.height as nat);
            plain_is_bare(w);
            plain_is_bare(h);
            let a = " fitToWidth=\""@;
            let b = "\" fitToHeight=\""@;
            without_join(a, w, '<');
            without_join(a + w, b, '<');
            without_join(a + w + b, h, '<');
            without_join(a + w + b + h, "\""@, '<');
        },
        None => {},
    }
}

proof fn setup_quiet(ps: PageSetup)
    requires
        ps.scale matches Some(t) ==> is_number_text(t@),
        quiet(margins_of(ps), 7),
    ensures
        quiet(page_text(Some(ps)), 7),
{
    reveal_strlit("<pageSetup paperSize=\"");
    reveal_strlit("\" orientation=\"");
    reveal_strlit("landscape");
    reveal_strlit("portrait");
    reveal_strlit("\"");
    reveal_strlit("/>");
    reveal_strlit("1");
    reveal_strlit("5");
    reveal_strlit("8");
    reveal_strlit("9");
    let a = "<pageSetup paperSize=\""@;
    let n = paper_number(ps.paper_size);
    let m = "\" orientation=\""@;
    let o = direction_of(ps);
    let q = "\""@;
    let sc = scale_of(ps);
    let fit = fit_of(ps);
    let e = "/>"@;
    scale_bare(ps);
    fit_bare(ps);
    assert(without(n, '<'));
    assert(without(o, '<'));
    without_join(n, m, '<');
    without_join(n + m, o, '<');
    without_join(n + m + o, q, '<');
    without_join(n + m + o + q, sc, '<');
    without_join(n + m + o + q + sc, fit, '<');
    without_join(n + m + o + q + sc + fit, e, '<');
    let b = n + m + o + q + sc + fit + e;
    bare_quiet(b, 7);
    tag_quiet(a, 7);
    let g = margins_of(ps);
    quiet_join(g, a, 7);
    quiet_join(g + a, b, 7);
    assert(page_text(Some(ps)) == g + a + n + m + o + q + sc + fit + e);
    assert(g + a + n + m + o + q + sc + fit + e == (g + a) + b);
}

proof fn page_quiet(p: Option<PageSetup>)
    requires
        page_valid(p),
    ensures
        quiet(page_text(p), 7),
        p is None ==> quiet(page_text(p), -1),
{
    match p {
        Some(ps) => {
            match ps.margins {
                Some(m) => {
                    number_is_plain(m.left@);
                    number_is_plain(m.right@);
                    number_is_plain(m.top@);
                    number_is_plain(m.bottom@);
                    margins_quiet(m.left@, m.right@, m.top@, m.bottom@);
                },
                None => {
                    reveal_strlit("0.5");
                    margins_quiet("0.5"@, "0.5"@, "0.5"@, "0.5"@);
                },
            }
            setup_quiet(ps);
        },
        None => {
            bare_quiet(page_text(p), 7);
            bare_quiet(page_text(p), -1);
        },
    }
}

/// An escaped text holds no tag.
proof fn escaped_bare(s: Seq<char>, k: Escape)
    ensures
        without(esc_text(s, k), '<'),
    decreases s.len(),
{
    if s.len() > 0 {
        escaped_bare(s.drop_last(), k);
        reveal_strlit("&amp;");
        reveal_strlit("&lt;");
        reveal_strlit("&gt;");
        reveal_strlit("&quot;");
        reveal_strlit("&apos;");
    }
}

proof fn led_join(a: Seq<char>, b: Seq<char>)
    requires
        led(a),
        led(b),
    ensures
        led(a + b),
{
    let s = a + b;
    assert forall|p: int| 0 <= p < s.len() && #[trigger] s[p] == '<' implies p + 1 < s.len() && (s[p + 1]
        == 'x' || s[p + 1] == 'e' || s[p + 1] == '/' || s[p + 1] == 'w' || s[p + 1] == '?') by {
        if p < a.len() {
            assert(a[p] == '<');
            assert(s[p + 1] == a[p + 1]);
        } else {
            let q = p - a.len();
            assert(b[q] == '<');
            assert(s[p + 1] == b[q + 1]);
        }
    }
}

proof fn bare_led(s: Seq<char>)
    requires
        without(s, '<'),
    ensures
        led(s),
{
}

proof fn sparkline_led(sheet: Seq<char>, e: SparklineEntry)
    ensures
        led(sparkline_text(sheet, e)),
{
    let r = esc_text(region_ref(sheet, e.2.data_range), Escape::Quoted);
    let q = esc_text(addr(e.0 as nat, e.1 as nat), Escape::Quoted);
    escaped_bare(region_ref(sheet, e.2.data_range), Escape::Quoted);
    escaped_bare(addr(e.0 as nat, e.1 as nat), Escape::Quoted);
    reveal_strlit("<x14:sparklineGroup");
    reveal_strlit(" type=\"");
    reveal_strlit("\"");
    reveal_strlit(" markers=\"1\"");
    reveal_strlit(" displayEmptyCellsAs=\"gap\"><x14:sparklines><x14:sparkline><xm:f>");
    reveal_strlit("</xm:f><xm:sqref>");
    reveal_strlit("</xm:sqref></x14:sparkline></x14:sparklines></x14:sparklineGroup>");
    reveal_strlit("line");
    reveal_strlit("column");
    reveal_strlit("stacked");
    let n = native_name(e.2.sparkline_type);
    assert(without(n, '<'));
    let a = "<x14:sparklineGroup"@;
    let b = opt(!crate::xlsx_drawing::is_line(e.2.sparkline_type), " type=\""@ + n + "\""@);
    let c = opt(e.2.markers == Some(true), " markers=\"1\""@);
    let d = " displayEmptyCellsAs=\"gap\"><x14:sparklines><x14:sparkline><xm:f>"@;
    let f = "</xm:f><xm:sqref>"@;
    let g = "</xm:sqref></x14:sparkline></x14:sparklines></x14:sparklineGroup>"@;
    assert(led(a));
    assert(without(b, '<'));
    assert(without(c, '<'));
    assert(led(d));
    assert(led(f));
    assert(led(g));
    bare_led(b);
    bare_led(c);
    bare_led(r);
    bare_led(q);
    led_join(a, b);
    led_join(a + b, c);
    led_join(a + b + c, d);
    led_join(a + b + c + d, r);
    led_join(a + b + c + d + r, f);
    led_join(a + b + c + d + r + f, q);
    led_join(a + b + c + d + r + f + q, g);
}

proof fn sparklines_led(sheet: Seq<char>, list: Seq<SparklineEntry>)
    ensures
        led(sparklines_text(sheet, list)),
    decreases list.len(),
{
    if list.len() > 0 {
        sparklines_led(sheet, list.drop_last());
        sparkline_led(sheet, list.last());
        led_join(sparklines_text(sheet, list.drop_last()), sparkline_text(sheet, list.last()));
    }
}

proof fn ext_quiet(sheet: Seq<char>, list: Seq<SparklineEntry>)
    ensures
        quiet(ext_text(sheet, list), -1),
{
    if list.len() > 0 {
        let a =
            "<extLst><ext xmlns:x14=\"http://schemas.microsoft.com/office/spreadsheetml/2009/9/main\" uri=\"{05C60535-1F16-4fd2-B633-F4F36F0B64E0}\"><x14:sparklineGroups xmlns:xm=\"http://schemas.microsoft.com/office/excel/2006/main\">"@;
        let b = "</x14:sparklineGroups></ext></extLst>"@;
        reveal_strlit(
            "<extLst><ext xmlns:x14=\"http://schemas.microsoft.com/office/spreadsheetml/2009/9/main\" uri=\"{05C60535-1F16-4fd2-B633-F4F36F0B64E0}\"><x14:sparklineGroups xmlns:xm=\"http://schemas.microsoft.com/office/excel/2006/main\">",
        );
        reveal_strlit("</x14:sparklineGroups></ext></extLst>");
        assert(led(a));
        assert(led(b));
        sparklines_led(sheet, list);
        let c = sparklines_text(sheet, list);
        led_join(a, c);
        led_join(a + c, b);
        led_quiet(ext_text(sheet, list), -1);
    } else {
        bare_quiet(ext_text(sheet, list), -1);
    }
}

/// What stands behind the merged cells.
pub open spec fn end_text(s: SheetSnapshot, drawing: bool) -> Seq<char> {
    page_text(s.page_setup) + opt(
        drawing,
        "<drawing xmlns:r=\"http://schemas.openxmlformats.org/officeDocument/2006/relationships\" r:id=\"rId1\"/>"@,
    ) + ext_text(s.name@, s.sparklines@) + "</worksheet>"@
}

pub proof fn end_quiet(s: SheetSnapshot, drawing: bool)
    requires
        page_valid(s.page_setup),
    ensures
        quiet(end_text(s, drawing), 7),
        s.page_setup is None ==> quiet(end_text(s, drawing), -1),
{
    page_quiet(s.page_setup);
    ext_quiet(s.name@, s.sparklines@);
    reveal_strlit(
        "<drawing xmlns:r=\"http://schemas.openxmlformats.org/officeDocument/2006/relationships\" r:id=\"rId1\"/>",
    );
    reveal_strlit("</worksheet>");
    let t =
        "<drawing xmlns:r=\"http://schemas.openxmlformats.org/officeDocument/2006/relationships\" r:id=\"rId1\"/>"@;
    tag_quiet(t, -1);
    tag_quiet(t, 7);
    let d = opt(drawing, t);
    if !drawing {
        bare_quiet(d, -1);
        bare_quiet(d, 7);
    }
    assert(led("</worksheet>"@));
    led_quiet("</worksheet>"@, -1);
    led_quiet("</worksheet>"@, 7);
    let p = page_text(s.page_setup);
    let e = ext_text(s.name@, s.sparklines@);
    quiet_join(p, d, 7);
    quiet_join(p + d, e, 7);
    quiet_join(p + d + e, "</worksheet>"@, 7);
    if s.page_setup is None {
        quiet_join(p, d, -1);
        quiet_join(p + d, e, -1);
        quiet_join(p + d + e, "</worksheet>"@, -1);
    }
}

} // verus!
