//! Comma-separated values.
use crate::scan::{at, has_text, occurs};
use crate::snapshot::{shown, CellValue, RegionRect};
use crate::text::{chars_of, join, join_texts, texts};
use crate::worksheet::{cell_at, Worksheet};
use vstd::prelude::*;

verus! {

/// How values are written.
#[derive(Debug, Clone)]
pub struct CsvSerializeOptions {
    /// What stands between fields.
    pub delimiter: String,
    /// What stands between lines.
    pub eol: String,
    /// Whether a byte order mark comes first.
    pub bom: bool,
}

impl Default for CsvSerializeOptions {
    fn default() -> (r: Self)
        ensures
            r.delimiter@ == ","@,
            r.eol@ == "\n"@,
            !r.bom,
    {
        CsvSerializeOptions { delimiter: ",".to_string(), eol: "\n".to_string(), bom: false }
    }
}

/// How values are read.
#[derive(Debug, Clone)]
pub struct CsvParseOptions {
    /// What stands between fields: its first character counts.
    pub delimiter: String,
}

impl Default for CsvParseOptions {
    fn default() -> (r: Self)
        ensures
            r.delimiter@ == ","@,
    {
        CsvParseOptions { delimiter: ",".to_string() }
    }
}

/// A text with each `"` doubled.
pub open spec fn doubled(s: Seq<char>) -> Seq<char>
    decreases s.len(),
{
    if s.len() == 0 {
        s
    } else if s.last() == '"' {
        doubled(s.drop_last()).push('"').push('"')
    } else {
        doubled(s.drop_last()).push(s.last())
    }
}

/// Whether a field has to stand in quotes.
pub open spec fn needs_quotes(s: Seq<char>, delimiter: Seq<char>) -> bool {
    (delimiter.len() > 0 && occurs(s, delimiter)) || s.contains('"') || s.contains('\n')
        || s.contains('\r')
}

/// A field as it is written.
pub open spec fn field_text(s: Seq<char>, delimiter: Seq<char>) -> Seq<char> {
    if needs_quotes(s, delimiter) {
        seq!['"'] + doubled(s) + seq!['"']
    } else {
        s
    }
}

/// A cell as it is written.
pub open spec fn cell_field(v: Option<CellValue>, delimiter: Seq<char>) -> Seq<char> {
    match v {
        None => Seq::empty(),
        Some(x) => field_text(shown(x), delimiter),
    }
}

/// A row as it is written.
pub open spec fn row_text(row: Seq<Option<CellValue>>, delimiter: Seq<char>) -> Seq<char> {
    join(Seq::new(row.len(), |c: int| cell_field(row[c], delimiter)), delimiter)
}

/// Rows as they are written.
pub open spec fn rows_text(
    rows: Seq<Seq<Option<CellValue>>>,
    delimiter: Seq<char>,
    eol: Seq<char>,
) -> Seq<char> {
    join(Seq::new(rows.len(), |r: int| row_text(rows[r], delimiter)), eol)
}

fn has_char(s: &Vec<char>, c: char) -> (r: bool)
    ensures
        r == s@.contains(c),
{
    let mut i: usize = 0;
    while i < s.len()
        invariant
            i <= s.len(),
            forall|j: int| 0 <= j < i ==> s@[j] != c,
        decreases s.len() - i,
    {
        if s[i] == c {
            assert(s@[i as int] == c);
            return true;
        }
        i = i + 1;
    }
    false
}

/// A cell as it is written: in quotes, with quotes doubled, where it holds the delimiter, a
/// quote or a line break.
pub fn csv_cell(v: &Option<CellValue>, delimiter: &str) -> (r: String)
    ensures
        r@ == cell_field(*v, delimiter@),
{
    let s: String = match v {
        None => return String::new(),
        Some(x) => x.to_text(),
    };
    let chars: Vec<char> = chars_of(s.as_str());
    let d: Vec<char> = chars_of(delimiter);
    if !((d.len() > 0 && has_text(&chars, &d)) || has_char(&chars, '"') || has_char(&chars, '\n')
        || has_char(&chars, '\r')) {
        return s;
    }
    let mut out: String = String::new();
    out.push('"');
    assert(out@ == seq!['"'] + doubled(chars@.take(0)));
    let mut i: usize = 0;
    while i < chars.len()
        invariant
            i <= chars.len(),
            out@ == seq!['"'] + doubled(chars@.take(i as int)),
        decreases chars.len() - i,
    {
        let ghost d0 = doubled(chars@.take(i as int));
        assert(chars@.take(i + 1).drop_last() == chars@.take(i as int));
        if chars[i] == '"' {
            out.push('"');
            out.push('"');
            assert(out@ == seq!['"'] + d0.push('"').push('"'));
        } else {
            out.push(chars[i]);
            assert(out@ == seq!['"'] + d0.push(chars@[i as int]));
        }
        i = i + 1;
    }
    assert(chars@.take(i as int) == chars@);
    let ghost before = out@;
    out.push('"');
    assert(out@ == before + seq!['"']);
    out
}

/// The values of rows of cells.
pub open spec fn grid(rows: Seq<Vec<Option<CellValue>>>) -> Seq<Seq<Option<CellValue>>> {
    Seq::new(rows.len(), |r: int| rows[r]@)
}

/// The byte order mark, where one is asked for.
pub open spec fn bom_text(bom: bool) -> Seq<char> {
    if bom {
        seq!['\u{FEFF}']
    } else {
        Seq::empty()
    }
}

/// Rows of cells as text.
pub fn serialize_rows(rows: &Vec<Vec<Option<CellValue>>>, opts: &CsvSerializeOptions) -> (r: String)
    ensures
        r@ == bom_text(opts.bom) + rows_text(grid(rows@), opts.delimiter@, opts.eol@),
{
    let ghost d = opts.delimiter@;
    let ghost g = grid(rows@);
    let mut lines: Vec<String> = Vec::new();
    let mut r: usize = 0;
    while r < rows.len()
        invariant
            r <= rows.len(),
            lines.len() == r,
            d == opts.delimiter@,
            g == grid(rows@),
            forall|k: int| 0 <= k < r ==> #[trigger] lines@[k]@ == row_text(g[k], d),
        decreases rows.len() - r,
    {
        let row = &rows[r];
        let mut cells: Vec<String> = Vec::new();
        let mut c: usize = 0;
        while c < row.len()
            invariant
                c <= row.len(),
                cells.len() == c,
                d == opts.delimiter@,
                forall|k: int| 0 <= k < c ==> #[trigger] cells@[k]@ == cell_field(row@[k], d),
            decreases row.len() - c,
        {
            cells.push(csv_cell(&row[c], opts.delimiter.as_str()));
            c = c + 1;
        }
        assert(texts(cells@) == Seq::new(row@.len(), |k: int| cell_field(row@[k], d)));
        assert(g[r as int] == row@);
        lines.push(join_texts(&cells, opts.delimiter.as_str()));
        r = r + 1;
    }
    assert(texts(lines@) == Seq::new(g.len(), |k: int| row_text(g[k], d)));
    let body: String = join_texts(&lines, opts.eol.as_str());
    if opts.bom {
        let mut out: String = String::new();
        out.push('\u{FEFF}');
        out.append(body.as_str());
        assert(out@ == seq!['\u{FEFF}'] + body@);
        out
    } else {
        assert(body@ == Seq::<char>::empty() + body@);
        body
    }
}

/// What the cells of a block hold.
pub open spec fn block_values(ws: Worksheet, g: RegionRect) -> Seq<Seq<Option<CellValue>>> {
    Seq::new(
        g.row_count as nat,
        |r: int|
            Seq::new(
                g.col_count as nat,
                |c: int| cell_at(ws.cells@, (g.row + r) as u32, (g.col + c) as u32).value,
            ),
    )
}

/// A block of a sheet as text. Cells with formulas are written as what they show.
pub fn serialize_csv(sheet: &Worksheet, range: &RegionRect, opts: &CsvSerializeOptions) -> (r: String)
    requires
        sheet.wf(),
        range.row + range.row_count <= u32::MAX,
        range.col + range.col_count <= u32::MAX,
    ensures
        r@ == bom_text(opts.bom) + rows_text(
            block_values(*sheet, *range),
            opts.delimiter@,
            opts.eol@,
        ),
{
    let ghost all = block_values(*sheet, *range);
    let mut rows: Vec<Vec<Option<CellValue>>> = Vec::new();
    let mut i: u32 = 0;
    while i < range.row_count
        invariant
            i <= range.row_count,
            sheet.wf(),
            range.row + range.row_count <= u32::MAX,
            range.col + range.col_count <= u32::MAX,
            all == block_values(*sheet, *range),
            rows@.len() == i,
            forall|k: int| 0 <= k < i ==> (#[trigger] rows@[k])@ == all[k],
        decreases range.row_count - i,
    {
        let mut row: Vec<Option<CellValue>> = Vec::new();
        let mut j: u32 = 0;
        while j < range.col_count
            invariant
                j <= range.col_count,
                i < range.row_count,
                sheet.wf(),
                range.row + range.row_count <= u32::MAX,
                range.col + range.col_count <= u32::MAX,
                all == block_values(*sheet, *range),
                row@ == all[i as int].take(j as int),
            decreases range.col_count - j,
        {
            row.push(sheet.get_value(range.row + i, range.col + j));
            assert(all[i as int].take(j + 1) == all[i as int].take(j as int).push(
                all[i as int][j as int],
            ));
            j = j + 1;
        }
        assert(row@ == all[i as int]);
        rows.push(row);
        i = i + 1;
    }
    assert(grid(rows@) == all);
    serialize_rows(&rows, opts)
}

/// Where reading stands: the rows done, the fields done in this row, the field at hand, and
/// whether it is inside quotes.
pub struct CsvState {
    pub rows: Seq<Seq<Seq<char>>>,
    pub row: Seq<Seq<char>>,
    pub field: Seq<char>,
    pub in_quotes: bool,
}

/// Reading from `i` on.
pub open spec fn csv_run(s: Seq<char>, delimiter: char, i: int, st: CsvState) -> CsvState
    decreases s.len() - i,
{
    if i < 0 || i >= s.len() {
        st
    } else if st.in_quotes {
        if s[i] == '"' {
            if i + 1 < s.len() && s[i + 1] == '"' {
                csv_run(s, delimiter, i + 2, CsvState { field: st.field.push('"'), ..st })
            } else {
                csv_run(s, delimiter, i + 1, CsvState { in_quotes: false, ..st })
            }
        } else {
            csv_run(s, delimiter, i + 1, CsvState { field: st.field.push(s[i]), ..st })
        }
    } else if s[i] == '"' {
        csv_run(s, delimiter, i + 1, CsvState { in_quotes: true, ..st })
    } else if s[i] == delimiter {
        csv_run(
            s,
            delimiter,
            i + 1,
            CsvState { row: st.row.push(st.field), field: Seq::empty(), ..st },
        )
    } else if s[i] == '\r' {
        csv_run(s, delimiter, i + 1, st)
    } else if s[i] == '\n' {
        csv_run(
            s,
            delimiter,
            i + 1,
            CsvState {
                rows: st.rows.push(st.row.push(st.field)),
                row: Seq::empty(),
                field: Seq::empty(),
                ..st
            },
        )
    } else {
        csv_run(s, delimiter, i + 1, CsvState { field: st.field.push(s[i]), ..st })
    }
}

pub open spec fn csv_start() -> CsvState {
    CsvState { rows: Seq::empty(), row: Seq::empty(), field: Seq::empty(), in_quotes: false }
}

/// The rows that were read, the last one among them unless it is empty.
pub open spec fn csv_rows(st: CsvState) -> Seq<Seq<Seq<char>>> {
    if st.field.len() > 0 || st.row.len() > 0 {
        st.rows.push(st.row.push(st.field))
    } else {
        st.rows
    }
}

/// The rows of fields that a text holds.
pub open spec fn csv_fields(text: Seq<char>, delimiter: char) -> Seq<Seq<Seq<char>>> {
    let start = if text.len() > 0 && text[0] == '\u{FEFF}' {
        1int
    } else {
        0
    };
    csv_rows(csv_run(text, delimiter, start, csv_start()))
}

/// The character between fields.
pub open spec fn delimiter_char(delimiter: Seq<char>) -> char {
    if delimiter.len() > 0 {
        delimiter[0]
    } else {
        ','
    }
}

/// The texts of rows of strings.
pub open spec fn text_rows(rows: Seq<Vec<String>>) -> Seq<Seq<Seq<char>>> {
    Seq::new(rows.len(), |r: int| texts(rows[r]@))
}

/// Reads rows of fields. A byte order mark in front is skipped, `\r` outside quotes is dropped,
/// and a text that ends in a line break has no empty row behind it.
pub fn parse_csv(text: &str, opts: &CsvParseOptions) -> (r: Vec<Vec<String>>)
    ensures
        text_rows(r@) == csv_fields(text@, delimiter_char(opts.delimiter@)),
{
    let dchars: Vec<char> = chars_of(opts.delimiter.as_str());
    let delimiter: char = if dchars.len() > 0 {
        dchars[0]
    } else {
        ','
    };
    let chars: Vec<char> = chars_of(text);
    let mut i: usize = if chars.len() > 0 && chars[0] == '\u{FEFF}' {
        1
    } else {
        0
    };
    let ghost end = csv_run(chars@, delimiter, i as int, csv_start());
    let mut rows: Vec<Vec<String>> = Vec::new();
    let mut row: Vec<String> = Vec::new();
    let mut field: String = String::new();
    let mut in_quotes = false;
    assert(text_rows(rows@) == csv_start().rows);
    assert(texts(row@) == csv_start().row);
    assert(field@ == csv_start().field);
    while i < chars.len()
        invariant
            i <= chars.len(),
            end == csv_run(
                chars@,
                delimiter,
                i as int,
                CsvState {
                    rows: text_rows(rows@),
                    row: texts(row@),
                    field: field@,
                    in_quotes,
                },
            ),
        decreases chars.len() - i,
    {
        let ch = chars[i];
        let ghost rows0 = text_rows(rows@);
        let ghost row0 = texts(row@);
        if in_quotes {
            if ch == '"' {
                if i + 1 < chars.len() && chars[i + 1] == '"' {
                    field.push('"');
                    i = i + 2;
                } else {
                    in_quotes = false;
                    i = i + 1;
                }
            } else {
                field.push(ch);
                i = i + 1;
            }
        } else if ch == '"' {
            in_quotes = true;
            i = i + 1;
        } else if ch == delimiter {
            let ghost f0 = field@;
            row.push(field);
            field = String::new();
            assert(texts(row@) == row0.push(f0));
            i = i + 1;
        } else if ch == '\r' {
            i = i + 1;
        } else if ch == '\n' {
            let ghost f0 = field@;
            row.push(field);
            assert(texts(row@) == row0.push(f0));
            rows.push(row);
            assert(text_rows(rows@) == rows0.push(row0.push(f0)));
            field = String::new();
            row = Vec::new();
            assert(texts(row@) == Seq::<Seq<char>>::empty());
            i = i + 1;
        } else {
            field.push(ch);
            i = i + 1;
        }
    }
    let ghost rows0 = text_rows(rows@);
    let ghost row0 = texts(row@);
    let flen: usize = chars_of(field.as_str()).len();
    if flen > 0 || row.len() > 0 {
        let ghost f0 = field@;
        row.push(field);
        assert(texts(row@) == row0.push(f0));
        rows.push(row);
        assert(text_rows(rows@) == rows0.push(row0.push(f0)));
    }
    rows
}

/// What a cell shows, as text; an empty cell shows nothing.
pub open spec fn cell_shown(v: Option<CellValue>) -> Seq<char> {
    match v {
        None => Seq::empty(),
        Some(x) => shown(x),
    }
}

/// What the cells of rows show.
pub open spec fn rows_shown(rows: Seq<Seq<Option<CellValue>>>) -> Seq<Seq<Seq<char>>> {
    Seq::new(rows.len(), |r: int| row_shown(rows[r]))
}

/// What the cells of a row show.
pub open spec fn row_shown(row: Seq<Option<CellValue>>) -> Seq<Seq<char>> {
    Seq::new(row.len(), |c: int| cell_shown(row[c]))
}

/// A character that can stand between fields.
pub open spec fn is_delimiter(d: char) -> bool {
    d != '"' && d != '\n' && d != '\r'
}

/// Whether a field that ends at `e` is not continued by a quote.
spec fn ends_at(t: Seq<char>, e: int) -> bool {
    e >= t.len() || t[e] != '"'
}

proof fn reads_plain(t: Seq<char>, d: char, i: int, s: Seq<char>, st: CsvState)
    requires
        0 <= i,
        i + s.len() <= t.len(),
        forall|k: int| 0 <= k < s.len() ==> t[i + k] == #[trigger] s[k],
        !st.in_quotes,
        forall|k: int|
            0 <= k < s.len() ==> #[trigger] s[k] != '"' && s[k] != '\n' && s[k] != '\r' && s[k] != d,
    ensures
        csv_run(t, d, i, st) == csv_run(
            t,
            d,
            i + s.len(),
            CsvState { field: st.field + s, ..st },
        ),
    decreases s.len(),
{
    if s.len() == 0 {
        assert(st.field + s == st.field);
    } else {
        let p = s.drop_last();
        assert forall|k: int| 0 <= k < p.len() implies t[i + k] == #[trigger] p[k] && p[k] != '"'
            && p[k] != '\n' && p[k] != '\r' && p[k] != d by {
            assert(s[k] == p[k]);
        }
        reads_plain(t, d, i, p, st);
        assert(t[i + p.len()] == s[p.len() as int]);
        assert((st.field + p).push(s.last()) == st.field + s);
    }
}

proof fn reads_doubled(t: Seq<char>, d: char, i: int, s: Seq<char>, st: CsvState)
    requires
        0 <= i,
        i + doubled(s).len() <= t.len(),
        forall|k: int| 0 <= k < doubled(s).len() ==> t[i + k] == #[trigger] doubled(s)[k],
        st.in_quotes,
    ensures
        csv_run(t, d, i, st) == csv_run(
            t,
            d,
            i + doubled(s).len(),
            CsvState { field: st.field + s, ..st },
        ),
    decreases s.len(),
{
    if s.len() == 0 {
        assert(st.field + s == st.field);
    } else {
        let p = s.drop_last();
        let dp = doubled(p);
        let ds = doubled(s);
        assert forall|k: int| 0 <= k < dp.len() implies t[i + k] == #[trigger] dp[k] by {
            assert(ds[k] == dp[k]);
        }
        reads_doubled(t, d, i, p, st);
        let j = i + dp.len();
        assert(t[j] == ds[dp.len() as int]);
        assert((st.field + p).push(s.last()) == st.field + s);
        if s.last() == '"' {
            assert(t[j + 1] == ds[dp.len() as int + 1]);
            assert(ds[dp.len() as int + 1] == '"');
        }
    }
}

proof fn reads_field(t: Seq<char>, d: char, i: int, s: Seq<char>, st: CsvState)
    requires
        is_delimiter(d),
        at(t, field_text(s, seq![d]), i),
        ends_at(t, i + field_text(s, seq![d]).len()),
        !st.in_quotes,
        st.field.len() == 0,
    ensures
        csv_run(t, d, i, st) == csv_run(
            t,
            d,
            i + field_text(s, seq![d]).len(),
            CsvState { field: s, ..st },
        ),
{
    let f = field_text(s, seq![d]);
    let sub = t.subrange(i, i + f.len());
    assert forall|k: int| 0 <= k < f.len() implies t[i + k] == #[trigger] f[k] by {
        assert(sub[k] == t[i + k]);
    }
    assert(st.field + s == s);
    if needs_quotes(s, seq![d]) {
        let ds = doubled(s);
        assert(t[i] == f[0]);
        let st1 = CsvState { in_quotes: true, ..st };
        assert forall|k: int| 0 <= k < ds.len() implies t[i + 1 + k] == #[trigger] ds[k] by {
            assert(f[k + 1] == ds[k]);
            assert(t[i + (k + 1)] == f[k + 1]);
        }
        reads_doubled(t, d, i + 1, s, st1);
        let e = i + 1 + ds.len();
        assert(t[i + (ds.len() + 1)] == f[ds.len() as int + 1]);
        assert(t[e] == '"');
        let st2 = CsvState { field: s, ..st1 };
        assert(csv_run(t, d, e, st2) == csv_run(t, d, e + 1, CsvState { in_quotes: false, ..st2 }));
        assert(CsvState { in_quotes: false, ..st2 } == CsvState { field: s, ..st });
    } else {
        assert forall|k: int| 0 <= k < s.len() implies #[trigger] s[k] != '"' && s[k] != '\n'
            && s[k] != '\r' && s[k] != d by {
            if s[k] == d {
                assert(s.subrange(k, k + 1) == seq![d]);
                assert(at(s, seq![d], k));
            }
        }
        reads_plain(t, d, i, s, st);
    }
}

spec fn fields_text(fields: Seq<Seq<char>>, d: char) -> Seq<Seq<char>> {
    Seq::new(fields.len(), |c: int| field_text(fields[c], seq![d]))
}

proof fn part_at(t: Seq<char>, a: Seq<char>, b: Seq<char>, i: int)
    requires
        at(t, a + b, i),
    ensures
        at(t, a, i),
        at(t, b, i + a.len()),
{
    let whole = t.subrange(i, i + (a + b).len());
    assert(t.subrange(i, i + a.len()) == whole.subrange(0, a.len() as int));
    assert(whole.subrange(0, a.len() as int) == a);
    assert(t.subrange(i + a.len(), i + a.len() + b.len()) == whole.subrange(
        a.len() as int,
        (a + b).len() as int,
    ));
    assert(whole.subrange(a.len() as int, (a + b).len() as int) == b);
}

proof fn reads_row(t: Seq<char>, d: char, i: int, fields: Seq<Seq<char>>, st: CsvState)
    requires
        is_delimiter(d),
        fields.len() > 0,
        at(t, join(fields_text(fields, d), seq![d]), i),
        ends_at(t, i + join(fields_text(fields, d), seq![d]).len()),
        !st.in_quotes,
        st.field.len() == 0,
        st.row.len() == 0,
    ensures
        csv_run(t, d, i, st) == csv_run(
            t,
            d,
            i + join(fields_text(fields, d), seq![d]).len(),
            CsvState { row: fields.drop_last(), field: fields.last(), ..st },
        ),
    decreases fields.len(),
{
    let ft = fields_text(fields, d);
    if fields.len() == 1 {
        assert(ft[0] == field_text(fields[0], seq![d]));
        reads_field(t, d, i, fields[0], st);
        assert(fields.drop_last() == st.row);
    } else {
        let p = fields.drop_last();
        let pt = fields_text(p, d);
        assert(ft.drop_last() == pt);
        let jp = join(pt, seq![d]);
        let last = field_text(fields.last(), seq![d]);
        part_at(t, jp + seq![d], last, i);
        part_at(t, jp, seq![d], i);
        let m = i + jp.len();
        assert(t.subrange(m, m + 1)[0] == d);
        assert(t[m] == d);
        reads_row(t, d, i, p, st);
        let st1 = CsvState { row: p.drop_last(), field: p.last(), ..st };
        let st2 = CsvState { row: p, field: Seq::empty(), ..st };
        assert(p.drop_last().push(p.last()) == p);
        assert(csv_run(t, d, m, st1) == csv_run(t, d, m + 1, st2));
        assert((jp + seq![d]).len() == jp.len() + 1);
        reads_field(t, d, m + 1, fields.last(), st2);
    }
}

spec fn lines_text(rows: Seq<Seq<Seq<char>>>, d: char) -> Seq<Seq<char>> {
    Seq::new(rows.len(), |r: int| join(fields_text(rows[r], d), seq![d]))
}

proof fn reads_rows(t: Seq<char>, d: char, eol: Seq<char>, i: int, rows: Seq<Seq<Seq<char>>>)
    requires
        is_delimiter(d),
        eol == seq!['\n'] || eol == seq!['\r', '\n'],
        rows.len() > 0,
        forall|r: int| 0 <= r < rows.len() ==> (#[trigger] rows[r]).len() > 0,
        at(t, join(lines_text(rows, d), eol), i),
        ends_at(t, i + join(lines_text(rows, d), eol).len()),
    ensures
        csv_run(t, d, i, csv_start()) == csv_run(
            t,
            d,
            i + join(lines_text(rows, d), eol).len(),
            (CsvState {
                rows: rows.drop_last(),
                row: rows.last().drop_last(),
                field: rows.last().last(),
                in_quotes: false,
            }),
        ),
    decreases rows.len(),
{
    let lt = lines_text(rows, d);
    if rows.len() == 1 {
        assert(lt[0] == join(fields_text(rows[0], d), seq![d]));
        reads_row(t, d, i, rows[0], csv_start());
        assert(rows.drop_last() == csv_start().rows);
    } else {
        let p = rows.drop_last();
        let pt = lines_text(p, d);
        assert(lt.drop_last() == pt);
        let jp = join(pt, eol);
        let last = join(fields_text(rows.last(), d), seq![d]);
        assert(lt.last() == last);
        part_at(t, jp + eol, last, i);
        part_at(t, jp, eol, i);
        let m = i + jp.len();
        let sub = t.subrange(m, m + eol.len());
        assert(sub == eol);
        assert(sub[0] == t[m]);
        assert forall|r: int| 0 <= r < p.len() implies (#[trigger] p[r]).len() > 0 by {
            assert(rows[r] == p[r]);
        }
        reads_rows(t, d, eol, i, p);
        let st1 = CsvState {
            rows: p.drop_last(),
            row: p.last().drop_last(),
            field: p.last().last(),
            in_quotes: false,
        };
        let st2 = CsvState { rows: p, row: Seq::empty(), field: Seq::empty(), in_quotes: false };
        assert(p.last().drop_last().push(p.last().last()) == p.last());
        assert(p.drop_last().push(p.last()) == p);
        if eol.len() == 2 {
            assert(sub[1] == t[m + 1]);
            assert(csv_run(t, d, m, st1) == csv_run(t, d, m + 1, st1));
            assert(csv_run(t, d, m + 1, st1) == csv_run(t, d, m + 2, st2));
        } else {
            assert(csv_run(t, d, m, st1) == csv_run(t, d, m + 1, st2));
        }
        assert(rows.last() == rows[rows.len() - 1]);
        assert((jp + eol).len() == jp.len() + eol.len());
        reads_row(t, d, m + eol.len(), rows.last(), st2);
    }
}

/// Reading gives back what was written: the fields are what the cells show. Left out are rows
/// without cells, a last row that is one empty cell (it is written as nothing), and, without a
/// byte order mark, a text that starts with that character (it would be taken for the mark).
pub proof fn csv_round_trip(
    rows: Seq<Seq<Option<CellValue>>>,
    d: char,
    eol: Seq<char>,
    bom: bool,
)
    requires
        is_delimiter(d),
        eol == seq!['\n'] || eol == seq!['\r', '\n'],
        rows.len() > 0,
        forall|r: int| 0 <= r < rows.len() ==> (#[trigger] rows[r]).len() > 0,
        rows.last().len() > 1 || cell_shown(rows.last()[0]).len() > 0,
        bom || rows_text(rows, seq![d], eol).len() == 0 || rows_text(rows, seq![d], eol)[0]
            != '\u{FEFF}',
    ensures
        csv_fields(bom_text(bom) + rows_text(rows, seq![d], eol), d) == rows_shown(rows),
{
    let body = rows_text(rows, seq![d], eol);
    let t = bom_text(bom) + body;
    let fields = rows_shown(rows);
    let start = bom_text(bom).len() as int;
    assert forall|r: int| 0 <= r < rows.len() implies #[trigger] row_text(rows[r], seq![d]) == join(
        fields_text(fields[r], d),
        seq![d],
    ) by {
        assert forall|c: int| 0 <= c < rows[r].len() implies #[trigger] cell_field(
            rows[r][c],
            seq![d],
        ) == field_text(fields[r][c], seq![d]) by {
            if rows[r][c] is None {
                let e = Seq::<char>::empty();
                assert(!occurs(e, seq![d]));
            }
        }
        assert(Seq::new(rows[r].len(), |c: int| cell_field(rows[r][c], seq![d])) == fields_text(
            fields[r],
            d,
        ));
    }
    assert(Seq::new(rows.len(), |r: int| row_text(rows[r], seq![d])) == lines_text(fields, d));
    assert(t.subrange(start, start + body.len()) == body);
    assert(at(t, body, start));
    assert forall|r: int| 0 <= r < fields.len() implies (#[trigger] fields[r]).len() > 0 by {
        assert(rows[r].len() > 0);
    }
    reads_rows(t, d, eol, start, fields);
    assert(fields.last() == row_shown(rows.last()));
    let last = fields.last();
    assert(last.drop_last().push(last.last()) == last);
    assert(fields.drop_last().push(last) == fields);
    if !bom {
        assert(t == body);
    }
}

} // verus!
