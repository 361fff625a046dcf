//! The texts of a page that is printed, with a font of Latin characters or with one of its own.
use crate::text::{chars_of, slice_string, trim_end_white, white};
use vstd::prelude::*;

verus! {

/// Whether a font of Latin characters has a character.
pub open spec fn is_latin(c: char) -> bool {
    ' ' <= c <= '~' || '\u{a0}' <= c <= '\u{ff}'
}

/// A character, or a blank where a font of Latin characters does not have it.
pub open spec fn latin_char(c: char) -> char {
    if is_latin(c) {
        c
    } else {
        ' '
    }
}

/// A text in Latin characters: blanks stand for others, and none stand at its end.
pub open spec fn latin_text(s: Seq<char>) -> Seq<char> {
    trim_end_white(Seq::new(s.len(), |i: int| latin_char(s[i])))
}

/// A text in Latin characters: blanks stand for others, and none stand at its end.
pub fn sanitize_for_builtin(s: &str) -> (r: String)
    ensures
        r@ == latin_text(s@),
{
    let chars: Vec<char> = chars_of(s);
    let ghost all = Seq::new(s@.len(), |i: int| latin_char(s@[i]));
    let mut out: Vec<char> = Vec::new();
    let mut i: usize = 0;
    while i < chars.len()
        invariant
            i <= chars.len(),
            chars@ == s@,
            all == Seq::new(s@.len(), |k: int| latin_char(s@[k])),
            out@ == all.take(i as int),
        decreases chars.len() - i,
    {
        let c = chars[i];
        if (' ' <= c && c <= '~') || ('\u{a0}' <= c && c <= '\u{ff}') {
            out.push(c);
        } else {
            out.push(' ');
        }
        assert(all.take(i + 1) == all.take(i as int).push(all[i as int]));
        i = i + 1;
    }
    assert(out@ == all);
    let mut n: usize = out.len();
    assert(out@.take(n as int) == out@);
    while n > 0 && white(out[n - 1])
        invariant
            n <= out.len(),
            trim_end_white(out@) == trim_end_white(out@.take(n as int)),
        decreases n,
    {
        assert(out@.take(n as int).drop_last() == out@.take(n - 1));
        n = n - 1;
    }
    let r: String = slice_string(&out, 0, n);
    assert(r@ == out@.take(n as int));
    r
}

/// A text on a page, with its row and its column there.
#[derive(Debug, Clone, PartialEq)]
pub struct PageText {
    pub row: usize,
    pub col: usize,
    pub text: String,
}

pub open spec fn page_views(v: Seq<PageText>) -> Seq<(int, int, Seq<char>)> {
    Seq::new(v.len(), |i: int| (v[i].row as int, v[i].col as int, v[i].text@))
}

/// A text as a font shows it: the built-in one has Latin characters only, an embedded one shows the
/// text as it is.
pub open spec fn shown_text(s: Seq<char>, builtin: bool) -> Seq<char> {
    if builtin {
        latin_text(s)
    } else {
        s
    }
}

/// The texts of the first `n` cells of a row.
pub open spec fn row_texts(row: int, cells: Seq<Seq<char>>, builtin: bool, n: int) -> Seq<
    (int, int, Seq<char>),
>
    decreases n,
{
    if n <= 0 {
        Seq::empty()
    } else if shown_text(cells[n - 1], builtin).len() > 0 {
        row_texts(row, cells, builtin, n - 1).push(
            (row, n - 1, shown_text(cells[n - 1], builtin)),
        )
    } else {
        row_texts(row, cells, builtin, n - 1)
    }
}

/// The texts of the first `n` rows of a page.
pub open spec fn page_rows(rows: Seq<Seq<Seq<char>>>, builtin: bool, n: int) -> Seq<
    (int, int, Seq<char>),
>
    decreases n,
{
    if n <= 0 {
        Seq::empty()
    } else {
        page_rows(rows, builtin, n - 1) + row_texts(
            n - 1,
            rows[n - 1],
            builtin,
            rows[n - 1].len() as int,
        )
    }
}

/// The texts to print on a page, row by row, with the built-in font or with an embedded one. `rows`
/// are what its cells show; cells that show nothing in the font are left out.
pub fn page_texts(rows: &Vec<Vec<String>>, builtin: bool) -> (r: Vec<PageText>)
    ensures
        page_views(r@) == page_rows(crate::csv::text_rows(rows@), builtin, rows@.len() as int),
{
    let ghost all = crate::csv::text_rows(rows@);
    let mut out: Vec<PageText> = Vec::new();
    assert(page_views(out@) == page_rows(all, builtin, 0));
    let mut i: usize = 0;
    while i < rows.len()
        invariant
            i <= rows.len(),
            all == crate::csv::text_rows(rows@),
            page_views(out@) == page_rows(all, builtin, i as int),
        decreases rows.len() - i,
    {
        let row = &rows[i];
        let ghost cells = all[i as int];
        let ghost before = page_views(out@);
        assert(cells == crate::text::texts(row@));
        assert(before + row_texts(i as int, cells, builtin, 0) == before);
        let mut j: usize = 0;
        while j < row.len()
            invariant
                j <= row.len(),
                cells == crate::text::texts(row@),
                page_views(out@) == before + row_texts(i as int, cells, builtin, j as int),
            decreases row.len() - j,
        {
            let t: String = if builtin {
                sanitize_for_builtin(row[j].as_str())
            } else {
                row[j].clone()
            };
            assert(cells[j as int] == row@[j as int]@);
            let ghost now = page_views(out@);
            if !t.as_str().is_empty() {
                let ghost x = (i as int, j as int, t@);
                out.push(PageText { row: i, col: j, text: t });
                assert(page_views(out@) == now.push(x));
                assert(before + row_texts(i as int, cells, builtin, j as int).push(x) == (before + row_texts(
                    i as int,
                    cells,
                    builtin,
                    j as int,
                )).push(x));
            }
            j = j + 1;
        }
        i = i + 1;
    }
    out
}

} // verus!
