//! Cells of spreadsheet files are read back as they were written.
use crate::address::{addr, addr_round_trip, label_round_trip};
use crate::decimal::{dec, dec_round_trip, parse_unsigned_dec};
use crate::find_law::{
    attr_found, attr_missing, clear, clear_join, clear_without, element_found, element_missing,
    enclosed_found, enclosed_missing, find_missing, holds_records, key_of, record_full,
    record_short, records_none, unlike, value_clear, without,
};
use crate::numeral::{digits_end, is_number_text, is_plain_number, is_word, mantissa_end, sign_end};
use crate::scan::{attr_of, first_element, first_enclosed};
use crate::snapshot::{CellSnapshot, CellValue};
use crate::style::{empty_view, text_view, StyleView};
use crate::text::is_white;
use crate::token::{spec_is_digit, spec_is_letter};
use crate::xlsx::{cell_head, cell_xml, formula_type, formula_value, shared_of, style_attr};
use crate::xlsx_read::{cell_read, cell_value_read, holds, inline_text, CellView, ValueView};
use crate::xml::{esc_text, escape_round_trip, unescaped, Escape};
use vstd::prelude::*;

verus! {

// ---- plain texts

/// Whether a text is made of letters, digits, signs and points.
pub open spec fn plain(s: Seq<char>) -> bool {
    forall|i: int| 0 <= i < s.len() ==> plain_char(#[trigger] s[i])
}

pub open spec fn plain_char(c: char) -> bool {
    spec_is_digit(c) || spec_is_letter(c) || c == '+' || c == '-' || c == '.'
}

/// A plain text holds nothing that markup is made of.
pub proof fn plain_is_bare(s: Seq<char>)
    requires
        plain(s),
    ensures
        without(s, '<'),
        without(s, '>'),
        without(s, '"'),
        without(s, '='),
        without(s, '/'),
        without(s, ':'),
        s.len() > 0 ==> !is_white(s[0]) && s.last() != '/',
{
}

proof fn digits_to(s: Seq<char>, i: int)
    requires
        0 <= i <= s.len(),
    ensures
        i <= digits_end(s, i) <= s.len(),
        forall|k: int| i <= k < digits_end(s, i) ==> spec_is_digit(#[trigger] s[k]),
    decreases s.len() - i,
{
    if i < s.len() && spec_is_digit(s[i]) {
        digits_to(s, i + 1);
    }
}

proof fn words_are_plain()
    ensures
        plain("inf"@),
        plain("infinity"@),
        plain("nan"@),
        forall|i: int| 0 <= i < "inf"@.len() ==> 'a' <= #[trigger] "inf"@[i] <= 'z',
        forall|i: int| 0 <= i < "infinity"@.len() ==> 'a' <= #[trigger] "infinity"@[i] <= 'z',
        forall|i: int| 0 <= i < "nan"@.len() ==> 'a' <= #[trigger] "nan"@[i] <= 'z',
{
    reveal_strlit("inf");
    reveal_strlit("infinity");
    reveal_strlit("nan");
}

proof fn word_is_plain(s: Seq<char>, i: int, word: Seq<char>)
    requires
        0 <= i <= s.len(),
        is_word(s, i, word),
        forall|k: int| 0 <= k < word.len() ==> 'a' <= #[trigger] word[k] <= 'z',
    ensures
        forall|k: int| i <= k < s.len() ==> plain_char(#[trigger] s[k]),
{
    assert forall|k: int| i <= k < s.len() implies plain_char(#[trigger] s[k]) by {
        let j = k - i;
        assert(s[i + j] == word[j] || s[i + j] as int + 32 == word[j] as int);
        assert('a' <= word[j] <= 'z');
    }
}

/// A number is a plain text.
pub proof fn number_is_plain(s: Seq<char>)
    requires
        is_number_text(s),
    ensures
        plain(s),
        s.len() > 0,
{
    let i = sign_end(s, 0);
    words_are_plain();
    reveal_strlit("inf");
    reveal_strlit("infinity");
    reveal_strlit("nan");
    if is_plain_number(s) {
        let m = mantissa_end(s, i);
        digits_to(s, i);
        let a = digits_end(s, i);
        if a < s.len() && s[a] == '.' {
            digits_to(s, a + 1);
        }
        if m < s.len() {
            let k = sign_end(s, m + 1);
            digits_to(s, k);
        }
        assert forall|k: int| 0 <= k < s.len() implies plain_char(#[trigger] s[k]) by {}
    } else if is_word(s, i, "inf"@) {
        word_is_plain(s, i, "inf"@);
    } else if is_word(s, i, "infinity"@) {
        word_is_plain(s, i, "infinity"@);
    } else {
        word_is_plain(s, i, "nan"@);
    }
}

pub proof fn dec_is_plain(n: nat)
    ensures
        plain(dec(n)),
        dec(n).len() > 0,
{
    dec_round_trip(n);
}

pub proof fn addr_is_plain(row: nat, col: nat)
    ensures
        plain(addr(row, col)),
        addr(row, col).len() > 0,
{
    dec_round_trip(row + 1);
    label_round_trip(col);
}

/// An escaped text holds no markup.
pub proof fn escaped_is_bare(s: Seq<char>)
    ensures
        without(esc_text(s, Escape::Full), '<'),
        without(esc_text(s, Escape::Full), '>'),
        without(esc_text(s, Escape::Full), '"'),
    decreases s.len(),
{
    if s.len() > 0 {
        escaped_is_bare(s.drop_last());
        reveal_strlit("&amp;");
        reveal_strlit("&lt;");
        reveal_strlit("&gt;");
        reveal_strlit("&quot;");
        reveal_strlit("&apos;");
    }
}

// ---- attributes of cells

/// The type of a cell, as its attribute says it.
pub open spec fn type_of_cell(cell: CellSnapshot) -> Option<Seq<char>> {
    match cell.f {
        Some(_) => match cell.v {
            Some(CellValue::Text(t)) if t@.len() > 0 => Some("str"@),
            _ => None,
        },
        None => match cell.v {
            Some(CellValue::Bool(_)) => Some("b"@),
            Some(CellValue::Text(t)) if t@.len() > 0 => Some("s"@),
            _ => None,
        },
    }
}

pub open spec fn type_attr(t: Option<Seq<char>>) -> Seq<char> {
    match t {
        Some(t) => " t=\""@ + t + "\""@,
        None => Seq::empty(),
    }
}

/// The attributes of a cell.
pub open spec fn cell_attrs(row: nat, col: nat, s: nat, t: Option<Seq<char>>) -> Seq<char> {
    "r=\""@ + addr(row, col) + "\""@ + style_attr(s) + type_attr(t)
}

proof fn cell_literals()
    ensures
        key_of("r"@) == "r=\""@,
        key_of("s"@) == "s=\""@,
        key_of("t"@) == "t=\""@,
        " s=\""@ == " "@ + "s=\""@,
        " t=\""@ == " "@ + "t=\""@,
        clear("r=\""@, "s=\""@),
        clear("r=\""@, "t=\""@),
        clear(" "@, "s=\""@),
        clear(" "@, "t=\""@),
        clear(" s=\""@, "t=\""@),
        clear(" t=\""@, "s=\""@),
        "r"@.len() == 1,
        "s"@.len() == 1,
        "t"@.len() == 1,
        without("r"@, '"'),
        without("s"@, '"'),
        without("t"@, '"'),
{
    reveal_strlit("r");
    reveal_strlit("s");
    reveal_strlit("t");
    reveal_strlit(" ");
    reveal_strlit("=\"");
    reveal_strlit("r=\"");
    reveal_strlit("s=\"");
    reveal_strlit("t=\"");
    reveal_strlit(" s=\"");
    reveal_strlit(" t=\"");
    assert forall|p: int| 0 <= p < " s=\""@.len() implies #[trigger] unlike(" s=\""@, "t=\""@, p) by {
        assert(" s=\""@[p + 0] != "t=\""@[0]);
    }
    assert forall|p: int| 0 <= p < " t=\""@.len() implies #[trigger] unlike(" t=\""@, "s=\""@, p) by {
        assert(" t=\""@[p + 0] != "s=\""@[0]);
    }
    assert forall|p: int| 0 <= p < "r=\""@.len() implies #[trigger] unlike("r=\""@, "t=\""@, p) by {
        assert("r=\""@[p + 0] != "t=\""@[0]);
    }
    assert forall|p: int| 0 <= p < "r=\""@.len() implies #[trigger] unlike("r=\""@, "s=\""@, p) by {
        assert("r=\""@[p + 0] != "s=\""@[0]);
    }
    clear_without(" "@, "s=\""@);
    clear_without(" "@, "t=\""@);
}

/// The names of cell types.
pub open spec fn is_type(t: Seq<char>) -> bool {
    t == "s"@ || t == "b"@ || t == "str"@
}

proof fn type_is_plain(t: Seq<char>)
    requires
        is_type(t),
    ensures
        plain(t),
{
    reveal_strlit("s");
    reveal_strlit("b");
    reveal_strlit("str");
}

/// The attributes of a cell are read as they were written.
pub proof fn cell_attrs_read(row: nat, col: nat, s: nat, t: Option<Seq<char>>)
    requires
        t matches Some(x) ==> is_type(x),
    ensures
        ({
            let attrs = cell_attrs(row, col, s, t);
            &&& attr_of(attrs, "r"@) == Some(addr(row, col))
            &&& attr_of(attrs, "s"@) == (if s != 0 {
                Some(dec(s))
            } else {
                None
            })
            &&& attr_of(attrs, "t"@) == t
            &&& attrs.len() > 0
            &&& attrs[0] == 'r'
            &&& without(attrs, '>')
            &&& without(attrs, '<')
            &&& attrs.last() == '"'
        }),
{
    let a = addr(row, col);
    let attrs = cell_attrs(row, col, s, t);
    let q = "\""@;
    cell_literals();
    addr_is_plain(row, col);
    plain_is_bare(a);
    dec_is_plain(s);
    plain_is_bare(dec(s));
    reveal_strlit("\"");
    reveal_strlit("r=\"");
    reveal_strlit("s=\"");
    reveal_strlit("t=\"");
    reveal_strlit(" s=\"");
    reveal_strlit(" t=\"");
    match t {
        Some(x) => {
            type_is_plain(x);
            plain_is_bare(x);
        },
        None => {},
    }
    let st = style_attr(s);
    let ty = type_attr(t);
    let e = Seq::<char>::empty();
    assert(without(st, '>') && without(st, '<'));
    assert(without(ty, '>') && without(ty, '<'));
    // r
    clear_without(e, "r=\""@);
    attr_found(e, "r"@, a, st + ty);
    assert(attrs == e + "r=\""@ + a + q + (st + ty));
    // before the style
    value_clear(a, "s"@);
    value_clear(a, "t"@);
    let head = "r=\""@ + (a + q);
    clear_join("r=\""@, a + q, "s=\""@);
    clear_join("r=\""@, a + q, "t=\""@);
    assert(attrs == head + (st + ty));
    // s
    if s != 0 {
        clear_join(head, " "@, "s=\""@);
        attr_found(head + " "@, "s"@, dec(s), ty);
        assert(attrs == (head + " "@) + "s=\""@ + dec(s) + q + ty);
        value_clear(dec(s), "t"@);
        assert(st == " s=\""@ + (dec(s) + q));
        clear_join(" s=\""@, dec(s) + q, "t=\""@);
    } else {
        match t {
            Some(x) => {
                value_clear(x, "s"@);
                assert(ty == " t=\""@ + (x + q));
                clear_join(" t=\""@, x + q, "s=\""@);
            },
            None => {
                clear_without(ty, "s=\""@);
            },
        }
        assert(attrs == head + ty);
        clear_join(head, ty, "s=\""@);
        attr_missing(attrs, "s"@);
        clear_without(st, "t=\""@);
    }
    clear_join(head, st, "t=\""@);
    // t
    match t {
        Some(x) => {
            clear_join(head + st, " "@, "t=\""@);
            attr_found(head + st + " "@, "t"@, x, e);
            assert(attrs == (head + st + " "@) + "t=\""@ + x + q + e);
        },
        None => {
            assert(attrs == head + st);
            attr_missing(attrs, "t"@);
        },
    }
}

// ---- what stands in cells

/// What stands in the element of a cell.
pub open spec fn cell_inner(cell: CellSnapshot, si: nat) -> Seq<char> {
    match cell.f {
        Some(f) => "<f>"@ + esc_text(f@, Escape::Full) + "</f>"@ + formula_value(cell.v),
        None => match cell.v {
            Some(CellValue::Number(n)) => "<v>"@ + n@ + "</v>"@,
            Some(CellValue::Bool(b)) => if b {
                "<v>1</v>"@
            } else {
                "<v>0</v>"@
            },
            Some(CellValue::Text(t)) if t@.len() > 0 => "<v>"@ + dec(si) + "</v>"@,
            _ => Seq::empty(),
        },
    }
}

/// Whether a cell is written as an element with an inside.
pub open spec fn cell_full(cell: CellSnapshot) -> bool {
    cell.f is Some || (match cell.v {
        Some(CellValue::Text(t)) => t@.len() > 0,
        Some(_) => true,
        None => false,
    })
}

/// The attributes of a cell as it is written.
pub open spec fn attrs_of(cell: CellSnapshot, s: nat) -> Seq<char> {
    cell_attrs(cell.r as nat, cell.c as nat, s, type_of_cell(cell))
}

/// A cell is an element with attributes, or nothing at all.
pub proof fn cell_form(cell: CellSnapshot, s: nat, si: nat)
    ensures
        cell_xml(cell, s, si) == (if cell_full(cell) {
            "<c"@ + " "@ + attrs_of(cell, s) + ">"@ + cell_inner(cell, si) + "</c>"@
        } else if s != 0 {
            "<c"@ + " "@ + attrs_of(cell, s) + "/>"@
        } else {
            Seq::empty()
        }),
{
    reveal_strlit("<c r=\"");
    reveal_strlit("<c");
    reveal_strlit(" ");
    reveal_strlit("r=\"");
    reveal_strlit("\"");
    reveal_strlit("str");
    reveal_strlit("s");
    reveal_strlit("b");
    reveal_strlit(" t=\"");
    reveal_strlit(" t=\"str\"");
    reveal_strlit("><f>");
    reveal_strlit("><v>");
    reveal_strlit(">");
    reveal_strlit("<f>");
    reveal_strlit("<v>");
    reveal_strlit("</v>");
    reveal_strlit("</c>");
    reveal_strlit("</v></c>");
    reveal_strlit(" t=\"b\"><v>1</v></c>");
    reveal_strlit(" t=\"b\"><v>0</v></c>");
    reveal_strlit(" t=\"s\"><v>");
    reveal_strlit("<v>1</v>");
    reveal_strlit("<v>0</v>");
    let attrs = attrs_of(cell, s);
    let head = cell_head(cell, s);
    let ty = type_attr(type_of_cell(cell));
    assert("<c"@ + " "@ + attrs == head + ty);
    assert(" t=\""@ + "str"@ + "\""@ == " t=\"str\""@);
    let x = cell_xml(cell, s, si);
    match cell.f {
        Some(f) => {
            assert(ty == formula_type(cell.v));
            assert(x == (head + ty) + ">"@ + cell_inner(cell, si) + "</c>"@);
        },
        None => match cell.v {
            Some(CellValue::Number(n)) => {
                assert(x == (head + ty) + ">"@ + cell_inner(cell, si) + "</c>"@);
            },
            Some(CellValue::Bool(b)) => {
                assert(x == (head + ty) + ">"@ + cell_inner(cell, si) + "</c>"@);
            },
            Some(CellValue::Text(t)) => {
                if t@.len() > 0 {
                    assert(x == (head + ty) + ">"@ + cell_inner(cell, si) + "</c>"@);
                } else if s != 0 {
                    assert(x == (head + ty) + "/>"@);
                }
            },
            None => {
                if s != 0 {
                    assert(x == (head + ty) + "/>"@);
                }
            },
        },
    }
}

/// The value of a cell as it comes back: that of a formula that is a truth comes back as a
/// number, and an empty text as nothing.
pub open spec fn value_back(cell: CellSnapshot) -> Option<ValueView> {
    match cell.v {
        Some(CellValue::Number(n)) => Some(ValueView::Number(n@)),
        Some(CellValue::Bool(b)) => if cell.f is None {
            Some(ValueView::Bool(b))
        } else if b {
            Some(ValueView::Number("1"@))
        } else {
            Some(ValueView::Number("0"@))
        },
        Some(CellValue::Text(t)) => if t@.len() > 0 {
            Some(ValueView::Text(t@))
        } else {
            None
        },
        None => None,
    }
}

/// The style that the cell format `s` comes back as.
pub open spec fn style_back(s: nat, xf: Seq<StyleView>) -> Option<StyleView> {
    if s < xf.len() && xf[s as int] != empty_view() {
        Some(xf[s as int])
    } else {
        None
    }
}

/// A cell as it comes back.
pub open spec fn cell_back(cell: CellSnapshot, s: nat, xf: Seq<StyleView>) -> CellView {
    CellView {
        r: cell.r,
        c: cell.c,
        v: value_back(cell),
        f: text_view(cell.f),
        s: style_back(s, xf),
    }
}

/// Whether the numbers of a cell are numbers and its row has an address.
pub open spec fn cell_valid(cell: CellSnapshot) -> bool {
    cell.r < u32::MAX && (cell.v matches Some(CellValue::Number(n)) ==> is_number_text(n@))
}

/// The value of a cell without a formula as it is written.
pub open spec fn raw_value(cell: CellSnapshot, si: nat) -> Option<Seq<char>> {
    match cell.v {
        Some(CellValue::Number(n)) => Some(n@),
        Some(CellValue::Bool(b)) => Some(
            if b {
                "1"@
            } else {
                "0"@
            },
        ),
        Some(CellValue::Text(t)) => if t@.len() == 0 {
            None
        } else if cell.f is Some {
            Some(esc_text(t@, Escape::Full))
        } else {
            Some(dec(si))
        },
        None => None,
    }
}

pub open spec fn value_text(raw: Option<Seq<char>>) -> Seq<char> {
    match raw {
        Some(t) => "<v>"@ + t + "</v>"@,
        None => Seq::empty(),
    }
}

pub open spec fn formula_text(f: Option<String>) -> Seq<char> {
    match f {
        Some(f) => "<f>"@ + esc_text(f@, Escape::Full) + "</f>"@,
        None => Seq::empty(),
    }
}

pub proof fn inner_form(cell: CellSnapshot, si: nat)
    ensures
        cell_inner(cell, si) == formula_text(cell.f) + value_text(raw_value(cell, si)),
{
    reveal_strlit("<v>");
    reveal_strlit("</v>");
    reveal_strlit("<v>1</v>");
    reveal_strlit("<v>0</v>");
    reveal_strlit("1");
    reveal_strlit("0");
    assert("<v>"@ + "1"@ + "</v>"@ == "<v>1</v>"@);
    assert("<v>"@ + "0"@ + "</v>"@ == "<v>0</v>"@);
    let e = Seq::<char>::empty();
    let f = formula_text(cell.f);
    let v = value_text(raw_value(cell, si));
    assert(f + e == f);
    assert(e + v == v);
}

/// The patterns that are looked for in cells, and what they are laid over.
proof fn inner_literals()
    ensures
        clear("<f>"@, "<v>"@),
        clear("</f>"@, "<v>"@),
        clear("<f>"@, "<is>"@),
        clear("</f>"@, "<is>"@),
        clear("<v>"@, "<is>"@),
        clear("</v>"@, "<is>"@),
        clear("<v>"@, "<f"@),
        clear("</v>"@, "<f"@),
        clear("<f>"@, "</c>"@),
        clear("</f>"@, "</c>"@),
        clear("<v>"@, "</c>"@),
        clear("</v>"@, "</c>"@),
        "<f>"@ == "<f"@ + ">"@,
        "<v>"@[0] == '<',
        "</v>"@[0] == '<',
        "<f"@[0] == '<',
        "</f>"@[0] == '<',
        "</c>"@[0] == '<',
        "<is>"@[0] == '<',
        "<v>"@.len() == 3,
        "</v>"@.len() == 4,
        "<f"@.len() == 2,
        "</f>"@.len() == 4,
        "</c>"@.len() == 4,
        "<is>"@.len() == 4,
{
    reveal_strlit("<f>");
    reveal_strlit("<f");
    reveal_strlit(">");
    reveal_strlit("</f>");
    reveal_strlit("<v>");
    reveal_strlit("</v>");
    reveal_strlit("<is>");
    reveal_strlit("</c>");
    lit_clear("<f>"@, "<v>"@, 1);
    lit_clear("</f>"@, "<v>"@, 1);
    lit_clear("<f>"@, "<is>"@, 1);
    lit_clear("</f>"@, "<is>"@, 1);
    lit_clear("<v>"@, "<is>"@, 1);
    lit_clear("</v>"@, "<is>"@, 1);
    lit_clear("<v>"@, "<f"@, 1);
    lit_clear("</v>"@, "<f"@, 1);
    lit_clear("<f>"@, "</c>"@, 1);
    lit_clear("</f>"@, "</c>"@, 2);
    lit_clear("<v>"@, "</c>"@, 1);
    lit_clear("</v>"@, "</c>"@, 2);
}

/// A tag that differs from a pattern at `d`, where the pattern can start nowhere else.
pub proof fn lit_clear(s: Seq<char>, pat: Seq<char>, d: int)
    requires
        0 <= d < s.len(),
        d < pat.len(),
        s[d] != pat[d],
        forall|i: int| 1 <= i < s.len() ==> #[trigger] s[i] != pat[0],
    ensures
        clear(s, pat),
{
    assert forall|p: int| 0 <= p < s.len() implies #[trigger] unlike(s, pat, p) by {
        if p == 0 {
            assert(s[p + d] != pat[d]);
        } else {
            assert(s[p + 0] != pat[0]);
        }
    }
}

/// A bare text between two tags.
pub proof fn piece_clear(a: Seq<char>, t: Seq<char>, b: Seq<char>, pat: Seq<char>)
    requires
        pat.len() > 0,
        pat[0] == '<',
        clear(a, pat),
        without(t, '<'),
        clear(b, pat),
    ensures
        clear(a + t + b, pat),
{
    clear_without(t, pat);
    clear_join(a, t, pat);
    clear_join(a + t, b, pat);
}

pub proof fn raw_is_bare(cell: CellSnapshot, si: nat)
    requires
        cell_valid(cell),
    ensures
        raw_value(cell, si) matches Some(t) ==> without(t, '<'),
{
    reveal_strlit("1");
    reveal_strlit("0");
    match cell.v {
        Some(CellValue::Number(n)) => {
            number_is_plain(n@);
            plain_is_bare(n@);
        },
        Some(CellValue::Text(t)) => {
            escaped_is_bare(t@);
            dec_is_plain(si);
            plain_is_bare(dec(si));
        },
        _ => {},
    }
}

proof fn inner_clear(cell: CellSnapshot, si: nat, pat: Seq<char>)
    requires
        cell_valid(cell),
        pat == "</c>"@ || pat == "<is>"@,
    ensures
        clear(cell_inner(cell, si), pat),
        cell.f is None ==> clear(cell_inner(cell, si), "<f"@),
{
    inner_form(cell, si);
    inner_literals();
    raw_is_bare(cell, si);
    let f = formula_text(cell.f);
    let v = value_text(raw_value(cell, si));
    match cell.f {
        Some(x) => {
            escaped_is_bare(x@);
            piece_clear("<f>"@, esc_text(x@, Escape::Full), "</f>"@, pat);
        },
        None => {
            clear_without(f, pat);
            clear_without(f, "<f"@);
        },
    }
    match raw_value(cell, si) {
        Some(t) => {
            piece_clear("<v>"@, t, "</v>"@, pat);
            piece_clear("<v>"@, t, "</v>"@, "<f"@);
        },
        None => {
            clear_without(v, pat);
            clear_without(v, "<f"@);
        },
    }
    clear_join(f, v, pat);
    if cell.f is None {
        clear_join(f, v, "<f"@);
    }
}

/// The formula of a cell is read as it was written.
proof fn formula_read(cell: CellSnapshot, si: nat)
    requires
        cell_valid(cell),
    ensures
        (match first_element(cell_inner(cell, si), "<f"@, "</f>"@) {
            Some(t) => Some(unescaped(t)),
            None => None,
        }) == text_view(cell.f),
{
    inner_form(cell, si);
    inner_literals();
    let inner = cell_inner(cell, si);
    let e = Seq::<char>::empty();
    match cell.f {
        Some(x) => {
            let t = esc_text(x@, Escape::Full);
            let v = value_text(raw_value(cell, si));
            escaped_is_bare(x@);
            escape_round_trip(x@);
            clear_without(e, "<f"@);
            clear_without(t, "</f>"@);
            element_found(e, "<f"@, e, t, "</f>"@, v);
            assert(inner == e + "<f"@ + e + ">"@ + t + "</f>"@ + v);
        },
        None => {
            inner_clear(cell, si, "<is>"@);
            element_missing(inner, "<f"@, "</f>"@);
        },
    }
}

/// The text of the value of a cell is read as it was written.
proof fn raw_read(cell: CellSnapshot, si: nat)
    requires
        cell_valid(cell),
    ensures
        inline_text(cell_inner(cell, si)) is None,
        first_enclosed(cell_inner(cell, si), "<v>"@, "</v>"@) == raw_value(cell, si),
{
    inner_form(cell, si);
    inner_literals();
    raw_is_bare(cell, si);
    inner_clear(cell, si, "<is>"@);
    let inner = cell_inner(cell, si);
    find_missing(inner, "<is>"@, 0);
    let f = formula_text(cell.f);
    let e = Seq::<char>::empty();
    match cell.f {
        Some(x) => {
            escaped_is_bare(x@);
            piece_clear("<f>"@, esc_text(x@, Escape::Full), "</f>"@, "<v>"@);
        },
        None => {
            clear_without(f, "<v>"@);
        },
    }
    match raw_value(cell, si) {
        Some(t) => {
            clear_without(t, "</v>"@);
            enclosed_found(f, "<v>"@, t, "</v>"@, e);
            assert(inner == f + "<v>"@ + t + "</v>"@ + e);
        },
        None => {
            assert(inner == f);
            enclosed_missing(inner, "<v>"@, "</v>"@);
        },
    }
}

proof fn digits_are_numbers()
    ensures
        is_number_text("1"@),
        is_number_text("0"@),
        "1"@.len() == 1,
        "0"@.len() == 1,
        "1"@ != "0"@,
        "s"@ != "b"@,
        "s"@ != "str"@,
        "b"@ != "str"@,
{
    reveal_strlit("1");
    reveal_strlit("0");
    reveal_strlit("s");
    reveal_strlit("b");
    reveal_strlit("str");
    assert("s"@[0] == 's' && "b"@[0] == 'b');
    assert("s"@.len() == 1 && "b"@.len() == 1 && "str"@.len() == 3);
    assert("1"@[0] == '1' && "0"@[0] == '0');
    assert(digits_end("1"@, 1) == 1);
    assert(digits_end("1"@, 0) == 1);
    assert(digits_end("0"@, 1) == 1);
    assert(digits_end("0"@, 0) == 1);
    assert(mantissa_end("1"@, 0) == 1);
    assert(mantissa_end("0"@, 0) == 1);
}

/// The value of a cell comes back.
proof fn value_comes_back(cell: CellSnapshot, si: nat, sst: Seq<Seq<char>>)
    requires
        cell_valid(cell),
        si <= usize::MAX,
        shared_of(cell) matches Some(t) ==> si < sst.len() && sst[si as int] == t,
    ensures
        cell_value_read(cell_inner(cell, si), type_of_cell(cell), sst) == value_back(cell),
{
    raw_read(cell, si);
    digits_are_numbers();
    match cell.v {
        Some(CellValue::Number(n)) => {
            number_is_plain(n@);
        },
        Some(CellValue::Text(t)) => {
            escape_round_trip(t@);
            parse_unsigned_dec(si, usize::MAX as nat);
        },
        _ => {},
    }
}

/// A cell is read back as it was written.
proof fn cell_comes_back(
    cell: CellSnapshot,
    s: nat,
    si: nat,
    sst: Seq<Seq<char>>,
    xf: Seq<StyleView>,
)
    requires
        cell_valid(cell),
        s <= usize::MAX,
        si <= usize::MAX,
        shared_of(cell) matches Some(t) ==> si < sst.len() && sst[si as int] == t,
    ensures
        cell_read(attrs_of(cell, s), cell_inner(cell, si), sst, xf) == Some(cell_back(cell, s, xf)),
{
    let row = cell.r as nat;
    let col = cell.c as nat;
    cell_attrs_read(row, col, s, type_of_cell(cell));
    addr_round_trip(row, col);
    value_comes_back(cell, si, sst);
    formula_read(cell, si);
    parse_unsigned_dec(s, usize::MAX as nat);
}

/// The elements that a cell is written as.
pub open spec fn cell_records(cell: CellSnapshot, s: nat, si: nat) -> Seq<(Seq<char>, Seq<char>)> {
    if cell_full(cell) {
        seq![(attrs_of(cell, s), cell_inner(cell, si))]
    } else if s != 0 {
        seq![(attrs_of(cell, s), Seq::empty())]
    } else {
        Seq::empty()
    }
}

/// A cell as it is written holds its own element and nothing else.
pub proof fn cell_is_record(
    cell: CellSnapshot,
    s: nat,
    si: nat,
    sst: Seq<Seq<char>>,
    xf: Seq<StyleView>,
)
    requires
        cell_valid(cell),
        s <= usize::MAX,
        si <= usize::MAX,
        shared_of(cell) matches Some(t) ==> si < sst.len() && sst[si as int] == t,
    ensures
        holds_records(cell_xml(cell, s, si), "<c"@, "</c>"@, cell_records(cell, s, si)),
        cell_records(cell, s, si).len() > 0 ==> cell_read(
            cell_records(cell, s, si)[0].0,
            cell_records(cell, s, si)[0].1,
            sst,
            xf,
        ) == Some(cell_back(cell, s, xf)),
{
    cell_form(cell, s, si);
    cell_attrs_read(cell.r as nat, cell.c as nat, s, type_of_cell(cell));
    inner_clear(cell, si, "</c>"@);
    inner_literals();
    cell_comes_back(cell, s, si, sst, xf);
    reveal_strlit("<c");
    if cell_full(cell) {
        record_full("<c"@, attrs_of(cell, s), cell_inner(cell, si), "</c>"@);
    } else if s != 0 {
        assert(cell_inner(cell, si) == Seq::<char>::empty());
        record_short("<c"@, attrs_of(cell, s), "</c>"@);
    } else {
        clear_without(Seq::<char>::empty(), "<c"@);
        records_none(Seq::<char>::empty(), "<c"@, "</c>"@);
    }
}

} // verus!
