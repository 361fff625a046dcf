//! Reading the styles and the shared strings of spreadsheet files.
use crate::decimal::{parse_unsigned, read_unsigned};
use crate::numeral::{is_number_text, is_positive, number_text, positive};
use crate::scan::{
    all_enclosed, all_matches, at, attr, attr_of, block, contains_str, element, elements, enclosed,
    find, find_text, first_element, first_key_in_tag, first_match, first_short_tag, key_in_tag,
    occurs, pattern_at, quoted, quoted_text, short_tag, short_tags, stands_at, tag_start, white_end,
    Pattern,
};
use crate::style::{
    empty_view, text_view, BorderEdge, Borders, BordersView, EdgeView, Style, StyleView,
};
use crate::text::{chars_of, find_char, opt_pos, position_of, same_text, slice_string, texts, white};
use crate::xlsx_style::{
    border_from_xlsx, from_argb, h_from_xlsx, h_named, line_named, rgb, v_from_xlsx, v_named,
};
use crate::xml::{unesc, unescaped};
use vstd::prelude::*;

verus! {

/// What stands in the first element of a tag.
pub open spec fn block_opt(xml: Seq<char>, tag: Seq<char>) -> Option<Seq<char>> {
    first_element(xml, "<"@ + tag, "</"@ + tag + ">"@)
}

/// What stands in the first element of a tag; nothing where there is none.
pub open spec fn block_text(xml: Seq<char>, tag: Seq<char>) -> Seq<char> {
    match block_opt(xml, tag) {
        Some(t) => t,
        None => Seq::empty(),
    }
}

/// What stands in the first element of a tag; nothing where there is none.
pub fn block_or_empty(xml: &str, tag: &str) -> (r: String)
    ensures
        r@ == block_text(xml@, tag@),
{
    match block(xml, tag) {
        Some(t) => t,
        None => String::new(),
    }
}

// ---- shared strings

/// The text of a shared string: its runs one behind the other.
pub open spec fn runs_text(runs: Seq<Seq<char>>) -> Seq<char>
    decreases runs.len(),
{
    if runs.len() == 0 {
        Seq::empty()
    } else {
        runs_text(runs.drop_last()) + unescaped(runs.last())
    }
}

/// The texts of the shared strings.
pub open spec fn shared_texts(xml: Seq<char>) -> Seq<Seq<char>> {
    let items = all_enclosed(xml, "<si>"@, "</si>"@);
    Seq::new(items.len(), |i: int| runs_text(elements(items[i], "<t"@, "</t>"@)))
}

/// The texts of the shared strings that a file may have.
pub open spec fn shared_texts_of(xml: Option<Seq<char>>) -> Seq<Seq<char>> {
    match xml {
        Some(x) => shared_texts(x),
        None => Seq::empty(),
    }
}

fn enclosed_all(s: &Vec<char>, open_text: &str, close: &str) -> (r: Vec<String>)
    requires
        open_text@.len() > 0,
    ensures
        texts(r@) == all_enclosed(s@, open_text@, close@),
{
    let p = Pattern::Enclosed(chars_of(open_text), chars_of(close));
    let ghost f = |i: int| pattern_at(p, s@, i);
    let ghost g = |i: int| enclosed(s@, open_text@, close@, i);
    assert(f =~= g);
    all_matches(&p, s)
}

fn elements_all(s: &Vec<char>, open_tag: &str, close: &str) -> (r: Vec<String>)
    ensures
        texts(r@) == elements(s@, open_tag@, close@),
{
    let p = Pattern::Element(chars_of(open_tag), chars_of(close));
    let ghost f = |i: int| pattern_at(p, s@, i);
    let ghost g = |i: int| element(s@, open_tag@, close@, i);
    assert(f =~= g);
    all_matches(&p, s)
}

/// The attributes of the tags `<tag attrs/>` in a text.
pub fn short_tags_all(s: &Vec<char>, open_tag: &str) -> (r: Vec<String>)
    ensures
        texts(r@) == short_tags(s@, open_tag@),
{
    let p = Pattern::Short(chars_of(open_tag));
    let ghost f = |i: int| pattern_at(p, s@, i);
    let ghost g = |i: int| short_tag(s@, open_tag@, i);
    assert(f =~= g);
    all_matches(&p, s)
}

/// The value behind the last `key` in the first tag that has one.
pub fn key_in_tag_of(s: &Vec<char>, open_tag: &str, key: &str) -> (r: Option<String>)
    ensures
        match first_key_in_tag(s@, open_tag@, key@) {
            Some(t) => r matches Some(x) && x@ == t,
            None => r is None,
        },
{
    let p = Pattern::Key(chars_of(open_tag), chars_of(key));
    let ghost f = |i: int| pattern_at(p, s@, i);
    let ghost g = |i: int| key_in_tag(s@, open_tag@, key@, i);
    assert(f =~= g);
    first_match(&p, s)
}

/// Reads the shared strings.
pub fn parse_shared_strings(xml: Option<&str>) -> (r: Vec<String>)
    ensures
        texts(r@) == shared_texts_of(
            match xml {
                Some(x) => Some(x@),
                None => None,
            },
        ),
{
    let mut out: Vec<String> = Vec::new();
    let xml: &str = match xml {
        Some(x) => x,
        None => {
            assert(texts(out@) == Seq::<Seq<char>>::empty());
            return out;
        },
    };
    proof {
        reveal_strlit("<si>");
    }
    let chars: Vec<char> = chars_of(xml);
    let items: Vec<String> = enclosed_all(&chars, "<si>", "</si>");
    let ghost all = shared_texts(xml@);
    let mut i: usize = 0;
    while i < items.len()
        invariant
            i <= items.len(),
            texts(items@) == all_enclosed(xml@, "<si>"@, "</si>"@),
            all == shared_texts(xml@),
            out@.len() == i,
            forall|k: int| 0 <= k < i ==> #[trigger] out@[k]@ == all[k],
        decreases items.len() - i,
    {
        let item: Vec<char> = chars_of(items[i].as_str());
        assert(texts(items@)[i as int] == item@);
        let runs: Vec<String> = elements_all(&item, "<t", "</t>");
        let ghost rt = texts(runs@);
        let mut t: String = String::new();
        let mut j: usize = 0;
        while j < runs.len()
            invariant
                j <= runs.len(),
                rt == texts(runs@),
                t@ == runs_text(rt.take(j as int)),
            decreases runs.len() - j,
        {
            let u: String = unesc(runs[j].as_str());
            t.append(u.as_str());
            assert(rt.take(j + 1).drop_last() == rt.take(j as int));
            assert(rt.take(j + 1).last() == runs@[j as int]@);
            j = j + 1;
        }
        assert(rt.take(j as int) == rt);
        out.push(t);
        i = i + 1;
    }
    assert(texts(out@) == all);
    out
}

// ---- styles

/// The number formats that have numbers of their own.
pub open spec fn builtin_code(id: nat) -> Option<Seq<char>> {
    if id == 1 {
        Some("0"@)
    } else if id == 2 {
        Some("0.00"@)
    } else if id == 3 {
        Some("#,##0"@)
    } else if id == 4 || id == 44 {
        Some("#,##0.00"@)
    } else if id == 9 {
        Some("0%"@)
    } else if id == 10 {
        Some("0.00%"@)
    } else {
        None
    }
}

/// The number format that has a number of its own.
pub fn builtin_numfmt(id: u32) -> (r: Option<&'static str>)
    ensures
        match builtin_code(id as nat) {
            Some(t) => r matches Some(x) && x@ == t,
            None => r is None,
        },
{
    match id {
        1 => Some("0"),
        2 => Some("0.00"),
        3 => Some("#,##0"),
        4 => Some("#,##0.00"),
        9 => Some("0%"),
        10 => Some("0.00%"),
        44 => Some("#,##0.00"),
        _ => None,
    }
}

/// The unsigned number of an attribute.
pub open spec fn attr_number(tag: Seq<char>, name: Seq<char>, max: nat) -> Option<nat> {
    match attr_of(tag, name) {
        Some(t) => parse_unsigned(t, max),
        None => None,
    }
}

/// The unsigned number of an attribute.
pub fn number_attr(tag: &str, name: &str, max: u64) -> (r: Option<u64>)
    ensures
        match attr_number(tag@, name@, max as nat) {
            Some(n) => r matches Some(x) && x == n && n <= max,
            None => r is None,
        },
{
    match attr(tag, name) {
        Some(t) => {
            let chars: Vec<char> = chars_of(t.as_str());
            read_unsigned(&chars, max)
        },
        None => None,
    }
}

/// Whether an attribute has a value.
pub open spec fn attr_is(tag: Seq<char>, name: Seq<char>, value: Seq<char>) -> bool {
    attr_of(tag, name) == Some(value)
}

/// Whether an attribute has a value.
pub fn is_attr(tag: &str, name: &str, value: &str) -> (r: bool)
    ensures
        r == attr_is(tag@, name@, value@),
{
    match attr(tag, name) {
        Some(t) => same_text(t.as_str(), value),
        None => false,
    }
}

/// The number format of a number in a list of tags: that of the last tag.
pub open spec fn code_of(tags: Seq<Seq<char>>, id: nat) -> Option<Seq<char>>
    decreases tags.len(),
{
    if tags.len() == 0 {
        None
    } else {
        match attr_of(tags.last(), "formatCode"@) {
            Some(c) if attr_number(tags.last(), "numFmtId"@, 0xffff_ffff) == Some(id) => Some(
                unescaped(c),
            ),
            _ => code_of(tags.drop_last(), id),
        }
    }
}

/// Whether a tag stands in a text.
pub open spec fn has_tag(s: Seq<char>, a: Seq<char>, b: Seq<char>, c: Seq<char>) -> Option<bool> {
    if occurs(s, a) || occurs(s, b) || occurs(s, c) {
        Some(true)
    } else {
        None
    }
}

/// The font that is written as `f`.
pub open spec fn font_read(f: Seq<char>) -> StyleView {
    StyleView {
        bold: has_tag(f, "<b/>"@, "<b>"@, "<b "@),
        italic: has_tag(f, "<i/>"@, "<i>"@, "<i "@),
        underline: has_tag(f, "<u/>"@, "<u>"@, "<u "@),
        strikethrough: has_tag(f, "<strike/>"@, "<strike>"@, "<strike "@),
        font_size: match quoted(f, "<sz val=\""@) {
            Some(t) if is_number_text(t) => Some(t),
            _ => None,
        },
        font_family: match quoted(f, "<name val=\""@) {
            Some(t) => Some(unescaped(t)),
            None => None,
        },
        fore_color: match first_key_in_tag(f, "<color"@, "rgb=\""@) {
            Some(t) => rgb(t),
            None => None,
        },
        ..empty_view()
    }
}

/// The colour of the fill that is written as `f`.
pub open spec fn fill_read(f: Seq<char>) -> Option<Seq<char>> {
    if quoted(f, "patternType=\""@) == Some("solid"@) {
        match first_key_in_tag(f, "<fgColor"@, "rgb=\""@) {
            Some(t) => rgb(t),
            None => None,
        }
    } else {
        None
    }
}

/// The side of a border that is written at `i`: its style, and its colour if it has one.
pub open spec fn edge_at(s: Seq<char>, open_tag: Seq<char>, i: int) -> Option<EdgeView> {
    match tag_start(s, open_tag, i) {
        None => None,
        Some(a) => if at(s, "style=\""@, a) {
            let k = a + "style=\""@.len();
            match find_char(s, '"', k) {
                None => None,
                Some(q) => match find_char(s, '>', q + 1) {
                    None => None,
                    Some(g) => Some(
                        EdgeView {
                            style: line_named(s.subrange(k, q)),
                            color: match key_in_tag(s, "<color"@, "rgb=\""@, g + 1) {
                                Some(h) => match rgb(s.subrange(h.a, h.b)) {
                                    Some(c) => c,
                                    None => "#000"@,
                                },
                                None => "#000"@,
                            },
                        },
                    ),
                },
            }
        } else {
            None
        },
    }
}

/// The side of a border that is first written from `i` on.
pub open spec fn edge_read(s: Seq<char>, open_tag: Seq<char>, i: int) -> Option<EdgeView>
    decreases s.len() - i,
{
    if i >= s.len() {
        None
    } else {
        match edge_at(s, open_tag, i) {
            Some(e) => Some(e),
            None => edge_read(s, open_tag, i + 1),
        }
    }
}

/// The border that is written as `s`; none where no side is.
pub open spec fn border_read(s: Seq<char>) -> Option<BordersView> {
    let b = BordersView {
        left: edge_read(s, "<left"@, 0),
        right: edge_read(s, "<right"@, 0),
        top: edge_read(s, "<top"@, 0),
        bottom: edge_read(s, "<bottom"@, 0),
        diagonal_down: None,
        diagonal_up: None,
    };
    if b.left is Some || b.right is Some || b.top is Some || b.bottom is Some {
        Some(b)
    } else {
        None
    }
}

/// An element with attributes: where they start and end, where its inside starts and ends, and
/// where it ends. An element that closes itself has nothing inside.
pub struct Rec {
    pub a: int,
    pub e: int,
    pub b: int,
    pub c: int,
    pub end: int,
}

/// The element with attributes at `i`.
pub open spec fn record_at(s: Seq<char>, open_tag: Seq<char>, close: Seq<char>, i: int) -> Option<Rec> {
    match tag_start(s, open_tag, i) {
        None => None,
        Some(a) => match find_char(s, '>', a) {
            None => None,
            Some(g) => if g > a && s[g - 1] == '/' {
                Some(Rec { a, e: g - 1, b: g, c: g, end: g + 1 })
            } else {
                match find(s, close, g + 1) {
                    None => None,
                    Some(c) => Some(Rec { a, e: g, b: g + 1, c, end: c + close.len() }),
                }
            },
        },
    }
}

/// The elements with attributes of a text from `i` on: the attributes and what stands inside.
pub open spec fn records(s: Seq<char>, open_tag: Seq<char>, close: Seq<char>, i: int) -> Seq<
    (Seq<char>, Seq<char>),
>
    decreases s.len() - i,
{
    if i >= s.len() {
        Seq::empty()
    } else {
        match record_at(s, open_tag, close, i) {
            Some(r) => if i < r.end <= s.len() {
                seq![(s.subrange(r.a, r.e), s.subrange(r.b, r.c))] + records(s, open_tag, close, r.end)
            } else {
                Seq::empty()
            },
            None => records(s, open_tag, close, i + 1),
        }
    }
}

/// What tables of styles hold.
pub struct StyleTables {
    pub codes: Seq<Seq<char>>,
    pub fonts: Seq<Seq<char>>,
    pub fills: Seq<Seq<char>>,
    pub borders: Seq<Seq<char>>,
}

/// The tables in a text.
pub open spec fn tables_read(xml: Seq<char>) -> StyleTables {
    StyleTables {
        codes: short_tags(xml, "<numFmt"@),
        fonts: all_enclosed(block_text(xml, "fonts"@), "<font>"@, "</font>"@),
        fills: all_enclosed(block_text(xml, "fills"@), "<fill>"@, "</fill>"@),
        borders: elements(block_text(xml, "borders"@), "<border"@, "</border>"@),
    }
}

/// The number of an attribute; 0 where it has none.
pub open spec fn attr_id(tag: Seq<char>, name: Seq<char>, max: nat) -> nat {
    match attr_number(tag, name, max) {
        Some(n) => n,
        None => 0,
    }
}

/// The number format of a number; none for 0.
pub open spec fn format_read(t: StyleTables, id: nat) -> Option<Seq<char>> {
    if id == 0 {
        None
    } else {
        match code_of(t.codes, id) {
            Some(c) => Some(c),
            None => builtin_code(id),
        }
    }
}

/// The alignment that is written in a cell format, put over a style.
pub open spec fn align_read(st: StyleView, inner: Seq<char>) -> StyleView {
    match first_short_tag(inner, "<alignment"@) {
        None => st,
        Some(al) => StyleView {
            h_align: match attr_of(al, "horizontal"@) {
                Some(h) => h_named(h),
                None => None,
            },
            v_align: match attr_of(al, "vertical"@) {
                Some(v) => v_named(v),
                None => None,
            },
            word_wrap: if attr_is(al, "wrapText"@, "1"@) {
                Some(true)
            } else {
                None
            },
            indent: match attr_of(al, "indent"@) {
                Some(t) if is_number_text(t) && is_positive(t) => Some(t),
                _ => None,
            },
            shrink_to_fit: if attr_is(al, "shrinkToFit"@, "1"@) {
                Some(true)
            } else {
                None
            },
            ..st
        },
    }
}

/// The style that a cell format stands for.
pub open spec fn xf_read(t: StyleTables, attrs: Seq<char>, inner: Seq<char>) -> StyleView {
    let font = attr_id(attrs, "fontId"@, usize::MAX as nat);
    let fill = attr_id(attrs, "fillId"@, usize::MAX as nat);
    let border = attr_id(attrs, "borderId"@, usize::MAX as nat);
    let base = if font != 0 && font < t.fonts.len() {
        font_read(t.fonts[font as int])
    } else {
        empty_view()
    };
    let st = StyleView {
        back_color: if fill != 0 && fill < t.fills.len() {
            fill_read(t.fills[fill as int])
        } else {
            None
        },
        borders: if border != 0 && border < t.borders.len() {
            border_read(t.borders[border as int])
        } else {
            None
        },
        formatter: format_read(t, attr_id(attrs, "numFmtId"@, 0xffff_ffff)),
        ..base
    };
    StyleView {
        locked: if occurs(inner, "locked=\"0\""@) {
            Some(false)
        } else {
            None
        },
        ..align_read(st, inner)
    }
}

/// The styles of the cell formats of a file; one that says nothing where it has none.
pub open spec fn xfs_read(xml: Option<Seq<char>>) -> Seq<StyleView> {
    match xml {
        None => seq![empty_view()],
        Some(x) => {
            let t = tables_read(x);
            let recs = records(block_text(x, "cellXfs"@), "<xf"@, "</xf>"@, 0);
            if recs.len() == 0 {
                seq![empty_view()]
            } else {
                Seq::new(recs.len(), |i: int| xf_read(t, recs[i].0, recs[i].1))
            }
        },
    }
}

/// An element with attributes.
pub struct Record {
    pub attrs: String,
    pub inner: String,
}

pub open spec fn record_texts(v: Seq<Record>) -> Seq<(Seq<char>, Seq<char>)> {
    Seq::new(v.len(), |i: int| (v[i].attrs@, v[i].inner@))
}

/// The elements with attributes of a text.
pub fn records_of(text: &str, open_tag: &str, close: &str) -> (r: Vec<Record>)
    ensures
        record_texts(r@) == records(text@, open_tag@, close@, 0),
{
    let s: Vec<char> = chars_of(text);
    let t: Vec<char> = chars_of(open_tag);
    let c: Vec<char> = chars_of(close);
    let ghost all = records(s@, t@, c@, 0);
    let mut out: Vec<Record> = Vec::new();
    let mut i: usize = 0;
    assert(record_texts(out@) + records(s@, t@, c@, 0) == all);
    while i < s.len()
        invariant
            i <= s.len(),
            record_texts(out@) + records(s@, t@, c@, i as int) == all,
        decreases s.len() - i,
    {
        match record_found(&s, &t, &c, i) {
            Some(r) => {
                let attrs: String = slice_string(&s, r.0, r.1);
                let inner: String = slice_string(&s, r.2, r.3);
                let ghost before = record_texts(out@);
                let ghost x = (attrs@, inner@);
                out.push(Record { attrs, inner });
                assert(record_texts(out@) == before.push(x));
                let ghost rest = records(s@, t@, c@, r.4 as int);
                assert(before + (seq![x] + rest) == before.push(x) + rest);
                i = r.4;
            },
            None => {
                i = i + 1;
            },
        }
    }
    assert(record_texts(out@) + Seq::<(Seq<char>, Seq<char>)>::empty() == record_texts(out@));
    out
}

fn tag_start_in(s: &Vec<char>, open_tag: &Vec<char>, i: usize) -> (r: Option<usize>)
    requires
        i < s.len(),
    ensures
        opt_pos(r) == tag_start(s@, open_tag@, i as int),
        r matches Some(a) ==> i < a <= s.len(),
{
    if !stands_at(s, open_tag, i) {
        return None;
    }
    let k: usize = i + open_tag.len();
    if !(k < s.len() && white(s[k])) {
        return None;
    }
    let mut a: usize = k + 1;
    while a < s.len() && white(s[a])
        invariant
            k + 1 <= a <= s.len(),
            white_end(s@, k as int) == white_end(s@, a as int),
        decreases s.len() - a,
    {
        a = a + 1;
    }
    Some(a)
}

fn record_found(s: &Vec<char>, open_tag: &Vec<char>, close: &Vec<char>, i: usize) -> (r: Option<
    (usize, usize, usize, usize, usize),
>)
    requires
        i < s.len(),
    ensures
        match record_at(s@, open_tag@, close@, i as int) {
            Some(x) => r matches Some(y) && x == (Rec {
                a: y.0 as int,
                e: y.1 as int,
                b: y.2 as int,
                c: y.3 as int,
                end: y.4 as int,
            }),
            None => r is None,
        },
        r matches Some(y) ==> y.0 <= y.1 <= s.len() && y.2 <= y.3 <= s.len() && i < y.4 <= s.len(),
{
    let a: usize = match tag_start_in(s, open_tag, i) {
        Some(a) => a,
        None => {
            return None;
        },
    };
    match position_of(s, '>', a) {
        Some(g) => {
            if g > a && s[g - 1] == '/' {
                Some((a, g - 1, g, g, g + 1))
            } else {
                match find_text(s, close, g + 1) {
                    Some(c) => Some((a, g, g + 1, c, c + close.len())),
                    None => None,
                }
            }
        },
        None => None,
    }
}

/// The attributes of the first tag `<tag attrs/>` in a text.
pub fn short_tag_of(text: &str, open_tag: &str) -> (r: Option<String>)
    ensures
        match first_short_tag(text@, open_tag@) {
            Some(t) => r matches Some(x) && x@ == t,
            None => r is None,
        },
{
    let p = Pattern::Short(chars_of(open_tag));
    let s: Vec<char> = chars_of(text);
    let ghost f = |i: int| pattern_at(p, s@, i);
    let ghost g = |i: int| short_tag(s@, open_tag@, i);
    assert(f =~= g);
    first_match(&p, &s)
}

fn tag_flag(s: &Vec<char>, a: &str, b: &str, c: &str) -> (r: Option<bool>)
    ensures
        r == has_tag(s@, a@, b@, c@),
{
    if contains_str(s, a) || contains_str(s, b) || contains_str(s, c) {
        Some(true)
    } else {
        None
    }
}

fn parse_font(f: &str) -> (r: Style)
    ensures
        r@ == font_read(f@),
{
    let s: Vec<char> = chars_of(f);
    let mut st: Style = Style::default();
    st.bold = tag_flag(&s, "<b/>", "<b>", "<b ");
    st.italic = tag_flag(&s, "<i/>", "<i>", "<i ");
    st.underline = tag_flag(&s, "<u/>", "<u>", "<u ");
    st.strikethrough = tag_flag(&s, "<strike/>", "<strike>", "<strike ");
    if let Some(t) = quoted_text(f, "<sz val=\"") {
        if number_text(t.as_str()) {
            st.font_size = Some(t);
        }
    }
    if let Some(t) = quoted_text(f, "<name val=\"") {
        st.font_family = Some(unesc(t.as_str()));
    }
    if let Some(t) = key_in_tag_of(&s, "<color", "rgb=\"") {
        st.fore_color = from_argb(Some(t.as_str()));
    }
    st
}

fn parse_fill(f: &str) -> (r: Option<String>)
    ensures
        text_view(r) == fill_read(f@),
{
    let solid = match quoted_text(f, "patternType=\"") {
        Some(t) => same_text(t.as_str(), "solid"),
        None => false,
    };
    if !solid {
        return None;
    }
    let s: Vec<char> = chars_of(f);
    match key_in_tag_of(&s, "<fgColor", "rgb=\"") {
        Some(t) => from_argb(Some(t.as_str())),
        None => None,
    }
}

fn color_at(s: &Vec<char>, i: usize) -> (r: String)
    requires
        i <= s.len(),
    ensures
        r@ == (match key_in_tag(s@, "<color"@, "rgb=\""@, i as int) {
            Some(h) => match rgb(s@.subrange(h.a, h.b)) {
                Some(c) => c,
                None => "#000"@,
            },
            None => "#000"@,
        }),
{
    let t: Vec<char> = chars_of("<color");
    let k: Vec<char> = chars_of("rgb=\"");
    if i < s.len() {
        let p = Pattern::Key(t, k);
        if let Some(h) = crate::scan::match_at(&p, s, i) {
            let text: String = slice_string(s, h.a, h.b);
            return match from_argb(Some(text.as_str())) {
                Some(c) => c,
                None => "#000".to_string(),
            };
        }
    } else {
        proof {
            reveal_strlit("<color");
        }
        assert(!at(s@, "<color"@, i as int));
    }
    "#000".to_string()
}

fn parse_edge(s: &Vec<char>, open_tag: &str) -> (r: Option<BorderEdge>)
    ensures
        crate::style::edge_view(r) == edge_read(s@, open_tag@, 0),
{
    let t: Vec<char> = chars_of(open_tag);
    let key: Vec<char> = chars_of("style=\"");
    let mut i: usize = 0;
    while i < s.len()
        invariant
            i <= s.len(),
            t@ == open_tag@,
            key@ == "style=\""@,
            edge_read(s@, open_tag@, 0) == edge_read(s@, open_tag@, i as int),
        decreases s.len() - i,
    {
        if let Some(a) = tag_start_in(s, &t, i) {
            if stands_at(s, &key, a) {
                let k: usize = a + key.len();
                if let Some(q) = position_of(s, '"', k) {
                    if let Some(g) = position_of(s, '>', q + 1) {
                        let name: String = slice_string(s, k, q);
                        let color: String = color_at(s, g + 1);
                        let e = BorderEdge { style: border_from_xlsx(name.as_str()), color };
                        assert(edge_at(s@, open_tag@, i as int) == crate::style::edge_view(Some(e)));
                        return Some(e);
                    }
                }
            }
        }
        assert(edge_at(s@, open_tag@, i as int) is None);
        i = i + 1;
    }
    None
}

/// Reads a border; none where no side is written.
pub fn parse_border_xml(inner: &str) -> (r: Option<Borders>)
    ensures
        crate::style::borders_view(r) == border_read(inner@),
{
    let s: Vec<char> = chars_of(inner);
    let b = Borders {
        left: parse_edge(&s, "<left"),
        right: parse_edge(&s, "<right"),
        top: parse_edge(&s, "<top"),
        bottom: parse_edge(&s, "<bottom"),
        diagonal_down: None,
        diagonal_up: None,
    };
    if b.left.is_some() || b.right.is_some() || b.top.is_some() || b.bottom.is_some() {
        Some(b)
    } else {
        None
    }
}

fn find_code(tags: &Vec<String>, id: u64) -> (r: Option<String>)
    ensures
        text_view(r) == code_of(texts(tags@), id as nat),
{
    let ghost all = texts(tags@);
    let mut i: usize = tags.len();
    assert(all.take(i as int) == all);
    while i > 0
        invariant
            i <= tags.len(),
            all == texts(tags@),
            code_of(all, id as nat) == code_of(all.take(i as int), id as nat),
        decreases i,
    {
        i = i - 1;
        assert(all.take(i + 1).drop_last() == all.take(i as int));
        assert(all.take(i + 1).last() == tags@[i as int]@);
        if let Some(c) = attr(tags[i].as_str(), "formatCode") {
            if let Some(n) = number_attr(tags[i].as_str(), "numFmtId", 0xffff_ffff) {
                if n == id {
                    return Some(unesc(c.as_str()));
                }
            }
        }
    }
    None
}

fn id_attr(tag: &str, name: &str, max: u64) -> (r: u64)
    ensures
        r == attr_id(tag@, name@, max as nat),
        r <= max,
{
    match number_attr(tag, name, max) {
        Some(n) => n,
        None => 0,
    }
}

fn apply_alignment(st: Style, inner: &str) -> (r: Style)
    requires
        st.h_align is None,
        st.v_align is None,
        st.word_wrap is None,
        st.indent is None,
        st.shrink_to_fit is None,
    ensures
        r@ == align_read(st@, inner@),
{
    let mut out = st;
    if let Some(al) = short_tag_of(inner, "<alignment") {
        if let Some(h) = attr(al.as_str(), "horizontal") {
            out.h_align = h_from_xlsx(h.as_str());
        }
        if let Some(v) = attr(al.as_str(), "vertical") {
            out.v_align = v_from_xlsx(v.as_str());
        }
        if is_attr(al.as_str(), "wrapText", "1") {
            out.word_wrap = Some(true);
        }
        if let Some(t) = attr(al.as_str(), "indent") {
            if number_text(t.as_str()) && positive(t.as_str()) {
                out.indent = Some(t);
            }
        }
        if is_attr(al.as_str(), "shrinkToFit", "1") {
            out.shrink_to_fit = Some(true);
        }
    }
    out
}

fn parse_xf(
    rec: &Record,
    codes: &Vec<String>,
    fonts: &Vec<String>,
    fills: &Vec<String>,
    borders: &Vec<String>,
) -> (r: Style)
    ensures
        r@ == xf_read(
            StyleTables {
                codes: texts(codes@),
                fonts: texts(fonts@),
                fills: texts(fills@),
                borders: texts(borders@),
            },
            rec.attrs@,
            rec.inner@,
        ),
{
    let max: u64 = usize::MAX as u64;
    let a: &str = rec.attrs.as_str();
    let font: u64 = id_attr(a, "fontId", max);
    let fill: u64 = id_attr(a, "fillId", max);
    let border: u64 = id_attr(a, "borderId", max);
    let fmt: u64 = id_attr(a, "numFmtId", 0xffff_ffff);
    let mut st: Style = if font != 0 && font < fonts.len() as u64 {
        parse_font(fonts[font as usize].as_str())
    } else {
        Style::default()
    };
    if fill != 0 && fill < fills.len() as u64 {
        st.back_color = parse_fill(fills[fill as usize].as_str());
    }
    if border != 0 && border < borders.len() as u64 {
        st.borders = parse_border_xml(borders[border as usize].as_str());
    }
    if fmt != 0 {
        match find_code(codes, fmt) {
            Some(c) => {
                st.formatter = Some(c);
            },
            None => {
                if let Some(c) = builtin_numfmt(fmt as u32) {
                    st.formatter = Some(c.to_string());
                }
            },
        }
    }
    let mut out: Style = apply_alignment(st, rec.inner.as_str());
    let inner: Vec<char> = chars_of(rec.inner.as_str());
    if contains_str(&inner, "locked=\"0\"") {
        out.locked = Some(false);
    }
    out
}

/// The styles of the cell formats of a file.
pub struct ParsedStyles {
    pub xf: Vec<Style>,
}

pub open spec fn style_views(v: Seq<Style>) -> Seq<StyleView> {
    Seq::new(v.len(), |i: int| v[i]@)
}

/// Reads the styles of the cell formats.
pub fn parse_styles(xml: Option<&str>) -> (r: ParsedStyles)
    ensures
        style_views(r.xf@) == xfs_read(
            match xml {
                Some(x) => Some(x@),
                None => None,
            },
        ),
{
    let mut xf: Vec<Style> = Vec::new();
    let xml: &str = match xml {
        Some(x) => x,
        None => {
            xf.push(Style::default());
            assert(style_views(xf@) == seq![empty_view()]);
            return ParsedStyles { xf };
        },
    };
    proof {
        reveal_strlit("<font>");
        reveal_strlit("<fill>");
    }
    let chars: Vec<char> = chars_of(xml);
    let codes: Vec<String> = short_tags_all(&chars, "<numFmt");
    let fonts_block: Vec<char> = chars_of(block_or_empty(xml, "fonts").as_str());
    let fonts: Vec<String> = enclosed_all(&fonts_block, "<font>", "</font>");
    let fills_block: Vec<char> = chars_of(block_or_empty(xml, "fills").as_str());
    let fills: Vec<String> = enclosed_all(&fills_block, "<fill>", "</fill>");
    let borders_block: Vec<char> = chars_of(block_or_empty(xml, "borders").as_str());
    let borders: Vec<String> = elements_all(&borders_block, "<border", "</border>");
    let xfs: String = block_or_empty(xml, "cellXfs");
    let recs: Vec<Record> = records_of(xfs.as_str(), "<xf", "</xf>");
    let ghost t = tables_read(xml@);
    let ghost all = record_texts(recs@);
    let mut i: usize = 0;
    while i < recs.len()
        invariant
            i <= recs.len(),
            all == record_texts(recs@),
            t == (StyleTables {
                codes: texts(codes@),
                fonts: texts(fonts@),
                fills: texts(fills@),
                borders: texts(borders@),
            }),
            xf@.len() == i,
            forall|k: int| 0 <= k < i ==> #[trigger] xf@[k]@ == xf_read(t, all[k].0, all[k].1),
        decreases recs.len() - i,
    {
        let st: Style = parse_xf(&recs[i], &codes, &fonts, &fills, &borders);
        assert(all[i as int] == (recs@[i as int].attrs@, recs@[i as int].inner@));
        xf.push(st);
        i = i + 1;
    }
    if xf.len() == 0 {
        xf.push(Style::default());
        assert(style_views(xf@) == seq![empty_view()]);
        assert(all.len() == 0);
    } else {
        assert(style_views(xf@) == Seq::new(all.len(), |k: int| xf_read(t, all[k].0, all[k].1)));
    }
    ParsedStyles { xf }
}

} // verus!
