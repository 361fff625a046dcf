//! What the styles of cells keep when they are written to a spreadsheet file and read back.
use crate::align_law::xf_inner;
use crate::book_round::short_tagless;
use crate::border_law::{
    border_clear, border_form, border_inner, border_inner_ends, element_one, elements_join,
    elements_none, elements_whole, holds_elements,
};
use crate::cell_law::{dec_is_plain, plain_is_bare};
use crate::decimal::dec;
use crate::find_law::{
    clear, clear_join, clear_without, element_found, holds_records, holds_short, records_join,
    records_none, records_whole, short_join, short_none, short_whole, unlike, without, without_join,
};
use crate::font_law::{
    base_fill, base_fills, clear_four, fill_clear, fill_form, fill_inner, fill_inner_ends,
    font_clear, font_form, font_inner, font_inner_ends, font_ok, signs_clear, table_literals,
};
use crate::format_law::{code_tags, codes_hold, format_attrs, format_is_record, format_text};
use crate::scan::{all_enclosed, elements, short_tags};
use crate::strings_law::{enclosed_join, enclosed_none, enclosed_one, holds_enclosed};
use crate::style::{empty_style, Borders, Style};
use crate::text::{cat, is_white};
use crate::xlsx_style::{
    align_text, base_tables, border_xml, codes_xml, fill_xml, font_xml, styles_xml, xf_key,
    xml_decl, Ids, Tables,
};
use crate::xlsx_styles_read::{block_text, records, tables_read, StyleTables};
use vstd::prelude::*;

verus! {

// ---- tables and what they are made from

/// What the tables of a file's styles are made from.
pub struct Sources {
    pub fonts: Seq<Style>,
    pub fills: Seq<Seq<char>>,
    pub borders: Seq<Borders>,
    pub formats: Seq<(Ids, Style)>,
}

pub open spec fn font_texts(l: Seq<Style>) -> Seq<Seq<char>> {
    Seq::new(l.len(), |i: int| font_xml(l[i]))
}

/// The fills of colours, behind the two that every file has.
pub open spec fn fill_texts(l: Seq<Seq<char>>) -> Seq<Seq<char>> {
    base_tables().fills + Seq::new(l.len(), |i: int| fill_xml(l[i]))
}

pub open spec fn border_texts(l: Seq<Borders>) -> Seq<Seq<char>> {
    Seq::new(l.len(), |i: int| border_xml(l[i]))
}

pub open spec fn format_texts(l: Seq<(Ids, Style)>) -> Seq<Seq<char>> {
    Seq::new(l.len(), |i: int| format_text(l[i].0, l[i].1))
}

/// What tells cell formats apart, from the second on.
pub open spec fn format_keys(l: Seq<(Ids, Style)>) -> Seq<Seq<char>> {
    Seq::new(
        (l.len() - 1) as nat,
        |i: int| xf_key(l[i + 1].0, align_text(l[i + 1].1), l[i + 1].1.locked == Some(false)),
    )
}

/// Whether tables are made from fonts, colours, borders and formats.
pub open spec fn made_from(t: Tables, m: Sources) -> bool {
    &&& t.fonts == font_texts(m.fonts)
    &&& m.fonts.len() > 0
    &&& forall|i: int| 0 <= i < m.fonts.len() ==> font_ok(#[trigger] m.fonts[i])
    &&& t.fonts[0] == base_tables().fonts[0]
    &&& t.fills == fill_texts(m.fills)
    &&& t.borders == border_texts(m.borders)
    &&& m.borders.len() > 0
    &&& t.borders[0] == base_tables().borders[0]
    &&& forall|i: int| 0 <= i < t.codes.len() ==> without(#[trigger] t.codes[i], '/')
    &&& t.xfs == format_texts(m.formats)
    &&& m.formats.len() > 0
    &&& m.formats[0] == (no_ids(), empty_style())
    &&& t.keys == format_keys(m.formats)
}

pub open spec fn no_ids() -> Ids {
    Ids { num_fmt: 0, font: 0, fill: 0, border: 0 }
}

/// Whether tables are such as styles make them.
pub open spec fn proper(t: Tables) -> bool {
    exists|m: Sources| made_from(t, m)
}

/// Whether the size of a style's font is a number and its number format holds no `/`.
pub open spec fn style_ok(s: Style) -> bool {
    font_ok(s) && (s.formatter matches Some(c) ==> without(c@, '/'))
}

// ---- tables as lists

proof fn cat_clear(parts: Seq<Seq<char>>, pat: Seq<char>)
    requires
        pat.len() > 0,
        forall|i: int| 0 <= i < parts.len() ==> clear(#[trigger] parts[i], pat),
    ensures
        clear(cat(parts), pat),
    decreases parts.len(),
{
    if parts.len() == 0 {
        clear_without(Seq::empty(), pat);
    } else {
        let p = parts.drop_last();
        assert forall|i: int| 0 <= i < p.len() implies clear(#[trigger] p[i], pat) by {
            assert(p[i] == parts[i]);
        }
        cat_clear(p, pat);
        assert(clear(parts[parts.len() - 1], pat));
        clear_join(cat(p), parts.last(), pat);
    }
}

proof fn cat_enclosed(parts: Seq<Seq<char>>, inners: Seq<Seq<char>>, o: Seq<char>, c: Seq<char>)
    requires
        parts.len() == inners.len(),
        o.len() > 0,
        c.len() > 0,
        forall|i: int|
            0 <= i < parts.len() ==> #[trigger] parts[i] == o + inners[i] + c && clear(inners[i], c),
    ensures
        holds_enclosed(cat(parts), o, c, inners),
    decreases parts.len(),
{
    if parts.len() == 0 {
        clear_without(Seq::empty(), o);
        enclosed_none(Seq::empty(), o, c);
        assert(inners == Seq::<Seq<char>>::empty());
    } else {
        let (p, q) = (parts.drop_last(), inners.drop_last());
        assert forall|i: int| 0 <= i < p.len() implies #[trigger] p[i] == o + q[i] + c && clear(q[i], c) by {
            assert(p[i] == parts[i]);
        }
        cat_enclosed(p, q, o, c);
        let n = parts.len() - 1;
        assert(parts[n] == o + inners[n] + c);
        enclosed_one(o, inners[n], c);
        enclosed_join(cat(p), parts[n], o, c, q, seq![inners[n]]);
        assert(q + seq![inners[n]] == inners);
    }
}

proof fn cat_elements(parts: Seq<Seq<char>>, inners: Seq<Seq<char>>, o: Seq<char>, c: Seq<char>)
    requires
        parts.len() == inners.len(),
        o.len() > 0,
        c.len() > 0,
        forall|i: int|
            0 <= i < parts.len() ==> #[trigger] parts[i] == o + ">"@ + inners[i] + c && clear(
                inners[i],
                c,
            ),
    ensures
        holds_elements(cat(parts), o, c, inners),
    decreases parts.len(),
{
    if parts.len() == 0 {
        elements_none(o, c);
        assert(inners == Seq::<Seq<char>>::empty());
    } else {
        let (p, q) = (parts.drop_last(), inners.drop_last());
        assert forall|i: int| 0 <= i < p.len() implies #[trigger] p[i] == o + ">"@ + q[i] + c && clear(
            q[i],
            c,
        ) by {
            assert(p[i] == parts[i]);
        }
        cat_elements(p, q, o, c);
        let n = parts.len() - 1;
        assert(parts[n] == o + ">"@ + inners[n] + c);
        element_one(o, inners[n], c);
        elements_join(cat(p), parts[n], o, c, q, seq![inners[n]]);
        assert(q + seq![inners[n]] == inners);
    }
}

/// What is read of cell formats.
pub open spec fn format_records(l: Seq<(Ids, Style)>) -> Seq<(Seq<char>, Seq<char>)> {
    Seq::new(l.len(), |i: int| (format_attrs(l[i].0, l[i].1), xf_inner(l[i].1)))
}

proof fn cat_records(l: Seq<(Ids, Style)>)
    ensures
        holds_records(cat(format_texts(l)), "<xf"@, "</xf>"@, format_records(l)),
        clear(cat(format_texts(l)), "</cellXfs>"@),
        clear(cat(format_texts(l)), "<numFmt"@),
    decreases l.len(),
{
    let (o, c) = ("<xf"@, "</xf>"@);
    table_literals();
    reveal_strlit("<xf");
    if l.len() == 0 {
        let e = Seq::<char>::empty();
        clear_without(e, o);
        clear_without(e, "</cellXfs>"@);
        clear_without(e, "<numFmt"@);
        records_none(e, o, c);
        assert(format_records(l) == Seq::<(Seq<char>, Seq<char>)>::empty());
    } else {
        let p = l.drop_last();
        let x = l.last();
        cat_records(p);
        format_is_record(x.0, x.1);
        let r = seq![(format_attrs(x.0, x.1), xf_inner(x.1))];
        records_join(cat(format_texts(p)), format_text(x.0, x.1), o, c, format_records(p), r);
        assert(format_texts(l).drop_last() == format_texts(p));
        assert(format_texts(l).last() == format_text(x.0, x.1));
        assert(format_records(p) + r == format_records(l));
        clear_join(cat(format_texts(p)), format_text(x.0, x.1), "</cellXfs>"@);
        clear_join(cat(format_texts(p)), format_text(x.0, x.1), "<numFmt"@);
    }
}

pub open spec fn font_inners(l: Seq<Style>) -> Seq<Seq<char>> {
    Seq::new(l.len(), |i: int| font_inner(l[i]))
}

pub open spec fn fill_inners(l: Seq<Seq<char>>) -> Seq<Seq<char>> {
    seq![base_fill(0), base_fill(1)] + Seq::new(l.len(), |i: int| fill_inner(l[i]))
}

pub open spec fn border_inners(l: Seq<Borders>) -> Seq<Seq<char>> {
    Seq::new(l.len(), |i: int| border_inner(l[i]))
}

proof fn fonts_hold(l: Seq<Style>)
    requires
        forall|i: int| 0 <= i < l.len() ==> font_ok(#[trigger] l[i]),
    ensures
        all_enclosed(cat(font_texts(l)), "<font>"@, "</font>"@) == font_inners(l),
        clear(cat(font_texts(l)), "</fonts>"@),
        clear(cat(font_texts(l)), "<fills"@),
        clear(cat(font_texts(l)), "<borders"@),
        clear(cat(font_texts(l)), "<cellXfs"@),
        clear(cat(font_texts(l)), "<numFmt"@),
{
    table_literals();
    reveal_strlit("<font>");
    reveal_strlit("</font>");
    let t = font_texts(l);
    assert forall|i: int| 0 <= i < t.len() implies #[trigger] t[i] == "<font>"@ + font_inners(l)[i]
        + "</font>"@ && clear(font_inners(l)[i], "</font>"@) && clear(t[i], "</fonts>"@) && clear(
        t[i],
        "<fills"@,
    ) && clear(t[i], "<borders"@) && clear(t[i], "<cellXfs"@) && clear(t[i], "<numFmt"@) by {
        assert(font_ok(l[i]));
        font_form(l[i]);
        font_inner_ends(l[i]);
        font_clear(l[i], "</fonts>"@);
        font_clear(l[i], "<fills"@);
        font_clear(l[i], "<borders"@);
        font_clear(l[i], "<cellXfs"@);
        font_clear(l[i], "<numFmt"@);
    }
    cat_enclosed(t, font_inners(l), "<font>"@, "</font>"@);
    enclosed_whole(cat(t), "<font>"@, "</font>"@, font_inners(l));
    cat_clear(t, "</fonts>"@);
    cat_clear(t, "<fills"@);
    cat_clear(t, "<borders"@);
    cat_clear(t, "<cellXfs"@);
    cat_clear(t, "<numFmt"@);
}

proof fn enclosed_whole(s: Seq<char>, o: Seq<char>, c: Seq<char>, p: Seq<Seq<char>>)
    requires
        holds_enclosed(s, o, c, p),
    ensures
        all_enclosed(s, o, c) == p,
{
    let e = Seq::<char>::empty();
    assert(s + e == s);
    assert(all_enclosed(s + e, o, c) == p + all_enclosed(e, o, c));
}

proof fn one_fill(l: Seq<Seq<char>>, i: int)
    requires
        0 <= i < l.len() + 2,
    ensures
        fill_texts(l).len() == l.len() + 2,
        fill_texts(l)[i] == "<fill>"@ + fill_inners(l)[i] + "</fill>"@,
        clear(fill_inners(l)[i], "</fill>"@),
        clear(fill_texts(l)[i], "</fills>"@),
        clear(fill_texts(l)[i], "<borders"@),
        clear(fill_texts(l)[i], "<cellXfs"@),
        clear(fill_texts(l)[i], "<numFmt"@),
{
    base_fills("</fill>"@);
    base_fills("</fills>"@);
    base_fills("<borders"@);
    base_fills("<cellXfs"@);
    base_fills("<numFmt"@);
    if i >= 2 {
        let c = l[i - 2];
        assert(fill_texts(l)[i] == fill_xml(c));
        assert(fill_inners(l)[i] == fill_inner(c));
        fill_form(c);
        fill_inner_ends(c);
        fill_clear(c, "</fills>"@);
        fill_clear(c, "<borders"@);
        fill_clear(c, "<cellXfs"@);
        fill_clear(c, "<numFmt"@);
    } else {
        assert(fill_texts(l)[i] == base_tables().fills[i]);
        assert(fill_inners(l)[i] == base_fill(i));
    }
}

proof fn fills_hold(l: Seq<Seq<char>>)
    ensures
        all_enclosed(cat(fill_texts(l)), "<fill>"@, "</fill>"@) == fill_inners(l),
        clear(cat(fill_texts(l)), "</fills>"@),
        clear(cat(fill_texts(l)), "<borders"@),
        clear(cat(fill_texts(l)), "<cellXfs"@),
        clear(cat(fill_texts(l)), "<numFmt"@),
{
    table_literals();
    reveal_strlit("<fill>");
    reveal_strlit("</fill>");
    let t = fill_texts(l);
    assert(t.len() == l.len() + 2);
    assert forall|i: int| 0 <= i < t.len() implies #[trigger] t[i] == "<fill>"@ + fill_inners(l)[i]
        + "</fill>"@ && clear(fill_inners(l)[i], "</fill>"@) && clear(t[i], "</fills>"@) && clear(
        t[i],
        "<borders"@,
    ) && clear(t[i], "<cellXfs"@) && clear(t[i], "<numFmt"@) by {
        one_fill(l, i);
    }
    cat_enclosed(t, fill_inners(l), "<fill>"@, "</fill>"@);
    enclosed_whole(cat(t), "<fill>"@, "</fill>"@, fill_inners(l));
    cat_clear(t, "</fills>"@);
    cat_clear(t, "<borders"@);
    cat_clear(t, "<cellXfs"@);
    cat_clear(t, "<numFmt"@);
}

proof fn borders_hold(l: Seq<Borders>)
    ensures
        elements(cat(border_texts(l)), "<border"@, "</border>"@) == border_inners(l),
        clear(cat(border_texts(l)), "</borders>"@),
        clear(cat(border_texts(l)), "<cellXfs"@),
        clear(cat(border_texts(l)), "<numFmt"@),
{
    table_literals();
    reveal_strlit("<border");
    reveal_strlit("</border>");
    let t = border_texts(l);
    assert forall|i: int| 0 <= i < t.len() implies #[trigger] t[i] == "<border"@ + ">"@ + border_inners(
        l,
    )[i] + "</border>"@ && clear(border_inners(l)[i], "</border>"@) && clear(t[i], "</borders>"@)
        && clear(t[i], "<cellXfs"@) && clear(t[i], "<numFmt"@) by {
        border_form(l[i]);
        border_inner_ends(l[i]);
        border_clear(l[i], "</borders>"@);
        border_clear(l[i], "<cellXfs"@);
        border_clear(l[i], "<numFmt"@);
    }
    cat_elements(t, border_inners(l), "<border"@, "</border>"@);
    elements_whole(cat(t), "<border"@, "</border>"@, border_inners(l));
    cat_clear(t, "</borders>"@);
    cat_clear(t, "<cellXfs"@);
    cat_clear(t, "<numFmt"@);
}

// ---- the text of the tables

/// A table as it is written.
spec fn table_text(o: Seq<char>, n: nat, v: Seq<char>, c: Seq<char>) -> Seq<char> {
    o + (" count=\""@ + dec(n) + "\""@) + ">"@ + v + c
}

/// What stands in front of the fonts.
spec fn styles_head(codes: Seq<Seq<char>>) -> Seq<char> {
    xml_decl() + "<styleSheet xmlns=\"http://schemas.openxmlformats.org/spreadsheetml/2006/main\">"@
        + (if codes.len() == 0 {
        Seq::empty()
    } else {
        "<numFmts count=\""@ + dec(codes.len()) + "\">"@ + codes_xml(codes) + "</numFmts>"@
    })
}

/// The formats of named styles.
spec fn style_formats() -> Seq<char> {
    "<cellStyleXfs count=\"1\"><xf numFmtId=\"0\" fontId=\"0\" fillId=\"0\" borderId=\"0\"/></cellStyleXfs>"@
}

/// What stands behind the cell formats.
spec fn styles_tail() -> Seq<char> {
    "<cellStyles count=\"1\"><cellStyle name=\"Normal\" xfId=\"0\" builtinId=\"0\"/></cellStyles></styleSheet>"@
}

proof fn styles_literals()
    ensures
        "<fonts count=\""@ == "<fonts"@ + " count=\""@,
        "</fonts><fills count=\""@ == "</fonts>"@ + "<fills"@ + " count=\""@,
        "</fills><borders count=\""@ == "</fills>"@ + "<borders"@ + " count=\""@,
        "</borders><cellStyleXfs count=\"1\"><xf numFmtId=\"0\" fontId=\"0\" fillId=\"0\" borderId=\"0\"/></cellStyleXfs><cellXfs count=\""@
            == "</borders>"@ + style_formats() + "<cellXfs"@ + " count=\""@,
        "</cellXfs><cellStyles count=\"1\"><cellStyle name=\"Normal\" xfId=\"0\" builtinId=\"0\"/></cellStyles></styleSheet>"@
            == "</cellXfs>"@ + styles_tail(),
        "\">"@ == "\""@ + ">"@,
{
    table_literals();
    reveal_strlit("<fonts count=\"");
    reveal_strlit(" count=\"");
    reveal_strlit("</fonts><fills count=\"");
    reveal_strlit("</fills><borders count=\"");
    reveal_strlit("</borders><cellStyleXfs count=\"1\"><xf numFmtId=\"0\" fontId=\"0\" fillId=\"0\" borderId=\"0\"/></cellStyleXfs><cellXfs count=\"");
    reveal_strlit("<cellStyleXfs count=\"1\"><xf numFmtId=\"0\" fontId=\"0\" fillId=\"0\" borderId=\"0\"/></cellStyleXfs>");
    reveal_strlit("</cellXfs><cellStyles count=\"1\"><cellStyle name=\"Normal\" xfId=\"0\" builtinId=\"0\"/></cellStyles></styleSheet>");
    reveal_strlit("<cellStyles count=\"1\"><cellStyle name=\"Normal\" xfId=\"0\" builtinId=\"0\"/></cellStyles></styleSheet>");
    reveal_strlit("\">");
    reveal_strlit("\"");
    reveal_strlit(">");
    assert("<fonts count=\""@ == "<fonts"@ + " count=\""@);
    assert("</fonts><fills count=\""@ == "</fonts>"@ + "<fills"@ + " count=\""@);
    assert("</fills><borders count=\""@ == "</fills>"@ + "<borders"@ + " count=\""@);
    assert("</borders><cellStyleXfs count=\"1\"><xf numFmtId=\"0\" fontId=\"0\" fillId=\"0\" borderId=\"0\"/></cellStyleXfs><cellXfs count=\""@
        == "</borders>"@ + style_formats() + "<cellXfs"@ + " count=\""@);
    assert("</cellXfs><cellStyles count=\"1\"><cellStyle name=\"Normal\" xfId=\"0\" builtinId=\"0\"/></cellStyles></styleSheet>"@
        == "</cellXfs>"@ + styles_tail());
    assert("\">"@ == "\""@ + ">"@);
}

proof fn table_joined(
    h: Seq<char>,
    o: Seq<char>,
    k: Seq<char>,
    d: Seq<char>,
    q: Seq<char>,
    g: Seq<char>,
    v: Seq<char>,
)
    ensures
        h + (o + k) + d + (q + g) + v == h + (o + (k + d + q) + g + v),
{
}

proof fn table_closed(h: Seq<char>, x: Seq<char>, c: Seq<char>, r: Seq<char>)
    ensures
        h + x + (c + r) == h + (x + c) + r,
{
}

/// The text of the tables, table by table.
proof fn styles_form(t: Tables)
    ensures
        styles_xml(t) == styles_head(t.codes) + table_text(
            "<fonts"@,
            t.fonts.len(),
            cat(t.fonts),
            "</fonts>"@,
        ) + table_text("<fills"@, t.fills.len(), cat(t.fills), "</fills>"@) + table_text(
            "<borders"@,
            t.borders.len(),
            cat(t.borders),
            "</borders>"@,
        ) + style_formats() + table_text("<cellXfs"@, t.xfs.len(), cat(t.xfs), "</cellXfs>"@)
            + styles_tail(),
{
    styles_literals();
    let h = styles_head(t.codes);
    let k = " count=\""@;
    let (q, g) = ("\""@, ">"@);
    let (f, l, b, x) = (cat(t.fonts), cat(t.fills), cat(t.borders), cat(t.xfs));
    let (nf, nl, nb, nx) = (dec(t.fonts.len()), dec(t.fills.len()), dec(t.borders.len()), dec(t.xfs.len()));
    // the fonts
    table_joined(h, "<fonts"@, k, nf, q, g, f);
    let of = "<fonts"@ + (k + nf + q) + g + f;
    let s1 = h + "<fonts count=\""@ + nf + "\">"@ + f;
    assert(s1 == h + of);
    let h1 = h + table_text("<fonts"@, t.fonts.len(), f, "</fonts>"@);
    // the fills
    assert(s1 + "</fonts><fills count=\""@ == h1 + ("<fills"@ + k)) by {
        table_closed(h, of, "</fonts>"@, "<fills"@ + k);
        assert("</fonts>"@ + "<fills"@ + k == "</fonts>"@ + ("<fills"@ + k));
    }
    table_joined(h1, "<fills"@, k, nl, q, g, l);
    let ol = "<fills"@ + (k + nl + q) + g + l;
    let s2 = s1 + "</fonts><fills count=\""@ + nl + "\">"@ + l;
    assert(s2 == h1 + ol);
    let h2 = h1 + table_text("<fills"@, t.fills.len(), l, "</fills>"@);
    // the borders
    assert(s2 + "</fills><borders count=\""@ == h2 + ("<borders"@ + k)) by {
        table_closed(h1, ol, "</fills>"@, "<borders"@ + k);
        assert("</fills>"@ + "<borders"@ + k == "</fills>"@ + ("<borders"@ + k));
    }
    table_joined(h2, "<borders"@, k, nb, q, g, b);
    let ob = "<borders"@ + (k + nb + q) + g + b;
    let s3 = s2 + "</fills><borders count=\""@ + nb + "\">"@ + b;
    assert(s3 == h2 + ob);
    let h3 = h2 + table_text("<borders"@, t.borders.len(), b, "</borders>"@);
    // the formats
    let m = "</borders><cellStyleXfs count=\"1\"><xf numFmtId=\"0\" fontId=\"0\" fillId=\"0\" borderId=\"0\"/></cellStyleXfs><cellXfs count=\""@;
    let h4 = h3 + style_formats();
    assert(s3 + m == h4 + ("<cellXfs"@ + k)) by {
        table_closed(h2, ob, "</borders>"@, style_formats() + ("<cellXfs"@ + k));
        assert("</borders>"@ + style_formats() + "<cellXfs"@ + k == "</borders>"@ + (style_formats() + (
        "<cellXfs"@ + k)));
        assert(h3 + (style_formats() + ("<cellXfs"@ + k)) == h4 + ("<cellXfs"@ + k));
    }
    table_joined(h4, "<cellXfs"@, k, nx, q, g, x);
    let ox = "<cellXfs"@ + (k + nx + q) + g + x;
    let s4 = s3 + m + nx + "\">"@ + x;
    assert(s4 == h4 + ox);
    table_closed(h4, ox, "</cellXfs>"@, styles_tail());
}

/// A table between what is clear of its tag.
proof fn table_read(
    a: Seq<char>,
    tag: Seq<char>,
    n: nat,
    v: Seq<char>,
    b: Seq<char>,
)
    requires
        clear(a, "<"@ + tag),
        clear(v, "</"@ + tag + ">"@),
    ensures
        block_text(a + table_text("<"@ + tag, n, v, "</"@ + tag + ">"@) + b, tag) == v,
{
    let (o, c) = ("<"@ + tag, "</"@ + tag + ">"@);
    let attrs = " count=\""@ + dec(n) + "\""@;
    reveal_strlit("<");
    assert(without(attrs, '>')) by {
        reveal_strlit(" count=\"");
        reveal_strlit("\"");
        dec_is_plain(n);
        plain_is_bare(dec(n));
        without_join(" count=\""@, dec(n), '>');
        without_join(" count=\""@ + dec(n), "\""@, '>');
    }
    element_found(a, o, attrs, v, c, b);
    assert(a + table_text(o, n, v, c) + b == a + o + attrs + ">"@ + v + c + b) by {
        assert(a + (o + attrs + ">"@ + v + c) == a + o + attrs + ">"@ + v + c);
    }
}

/// A table is clear of a pattern that its content is clear of.
proof fn table_clear(o: Seq<char>, n: nat, v: Seq<char>, c: Seq<char>, pat: Seq<char>)
    requires
        pat.len() > 0,
        pat[0] == '<',
        clear(o, pat),
        clear(v, pat),
        clear(c, pat),
    ensures
        clear(table_text(o, n, v, c), pat),
{
    let attrs = " count=\""@ + dec(n) + "\""@;
    reveal_strlit(" count=\"");
    reveal_strlit("\"");
    reveal_strlit(">");
    dec_is_plain(n);
    plain_is_bare(dec(n));
    without_join(" count=\""@, dec(n), '<');
    without_join(" count=\""@ + dec(n), "\""@, '<');
    clear_without(attrs, pat);
    clear_without(">"@, pat);
    clear_four(o, attrs, ">"@, v, pat);
    clear_join(o + attrs + ">"@ + v, c, pat);
}

proof fn head_clear(codes: Seq<Seq<char>>, pat: Seq<char>)
    requires
        pat == "<fonts"@ || pat == "<fills"@ || pat == "<borders"@ || pat == "<cellXfs"@,
        clear(codes_xml(codes), pat),
    ensures
        clear(styles_head(codes), pat),
{
    table_literals();
    let a = xml_decl();
    let b = "<styleSheet xmlns=\"http://schemas.openxmlformats.org/spreadsheetml/2006/main\">"@;
    reveal_strlit("<?xml version=\"1.0\" encoding=\"UTF-8\" standalone=\"yes\"?>\n");
    reveal_strlit("<styleSheet xmlns=\"http://schemas.openxmlformats.org/spreadsheetml/2006/main\">");
    signs_clear(a, pat, 1);
    signs_clear(b, pat, 1);
    clear_join(a, b, pat);
    let e = Seq::<char>::empty();
    clear_without(e, pat);
    clear_join(a + b, e, pat);
    if codes.len() > 0 {
        nums_clear(codes, pat);
        clear_join(
            a + b,
            "<numFmts count=\""@ + dec(codes.len()) + "\">"@ + codes_xml(codes) + "</numFmts>"@,
            pat,
        );
    }
}

proof fn nums_clear(codes: Seq<Seq<char>>, pat: Seq<char>)
    requires
        pat.len() > 1,
        pat[0] == '<',
        pat[1] != 'n',
        pat[1] != '/',
        clear(codes_xml(codes), pat),
    ensures
        clear(
            "<numFmts count=\""@ + dec(codes.len()) + "\">"@ + codes_xml(codes) + "</numFmts>"@,
            pat,
        ),
{
    reveal_strlit("<numFmts count=\"");
    reveal_strlit("\">");
    reveal_strlit("</numFmts>");
    dec_is_plain(codes.len());
    plain_is_bare(dec(codes.len()));
    signs_clear("<numFmts count=\""@, pat, 1);
    clear_without(dec(codes.len()), pat);
    clear_without("\">"@, pat);
    signs_clear("</numFmts>"@, pat, 1);
    clear_four("<numFmts count=\""@, dec(codes.len()), "\">"@, codes_xml(codes), pat);
    clear_join(
        "<numFmts count=\""@ + dec(codes.len()) + "\">"@ + codes_xml(codes),
        "</numFmts>"@,
        pat,
    );
}

/// The number formats of the head are read as they were written.
proof fn head_codes(codes: Seq<Seq<char>>)
    requires
        forall|i: int| 0 <= i < codes.len() ==> without(#[trigger] codes[i], '/'),
    ensures
        holds_short(styles_head(codes), "<numFmt"@, code_tags(codes)),
{
    let o = "<numFmt"@;
    table_literals();
    let a = xml_decl();
    let b = "<styleSheet xmlns=\"http://schemas.openxmlformats.org/spreadsheetml/2006/main\">"@;
    let e = Seq::<Seq<char>>::empty();
    assert(e + e == e);
    assert(holds_short(a + b, o, e)) by {
        reveal_strlit("<?xml version=\"1.0\" encoding=\"UTF-8\" standalone=\"yes\"?>\n");
        reveal_strlit("<styleSheet xmlns=\"http://schemas.openxmlformats.org/spreadsheetml/2006/main\">");
        signs_clear(a, o, 1);
        signs_clear(b, o, 1);
        clear_join(a, b, o);
        short_none(a + b, o);
    }
    if codes.len() == 0 {
        assert(code_tags(codes) == e);
        assert(a + b + Seq::<char>::empty() == a + b);
    } else {
        let h = "<numFmts count=\""@;
        let d = dec(codes.len()) + "\">"@;
        let z = "</numFmts>"@;
        assert(holds_short(h, o, e)) by {
            reveal_strlit("<numFmts count=\"");
            assert forall|p: int| 0 <= p < h.len() implies #[trigger] unlike(h, o, p) || (p + o.len()
                < h.len() && !is_white(h[p + o.len()])) by {
                if p > 0 {
                    assert(h[p + 0] != o[0]);
                }
            }
            short_tagless(h, o);
        }
        assert(holds_short(d, o, e) && holds_short(z, o, e)) by {
            reveal_strlit("\">");
            reveal_strlit("</numFmts>");
            dec_is_plain(codes.len());
            plain_is_bare(dec(codes.len()));
            without_join(dec(codes.len()), "\">"@, '<');
            clear_without(d, o);
            short_none(d, o);
            signs_clear(z, o, 1);
            short_none(z, o);
        }
        codes_hold(codes);
        let c = codes_xml(codes);
        let tags = code_tags(codes);
        short_join(a + b, h, o, e, e);
        short_join(a + b + h, d, o, e, e);
        short_join(a + b + h + d, c, o, e, tags);
        assert(e + tags == tags);
        short_join(a + b + h + d + c, z, o, tags, e);
        assert(tags + e == tags);
        assert(a + b + (h + dec(codes.len()) + "\">"@ + c + z) == a + b + h + d + c + z);
    }
}

proof fn six_joined(
    h: Seq<char>,
    f: Seq<char>,
    l: Seq<char>,
    b: Seq<char>,
    n: Seq<char>,
    x: Seq<char>,
    z: Seq<char>,
)
    ensures
        h + f + l + b + n + x + z == h + f + (l + b + n + x + z),
        h + f + l + b + n + x + z == h + f + l + (b + n + x + z),
        h + f + l + b + n + x + z == h + f + l + b + (n + x + z),
        h + f + l + b + n + x + z == h + (f + l + b + n + x + z),
{
    assert(h + f + l + b + n + x + z == h + f + (l + b + n + x + z));
    assert(h + f + l + b + n + x + z == h + f + l + (b + n + x + z));
    assert(h + f + l + b + n + x + z == h + f + l + b + (n + x + z));
    assert(h + f + l + b + n + x + z == h + (f + l + b + n + x + z));
}

proof fn fonts_read(t: Tables)
    requires
        clear(codes_xml(t.codes), "<fonts"@),
        clear(cat(t.fonts), "</fonts>"@),
    ensures
        block_text(styles_xml(t), "fonts"@) == cat(t.fonts),
{
    styles_form(t);
    let h = styles_head(t.codes);
    let tf = table_text("<fonts"@, t.fonts.len(), cat(t.fonts), "</fonts>"@);
    let tl = table_text("<fills"@, t.fills.len(), cat(t.fills), "</fills>"@);
    let tb = table_text("<borders"@, t.borders.len(), cat(t.borders), "</borders>"@);
    let tx = table_text("<cellXfs"@, t.xfs.len(), cat(t.xfs), "</cellXfs>"@);
    let (n, z) = (style_formats(), styles_tail());
    tags_named();
    head_clear(t.codes, "<fonts"@);
    table_read(h, "fonts"@, t.fonts.len(), cat(t.fonts), tl + tb + n + tx + z);
    six_joined(h, tf, tl, tb, n, tx, z);
}

proof fn fills_read(t: Tables)
    requires
        clear(codes_xml(t.codes), "<fills"@),
        clear(cat(t.fonts), "<fills"@),
        clear(cat(t.fills), "</fills>"@),
    ensures
        block_text(styles_xml(t), "fills"@) == cat(t.fills),
{
    styles_form(t);
    let h = styles_head(t.codes);
    let tf = table_text("<fonts"@, t.fonts.len(), cat(t.fonts), "</fonts>"@);
    let tl = table_text("<fills"@, t.fills.len(), cat(t.fills), "</fills>"@);
    let tb = table_text("<borders"@, t.borders.len(), cat(t.borders), "</borders>"@);
    let tx = table_text("<cellXfs"@, t.xfs.len(), cat(t.xfs), "</cellXfs>"@);
    let (n, z) = (style_formats(), styles_tail());
    tags_named();
    head_clear(t.codes, "<fills"@);
    fonts_before(t, "<fills"@);
    table_read(h + tf, "fills"@, t.fills.len(), cat(t.fills), tb + n + tx + z);
    six_joined(h, tf, tl, tb, n, tx, z);
}

proof fn borders_read(t: Tables)
    requires
        clear(codes_xml(t.codes), "<borders"@),
        clear(cat(t.fonts), "<borders"@),
        clear(cat(t.fills), "<borders"@),
        clear(cat(t.borders), "</borders>"@),
    ensures
        block_text(styles_xml(t), "borders"@) == cat(t.borders),
{
    styles_form(t);
    let h = styles_head(t.codes);
    let tf = table_text("<fonts"@, t.fonts.len(), cat(t.fonts), "</fonts>"@);
    let tl = table_text("<fills"@, t.fills.len(), cat(t.fills), "</fills>"@);
    let tb = table_text("<borders"@, t.borders.len(), cat(t.borders), "</borders>"@);
    let tx = table_text("<cellXfs"@, t.xfs.len(), cat(t.xfs), "</cellXfs>"@);
    let (n, z) = (style_formats(), styles_tail());
    tags_named();
    table_literals();
    head_clear(t.codes, "<borders"@);
    fonts_before(t, "<borders"@);
    fills_before(t, "<borders"@);
    clear_join(h + tf, tl, "<borders"@);
    table_read(h + tf + tl, "borders"@, t.borders.len(), cat(t.borders), n + tx + z);
    six_joined(h, tf, tl, tb, n, tx, z);
}

proof fn formats_read(t: Tables)
    requires
        clear(codes_xml(t.codes), "<cellXfs"@),
        clear(cat(t.fonts), "<cellXfs"@),
        clear(cat(t.fills), "<cellXfs"@),
        clear(cat(t.borders), "<cellXfs"@),
        clear(cat(t.xfs), "</cellXfs>"@),
    ensures
        block_text(styles_xml(t), "cellXfs"@) == cat(t.xfs),
{
    styles_form(t);
    let o = "<cellXfs"@;
    let h = styles_head(t.codes);
    let tf = table_text("<fonts"@, t.fonts.len(), cat(t.fonts), "</fonts>"@);
    let tl = table_text("<fills"@, t.fills.len(), cat(t.fills), "</fills>"@);
    let tb = table_text("<borders"@, t.borders.len(), cat(t.borders), "</borders>"@);
    let (n, z) = (style_formats(), styles_tail());
    tags_named();
    table_literals();
    head_clear(t.codes, o);
    fonts_before(t, o);
    fills_before(t, o);
    borders_before(t, o);
    clear_join(h + tf, tl, o);
    clear_join(h + tf + tl, tb, o);
    clear_join(h + tf + tl + tb, n, o);
    table_read(h + tf + tl + tb + n, "cellXfs"@, t.xfs.len(), cat(t.xfs), z);
}

proof fn codes_read(t: Tables)
    requires
        forall|i: int| 0 <= i < t.codes.len() ==> without(#[trigger] t.codes[i], '/'),
        clear(cat(t.fonts), "<numFmt"@),
        clear(cat(t.fills), "<numFmt"@),
        clear(cat(t.borders), "<numFmt"@),
        clear(cat(t.xfs), "<numFmt"@),
    ensures
        short_tags(styles_xml(t), "<numFmt"@) == code_tags(t.codes),
{
    styles_form(t);
    let o = "<numFmt"@;
    let h = styles_head(t.codes);
    let tf = table_text("<fonts"@, t.fonts.len(), cat(t.fonts), "</fonts>"@);
    let tl = table_text("<fills"@, t.fills.len(), cat(t.fills), "</fills>"@);
    let tb = table_text("<borders"@, t.borders.len(), cat(t.borders), "</borders>"@);
    let tx = table_text("<cellXfs"@, t.xfs.len(), cat(t.xfs), "</cellXfs>"@);
    let (n, z) = (style_formats(), styles_tail());
    let r = tf + tl + tb + n + tx + z;
    let e = Seq::<Seq<char>>::empty();
    table_literals();
    head_codes(t.codes);
    behind_clear(t);
    short_none(r, o);
    short_join(h, r, o, code_tags(t.codes), e);
    assert(code_tags(t.codes) + e == code_tags(t.codes));
    six_joined(h, tf, tl, tb, n, tx, z);
    short_whole(styles_xml(t), o, code_tags(t.codes));
}

/// The tables of styles are read as they were written.
pub proof fn tables_back(t: Tables, m: Sources)
    requires
        made_from(t, m),
    ensures
        tables_read(styles_xml(t)) == (StyleTables {
            codes: code_tags(t.codes),
            fonts: font_inners(m.fonts),
            fills: fill_inners(m.fills),
            borders: border_inners(m.borders),
        }),
        records(block_text(styles_xml(t), "cellXfs"@), "<xf"@, "</xf>"@, 0) == format_records(m.formats),
{
    fonts_hold(m.fonts);
    fills_hold(m.fills);
    borders_hold(m.borders);
    cat_records(m.formats);
    codes_hold(t.codes);
    fonts_read(t);
    fills_read(t);
    borders_read(t);
    formats_read(t);
    codes_read(t);
    records_whole(cat(t.xfs), "<xf"@, "</xf>"@, format_records(m.formats));
}

proof fn tags_named()
    ensures
        "<"@ + "fonts"@ == "<fonts"@,
        "</"@ + "fonts"@ + ">"@ == "</fonts>"@,
        "<"@ + "fills"@ == "<fills"@,
        "</"@ + "fills"@ + ">"@ == "</fills>"@,
        "<"@ + "borders"@ == "<borders"@,
        "</"@ + "borders"@ + ">"@ == "</borders>"@,
        "<"@ + "cellXfs"@ == "<cellXfs"@,
        "</"@ + "cellXfs"@ + ">"@ == "</cellXfs>"@,
{
    table_literals();
    reveal_strlit("<");
    reveal_strlit("</");
    reveal_strlit(">");
    reveal_strlit("fonts");
    reveal_strlit("fills");
    reveal_strlit("borders");
    reveal_strlit("cellXfs");
    assert("<"@ + "fonts"@ == "<fonts"@);
    assert("</"@ + "fonts"@ + ">"@ == "</fonts>"@);
    assert("<"@ + "fills"@ == "<fills"@);
    assert("</"@ + "fills"@ + ">"@ == "</fills>"@);
    assert("<"@ + "borders"@ == "<borders"@);
    assert("</"@ + "borders"@ + ">"@ == "</borders>"@);
    assert("<"@ + "cellXfs"@ == "<cellXfs"@);
    assert("</"@ + "cellXfs"@ + ">"@ == "</cellXfs>"@);
}

/// The head and the fonts are clear of the tag of a later table.
proof fn fonts_before(t: Tables, pat: Seq<char>)
    requires
        pat == "<fills"@ || pat == "<borders"@ || pat == "<cellXfs"@,
        clear(styles_head(t.codes), pat),
        clear(cat(t.fonts), pat),
    ensures
        clear(
            styles_head(t.codes) + table_text("<fonts"@, t.fonts.len(), cat(t.fonts), "</fonts>"@),
            pat,
        ),
{
    table_literals();
    if pat == "<fills"@ {
        signs_clear("<fonts"@, pat, 2);
    } else {
        signs_clear("<fonts"@, pat, 1);
    }
    signs_clear("</fonts>"@, pat, 1);
    table_clear("<fonts"@, t.fonts.len(), cat(t.fonts), "</fonts>"@, pat);
    clear_join(
        styles_head(t.codes),
        table_text("<fonts"@, t.fonts.len(), cat(t.fonts), "</fonts>"@),
        pat,
    );
}

proof fn fills_before(t: Tables, pat: Seq<char>)
    requires
        pat == "<borders"@ || pat == "<cellXfs"@,
        clear(cat(t.fills), pat),
    ensures
        clear(table_text("<fills"@, t.fills.len(), cat(t.fills), "</fills>"@), pat),
{
    table_literals();
    signs_clear("<fills"@, pat, 1);
    signs_clear("</fills>"@, pat, 1);
    table_clear("<fills"@, t.fills.len(), cat(t.fills), "</fills>"@, pat);
}

proof fn borders_before(t: Tables, pat: Seq<char>)
    requires
        pat == "<cellXfs"@,
        clear(cat(t.borders), pat),
    ensures
        clear(table_text("<borders"@, t.borders.len(), cat(t.borders), "</borders>"@), pat),
        clear(style_formats(), pat),
{
    table_literals();
    signs_clear("<borders"@, pat, 1);
    signs_clear("</borders>"@, pat, 1);
    table_clear("<borders"@, t.borders.len(), cat(t.borders), "</borders>"@, pat);
    reveal_strlit("<cellStyleXfs count=\"1\"><xf numFmtId=\"0\" fontId=\"0\" fillId=\"0\" borderId=\"0\"/></cellStyleXfs>");
    signs_clear(style_formats(), pat, 5);
}

/// What stands behind the number formats holds none.
proof fn behind_clear(t: Tables)
    requires
        clear(cat(t.fonts), "<numFmt"@),
        clear(cat(t.fills), "<numFmt"@),
        clear(cat(t.borders), "<numFmt"@),
        clear(cat(t.xfs), "<numFmt"@),
    ensures
        clear(
            table_text("<fonts"@, t.fonts.len(), cat(t.fonts), "</fonts>"@) + table_text(
                "<fills"@,
                t.fills.len(),
                cat(t.fills),
                "</fills>"@,
            ) + table_text("<borders"@, t.borders.len(), cat(t.borders), "</borders>"@)
                + style_formats() + table_text("<cellXfs"@, t.xfs.len(), cat(t.xfs), "</cellXfs>"@)
                + styles_tail(),
            "<numFmt"@,
        ),
{
    let pat = "<numFmt"@;
    table_literals();
    signs_clear("<fonts"@, pat, 1);
    signs_clear("</fonts>"@, pat, 1);
    signs_clear("<fills"@, pat, 1);
    signs_clear("</fills>"@, pat, 1);
    signs_clear("<borders"@, pat, 1);
    signs_clear("</borders>"@, pat, 1);
    signs_clear("<cellXfs"@, pat, 1);
    signs_clear("</cellXfs>"@, pat, 1);
    table_clear("<fonts"@, t.fonts.len(), cat(t.fonts), "</fonts>"@, pat);
    table_clear("<fills"@, t.fills.len(), cat(t.fills), "</fills>"@, pat);
    table_clear("<borders"@, t.borders.len(), cat(t.borders), "</borders>"@, pat);
    table_clear("<cellXfs"@, t.xfs.len(), cat(t.xfs), "</cellXfs>"@, pat);
    reveal_strlit("<cellStyleXfs count=\"1\"><xf numFmtId=\"0\" fontId=\"0\" fillId=\"0\" borderId=\"0\"/></cellStyleXfs>");
    signs_clear(style_formats(), pat, 1);
    reveal_strlit("<cellStyles count=\"1\"><cellStyle name=\"Normal\" xfId=\"0\" builtinId=\"0\"/></cellStyles></styleSheet>");
    signs_clear(styles_tail(), pat, 1);
    let tf = table_text("<fonts"@, t.fonts.len(), cat(t.fonts), "</fonts>"@);
    let tl = table_text("<fills"@, t.fills.len(), cat(t.fills), "</fills>"@);
    let tb = table_text("<borders"@, t.borders.len(), cat(t.borders), "</borders>"@);
    let tx = table_text("<cellXfs"@, t.xfs.len(), cat(t.xfs), "</cellXfs>"@);
    clear_four(tf, tl, tb, style_formats(), pat);
    clear_join(tf + tl + tb + style_formats(), tx, pat);
    clear_join(tf + tl + tb + style_formats() + tx, styles_tail(), pat);
}

} // verus!
