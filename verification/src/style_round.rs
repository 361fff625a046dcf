//! The styles that a spreadsheet file gives back of those that were put in it.
use crate::align_law::{align_back, align_comes_back, locked_comes_back, xf_inner};
use crate::book_law::{shared_before, shared_by};
use crate::book_round::book_sheet;
use crate::border_law::{
    base_border, border_comes_back, border_form, border_inner, borders_back, no_borders,
};
use crate::cell_law::value_back;
use crate::decimal::{dec, dec_round_trip};
use crate::find_law::without;
use crate::font_law::{
    base_font, fill_comes_back, fill_form, fill_inner, fill_is_new, font_back, font_comes_back,
    font_form, font_inner,
};
use crate::format_law::{code_found, code_tags, format_attrs, format_text, ids_read};
use crate::row_law::{back_at, shared_at, written};
use crate::sheet_law::{cells_back, sorted_by_row};
use crate::snapshot::{CellSnapshot, NamedStyle, WorkbookSnapshot};
use crate::style::{empty_style, empty_view, Style, StyleView};
use crate::styles_law::{
    border_inners, border_texts, fill_inners, fill_texts, font_inners, font_texts, format_keys,
    format_records, format_texts, made_from, no_ids, proper, style_ok, tables_back, Sources,
};
use crate::text::{opt, place, place_is_first, put};
use crate::xlsx::{book_styles, resolved, sorted_cells, write_cell, write_cells, Shared};
use crate::xlsx_book::write_sheets;
use crate::xlsx_read::{holds, CellView};
use crate::xlsx_style::{
    align_text, argb, base_tables, border_xml, fill_xml, font_xml, has_font, interned, put_keeps,
    rgb, style_ids, styles_xml, xf_key, xf_xml, Ids, Tables,
};
use crate::xlsx_styles_read::{
    block_text, border_read, fill_read, font_read, format_read, records, tables_read, xf_read,
    xfs_read, StyleTables,
};
use vstd::prelude::*;

verus! {

// ---- what tells cell formats apart

proof fn bar_split(x: Seq<char>, r: Seq<char>, y: Seq<char>, q: Seq<char>)
    requires
        without(x, '|'),
        without(y, '|'),
        x + seq!['|'] + r == y + seq!['|'] + q,
    ensures
        x == y,
        r == q,
{
    let (a, b) = (x + seq!['|'] + r, y + seq!['|'] + q);
    assert(a[x.len() as int] == '|' && b[y.len() as int] == '|');
    assert(a.len() == x.len() + 1 + r.len() && b.len() == y.len() + 1 + q.len());
    if x.len() < y.len() {
        assert(b[x.len() as int] == y[x.len() as int]);
    } else if y.len() < x.len() {
        assert(a[y.len() as int] == x[y.len() as int]);
    }
    assert forall|i: int| 0 <= i < x.len() implies x[i] == y[i] by {
        assert(a[i] == b[i]);
    }
    assert(r == a.skip((x.len() + 1) as int));
    assert(q == b.skip((y.len() + 1) as int));
    assert(x == y);
    assert(r == q);
}

proof fn number_split(m: nat, r: Seq<char>, n: nat, q: Seq<char>)
    requires
        dec(m) + seq!['|'] + r == dec(n) + seq!['|'] + q,
    ensures
        m == n,
        r == q,
{
    dec_round_trip(m);
    dec_round_trip(n);
    bar_split(dec(m), r, dec(n), q);
}

proof fn key_joined(
    a: Seq<char>,
    b: Seq<char>,
    c: Seq<char>,
    d: Seq<char>,
    e: Seq<char>,
    u: Seq<char>,
    z: Seq<char>,
)
    ensures
        a + z + b + z + c + z + d + z + e + z + u == a + z + (b + z + (c + z + (d + z + (e + z + u)))),
{
    assert(d + z + e + z + u == d + z + (e + z + u));
    assert(c + z + d + z + e + z + u == c + z + (d + z + e + z + u));
    assert(b + z + c + z + d + z + e + z + u == b + z + (c + z + d + z + e + z + u));
    assert(a + z + b + z + c + z + d + z + e + z + u == a + z + (b + z + c + z + d + z + e + z + u));
}

/// Two cell formats are told apart by their parts.
pub proof fn keys_tell(i: Ids, a: Seq<char>, u: bool, j: Ids, b: Seq<char>, v: bool)
    requires
        xf_key(i, a, u) == xf_key(j, b, v),
    ensures
        i == j,
        a == b,
        u == v,
{
    let z = seq!['|'];
    reveal_strlit("|");
    reveal_strlit("u");
    assert("|"@ == z);
    let (p, q) = (opt(u, "u"@), opt(v, "u"@));
    key_joined(dec(i.num_fmt), dec(i.font), dec(i.fill), dec(i.border), a, p, z);
    key_joined(dec(j.num_fmt), dec(j.font), dec(j.fill), dec(j.border), b, q, z);
    number_split(
        i.num_fmt,
        dec(i.font) + z + (dec(i.fill) + z + (dec(i.border) + z + (a + z + p))),
        j.num_fmt,
        dec(j.font) + z + (dec(j.fill) + z + (dec(j.border) + z + (b + z + q))),
    );
    number_split(
        i.font,
        dec(i.fill) + z + (dec(i.border) + z + (a + z + p)),
        j.font,
        dec(j.fill) + z + (dec(j.border) + z + (b + z + q)),
    );
    number_split(i.fill, dec(i.border) + z + (a + z + p), j.fill, dec(j.border) + z + (b + z + q));
    number_split(i.border, a + z + p, j.border, b + z + q);
    assert((a + z + p).last() == (if u { 'u' } else { '|' }));
    assert((b + z + q).last() == (if v { 'u' } else { '|' }));
    assert(u == v);
    assert(a == (a + z + p).take(a.len() as int));
    assert(b == (b + z + q).take(b.len() as int));
}

// ---- styles in tables

/// Whether one list goes on from another.
pub open spec fn goes_on(a: Seq<Seq<char>>, b: Seq<Seq<char>>) -> bool {
    &&& a.len() <= b.len()
    &&& forall|i: int| 0 <= i < a.len() ==> #[trigger] b[i] == a[i]
}

/// Whether tables hold all that others hold, where they hold it.
pub open spec fn extends(t: Tables, u: Tables) -> bool {
    &&& goes_on(t.fonts, u.fonts)
    &&& goes_on(t.fills, u.fills)
    &&& goes_on(t.borders, u.borders)
    &&& goes_on(t.codes, u.codes)
    &&& goes_on(t.xfs, u.xfs)
    &&& goes_on(t.keys, u.keys)
}

/// Whether the parts of a style stand in tables under their numbers.
spec fn placed(t: Tables, ids: Ids, s: Style) -> bool {
    &&& if has_font(s) {
        &&& ids.font < t.fonts.len()
        &&& t.fonts[ids.font as int] == font_xml(s)
        &&& ids.font != 0 ==> font_xml(s) != t.fonts[0]
    } else {
        ids.font == 0
    }
    &&& match s.back_color {
        Some(c) => ids.fill < t.fills.len() && t.fills[ids.fill as int] == fill_xml(c@),
        None => ids.fill == 0,
    }
    &&& match s.borders {
        Some(b) => ids.border < t.borders.len() && t.borders[ids.border as int] == border_xml(b),
        None => ids.border == 0,
    }
    &&& match s.formatter {
        Some(c) => 164 <= ids.num_fmt < 164 + t.codes.len() && t.codes[ids.num_fmt - 164] == c@,
        None => ids.num_fmt == 0,
    }
}

/// Whether the cell format of a number stands for the style of these numbers.
spec fn numbered(t: Tables, ids: Ids, s: Style, n: nat) -> bool {
    &&& 0 < n <= t.keys.len()
    &&& t.keys[n - 1] == xf_key(ids, align_text(s), s.locked == Some(false))
}

proof fn goes_on_put(a: Seq<Seq<char>>, s: Seq<char>)
    ensures
        goes_on(a, put(a, s)),
{
    place_is_first(a, s);
}

/// The tables with a style put in hold it.
proof fn interned_placed(t: Tables, s: Style)
    requires
        s != empty_style(),
        t.fonts.len() > 0,
        t.xfs.len() == t.keys.len() + 1,
    ensures
        extends(t, interned(t, s).0),
        placed(interned(t, s).0, style_ids(t, s), s),
        numbered(interned(t, s).0, style_ids(t, s), s, interned(t, s).1),
{
    let key = xf_key(style_ids(t, s), align_text(s), s.locked == Some(false));
    goes_on_put(t.fonts, font_xml(s));
    place_is_first(t.fonts, font_xml(s));
    put_keeps(t.fonts, font_xml(s));
    match s.back_color {
        Some(c) => {
            goes_on_put(t.fills, fill_xml(c@));
            put_keeps(t.fills, fill_xml(c@));
        },
        None => {},
    }
    match s.borders {
        Some(b) => {
            goes_on_put(t.borders, border_xml(b));
            put_keeps(t.borders, border_xml(b));
        },
        None => {},
    }
    match s.formatter {
        Some(c) => {
            goes_on_put(t.codes, c@);
            put_keeps(t.codes, c@);
        },
        None => {},
    }
    goes_on_put(t.keys, key);
    place_is_first(t.keys, key);
    put_keeps(t.keys, key);
}

proof fn placed_on(t: Tables, u: Tables, ids: Ids, s: Style)
    requires
        t.fonts.len() > 0,
        placed(t, ids, s),
        extends(t, u),
    ensures
        placed(u, ids, s),
{
}

/// The sources of tables with a style put in.
spec fn sources_with(t: Tables, m: Sources, s: Style) -> Sources {
    let ids = style_ids(t, s);
    let key = xf_key(ids, align_text(s), s.locked == Some(false));
    Sources {
        fonts: if has_font(s) && place(t.fonts, font_xml(s)) == t.fonts.len() {
            m.fonts.push(s)
        } else {
            m.fonts
        },
        fills: match s.back_color {
            Some(c) if place(t.fills, fill_xml(c@)) == t.fills.len() => m.fills.push(c@),
            _ => m.fills,
        },
        borders: match s.borders {
            Some(b) if place(t.borders, border_xml(b)) == t.borders.len() => m.borders.push(b),
            _ => m.borders,
        },
        formats: if place(t.keys, key) == t.keys.len() {
            m.formats.push((ids, s))
        } else {
            m.formats
        },
    }
}

/// Tables stay such as styles make them when a style is put in.
proof fn interned_made(t: Tables, m: Sources, s: Style)
    requires
        made_from(t, m),
        style_ok(s),
        s != empty_style(),
    ensures
        made_from(interned(t, s).0, sources_with(t, m, s)),
{
    let u = interned(t, s).0;
    let w = sources_with(t, m, s);
    let ids = style_ids(t, s);
    let key = xf_key(ids, align_text(s), s.locked == Some(false));
    place_is_first(t.fonts, font_xml(s));
    place_is_first(t.keys, key);
    assert(u.fonts == font_texts(w.fonts));
    assert(u.fills == fill_texts(w.fills)) by {
        match s.back_color {
            Some(c) => {
                place_is_first(t.fills, fill_xml(c@));
            },
            None => {},
        }
    }
    assert(u.borders == border_texts(w.borders) && u.borders[0] == t.borders[0]) by {
        match s.borders {
            Some(b) => {
                place_is_first(t.borders, border_xml(b));
            },
            None => {},
        }
    }
    assert forall|i: int| 0 <= i < u.codes.len() implies without(#[trigger] u.codes[i], '/') by {
        match s.formatter {
            Some(c) => {
                place_is_first(t.codes, c@);
            },
            None => {},
        }
    }
    assert(u.xfs == format_texts(w.formats));
    assert(u.keys == format_keys(w.formats));
}

/// The tables that every file starts from are such as styles make them.
pub proof fn base_is_proper()
    ensures
        proper(base_tables()),
{
    let t = base_tables();
    let m = Sources {
        fonts: seq![empty_style()],
        fills: Seq::empty(),
        borders: seq![no_borders()],
        formats: seq![(no_ids(), empty_style())],
    };
    base_font();
    base_border();
    base_format();
    assert(t.fonts == font_texts(m.fonts));
    assert(t.fills == fill_texts(m.fills));
    assert(t.borders == border_texts(m.borders));
    assert(t.xfs == format_texts(m.formats));
    assert(t.keys == format_keys(m.formats));
    assert(made_from(t, m));
}

proof fn base_format()
    ensures
        base_tables().xfs == seq![format_text(no_ids(), empty_style())],
{
    let s = empty_style();
    let e = Seq::<char>::empty();
    assert(align_text(s) == e);
    assert(dec(0) == "0"@) by {
        reveal_strlit("0");
        reveal_with_fuel(dec, 2);
        assert(dec(0) == seq!['0']);
    }
    reveal_strlit("<xf numFmtId=\"0\" fontId=\"0\" fillId=\"0\" borderId=\"0\" xfId=\"0\"/>");
    reveal_strlit("<xf numFmtId=\"");
    reveal_strlit("0");
    reveal_strlit("\" fontId=\"");
    reveal_strlit("\" fillId=\"");
    reveal_strlit("\" borderId=\"");
    reveal_strlit("\" xfId=\"0\"");
    reveal_strlit("/>");
    let x = "<xf numFmtId=\""@ + "0"@ + "\" fontId=\""@ + "0"@ + "\" fillId=\""@ + "0"@
        + "\" borderId=\""@ + "0"@ + "\" xfId=\"0\""@;
    assert(xf_xml(no_ids(), e, false) == x + e + e + e + e + e + e + "/>"@);
    assert(x + e + e + e + e + e + e == x);
    assert(x + "/>"@ == "<xf numFmtId=\"0\" fontId=\"0\" fillId=\"0\" borderId=\"0\" xfId=\"0\"/>"@);
}

// ---- what is read of a cell format

/// A style as it comes back from a file.
pub open spec fn kept_style(s: Style) -> StyleView {
    let base = if has_font(s) && font_xml(s) != base_tables().fonts[0] {
        font_back(s)
    } else {
        empty_view()
    };
    let st = StyleView {
        back_color: match s.back_color {
            Some(c) => rgb(argb(c@)),
            None => None,
        },
        borders: match s.borders {
            Some(b) => borders_back(b),
            None => None,
        },
        formatter: match s.formatter {
            Some(c) => Some(c@),
            None => None,
        },
        ..base
    };
    StyleView {
        locked: if s.locked == Some(false) {
            Some(false)
        } else {
            None
        },
        ..align_back(st, s)
    }
}

proof fn same_inside(o: Seq<char>, x: Seq<char>, y: Seq<char>, c: Seq<char>)
    requires
        o + x + c == o + y + c,
    ensures
        x == y,
{
    let (a, b) = (o + x + c, o + y + c);
    assert(a.len() == o.len() + x.len() + c.len() && b.len() == o.len() + y.len() + c.len());
    assert(x == a.subrange(o.len() as int, (o.len() + x.len()) as int));
    assert(y == b.subrange(o.len() as int, (o.len() + y.len()) as int));
}

proof fn font_at(t: Tables, m: Sources, ids: Ids, s: Style)
    requires
        made_from(t, m),
        placed(t, ids, s),
        style_ok(s),
    ensures
        ({
            let f = font_inners(m.fonts);
            (if ids.font != 0 && ids.font < f.len() {
                font_read(f[ids.font as int])
            } else {
                empty_view()
            }) == (if has_font(s) && font_xml(s) != base_tables().fonts[0] {
                font_back(s)
            } else {
                empty_view()
            })
        }),
{
    if has_font(s) {
        let k = ids.font as int;
        font_form(s);
        font_form(m.fonts[k]);
        same_inside("<font>"@, font_inner(s), font_inner(m.fonts[k]), "</font>"@);
        font_comes_back(s);
        assert(font_inners(m.fonts)[k] == font_inner(s));
    }
}

proof fn fill_at(t: Tables, m: Sources, ids: Ids, s: Style)
    requires
        made_from(t, m),
        placed(t, ids, s),
    ensures
        ({
            let f = fill_inners(m.fills);
            (if ids.fill != 0 && ids.fill < f.len() {
                fill_read(f[ids.fill as int])
            } else {
                None
            }) == (match s.back_color {
                Some(c) => rgb(argb(c@)),
                None => None,
            })
        }),
{
    match s.back_color {
        Some(c) => {
            let k = ids.fill as int;
            fill_is_new(c@);
            assert(t.fills[0] == base_tables().fills[0] && t.fills[1] == base_tables().fills[1]);
            assert(k >= 2);
            let d = m.fills[k - 2];
            assert(t.fills[k] == fill_xml(d));
            fill_form(c@);
            fill_form(d);
            same_inside("<fill>"@, fill_inner(c@), fill_inner(d), "</fill>"@);
            fill_comes_back(c@);
            assert(fill_inners(m.fills)[k] == fill_inner(d));
        },
        None => {},
    }
}

proof fn border_at(t: Tables, m: Sources, ids: Ids, s: Style)
    requires
        made_from(t, m),
        placed(t, ids, s),
    ensures
        ({
            let f = border_inners(m.borders);
            (if ids.border != 0 && ids.border < f.len() {
                border_read(f[ids.border as int])
            } else {
                None
            }) == (match s.borders {
                Some(b) => borders_back(b),
                None => None,
            })
        }),
{
    match s.borders {
        Some(b) => {
            let k = ids.border as int;
            let d = if k == 0 {
                no_borders()
            } else {
                m.borders[k]
            };
            base_border();
            assert(t.borders[k] == border_xml(d));
            border_form(b);
            border_form(d);
            same_inside("<border"@ + ">"@, border_inner(b), border_inner(d), "</border>"@);
            border_comes_back(b);
            border_comes_back(d);
        },
        None => {},
    }
}

proof fn format_at(t: Tables, m: Sources, ids: Ids, s: Style, x: StyleTables)
    requires
        made_from(t, m),
        placed(t, ids, s),
        163 + t.codes.len() <= u32::MAX,
        x.codes == code_tags(t.codes),
    ensures
        format_read(x, ids.num_fmt) == (match s.formatter {
            Some(c) => Some(c@),
            None => None,
        }),
{
    if s.formatter is Some {
        code_found(t.codes, ids.num_fmt);
    }
}

/// Whether the sizes of tables can be read back as numbers.
pub open spec fn readable(t: Tables) -> bool {
    &&& t.fonts.len() <= usize::MAX
    &&& t.fills.len() <= usize::MAX
    &&& t.borders.len() <= usize::MAX
    &&& 163 + t.codes.len() <= u32::MAX
}

/// The cell format of a style's number holds its numbers, alignment and protection.
proof fn record_at(t: Tables, m: Sources, ids: Ids, s: Style, n: nat)
    requires
        made_from(t, m),
        numbered(t, ids, s, n),
    ensures
        n < format_records(m.formats).len(),
        format_records(m.formats)[n as int] == (format_attrs(ids, s), xf_inner(s)),
{
    let (ids2, s2) = m.formats[n as int];
    assert(t.keys[n - 1] == xf_key(ids2, align_text(s2), s2.locked == Some(false)));
    keys_tell(
        ids,
        align_text(s),
        s.locked == Some(false),
        ids2,
        align_text(s2),
        s2.locked == Some(false),
    );
}

proof fn placed_back(t: Tables, m: Sources, ids: Ids, s: Style, n: nat)
    requires
        made_from(t, m),
        readable(t),
        style_ok(s),
        placed(t, ids, s),
        numbered(t, ids, s, n),
    ensures
        n < xfs_read(Some(styles_xml(t))).len(),
        xfs_read(Some(styles_xml(t)))[n as int] == kept_style(s),
{
    let x = tables_read(styles_xml(t));
    assert(format_records(m.formats)[n as int] == (format_attrs(ids, s), xf_inner(s))
        && n < format_records(m.formats).len()) by {
        record_at(t, m, ids, s, n);
    }
    assert(xf_read(x, format_attrs(ids, s), xf_inner(s)) == kept_style(s)) by {
        tables_back(t, m);
        format_back(t, m, ids, s, x);
    }
    assert(records(block_text(styles_xml(t), "cellXfs"@), "<xf"@, "</xf>"@, 0) == format_records(
        m.formats,
    )) by {
        tables_back(t, m);
    }
    formats_listed(styles_xml(t), format_records(m.formats), n);
}

proof fn formats_listed(x: Seq<char>, recs: Seq<(Seq<char>, Seq<char>)>, n: nat)
    requires
        records(block_text(x, "cellXfs"@), "<xf"@, "</xf>"@, 0) == recs,
        n < recs.len(),
    ensures
        n < xfs_read(Some(x)).len(),
        xfs_read(Some(x))[n as int] == xf_read(tables_read(x), recs[n as int].0, recs[n as int].1),
{
}

proof fn format_back(t: Tables, m: Sources, ids: Ids, s: Style, x: StyleTables)
    requires
        made_from(t, m),
        readable(t),
        style_ok(s),
        placed(t, ids, s),
        x == (StyleTables {
            codes: code_tags(t.codes),
            fonts: font_inners(m.fonts),
            fills: fill_inners(m.fills),
            borders: border_inners(m.borders),
        }),
    ensures
        xf_read(x, format_attrs(ids, s), xf_inner(s)) == kept_style(s),
{
    ids_read(ids, align_text(s).len() > 0, s.locked == Some(false));
    font_at(t, m, ids, s);
    fill_at(t, m, ids, s);
    border_at(t, m, ids, s);
    format_at(t, m, ids, s, x);
    locked_comes_back(s);
    let base = if has_font(s) && font_xml(s) != base_tables().fonts[0] {
        font_back(s)
    } else {
        empty_view()
    };
    let st = StyleView {
        back_color: match s.back_color {
            Some(c) => rgb(argb(c@)),
            None => None,
        },
        borders: match s.borders {
            Some(b) => borders_back(b),
            None => None,
        },
        formatter: match s.formatter {
            Some(c) => Some(c@),
            None => None,
        },
        ..base
    };
    align_comes_back(st, s);
}

proof fn empty_back(t: Tables, m: Sources)
    requires
        made_from(t, m),
    ensures
        xfs_read(Some(styles_xml(t))).len() > 0,
        xfs_read(Some(styles_xml(t)))[0] == kept_style(empty_style()),
{
    let s = empty_style();
    tables_back(t, m);
    let x = tables_read(styles_xml(t));
    assert(format_records(m.formats)[0] == (format_attrs(no_ids(), s), xf_inner(s)));
    ids_read(no_ids(), align_text(s).len() > 0, false);
    locked_comes_back(s);
    align_comes_back(empty_view(), s);
}

// ---- the laws

/// Putting a style in keeps tables such as styles make them, and all that they hold in its place.
pub proof fn interned_extends(t: Tables, s: Style)
    requires
        proper(t),
        style_ok(s),
    ensures
        proper(interned(t, s).0),
        extends(t, interned(t, s).0),
{
    let m = choose|m: Sources| made_from(t, m);
    if s != empty_style() {
        interned_made(t, m, s);
        interned_placed(t, s);
    }
}

/// A style that was put in tables comes back from the file that is written of them, whatever other
/// styles were put in since: its colours, borders, number format, alignment and protection, and its
/// font with what a file fills in where a style leaves it open. Left out are styles with a number
/// format that holds a `/`, which a file does not give back, or with a font size that is no number.
pub proof fn style_comes_back(t: Tables, s: Style, u: Tables)
    requires
        proper(t),
        style_ok(s),
        proper(u),
        extends(interned(t, s).0, u),
        readable(u),
    ensures
        interned(t, s).1 < xfs_read(Some(styles_xml(u))).len(),
        xfs_read(Some(styles_xml(u)))[interned(t, s).1 as int] == kept_style(s),
{
    let m = choose|m: Sources| made_from(u, m);
    if s == empty_style() {
        empty_back(u, m);
    } else {
        let k = choose|k: Sources| made_from(t, k);
        assert(t.fonts.len() > 0 && t.xfs.len() == t.keys.len() + 1);
        interned_placed(t, s);
        let ids = style_ids(t, s);
        placed_on(interned(t, s).0, u, ids, s);
        placed_back(u, m, ids, s, interned(t, s).1);
    }
}

// ---- the styles of a workbook's cells

/// Whether the styles of cells can be written and read back.
pub open spec fn styles_ok(cells: Seq<CellSnapshot>, styles: Seq<NamedStyle>) -> bool {
    forall|i: int| 0 <= i < cells.len() ==> style_ok(resolved((#[trigger] cells[i]).s, styles))
}

/// Whether the styles of all cells of a workbook can be written and read back.
pub open spec fn book_styles_ok(wb: WorkbookSnapshot) -> bool {
    &&& readable(shared_by(wb).tables)
    &&& forall|k: int|
        0 <= k < wb.sheets@.len() ==> styles_ok((#[trigger] wb.sheets@[k]).cells@, book_styles(wb))
}

/// A cell as it comes back from a file.
pub open spec fn kept_cell(cell: CellSnapshot, styles: Seq<NamedStyle>) -> CellView {
    let st = kept_style(resolved(cell.s, styles));
    CellView {
        r: cell.r,
        c: cell.c,
        v: value_back(cell),
        f: match cell.f {
            Some(f) => Some(f@),
            None => None,
        },
        s: if st == empty_view() {
            None
        } else {
            Some(st)
        },
    }
}

/// Cells as they come back from a file: those that hold a value, a formula or a style.
pub open spec fn kept_cells(cells: Seq<CellSnapshot>, styles: Seq<NamedStyle>) -> Seq<CellView>
    decreases cells.len(),
{
    if cells.len() == 0 {
        Seq::empty()
    } else {
        let p = kept_cells(cells.drop_last(), styles);
        let c = kept_cell(cells.last(), styles);
        if holds(c) {
            p.push(c)
        } else {
            p
        }
    }
}

proof fn extends_on(t: Tables, u: Tables, v: Tables)
    requires
        extends(t, u),
        extends(u, v),
    ensures
        extends(t, v),
{
    chains(t.fonts, u.fonts, v.fonts);
    chains(t.fills, u.fills, v.fills);
    chains(t.borders, u.borders, v.borders);
    chains(t.codes, u.codes, v.codes);
    chains(t.xfs, u.xfs, v.xfs);
    chains(t.keys, u.keys, v.keys);
}

proof fn chains(a: Seq<Seq<char>>, b: Seq<Seq<char>>, c: Seq<Seq<char>>)
    requires
        goes_on(a, b),
        goes_on(b, c),
    ensures
        goes_on(a, c),
{
    assert forall|i: int| 0 <= i < a.len() implies #[trigger] c[i] == a[i] by {
        assert(b[i] == a[i]);
    }
}

/// Cells that are written leave tables such as styles make them.
proof fn cells_extend(cells: Seq<CellSnapshot>, styles: Seq<NamedStyle>, sh: Shared)
    requires
        proper(sh.tables),
        styles_ok(cells, styles),
    ensures
        proper(write_cells(cells, styles, sh).1.tables),
        extends(sh.tables, write_cells(cells, styles, sh).1.tables),
    decreases cells.len(),
{
    if cells.len() > 0 {
        let p = cells.drop_last();
        assert forall|i: int| 0 <= i < p.len() implies style_ok(resolved((#[trigger] p[i]).s, styles)) by {
            assert(p[i] == cells[i]);
        }
        cells_extend(p, styles, sh);
        let q = write_cells(p, styles, sh).1;
        let c = cells[cells.len() - 1];
        interned_extends(q.tables, resolved(c.s, styles));
        assert(write_cell(c, styles, q).1.tables == interned(q.tables, resolved(c.s, styles)).0);
        extends_on(sh.tables, q.tables, write_cell(c, styles, q).1.tables);
    }
}

/// The tables behind one of the cells that are written go on into those behind all.
proof fn cells_reach(cells: Seq<CellSnapshot>, styles: Seq<NamedStyle>, sh: Shared, i: int)
    requires
        proper(sh.tables),
        styles_ok(cells, styles),
        0 <= i < cells.len(),
    ensures
        proper(shared_at(cells, styles, sh, i).tables),
        extends(
            interned(shared_at(cells, styles, sh, i).tables, resolved(cells[i].s, styles)).0,
            write_cells(cells, styles, sh).1.tables,
        ),
    decreases cells.len(),
{
    let p = cells.drop_last();
    let c = cells[cells.len() - 1];
    assert forall|j: int| 0 <= j < p.len() implies style_ok(resolved((#[trigger] p[j]).s, styles)) by {
        assert(p[j] == cells[j]);
    }
    cells_extend(p, styles, sh);
    let q = write_cells(p, styles, sh).1;
    let end = write_cell(c, styles, q).1;
    assert(end.tables == interned(q.tables, resolved(c.s, styles)).0);
    interned_extends(q.tables, resolved(c.s, styles));
    assert(write_cells(cells, styles, sh).1 == end);
    if i < p.len() {
        cells_reach(p, styles, sh, i);
        assert(p.take(i) == cells.take(i));
        let t = interned(shared_at(cells, styles, sh, i).tables, resolved(cells[i].s, styles)).0;
        assert(p[i] == cells[i]);
        extends_on(t, q.tables, end.tables);
    } else {
        assert(cells.take(i) == p);
    }
}

proof fn sorted_styles(cells: Seq<CellSnapshot>, styles: Seq<NamedStyle>)
    requires
        styles_ok(cells, styles),
    ensures
        styles_ok(sorted_cells(cells), styles),
{
    let v = sorted_cells(cells);
    sorted_by_row(cells);
    assert forall|i: int| 0 <= i < v.len() implies style_ok(resolved((#[trigger] v[i]).s, styles)) by {
        assert(cells.contains(v[i]));
        let k = choose|k: int| 0 <= k < cells.len() && cells[k] == v[i];
        assert(style_ok(resolved(cells[k].s, styles)));
    }
}

/// The tables behind the first sheets of a workbook.
proof fn sheets_extend(wb: WorkbookSnapshot, k: nat, n: nat)
    requires
        k <= n <= wb.sheets@.len(),
        book_styles_ok(wb),
    ensures
        proper(write_sheets(wb, k).1.tables),
        proper(write_sheets(wb, n).1.tables),
        extends(write_sheets(wb, k).1.tables, write_sheets(wb, n).1.tables),
    decreases n,
{
    if n == 0 {
        base_is_proper();
    } else {
        let m = (n - 1) as nat;
        let cells = wb.sheets@[m as int].cells@;
        let sh = write_sheets(wb, m).1;
        if k < n {
            sheets_extend(wb, k, m);
        } else {
            sheets_extend(wb, m, m);
        }
        assert(styles_ok(wb.sheets@[m as int].cells@, book_styles(wb)));
        sorted_styles(cells, book_styles(wb));
        cells_extend(sorted_cells(cells), book_styles(wb), sh);
        assert(write_sheets(wb, n).1 == write_cells(sorted_cells(cells), book_styles(wb), sh).1);
        if k < n {
            extends_on(
                write_sheets(wb, k).1.tables,
                sh.tables,
                write_sheets(wb, n).1.tables,
            );
        }
    }
}

/// A cell of a sheet comes back with its style, and is written where it holds anything.
proof fn cell_kept(cells: Seq<CellSnapshot>, styles: Seq<NamedStyle>, sh: Shared, u: Tables, i: int)
    requires
        proper(sh.tables),
        styles_ok(cells, styles),
        0 <= i < cells.len(),
        proper(u),
        readable(u),
        extends(write_cells(cells, styles, sh).1.tables, u),
    ensures
        ({
            let c = back_at(cells, styles, sh, xfs_read(Some(styles_xml(u))), i);
            &&& c == kept_cell(cells[i], styles)
            &&& holds(c) ==> written(cells, styles, sh, i)
        }),
{
    cells_reach(cells, styles, sh, i);
    let t = shared_at(cells, styles, sh, i).tables;
    let s = resolved(cells[i].s, styles);
    extends_on(interned(t, s).0, write_cells(cells, styles, sh).1.tables, u);
    style_comes_back(t, s, u);
    let m = choose|m: Sources| made_from(u, m);
    empty_back(u, m);
    assert(align_text(empty_style()) == Seq::<char>::empty());
    assert(kept_style(empty_style()) == empty_view());
}

proof fn cells_kept(
    cells: Seq<CellSnapshot>,
    styles: Seq<NamedStyle>,
    sh: Shared,
    u: Tables,
    n: int,
)
    requires
        proper(sh.tables),
        styles_ok(cells, styles),
        0 <= n <= cells.len(),
        proper(u),
        readable(u),
        extends(write_cells(cells, styles, sh).1.tables, u),
    ensures
        cells_back(cells, styles, sh, xfs_read(Some(styles_xml(u))), n) == kept_cells(
            cells.take(n),
            styles,
        ),
    decreases n,
{
    if n > 0 {
        cells_kept(cells, styles, sh, u, n - 1);
        cell_kept(cells, styles, sh, u, n - 1);
        assert(cells.take(n).drop_last() == cells.take(n - 1));
        assert(cells.take(n).last() == cells[n - 1]);
    }
}

/// The cells of a workbook's sheets come back from its file in order, with their values, formulas
/// and styles.
pub proof fn cells_come_back(wb: WorkbookSnapshot, k: int)
    requires
        book_styles_ok(wb),
        0 <= k < wb.sheets@.len(),
    ensures
        book_sheet(wb, k).cells == kept_cells(sorted_cells(wb.sheets@[k].cells@), book_styles(wb)),
{
    let cells = sorted_cells(wb.sheets@[k].cells@);
    let sh = shared_before(wb, k);
    let u = shared_by(wb).tables;
    let n = (k + 1) as nat;
    assert(styles_ok(wb.sheets@[k].cells@, book_styles(wb)));
    sorted_styles(wb.sheets@[k].cells@, book_styles(wb));
    sheets_extend(wb, k as nat, n);
    sheets_extend(wb, n, wb.sheets@.len());
    assert(write_sheets(wb, n).1 == write_cells(cells, book_styles(wb), sh).1);
    cells_kept(cells, book_styles(wb), sh, u, cells.len() as int);
    assert(cells.take(cells.len() as int) == cells);
}

} // verus!
