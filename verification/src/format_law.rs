//! Cell formats and number formats of spreadsheet files are read back as they were written.
use crate::align_law::{xf_inner, xf_inner_clear};
use crate::book_round::escaped_without_slash;
use crate::cell_law::{dec_is_plain, escaped_is_bare, lit_clear, plain_is_bare};
use crate::decimal::{dec, parse_unsigned_dec};
use crate::find_law::{
    attr_found, clear, clear_join, clear_without, head_apart, holds_records, holds_short, is_name,
    key_of, name_apart, record_full, record_short, short_join, short_none, short_one, without,
    without_join,
};
use crate::font_law::{clear_four, table_literals};
use crate::scan::attr_of;
use crate::style::Style;
use crate::text::opt;
use crate::xlsx_style::{align_text, codes_xml, xf_body, xf_xml, Ids};
use crate::xlsx_styles_read::{attr_id, attr_number, code_of};
use crate::xml::{esc_text, escape_round_trip, Escape};
use vstd::prelude::*;

verus! {

// ---- cell formats

/// The attributes of a cell format from the second on that is no number of a table.
spec fn xf_marks(ids: Ids, aligned: bool, unlocked: bool) -> Seq<char> {
    " xfId=\"0\""@ + opt(ids.num_fmt != 0, " applyNumberFormat=\"1\""@) + opt(
        ids.font != 0,
        " applyFont=\"1\""@,
    ) + opt(ids.fill != 0, " applyFill=\"1\""@) + opt(ids.border != 0, " applyBorder=\"1\""@) + opt(
        aligned,
        " applyAlignment=\"1\""@,
    ) + opt(unlocked, " applyProtection=\"1\""@)
}

/// The attributes of a cell format.
pub closed spec fn xf_attrs(ids: Ids, aligned: bool, unlocked: bool) -> Seq<char> {
    "numFmtId=\""@ + dec(ids.num_fmt) + "\" fontId=\""@ + dec(ids.font) + "\" fillId=\""@ + dec(
        ids.fill,
    ) + "\" borderId=\""@ + dec(ids.border) + "\""@ + xf_marks(ids, aligned, unlocked)
}

proof fn marks_bare(ids: Ids, aligned: bool, unlocked: bool, c: char)
    requires
        c == '<' || c == '>' || c == '/',
    ensures
        without(xf_marks(ids, aligned, unlocked), c),
        xf_marks(ids, aligned, unlocked).len() > 0,
        xf_marks(ids, aligned, unlocked).last() == '"',
{
    reveal_strlit(" xfId=\"0\"");
    reveal_strlit(" applyNumberFormat=\"1\"");
    reveal_strlit(" applyFont=\"1\"");
    reveal_strlit(" applyFill=\"1\"");
    reveal_strlit(" applyBorder=\"1\"");
    reveal_strlit(" applyAlignment=\"1\"");
    reveal_strlit(" applyProtection=\"1\"");
    let a = " xfId=\"0\""@;
    let b = opt(ids.num_fmt != 0, " applyNumberFormat=\"1\""@);
    let d = opt(ids.font != 0, " applyFont=\"1\""@);
    let e = opt(ids.fill != 0, " applyFill=\"1\""@);
    let f = opt(ids.border != 0, " applyBorder=\"1\""@);
    let g = opt(aligned, " applyAlignment=\"1\""@);
    let h = opt(unlocked, " applyProtection=\"1\""@);
    without_join(a, b, c);
    without_join(a + b, d, c);
    without_join(a + b + d, e, c);
    without_join(a + b + d + e, f, c);
    without_join(a + b + d + e + f, g, c);
    without_join(a + b + d + e + f + g, h, c);
    ends_in(a, b);
    ends_in(a + b, d);
    ends_in(a + b + d, e);
    ends_in(a + b + d + e, f);
    ends_in(a + b + d + e + f, g);
    ends_in(a + b + d + e + f + g, h);
}

proof fn ends_in(a: Seq<char>, b: Seq<char>)
    requires
        a.len() > 0,
        a.last() == '"',
        b.len() > 0 ==> b.last() == '"',
    ensures
        (a + b).len() > 0,
        (a + b).last() == '"',
{
    if b.len() == 0 {
        assert(a + b == a);
    }
}

proof fn attrs_bare(ids: Ids, aligned: bool, unlocked: bool)
    ensures
        ({
            let x = xf_attrs(ids, aligned, unlocked);
            &&& without(x, '<')
            &&& without(x, '>')
            &&& x.len() > 0
            &&& x[0] == 'n'
            &&& x.last() == '"'
        }),
{
    reveal_strlit("numFmtId=\"");
    reveal_strlit("\" fontId=\"");
    reveal_strlit("\" fillId=\"");
    reveal_strlit("\" borderId=\"");
    reveal_strlit("\"");
    dec_is_plain(ids.num_fmt);
    dec_is_plain(ids.font);
    dec_is_plain(ids.fill);
    dec_is_plain(ids.border);
    plain_is_bare(dec(ids.num_fmt));
    plain_is_bare(dec(ids.font));
    plain_is_bare(dec(ids.fill));
    plain_is_bare(dec(ids.border));
    marks_bare(ids, aligned, unlocked, '<');
    marks_bare(ids, aligned, unlocked, '>');
    nine_bare(
        "numFmtId=\""@,
        dec(ids.num_fmt),
        "\" fontId=\""@,
        dec(ids.font),
        "\" fillId=\""@,
        dec(ids.fill),
        "\" borderId=\""@,
        dec(ids.border),
        "\""@,
        xf_marks(ids, aligned, unlocked),
        '<',
    );
    nine_bare(
        "numFmtId=\""@,
        dec(ids.num_fmt),
        "\" fontId=\""@,
        dec(ids.font),
        "\" fillId=\""@,
        dec(ids.fill),
        "\" borderId=\""@,
        dec(ids.border),
        "\""@,
        xf_marks(ids, aligned, unlocked),
        '>',
    );
}

proof fn nine_bare(
    a: Seq<char>,
    b: Seq<char>,
    c: Seq<char>,
    d: Seq<char>,
    e: Seq<char>,
    f: Seq<char>,
    g: Seq<char>,
    h: Seq<char>,
    i: Seq<char>,
    j: Seq<char>,
    x: char,
)
    requires
        without(a, x),
        without(b, x),
        without(c, x),
        without(d, x),
        without(e, x),
        without(f, x),
        without(g, x),
        without(h, x),
        without(i, x),
        without(j, x),
        a.len() > 0,
        j.len() > 0,
    ensures
        without(a + b + c + d + e + f + g + h + i + j, x),
        (a + b + c + d + e + f + g + h + i + j)[0] == a[0],
        (a + b + c + d + e + f + g + h + i + j).last() == j.last(),
{
    without_join(a, b, x);
    without_join(a + b, c, x);
    without_join(a + b + c, d, x);
    without_join(a + b + c + d, e, x);
    without_join(a + b + c + d + e, f, x);
    without_join(a + b + c + d + e + f, g, x);
    without_join(a + b + c + d + e + f + g, h, x);
    without_join(a + b + c + d + e + f + g + h, i, x);
    without_join(a + b + c + d + e + f + g + h + i, j, x);
}

proof fn id_names()
    ensures
        is_name("numFmtId"@),
        is_name("fontId"@),
        is_name("fillId"@),
        is_name("borderId"@),
        key_of("numFmtId"@) == "numFmtId=\""@,
        "\" fontId=\""@ == "\""@ + " "@ + key_of("fontId"@),
        "\" fillId=\""@ == "\""@ + " "@ + key_of("fillId"@),
        "\" borderId=\""@ == "\""@ + " "@ + key_of("borderId"@),
        "numFmtId"@ == seq!['n', 'u', 'm', 'F', 'm', 't', 'I', 'd'],
        "fontId"@ == seq!['f', 'o', 'n', 't', 'I', 'd'],
        "fillId"@ == seq!['f', 'i', 'l', 'l', 'I', 'd'],
        "borderId"@ == seq!['b', 'o', 'r', 'd', 'e', 'r', 'I', 'd'],
        " "@ == seq![' '],
{
    reveal_strlit("numFmtId");
    reveal_strlit("fontId");
    reveal_strlit("fillId");
    reveal_strlit("borderId");
    reveal_strlit("numFmtId=\"");
    reveal_strlit("\" fontId=\"");
    reveal_strlit("\" fillId=\"");
    reveal_strlit("\" borderId=\"");
    reveal_strlit("=\"");
    reveal_strlit("\"");
    reveal_strlit(" ");
    assert(key_of("numFmtId"@) == "numFmtId=\""@);
    assert("\" fontId=\""@ == "\""@ + " "@ + key_of("fontId"@));
    assert("\" fillId=\""@ == "\""@ + " "@ + key_of("fillId"@));
    assert("\" borderId=\""@ == "\""@ + " "@ + key_of("borderId"@));
}

/// An attribute as it is written, with the blank behind it, is clear of the key of another.
proof fn attr_clear(a: Seq<char>, v: Seq<char>, b: Seq<char>, d: int)
    requires
        is_name(a),
        is_name(b),
        without(v, '='),
        b.len() > a.len() + 1 || (0 <= d < b.len() && (" "@ + a)[1 + a.len() - b.len() + d] != b[d]),
    ensures
        clear(key_of(a) + v + "\""@ + " "@, key_of(b)),
{
    head_apart(a, v, b, d);
    name_apart(b);
    clear_join(key_of(a) + v + "\""@, " "@, key_of(b));
}

/// An attribute and its value, behind others.
proof fn id_read(front: Seq<char>, name: Seq<char>, n: nat, rest: Seq<char>, max: nat)
    requires
        is_name(name),
        clear(front, key_of(name)),
        n <= max,
    ensures
        attr_id(front + key_of(name) + dec(n) + "\""@ + rest, name, max) == n,
{
    dec_is_plain(n);
    plain_is_bare(dec(n));
    attr_found(front, name, dec(n), rest);
    parse_unsigned_dec(n, max);
}

proof fn four_attrs(
    k1: Seq<char>,
    v1: Seq<char>,
    k2: Seq<char>,
    v2: Seq<char>,
    k3: Seq<char>,
    v3: Seq<char>,
    k4: Seq<char>,
    v4: Seq<char>,
    q: Seq<char>,
    b: Seq<char>,
    m: Seq<char>,
)
    ensures
        ({
            let x = k1 + v1 + (q + b + k2) + v2 + (q + b + k3) + v3 + (q + b + k4) + v4 + q + m;
            let a1 = k1 + v1 + q + b;
            let a2 = k2 + v2 + q + b;
            let a3 = k3 + v3 + q + b;
            let t4 = k4 + v4 + q + m;
            let t3 = a3 + t4;
            let t2 = a2 + t3;
            &&& x == Seq::<char>::empty() + k1 + v1 + q + (b + t2)
            &&& x == a1 + k2 + v2 + q + (b + t3)
            &&& x == (a1 + a2) + k3 + v3 + q + (b + t4)
            &&& x == (a1 + a2 + a3) + k4 + v4 + q + m
        }),
{
    let a1 = k1 + v1 + q + b;
    let a2 = k2 + v2 + q + b;
    let a3 = k3 + v3 + q + b;
    let x = k1 + v1 + (q + b + k2) + v2 + (q + b + k3) + v3 + (q + b + k4) + v4 + q + m;
    assert(x == a1 + k2 + v2 + (q + b + k3) + v3 + (q + b + k4) + v4 + q + m);
    assert(a1 + k2 + v2 + (q + b + k3) == (a1 + a2) + k3);
    assert(x == (a1 + a2) + k3 + v3 + (q + b + k4) + v4 + q + m);
    assert((a1 + a2) + k3 + v3 + (q + b + k4) == (a1 + a2 + a3) + k4);
    assert(x == (a1 + a2 + a3) + k4 + v4 + q + m);
    let t4 = k4 + v4 + q + m;
    assert((a1 + a2 + a3) + k4 + v4 + q + m == (a1 + a2) + (a3 + t4));
    assert((a1 + a2) + (a3 + t4) == (a1 + a2) + k3 + v3 + q + (b + t4));
    let t3 = a3 + t4;
    assert((a1 + a2) + t3 == a1 + (a2 + t3));
    assert(a1 + (a2 + t3) == a1 + k2 + v2 + q + (b + t3));
    let t2 = a2 + t3;
    assert(a1 + t2 == Seq::<char>::empty() + k1 + v1 + q + (b + t2));
}

/// The numbers of a cell format are read as they were written.
pub proof fn ids_read(ids: Ids, aligned: bool, unlocked: bool)
    requires
        ids.num_fmt <= u32::MAX,
        ids.font <= usize::MAX,
        ids.fill <= usize::MAX,
        ids.border <= usize::MAX,
    ensures
        ({
            let x = xf_attrs(ids, aligned, unlocked);
            &&& attr_id(x, "numFmtId"@, 0xffff_ffff) == ids.num_fmt
            &&& attr_id(x, "fontId"@, usize::MAX as nat) == ids.font
            &&& attr_id(x, "fillId"@, usize::MAX as nat) == ids.fill
            &&& attr_id(x, "borderId"@, usize::MAX as nat) == ids.border
        }),
{
    id_names();
    let (k1, k2) = (key_of("numFmtId"@), key_of("fontId"@));
    let (k3, k4) = (key_of("fillId"@), key_of("borderId"@));
    let (v1, v2) = (dec(ids.num_fmt), dec(ids.font));
    let (v3, v4) = (dec(ids.fill), dec(ids.border));
    let m = xf_marks(ids, aligned, unlocked);
    let (q, b) = ("\""@, " "@);
    let x = xf_attrs(ids, aligned, unlocked);
    let e = Seq::<char>::empty();
    let a1 = k1 + v1 + q + b;
    let a2 = k2 + v2 + q + b;
    let a3 = k3 + v3 + q + b;
    let t4 = k4 + v4 + q + m;
    let t3 = a3 + t4;
    four_attrs(k1, v1, k2, v2, k3, v3, k4, v4, q, b, m);
    assert(x == k1 + v1 + (q + b + k2) + v2 + (q + b + k3) + v3 + (q + b + k4) + v4 + q + m);
    dec_is_plain(ids.num_fmt);
    dec_is_plain(ids.font);
    dec_is_plain(ids.fill);
    plain_is_bare(v1);
    plain_is_bare(v2);
    plain_is_bare(v3);
    assert(attr_id(x, "numFmtId"@, 0xffff_ffff) == ids.num_fmt) by {
        clear_without(e, k1);
        id_read(e, "numFmtId"@, ids.num_fmt, b + (a2 + t3), 0xffff_ffff);
    }
    assert(attr_id(x, "fontId"@, usize::MAX as nat) == ids.font) by {
        attr_clear("numFmtId"@, v1, "fontId"@, 0);
        id_read(a1, "fontId"@, ids.font, b + t3, usize::MAX as nat);
    }
    assert(attr_id(x, "fillId"@, usize::MAX as nat) == ids.fill) by {
        attr_clear("numFmtId"@, v1, "fillId"@, 0);
        attr_clear("fontId"@, v2, "fillId"@, 1);
        clear_join(a1, a2, k3);
        id_read(a1 + a2, "fillId"@, ids.fill, b + t4, usize::MAX as nat);
    }
    assert(attr_id(x, "borderId"@, usize::MAX as nat) == ids.border) by {
        attr_clear("numFmtId"@, v1, "borderId"@, 0);
        attr_clear("fontId"@, v2, "borderId"@, 0);
        attr_clear("fillId"@, v3, "borderId"@, 0);
        clear_join(a1, a2, k4);
        clear_join(a1 + a2, a3, k4);
        id_read(a1 + a2 + a3, "borderId"@, ids.border, m, usize::MAX as nat);
    }
}

/// A cell format as it is written for a style.
pub open spec fn format_text(ids: Ids, s: Style) -> Seq<char> {
    xf_xml(ids, align_text(s), s.locked == Some(false))
}

/// The attributes of a cell format for a style.
pub open spec fn format_attrs(ids: Ids, s: Style) -> Seq<char> {
    xf_attrs(ids, align_text(s).len() > 0, s.locked == Some(false))
}

proof fn marks_joined(
    x: Seq<char>,
    o1: Seq<char>,
    o2: Seq<char>,
    o3: Seq<char>,
    o4: Seq<char>,
    o5: Seq<char>,
    o6: Seq<char>,
    i: Seq<char>,
    b: Seq<char>,
)
    ensures
        x + i + o1 + o2 + o3 + o4 + o5 + o6 + b == x + (i + o1 + o2 + o3 + o4 + o5 + o6) + b,
{
    assert(x + i + o1 + o2 + o3 == x + (i + o1 + o2 + o3));
    assert(x + (i + o1 + o2 + o3) + o4 + o5 + o6 == x + (i + o1 + o2 + o3 + o4 + o5 + o6));
}

proof fn format_form(ids: Ids, s: Style)
    ensures
        format_text(ids, s) == "<xf"@ + " "@ + format_attrs(ids, s) + xf_body(
            align_text(s),
            s.locked == Some(false),
        ),
{
    let aligned = align_text(s).len() > 0;
    let unlocked = s.locked == Some(false);
    let body = xf_body(align_text(s), unlocked);
    assert("<xf numFmtId=\""@ == "<xf"@ + " "@ + "numFmtId=\""@) by {
        reveal_strlit("<xf numFmtId=\"");
        reveal_strlit("<xf");
        reveal_strlit(" ");
        reveal_strlit("numFmtId=\"");
    }
    assert("\" xfId=\"0\""@ == "\""@ + " xfId=\"0\""@) by {
        reveal_strlit("\" xfId=\"0\"");
        reveal_strlit("\"");
        reveal_strlit(" xfId=\"0\"");
    }
    let n = "numFmtId=\""@ + dec(ids.num_fmt) + "\" fontId=\""@ + dec(ids.font) + "\" fillId=\""@ + dec(
        ids.fill,
    ) + "\" borderId=\""@ + dec(ids.border);
    let h = "<xf"@ + " "@;
    let x = "<xf numFmtId=\""@ + dec(ids.num_fmt) + "\" fontId=\""@ + dec(ids.font) + "\" fillId=\""@
        + dec(ids.fill) + "\" borderId=\""@ + dec(ids.border);
    assert(x == h + n);
    let m = xf_marks(ids, aligned, unlocked);
    let y = x + "\""@;
    assert(x + "\" xfId=\"0\""@ == y + " xfId=\"0\""@);
    marks_joined(
        y,
        opt(ids.num_fmt != 0, " applyNumberFormat=\"1\""@),
        opt(ids.font != 0, " applyFont=\"1\""@),
        opt(ids.fill != 0, " applyFill=\"1\""@),
        opt(ids.border != 0, " applyBorder=\"1\""@),
        opt(aligned, " applyAlignment=\"1\""@),
        opt(unlocked, " applyProtection=\"1\""@),
        " xfId=\"0\""@,
        body,
    );
    assert(format_text(ids, s) == y + m + body);
    assert(format_attrs(ids, s) == n + "\""@ + m);
    assert(y + m + body == h + (n + "\""@ + m) + body) by {
        assert(y == h + (n + "\""@));
        assert(h + (n + "\""@) + m == h + (n + "\""@ + m));
    }
}

/// A cell format is an element with its attributes and what stands in it.
pub proof fn format_is_record(ids: Ids, s: Style)
    ensures
        holds_records(
            format_text(ids, s),
            "<xf"@,
            "</xf>"@,
            seq![(format_attrs(ids, s), xf_inner(s))],
        ),
        clear(format_text(ids, s), "</cellXfs>"@),
        clear(format_text(ids, s), "<numFmt"@),
{
    let unlocked = s.locked == Some(false);
    let aligned = align_text(s).len() > 0;
    let x = format_attrs(ids, s);
    format_form(ids, s);
    attrs_bare(ids, aligned, unlocked);
    reveal_strlit("<xf");
    reveal_strlit("</xf>");
    xf_inner_clear(s, "</xf>"@);
    if !aligned && !unlocked {
        record_short("<xf"@, x, "</xf>"@);
        assert(xf_inner(s) == Seq::<char>::empty());
    } else {
        record_full("<xf"@, x, xf_inner(s), "</xf>"@);
        let a = opt(aligned, "<alignment "@ + align_text(s) + "/>"@);
        let b = opt(unlocked, "<protection locked=\"0\"/>"@);
        assert(">"@ + a + b + "</xf>"@ == ">"@ + xf_inner(s) + "</xf>"@);
        assert("<xf"@ + " "@ + x + (">"@ + xf_inner(s) + "</xf>"@) == "<xf"@ + " "@ + x + ">"@ + xf_inner(
            s,
        ) + "</xf>"@);
    }
    format_clear(ids, s, "</cellXfs>"@);
    format_clear(ids, s, "<numFmt"@);
}

proof fn format_clear(ids: Ids, s: Style, pat: Seq<char>)
    requires
        pat == "</cellXfs>"@ || pat == "<numFmt"@,
    ensures
        clear(format_text(ids, s), pat),
{
    let unlocked = s.locked == Some(false);
    let aligned = align_text(s).len() > 0;
    let x = format_attrs(ids, s);
    table_literals();
    format_form(ids, s);
    attrs_bare(ids, aligned, unlocked);
    reveal_strlit("<xf");
    reveal_strlit("</xf>");
    reveal_strlit(" ");
    reveal_strlit(">");
    reveal_strlit("/>");
    lit_clear("<xf"@, pat, 1);
    clear_without(" "@, pat);
    clear_without(x, pat);
    clear_without("/>"@, pat);
    clear_without(">"@, pat);
    if pat[1] == '/' {
        lit_clear("</xf>"@, pat, 2);
    } else {
        lit_clear("</xf>"@, pat, 1);
    }
    xf_inner_clear(s, pat);
    if !aligned && !unlocked {
        clear_four("<xf"@, " "@, x, "/>"@, pat);
    } else {
        let a = opt(aligned, "<alignment "@ + align_text(s) + "/>"@);
        let b = opt(unlocked, "<protection locked=\"0\"/>"@);
        assert(">"@ + a + b + "</xf>"@ == ">"@ + xf_inner(s) + "</xf>"@);
        clear_join(">"@, xf_inner(s), pat);
        clear_join(">"@ + xf_inner(s), "</xf>"@, pat);
        clear_four("<xf"@, " "@, x, ">"@ + xf_inner(s) + "</xf>"@, pat);
    }
}

// ---- number formats

/// The attributes of a number format.
pub open spec fn code_attrs(n: nat, code: Seq<char>) -> Seq<char> {
    "numFmtId=\""@ + dec(n) + "\" formatCode=\""@ + esc_text(code, Escape::Full) + "\""@
}

/// The attributes of number formats.
pub open spec fn code_tags(codes: Seq<Seq<char>>) -> Seq<Seq<char>> {
    Seq::new(codes.len(), |i: int| code_attrs((164 + i) as nat, codes[i]))
}

proof fn code_read(n: nat, code: Seq<char>)
    requires
        n <= u32::MAX,
    ensures
        attr_of(code_attrs(n, code), "formatCode"@) == Some(esc_text(code, Escape::Full)),
        attr_number(code_attrs(n, code), "numFmtId"@, 0xffff_ffff) == Some(n),
{
    let x = esc_text(code, Escape::Full);
    let tag = code_attrs(n, code);
    let q = "\""@;
    let e = Seq::<char>::empty();
    id_names();
    reveal_strlit("formatCode");
    reveal_strlit("\" formatCode=\"");
    reveal_strlit("\"");
    reveal_strlit("=\"");
    dec_is_plain(n);
    plain_is_bare(dec(n));
    escaped_is_bare(code);
    let k = key_of("formatCode"@);
    assert("\" formatCode=\""@ == q + " "@ + k);
    attr_clear("numFmtId"@, dec(n), "formatCode"@, 0);
    let front = key_of("numFmtId"@) + dec(n) + q + " "@;
    attr_found(front, "formatCode"@, x, e);
    assert(tag == front + k + x + q + e);
    clear_without(e, key_of("numFmtId"@));
    attr_found(e, "numFmtId"@, dec(n), " "@ + k + x + q);
    assert(tag == e + key_of("numFmtId"@) + dec(n) + q + (" "@ + k + x + q));
    parse_unsigned_dec(n, 0xffff_ffff);
}

/// A number format is found by its number.
pub proof fn code_found(codes: Seq<Seq<char>>, id: nat)
    requires
        164 <= id < 164 + codes.len(),
        163 + codes.len() <= u32::MAX,
    ensures
        code_of(code_tags(codes), id) == Some(codes[id - 164]),
    decreases codes.len(),
{
    let tags = code_tags(codes);
    let p = codes.drop_last();
    let n = (163 + codes.len()) as nat;
    assert(tags.drop_last() == code_tags(p));
    assert(tags.last() == code_attrs(n, codes.last()));
    code_read(n, codes.last());
    escape_round_trip(codes.last());
    if id < n {
        code_found(p, id);
        assert(p[id - 164] == codes[id - 164]);
    }
}

/// Number formats are read as they were written.
pub proof fn codes_hold(codes: Seq<Seq<char>>)
    requires
        forall|i: int| 0 <= i < codes.len() ==> without(#[trigger] codes[i], '/'),
    ensures
        holds_short(codes_xml(codes), "<numFmt"@, code_tags(codes)),
        clear(codes_xml(codes), "<fonts"@),
        clear(codes_xml(codes), "<fills"@),
        clear(codes_xml(codes), "<borders"@),
        clear(codes_xml(codes), "<cellXfs"@),
    decreases codes.len(),
{
    table_literals();
    let o = "<numFmt"@;
    if codes.len() == 0 {
        let e = Seq::<char>::empty();
        clear_without(e, o);
        clear_without(e, "<fonts"@);
        clear_without(e, "<fills"@);
        clear_without(e, "<borders"@);
        clear_without(e, "<cellXfs"@);
        short_none(e, o);
        assert(code_tags(codes) == Seq::<Seq<char>>::empty());
    } else {
        let p = codes.drop_last();
        let c = codes.last();
        let n = (163 + codes.len()) as nat;
        let x = esc_text(c, Escape::Full);
        let tag = code_attrs(n, c);
        assert forall|i: int| 0 <= i < p.len() implies without(#[trigger] p[i], '/') by {
            assert(p[i] == codes[i]);
        }
        codes_hold(p);
        assert(c == codes[codes.len() - 1]);
        escaped_is_bare(c);
        escaped_without_slash(c);
        tag_bare(n, x);
        reveal_strlit(" ");
        reveal_strlit("/>");
        assert(tag.len() > 0 && tag[0] == 'n') by {
            reveal_strlit("numFmtId=\"");
        }
        short_one(o, tag);
        let item = o + " "@ + tag + "/>"@;
        short_join(codes_xml(p), item, o, code_tags(p), seq![tag]);
        assert(code_tags(codes) == code_tags(p) + seq![tag]);
        assert(codes_xml(codes) == codes_xml(p) + item) by {
            code_item(codes_xml(p), n, x);
        }
        item_clear(tag, "<fonts"@);
        item_clear(tag, "<fills"@);
        item_clear(tag, "<borders"@);
        item_clear(tag, "<cellXfs"@);
        clear_join(codes_xml(p), item, "<fonts"@);
        clear_join(codes_xml(p), item, "<fills"@);
        clear_join(codes_xml(p), item, "<borders"@);
        clear_join(codes_xml(p), item, "<cellXfs"@);
    }
}

proof fn code_item(a: Seq<char>, n: nat, x: Seq<char>)
    ensures
        a + "<numFmt numFmtId=\""@ + dec(n) + "\" formatCode=\""@ + x + "\"/>"@ == a + ("<numFmt"@
            + " "@ + ("numFmtId=\""@ + dec(n) + "\" formatCode=\""@ + x + "\""@) + "/>"@),
{
    reveal_strlit("<numFmt numFmtId=\"");
    reveal_strlit("<numFmt");
    reveal_strlit(" ");
    reveal_strlit("numFmtId=\"");
    reveal_strlit("\"/>");
    reveal_strlit("\"");
    reveal_strlit("/>");
    assert("<numFmt numFmtId=\""@ == "<numFmt"@ + " "@ + "numFmtId=\""@);
    assert("\"/>"@ == "\""@ + "/>"@);
    let (h, k) = ("<numFmt"@ + " "@, "numFmtId=\""@);
    let (d, f) = (dec(n), "\" formatCode=\""@);
    assert(a + (h + k) + d + f + x + ("\""@ + "/>"@) == a + (h + (k + d + f + x + "\""@) + "/>"@));
}

proof fn tag_bare(n: nat, x: Seq<char>)
    requires
        without(x, '<'),
        without(x, '>'),
        without(x, '/'),
    ensures
        without("numFmtId=\""@ + dec(n) + "\" formatCode=\""@ + x + "\""@, '<'),
        without("numFmtId=\""@ + dec(n) + "\" formatCode=\""@ + x + "\""@, '>'),
        without("numFmtId=\""@ + dec(n) + "\" formatCode=\""@ + x + "\""@, '/'),
{
    reveal_strlit("numFmtId=\"");
    reveal_strlit("\" formatCode=\"");
    reveal_strlit("\"");
    dec_is_plain(n);
    plain_is_bare(dec(n));
    five_bare("numFmtId=\""@, dec(n), "\" formatCode=\""@, x, "\""@, '<');
    five_bare("numFmtId=\""@, dec(n), "\" formatCode=\""@, x, "\""@, '>');
    five_bare("numFmtId=\""@, dec(n), "\" formatCode=\""@, x, "\""@, '/');
}

proof fn five_bare(a: Seq<char>, b: Seq<char>, c: Seq<char>, d: Seq<char>, e: Seq<char>, x: char)
    requires
        without(a, x),
        without(b, x),
        without(c, x),
        without(d, x),
        without(e, x),
    ensures
        without(a + b + c + d + e, x),
{
    without_join(a, b, x);
    without_join(a + b, c, x);
    without_join(a + b + c, d, x);
    without_join(a + b + c + d, e, x);
}

proof fn item_clear(tag: Seq<char>, pat: Seq<char>)
    requires
        pat.len() > 1,
        pat[0] == '<',
        pat[1] != 'n',
        without(tag, '<'),
    ensures
        clear("<numFmt"@ + " "@ + tag + "/>"@, pat),
{
    table_literals();
    reveal_strlit(" ");
    reveal_strlit("/>");
    lit_clear("<numFmt"@, pat, 1);
    clear_without(" "@, pat);
    clear_without(tag, pat);
    clear_without("/>"@, pat);
    clear_four("<numFmt"@, " "@, tag, "/>"@, pat);
}

} // verus!
