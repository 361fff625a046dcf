//! Fonts and fills of spreadsheet files are read back as they were written.
use crate::cell_law::{escaped_is_bare, lit_clear, number_is_plain, plain, plain_is_bare};
use crate::find_law::{
    at_shift, at_start, clear, clear_join, clear_miss, clear_without, enclosed_found, key_first,
    key_missing, unlike, without,
};
use crate::numeral::{digits_end, is_number_text, is_plain_number, mantissa_end};
use crate::scan::{at, first_key_in_tag, occurs, quoted};
use crate::style::{empty_style, empty_view, Style, StyleView};
use crate::text::opt;
use crate::xlsx_style::{
    all_hex, argb, ascii_lower, base_tables, fill_xml, font_xml, full_hex, is_hex, rgb,
};
use crate::xlsx_styles_read::{fill_read, font_read, has_tag};
use crate::xml::{esc_text, escape_round_trip, Escape};
use vstd::prelude::*;

verus! {

// ---- texts

/// A text in which every sign that may start a pattern is followed by another character.
pub proof fn signs_clear(s: Seq<char>, pat: Seq<char>, d: int)
    requires
        0 <= d < pat.len(),
        forall|i: int|
            0 <= i < s.len() && #[trigger] s[i] == pat[0] ==> i + d < s.len() && s[i + d] != pat[d],
    ensures
        clear(s, pat),
{
    assert forall|p: int| 0 <= p < s.len() implies #[trigger] unlike(s, pat, p) by {
        if s[p] == pat[0] {
            assert(s[p + d] != pat[d]);
        } else {
            assert(s[p + 0] != pat[0]);
        }
    }
}

/// A pattern that is clear of a text does not stand in it.
pub proof fn clear_occurs(s: Seq<char>, pat: Seq<char>)
    requires
        pat.len() > 0,
        clear(s, pat),
    ensures
        !occurs(s, pat),
{
    let e = Seq::<char>::empty();
    assert(s + e == s);
    assert forall|i: int| !#[trigger] at(s, pat, i) by {
        if 0 <= i < s.len() {
            clear_miss(s, e, pat, i);
        }
    }
}

/// A piece of a text stands in it.
pub proof fn piece_occurs(a: Seq<char>, pat: Seq<char>, b: Seq<char>)
    ensures
        occurs(a + pat + b, pat),
{
    at_start(pat, b);
    at_shift(a, pat + b, pat, 0);
    assert(a + pat + b == a + (pat + b));
    assert(at(a + pat + b, pat, a.len() as int));
}

/// Texts that are clear of a pattern are so one behind the other.
pub proof fn clear_four(a: Seq<char>, b: Seq<char>, c: Seq<char>, d: Seq<char>, pat: Seq<char>)
    requires
        clear(a, pat),
        clear(b, pat),
        clear(c, pat),
        clear(d, pat),
    ensures
        clear(a + b + c + d, pat),
{
    clear_join(a, b, pat);
    clear_join(a + b, c, pat);
    clear_join(a + b + c, d, pat);
}

// ---- colours

/// A colour is written in eight digits.
pub proof fn argb_is_hex(c: Seq<char>)
    ensures
        argb(c).len() == 8,
        all_hex(argb(c)),
        plain(argb(c)),
        without(argb(c), 'r'),
        rgb(argb(c)) == Some("#"@ + ascii_lower(argb(c).skip(2))),
{
    reveal_strlit("FF");
    reveal_strlit("FF000000");
    let full = full_hex(crate::text::trim_start_char(crate::text::trimmed(c), '#'));
    let a = argb(c);
    assert forall|i: int| 0 <= i < a.len() implies is_hex(#[trigger] a[i]) by {
        if full.len() == 6 && all_hex(full) {
            if i >= 2 {
                assert(is_hex(full[i - 2]));
            }
        } else if full.len() == 8 && all_hex(full) {
            assert(is_hex(full[i]));
        }
    }
    assert(is_hex(a[0]) && is_hex(a[7]));
    assert(crate::text::trimmed(a) == a);
}

/// The colour of a tag is read as it was written.
pub proof fn color_clear(v: Seq<char>)
    requires
        plain(v),
        without(v, 'r'),
    ensures
        "rgb=\""@ == seq!["rgb=\""@[0]] + "gb=\""@,
        clear("gb=\""@ + v + "\"/>"@, "rgb=\""@),
        without("rgb=\""@, '>'),
{
    let key = "rgb=\""@;
    reveal_strlit("rgb=\"");
    reveal_strlit("gb=\"");
    reveal_strlit("\"/>");
    assert(key == seq![key[0]] + "gb=\""@);
    clear_without("gb=\""@, key);
    clear_without(v, key);
    clear_without("\"/>"@, key);
    clear_join("gb=\""@, v, key);
    clear_join("gb=\""@ + v, "\"/>"@, key);
}

// ---- fonts

pub open spec fn size_text(s: Style) -> Seq<char> {
    match s.font_size {
        Some(n) => n@,
        None => "11"@,
    }
}

pub open spec fn family_text(s: Style) -> Seq<char> {
    match s.font_family {
        Some(n) => n@,
        None => "Calibri"@,
    }
}

/// The flags of a font as they are written.
pub open spec fn font_flags(s: Style) -> Seq<char> {
    opt(s.bold == Some(true), "<b/>"@) + opt(s.italic == Some(true), "<i/>"@) + opt(
        s.underline == Some(true),
        "<u/>"@,
    ) + opt(s.strikethrough == Some(true), "<strike/>"@)
}

pub open spec fn font_color(s: Style) -> Seq<char> {
    match s.fore_color {
        Some(c) => "<color rgb=\""@ + argb(c@) + "\"/>"@,
        None => Seq::empty(),
    }
}

/// What stands in a font.
pub open spec fn font_inner(s: Style) -> Seq<char> {
    font_flags(s) + "<sz val=\""@ + size_text(s) + "\"/>"@ + font_color(s) + "<name val=\""@ + esc_text(
        family_text(s),
        Escape::Full,
    ) + "\"/>"@
}

/// Whether the size of a font is a number.
pub open spec fn font_ok(s: Style) -> bool {
    s.font_size matches Some(n) ==> is_number_text(n@)
}

proof fn eleven()
    ensures
        is_number_text("11"@),
{
    reveal_strlit("11");
    let s = "11"@;
    assert(s[0] == '1' && s[1] == '1' && s.len() == 2);
    assert(digits_end(s, 2) == 2);
    assert(digits_end(s, 1) == 2);
    assert(digits_end(s, 0) == 2);
    assert(mantissa_end(s, 0) == 2);
    assert(is_plain_number(s));
}

/// A font is its inside between its tags.
pub proof fn font_form(s: Style)
    ensures
        font_xml(s) == "<font>"@ + font_inner(s) + "</font>"@,
{
    reveal_strlit("\"/></font>");
    reveal_strlit("\"/>");
    reveal_strlit("</font>");
    assert("\"/></font>"@ == "\"/>"@ + "</font>"@);
    let z = size_text(s);
    let f = esc_text(family_text(s), Escape::Full);
    let c = font_color(s);
    assert(font_xml(s) == "<font>"@ + opt(s.bold == Some(true), "<b/>"@) + opt(
        s.italic == Some(true),
        "<i/>"@,
    ) + opt(s.underline == Some(true), "<u/>"@) + opt(s.strikethrough == Some(true), "<strike/>"@)
        + "<sz val=\""@ + z + "\"/>"@ + c + "<name val=\""@ + f + ("\"/>"@ + "</font>"@));
}

/// Whether no tag of a font starts as a pattern does.
pub open spec fn font_tags_clear(s: Style, pat: Seq<char>) -> bool {
    &&& pat.len() > 0
    &&& pat[0] == '<'
    &&& s.bold == Some(true) ==> clear("<b/>"@, pat)
    &&& s.italic == Some(true) ==> clear("<i/>"@, pat)
    &&& s.underline == Some(true) ==> clear("<u/>"@, pat)
    &&& s.strikethrough == Some(true) ==> clear("<strike/>"@, pat)
}

proof fn flags_clear(s: Style, pat: Seq<char>)
    requires
        font_tags_clear(s, pat),
    ensures
        clear(font_flags(s), pat),
{
    clear_without(Seq::empty(), pat);
    clear_four(
        opt(s.bold == Some(true), "<b/>"@),
        opt(s.italic == Some(true), "<i/>"@),
        opt(s.underline == Some(true), "<u/>"@),
        opt(s.strikethrough == Some(true), "<strike/>"@),
        pat,
    );
}

proof fn size_bare(s: Style)
    requires
        font_ok(s),
    ensures
        plain(size_text(s)),
        is_number_text(size_text(s)),
        without(size_text(s), '<'),
        without(size_text(s), '>'),
        without(size_text(s), '"'),
{
    eleven();
    number_is_plain(size_text(s));
    plain_is_bare(size_text(s));
}

proof fn color_piece_clear(s: Style, pat: Seq<char>)
    requires
        pat.len() > 0,
        pat[0] == '<',
        clear("<color rgb=\""@, pat),
    ensures
        clear(font_color(s), pat),
{
    reveal_strlit("\"/>");
    clear_without("\"/>"@, pat);
    clear_without(Seq::empty(), pat);
    match s.fore_color {
        Some(c) => {
            argb_is_hex(c@);
            plain_is_bare(argb(c@));
            clear_without(argb(c@), pat);
            clear_join("<color rgb=\""@, argb(c@), pat);
            clear_join("<color rgb=\""@ + argb(c@), "\"/>"@, pat);
        },
        None => {},
    }
}

/// The size of a font as it is written.
spec fn size_piece(s: Style) -> Seq<char> {
    "<sz val=\""@ + size_text(s) + "\"/>"@
}

/// The name of a font as it is written.
spec fn name_piece(s: Style) -> Seq<char> {
    "<name val=\""@ + esc_text(family_text(s), Escape::Full) + "\"/>"@
}

proof fn inner_pieces(s: Style)
    ensures
        font_inner(s) == font_flags(s) + size_piece(s) + font_color(s) + name_piece(s),
{
}

proof fn value_piece_clear(t: Seq<char>, v: Seq<char>, pat: Seq<char>)
    requires
        pat.len() > 0,
        pat[0] == '<',
        clear(t, pat),
        without(v, '<'),
    ensures
        clear(t + v + "\"/>"@, pat),
{
    reveal_strlit("\"/>");
    clear_without("\"/>"@, pat);
    clear_without(v, pat);
    clear_join(t, v, pat);
    clear_join(t + v, "\"/>"@, pat);
}

/// What stands in a font is clear of a pattern that none of its tags starts as.
pub proof fn font_inner_clear(s: Style, pat: Seq<char>)
    requires
        font_ok(s),
        font_tags_clear(s, pat),
        clear("<sz val=\""@, pat),
        clear("<color rgb=\""@, pat),
        clear("<name val=\""@, pat),
    ensures
        clear(font_inner(s), pat),
{
    flags_clear(s, pat);
    size_bare(s);
    value_piece_clear("<sz val=\""@, size_text(s), pat);
    color_piece_clear(s, pat);
    escaped_is_bare(family_text(s));
    value_piece_clear("<name val=\""@, esc_text(family_text(s), Escape::Full), pat);
    inner_pieces(s);
    clear_four(font_flags(s), size_piece(s), font_color(s), name_piece(s), pat);
}

/// The tags of fonts, told from a tag by its first characters.
proof fn font_literals()
    ensures
        "<b/>"@ == seq!['<', 'b', '/', '>'],
        "<i/>"@ == seq!['<', 'i', '/', '>'],
        "<u/>"@ == seq!['<', 'u', '/', '>'],
        "<strike/>"@ == seq!['<', 's', 't', 'r', 'i', 'k', 'e', '/', '>'],
        "<sz val=\""@ == seq!['<', 's', 'z', ' ', 'v', 'a', 'l', '=', '"'],
        "<color rgb=\""@ == seq!['<', 'c', 'o', 'l', 'o', 'r', ' ', 'r', 'g', 'b', '=', '"'],
        "<name val=\""@ == seq!['<', 'n', 'a', 'm', 'e', ' ', 'v', 'a', 'l', '=', '"'],
{
    reveal_strlit("<b/>");
    reveal_strlit("<i/>");
    reveal_strlit("<u/>");
    reveal_strlit("<strike/>");
    reveal_strlit("<sz val=\"");
    reveal_strlit("<color rgb=\"");
    reveal_strlit("<name val=\"");
}

/// What stands in a font is clear of a pattern whose second character none of its tags has.
pub proof fn font_inner_second(s: Style, pat: Seq<char>)
    requires
        font_ok(s),
        pat.len() > 1,
        pat[0] == '<',
        pat[1] != 'b' || s.bold != Some(true),
        pat[1] != 'i' || s.italic != Some(true),
        pat[1] != 'u' || s.underline != Some(true),
        pat[1] != 's',
        pat[1] != 'c',
        pat[1] != 'n',
    ensures
        clear(font_inner(s), pat),
{
    font_literals();
    if pat[1] != 'b' {
        lit_clear("<b/>"@, pat, 1);
    }
    if pat[1] != 'i' {
        lit_clear("<i/>"@, pat, 1);
    }
    if pat[1] != 'u' {
        lit_clear("<u/>"@, pat, 1);
    }
    lit_clear("<strike/>"@, pat, 1);
    lit_clear("<sz val=\""@, pat, 1);
    lit_clear("<color rgb=\""@, pat, 1);
    lit_clear("<name val=\""@, pat, 1);
    font_inner_clear(s, pat);
}

/// The tag of a flag.
spec fn flag_tag(c: char) -> Seq<char> {
    seq!['<', c, '/', '>']
}

proof fn five_pieces(b: Seq<char>, i: Seq<char>, u: Seq<char>, k: Seq<char>, rest: Seq<char>)
    ensures
        b + i + u + k + rest == Seq::<char>::empty() + b + (i + u + k + rest),
        b + i + u + k + rest == b + i + (u + k + rest),
        b + i + u + k + rest == (b + i) + u + (k + rest),
{
}

/// A flag that is set is read.
proof fn flag_set(s: Style, c: char)
    requires
        c == 'b' && s.bold == Some(true) || c == 'i' && s.italic == Some(true) || c == 'u'
            && s.underline == Some(true),
    ensures
        occurs(font_inner(s), flag_tag(c)),
{
    let rest = size_piece(s) + font_color(s) + name_piece(s);
    let b = opt(s.bold == Some(true), "<b/>"@);
    let i = opt(s.italic == Some(true), "<i/>"@);
    let u = opt(s.underline == Some(true), "<u/>"@);
    let k = opt(s.strikethrough == Some(true), "<strike/>"@);
    assert(font_inner(s) == b + i + u + k + rest) by {
        inner_pieces(s);
        assert(font_flags(s) + size_piece(s) + font_color(s) + name_piece(s) == font_flags(s) + rest);
    }
    five_pieces(b, i, u, k, rest);
    font_literals();
    if c == 'b' {
        assert(b == flag_tag(c));
        piece_occurs(Seq::empty(), b, i + u + k + rest);
    } else if c == 'i' {
        assert(i == flag_tag(c));
        piece_occurs(b, i, u + k + rest);
    } else {
        assert(u == flag_tag(c));
        piece_occurs(b + i, u, k + rest);
    }
}

/// A flag that is not set is not read.
proof fn flag_unset(s: Style, c: char)
    requires
        font_ok(s),
        c == 'b' && s.bold != Some(true) || c == 'i' && s.italic != Some(true) || c == 'u'
            && s.underline != Some(true),
    ensures
        !occurs(font_inner(s), flag_tag(c)),
        !occurs(font_inner(s), seq!['<', c, '>']),
        !occurs(font_inner(s), seq!['<', c, ' ']),
{
    let f = font_inner(s);
    font_inner_second(s, flag_tag(c));
    font_inner_second(s, seq!['<', c, '>']);
    font_inner_second(s, seq!['<', c, ' ']);
    clear_occurs(f, flag_tag(c));
    clear_occurs(f, seq!['<', c, '>']);
    clear_occurs(f, seq!['<', c, ' ']);
}

/// A flag is read where it was written, and nowhere else.
proof fn flag_back(s: Style, c: char)
    requires
        font_ok(s),
        c == 'b' || c == 'i' || c == 'u',
    ensures
        has_tag(font_inner(s), flag_tag(c), seq!['<', c, '>'], seq!['<', c, ' ']) == flag_view(
            if c == 'b' {
                s.bold
            } else if c == 'i' {
                s.italic
            } else {
                s.underline
            },
        ),
{
    let set = (if c == 'b' {
        s.bold
    } else if c == 'i' {
        s.italic
    } else {
        s.underline
    }) == Some(true);
    if set {
        flag_set(s, c);
    } else {
        flag_unset(s, c);
    }
}

proof fn strike_back(s: Style)
    requires
        font_ok(s),
    ensures
        has_tag(font_inner(s), "<strike/>"@, "<strike>"@, "<strike "@) == (if s.strikethrough == Some(
            true,
        ) {
            Some(true)
        } else {
            None
        }),
{
    font_literals();
    reveal_strlit("<strike>");
    reveal_strlit("<strike ");
    let f = font_inner(s);
    inner_pieces(s);
    let rest = size_piece(s) + font_color(s) + name_piece(s);
    let a = opt(s.bold == Some(true), "<b/>"@) + opt(s.italic == Some(true), "<i/>"@) + opt(
        s.underline == Some(true),
        "<u/>"@,
    );
    if s.strikethrough == Some(true) {
        piece_occurs(a, "<strike/>"@, rest);
        assert(f == a + "<strike/>"@ + rest);
    } else {
        unstruck(s, "<strike/>"@);
        unstruck(s, "<strike>"@);
        unstruck(s, "<strike "@);
    }
}

proof fn unstruck(s: Style, pat: Seq<char>)
    requires
        font_ok(s),
        s.strikethrough != Some(true),
        pat.len() > 2,
        pat[0] == '<',
        pat[1] == 's',
        pat[2] == 't',
    ensures
        !occurs(font_inner(s), pat),
{
    font_literals();
    lit_clear("<b/>"@, pat, 1);
    lit_clear("<i/>"@, pat, 1);
    lit_clear("<u/>"@, pat, 1);
    lit_clear("<sz val=\""@, pat, 2);
    lit_clear("<color rgb=\""@, pat, 1);
    lit_clear("<name val=\""@, pat, 1);
    font_inner_clear(s, pat);
    clear_occurs(font_inner(s), pat);
}

proof fn size_back(s: Style)
    requires
        font_ok(s),
    ensures
        quoted(font_inner(s), "<sz val=\""@) == Some(size_text(s)),
{
    font_literals();
    let o = "<sz val=\""@;
    lit_clear("<b/>"@, o, 1);
    lit_clear("<i/>"@, o, 1);
    lit_clear("<u/>"@, o, 1);
    lit_clear("<strike/>"@, o, 2);
    flags_clear(s, o);
    size_bare(s);
    reveal_strlit("\"");
    reveal_strlit("\"/>");
    reveal_strlit("/>");
    clear_without(size_text(s), "\""@);
    assert("\"/>"@ == "\""@ + "/>"@);
    let b = "/>"@ + font_color(s) + name_piece(s);
    enclosed_found(font_flags(s), o, size_text(s), "\""@, b);
    inner_pieces(s);
    assert(font_inner(s) == font_flags(s) + o + size_text(s) + "\""@ + b);
}

proof fn name_back(s: Style)
    requires
        font_ok(s),
    ensures
        quoted(font_inner(s), "<name val=\""@) == Some(esc_text(family_text(s), Escape::Full)),
{
    font_literals();
    let o = "<name val=\""@;
    let v = esc_text(family_text(s), Escape::Full);
    lit_clear("<b/>"@, o, 1);
    lit_clear("<i/>"@, o, 1);
    lit_clear("<u/>"@, o, 1);
    lit_clear("<strike/>"@, o, 1);
    lit_clear("<sz val=\""@, o, 1);
    lit_clear("<color rgb=\""@, o, 1);
    flags_clear(s, o);
    size_bare(s);
    value_piece_clear("<sz val=\""@, size_text(s), o);
    color_piece_clear(s, o);
    let a = font_flags(s) + size_piece(s) + font_color(s);
    clear_join(font_flags(s), size_piece(s), o);
    clear_join(font_flags(s) + size_piece(s), font_color(s), o);
    escaped_is_bare(family_text(s));
    reveal_strlit("\"");
    reveal_strlit("\"/>");
    reveal_strlit("/>");
    clear_without(v, "\""@);
    assert("\"/>"@ == "\""@ + "/>"@);
    enclosed_found(a, o, v, "\""@, "/>"@);
    inner_pieces(s);
    assert(font_inner(s) == a + o + v + "\""@ + "/>"@);
}

proof fn font_color_back(s: Style)
    requires
        font_ok(s),
    ensures
        first_key_in_tag(font_inner(s), "<color"@, "rgb=\""@) == (match s.fore_color {
            Some(c) => Some(argb(c@)),
            None => None,
        }),
{
    font_literals();
    reveal_strlit("<color");
    let o = "<color"@;
    lit_clear("<b/>"@, o, 1);
    lit_clear("<i/>"@, o, 1);
    lit_clear("<u/>"@, o, 1);
    lit_clear("<strike/>"@, o, 1);
    lit_clear("<sz val=\""@, o, 1);
    lit_clear("<name val=\""@, o, 1);
    flags_clear(s, o);
    size_bare(s);
    value_piece_clear("<sz val=\""@, size_text(s), o);
    let a = font_flags(s) + size_piece(s);
    clear_join(font_flags(s), size_piece(s), o);
    inner_pieces(s);
    match s.fore_color {
        Some(c) => {
            let v = argb(c@);
            let key = "rgb=\""@;
            argb_is_hex(c@);
            plain_is_bare(v);
            color_clear(v);
            reveal_strlit(" ");
            reveal_strlit("rgb=\"");
            assert("<color rgb=\""@ == o + " "@ + key);
            key_first(a, o, key, "gb=\""@, v, name_piece(s));
            assert(font_inner(s) == a + (o + " "@ + (key + v + "\"/>"@) + name_piece(s)));
        },
        None => {
            escaped_is_bare(family_text(s));
            value_piece_clear("<name val=\""@, esc_text(family_text(s), Escape::Full), o);
            clear_join(a, name_piece(s), o);
            assert(font_inner(s) == a + name_piece(s));
            key_missing(font_inner(s), o, "rgb=\""@);
        },
    }
}

/// A flag as it comes back: one that is not set says nothing.
pub open spec fn flag_view(f: Option<bool>) -> Option<bool> {
    if f == Some(true) {
        Some(true)
    } else {
        None
    }
}

/// The font of a style as it comes back.
pub open spec fn font_back(s: Style) -> StyleView {
    StyleView {
        bold: flag_view(s.bold),
        italic: flag_view(s.italic),
        underline: flag_view(s.underline),
        strikethrough: flag_view(s.strikethrough),
        font_size: Some(size_text(s)),
        font_family: Some(family_text(s)),
        fore_color: match s.fore_color {
            Some(c) => rgb(argb(c@)),
            None => None,
        },
        ..empty_view()
    }
}

/// A font is read back as it was written.
pub proof fn font_comes_back(s: Style)
    requires
        font_ok(s),
    ensures
        font_read(font_inner(s)) == font_back(s),
{
    font_literals();
    reveal_strlit("<b>");
    reveal_strlit("<b ");
    reveal_strlit("<i>");
    reveal_strlit("<i ");
    reveal_strlit("<u>");
    reveal_strlit("<u ");
    assert("<b/>"@ == flag_tag('b') && "<i/>"@ == flag_tag('i') && "<u/>"@ == flag_tag('u'));
    assert("<b>"@ == seq!['<', 'b', '>'] && "<b "@ == seq!['<', 'b', ' ']);
    assert("<i>"@ == seq!['<', 'i', '>'] && "<i "@ == seq!['<', 'i', ' ']);
    assert("<u>"@ == seq!['<', 'u', '>'] && "<u "@ == seq!['<', 'u', ' ']);
    flag_back(s, 'b');
    flag_back(s, 'i');
    flag_back(s, 'u');
    strike_back(s);
    size_back(s);
    size_bare(s);
    name_back(s);
    escape_round_trip(family_text(s));
    font_color_back(s);
}

// ---- fills

/// What stands in a fill.
pub open spec fn fill_inner(color: Seq<char>) -> Seq<char> {
    "<patternFill patternType=\"solid\">"@ + "<fgColor rgb=\""@ + argb(color) + "\"/>"@
        + "<bgColor indexed=\"64\"/></patternFill>"@
}

pub proof fn fill_form(color: Seq<char>)
    ensures
        fill_xml(color) == "<fill>"@ + fill_inner(color) + "</fill>"@,
{
    reveal_strlit("<fill><patternFill patternType=\"solid\"><fgColor rgb=\"");
    reveal_strlit("<fill>");
    reveal_strlit("<patternFill patternType=\"solid\">");
    reveal_strlit("<fgColor rgb=\"");
    reveal_strlit("\"/><bgColor indexed=\"64\"/></patternFill></fill>");
    reveal_strlit("\"/>");
    reveal_strlit("<bgColor indexed=\"64\"/></patternFill>");
    reveal_strlit("</fill>");
    assert("<fill><patternFill patternType=\"solid\"><fgColor rgb=\""@ == "<fill>"@
        + "<patternFill patternType=\"solid\">"@ + "<fgColor rgb=\""@);
    assert("\"/><bgColor indexed=\"64\"/></patternFill></fill>"@ == "\"/>"@
        + "<bgColor indexed=\"64\"/></patternFill>"@ + "</fill>"@);
    let (a, b, c) = ("<fill>"@, "<patternFill patternType=\"solid\">"@, "<fgColor rgb=\""@);
    let (d, e, f) = ("\"/>"@, "<bgColor indexed=\"64\"/></patternFill>"@, "</fill>"@);
    let v = argb(color);
    assert((a + b + c) + v + (d + e + f) == a + (b + c + v + d + e) + f);
}

/// What stands in a fill is clear of a pattern that its tags do not start as.
pub proof fn fill_inner_clear(color: Seq<char>, pat: Seq<char>)
    requires
        pat.len() > 0,
        pat[0] == '<',
        clear("<patternFill patternType=\"solid\">"@, pat),
        clear("<fgColor rgb=\""@, pat),
        clear("<bgColor indexed=\"64\"/></patternFill>"@, pat),
    ensures
        clear(fill_inner(color), pat),
{
    let v = argb(color);
    argb_is_hex(color);
    plain_is_bare(v);
    value_piece_clear("<fgColor rgb=\""@, v, pat);
    let (a, b) = ("<patternFill patternType=\"solid\">"@, "<fgColor rgb=\""@ + v + "\"/>"@);
    clear_join(a, b, pat);
    clear_join(a + b, "<bgColor indexed=\"64\"/></patternFill>"@, pat);
    assert(fill_inner(color) == a + b + "<bgColor indexed=\"64\"/></patternFill>"@);
}

/// A fill is read back as it was written.
pub proof fn fill_comes_back(color: Seq<char>)
    ensures
        fill_read(fill_inner(color)) == rgb(argb(color)),
{
    let v = argb(color);
    argb_is_hex(color);
    plain_is_bare(v);
    let rest = "<fgColor rgb=\""@ + v + "\"/>"@ + "<bgColor indexed=\"64\"/></patternFill>"@;
    let p = "<patternFill patternType=\"solid\">"@;
    let s = fill_inner(color);
    reveal_strlit("<patternFill patternType=\"solid\">");
    assert(s == p + rest);
    assert(quoted(s, "patternType=\""@) == Some("solid"@)) by {
        reveal_strlit("<patternFill ");
        reveal_strlit("patternType=\"");
        reveal_strlit("solid");
        reveal_strlit("\"");
        reveal_strlit(">");
        let (a, o) = ("<patternFill "@, "patternType=\""@);
        assert(p == a + o + "solid"@ + "\""@ + ">"@);
        signs_clear(a, o, 7);
        clear_without("solid"@, "\""@);
        enclosed_found(a, o, "solid"@, "\""@, ">"@ + rest);
        assert(s == a + o + "solid"@ + "\""@ + (">"@ + rest));
    }
    assert(first_key_in_tag(s, "<fgColor"@, "rgb=\""@) == Some(v)) by {
        reveal_strlit("<fgColor");
        reveal_strlit("<fgColor rgb=\"");
        reveal_strlit(" ");
        reveal_strlit("rgb=\"");
        let (o, key) = ("<fgColor"@, "rgb=\""@);
        assert("<fgColor rgb=\""@ == o + " "@ + key);
        signs_clear(p, o, 1);
        color_clear(v);
        let b = "<bgColor indexed=\"64\"/></patternFill>"@;
        key_first(p, o, key, "gb=\""@, v, b);
        assert(s == p + (o + " "@ + (key + v + "\"/>"@) + b));
    }
}

// ---- fonts and fills among other tables

/// A pattern that stands in no font: the end of the fonts, or the start of another table.
pub open spec fn beside_fonts(pat: Seq<char>) -> bool {
    pat == "</fonts>"@ || pat == "<fills"@ || pat == "<borders"@ || pat == "<cellXfs"@ || pat
        == "<numFmt"@
}

/// A pattern that stands in no fill: the end of the fills, or the start of another table.
pub open spec fn beside_fills(pat: Seq<char>) -> bool {
    pat == "</fills>"@ || pat == "<borders"@ || pat == "<cellXfs"@ || pat == "<numFmt"@
}

pub proof fn table_literals()
    ensures
        "</fonts>"@ == seq!['<', '/', 'f', 'o', 'n', 't', 's', '>'],
        "</fills>"@ == seq!['<', '/', 'f', 'i', 'l', 'l', 's', '>'],
        "</borders>"@ == seq!['<', '/', 'b', 'o', 'r', 'd', 'e', 'r', 's', '>'],
        "</cellXfs>"@ == seq!['<', '/', 'c', 'e', 'l', 'l', 'X', 'f', 's', '>'],
        "<fonts"@ == seq!['<', 'f', 'o', 'n', 't', 's'],
        "<fills"@ == seq!['<', 'f', 'i', 'l', 'l', 's'],
        "<borders"@ == seq!['<', 'b', 'o', 'r', 'd', 'e', 'r', 's'],
        "<cellXfs"@ == seq!['<', 'c', 'e', 'l', 'l', 'X', 'f', 's'],
        "<numFmt"@ == seq!['<', 'n', 'u', 'm', 'F', 'm', 't'],
{
    reveal_strlit("</fonts>");
    reveal_strlit("</fills>");
    reveal_strlit("</borders>");
    reveal_strlit("</cellXfs>");
    reveal_strlit("<fonts");
    reveal_strlit("<fills");
    reveal_strlit("<borders");
    reveal_strlit("<cellXfs");
    reveal_strlit("<numFmt");
}

/// A font is clear of what stands beside fonts.
pub proof fn font_clear(s: Style, pat: Seq<char>)
    requires
        font_ok(s),
        beside_fonts(pat),
    ensures
        clear(font_xml(s), pat),
{
    table_literals();
    font_literals();
    font_form(s);
    reveal_strlit("<font>");
    reveal_strlit("</font>");
    if pat[1] == 'b' {
        lit_clear("<b/>"@, pat, 2);
    } else {
        lit_clear("<b/>"@, pat, 1);
    }
    lit_clear("<i/>"@, pat, 1);
    lit_clear("<u/>"@, pat, 1);
    lit_clear("<strike/>"@, pat, 1);
    lit_clear("<sz val=\""@, pat, 1);
    if pat[1] == 'c' {
        lit_clear("<color rgb=\""@, pat, 2);
    } else {
        lit_clear("<color rgb=\""@, pat, 1);
    }
    if pat[1] == 'n' {
        lit_clear("<name val=\""@, pat, 2);
    } else {
        lit_clear("<name val=\""@, pat, 1);
    }
    font_inner_clear(s, pat);
    if pat[1] == 'f' {
        lit_clear("<font>"@, pat, 2);
    } else {
        lit_clear("<font>"@, pat, 1);
    }
    if pat[1] == '/' {
        lit_clear("</font>"@, pat, 6);
    } else {
        lit_clear("</font>"@, pat, 1);
    }
    clear_join("<font>"@, font_inner(s), pat);
    clear_join("<font>"@ + font_inner(s), "</font>"@, pat);
}

/// What stands in a font is clear of its end.
pub proof fn font_inner_ends(s: Style)
    requires
        font_ok(s),
    ensures
        clear(font_inner(s), "</font>"@),
{
    reveal_strlit("</font>");
    font_inner_second(s, "</font>"@);
}

/// A fill around what stands in it is clear of what stands beside fills.
proof fn fill_around(x: Seq<char>, pat: Seq<char>)
    requires
        beside_fills(pat),
        clear(x, pat),
    ensures
        clear("<fill>"@ + x + "</fill>"@, pat),
{
    table_literals();
    reveal_strlit("<fill>");
    reveal_strlit("</fill>");
    lit_clear("<fill>"@, pat, 1);
    if pat[1] == '/' {
        lit_clear("</fill>"@, pat, 6);
    } else {
        lit_clear("</fill>"@, pat, 1);
    }
    clear_join("<fill>"@, x, pat);
    clear_join("<fill>"@ + x, "</fill>"@, pat);
}

proof fn fill_tags_clear(pat: Seq<char>)
    requires
        beside_fills(pat) || pat == "</fill>"@,
    ensures
        clear("<patternFill patternType=\"solid\">"@, pat),
        clear("<fgColor rgb=\""@, pat),
        clear("<bgColor indexed=\"64\"/></patternFill>"@, pat),
{
    table_literals();
    reveal_strlit("</fill>");
    reveal_strlit("<patternFill patternType=\"solid\">");
    reveal_strlit("<fgColor rgb=\"");
    reveal_strlit("<bgColor indexed=\"64\"/></patternFill>");
    signs_clear("<patternFill patternType=\"solid\">"@, pat, 1);
    signs_clear("<fgColor rgb=\""@, pat, 1);
    signs_clear("<bgColor indexed=\"64\"/></patternFill>"@, pat, 2);
}

/// A fill is clear of what stands beside fills.
pub proof fn fill_clear(color: Seq<char>, pat: Seq<char>)
    requires
        beside_fills(pat),
    ensures
        clear(fill_xml(color), pat),
{
    table_literals();
    fill_tags_clear(pat);
    fill_inner_clear(color, pat);
    fill_form(color);
    fill_around(fill_inner(color), pat);
}

/// What stands in a fill is clear of its end.
pub proof fn fill_inner_ends(color: Seq<char>)
    ensures
        clear(fill_inner(color), "</fill>"@),
{
    reveal_strlit("</fill>");
    fill_tags_clear("</fill>"@);
    fill_inner_clear(color, "</fill>"@);
}

/// What stands in the two fills that every file has.
pub open spec fn base_fill(i: int) -> Seq<char> {
    if i == 0 {
        "<patternFill patternType=\"none\"/>"@
    } else {
        "<patternFill patternType=\"gray125\"/>"@
    }
}

/// The two fills that every file has.
pub proof fn base_fills(pat: Seq<char>)
    requires
        beside_fills(pat) || pat == "</fill>"@,
    ensures
        base_tables().fills == seq![
            "<fill>"@ + base_fill(0) + "</fill>"@,
            "<fill>"@ + base_fill(1) + "</fill>"@,
        ],
        clear(base_fill(0), pat),
        clear(base_fill(1), pat),
        beside_fills(pat) ==> clear("<fill>"@ + base_fill(0) + "</fill>"@, pat),
        beside_fills(pat) ==> clear("<fill>"@ + base_fill(1) + "</fill>"@, pat),
{
    table_literals();
    reveal_strlit("<fill>");
    reveal_strlit("</fill>");
    reveal_strlit("<patternFill patternType=\"none\"/>");
    reveal_strlit("<patternFill patternType=\"gray125\"/>");
    reveal_strlit("<fill><patternFill patternType=\"none\"/></fill>");
    reveal_strlit("<fill><patternFill patternType=\"gray125\"/></fill>");
    assert("<fill><patternFill patternType=\"none\"/></fill>"@ == "<fill>"@ + base_fill(0) + "</fill>"@);
    assert("<fill><patternFill patternType=\"gray125\"/></fill>"@ == "<fill>"@ + base_fill(1)
        + "</fill>"@);
    signs_clear(base_fill(0), pat, 1);
    signs_clear(base_fill(1), pat, 1);
    if beside_fills(pat) {
        fill_around(base_fill(0), pat);
        fill_around(base_fill(1), pat);
    }
}

/// A fill of a colour is none of the two.
pub proof fn fill_is_new(color: Seq<char>)
    ensures
        fill_xml(color) != base_tables().fills[0],
        fill_xml(color) != base_tables().fills[1],
{
    let f = fill_xml(color);
    reveal_strlit("<fill><patternFill patternType=\"solid\"><fgColor rgb=\"");
    reveal_strlit("<fill><patternFill patternType=\"none\"/></fill>");
    reveal_strlit("<fill><patternFill patternType=\"gray125\"/></fill>");
    let p = "<fill><patternFill patternType=\"solid\"><fgColor rgb=\""@;
    assert(f[32] == p[32]);
    assert(p[32] == 's');
    assert("<fill><patternFill patternType=\"none\"/></fill>"@[32] == 'n');
    assert("<fill><patternFill patternType=\"gray125\"/></fill>"@[32] == 'g');
}

/// The font that every file has is one that says nothing.
pub proof fn base_font()
    ensures
        base_tables().fonts == seq![font_xml(empty_style())],
        font_ok(empty_style()),
{
    let s = empty_style();
    reveal_strlit("<font><sz val=\"11\"/><name val=\"Calibri\"/></font>");
    reveal_strlit("<font>");
    reveal_strlit("<sz val=\"");
    reveal_strlit("11");
    reveal_strlit("\"/>");
    reveal_strlit("<name val=\"");
    reveal_strlit("Calibri");
    reveal_strlit("\"/></font>");
    let n = "Calibri"@;
    plain_escaped(n);
    let e = Seq::<char>::empty();
    assert(font_xml(s) == "<font>"@ + e + e + e + e + "<sz val=\""@ + "11"@ + "\"/>"@ + e
        + "<name val=\""@ + n + "\"/></font>"@);
    let x = "<font>"@ + "<sz val=\""@ + "11"@ + "\"/>"@ + "<name val=\""@ + n + "\"/></font>"@;
    assert("<font>"@ + e + e + e + e == "<font>"@);
    assert(font_xml(s) == x);
    assert(x == "<font><sz val=\"11\"/><name val=\"Calibri\"/></font>"@);
    assert(base_tables().fonts == seq![x]);
}

/// A text of letters is escaped as it is.
proof fn plain_escaped(s: Seq<char>)
    requires
        plain(s),
    ensures
        esc_text(s, Escape::Full) == s,
    decreases s.len(),
{
    if s.len() > 0 {
        let p = s.drop_last();
        assert forall|i: int| 0 <= i < p.len() implies crate::cell_law::plain_char(#[trigger] p[i]) by {
            assert(p[i] == s[i]);
        }
        plain_escaped(p);
        assert(crate::cell_law::plain_char(s[s.len() - 1]));
        assert(s == p.push(s.last()));
    }
}

} // verus!
