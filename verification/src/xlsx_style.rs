//! Styles in spreadsheet files: colours, alignments, and the tables of fonts, fills, borders,
//! number formats and cell formats that a style is written as.
use crate::decimal::{dec, push_dec};
use crate::keyset::KeySet;
use crate::numeral::{is_nonzero, is_positive, nonzero, positive, whole, whole_part};
use crate::style::{empty_style, BorderEdge, BorderLineStyle, Borders, HAlign, Style, VAlign};
use crate::text::{
    cat, chars_of, concat_texts, join, join_texts, opt, place, place_of, push_if, put, same_text,
    slice_string, texts, trim_start_char, trim_text, trimmed,
};
use crate::token::{is_digit, spec_is_digit};
use crate::xml::{esc, esc_text, Escape};
use vstd::prelude::*;

verus! {

/// What every part of a file starts with.
pub open spec fn xml_decl() -> Seq<char> {
    "<?xml version=\"1.0\" encoding=\"UTF-8\" standalone=\"yes\"?>\n"@
}

/// What every part of a file starts with.
pub fn xml_declaration() -> (r: String)
    ensures
        r@ == xml_decl(),
{
    "<?xml version=\"1.0\" encoding=\"UTF-8\" standalone=\"yes\"?>\n".to_string()
}

// ---- colours

pub open spec fn is_hex(c: char) -> bool {
    spec_is_digit(c) || 'a' <= c <= 'f' || 'A' <= c <= 'F'
}

pub open spec fn all_hex(s: Seq<char>) -> bool {
    forall|i: int| 0 <= i < s.len() ==> is_hex(#[trigger] s[i])
}

/// An ASCII letter as a capital; any other character as it is.
pub open spec fn ascii_upper_char(c: char) -> char {
    if 'a' <= c <= 'z' {
        (c as int - 32) as char
    } else {
        c
    }
}

/// An ASCII letter in lower case; any other character as it is.
pub open spec fn ascii_lower_char(c: char) -> char {
    if 'A' <= c <= 'Z' {
        (c as int + 32) as char
    } else {
        c
    }
}

/// A text with its ASCII letters as capitals.
pub open spec fn ascii_upper(s: Seq<char>) -> Seq<char> {
    Seq::new(s.len(), |i: int| ascii_upper_char(s[i]))
}

/// A text with its ASCII letters in lower case.
pub open spec fn ascii_lower(s: Seq<char>) -> Seq<char> {
    Seq::new(s.len(), |i: int| ascii_lower_char(s[i]))
}

/// The digits of a colour: `rgb` stands for `rrggbb`.
pub open spec fn full_hex(c: Seq<char>) -> Seq<char> {
    if c.len() == 3 && all_hex(c) {
        seq![c[0], c[0], c[1], c[1], c[2], c[2]]
    } else {
        c
    }
}

/// A colour `#rgb` or `#rrggbb` as eight hexadecimal digits; black where it is neither.
pub open spec fn argb(color: Seq<char>) -> Seq<char> {
    let full = full_hex(trim_start_char(trimmed(color), '#'));
    if full.len() == 6 && all_hex(full) {
        "FF"@ + ascii_upper(full)
    } else if full.len() == 8 && all_hex(full) {
        ascii_upper(full)
    } else {
        "FF000000"@
    }
}

/// The colour `#rrggbb` that six or eight hexadecimal digits stand for.
pub open spec fn rgb(argb: Seq<char>) -> Option<Seq<char>> {
    let c = trimmed(argb);
    if c.len() == 8 && all_hex(c) {
        Some("#"@ + ascii_lower(c.skip(2)))
    } else if c.len() == 6 && all_hex(c) {
        Some("#"@ + ascii_lower(c))
    } else {
        None
    }
}

fn hex(c: char) -> (r: bool)
    ensures
        r == is_hex(c),
{
    is_digit(c) || ('a' <= c && c <= 'f') || ('A' <= c && c <= 'F')
}

fn hex_only(s: &Vec<char>) -> (r: bool)
    ensures
        r == all_hex(s@),
{
    let mut i: usize = 0;
    while i < s.len()
        invariant
            i <= s.len(),
            forall|k: int| 0 <= k < i ==> is_hex(#[trigger] s@[k]),
        decreases s.len() - i,
    {
        if !hex(s[i]) {
            return false;
        }
        i = i + 1;
    }
    true
}

/// Appends a text with its ASCII letters as capitals.
pub fn push_upper(out: &mut String, s: &Vec<char>)
    ensures
        final(out)@ == old(out)@ + ascii_upper(s@),
{
    let mut i: usize = 0;
    assert(out@ == old(out)@ + ascii_upper(s@).take(0));
    while i < s.len()
        invariant
            i <= s.len(),
            out@ == old(out)@ + ascii_upper(s@).take(i as int),
        decreases s.len() - i,
    {
        let c = s[i];
        if 'a' <= c && c <= 'z' {
            out.push((c as u8 - 32) as char);
        } else {
            out.push(c);
        }
        assert(ascii_upper(s@).take(i + 1) == ascii_upper(s@).take(i as int).push(
            ascii_upper_char(s@[i as int]),
        ));
        i = i + 1;
    }
    assert(ascii_upper(s@).take(i as int) == ascii_upper(s@));
}

/// Appends a text from `from` on with its ASCII letters in lower case.
pub fn push_lower(out: &mut String, s: &Vec<char>, from: usize)
    requires
        from <= s.len(),
    ensures
        final(out)@ == old(out)@ + ascii_lower(s@.skip(from as int)),
{
    let ghost t = ascii_lower(s@.skip(from as int));
    let mut i: usize = from;
    assert(out@ == old(out)@ + t.take(0));
    while i < s.len()
        invariant
            from <= i <= s.len(),
            t == ascii_lower(s@.skip(from as int)),
            out@ == old(out)@ + t.take(i - from),
        decreases s.len() - i,
    {
        let c = s[i];
        if 'A' <= c && c <= 'Z' {
            out.push((c as u8 + 32) as char);
        } else {
            out.push(c);
        }
        assert(t.take(i + 1 - from) == t.take(i - from).push(ascii_lower_char(s@[i as int])));
        i = i + 1;
    }
    assert(t.take(i - from) == t);
}

/// A colour `#rgb` or `#rrggbb` as eight hexadecimal digits.
pub fn to_argb(color: &str) -> (r: String)
    ensures
        r@ == argb(color@),
{
    let t: String = trim_text(color);
    let chars: Vec<char> = chars_of(t.as_str());
    let mut a: usize = 0;
    assert(chars@.skip(0) == chars@);
    while a < chars.len() && chars[a] == '#'
        invariant
            a <= chars.len(),
            trim_start_char(chars@, '#') == trim_start_char(chars@.skip(a as int), '#'),
        decreases chars.len() - a,
    {
        assert(chars@.skip(a as int).skip(1) == chars@.skip(a + 1));
        a = a + 1;
    }
    let rest: String = slice_string(&chars, a, chars.len());
    assert(rest@ == chars@.skip(a as int));
    let c: Vec<char> = chars_of(rest.as_str());
    let full: Vec<char> = if c.len() == 3 && hex_only(&c) {
        let v: Vec<char> = vec![c[0], c[0], c[1], c[1], c[2], c[2]];
        assert(v@ == seq![c@[0], c@[0], c@[1], c@[1], c@[2], c@[2]]);
        v
    } else {
        c
    };
    assert(full@ == full_hex(trim_start_char(trimmed(color@), '#')));
    if full.len() == 6 && hex_only(&full) {
        let mut out: String = "FF".to_string();
        push_upper(&mut out, &full);
        out
    } else if full.len() == 8 && hex_only(&full) {
        let mut out: String = String::new();
        push_upper(&mut out, &full);
        assert(out@ == ascii_upper(full@));
        out
    } else {
        "FF000000".to_string()
    }
}

/// The colour `#rrggbb` that six or eight hexadecimal digits stand for.
pub fn from_argb(argb: Option<&str>) -> (r: Option<String>)
    ensures
        match argb {
            None => r is None,
            Some(a) => match rgb(a@) {
                None => r is None,
                Some(c) => r matches Some(s) && s@ == c,
            },
        },
{
    let a: &str = match argb {
        Some(a) => a,
        None => {
            return None;
        },
    };
    let t: String = trim_text(a);
    let c: Vec<char> = chars_of(t.as_str());
    if c.len() == 8 && hex_only(&c) {
        let mut out: String = "#".to_string();
        push_lower(&mut out, &c, 2);
        return Some(out);
    }
    if c.len() == 6 && hex_only(&c) {
        let mut out: String = "#".to_string();
        push_lower(&mut out, &c, 0);
        assert(c@.skip(0) == c@);
        return Some(out);
    }
    None
}

/// A colour of six digits comes back from a file as it was, in lower case.
pub proof fn argb_round_trip(digits: Seq<char>)
    requires
        digits.len() == 6,
        all_hex(digits),
    ensures
        rgb(argb("#"@ + digits)) == Some("#"@ + ascii_lower(digits)),
{
    reveal_strlit("#");
    reveal_strlit("FF");
    let c = "#"@ + digits;
    assert(is_hex(c.last())) by {
        assert(c.last() == digits[5]);
    }
    assert(c[0] == '#');
    assert(trimmed(c) == c);
    assert(c.skip(1) == digits);
    assert(is_hex(digits[0]));
    assert(trim_start_char(c, '#') == digits) by {
        assert(trim_start_char(digits, '#') == digits);
    }
    let a = "FF"@ + ascii_upper(digits);
    assert forall|i: int| 0 <= i < a.len() implies is_hex(#[trigger] a[i]) by {
        if i >= 2 {
            assert(is_hex(digits[i - 2]));
        }
    }
    assert(is_hex(a[0]) && is_hex(a.last()));
    assert(trimmed(a) == a);
    assert(a.skip(2) == ascii_upper(digits));
    assert(ascii_lower(ascii_upper(digits)) == ascii_lower(digits)) by {
        assert forall|i: int| 0 <= i < 6 implies #[trigger] ascii_lower(ascii_upper(digits))[i]
            == ascii_lower(digits)[i] by {
            assert(is_hex(digits[i]));
        }
    }
}

// ---- alignments and lines

pub open spec fn h_name(h: HAlign) -> Seq<char> {
    match h {
        HAlign::Left => "left"@,
        HAlign::Center => "center"@,
        HAlign::Right => "right"@,
        HAlign::Fill => "fill"@,
        HAlign::Justify => "justify"@,
        HAlign::CenterContinuous => "centerContinuous"@,
    }
}

pub open spec fn v_name(v: VAlign) -> Seq<char> {
    match v {
        VAlign::Top => "top"@,
        VAlign::Middle => "center"@,
        VAlign::Bottom => "bottom"@,
    }
}

pub open spec fn h_named(s: Seq<char>) -> Option<HAlign> {
    if s == "left"@ {
        Some(HAlign::Left)
    } else if s == "center"@ {
        Some(HAlign::Center)
    } else if s == "right"@ {
        Some(HAlign::Right)
    } else if s == "fill"@ {
        Some(HAlign::Fill)
    } else if s == "justify"@ {
        Some(HAlign::Justify)
    } else if s == "centerContinuous"@ {
        Some(HAlign::CenterContinuous)
    } else {
        None
    }
}

pub open spec fn v_named(s: Seq<char>) -> Option<VAlign> {
    if s == "top"@ {
        Some(VAlign::Top)
    } else if s == "center"@ {
        Some(VAlign::Middle)
    } else if s == "bottom"@ {
        Some(VAlign::Bottom)
    } else {
        None
    }
}

pub open spec fn line_name(b: BorderLineStyle) -> Seq<char> {
    match b {
        BorderLineStyle::NoLine => "none"@,
        BorderLineStyle::Thin => "thin"@,
        BorderLineStyle::Medium => "medium"@,
        BorderLineStyle::Thick => "thick"@,
        BorderLineStyle::Dashed => "dashed"@,
        BorderLineStyle::Dotted => "dotted"@,
        BorderLineStyle::Double => "double"@,
    }
}

/// The line that a name stands for; thin where it is not known.
pub open spec fn line_named(s: Seq<char>) -> BorderLineStyle {
    if s == "medium"@ {
        BorderLineStyle::Medium
    } else if s == "thick"@ {
        BorderLineStyle::Thick
    } else if s == "dashed"@ || s == "mediumDashed"@ {
        BorderLineStyle::Dashed
    } else if s == "dotted"@ {
        BorderLineStyle::Dotted
    } else if s == "double"@ {
        BorderLineStyle::Double
    } else {
        BorderLineStyle::Thin
    }
}

/// The name of a horizontal alignment.
pub fn h_to_xlsx(h: HAlign) -> (r: &'static str)
    ensures
        r@ == h_name(h),
{
    match h {
        HAlign::Left => "left",
        HAlign::Center => "center",
        HAlign::Right => "right",
        HAlign::Fill => "fill",
        HAlign::Justify => "justify",
        HAlign::CenterContinuous => "centerContinuous",
    }
}

/// The name of a vertical alignment.
pub fn v_to_xlsx(v: VAlign) -> (r: &'static str)
    ensures
        r@ == v_name(v),
{
    match v {
        VAlign::Top => "top",
        VAlign::Middle => "center",
        VAlign::Bottom => "bottom",
    }
}

/// The horizontal alignment of a name.
pub fn h_from_xlsx(s: &str) -> (r: Option<HAlign>)
    ensures
        r == h_named(s@),
{
    if same_text(s, "left") {
        Some(HAlign::Left)
    } else if same_text(s, "center") {
        Some(HAlign::Center)
    } else if same_text(s, "right") {
        Some(HAlign::Right)
    } else if same_text(s, "fill") {
        Some(HAlign::Fill)
    } else if same_text(s, "justify") {
        Some(HAlign::Justify)
    } else if same_text(s, "centerContinuous") {
        Some(HAlign::CenterContinuous)
    } else {
        None
    }
}

/// The vertical alignment of a name.
pub fn v_from_xlsx(s: &str) -> (r: Option<VAlign>)
    ensures
        r == v_named(s@),
{
    if same_text(s, "top") {
        Some(VAlign::Top)
    } else if same_text(s, "center") {
        Some(VAlign::Middle)
    } else if same_text(s, "bottom") {
        Some(VAlign::Bottom)
    } else {
        None
    }
}

/// The name of a line.
pub fn border_to_xlsx(b: BorderLineStyle) -> (r: &'static str)
    ensures
        r@ == line_name(b),
{
    match b {
        BorderLineStyle::NoLine => "none",
        BorderLineStyle::Thin => "thin",
        BorderLineStyle::Medium => "medium",
        BorderLineStyle::Thick => "thick",
        BorderLineStyle::Dashed => "dashed",
        BorderLineStyle::Dotted => "dotted",
        BorderLineStyle::Double => "double",
    }
}

/// The line of a name.
pub fn border_from_xlsx(s: &str) -> (r: BorderLineStyle)
    ensures
        r == line_named(s@),
{
    if same_text(s, "medium") {
        BorderLineStyle::Medium
    } else if same_text(s, "thick") {
        BorderLineStyle::Thick
    } else if same_text(s, "dashed") || same_text(s, "mediumDashed") {
        BorderLineStyle::Dashed
    } else if same_text(s, "dotted") {
        BorderLineStyle::Dotted
    } else if same_text(s, "double") {
        BorderLineStyle::Double
    } else {
        BorderLineStyle::Thin
    }
}

/// The names of alignments and lines read back; a border side that is no line is not written.
pub proof fn names_round_trip(h: HAlign, v: VAlign, b: BorderLineStyle)
    ensures
        h_named(h_name(h)) == Some(h),
        v_named(v_name(v)) == Some(v),
        b != BorderLineStyle::NoLine ==> line_named(line_name(b)) == b,
{
    reveal_strlit("left");
    reveal_strlit("center");
    reveal_strlit("right");
    reveal_strlit("fill");
    reveal_strlit("justify");
    reveal_strlit("centerContinuous");
    reveal_strlit("top");
    reveal_strlit("bottom");
    reveal_strlit("thin");
    reveal_strlit("medium");
    reveal_strlit("thick");
    reveal_strlit("dashed");
    reveal_strlit("mediumDashed");
    reveal_strlit("dotted");
    reveal_strlit("double");
    assert("left"@[0] == 'l' && "fill"@[0] == 'f');
    assert("left"@.len() == 4 && "center"@.len() == 6 && "right"@.len() == 5 && "fill"@.len() == 4);
    assert("justify"@.len() == 7 && "centerContinuous"@.len() == 16);
    assert("left"@ != "center"@ && "left"@ != "right"@ && "fill"@ != "left"@ && "fill"@ != "center"@);
    assert("fill"@ != "right"@ && "right"@ != "center"@);
    assert("justify"@ != "left"@ && "justify"@ != "center"@ && "justify"@ != "right"@);
    assert("justify"@ != "fill"@);
    assert("centerContinuous"@ != "left"@ && "centerContinuous"@ != "center"@);
    assert("centerContinuous"@ != "right"@ && "centerContinuous"@ != "fill"@);
    assert("centerContinuous"@ != "justify"@);
    assert("center"@[0] == 'c' && "bottom"@[0] == 'b');
    assert("top"@.len() == 3 && "bottom"@.len() == 6);
    assert("center"@ != "top"@ && "bottom"@ != "top"@ && "bottom"@ != "center"@);
    assert("medium"@[0] == 'm' && "dashed"@[0] == 'd' && "dashed"@[1] == 'a');
    assert("dotted"@[0] == 'd' && "dotted"@[1] == 'o' && "dotted"@[2] == 't');
    assert("double"@[0] == 'd' && "double"@[1] == 'o' && "double"@[2] == 'u');
    assert("thin"@.len() == 4 && "thick"@.len() == 5 && "mediumDashed"@.len() == 12);
    assert("medium"@.len() == 6 && "dashed"@.len() == 6 && "dotted"@.len() == 6);
    assert("double"@.len() == 6);
    assert("thick"@ != "medium"@ && "dashed"@ != "medium"@ && "dashed"@ != "thick"@);
    assert("dotted"@ != "medium"@ && "dotted"@ != "thick"@ && "dotted"@ != "dashed"@);
    assert("dotted"@ != "mediumDashed"@ && "double"@ != "medium"@ && "double"@ != "thick"@);
    assert("double"@ != "dashed"@ && "double"@ != "mediumDashed"@ && "double"@ != "dotted"@);
    assert("thin"@ != "medium"@ && "thin"@ != "thick"@ && "thin"@ != "dashed"@);
    assert("thin"@ != "mediumDashed"@ && "thin"@ != "dotted"@ && "thin"@ != "double"@);
}

/// The numeral of a whole number.
pub open spec fn signed(n: int) -> Seq<char> {
    if n < 0 {
        "-"@ + dec((-n) as nat)
    } else {
        dec(n as nat)
    }
}

/// The degrees as files count them: those below the base line stand above 90.
pub open spec fn rotation(r: int) -> nat {
    if r >= 0 {
        r as nat
    } else {
        (90 - r) as nat
    }
}

pub open spec fn h_part(s: Style) -> Seq<Seq<char>> {
    match s.h_align {
        Some(h) => seq!["horizontal=\""@ + h_name(h) + "\""@],
        None => Seq::empty(),
    }
}

pub open spec fn v_part(s: Style) -> Seq<Seq<char>> {
    match s.v_align {
        Some(v) => seq!["vertical=\""@ + v_name(v) + "\""@],
        None => Seq::empty(),
    }
}

pub open spec fn wrap_part(s: Style) -> Seq<Seq<char>> {
    if s.word_wrap == Some(true) {
        seq!["wrapText=\"1\""@]
    } else {
        Seq::empty()
    }
}

pub open spec fn rotation_part(s: Style) -> Seq<Seq<char>> {
    match s.text_rotation {
        Some(t) if is_nonzero(t@) => seq!["textRotation=\""@ + dec(rotation(whole(t@))) + "\""@],
        _ => Seq::empty(),
    }
}

pub open spec fn indent_part(s: Style) -> Seq<Seq<char>> {
    match s.indent {
        Some(t) if is_positive(t@) => seq!["indent=\""@ + signed(whole(t@)) + "\""@],
        _ => Seq::empty(),
    }
}

pub open spec fn shrink_part(s: Style) -> Seq<Seq<char>> {
    if s.shrink_to_fit == Some(true) {
        seq!["shrinkToFit=\"1\""@]
    } else {
        Seq::empty()
    }
}

/// The attributes of an alignment, one by one.
pub open spec fn align_parts(s: Style) -> Seq<Seq<char>> {
    h_part(s) + v_part(s) + wrap_part(s) + rotation_part(s) + indent_part(s) + shrink_part(s)
}

/// The attributes of an alignment.
pub open spec fn align_text(s: Style) -> Seq<char> {
    join(align_parts(s), " "@)
}

fn push_signed(out: &mut String, n: i64)
    ensures
        final(out)@ == old(out)@ + signed(n as int),
{
    if n < 0 {
        out.append("-");
        push_dec(out, (-(n as i128)) as u128);
        assert(out@ == old(out)@ + ("-"@ + dec((-n) as nat)));
    } else {
        push_dec(out, n as u128);
    }
}

fn attribute(name: &str, value: &str) -> (r: String)
    ensures
        r@ == name@ + value@ + "\""@,
{
    let mut out: String = name.to_string();
    out.append(value);
    out.append("\"");
    out
}

/// The attributes of an alignment.
pub fn align_attrs(s: &Style) -> (r: String)
    ensures
        r@ == align_text(*s),
{
    let mut parts: Vec<String> = Vec::new();
    let ghost p0 = Seq::<Seq<char>>::empty();
    assert(texts(parts@) == p0);
    let ghost a1 = h_part(*s);
    if let Some(h) = s.h_align {
        parts.push(attribute("horizontal=\"", h_to_xlsx(h)));
    }
    assert(texts(parts@) == a1);
    let ghost a2 = v_part(*s);
    if let Some(v) = s.v_align {
        parts.push(attribute("vertical=\"", v_to_xlsx(v)));
    }
    assert(texts(parts@) == a1 + a2);
    let ghost a3 = wrap_part(*s);
    if let Some(true) = s.word_wrap {
        parts.push("wrapText=\"1\"".to_string());
    }
    assert(texts(parts@) == a1 + a2 + a3);
    let ghost a4 = rotation_part(*s);
    if let Some(t) = &s.text_rotation {
        if nonzero(t.as_str()) {
            let n: i64 = whole_part(t.as_str());
            let d: u128 = if n >= 0 {
                n as u128
            } else {
                (90 - n as i128) as u128
            };
            let mut out: String = "textRotation=\"".to_string();
            push_dec(&mut out, d);
            out.append("\"");
            parts.push(out);
        }
    }
    assert(texts(parts@) == a1 + a2 + a3 + a4);
    let ghost a5 = indent_part(*s);
    if let Some(t) = &s.indent {
        if positive(t.as_str()) {
            let mut out: String = "indent=\"".to_string();
            push_signed(&mut out, whole_part(t.as_str()));
            out.append("\"");
            parts.push(out);
        }
    }
    assert(texts(parts@) == a1 + a2 + a3 + a4 + a5);
    let ghost a6 = shrink_part(*s);
    if let Some(true) = s.shrink_to_fit {
        parts.push("shrinkToFit=\"1\"".to_string());
    }
    assert(texts(parts@) == a1 + a2 + a3 + a4 + a5 + a6);
    join_texts(&parts, " ")
}

// ---- the tables

/// The tables of a file's styles.
pub struct Tables {
    pub fonts: Seq<Seq<char>>,
    pub fills: Seq<Seq<char>>,
    pub borders: Seq<Seq<char>>,
    /// The number formats; the one at place `i` has the number `164 + i`.
    pub codes: Seq<Seq<char>>,
    /// The cell formats.
    pub xfs: Seq<Seq<char>>,
    /// What tells the cell formats apart; the first one has none.
    pub keys: Seq<Seq<char>>,
}

/// The tables of a file without styles.
pub open spec fn base_tables() -> Tables {
    Tables {
        fonts: seq!["<font><sz val=\"11\"/><name val=\"Calibri\"/></font>"@],
        fills: seq![
            "<fill><patternFill patternType=\"none\"/></fill>"@,
            "<fill><patternFill patternType=\"gray125\"/></fill>"@,
        ],
        borders: seq!["<border><left/><right/><top/><bottom/><diagonal/></border>"@],
        codes: Seq::empty(),
        xfs: seq!["<xf numFmtId=\"0\" fontId=\"0\" fillId=\"0\" borderId=\"0\" xfId=\"0\"/>"@],
        keys: Seq::empty(),
    }
}

pub open spec fn has_font(s: Style) -> bool {
    s.bold is Some || s.italic is Some || s.underline is Some || s.strikethrough is Some
        || s.font_size is Some || s.font_family is Some || s.fore_color is Some
}

/// A font as it is written.
pub open spec fn font_xml(s: Style) -> Seq<char> {
    "<font>"@ + opt(s.bold == Some(true), "<b/>"@) + opt(s.italic == Some(true), "<i/>"@) + opt(
        s.underline == Some(true),
        "<u/>"@,
    ) + opt(s.strikethrough == Some(true), "<strike/>"@) + "<sz val=\""@ + (match s.font_size {
        Some(n) => n@,
        None => "11"@,
    }) + "\"/>"@ + (match s.fore_color {
        Some(c) => "<color rgb=\""@ + argb(c@) + "\"/>"@,
        None => Seq::empty(),
    }) + "<name val=\""@ + esc_text(
        match s.font_family {
            Some(n) => n@,
            None => "Calibri"@,
        },
        Escape::Full,
    ) + "\"/></font>"@
}

/// A fill as it is written.
pub open spec fn fill_xml(color: Seq<char>) -> Seq<char> {
    "<fill><patternFill patternType=\"solid\"><fgColor rgb=\""@ + argb(color)
        + "\"/><bgColor indexed=\"64\"/></patternFill></fill>"@
}

/// A side of a border as it is written.
pub open spec fn edge_xml(side: Seq<char>, e: Option<BorderEdge>) -> Seq<char> {
    match e {
        Some(x) if x.style != BorderLineStyle::NoLine => "<"@ + side + " style=\""@ + line_name(
            x.style,
        ) + "\"><color rgb=\""@ + argb(x.color@) + "\"/></"@ + side + ">"@,
        _ => "<"@ + side + "/>"@,
    }
}

/// A border as it is written.
pub open spec fn border_xml(b: Borders) -> Seq<char> {
    "<border>"@ + edge_xml("left"@, b.left) + edge_xml("right"@, b.right) + edge_xml("top"@, b.top)
        + edge_xml("bottom"@, b.bottom) + "<diagonal/></border>"@
}

/// The numbers that a style has in the tables.
pub struct Ids {
    pub num_fmt: nat,
    pub font: nat,
    pub fill: nat,
    pub border: nat,
}

pub open spec fn style_ids(t: Tables, s: Style) -> Ids {
    Ids {
        num_fmt: match s.formatter {
            Some(c) => 164 + place(t.codes, c@),
            None => 0,
        },
        font: if has_font(s) {
            place(t.fonts, font_xml(s))
        } else {
            0
        },
        fill: match s.back_color {
            Some(c) => place(t.fills, fill_xml(c@)),
            None => 0,
        },
        border: match s.borders {
            Some(b) => place(t.borders, border_xml(b)),
            None => 0,
        },
    }
}

/// What tells a cell format from others.
pub open spec fn xf_key(ids: Ids, align: Seq<char>, unlocked: bool) -> Seq<char> {
    dec(ids.num_fmt) + "|"@ + dec(ids.font) + "|"@ + dec(ids.fill) + "|"@ + dec(ids.border) + "|"@
        + align + "|"@ + opt(unlocked, "u"@)
}

/// A cell format as it is written.
pub open spec fn xf_xml(ids: Ids, align: Seq<char>, unlocked: bool) -> Seq<char> {
    "<xf numFmtId=\""@ + dec(ids.num_fmt) + "\" fontId=\""@ + dec(ids.font) + "\" fillId=\""@ + dec(
        ids.fill,
    ) + "\" borderId=\""@ + dec(ids.border) + "\" xfId=\"0\""@ + opt(
        ids.num_fmt != 0,
        " applyNumberFormat=\"1\""@,
    ) + opt(ids.font != 0, " applyFont=\"1\""@) + opt(ids.fill != 0, " applyFill=\"1\""@) + opt(
        ids.border != 0,
        " applyBorder=\"1\""@,
    ) + opt(align.len() > 0, " applyAlignment=\"1\""@) + opt(unlocked, " applyProtection=\"1\""@)
        + xf_body(align, unlocked)
}

/// What stands in a cell format, or its end where nothing does.
pub open spec fn xf_body(align: Seq<char>, unlocked: bool) -> Seq<char> {
    if align.len() == 0 && !unlocked {
        "/>"@
    } else {
        ">"@ + opt(align.len() > 0, "<alignment "@ + align + "/>"@) + opt(
            unlocked,
            "<protection locked=\"0\"/>"@,
        ) + "</xf>"@
    }
}

/// The tables with a style put in, and the number of its cell format.
pub open spec fn interned(t: Tables, s: Style) -> (Tables, nat) {
    if s == empty_style() {
        (t, 0)
    } else {
        let ids = style_ids(t, s);
        let align = align_text(s);
        let unlocked = s.locked == Some(false);
        let key = xf_key(ids, align, unlocked);
        let t1 = Tables {
            fonts: if has_font(s) {
                put(t.fonts, font_xml(s))
            } else {
                t.fonts
            },
            fills: match s.back_color {
                Some(c) => put(t.fills, fill_xml(c@)),
                None => t.fills,
            },
            borders: match s.borders {
                Some(b) => put(t.borders, border_xml(b)),
                None => t.borders,
            },
            codes: match s.formatter {
                Some(c) => put(t.codes, c@),
                None => t.codes,
            },
            xfs: t.xfs,
            keys: put(t.keys, key),
        };
        let k = place(t.keys, key);
        if k < t.keys.len() {
            (t1, k + 1)
        } else {
            (Tables { xfs: t.xfs.push(xf_xml(ids, align, unlocked)), ..t1 }, t.xfs.len())
        }
    }
}

/// The number formats as they are written.
pub open spec fn codes_xml(codes: Seq<Seq<char>>) -> Seq<char>
    decreases codes.len(),
{
    if codes.len() == 0 {
        Seq::empty()
    } else {
        codes_xml(codes.drop_last()) + "<numFmt numFmtId=\""@ + dec((163 + codes.len()) as nat)
            + "\" formatCode=\""@ + esc_text(codes.last(), Escape::Full) + "\"/>"@
    }
}

/// The tables as they are written.
pub open spec fn styles_xml(t: Tables) -> Seq<char> {
    xml_decl() + "<styleSheet xmlns=\"http://schemas.openxmlformats.org/spreadsheetml/2006/main\">"@
        + (if t.codes.len() == 0 {
        Seq::empty()
    } else {
        "<numFmts count=\""@ + dec(t.codes.len()) + "\">"@ + codes_xml(t.codes) + "</numFmts>"@
    }) + "<fonts count=\""@ + dec(t.fonts.len()) + "\">"@ + cat(t.fonts)
        + "</fonts><fills count=\""@ + dec(t.fills.len()) + "\">"@ + cat(t.fills)
        + "</fills><borders count=\""@ + dec(t.borders.len()) + "\">"@ + cat(t.borders)
        + "</borders><cellStyleXfs count=\"1\"><xf numFmtId=\"0\" fontId=\"0\" fillId=\"0\" borderId=\"0\"/></cellStyleXfs><cellXfs count=\""@
        + dec(t.xfs.len()) + "\">"@ + cat(t.xfs)
        + "</cellXfs><cellStyles count=\"1\"><cellStyle name=\"Normal\" xfId=\"0\" builtinId=\"0\"/></cellStyles></styleSheet>"@
}

/// The tables of a file's styles while it is written.
pub struct StyleRegistry {
    fonts: Vec<String>,
    fills: Vec<String>,
    borders: Vec<String>,
    codes: KeySet,
    xfs: Vec<String>,
    keys: KeySet,
}

fn push_edge(out: &mut String, side: &str, e: &Option<BorderEdge>)
    ensures
        final(out)@ == old(out)@ + edge_xml(side@, *e),
{
    let mut s: String = "<".to_string();
    s.append(side);
    let line = match e {
        Some(x) => x.style,
        None => BorderLineStyle::NoLine,
    };
    match e {
        Some(x) => {
            if line != BorderLineStyle::NoLine {
                let color: String = to_argb(x.color.as_str());
                s.append(" style=\"");
                s.append(border_to_xlsx(line));
                s.append("\"><color rgb=\"");
                s.append(color.as_str());
                s.append("\"/></");
                s.append(side);
                s.append(">");
            } else {
                s.append("/>");
            }
        },
        None => {
            s.append("/>");
        },
    }
    out.append(s.as_str());
}

fn is_true(o: Option<bool>) -> (r: bool)
    ensures
        r == (o == Some(true)),
{
    match o {
        Some(b) => b,
        None => false,
    }
}

fn push_opt(out: &mut String, o: &Option<String>, default: &str)
    ensures
        final(out)@ == old(out)@ + (match *o {
            Some(s) => s@,
            None => default@,
        }),
{
    match o {
        Some(s) => out.append(s.as_str()),
        None => out.append(default),
    }
}

fn font_text(s: &Style) -> (r: String)
    ensures
        r@ == font_xml(*s),
{
    let mut out: String = "<font>".to_string();
    push_if(&mut out, is_true(s.bold), "<b/>");
    push_if(&mut out, is_true(s.italic), "<i/>");
    push_if(&mut out, is_true(s.underline), "<u/>");
    push_if(&mut out, is_true(s.strikethrough), "<strike/>");
    out.append("<sz val=\"");
    push_opt(&mut out, &s.font_size, "11");
    out.append("\"/>");
    let mut color: String = String::new();
    if let Some(c) = &s.fore_color {
        color = "<color rgb=\"".to_string();
        let a: String = to_argb(c.as_str());
        color.append(a.as_str());
        color.append("\"/>");
    }
    out.append(color.as_str());
    out.append("<name val=\"");
    let mut family: String = String::new();
    push_opt(&mut family, &s.font_family, "Calibri");
    assert(family@ == (match s.font_family {
        Some(n) => n@,
        None => "Calibri"@,
    }));
    let name: String = esc(family.as_str());
    out.append(name.as_str());
    out.append("\"/></font>");
    out
}

fn fill_text(color: &str) -> (r: String)
    ensures
        r@ == fill_xml(color@),
{
    let a: String = to_argb(color);
    let mut out: String = "<fill><patternFill patternType=\"solid\"><fgColor rgb=\"".to_string();
    out.append(a.as_str());
    out.append("\"/><bgColor indexed=\"64\"/></patternFill></fill>");
    out
}

fn border_text(b: &Borders) -> (r: String)
    ensures
        r@ == border_xml(*b),
{
    let mut out: String = "<border>".to_string();
    push_edge(&mut out, "left", &b.left);
    push_edge(&mut out, "right", &b.right);
    push_edge(&mut out, "top", &b.top);
    push_edge(&mut out, "bottom", &b.bottom);
    out.append("<diagonal/></border>");
    out
}

fn one(s: &str) -> (r: Vec<String>)
    ensures
        texts(r@) == seq![s@],
{
    let mut v: Vec<String> = Vec::new();
    v.push(s.to_string());
    v
}

impl StyleRegistry {
    /// The tables.
    pub closed spec fn view(&self) -> Tables {
        Tables {
            fonts: texts(self.fonts@),
            fills: texts(self.fills@),
            borders: texts(self.borders@),
            codes: self.codes.view(),
            xfs: texts(self.xfs@),
            keys: self.keys.view(),
        }
    }

    pub closed spec fn wf(&self) -> bool {
        &&& self.codes.wf()
        &&& self.keys.wf()
        &&& self.xfs@.len() == self.keys.view().len() + 1
    }

    /// The tables of a file without styles.
    pub fn new() -> (r: StyleRegistry)
        ensures
            r.wf(),
            r@ == base_tables(),
    {
        let mut fills: Vec<String> = Vec::new();
        fills.push("<fill><patternFill patternType=\"none\"/></fill>".to_string());
        fills.push("<fill><patternFill patternType=\"gray125\"/></fill>".to_string());
        let r = StyleRegistry {
            fonts: one("<font><sz val=\"11\"/><name val=\"Calibri\"/></font>"),
            fills,
            borders: one("<border><left/><right/><top/><bottom/><diagonal/></border>"),
            codes: KeySet::new(),
            xfs: one("<xf numFmtId=\"0\" fontId=\"0\" fillId=\"0\" borderId=\"0\" xfId=\"0\"/>"),
            keys: KeySet::new(),
        };
        assert(r@.fills == base_tables().fills);
        assert(texts(r.xfs@).len() == 1);
        r
    }

    /// The place of a text in a table, into which it is put unless it is there already.
    pub fn dedupe(arr: &mut Vec<String>, xml: String) -> (r: usize)
        ensures
            r == place(texts(old(arr)@), xml@),
            texts(final(arr)@) == put(texts(old(arr)@), xml@),
    {
        let i: usize = place_of(arr, xml.as_str());
        proof {
            crate::text::place_is_first(texts(arr@), xml@);
        }
        if i < arr.len() {
            return i;
        }
        let ghost before = texts(arr@);
        let ghost t = xml@;
        arr.push(xml);
        assert(texts(arr@) == before.push(t));
        i
    }

    fn intern_font(&mut self, s: &Style) -> (r: usize)
        requires
            old(self).wf(),
        ensures
            final(self).wf(),
            r == style_ids(old(self)@, *s).font,
            final(self)@ == (Tables {
                fonts: if has_font(*s) {
                    put(old(self)@.fonts, font_xml(*s))
                } else {
                    old(self)@.fonts
                },
                ..old(self)@
            }),
    {
        if s.bold.is_none() && s.italic.is_none() && s.underline.is_none()
            && s.strikethrough.is_none() && s.font_size.is_none() && s.font_family.is_none()
            && s.fore_color.is_none() {
            return 0;
        }
        let f: String = font_text(s);
        Self::dedupe(&mut self.fonts, f)
    }

    fn intern_fill(&mut self, s: &Style) -> (r: usize)
        requires
            old(self).wf(),
        ensures
            final(self).wf(),
            r == style_ids(old(self)@, *s).fill,
            final(self)@ == (Tables {
                fills: match s.back_color {
                    Some(c) => put(old(self)@.fills, fill_xml(c@)),
                    None => old(self)@.fills,
                },
                ..old(self)@
            }),
    {
        match &s.back_color {
            Some(c) => {
                let f: String = fill_text(c.as_str());
                Self::dedupe(&mut self.fills, f)
            },
            None => 0,
        }
    }

    fn intern_border(&mut self, s: &Style) -> (r: usize)
        requires
            old(self).wf(),
        ensures
            final(self).wf(),
            r == style_ids(old(self)@, *s).border,
            final(self)@ == (Tables {
                borders: match s.borders {
                    Some(b) => put(old(self)@.borders, border_xml(b)),
                    None => old(self)@.borders,
                },
                ..old(self)@
            }),
    {
        match &s.borders {
            Some(b) => {
                let f: String = border_text(b);
                Self::dedupe(&mut self.borders, f)
            },
            None => 0,
        }
    }

    fn intern_num_fmt(&mut self, s: &Style) -> (r: u128)
        requires
            old(self).wf(),
        ensures
            final(self).wf(),
            r == style_ids(old(self)@, *s).num_fmt,
            final(self)@ == (Tables {
                codes: match s.formatter {
                    Some(c) => put(old(self)@.codes, c@),
                    None => old(self)@.codes,
                },
                ..old(self)@
            }),
    {
        match &s.formatter {
            Some(c) => 164 + self.codes.intern(c.as_str()) as u128,
            None => 0,
        }
    }

    /// The number of a style's cell format, which is put into the tables unless it is there.
    pub fn intern(&mut self, style: &Style) -> (r: usize)
        requires
            old(self).wf(),
        ensures
            final(self).wf(),
            final(self)@ == interned(old(self)@, *style).0,
            r == interned(old(self)@, *style).1,
    {
        if style.is_empty() {
            return 0;
        }
        let ghost t = self@;
        let font: usize = self.intern_font(style);
        let fill: usize = self.intern_fill(style);
        let border: usize = self.intern_border(style);
        let num_fmt: u128 = self.intern_num_fmt(style);
        let ghost ids = style_ids(t, *style);
        let align: String = align_attrs(style);
        let unlocked = match style.locked {
            Some(b) => !b,
            None => false,
        };
        let mut key: String = String::new();
        push_dec(&mut key, num_fmt);
        assert(key@ == dec(ids.num_fmt));
        key.append("|");
        push_dec(&mut key, font as u128);
        key.append("|");
        push_dec(&mut key, fill as u128);
        key.append("|");
        push_dec(&mut key, border as u128);
        key.append("|");
        key.append(align.as_str());
        key.append("|");
        push_if(&mut key, unlocked, "u");
        assert(key@ == xf_key(ids, align@, unlocked));
        let n: usize = self.keys.len();
        let k: usize = self.keys.intern(key.as_str());
        proof {
            crate::text::place_is_first(t.keys, key@);
        }
        if k < n {
            return k + 1;
        }
        let mut x: String = "<xf numFmtId=\"".to_string();
        push_dec(&mut x, num_fmt);
        x.append("\" fontId=\"");
        push_dec(&mut x, font as u128);
        x.append("\" fillId=\"");
        push_dec(&mut x, fill as u128);
        x.append("\" borderId=\"");
        push_dec(&mut x, border as u128);
        x.append("\" xfId=\"0\"");
        push_if(&mut x, num_fmt != 0, " applyNumberFormat=\"1\"");
        push_if(&mut x, font != 0, " applyFont=\"1\"");
        push_if(&mut x, fill != 0, " applyFill=\"1\"");
        push_if(&mut x, border != 0, " applyBorder=\"1\"");
        let aligned = !align.as_str().is_empty();
        push_if(&mut x, aligned, " applyAlignment=\"1\"");
        push_if(&mut x, unlocked, " applyProtection=\"1\"");
        let mut body: String = "/>".to_string();
        if aligned || unlocked {
            let mut a: String = "<alignment ".to_string();
            a.append(align.as_str());
            a.append("/>");
            body = ">".to_string();
            push_if(&mut body, aligned, a.as_str());
            push_if(&mut body, unlocked, "<protection locked=\"0\"/>");
            body.append("</xf>");
        }
        x.append(body.as_str());
        assert(x@ == xf_xml(ids, align@, unlocked));
        let idx: usize = self.xfs.len();
        let ghost before = texts(self.xfs@);
        self.xfs.push(x);
        assert(texts(self.xfs@) == before.push(x@));
        assert(self@ == interned(t, *style).0);
        idx
    }

    /// The tables as they are written.
    pub fn to_xml(&self) -> (r: String)
        requires
            self.wf(),
        ensures
            r@ == styles_xml(self@),
    {
        let mut fmts: String = String::new();
        let n: usize = self.codes.len();
        let ghost codes = self.codes.view();
        let mut i: usize = 0;
        while i < n
            invariant
                i <= n,
                n == codes.len(),
                codes == self.codes.view(),
                fmts@ == codes_xml(codes.take(i as int)),
            decreases n - i,
        {
            assert(codes.take(i + 1).drop_last() == codes.take(i as int));
            assert(codes.take(i + 1).last() == codes[i as int]);
            let code: String = esc(self.codes.at(i).as_str());
            fmts.append("<numFmt numFmtId=\"");
            push_dec(&mut fmts, 164 + i as u128);
            fmts.append("\" formatCode=\"");
            fmts.append(code.as_str());
            fmts.append("\"/>");
            i = i + 1;
        }
        assert(codes.take(i as int) == codes);
        let mut num: String = String::new();
        if n > 0 {
            num = "<numFmts count=\"".to_string();
            push_dec(&mut num, n as u128);
            num.append("\">");
            num.append(fmts.as_str());
            num.append("</numFmts>");
        }
        let fonts: String = concat_texts(&self.fonts);
        let fills: String = concat_texts(&self.fills);
        let borders: String = concat_texts(&self.borders);
        let xfs: String = concat_texts(&self.xfs);
        let mut out: String = xml_declaration();
        out.append("<styleSheet xmlns=\"http://schemas.openxmlformats.org/spreadsheetml/2006/main\">");
        out.append(num.as_str());
        out.append("<fonts count=\"");
        push_dec(&mut out, self.fonts.len() as u128);
        out.append("\">");
        out.append(fonts.as_str());
        out.append("</fonts><fills count=\"");
        push_dec(&mut out, self.fills.len() as u128);
        out.append("\">");
        out.append(fills.as_str());
        out.append("</fills><borders count=\"");
        push_dec(&mut out, self.borders.len() as u128);
        out.append("\">");
        out.append(borders.as_str());
        out.append(
            "</borders><cellStyleXfs count=\"1\"><xf numFmtId=\"0\" fontId=\"0\" fillId=\"0\" borderId=\"0\"/></cellStyleXfs><cellXfs count=\"",
        );
        push_dec(&mut out, self.xfs.len() as u128);
        out.append("\">");
        out.append(xfs.as_str());
        out.append(
            "</cellXfs><cellStyles count=\"1\"><cellStyle name=\"Normal\" xfId=\"0\" builtinId=\"0\"/></cellStyles></styleSheet>",
        );
        out
    }
}

// ---- shared strings

/// Texts as they are written in the table of shared strings.
pub open spec fn shared_items(list: Seq<Seq<char>>) -> Seq<char>
    decreases list.len(),
{
    if list.len() == 0 {
        Seq::empty()
    } else {
        shared_items(list.drop_last()) + "<si><t xml:space=\"preserve\">"@ + esc_text(
            list.last(),
            Escape::Full,
        ) + "</t></si>"@
    }
}

/// The table of shared strings as it is written.
pub open spec fn shared_xml(list: Seq<Seq<char>>) -> Seq<char> {
    xml_decl()
        + "<sst xmlns=\"http://schemas.openxmlformats.org/spreadsheetml/2006/main\" count=\""@ + dec(
        list.len(),
    ) + "\" uniqueCount=\""@ + dec(list.len()) + "\">"@ + shared_items(list) + "</sst>"@
}

/// The texts that cells share, each once.
pub struct SharedStrings {
    list: KeySet,
}

impl SharedStrings {
    pub closed spec fn view(&self) -> Seq<Seq<char>> {
        self.list.view()
    }

    pub closed spec fn wf(&self) -> bool {
        self.list.wf()
    }

    pub fn new() -> (r: SharedStrings)
        ensures
            r.wf(),
            r@ == Seq::<Seq<char>>::empty(),
    {
        SharedStrings { list: KeySet::new() }
    }

    /// The number of a text, which is put in unless it is there.
    pub fn intern(&mut self, s: &str) -> (r: usize)
        requires
            old(self).wf(),
        ensures
            final(self).wf(),
            r == place(old(self)@, s@),
            final(self)@ == put(old(self)@, s@),
    {
        self.list.intern(s)
    }

    /// The table as it is written.
    pub fn to_xml(&self) -> (r: String)
        ensures
            r@ == shared_xml(self@),
    {
        let n: usize = self.list.len();
        let ghost list = self.list.view();
        let mut items: String = String::new();
        let mut i: usize = 0;
        while i < n
            invariant
                i <= n,
                n == list.len(),
                list == self.list.view(),
                items@ == shared_items(list.take(i as int)),
            decreases n - i,
        {
            assert(list.take(i + 1).drop_last() == list.take(i as int));
            assert(list.take(i + 1).last() == list[i as int]);
            let t: String = esc(self.list.at(i).as_str());
            items.append("<si><t xml:space=\"preserve\">");
            items.append(t.as_str());
            items.append("</t></si>");
            i = i + 1;
        }
        assert(list.take(i as int) == list);
        let mut out: String = xml_declaration();
        out.append(
            "<sst xmlns=\"http://schemas.openxmlformats.org/spreadsheetml/2006/main\" count=\"",
        );
        push_dec(&mut out, n as u128);
        out.append("\" uniqueCount=\"");
        push_dec(&mut out, n as u128);
        out.append("\">");
        out.append(items.as_str());
        out.append("</sst>");
        out
    }
}

/// A text that was put into a table stands at the place it was given.
pub proof fn put_keeps(list: Seq<Seq<char>>, s: Seq<char>)
    ensures
        place(list, s) < put(list, s).len(),
        put(list, s)[place(list, s) as int] == s,
        forall|k: int| 0 <= k < list.len() ==> put(list, s)[k] == #[trigger] list[k],
{
    crate::text::place_is_first(list, s);
}

} // verus!
