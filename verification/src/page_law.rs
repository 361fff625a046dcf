//! The page of a sheet is read back as it was written.
use crate::cell_law::{dec_is_plain, number_is_plain, plain, plain_is_bare};
use crate::decimal::{dec, parse_unsigned_dec};
use crate::find_law::{
    attr_found, attr_in_list, attr_item, attr_list, clear, clear_join, head_apart, is_name, key_of,
    list_push, list_without, name_apart, names_apart, open_found, open_missing, passes, unlike,
    without, without_join,
};
use crate::font_law::signs_clear;
use crate::numeral::is_number_text;
use crate::scan::{attr_of, first_open_tag};
use crate::sheet_law::{direction_of, fit_of, margins_of, page_valid, scale_of};
use crate::snapshot::{Orientation, PageSetup};
use crate::style::text_view;
use crate::xlsx::{margins_text, page_text, paper_number};
use crate::xlsx_page::{
    attr_numeral, fit_read, margins_read, margins_view, orientation_named, page_read, paper_named,
    tags_page, MarginsView, PageView,
};
use vstd::prelude::*;

verus! {

/// The margins of a page as they come back: those that a file fills in where the page says none.
pub open spec fn margins_back(ps: PageSetup) -> MarginsView {
    match ps.margins {
        Some(m) => margins_view(m),
        None => MarginsView { left: "0.5"@, right: "0.5"@, top: "0.5"@, bottom: "0.5"@ },
    }
}

/// A page as it comes back: its orientation, its paper where a file has a number for it and A4
/// where not, its margins, its scale and the pages it is fitted to.
pub open spec fn page_back(p: Option<PageSetup>) -> Option<PageView> {
    match p {
        Some(ps) => Some(
            PageView {
                orientation: if ps.orientation == Some(Orientation::Landscape) {
                    Some(Orientation::Landscape)
                } else {
                    Some(Orientation::Portrait)
                },
                paper_size: match ps.paper_size {
                    Some(s) if s@ == "Letter"@ || s@ == "Legal"@ || s@ == "A3"@ => Some(s@),
                    _ => Some("A4"@),
                },
                margins: Some(margins_back(ps)),
                scale: text_view(ps.scale),
                fit_to_pages: ps.fit_to_pages,
                print_area: None,
                print_titles: None,
            },
        ),
        None => None,
    }
}

/// Where a pattern starts nowhere, a longer one does not either.
proof fn clear_longer(s: Seq<char>, p: Seq<char>, q: Seq<char>)
    requires
        clear(s, p),
        p.len() <= q.len(),
        q.take(p.len() as int) == p,
    ensures
        clear(s, q),
{
    assert forall|i: int| 0 <= i < s.len() implies #[trigger] unlike(s, q, i) by {
        assert(unlike(s, p, i));
        let j = choose|j: int| 0 <= j < p.len() && i + j < s.len() && s[i + j] != #[trigger] p[j];
        assert(q[j] == q.take(p.len() as int)[j]);
    }
}

// ---- attributes

spec fn margins_rest(m: MarginsView) -> Seq<(Seq<char>, Option<Seq<char>>)> {
    seq![
        ("right"@, Some(m.right)),
        ("top"@, Some(m.top)),
        ("bottom"@, Some(m.bottom)),
        ("header"@, Some("0.3"@)),
        ("footer"@, Some("0.3"@)),
    ]
}

spec fn margins_attrs(m: MarginsView) -> Seq<char> {
    key_of("left"@) + m.left + "\""@ + attr_list(margins_rest(m))
}

spec fn width_of(ps: PageSetup) -> Option<Seq<char>> {
    match ps.fit_to_pages {
        Some(f) => Some(dec(f.width as nat)),
        None => None,
    }
}

spec fn height_of(ps: PageSetup) -> Option<Seq<char>> {
    match ps.fit_to_pages {
        Some(f) => Some(dec(f.height as nat)),
        None => None,
    }
}

spec fn setup_rest(ps: PageSetup) -> Seq<(Seq<char>, Option<Seq<char>>)> {
    seq![
        ("orientation"@, Some(direction_of(ps))),
        ("scale"@, text_view(ps.scale)),
        ("fitToWidth"@, width_of(ps)),
        ("fitToHeight"@, height_of(ps)),
    ]
}

spec fn setup_attrs(ps: PageSetup) -> Seq<char> {
    key_of("paperSize"@) + paper_number(ps.paper_size) + "\""@ + attr_list(setup_rest(ps))
}

proof fn page_names()
    ensures
        is_name("left"@) && is_name("right"@) && is_name("top"@) && is_name("bottom"@),
        is_name("header"@) && is_name("footer"@),
        is_name("paperSize"@) && is_name("orientation"@) && is_name("scale"@),
        is_name("fitToWidth"@) && is_name("fitToHeight"@),
        "left"@ == seq!['l', 'e', 'f', 't'],
        "right"@ == seq!['r', 'i', 'g', 'h', 't'],
        "top"@ == seq!['t', 'o', 'p'],
        "bottom"@ == seq!['b', 'o', 't', 't', 'o', 'm'],
        "paperSize"@ == seq!['p', 'a', 'p', 'e', 'r', 'S', 'i', 'z', 'e'],
        "orientation"@ == seq!['o', 'r', 'i', 'e', 'n', 't', 'a', 't', 'i', 'o', 'n'],
        "scale"@ == seq!['s', 'c', 'a', 'l', 'e'],
        "fitToWidth"@ == seq!['f', 'i', 't', 'T', 'o', 'W', 'i', 'd', 't', 'h'],
        "fitToHeight"@ == seq!['f', 'i', 't', 'T', 'o', 'H', 'e', 'i', 'g', 'h', 't'],
        " "@ == seq![' '],
{
    reveal_strlit("left");
    reveal_strlit("right");
    reveal_strlit("top");
    reveal_strlit("bottom");
    reveal_strlit("header");
    reveal_strlit("footer");
    reveal_strlit("paperSize");
    reveal_strlit("orientation");
    reveal_strlit("scale");
    reveal_strlit("fitToWidth");
    reveal_strlit("fitToHeight");
    reveal_strlit(" ");
    assert("left"@ == seq!['l', 'e', 'f', 't']);
    assert("right"@ == seq!['r', 'i', 'g', 'h', 't']);
    assert("top"@ == seq!['t', 'o', 'p']);
    assert("bottom"@ == seq!['b', 'o', 't', 't', 'o', 'm']);
    assert("paperSize"@ == seq!['p', 'a', 'p', 'e', 'r', 'S', 'i', 'z', 'e']);
    assert("orientation"@ == seq!['o', 'r', 'i', 'e', 'n', 't', 'a', 't', 'i', 'o', 'n']);
    assert("scale"@ == seq!['s', 'c', 'a', 'l', 'e']);
    assert("fitToWidth"@ == seq!['f', 'i', 't', 'T', 'o', 'W', 'i', 'd', 't', 'h']);
    assert("fitToHeight"@ == seq!['f', 'i', 't', 'T', 'o', 'H', 'e', 'i', 'g', 'h', 't']);
    assert(" "@ == seq![' ']);
}

proof fn margin_keys()
    ensures
        clear(" "@ + key_of("right"@), key_of("top"@)),
        clear(" "@ + key_of("right"@), key_of("bottom"@)),
        clear(" "@ + key_of("top"@), key_of("bottom"@)),
{
    page_names();
    names_apart("right"@, "top"@, 0);
    names_apart("right"@, "bottom"@, 0);
    names_apart("top"@, "bottom"@, 0);
}

proof fn setup_keys()
    ensures
        clear(" "@ + key_of("orientation"@), key_of("scale"@)),
        clear(" "@ + key_of("orientation"@), key_of("fitToWidth"@)),
        clear(" "@ + key_of("orientation"@), key_of("fitToHeight"@)),
        clear(" "@ + key_of("scale"@), key_of("fitToWidth"@)),
        clear(" "@ + key_of("scale"@), key_of("fitToHeight"@)),
        clear(" "@ + key_of("fitToWidth"@), key_of("scale"@)),
        clear(" "@ + key_of("fitToWidth"@), key_of("fitToHeight"@)),
        clear(" "@ + key_of("fitToHeight"@), key_of("scale"@)),
{
    page_names();
    names_apart("orientation"@, "scale"@, 0);
    names_apart("orientation"@, "fitToWidth"@, 0);
    names_apart("orientation"@, "fitToHeight"@, 0);
    names_apart("scale"@, "fitToWidth"@, 0);
    names_apart("scale"@, "fitToHeight"@, 0);
    names_apart("fitToWidth"@, "scale"@, 0);
    names_apart("fitToWidth"@, "fitToHeight"@, 0);
    names_apart("fitToHeight"@, "scale"@, 0);
}

/// Whether margins are numbers.
spec fn margins_ok(m: MarginsView) -> bool {
    is_number_text(m.left) && is_number_text(m.right) && is_number_text(m.top) && is_number_text(
        m.bottom,
    )
}

proof fn margins_plain(m: MarginsView)
    requires
        margins_ok(m),
    ensures
        plain(m.left) && plain(m.right) && plain(m.top) && plain(m.bottom),
{
    number_is_plain(m.left);
    number_is_plain(m.right);
    number_is_plain(m.top);
    number_is_plain(m.bottom);
}

proof fn margins_found(m: MarginsView)
    requires
        margins_ok(m),
    ensures
        margins_read(margins_attrs(m)) == Some(m),
{
    margins_plain(m);
    plain_is_bare(m.left);
    plain_is_bare(m.right);
    plain_is_bare(m.top);
    plain_is_bare(m.bottom);
    page_names();
    margin_keys();
    let head = key_of("left"@) + m.left + "\""@;
    let l = margins_rest(m);
    let e = Seq::<char>::empty();
    assert(attr_of(margins_attrs(m), "left"@) == Some(m.left)) by {
        assert(clear(e, key_of("left"@)));
        attr_found(e, "left"@, m.left, attr_list(l));
        assert(e + key_of("left"@) + m.left + "\""@ + attr_list(l) == margins_attrs(m));
    }
    assert(attr_of(margins_attrs(m), "right"@) == Some(m.right)) by {
        name_apart("right"@);
        head_apart("left"@, m.left, "right"@, 0);
        attr_in_list(head, l, 0);
    }
    assert(attr_of(margins_attrs(m), "top"@) == Some(m.top)) by {
        name_apart("top"@);
        head_apart("left"@, m.left, "top"@, 0);
        assert(passes(l[0], "top"@));
        attr_in_list(head, l, 1);
    }
    assert(attr_of(margins_attrs(m), "bottom"@) == Some(m.bottom)) by {
        name_apart("bottom"@);
        head_apart("left"@, m.left, "bottom"@, 0);
        assert(passes(l[0], "bottom"@) && passes(l[1], "bottom"@));
        attr_in_list(head, l, 2);
    }
}

proof fn setup_plain(ps: PageSetup)
    requires
        ps.scale matches Some(t) ==> is_number_text(t@),
    ensures
        plain(paper_number(ps.paper_size)),
        plain(direction_of(ps)),
        ps.scale matches Some(t) ==> plain(t@),
        ps.fit_to_pages matches Some(f) ==> plain(dec(f.width as nat)) && plain(dec(f.height as nat)),
{
    reveal_strlit("1");
    reveal_strlit("5");
    reveal_strlit("8");
    reveal_strlit("9");
    reveal_strlit("landscape");
    reveal_strlit("portrait");
    match ps.scale {
        Some(t) => {
            number_is_plain(t@);
        },
        None => {},
    }
    match ps.fit_to_pages {
        Some(f) => {
            dec_is_plain(f.width as nat);
            dec_is_plain(f.height as nat);
        },
        None => {},
    }
}

/// Whether every value of attributes is a number or a word.
spec fn plain_values(l: Seq<(Seq<char>, Option<Seq<char>>)>) -> bool {
    forall|j: int| 0 <= j < l.len() ==> is_name((#[trigger] l[j]).0) && (l[j].1 matches Some(v) ==> plain(v))
}

proof fn rest_bare(l: Seq<(Seq<char>, Option<Seq<char>>)>, c: char)
    requires
        c == '>' || c == '/' || c == '<',
        plain_values(l),
    ensures
        without(attr_list(l), c),
{
    assert forall|j: int| 0 <= j < l.len() implies is_name((#[trigger] l[j]).0) && (l[j].1 matches Some(v)
        ==> without(v, c)) by {
        match l[j].1 {
            Some(v) => {
                plain_is_bare(v);
            },
            None => {},
        }
    }
    list_without(l, c);
}

/// Attributes behind a first one hold no sign of markup.
proof fn attrs_bare(name: Seq<char>, v: Seq<char>, l: Seq<(Seq<char>, Option<Seq<char>>)>, c: char)
    requires
        c == '>' || c == '/' || c == '<',
        is_name(name),
        plain(v),
        plain_values(l),
    ensures
        without(key_of(name) + v + "\""@ + attr_list(l), c),
        !crate::text::is_white((key_of(name) + v + "\""@ + attr_list(l))[0]),
        (key_of(name) + v + "\""@ + attr_list(l)).len() > 0,
{
    reveal_strlit("=\"");
    reveal_strlit("\"");
    plain_is_bare(v);
    rest_bare(l, c);
    without_join(name, "=\""@, c);
    without_join(key_of(name), v, c);
    without_join(key_of(name) + v, "\""@, c);
    without_join(key_of(name) + v + "\""@, attr_list(l), c);
    assert((key_of(name) + v + "\""@ + attr_list(l))[0] == name[0]);
}

proof fn setup_found(ps: PageSetup)
    requires
        ps.scale matches Some(t) ==> is_number_text(t@),
    ensures
        ({
            let a = setup_attrs(ps);
            &&& attr_of(a, "paperSize"@) == Some(paper_number(ps.paper_size))
            &&& attr_of(a, "orientation"@) == Some(direction_of(ps))
            &&& attr_of(a, "scale"@) == text_view(ps.scale)
            &&& attr_of(a, "fitToWidth"@) == width_of(ps)
            &&& attr_of(a, "fitToHeight"@) == height_of(ps)
        }),
{
    setup_plain(ps);
    page_names();
    setup_keys();
    let n = paper_number(ps.paper_size);
    plain_is_bare(n);
    plain_is_bare(direction_of(ps));
    if let Some(t) = ps.scale {
        plain_is_bare(t@);
    }
    if let Some(f) = ps.fit_to_pages {
        plain_is_bare(dec(f.width as nat));
        plain_is_bare(dec(f.height as nat));
    }
    let head = key_of("paperSize"@) + n + "\""@;
    let l = setup_rest(ps);
    let e = Seq::<char>::empty();
    assert(attr_of(setup_attrs(ps), "paperSize"@) == Some(n)) by {
        assert(clear(e, key_of("paperSize"@)));
        attr_found(e, "paperSize"@, n, attr_list(l));
        assert(e + key_of("paperSize"@) + n + "\""@ + attr_list(l) == setup_attrs(ps));
    }
    assert(attr_of(setup_attrs(ps), "orientation"@) == Some(direction_of(ps))) by {
        name_apart("orientation"@);
        head_apart("paperSize"@, n, "orientation"@, 0);
        attr_in_list(head, l, 0);
    }
    assert(attr_of(setup_attrs(ps), "scale"@) == text_view(ps.scale)) by {
        name_apart("scale"@);
        head_apart("paperSize"@, n, "scale"@, 0);
        assert(passes(l[0], "scale"@) && passes(l[2], "scale"@) && passes(l[3], "scale"@));
        attr_in_list(head, l, 1);
    }
    assert(attr_of(setup_attrs(ps), "fitToWidth"@) == width_of(ps)) by {
        name_apart("fitToWidth"@);
        head_apart("paperSize"@, n, "fitToWidth"@, 0);
        assert(passes(l[0], "fitToWidth"@) && passes(l[1], "fitToWidth"@));
        if width_of(ps) is None {
            assert(passes(l[3], "fitToWidth"@));
        }
        attr_in_list(head, l, 2);
    }
    assert(attr_of(setup_attrs(ps), "fitToHeight"@) == height_of(ps)) by {
        name_apart("fitToHeight"@);
        head_apart("paperSize"@, n, "fitToHeight"@, 0);
        assert(passes(l[0], "fitToHeight"@) && passes(l[1], "fitToHeight"@) && passes(
            l[2],
            "fitToHeight"@,
        ));
        attr_in_list(head, l, 3);
    }
}

// ---- texts

proof fn five_items(
    a: (Seq<char>, Option<Seq<char>>),
    b: (Seq<char>, Option<Seq<char>>),
    c: (Seq<char>, Option<Seq<char>>),
    d: (Seq<char>, Option<Seq<char>>),
    e: (Seq<char>, Option<Seq<char>>),
)
    ensures
        attr_list(seq![a, b, c, d]) == attr_item(a.0, a.1) + attr_item(b.0, b.1) + attr_item(
            c.0,
            c.1,
        ) + attr_item(d.0, d.1),
        attr_list(seq![a, b, c, d, e]) == attr_item(a.0, a.1) + attr_item(b.0, b.1) + attr_item(
            c.0,
            c.1,
        ) + attr_item(d.0, d.1) + attr_item(e.0, e.1),
{
    let n = Seq::<(Seq<char>, Option<Seq<char>>)>::empty();
    list_push(n, a);
    list_push(n.push(a), b);
    list_push(n.push(a).push(b), c);
    list_push(n.push(a).push(b).push(c), d);
    list_push(n.push(a).push(b).push(c).push(d), e);
    assert(attr_list(n) + attr_item(a.0, a.1) == attr_item(a.0, a.1));
    assert(n.push(a).push(b).push(c).push(d) == seq![a, b, c, d]);
    assert(n.push(a).push(b).push(c).push(d).push(e) == seq![a, b, c, d, e]);
}

proof fn one_more(x: Seq<char>, y: Seq<char>, v: Seq<char>, q: Seq<char>, r: Seq<char>)
    ensures
        x + y + v + (q + r) == x + (y + v + q) + r,
{
}

proof fn margins_joined(
    o: Seq<char>,
    z: Seq<char>,
    k1: Seq<char>,
    v1: Seq<char>,
    q: Seq<char>,
    k2: Seq<char>,
    v2: Seq<char>,
    k3: Seq<char>,
    v3: Seq<char>,
    k4: Seq<char>,
    v4: Seq<char>,
    t: Seq<char>,
)
    ensures
        (o + z + k1) + v1 + (q + z + k2) + v2 + (q + z + k3) + v3 + (q + z + k4) + v4 + (q + t) == o + (z
            + (k1 + v1 + q + (z + k2 + v2 + q + (z + k3 + v3 + q) + (z + k4 + v4 + q) + t))),
{
    let (u1, u2) = (z + k1 + v1 + q, z + k2 + v2 + q);
    let (u3, u4) = (z + k3 + v3 + q, z + k4 + v4 + q);
    let s1 = (o + z + k1) + v1 + (q + z + k2);
    assert(s1 == o + u1 + (z + k2)) by {
        one_more(o, z + k1, v1, q, z + k2);
        assert(o + (z + k1) == o + z + k1);
        assert(q + (z + k2) == q + z + k2);
    }
    let s2 = s1 + v2 + (q + z + k3);
    assert(s2 == o + u1 + u2 + (z + k3)) by {
        one_more(o + u1, z + k2, v2, q, z + k3);
        assert(q + (z + k3) == q + z + k3);
    }
    let s3 = s2 + v3 + (q + z + k4);
    assert(s3 == o + u1 + u2 + u3 + (z + k4)) by {
        one_more(o + u1 + u2, z + k3, v3, q, z + k4);
        assert(q + (z + k4) == q + z + k4);
    }
    one_more(o + u1 + u2 + u3, z + k4, v4, q, t);
    let r = u2 + u3 + u4 + t;
    assert(o + u1 + u2 + u3 + u4 + t == o + (u1 + r));
    assert(u1 + r == z + (k1 + v1 + q + r));
}

/// Margins are written as a tag with attributes.
proof fn margins_form(m: MarginsView)
    ensures
        margins_text(m.left, m.right, m.top, m.bottom) == "<pageMargins"@ + (" "@ + margins_attrs(m)
            + "/>"@),
{
    let l = margins_rest(m);
    five_items(l[0], l[1], l[2], l[3], l[4]);
    assert(l == seq![l[0], l[1], l[2], l[3], l[4]]);
    reveal_strlit("<pageMargins left=\"");
    reveal_strlit("<pageMargins");
    reveal_strlit("\" right=\"");
    reveal_strlit("\" top=\"");
    reveal_strlit("\" bottom=\"");
    reveal_strlit("\" header=\"0.3\" footer=\"0.3\"/>");
    reveal_strlit("left");
    reveal_strlit("right");
    reveal_strlit("top");
    reveal_strlit("bottom");
    reveal_strlit("header");
    reveal_strlit("footer");
    reveal_strlit("0.3");
    reveal_strlit("=\"");
    reveal_strlit("\"");
    reveal_strlit(" ");
    reveal_strlit("/>");
    let (z, q) = (" "@, "\""@);
    let (k1, k2, k3, k4) = (key_of("left"@), key_of("right"@), key_of("top"@), key_of("bottom"@));
    let h = z + key_of("header"@) + "0.3"@ + q;
    let f = z + key_of("footer"@) + "0.3"@ + q;
    let t = h + f + "/>"@;
    assert("<pageMargins left=\""@ == "<pageMargins"@ + z + k1);
    assert("\" right=\""@ == q + z + k2);
    assert("\" top=\""@ == q + z + k3);
    assert("\" bottom=\""@ == q + z + k4);
    assert("\" header=\"0.3\" footer=\"0.3\"/>"@ == q + t);
    margins_joined("<pageMargins"@, z, k1, m.left, q, k2, m.right, k3, m.top, k4, m.bottom, t);
    let x = z + k2 + m.right + q + (z + k3 + m.top + q) + (z + k4 + m.bottom + q);
    assert(attr_list(l) == x + h + f);
    assert(x + t == x + h + f + "/>"@);
    assert(z + (k1 + m.left + q + (x + t)) == z + (k1 + m.left + q + (x + h + f)) + "/>"@);
}

proof fn setup_joined(
    o: Seq<char>,
    z: Seq<char>,
    k1: Seq<char>,
    v1: Seq<char>,
    q: Seq<char>,
    k2: Seq<char>,
    v2: Seq<char>,
    a: Seq<char>,
    w: Seq<char>,
    h: Seq<char>,
    e: Seq<char>,
)
    ensures
        (o + z + k1) + v1 + (q + z + k2) + v2 + q + a + (w + h) + e == o + (z + (k1 + v1 + q + (z + k2 + v2
            + q + a + w + h)) + e),
{
}

/// A page's setup is written as a tag with attributes, behind its margins.
proof fn setup_form(ps: PageSetup)
    ensures
        page_text(Some(ps)) == margins_of(ps) + ("<pageSetup"@ + (" "@ + setup_attrs(ps) + "/>"@)),
{
    let l = setup_rest(ps);
    five_items(l[0], l[1], l[2], l[3], l[0]);
    assert(l == seq![l[0], l[1], l[2], l[3]]);
    reveal_strlit("<pageSetup paperSize=\"");
    reveal_strlit("<pageSetup");
    reveal_strlit("\" orientation=\"");
    reveal_strlit(" scale=\"");
    reveal_strlit(" fitToWidth=\"");
    reveal_strlit("\" fitToHeight=\"");
    page_names();
    reveal_strlit("=\"");
    reveal_strlit("\"");
    let (z, q, e) = (" "@, "\""@, "/>"@);
    let n = paper_number(ps.paper_size);
    let o = direction_of(ps);
    let (k1, k2) = (key_of("paperSize"@), key_of("orientation"@));
    assert("<pageSetup paperSize=\""@ == "<pageSetup"@ + z + k1);
    assert("\" orientation=\""@ == q + z + k2);
    assert(" scale=\""@ == z + key_of("scale"@));
    assert(" fitToWidth=\""@ == z + key_of("fitToWidth"@));
    assert("\" fitToHeight=\""@ == q + (z + key_of("fitToHeight"@)));
    let sc = attr_item("scale"@, text_view(ps.scale));
    let w = attr_item("fitToWidth"@, width_of(ps));
    let h = attr_item("fitToHeight"@, height_of(ps));
    assert(scale_of(ps) == sc);
    assert(fit_of(ps) == w + h) by {
        match ps.fit_to_pages {
            Some(f) => {
                let (a, b) = (dec(f.width as nat), dec(f.height as nat));
                assert(z + key_of("fitToWidth"@) + a + (q + (z + key_of("fitToHeight"@))) + b + q == (z
                    + key_of("fitToWidth"@) + a + q) + (z + key_of("fitToHeight"@) + b + q));
            },
            None => {},
        }
    }
    setup_joined("<pageSetup"@, z, k1, n, q, k2, o, sc, w, h, e);
    let g = margins_of(ps);
    let s = (("<pageSetup"@ + z + k1) + n + (q + z + k2) + o + q + sc + (w + h) + e);
    assert(page_text(Some(ps)) == g + ("<pageSetup"@ + z + k1) + n + (q + z + k2) + o + q + sc + (w + h)
        + e);
    assert(page_text(Some(ps)) == g + s);
    assert(attr_list(l) == z + k2 + o + q + sc + w + h);
}

proof fn named_back(ps: PageSetup)
    ensures
        Some(paper_named(paper_number(ps.paper_size))) == Some(
            match ps.paper_size {
                Some(s) if s@ == "Letter"@ || s@ == "Legal"@ || s@ == "A3"@ => Some(s@),
                _ => Some("A4"@),
            },
        ),
        orientation_named(direction_of(ps)) == (if ps.orientation == Some(Orientation::Landscape) {
            Some(Orientation::Landscape)
        } else {
            Some(Orientation::Portrait)
        }),
{
    reveal_strlit("1");
    reveal_strlit("5");
    reveal_strlit("8");
    reveal_strlit("9");
    reveal_strlit("landscape");
    reveal_strlit("portrait");
    assert("1"@[0] == '1' && "5"@[0] == '5' && "8"@[0] == '8' && "9"@[0] == '9');
    assert("landscape"@[0] == 'l' && "portrait"@[0] == 'p');
}

proof fn fit_back(ps: PageSetup)
    requires
        ps.scale matches Some(t) ==> is_number_text(t@),
    ensures
        fit_read(setup_attrs(ps)) == ps.fit_to_pages,
        attr_numeral(setup_attrs(ps), "scale"@) == text_view(ps.scale),
{
    setup_found(ps);
    match ps.fit_to_pages {
        Some(f) => {
            parse_unsigned_dec(f.width as nat, 0xffff_ffff);
            parse_unsigned_dec(f.height as nat, 0xffff_ffff);
        },
        None => {},
    }
}

proof fn margins_are(ps: PageSetup)
    requires
        page_valid(Some(ps)),
    ensures
        ({
            let m = margins_back(ps);
            &&& margins_ok(m)
            &&& margins_of(ps) == margins_text(m.left, m.right, m.top, m.bottom)
        }),
{
    if ps.margins is None {
        half_is_number();
    }
}

proof fn half_is_number()
    ensures
        is_number_text("0.5"@),
{
    reveal_strlit("0.5");
    let s = "0.5"@;
    reveal_with_fuel(crate::numeral::digits_end, 4);
    assert(crate::numeral::is_plain_number(s));
}

proof fn two_tags(
    a: Seq<char>,
    om: Seq<char>,
    mi: Seq<char>,
    os: Seq<char>,
    si: Seq<char>,
    b: Seq<char>,
)
    ensures
        a + (om + mi + (os + si)) + b == a + (om + (mi + (os + si + b))),
        a + (om + mi + (os + si)) + b == a + (om + mi) + (os + (si + b)),
{
    assert(a + (om + mi + (os + si)) + b == a + (om + (mi + (os + si + b))));
    assert(a + (om + mi + (os + si)) + b == a + (om + mi) + (os + (si + b)));
}

/// The tags of a page are found as they were written.
proof fn page_found(ps: PageSetup, a: Seq<char>, b: Seq<char>)
    requires
        page_valid(Some(ps)),
        clear(a, "<pageMargins"@),
        clear(a, "<pageSetup"@),
    ensures
        first_open_tag(a + page_text(Some(ps)) + b, "<pageMargins"@) == Some(
            margins_attrs(margins_back(ps)),
        ),
        first_open_tag(a + page_text(Some(ps)) + b, "<pageSetup"@) == Some(setup_attrs(ps)),
{
    let (om, os) = ("<pageMargins"@, "<pageSetup"@);
    assert(om.len() > 0 && os.len() > 0) by {
        reveal_strlit("<pageMargins");
        reveal_strlit("<pageSetup");
    }
    let m = margins_back(ps);
    margins_are(ps);
    tags_bare(ps, m);
    let (ma, sa) = (margins_attrs(m), setup_attrs(ps));
    let (mi, si) = (" "@ + ma + "/>"@, " "@ + sa + "/>"@);
    let xml = a + page_text(Some(ps)) + b;
    assert(page_text(Some(ps)) == om + mi + (os + si) && clear(om + mi, os)) by {
        margins_form(m);
        setup_form(ps);
        margins_apart(m);
    }
    two_tags(a, om, mi, os, si, b);
    assert(first_open_tag(xml, om) == Some(ma)) by {
        open_found(a, om, ma, os + si + b);
    }
    assert(first_open_tag(xml, os) == Some(sa)) by {
        clear_join(a, om + mi, os);
        open_found(a + (om + mi), os, sa, b);
    }
}

/// What the tags of a page say.
proof fn page_said(ps: PageSetup)
    requires
        page_valid(Some(ps)),
    ensures
        Some(tags_page(Some(margins_attrs(margins_back(ps))), Some(setup_attrs(ps)))) == page_back(
            Some(ps),
        ),
{
    margins_are(ps);
    margins_found(margins_back(ps));
    setup_found(ps);
    named_back(ps);
    fit_back(ps);
}

/// A page is read back as it was written, with what a file fills in where it leaves something open.
pub proof fn page_comes_back(p: Option<PageSetup>, a: Seq<char>, b: Seq<char>)
    requires
        page_valid(p),
        clear(a, "<page"@),
        p is Some || clear(a + page_text(p) + b, "<page"@),
    ensures
        page_read(a + page_text(p) + b) == page_back(p),
{
    let xml = a + page_text(p) + b;
    let (om, os) = ("<pageMargins"@, "<pageSetup"@);
    assert(om.take("<page"@.len() as int) == "<page"@ && os.take("<page"@.len() as int) == "<page"@
        && om.len() > 5 && os.len() > 5 && "<page"@.len() == 5) by {
        reveal_strlit("<page");
        reveal_strlit("<pageMargins");
        reveal_strlit("<pageSetup");
        assert(om.take(5) == "<page"@ && os.take(5) == "<page"@);
    }
    match p {
        Some(ps) => {
            clear_longer(a, "<page"@, om);
            clear_longer(a, "<page"@, os);
            page_found(ps, a, b);
            page_said(ps);
        },
        None => {
            clear_longer(xml, "<page"@, om);
            clear_longer(xml, "<page"@, os);
            open_missing(xml, om);
            open_missing(xml, os);
        },
    }
}

proof fn tags_bare(ps: PageSetup, m: MarginsView)
    requires
        page_valid(Some(ps)),
        m == margins_back(ps),
        margins_ok(m),
    ensures
        ({
            let (ma, sa) = (margins_attrs(m), setup_attrs(ps));
            &&& without(ma, '>') && without(ma, '/') && without(ma, '<') && ma.len() > 0
            &&& !crate::text::is_white(ma[0])
            &&& without(sa, '>') && without(sa, '/') && sa.len() > 0
            &&& !crate::text::is_white(sa[0])
        }),
{
    page_names();
    margins_plain(m);
    setup_plain(ps);
    reveal_strlit("0.3");
    assert(plain("0.3"@));
    let l = margins_rest(m);
    assert(plain_values(l));
    attrs_bare("left"@, m.left, l, '>');
    attrs_bare("left"@, m.left, l, '/');
    attrs_bare("left"@, m.left, l, '<');
    let k = setup_rest(ps);
    assert(plain_values(k));
    attrs_bare("paperSize"@, paper_number(ps.paper_size), k, '>');
    attrs_bare("paperSize"@, paper_number(ps.paper_size), k, '/');
}

/// Margins are no setup.
proof fn margins_apart(m: MarginsView)
    requires
        without(margins_attrs(m), '<'),
    ensures
        clear(margins_text(m.left, m.right, m.top, m.bottom), "<pageSetup"@),
{
    margins_form(m);
    reveal_strlit("<pageSetup");
    reveal_strlit("<pageMargins");
    reveal_strlit(" ");
    reveal_strlit("/>");
    let s = margins_text(m.left, m.right, m.top, m.bottom);
    let r = " "@ + margins_attrs(m) + "/>"@;
    without_join(" "@, margins_attrs(m), '<');
    without_join(" "@ + margins_attrs(m), "/>"@, '<');
    assert forall|i: int| 0 <= i < s.len() && #[trigger] s[i] == '<' implies i + 5 < s.len() && s[i + 5]
        != 'S' by {
        if i >= 12 {
            assert(r[i - 12] == s[i]);
        } else {
            assert("<pageMargins"@[i] == s[i]);
            assert(i == 0);
            assert(s[5] == "<pageMargins"@[5]);
        }
    }
    signs_clear(s, "<pageSetup"@, 5);
}

} // verus!
