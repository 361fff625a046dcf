//! Borders of spreadsheet files are read back as they were written.
use crate::book_round::tagless;
use crate::cell_law::{lit_clear, plain, plain_is_bare};
use crate::find_law::{
    at_shift, at_start, captures_shift, captures_skip, clear, clear_join, clear_miss, clear_without,
    find_char_move, find_char_past, find_on, find_past, find_shift, hit_moved, key_found,
    tag_start_shift, tag_starts, unlike, without,
};
use crate::font_law::{argb_is_hex, clear_four, color_clear, signs_clear, table_literals};
use crate::scan::{at, captures, element, elements, key_in_tag, tag_start, Hit};
use crate::style::{BorderEdge, BorderLineStyle, Borders, BordersView, EdgeView, HAlign, VAlign};
use crate::text::{find_char, is_white};
use crate::xlsx_style::{
    argb, base_tables, border_xml, edge_xml, line_name, line_named, names_round_trip, rgb,
};
use crate::xlsx_styles_read::{border_read, edge_at, edge_read};
use vstd::prelude::*;

verus! {

// ---- elements

proof fn element_shift(a: Seq<char>, s: Seq<char>, o: Seq<char>, c: Seq<char>, i: int)
    requires
        0 <= i,
    ensures
        element(a + s, o, c, a.len() + i) == hit_moved(element(s, o, c, i), a.len() as int),
        element(s, o, c, i) matches Some(h) ==> 0 <= h.a <= h.b && h.b <= h.end,
{
    at_shift(a, s, o, i);
    find_char_move(a, s, '>', i + o.len());
    crate::find_law::find_char_on(s, '>', i + o.len());
    match find_char(s, '>', i + o.len()) {
        Some(g) => {
            find_shift(a, s, c, g + 1);
            find_on(s, c, g + 1);
        },
        None => {},
    }
}

/// Whether what stands in the elements of a tag is `list`, whatever stands behind.
pub open spec fn holds_elements(s: Seq<char>, o: Seq<char>, c: Seq<char>, list: Seq<Seq<char>>) -> bool {
    forall|b: Seq<char>| #[trigger] elements(s + b, o, c) == list + elements(b, o, c)
}

proof fn elements_rest(a: Seq<char>, s: Seq<char>, o: Seq<char>, c: Seq<char>)
    ensures
        captures(a + s, |i: int| element(a + s, o, c, i), a.len() as int) == elements(s, o, c),
{
    let t = a + s;
    let f = |i: int| element(t, o, c, i);
    let g = |i: int| element(s, o, c, i);
    assert forall|k: int| 0 <= k implies #[trigger] f(a.len() + k) == hit_moved(g(k), a.len() as int) by {
        element_shift(a, s, o, c, k);
    }
    assert forall|k: int| 0 <= k && (#[trigger] g(k)) is Some implies 0 <= g(k)->0.a <= g(k)->0.b && g(
        k,
    )->0.b <= g(k)->0.end by {
        element_shift(a, s, o, c, k);
    }
    captures_shift(a, s, f, g, 0);
}

pub proof fn elements_join(
    s: Seq<char>,
    t: Seq<char>,
    o: Seq<char>,
    c: Seq<char>,
    p: Seq<Seq<char>>,
    q: Seq<Seq<char>>,
)
    requires
        holds_elements(s, o, c, p),
        holds_elements(t, o, c, q),
    ensures
        holds_elements(s + t, o, c, p + q),
{
    assert forall|b: Seq<char>| #[trigger]
        elements((s + t) + b, o, c) == (p + q) + elements(b, o, c) by {
        assert((s + t) + b == s + (t + b));
        assert(elements(s + (t + b), o, c) == p + elements(t + b, o, c));
        assert(elements(t + b, o, c) == q + elements(b, o, c));
    }
}

pub proof fn elements_none(o: Seq<char>, c: Seq<char>)
    ensures
        holds_elements(Seq::empty(), o, c, Seq::empty()),
{
    assert forall|b: Seq<char>| #[trigger]
        elements(Seq::<char>::empty() + b, o, c) == Seq::<Seq<char>>::empty() + elements(b, o, c) by {
        assert(Seq::<char>::empty() + b == b);
    }
}

pub proof fn elements_whole(s: Seq<char>, o: Seq<char>, c: Seq<char>, p: Seq<Seq<char>>)
    requires
        holds_elements(s, o, c, p),
    ensures
        elements(s, o, c) == p,
{
    let e = Seq::<char>::empty();
    assert(s + e == s);
    assert(elements(s + e, o, c) == p + elements(e, o, c));
}

/// A text in which a tag starts nowhere holds no element of it.
pub proof fn elements_clear(s: Seq<char>, o: Seq<char>, c: Seq<char>)
    requires
        clear(s, o),
    ensures
        holds_elements(s, o, c, Seq::empty()),
{
    assert forall|b: Seq<char>| #[trigger]
        elements(s + b, o, c) == Seq::<Seq<char>>::empty() + elements(b, o, c) by {
        let t = s + b;
        let f = |i: int| element(t, o, c, i);
        assert forall|k: int| 0 <= k < s.len() implies (#[trigger] f(k)) is None by {
            clear_miss(s, b, o, k);
        }
        captures_skip(t, f, 0, s.len() as int);
        elements_rest(s, b, o, c);
    }
}

/// What stands in an element with attributes is read as it was written.
pub proof fn element_with(o: Seq<char>, attrs: Seq<char>, v: Seq<char>, c: Seq<char>)
    requires
        o.len() > 0,
        c.len() > 0,
        without(attrs, '>'),
        clear(v, c),
    ensures
        holds_elements(o + attrs + ">"@ + v + c, o, c, seq![v]),
{
    reveal_strlit(">");
    let e = o + attrs + ">"@ + v + c;
    assert forall|b: Seq<char>| #[trigger] elements(e + b, o, c) == seq![v] + elements(b, o, c) by {
        let s = e + b;
        let f = |i: int| element(s, o, c, i);
        let tail = ">"@ + (v + (c + b));
        assert(s == o + (attrs + tail));
        at_start(o, attrs + tail);
        find_char_move(o, attrs + tail, '>', 0);
        find_char_past(attrs, tail, '>', 0);
        assert(find_char(tail, '>', 0) == Some(0int));
        let head = o + attrs + ">"@;
        assert(s == head + (v + (c + b)));
        find_shift(head, v + (c + b), c, 0);
        at_start(c, b);
        find_past(v, c + b, c, 0);
        let k = head.len() as int;
        let g: int = k + v.len();
        assert(f(0) == Some(Hit { a: k, b: g, end: g + c.len() }));
        assert(s.subrange(k, g) == v);
        elements_rest(e, b, o, c);
        assert(captures(s, f, 0) == seq![v] + captures(s, f, g + c.len()));
    }
}

/// What stands in an element without attributes is read as it was written.
pub proof fn element_one(o: Seq<char>, v: Seq<char>, c: Seq<char>)
    requires
        o.len() > 0,
        c.len() > 0,
        clear(v, c),
    ensures
        holds_elements(o + ">"@ + v + c, o, c, seq![v]),
{
    reveal_strlit(">");
    let e = o + ">"@ + v + c;
    assert forall|b: Seq<char>| #[trigger] elements(e + b, o, c) == seq![v] + elements(b, o, c) by {
        let s = e + b;
        let f = |i: int| element(s, o, c, i);
        let tail = ">"@ + (v + (c + b));
        assert(s == o + tail);
        at_start(o, tail);
        find_char_move(o, tail, '>', 0);
        assert(find_char(tail, '>', 0) == Some(0int));
        let head = o + ">"@;
        assert(s == head + (v + (c + b)));
        find_shift(head, v + (c + b), c, 0);
        at_start(c, b);
        find_past(v, c + b, c, 0);
        let k = head.len() as int;
        let g: int = k + v.len();
        assert(f(0) == Some(Hit { a: k, b: g, end: g + c.len() }));
        assert(s.subrange(k, g) == v);
        elements_rest(e, b, o, c);
        assert(captures(s, f, 0) == seq![v] + captures(s, f, g + c.len()));
    }
}

// ---- sides

/// Whether a side of a border is drawn.
pub open spec fn drawn(e: Option<BorderEdge>) -> bool {
    e matches Some(x) && x.style != BorderLineStyle::NoLine
}

/// The start of a side that is drawn.
spec fn side_head(side: Seq<char>) -> Seq<char> {
    "<"@ + side + " style=\""@
}

/// The end of a side that is drawn.
spec fn side_tail(side: Seq<char>) -> Seq<char> {
    "\"/></"@ + side + ">"@
}

proof fn line_is_plain(b: BorderLineStyle)
    ensures
        plain(line_name(b)),
{
    reveal_strlit("none");
    reveal_strlit("thin");
    reveal_strlit("medium");
    reveal_strlit("thick");
    reveal_strlit("dashed");
    reveal_strlit("dotted");
    reveal_strlit("double");
}

proof fn edge_form(side: Seq<char>, x: BorderEdge)
    requires
        x.style != BorderLineStyle::NoLine,
    ensures
        edge_xml(side, Some(x)) == side_head(side) + line_name(x.style) + "\"><color rgb=\""@ + argb(
            x.color@,
        ) + side_tail(side),
{
    let (l, v) = (line_name(x.style), argb(x.color@));
    let (c, t) = ("\"><color rgb=\""@, "\"/></"@);
    assert("<"@ + side + " style=\""@ + l + c + v + t + side + ">"@ == side_head(side) + l + c + v
        + side_tail(side));
}

/// Whether a name is one of a side.
pub open spec fn is_side(side: Seq<char>) -> bool {
    side.len() > 2 && without(side, '<') && without(side, '>')
}

proof fn pieces_clear(a: Seq<char>, b: Seq<char>, c: Seq<char>, d: Seq<char>, e: Seq<char>, pat: Seq<char>)
    requires
        clear(a, pat),
        clear(b, pat),
        clear(c, pat),
        clear(d, pat),
        clear(e, pat),
    ensures
        clear(a + b + c + d + e, pat),
{
    clear_four(a, b, c, d, pat);
    clear_join(a + b + c + d, e, pat);
}

/// A side is clear of a tag that starts with another letter; of a closing tag that differs from
/// its own at `d`.
proof fn edge_clear(side: Seq<char>, e: Option<BorderEdge>, pat: Seq<char>, d: int)
    requires
        is_side(side),
        pat.len() > 2,
        pat[0] == '<',
        pat[1] != side[0],
        pat[1] != 'c' || pat[2] != 'o',
        pat[1] == '/' ==> 0 <= d < side.len() && d + 2 < pat.len() && pat[d + 2] != side[d],
    ensures
        clear(edge_xml(side, e), pat),
{
    reveal_strlit("<");
    reveal_strlit("/>");
    if drawn(e) {
        let x = e->0;
        edge_form(side, x);
        line_is_plain(x.style);
        plain_is_bare(line_name(x.style));
        argb_is_hex(x.color@);
        plain_is_bare(argb(x.color@));
        head_clear(side, pat);
        clear_without(line_name(x.style), pat);
        reveal_strlit("\"><color rgb=\"");
        if pat[1] == 'c' {
            signs_clear("\"><color rgb=\""@, pat, 2);
        } else {
            signs_clear("\"><color rgb=\""@, pat, 1);
        }
        clear_without(argb(x.color@), pat);
        tail_clear(side, pat, d);
        pieces_clear(
            side_head(side),
            line_name(x.style),
            "\"><color rgb=\""@,
            argb(x.color@),
            side_tail(side),
            pat,
        );
    } else {
        let s = "<"@ + side + "/>"@;
        assert(s[1] == side[0]);
        lit_clear(s, pat, 1);
    }
}

proof fn head_clear(side: Seq<char>, pat: Seq<char>)
    requires
        is_side(side),
        pat.len() > 1,
        pat[0] == '<',
        pat[1] != side[0],
    ensures
        clear(side_head(side), pat),
{
    reveal_strlit("<");
    reveal_strlit(" style=\"");
    let s = side_head(side);
    assert(s[1] == side[0]);
    assert forall|i: int| 1 <= i < s.len() implies #[trigger] s[i] != '<' by {
        if i <= side.len() {
            assert(s[i] == side[i - 1]);
        } else {
            assert(s[i] == " style=\""@[i - 1 - side.len()]);
        }
    }
    lit_clear(s, pat, 1);
}

proof fn tail_clear(side: Seq<char>, pat: Seq<char>, d: int)
    requires
        is_side(side),
        pat.len() > 2,
        pat[0] == '<',
        pat[1] == '/' ==> 0 <= d < side.len() && d + 2 < pat.len() && pat[d + 2] != side[d],
    ensures
        clear(side_tail(side), pat),
{
    reveal_strlit("\"/></");
    reveal_strlit(">");
    let s = side_tail(side);
    assert forall|i: int| 0 <= i < s.len() && #[trigger] s[i] == '<' implies i == 3 by {
        if i >= 5 {
            if i < 5 + side.len() {
                assert(s[i] == side[i - 5]);
            } else {
                assert(s[i] == '>');
            }
        }
    }
    if pat[1] == '/' {
        assert(s[3 + (d + 2)] == side[d]);
        signs_clear(s, pat, d + 2);
    } else {
        assert(s[4] == '/');
        signs_clear(s, pat, 1);
    }
}

// ---- reading a side

pub proof fn tagless_clear(s: Seq<char>, o: Seq<char>)
    requires
        clear(s, o),
    ensures
        tagless(s, o),
{
}

pub proof fn tagless_join(a: Seq<char>, b: Seq<char>, o: Seq<char>)
    requires
        tagless(a, o),
        tagless(b, o),
    ensures
        tagless(a + b, o),
{
    let s = a + b;
    assert forall|p: int| 0 <= p < s.len() implies #[trigger] unlike(s, o, p) || (p + o.len() < s.len()
        && !is_white(s[p + o.len()])) by {
        if p < a.len() {
            if unlike(a, o, p) {
                let j = choose|j: int|
                    0 <= j < o.len() && p + j < a.len() && a[p + j] != #[trigger] o[j];
                assert(s[p + j] != o[j]);
            } else {
                assert(s[p + o.len()] == a[p + o.len()]);
            }
        } else {
            let q = p - a.len();
            if unlike(b, o, q) {
                let j = choose|j: int|
                    0 <= j < o.len() && q + j < b.len() && b[q + j] != #[trigger] o[j];
                assert(s[p + j] != o[j]);
            } else {
                assert(s[p + o.len()] == b[q + o.len()]);
            }
        }
    }
}

/// No tag starts in a text without one.
proof fn no_start(s: Seq<char>, b: Seq<char>, o: Seq<char>, i: int)
    requires
        tagless(s, o),
        0 <= i < s.len(),
    ensures
        tag_start(s + b, o, i) is None,
{
    let t = s + b;
    if unlike(s, o, i) {
        let j = choose|j: int| 0 <= j < o.len() && i + j < s.len() && s[i + j] != #[trigger] o[j];
        if at(t, o, i) {
            assert(t.subrange(i, i + o.len())[j] == o[j]);
            assert(t[i + j] == s[i + j]);
        }
    } else {
        assert(t[i + o.len()] == s[i + o.len()]);
    }
}

proof fn edge_skip(s: Seq<char>, b: Seq<char>, o: Seq<char>, i: int)
    requires
        tagless(s, o),
        0 <= i <= s.len(),
    ensures
        edge_read(s + b, o, i) == edge_read(s + b, o, s.len() as int),
    decreases s.len() - i,
{
    if i < s.len() {
        no_start(s, b, o, i);
        edge_skip(s, b, o, i + 1);
    }
}

/// A side that is not drawn is not read.
proof fn edge_none(s: Seq<char>, o: Seq<char>)
    requires
        tagless(s, o),
    ensures
        edge_read(s, o, 0) is None,
{
    let e = Seq::<char>::empty();
    edge_skip(s, e, o, 0);
    assert(s + e == s);
}

/// A side as it comes back.
pub open spec fn edge_back(e: Option<BorderEdge>) -> Option<EdgeView> {
    if drawn(e) {
        Some(EdgeView { style: e->0.style, color: rgb(argb(e->0.color@))->0 })
    } else {
        None
    }
}

/// Where the style of a side starts.
proof fn edge_start(pre: Seq<char>, o: Seq<char>, after: Seq<char>, s: Seq<char>)
    requires
        s == pre + (o + (" style=\""@ + after)),
    ensures
        tag_start(s, o, pre.len() as int) == Some((pre.len() + o.len() + 1) as int),
        at(s, "style=\""@, (pre.len() + o.len() + 1) as int),
        " style=\""@.len() == "style=\""@.len() + 1,
{
    let key = "style=\""@;
    reveal_strlit(" style=\"");
    reveal_strlit("style=\"");
    reveal_strlit(" ");
    assert(" style=\""@ == " "@ + key);
    let behind = " "@ + key + after;
    assert(" style=\""@ + after == behind);
    let rest = o + behind;
    assert(behind[1] == 's');
    tag_starts(o, behind);
    tag_start_shift(pre, rest, o, 0);
    let head = pre + o + " "@;
    assert(s == head + (key + after));
    at_start(key, after);
    at_shift(head, key + after, key, 0);
}

/// Where the style of a side ends.
proof fn edge_name(front: Seq<char>, l: Seq<char>, tail: Seq<char>, s: Seq<char>)
    requires
        s == front + (l + ("\">"@ + tail)),
        without(l, '"'),
    ensures
        find_char(s, '"', front.len() as int) == Some((front.len() + l.len()) as int),
        find_char(s, '>', (front.len() + l.len() + 1) as int) == Some(
            (front.len() + l.len() + 1) as int,
        ),
        s.subrange(front.len() as int, (front.len() + l.len()) as int) == l,
{
    reveal_strlit("\">");
    let rest = "\">"@ + tail;
    find_char_move(front, l + rest, '"', 0);
    find_char_past(l, rest, '"', 0);
    let more = front + l + seq!['"'];
    let end = seq!['>'] + tail;
    assert(rest == seq!['"'] + end);
    assert(s == more + end);
    find_char_move(more, end, '>', 0);
    assert(end[0] == '>');
    assert(find_char(end, '>', 0) == Some(0int));
}

/// The text of a side in the forms in which it is read.
proof fn edge_shapes(pre: Seq<char>, side: Seq<char>, x: BorderEdge, b: Seq<char>)
    requires
        x.style != BorderLineStyle::NoLine,
    ensures
        ({
            let s = pre + (edge_xml(side, Some(x)) + b);
            let o = "<"@ + side;
            let (l, v) = (line_name(x.style), argb(x.color@));
            let tail = "<color"@ + " "@ + ("rgb=\""@ + v + "\"/>"@) + ("</"@ + side + ">"@ + b);
            let front = pre + o + " style=\""@;
            &&& s == pre + (o + (" style=\""@ + (l + ("\">"@ + tail))))
            &&& s == front + (l + ("\">"@ + tail))
            &&& s == (front + l + "\">"@) + tail
        }),
{
    let o = "<"@ + side;
    let (l, v) = (line_name(x.style), argb(x.color@));
    let c = "\"><color rgb=\""@;
    let z = "</"@ + side + ">"@;
    let tail = "<color"@ + " "@ + ("rgb=\""@ + v + "\"/>"@) + (z + b);
    assert(c == "\">"@ + "<color"@ + " "@ + "rgb=\""@) by {
        reveal_strlit("\"><color rgb=\"");
        reveal_strlit("\">");
        reveal_strlit("<color");
        reveal_strlit(" ");
        reveal_strlit("rgb=\"");
    }
    assert(side_tail(side) == "\"/>"@ + z) by {
        reveal_strlit("\"/></");
        reveal_strlit("\"/>");
        reveal_strlit("</");
        assert("\"/></"@ == "\"/>"@ + "</"@);
    }
    edge_form(side, x);
    shapes(o, " style=\""@, l, c, v, "\"/>"@, z, b, "\">"@, "<color"@, " "@, "rgb=\""@);
    let x2 = " style=\""@ + (l + ("\">"@ + tail));
    assert(edge_xml(side, Some(x)) + b == o + x2);
    assert(pre + (o + x2) == (pre + o + " style=\""@) + (l + ("\">"@ + tail)));
    assert((pre + o + " style=\""@) + (l + ("\">"@ + tail)) == ((pre + o + " style=\""@) + l
        + "\">"@) + tail);
}

proof fn shapes(
    o: Seq<char>,
    y: Seq<char>,
    l: Seq<char>,
    c: Seq<char>,
    v: Seq<char>,
    q: Seq<char>,
    z: Seq<char>,
    b: Seq<char>,
    c1: Seq<char>,
    c2: Seq<char>,
    c3: Seq<char>,
    c4: Seq<char>,
)
    requires
        c == c1 + c2 + c3 + c4,
    ensures
        (o + y) + l + c + v + (q + z) + b == o + (y + (l + (c1 + (c2 + c3 + (c4 + v + q) + (z + b))))),
{
    let t = c2 + c3 + (c4 + v + q) + (z + b);
    assert(c1 + t == c + v + (q + z) + b);
    let w = l + (c1 + t);
    assert(w == l + c + v + (q + z) + b);
    assert(o + (y + w) == (o + y) + w);
}

/// What is read of a side, from where its pieces stand.
proof fn edge_at_is(
    s: Seq<char>,
    o: Seq<char>,
    p: int,
    a: int,
    q: int,
    h: Hit,
    l: Seq<char>,
    v: Seq<char>,
)
    requires
        tag_start(s, o, p) == Some(a),
        at(s, "style=\""@, a),
        find_char(s, '"', (a + "style=\""@.len()) as int) == Some(q),
        find_char(s, '>', q + 1) == Some(q + 1),
        s.subrange((a + "style=\""@.len()) as int, q) == l,
        key_in_tag(s, "<color"@, "rgb=\""@, q + 2) == Some(h),
        s.subrange(h.a, h.b) == v,
        rgb(v) is Some,
    ensures
        edge_at(s, o, p) == Some(EdgeView { style: line_named(l), color: rgb(v)->0 }),
{
}

/// A side is read from its pieces.
proof fn edge_parts(
    s: Seq<char>,
    pre: Seq<char>,
    o: Seq<char>,
    front: Seq<char>,
    l: Seq<char>,
    pre2: Seq<char>,
    v: Seq<char>,
    z: Seq<char>,
    tail: Seq<char>,
)
    requires
        s == pre + (o + (" style=\""@ + (l + ("\">"@ + tail)))),
        s == front + (l + ("\">"@ + tail)),
        s == pre2 + ("<color"@ + " "@ + ("rgb=\""@ + v + "\"/>"@) + z),
        front.len() == pre.len() + o.len() + " style=\""@.len(),
        pre2.len() == front.len() + l.len() + 2,
        without(l, '"'),
        plain(v),
        without(v, 'r'),
        rgb(v) is Some,
    ensures
        edge_at(s, o, pre.len() as int) == Some(EdgeView { style: line_named(l), color: rgb(v)->0 }),
{
    let a = (pre.len() + o.len() + 1) as int;
    let q = (front.len() + l.len()) as int;
    let n = (pre2.len() + "<color"@.len() + 1 + "rgb=\""@.len()) as int;
    let h = Hit { a: n, b: n + v.len(), end: n + v.len() + 1 };
    assert(tag_start(s, o, pre.len() as int) == Some(a) && at(s, "style=\""@, a)
        && front.len() == a + "style=\""@.len()) by {
        edge_start(pre, o, l + ("\">"@ + tail), s);
    }
    assert(find_char(s, '"', front.len() as int) == Some(q) && find_char(s, '>', q + 1) == Some(q + 1)
        && s.subrange(front.len() as int, q) == l) by {
        edge_name(front, l, tail, s);
    }
    assert(key_in_tag(s, "<color"@, "rgb=\""@, q + 2) == Some(h) && s.subrange(h.a, h.b) == v) by {
        color_stands(pre2, v, z);
    }
    edge_at_is(s, o, pre.len() as int, a, q, h, l, v);
}

/// The colour of a side is read as it was written.
proof fn color_stands(pre: Seq<char>, v: Seq<char>, z: Seq<char>)
    requires
        plain(v),
        without(v, 'r'),
    ensures
        ({
            let s = pre + ("<color"@ + " "@ + ("rgb=\""@ + v + "\"/>"@) + z);
            let n = (pre.len() + "<color"@.len() + 1 + "rgb=\""@.len()) as int;
            &&& key_in_tag(s, "<color"@, "rgb=\""@, pre.len() as int) == Some(
                Hit { a: n, b: n + v.len(), end: n + v.len() + 1 },
            )
            &&& s.subrange(n, n + v.len()) == v
        }),
{
    plain_is_bare(v);
    color_clear(v);
    assert("rgb=\""@.len() > 0) by {
        reveal_strlit("rgb=\"");
    }
    key_found(pre, "<color"@, "rgb=\""@, "gb=\""@, v, z);
}

/// A side that is drawn is read where it stands.
proof fn edge_stands(pre: Seq<char>, side: Seq<char>, x: BorderEdge, b: Seq<char>)
    requires
        x.style != BorderLineStyle::NoLine,
    ensures
        edge_at(pre + (edge_xml(side, Some(x)) + b), "<"@ + side, pre.len() as int) == edge_back(Some(x)),
        (edge_xml(side, Some(x)) + b).len() > 0,
{
    let o = "<"@ + side;
    let (l, v) = (line_name(x.style), argb(x.color@));
    let s = pre + (edge_xml(side, Some(x)) + b);
    edge_shapes(pre, side, x, b);
    assert("<"@.len() == 1 && "\">"@.len() == 2) by {
        reveal_strlit("<");
        reveal_strlit("\">");
    }
    line_is_plain(x.style);
    plain_is_bare(l);
    argb_is_hex(x.color@);
    names_round_trip(HAlign::Left, VAlign::Top, x.style);
    let z = "</"@ + side + ">"@ + b;
    let tail = "<color"@ + " "@ + ("rgb=\""@ + v + "\"/>"@) + z;
    let front = pre + o + " style=\""@;
    edge_parts(s, pre, o, front, l, front + l + "\">"@, v, z, tail);
}

/// A side that is drawn is read as it was written.
proof fn edge_found(pre: Seq<char>, side: Seq<char>, x: BorderEdge, b: Seq<char>)
    requires
        is_side(side),
        x.style != BorderLineStyle::NoLine,
        tagless(pre, "<"@ + side),
    ensures
        edge_read(pre + edge_xml(side, Some(x)) + b, "<"@ + side, 0) == edge_back(Some(x)),
{
    let o = "<"@ + side;
    let rest = edge_xml(side, Some(x)) + b;
    assert(pre + edge_xml(side, Some(x)) + b == pre + rest);
    edge_skip(pre, rest, o, 0);
    edge_stands(pre, side, x, b);
}

/// A border without the tags around it.
pub open spec fn border_inner(b: Borders) -> Seq<char> {
    edge_xml("left"@, b.left) + edge_xml("right"@, b.right) + edge_xml("top"@, b.top) + edge_xml(
        "bottom"@,
        b.bottom,
    ) + "<diagonal/>"@
}

pub proof fn border_form(b: Borders)
    ensures
        border_xml(b) == "<border"@ + ">"@ + border_inner(b) + "</border>"@,
{
    reveal_strlit("<border>");
    reveal_strlit("<border");
    reveal_strlit(">");
    reveal_strlit("<diagonal/></border>");
    reveal_strlit("<diagonal/>");
    reveal_strlit("</border>");
    assert("<border>"@ == "<border"@ + ">"@);
    assert("<diagonal/></border>"@ == "<diagonal/>"@ + "</border>"@);
    let (l, r) = (edge_xml("left"@, b.left), edge_xml("right"@, b.right));
    let (t, m) = (edge_xml("top"@, b.top), edge_xml("bottom"@, b.bottom));
    assert("<border>"@ + l + r + t + m + ("<diagonal/>"@ + "</border>"@) == "<border>"@ + (l + r + t + m
        + "<diagonal/>"@) + "</border>"@);
}

proof fn sides()
    ensures
        is_side("left"@),
        is_side("right"@),
        is_side("top"@),
        is_side("bottom"@),
        "left"@[0] == 'l',
        "right"@[0] == 'r',
        "top"@[0] == 't',
        "bottom"@[0] == 'b',
        "bottom"@[2] == 't',
        "<diagonal/>"@.len() == 11,
        "<diagonal/>"@[0] == '<',
        "<diagonal/>"@[1] == 'd',
        forall|i: int| 1 <= i < 11 ==> #[trigger] "<diagonal/>"@[i] != '<',
        "<"@ == seq!['<'],
{
    reveal_strlit("left");
    reveal_strlit("right");
    reveal_strlit("top");
    reveal_strlit("bottom");
    reveal_strlit("<diagonal/>");
    reveal_strlit("<");
}

/// What stands in a border is clear of a tag that none of its tags starts as; `d` tells a closing
/// tag from that of the last side.
pub proof fn border_inner_clear(b: Borders, pat: Seq<char>)
    requires
        pat.len() > 4,
        pat[0] == '<',
        pat[1] != 'l' && pat[1] != 'r' && pat[1] != 't' && pat[1] != 'b' && pat[1] != 'd',
        pat[1] != 'c' || pat[2] != 'o',
        pat[1] == '/' ==> pat[2] != 'l' && pat[2] != 'r' && pat[2] != 't' && pat[4] != 't',
    ensures
        clear(border_inner(b), pat),
{
    sides();
    edge_clear("left"@, b.left, pat, 0);
    edge_clear("right"@, b.right, pat, 0);
    edge_clear("top"@, b.top, pat, 0);
    edge_clear("bottom"@, b.bottom, pat, 2);
    lit_clear("<diagonal/>"@, pat, 1);
    pieces_clear(
        edge_xml("left"@, b.left),
        edge_xml("right"@, b.right),
        edge_xml("top"@, b.top),
        edge_xml("bottom"@, b.bottom),
        "<diagonal/>"@,
        pat,
    );
}

/// A side among others is read as it was written.
proof fn side_back(pre: Seq<char>, side: Seq<char>, e: Option<BorderEdge>, post: Seq<char>)
    requires
        is_side(side),
        clear(pre, "<"@ + side),
        clear(post, "<"@ + side),
    ensures
        edge_read(pre + edge_xml(side, e) + post, "<"@ + side, 0) == edge_back(e),
{
    let o = "<"@ + side;
    tagless_clear(pre, o);
    if drawn(e) {
        edge_found(pre, side, e->0, post);
    } else {
        reveal_strlit("<");
        reveal_strlit("/>");
        let m = "<"@ + side + "/>"@;
        assert(edge_xml(side, e) == m);
        assert forall|p: int| 0 <= p < m.len() implies #[trigger] unlike(m, o, p) || (p + o.len()
            < m.len() && !is_white(m[p + o.len()])) by {
            if p == 0 {
                assert(m[o.len() as int] == '/');
            } else {
                if p <= side.len() {
                    assert(m[p] == side[p - 1]);
                }
                assert(m[p + 0] != o[0]);
            }
        }
        tagless_clear(post, o);
        tagless_join(pre, m, o);
        tagless_join(pre + m, post, o);
        edge_none(pre + m + post, o);
    }
}

/// A border as it comes back; none where no side is drawn.
pub open spec fn borders_back(b: Borders) -> Option<BordersView> {
    if drawn(b.left) || drawn(b.right) || drawn(b.top) || drawn(b.bottom) {
        Some(
            BordersView {
                left: edge_back(b.left),
                right: edge_back(b.right),
                top: edge_back(b.top),
                bottom: edge_back(b.bottom),
                diagonal_down: None,
                diagonal_up: None,
            },
        )
    } else {
        None
    }
}

proof fn around(l: Seq<char>, r: Seq<char>, t: Seq<char>, m: Seq<char>, z: Seq<char>)
    ensures
        l + r + t + m + z == Seq::<char>::empty() + l + (r + t + m + z),
        l + r + t + m + z == l + r + (t + m + z),
        l + r + t + m + z == (l + r) + t + (m + z),
        l + r + t + m + z == (l + r + t) + m + z,
{
}

/// A border is read back as it was written.
pub proof fn border_comes_back(b: Borders)
    ensures
        border_read(border_inner(b)) == borders_back(b),
{
    sides();
    let (l, r) = (edge_xml("left"@, b.left), edge_xml("right"@, b.right));
    let (t, m) = (edge_xml("top"@, b.top), edge_xml("bottom"@, b.bottom));
    let z = "<diagonal/>"@;
    let e = Seq::<char>::empty();
    around(l, r, t, m, z);
    reveal_strlit("<left");
    reveal_strlit("<right");
    reveal_strlit("<top");
    reveal_strlit("<bottom");
    reveal_strlit("left");
    reveal_strlit("right");
    reveal_strlit("top");
    reveal_strlit("bottom");
    assert("<left"@ == "<"@ + "left"@);
    assert("<right"@ == "<"@ + "right"@);
    assert("<top"@ == "<"@ + "top"@);
    assert("<bottom"@ == "<"@ + "bottom"@);
    assert(edge_read(border_inner(b), "<left"@, 0) == edge_back(b.left)) by {
        let o = "<left"@;
        clear_without(e, o);
        edge_clear("right"@, b.right, o, 0);
        edge_clear("top"@, b.top, o, 0);
        edge_clear("bottom"@, b.bottom, o, 0);
        lit_clear(z, o, 1);
        clear_four(r, t, m, z, o);
        side_back(e, "left"@, b.left, r + t + m + z);
    }
    assert(edge_read(border_inner(b), "<right"@, 0) == edge_back(b.right)) by {
        let o = "<right"@;
        edge_clear("left"@, b.left, o, 0);
        edge_clear("top"@, b.top, o, 0);
        edge_clear("bottom"@, b.bottom, o, 0);
        lit_clear(z, o, 1);
        clear_join(t, m, o);
        clear_join(t + m, z, o);
        side_back(l, "right"@, b.right, t + m + z);
    }
    assert(edge_read(border_inner(b), "<top"@, 0) == edge_back(b.top)) by {
        let o = "<top"@;
        edge_clear("left"@, b.left, o, 0);
        edge_clear("right"@, b.right, o, 0);
        edge_clear("bottom"@, b.bottom, o, 0);
        lit_clear(z, o, 1);
        clear_join(l, r, o);
        clear_join(m, z, o);
        side_back(l + r, "top"@, b.top, m + z);
    }
    assert(edge_read(border_inner(b), "<bottom"@, 0) == edge_back(b.bottom)) by {
        let o = "<bottom"@;
        edge_clear("left"@, b.left, o, 0);
        edge_clear("right"@, b.right, o, 0);
        edge_clear("top"@, b.top, o, 0);
        lit_clear(z, o, 1);
        clear_join(l, r, o);
        clear_join(l + r, t, o);
        side_back(l + r + t, "bottom"@, b.bottom, z);
    }
}

/// A border is clear of what stands beside borders.
pub proof fn border_clear(b: Borders, pat: Seq<char>)
    requires
        pat == "</borders>"@ || pat == "<cellXfs"@ || pat == "<numFmt"@,
    ensures
        clear(border_xml(b), pat),
{
    table_literals();
    border_form(b);
    border_inner_clear(b, pat);
    reveal_strlit("<border");
    reveal_strlit(">");
    reveal_strlit("</border>");
    lit_clear("<border"@, pat, 1);
    clear_without(">"@, pat);
    if pat[1] == '/' {
        lit_clear("</border>"@, pat, 8);
    } else {
        lit_clear("</border>"@, pat, 1);
    }
    clear_four("<border"@, ">"@, border_inner(b), "</border>"@, pat);
}

/// What stands in a border is clear of its end.
pub proof fn border_inner_ends(b: Borders)
    ensures
        clear(border_inner(b), "</border>"@),
{
    reveal_strlit("</border>");
    border_inner_clear(b, "</border>"@);
}

/// A border without sides.
pub open spec fn no_borders() -> Borders {
    Borders {
        left: None,
        right: None,
        top: None,
        bottom: None,
        diagonal_down: None,
        diagonal_up: None,
    }
}

/// The border that every file has is one without sides.
pub proof fn base_border()
    ensures
        base_tables().borders == seq![border_xml(no_borders())],
{
    reveal_strlit("<border><left/><right/><top/><bottom/><diagonal/></border>");
    reveal_strlit("<border>");
    reveal_strlit("<");
    reveal_strlit("/>");
    reveal_strlit("left");
    reveal_strlit("right");
    reveal_strlit("top");
    reveal_strlit("bottom");
    reveal_strlit("<diagonal/></border>");
    assert("<"@ + "left"@ + "/>"@ == "<left/>"@) by {
        reveal_strlit("<left/>");
    }
    assert("<"@ + "right"@ + "/>"@ == "<right/>"@) by {
        reveal_strlit("<right/>");
    }
    assert("<"@ + "top"@ + "/>"@ == "<top/>"@) by {
        reveal_strlit("<top/>");
    }
    assert("<"@ + "bottom"@ + "/>"@ == "<bottom/>"@) by {
        reveal_strlit("<bottom/>");
    }
    reveal_strlit("<left/>");
    reveal_strlit("<right/>");
    reveal_strlit("<top/>");
    reveal_strlit("<bottom/>");
    assert("<border>"@ + "<left/>"@ + "<right/>"@ + "<top/>"@ + "<bottom/>"@ + "<diagonal/></border>"@
        == "<border><left/><right/><top/><bottom/><diagonal/></border>"@);
}

} // verus!
