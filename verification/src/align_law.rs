//! Alignments of spreadsheet files are read back as they were written.
use crate::cell_law::{dec_is_plain, plain, plain_is_bare};
use crate::decimal::dec;
use crate::find_law::{
    attr_in_list, attr_item, attr_list, clear, clear_join, clear_miss, clear_without, first_skip,
    hit_moved, is_name, key_of, list_clear, list_push, name_apart, names_apart, tag_starts,
    tag_stop_past, tag_stop_shift, unlike, without, without_join,
};
use crate::font_law::{clear_occurs, piece_occurs, signs_clear};
use crate::numeral::{is_nonzero, is_number_text, is_positive, whole};
use crate::scan::{attr_of, captured, enclosed, first_hit, first_short_tag, occurs, short_tag, Hit};
use crate::strings_law::enclosed_shift;
use crate::style::{HAlign, Style, StyleView, VAlign};
use crate::text::{is_white, join, opt};
use crate::xlsx_style::{
    align_parts, align_text, h_name, h_part, indent_part, names_round_trip, rotation, rotation_part,
    shrink_part, signed, v_name, v_part, wrap_part,
};
use crate::xlsx_styles_read::align_read;
use vstd::prelude::*;

verus! {

// ---- names

proof fn apart_from_horizontal()
    ensures
        clear(" "@ + key_of("vertical"@), key_of("horizontal"@)),
        clear(" "@ + key_of("wrapText"@), key_of("horizontal"@)),
        clear(" "@ + key_of("textRotation"@), key_of("horizontal"@)),
        clear(" "@ + key_of("indent"@), key_of("horizontal"@)),
        clear(" "@ + key_of("shrinkToFit"@), key_of("horizontal"@)),
        is_name("horizontal"@),
{
    reveal_strlit("horizontal");
    reveal_strlit("vertical");
    reveal_strlit("wrapText");
    reveal_strlit("textRotation");
    reveal_strlit("indent");
    reveal_strlit("shrinkToFit");
    reveal_strlit(" ");
    names_apart("vertical"@, "horizontal"@, 0);
    names_apart("wrapText"@, "horizontal"@, 0);
    names_apart("textRotation"@, "horizontal"@, 0);
    names_apart("indent"@, "horizontal"@, 0);
    names_apart("shrinkToFit"@, "horizontal"@, 1);
}

proof fn apart_from_vertical()
    ensures
        clear(" "@ + key_of("horizontal"@), key_of("vertical"@)),
        clear(" "@ + key_of("wrapText"@), key_of("vertical"@)),
        clear(" "@ + key_of("textRotation"@), key_of("vertical"@)),
        clear(" "@ + key_of("indent"@), key_of("vertical"@)),
        clear(" "@ + key_of("shrinkToFit"@), key_of("vertical"@)),
        is_name("vertical"@),
{
    reveal_strlit("horizontal");
    reveal_strlit("vertical");
    reveal_strlit("wrapText");
    reveal_strlit("textRotation");
    reveal_strlit("indent");
    reveal_strlit("shrinkToFit");
    reveal_strlit(" ");
    names_apart("horizontal"@, "vertical"@, 0);
    names_apart("wrapText"@, "vertical"@, 0);
    names_apart("textRotation"@, "vertical"@, 0);
    names_apart("indent"@, "vertical"@, 0);
    names_apart("shrinkToFit"@, "vertical"@, 0);
}

proof fn apart_from_wraptext()
    ensures
        clear(" "@ + key_of("horizontal"@), key_of("wrapText"@)),
        clear(" "@ + key_of("vertical"@), key_of("wrapText"@)),
        clear(" "@ + key_of("textRotation"@), key_of("wrapText"@)),
        clear(" "@ + key_of("indent"@), key_of("wrapText"@)),
        clear(" "@ + key_of("shrinkToFit"@), key_of("wrapText"@)),
        is_name("wrapText"@),
{
    reveal_strlit("horizontal");
    reveal_strlit("vertical");
    reveal_strlit("wrapText");
    reveal_strlit("textRotation");
    reveal_strlit("indent");
    reveal_strlit("shrinkToFit");
    reveal_strlit(" ");
    names_apart("horizontal"@, "wrapText"@, 0);
    names_apart("vertical"@, "wrapText"@, 0);
    names_apart("textRotation"@, "wrapText"@, 0);
    names_apart("indent"@, "wrapText"@, 0);
    names_apart("shrinkToFit"@, "wrapText"@, 0);
}

proof fn apart_from_indent()
    ensures
        clear(" "@ + key_of("horizontal"@), key_of("indent"@)),
        clear(" "@ + key_of("vertical"@), key_of("indent"@)),
        clear(" "@ + key_of("wrapText"@), key_of("indent"@)),
        clear(" "@ + key_of("textRotation"@), key_of("indent"@)),
        clear(" "@ + key_of("shrinkToFit"@), key_of("indent"@)),
        is_name("indent"@),
{
    reveal_strlit("horizontal");
    reveal_strlit("vertical");
    reveal_strlit("wrapText");
    reveal_strlit("textRotation");
    reveal_strlit("indent");
    reveal_strlit("shrinkToFit");
    reveal_strlit(" ");
    names_apart("horizontal"@, "indent"@, 0);
    names_apart("vertical"@, "indent"@, 0);
    names_apart("wrapText"@, "indent"@, 0);
    names_apart("textRotation"@, "indent"@, 0);
    names_apart("shrinkToFit"@, "indent"@, 0);
}

proof fn apart_from_shrinktofit()
    ensures
        clear(" "@ + key_of("horizontal"@), key_of("shrinkToFit"@)),
        clear(" "@ + key_of("vertical"@), key_of("shrinkToFit"@)),
        clear(" "@ + key_of("wrapText"@), key_of("shrinkToFit"@)),
        clear(" "@ + key_of("textRotation"@), key_of("shrinkToFit"@)),
        clear(" "@ + key_of("indent"@), key_of("shrinkToFit"@)),
        is_name("shrinkToFit"@),
{
    reveal_strlit("horizontal");
    reveal_strlit("vertical");
    reveal_strlit("wrapText");
    reveal_strlit("textRotation");
    reveal_strlit("indent");
    reveal_strlit("shrinkToFit");
    reveal_strlit(" ");
    names_apart("horizontal"@, "shrinkToFit"@, 0);
    names_apart("vertical"@, "shrinkToFit"@, 0);
    names_apart("wrapText"@, "shrinkToFit"@, 0);
    names_apart("textRotation"@, "shrinkToFit"@, 0);
    names_apart("indent"@, "shrinkToFit"@, 0);
}

proof fn apart_from_locked()
    ensures
        clear(" "@ + key_of("horizontal"@), key_of("locked"@)),
        clear(" "@ + key_of("vertical"@), key_of("locked"@)),
        clear(" "@ + key_of("wrapText"@), key_of("locked"@)),
        clear(" "@ + key_of("textRotation"@), key_of("locked"@)),
        clear(" "@ + key_of("indent"@), key_of("locked"@)),
        clear(" "@ + key_of("shrinkToFit"@), key_of("locked"@)),
        is_name("locked"@),
{
    reveal_strlit("horizontal");
    reveal_strlit("vertical");
    reveal_strlit("wrapText");
    reveal_strlit("textRotation");
    reveal_strlit("indent");
    reveal_strlit("shrinkToFit");
    reveal_strlit("locked");
    reveal_strlit(" ");
    names_apart("horizontal"@, "locked"@, 0);
    names_apart("vertical"@, "locked"@, 0);
    names_apart("wrapText"@, "locked"@, 0);
    names_apart("textRotation"@, "locked"@, 0);
    names_apart("indent"@, "locked"@, 0);
    names_apart("shrinkToFit"@, "locked"@, 0);
}

// ---- what is found behind a text

proof fn first_moved(
    f: spec_fn(int) -> Option<Hit>,
    g: spec_fn(int) -> Option<Hit>,
    n: int,
    i: int,
    m: int,
)
    requires
        0 <= i,
        forall|k: int| 0 <= k ==> #[trigger] f(n + k) == hit_moved(g(k), n),
    ensures
        first_hit(f, n + i, n + m) == hit_moved(first_hit(g, i, m), n),
    decreases m - i,
{
    if i < m {
        assert(f(n + i) == hit_moved(g(i), n));
        first_moved(f, g, n, i + 1, m);
    }
}

proof fn first_within(f: spec_fn(int) -> Option<Hit>, s: Seq<char>, o: Seq<char>, c: Seq<char>, i: int)
    requires
        0 <= i,
        forall|k: int| 0 <= k ==> #[trigger] f(k) == enclosed(s, o, c, k),
    ensures
        first_hit(f, i, s.len() as int) matches Some(h) ==> 0 <= h.a <= h.b <= s.len(),
    decreases s.len() - i,
{
    if i < s.len() {
        assert(f(i) == enclosed(s, o, c, i));
        enclosed_shift(Seq::empty(), s, o, c, i);
        crate::find_law::find_on(s, c, i + o.len());
        first_within(f, s, o, c, i + 1);
    }
}

/// An attribute is found behind a text in which its key does not start.
proof fn attr_behind(a: Seq<char>, s: Seq<char>, name: Seq<char>)
    requires
        clear(a, key_of(name)),
    ensures
        attr_of(a + s, name) == attr_of(s, name),
{
    let (o, c) = (key_of(name), "\""@);
    let t = a + s;
    let n = a.len() as int;
    let f = |i: int| enclosed(t, o, c, i);
    let g = |i: int| enclosed(s, o, c, i);
    assert forall|k: int| 0 <= k implies #[trigger] f(n + k) == hit_moved(g(k), n) by {
        enclosed_shift(a, s, o, c, k);
    }
    assert forall|k: int| 0 <= k < n implies (#[trigger] f(k)) is None by {
        clear_miss(a, s, o, k);
    }
    first_skip(f, 0, n, t.len() as int);
    first_moved(f, g, n, 0, s.len() as int);
    first_within(g, s, o, c, 0);
    match first_hit(g, 0, s.len() as int) {
        Some(h) => {
            assert(t.subrange(n + h.a, n + h.b) == s.subrange(h.a, h.b));
        },
        None => {},
    }
    assert(name + "=\""@ == o);
    assert(attr_of(t, name) == captured(t, first_hit(f, 0, t.len() as int)));
    assert(attr_of(s, name) == captured(s, first_hit(g, 0, s.len() as int)));
}

/// The attributes of a tag that closes itself and stands first are read as they were written.
proof fn short_first(o: Seq<char>, attrs: Seq<char>, b: Seq<char>)
    requires
        o.len() > 0,
        attrs.len() > 0,
        !is_white(attrs[0]),
        without(attrs, '>'),
        without(attrs, '/'),
    ensures
        first_short_tag(o + " "@ + attrs + "/>"@ + b, o) == Some(attrs),
{
    reveal_strlit(" ");
    reveal_strlit("/>");
    let s = o + " "@ + attrs + "/>"@ + b;
    let f = |i: int| short_tag(s, o, i);
    let behind = " "@ + attrs + "/>"@ + b;
    assert(s == o + behind);
    assert(behind[1] == attrs[0]);
    tag_starts(o, behind);
    let head = o + " "@;
    let tail = "/>"@ + b;
    assert(s == head + (attrs + tail));
    tag_stop_shift(head, attrs + tail, 0);
    tag_stop_past(attrs, tail, 0);
    let k = head.len() as int;
    let g = k + attrs.len();
    assert(s[g] == tail[0]);
    assert(s[g + 1] == tail[1]);
    assert(f(0) == Some(Hit { a: k, b: g, end: g + 2 }));
    assert(first_hit(f, 0, s.len() as int) == f(0));
    assert(s.subrange(k, g) == attrs);
}

/// No tag is read where none starts.
proof fn short_missing(s: Seq<char>, o: Seq<char>)
    requires
        clear(s, o),
    ensures
        first_short_tag(s, o) is None,
{
    let f = |i: int| short_tag(s, o, i);
    let e = Seq::<char>::empty();
    assert(s + e == s);
    assert forall|k: int| 0 <= k < s.len() implies (#[trigger] f(k)) is None by {
        clear_miss(s, e, o, k);
    }
    first_skip(f, 0, s.len() as int, s.len() as int);
}

// ---- alignments

/// The attributes of an alignment with their values.
pub open spec fn align_list(s: Style) -> Seq<(Seq<char>, Option<Seq<char>>)> {
    seq![
        (
            "horizontal"@,
            match s.h_align {
                Some(h) => Some(h_name(h)),
                None => None,
            },
        ),
        (
            "vertical"@,
            match s.v_align {
                Some(v) => Some(v_name(v)),
                None => None,
            },
        ),
        (
            "wrapText"@,
            if s.word_wrap == Some(true) {
                Some("1"@)
            } else {
                None
            },
        ),
        (
            "textRotation"@,
            match s.text_rotation {
                Some(t) if is_nonzero(t@) => Some(dec(rotation(whole(t@)))),
                _ => None,
            },
        ),
        (
            "indent"@,
            match s.indent {
                Some(t) if is_positive(t@) => Some(signed(whole(t@))),
                _ => None,
            },
        ),
        (
            "shrinkToFit"@,
            if s.shrink_to_fit == Some(true) {
                Some("1"@)
            } else {
                None
            },
        ),
    ]
}

/// An attribute as a part of a list.
spec fn item_part(x: (Seq<char>, Option<Seq<char>>)) -> Seq<Seq<char>> {
    match x.1 {
        Some(v) => seq![key_of(x.0) + v + "\""@],
        None => Seq::empty(),
    }
}

/// Parts with a blank in front of each.
spec fn led(parts: Seq<Seq<char>>) -> Seq<char> {
    if parts.len() == 0 {
        Seq::empty()
    } else {
        " "@ + join(parts, " "@)
    }
}

proof fn led_push(parts: Seq<Seq<char>>, x: (Seq<char>, Option<Seq<char>>))
    ensures
        led(parts + item_part(x)) == led(parts) + attr_item(x.0, x.1),
{
    match x.1 {
        Some(v) => {
            let p = key_of(x.0) + v + "\""@;
            let all = parts + seq![p];
            assert(item_part(x) == seq![p]);
            assert(all.drop_last() == parts);
            assert(all.last() == p);
            assert(attr_item(x.0, x.1) == " "@ + p);
            if parts.len() == 0 {
                assert(all[0] == p);
                assert(join(all, " "@) == p);
                assert(led(all) == " "@ + p);
                assert(led(parts) + (" "@ + p) == " "@ + p);
            } else {
                assert(join(all, " "@) == join(parts, " "@) + " "@ + p);
                assert(" "@ + (join(parts, " "@) + " "@ + p) == (" "@ + join(parts, " "@)) + (" "@ + p));
            }
        },
        None => {
            assert(parts + item_part(x) == parts);
            assert(led(parts) + attr_item(x.0, x.1) == led(parts));
        },
    }
}

/// The attributes of an alignment are a list of attributes.
proof fn align_is_list(s: Style)
    ensures
        led(align_parts(s)) == attr_list(align_list(s)),
{
    let l = align_list(s);
    reveal_strlit("horizontal=\"");
    reveal_strlit("horizontal");
    reveal_strlit("vertical=\"");
    reveal_strlit("vertical");
    reveal_strlit("wrapText=\"1\"");
    reveal_strlit("wrapText");
    reveal_strlit("textRotation=\"");
    reveal_strlit("textRotation");
    reveal_strlit("indent=\"");
    reveal_strlit("indent");
    reveal_strlit("shrinkToFit=\"1\"");
    reveal_strlit("shrinkToFit");
    reveal_strlit("=\"");
    reveal_strlit("1");
    reveal_strlit("\"");
    assert(key_of("horizontal"@) == "horizontal=\""@);
    assert(key_of("vertical"@) == "vertical=\""@);
    assert(key_of("wrapText"@) + "1"@ + "\""@ == "wrapText=\"1\""@);
    assert(key_of("textRotation"@) == "textRotation=\""@);
    assert(key_of("indent"@) == "indent=\""@);
    assert(key_of("shrinkToFit"@) + "1"@ + "\""@ == "shrinkToFit=\"1\""@);
    assert(item_part(l[0]) == h_part(s));
    assert(item_part(l[1]) == v_part(s));
    assert(item_part(l[2]) == wrap_part(s));
    assert(item_part(l[3]) == rotation_part(s));
    assert(item_part(l[4]) == indent_part(s));
    assert(item_part(l[5]) == shrink_part(s));
    list_of_six(l[0], l[1], l[2], l[3], l[4], l[5]);
    assert(l == seq![l[0], l[1], l[2], l[3], l[4], l[5]]);
}

proof fn list_of_six(
    a: (Seq<char>, Option<Seq<char>>),
    b: (Seq<char>, Option<Seq<char>>),
    c: (Seq<char>, Option<Seq<char>>),
    d: (Seq<char>, Option<Seq<char>>),
    e: (Seq<char>, Option<Seq<char>>),
    f: (Seq<char>, Option<Seq<char>>),
)
    ensures
        led(
            item_part(a) + item_part(b) + item_part(c) + item_part(d) + item_part(e) + item_part(f),
        ) == attr_list(seq![a, b, c, d, e, f]),
{
    let z = Seq::<Seq<char>>::empty();
    let n = Seq::<(Seq<char>, Option<Seq<char>>)>::empty();
    led_push(z, a);
    list_push(n, a);
    assert(z + item_part(a) == item_part(a));
    assert(led(item_part(a)) == attr_list(n.push(a)));
    let p = item_part(a);
    led_push(p, b);
    list_push(n.push(a), b);
    let p = p + item_part(b);
    led_push(p, c);
    list_push(n.push(a).push(b), c);
    let p = p + item_part(c);
    led_push(p, d);
    list_push(n.push(a).push(b).push(c), d);
    let p = p + item_part(d);
    led_push(p, e);
    list_push(n.push(a).push(b).push(c).push(d), e);
    let p = p + item_part(e);
    led_push(p, f);
    list_push(n.push(a).push(b).push(c).push(d).push(e), f);
    assert(n.push(a).push(b).push(c).push(d).push(e).push(f) == seq![a, b, c, d, e, f]);
}

proof fn names_are_plain(h: HAlign, v: VAlign)
    ensures
        plain(h_name(h)),
        plain(v_name(v)),
        h_name(h).len() > 0,
        v_name(v).len() > 0,
{
    reveal_strlit("left");
    reveal_strlit("center");
    reveal_strlit("right");
    reveal_strlit("fill");
    reveal_strlit("justify");
    reveal_strlit("centerContinuous");
    reveal_strlit("top");
    reveal_strlit("bottom");
}

proof fn signed_is_plain(n: int)
    ensures
        plain(signed(n)),
{
    reveal_strlit("-");
    if n < 0 {
        dec_is_plain((-n) as nat);
    } else {
        dec_is_plain(n as nat);
    }
}

/// The values of an alignment are plain texts.
proof fn values_are_plain(s: Style)
    ensures
        forall|i: int|
            0 <= i < 6 ==> ((#[trigger] align_list(s)[i]).1 matches Some(v) ==> plain(v)),
{
    let l = align_list(s);
    reveal_strlit("1");
    assert forall|i: int| 0 <= i < 6 implies ((#[trigger] l[i]).1 matches Some(v) ==> plain(v)) by {
        if let Some(h) = s.h_align {
            names_are_plain(h, VAlign::Top);
        }
        if let Some(v) = s.v_align {
            names_are_plain(HAlign::Left, v);
        }
        if let Some(t) = s.text_rotation {
            dec_is_plain(rotation(whole(t@)));
        }
        if let Some(t) = s.indent {
            signed_is_plain(whole(t@));
        }
    }
}

proof fn values_are_bare(s: Style)
    ensures
        forall|i: int|
            0 <= i < 6 ==> ((#[trigger] align_list(s)[i]).1 matches Some(v) ==> without(v, '=') && without(
                v,
                '"',
            ) && without(v, '<') && without(v, '>') && without(v, '/')),
{
    values_are_plain(s);
    let l = align_list(s);
    assert forall|i: int|
        0 <= i < 6 implies ((#[trigger] l[i]).1 matches Some(v) ==> without(v, '=') && without(v, '"')
        && without(v, '<') && without(v, '>') && without(v, '/')) by {
        if let Some(v) = l[i].1 {
            plain_is_bare(v);
        }
    }
}

/// The attributes of an alignment in a list are read as they were written.
proof fn list_read(s: Style)
    ensures
        ({
            let all = attr_list(align_list(s));
            let l = align_list(s);
            &&& attr_of(all, "horizontal"@) == l[0].1
            &&& attr_of(all, "vertical"@) == l[1].1
            &&& attr_of(all, "wrapText"@) == l[2].1
            &&& attr_of(all, "indent"@) == l[4].1
            &&& attr_of(all, "shrinkToFit"@) == l[5].1
        }),
{
    let l = align_list(s);
    let all = attr_list(l);
    let e = Seq::<char>::empty();
    values_are_bare(s);
    assert(e + all == all);
    assert(attr_of(e + all, "horizontal"@) == l[0].1) by {
        apart_from_horizontal();
        name_apart("horizontal"@);
        clear_without(e, key_of("horizontal"@));
        attr_in_list(e, l, 0);
    }
    assert(attr_of(e + all, "vertical"@) == l[1].1) by {
        apart_from_vertical();
        name_apart("vertical"@);
        clear_without(e, key_of("vertical"@));
        attr_in_list(e, l, 1);
    }
    assert(attr_of(e + all, "wrapText"@) == l[2].1) by {
        apart_from_wraptext();
        name_apart("wrapText"@);
        clear_without(e, key_of("wrapText"@));
        attr_in_list(e, l, 2);
    }
    assert(attr_of(e + all, "indent"@) == l[4].1) by {
        apart_from_indent();
        name_apart("indent"@);
        clear_without(e, key_of("indent"@));
        attr_in_list(e, l, 4);
    }
    assert(attr_of(e + all, "shrinkToFit"@) == l[5].1) by {
        apart_from_shrinktofit();
        name_apart("shrinkToFit"@);
        clear_without(e, key_of("shrinkToFit"@));
        attr_in_list(e, l, 5);
    }
}

/// A blank in front of attributes changes nothing.
proof fn blank_in_front(t: Seq<char>, name: Seq<char>)
    requires
        is_name(name),
    ensures
        attr_of(" "@ + t, name) == attr_of(t, name),
{
    name_apart(name);
    attr_behind(" "@, t, name);
}

proof fn are_names()
    ensures
        is_name("horizontal"@),
        is_name("vertical"@),
        is_name("wrapText"@),
        is_name("indent"@),
        is_name("shrinkToFit"@),
        is_name("locked"@),
{
    reveal_strlit("horizontal");
    reveal_strlit("vertical");
    reveal_strlit("wrapText");
    reveal_strlit("indent");
    reveal_strlit("shrinkToFit");
    reveal_strlit("locked");
}

proof fn item_bare(x: (Seq<char>, Option<Seq<char>>), c: char)
    requires
        is_name(x.0),
        c == '<' || c == '>' || c == '/',
        x.1 matches Some(v) ==> without(v, c),
    ensures
        without(attr_item(x.0, x.1), c),
{
    reveal_strlit(" ");
    reveal_strlit("=\"");
    reveal_strlit("\"");
    match x.1 {
        Some(v) => {
            let k = " "@ + key_of(x.0);
            assert forall|i: int| 0 <= i < k.len() implies #[trigger] k[i] != c by {
                if 1 <= i <= x.0.len() {
                    assert(k[i] == x.0[i - 1]);
                }
            }
            without_join(k, v, c);
            without_join(k + v, "\""@, c);
            assert(attr_item(x.0, x.1) == k + v + "\""@);
        },
        None => {},
    }
}

proof fn list_bare(l: Seq<(Seq<char>, Option<Seq<char>>)>, c: char)
    requires
        c == '<' || c == '>' || c == '/',
        forall|i: int|
            0 <= i < l.len() ==> is_name((#[trigger] l[i]).0) && (l[i].1 matches Some(v) ==> without(
                v,
                c,
            )),
    ensures
        without(attr_list(l), c),
    decreases l.len(),
{
    if l.len() > 0 {
        let p = l.drop_last();
        assert forall|i: int| 0 <= i < p.len() implies is_name((#[trigger] p[i]).0) && (p[i].1 matches Some(
            v,
        ) ==> without(v, c)) by {
            assert(p[i] == l[i]);
        }
        list_bare(p, c);
        let x = l[l.len() - 1];
        assert(l.last() == x);
        item_bare(x, c);
        without_join(attr_list(p), attr_item(x.0, x.1), c);
    }
}

/// An alignment in its tag holds no markup.
proof fn align_bare(s: Style)
    ensures
        led(align_parts(s)) == attr_list(align_list(s)),
        without(attr_list(align_list(s)), '<'),
        without(attr_list(align_list(s)), '>'),
        without(attr_list(align_list(s)), '/'),
        align_text(s).len() > 0 ==> " "@ + align_text(s) == attr_list(align_list(s)) && !is_white(
            align_text(s)[0],
        ),
        align_text(s).len() == 0 ==> align_parts(s).len() == 0,
{
    are_names();
    reveal_strlit("textRotation");
    align_is_list(s);
    values_are_bare(s);
    let l = align_list(s);
    assert forall|i: int| 0 <= i < l.len() implies is_name((#[trigger] l[i]).0) by {}
    list_bare(l, '<');
    list_bare(l, '>');
    list_bare(l, '/');
    first_part(s);
}

/// An alignment starts with the name of an attribute.
proof fn first_part(s: Style)
    ensures
        align_parts(s).len() > 0 ==> align_text(s).len() > 0 && 'a' <= align_text(s)[0] <= 'z',
{
    let p = align_parts(s);
    reveal_strlit("horizontal=\"");
    reveal_strlit("vertical=\"");
    reveal_strlit("wrapText=\"1\"");
    reveal_strlit("textRotation=\"");
    reveal_strlit("indent=\"");
    reveal_strlit("shrinkToFit=\"1\"");
    assert forall|i: int| 0 <= i < p.len() implies (#[trigger] p[i]).len() > 0 && 'a' <= p[i][0] <= 'z' by {}
    joined_start(p);
}

proof fn joined_start(p: Seq<Seq<char>>)
    requires
        forall|i: int| 0 <= i < p.len() ==> (#[trigger] p[i]).len() > 0 && 'a' <= p[i][0] <= 'z',
    ensures
        p.len() > 0 ==> join(p, " "@).len() > 0 && 'a' <= join(p, " "@)[0] <= 'z',
    decreases p.len(),
{
    if p.len() > 1 {
        let q = p.drop_last();
        assert forall|i: int| 0 <= i < q.len() implies (#[trigger] q[i]).len() > 0 && 'a' <= q[i][0]
            <= 'z' by {
            assert(q[i] == p[i]);
        }
        joined_start(q);
    } else if p.len() == 1 {
        assert(p[0].len() > 0);
    }
}

/// What stands in a cell format.
pub open spec fn xf_inner(s: Style) -> Seq<char> {
    opt(align_text(s).len() > 0, "<alignment "@ + align_text(s) + "/>"@) + opt(
        s.locked == Some(false),
        "<protection locked=\"0\"/>"@,
    )
}

/// What stands in a cell format is clear of tags that it does not hold.
pub proof fn xf_inner_clear(s: Style, pat: Seq<char>)
    requires
        pat.len() > 1,
        pat[0] == '<',
        pat[1] != 'a',
        pat[1] != 'p',
    ensures
        clear(xf_inner(s), pat),
{
    let e = Seq::<char>::empty();
    clear_without(e, pat);
    align_bare(s);
    reveal_strlit("<alignment ");
    reveal_strlit("<alignment");
    reveal_strlit(" ");
    reveal_strlit("/>");
    reveal_strlit("<protection locked=\"0\"/>");
    let t = attr_list(align_list(s));
    let a = opt(align_text(s).len() > 0, "<alignment "@ + align_text(s) + "/>"@);
    let b = opt(s.locked == Some(false), "<protection locked=\"0\"/>"@);
    if align_text(s).len() > 0 {
        assert("<alignment "@ == "<alignment"@ + " "@);
        assert("<alignment"@ + " "@ + align_text(s) + "/>"@ == "<alignment"@ + t + "/>"@) by {
            assert("<alignment"@ + " "@ + align_text(s) == "<alignment"@ + (" "@ + align_text(s)));
        }
        signs_clear("<alignment"@, pat, 1);
        clear_without(t, pat);
        clear_without("/>"@, pat);
        clear_join("<alignment"@, t, pat);
        clear_join("<alignment"@ + t, "/>"@, pat);
    }
    signs_clear("<protection locked=\"0\"/>"@, pat, 1);
    clear_join(a, b, pat);
}

/// The style of a cell as far as its alignment is written.
pub open spec fn align_back(st: StyleView, s: Style) -> StyleView {
    if align_text(s).len() == 0 {
        st
    } else {
        StyleView {
            h_align: s.h_align,
            v_align: s.v_align,
            word_wrap: if s.word_wrap == Some(true) {
                Some(true)
            } else {
                None
            },
            indent: match s.indent {
                Some(t) if is_positive(t@) && is_number_text(signed(whole(t@))) && is_positive(
                    signed(whole(t@)),
                ) => Some(signed(whole(t@))),
                _ => None,
            },
            shrink_to_fit: if s.shrink_to_fit == Some(true) {
                Some(true)
            } else {
                None
            },
            ..st
        }
    }
}

/// An alignment is read back as it was written.
pub proof fn align_comes_back(st: StyleView, s: Style)
    ensures
        align_read(st, xf_inner(s)) == align_back(st, s),
{
    let al = align_text(s);
    let b = opt(s.locked == Some(false), "<protection locked=\"0\"/>"@);
    let o = "<alignment"@;
    align_bare(s);
    reveal_strlit("<alignment");
    if al.len() > 0 {
        reveal_strlit("<alignment ");
        reveal_strlit(" ");
        let t = attr_list(align_list(s));
        assert(without(al, '>') && without(al, '/')) by {
            assert forall|i: int| 0 <= i < al.len() implies #[trigger] al[i] != '>' && al[i] != '/' by {
                assert(al[i] == t[i + 1]);
            }
        }
        assert("<alignment "@ == o + " "@);
        short_first(o, al, b);
        assert(xf_inner(s) == o + " "@ + al + "/>"@ + b);
        are_names();
        list_read(s);
        blank_in_front(al, "horizontal"@);
        blank_in_front(al, "vertical"@);
        blank_in_front(al, "wrapText"@);
        blank_in_front(al, "indent"@);
        blank_in_front(al, "shrinkToFit"@);
        if let Some(h) = s.h_align {
            names_round_trip(h, VAlign::Top, crate::style::BorderLineStyle::Thin);
        }
        if let Some(v) = s.v_align {
            names_round_trip(HAlign::Left, v, crate::style::BorderLineStyle::Thin);
        }
    } else {
        reveal_strlit("<protection locked=\"0\"/>");
        signs_clear(b, o, 1);
        assert(xf_inner(s) == b);
        short_missing(b, o);
    }
}

/// Whether a cell may be edited is read as it was written.
pub proof fn locked_comes_back(s: Style)
    ensures
        occurs(xf_inner(s), "locked=\"0\""@) == (s.locked == Some(false)),
{
    let pat = "locked=\"0\""@;
    let a = opt(align_text(s).len() > 0, "<alignment "@ + align_text(s) + "/>"@);
    reveal_strlit("locked=\"0\"");
    if s.locked == Some(false) {
        reveal_strlit("<protection locked=\"0\"/>");
        reveal_strlit("<protection ");
        reveal_strlit("/>");
        assert("<protection locked=\"0\"/>"@ == "<protection "@ + pat + "/>"@);
        piece_occurs(a + "<protection "@, pat, "/>"@);
        assert(xf_inner(s) == a + "<protection "@ + pat + "/>"@);
    } else {
        let e = Seq::<char>::empty();
        assert(xf_inner(s) == a);
        if align_text(s).len() > 0 {
            align_bare(s);
            values_are_bare(s);
            apart_from_locked();
            name_apart("locked"@);
            let l = align_list(s);
            let t = attr_list(l);
            let key = key_of("locked"@);
            assert forall|j: int| 0 <= j < l.len() implies crate::find_law::passes(
                #[trigger] l[j],
                "locked"@,
            ) by {}
            list_clear(l, "locked"@);
            reveal_strlit("<alignment ");
            reveal_strlit("<alignment");
            reveal_strlit(" ");
            reveal_strlit("/>");
            reveal_strlit("locked");
            reveal_strlit("=\"");
            assert("<alignment "@ == "<alignment"@ + " "@);
            assert(a == "<alignment"@ + t + "/>"@) by {
                assert("<alignment"@ + " "@ + align_text(s) == "<alignment"@ + (" "@ + align_text(s)));
            }
            signs_clear("<alignment"@, key, 1);
            clear_without("/>"@, key);
            clear_join("<alignment"@, t, key);
            clear_join("<alignment"@ + t, "/>"@, key);
            longer_clear(a, key, pat);
        } else {
            clear_without(e, pat);
        }
        clear_occurs(a, pat);
    }
}

/// What is clear of a pattern is clear of a longer one.
proof fn longer_clear(s: Seq<char>, pat: Seq<char>, long: Seq<char>)
    requires
        clear(s, pat),
        pat.len() <= long.len(),
        forall|i: int| 0 <= i < pat.len() ==> #[trigger] long[i] == pat[i],
    ensures
        clear(s, long),
{
    assert forall|p: int| 0 <= p < s.len() implies #[trigger] unlike(s, long, p) by {
        assert(unlike(s, pat, p));
        let j = choose|j: int| 0 <= j < pat.len() && p + j < s.len() && s[p + j] != #[trigger] pat[j];
        assert(s[p + j] != long[j]);
    }
}

} // verus!
