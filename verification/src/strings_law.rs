//! Shared strings of spreadsheet files are read back as they were written.
use crate::border_law::{
    element_with, elements_clear, elements_join, elements_none, elements_whole, holds_elements,
};
use crate::cell_law::{dec_is_plain, escaped_is_bare, lit_clear, plain_is_bare};
use crate::decimal::dec;
use crate::find_law::{
    at_shift, at_start, captures_shift, captures_skip, clear, clear_join, clear_miss, clear_without,
    find_char_move, find_char_past, find_on, find_past, find_shift, hit_moved, without,
};
use crate::scan::{all_enclosed, captures, element, elements, enclosed, Hit};
use crate::xlsx_style::{shared_items, shared_xml, xml_decl};
use crate::xlsx_styles_read::{runs_text, shared_texts};
use crate::xml::{esc_text, escape_round_trip, unescaped, Escape};
use vstd::prelude::*;

verus! {

pub proof fn enclosed_shift(a: Seq<char>, s: Seq<char>, o: Seq<char>, c: Seq<char>, i: int)
    requires
        0 <= i,
    ensures
        enclosed(a + s, o, c, a.len() + i) == hit_moved(enclosed(s, o, c, i), a.len() as int),
        enclosed(s, o, c, i) matches Some(h) ==> 0 <= h.a <= h.b && h.b <= h.end,
{
    at_shift(a, s, o, i);
    find_shift(a, s, c, i + o.len());
    find_on(s, c, i + o.len());
}

/// Whether what stands between two texts is `list`, whatever stands behind.
pub open spec fn holds_enclosed(s: Seq<char>, o: Seq<char>, c: Seq<char>, list: Seq<Seq<char>>) -> bool {
    forall|b: Seq<char>| #[trigger] all_enclosed(s + b, o, c) == list + all_enclosed(b, o, c)
}

proof fn enclosed_rest(a: Seq<char>, s: Seq<char>, o: Seq<char>, c: Seq<char>)
    ensures
        captures(a + s, |i: int| enclosed(a + s, o, c, i), a.len() as int) == all_enclosed(s, o, c),
{
    let t = a + s;
    let f = |i: int| enclosed(t, o, c, i);
    let g = |i: int| enclosed(s, o, c, i);
    assert forall|k: int| 0 <= k implies #[trigger] f(a.len() + k) == hit_moved(g(k), a.len() as int) by {
        enclosed_shift(a, s, o, c, k);
    }
    assert forall|k: int| 0 <= k && (#[trigger] g(k)) is Some implies 0 <= g(k)->0.a <= g(k)->0.b && g(
        k,
    )->0.b <= g(k)->0.end by {
        enclosed_shift(a, s, o, c, k);
    }
    captures_shift(a, s, f, g, 0);
}

pub proof fn enclosed_none(s: Seq<char>, o: Seq<char>, c: Seq<char>)
    requires
        clear(s, o),
    ensures
        holds_enclosed(s, o, c, Seq::empty()),
{
    assert forall|b: Seq<char>| #[trigger]
        all_enclosed(s + b, o, c) == Seq::<Seq<char>>::empty() + all_enclosed(b, o, c) by {
        let t = s + b;
        let f = |i: int| enclosed(t, o, c, i);
        assert forall|k: int| 0 <= k < s.len() implies (#[trigger] f(k)) is None by {
            clear_miss(s, b, o, k);
        }
        captures_skip(t, f, 0, s.len() as int);
        enclosed_rest(s, b, o, c);
    }
}

pub proof fn enclosed_join(
    s: Seq<char>,
    t: Seq<char>,
    o: Seq<char>,
    c: Seq<char>,
    p: Seq<Seq<char>>,
    q: Seq<Seq<char>>,
)
    requires
        holds_enclosed(s, o, c, p),
        holds_enclosed(t, o, c, q),
    ensures
        holds_enclosed(s + t, o, c, p + q),
{
    assert forall|b: Seq<char>| #[trigger]
        all_enclosed((s + t) + b, o, c) == (p + q) + all_enclosed(b, o, c) by {
        assert((s + t) + b == s + (t + b));
        assert(all_enclosed(s + (t + b), o, c) == p + all_enclosed(t + b, o, c));
        assert(all_enclosed(t + b, o, c) == q + all_enclosed(b, o, c));
    }
}

pub proof fn enclosed_one(o: Seq<char>, v: Seq<char>, c: Seq<char>)
    requires
        o.len() > 0,
        c.len() > 0,
        clear(v, c),
    ensures
        holds_enclosed(o + v + c, o, c, seq![v]),
{
    let e = o + v + c;
    assert forall|b: Seq<char>| #[trigger]
        all_enclosed(e + b, o, c) == seq![v] + all_enclosed(b, o, c) by {
        let s = e + b;
        let f = |i: int| enclosed(s, o, c, i);
        assert(s == o + (v + (c + b)));
        at_start(o, v + (c + b));
        find_shift(o, v + (c + b), c, 0);
        at_start(c, b);
        find_past(v, c + b, c, 0);
        let k = o.len() as int;
        let g: int = k + v.len();
        assert(f(0) == Some(Hit { a: k, b: g, end: g + c.len() }));
        assert(s.subrange(k, g) == v);
        enclosed_rest(e, b, o, c);
        assert(captures(s, f, 0) == seq![v] + captures(s, f, g + c.len()));
    }
}

/// What stands in the element of a shared string.
pub open spec fn item_inner(t: Seq<char>) -> Seq<char> {
    "<t xml:space=\"preserve\">"@ + esc_text(t, Escape::Full) + "</t>"@
}

/// The text of a shared string comes back.
proof fn item_back(t: Seq<char>)
    ensures
        runs_text(elements(item_inner(t), "<t"@, "</t>"@)) == t,
        clear(item_inner(t), "</si>"@),
{
    let x = esc_text(t, Escape::Full);
    let s = item_inner(t);
    escaped_is_bare(t);
    escape_round_trip(t);
    reveal_strlit("<t xml:space=\"preserve\">");
    reveal_strlit(" xml:space=\"preserve\"");
    reveal_strlit("<t");
    reveal_strlit(">");
    reveal_strlit("</t>");
    reveal_strlit("</si>");
    let o = "<t"@;
    let a = " xml:space=\"preserve\""@;
    let c = "</t>"@;
    assert("<t xml:space=\"preserve\">"@ == o + a + ">"@);
    lit_clear("<t xml:space=\"preserve\">"@, "</si>"@, 1);
    lit_clear("</t>"@, "</si>"@, 2);
    clear_without(x, "</si>"@);
    clear_join("<t xml:space=\"preserve\">"@, x, "</si>"@);
    clear_join("<t xml:space=\"preserve\">"@ + x, "</t>"@, "</si>"@);
    let f = |i: int| element(s, o, c, i);
    let rest = ">"@ + x + c;
    assert(s == o + (a + rest));
    at_start(o, a + rest);
    find_char_move(o, a + rest, '>', 0);
    find_char_past(a, rest, '>', 0);
    let front = o + a + ">"@;
    assert(s == front + (x + c));
    find_shift(front, x + c, c, 0);
    clear_without(x, c);
    let e = Seq::<char>::empty();
    at_start(c, e);
    assert(c + e == c);
    find_past(x, c, c, 0);
    let k = front.len() as int;
    assert(f(0) == Some(Hit { a: k, b: k + x.len(), end: k + x.len() + 4 }));
    assert(s.len() == k + x.len() + 4);
    assert(s.subrange(k, k + x.len()) == x);
    assert(captures(s, f, s.len() as int) == Seq::<Seq<char>>::empty());
    assert(captures(s, f, 0) == seq![x] + captures(s, f, s.len() as int));
    let runs = elements(s, o, c);
    assert(runs == seq![x]);
    assert(runs.drop_last() == Seq::<Seq<char>>::empty());
    assert(runs_text(runs) == runs_text(runs.drop_last()) + unescaped(x));
    assert(runs_text(runs.drop_last()) == Seq::<char>::empty());
}

/// What stands in the elements of shared strings.
pub open spec fn item_inners(list: Seq<Seq<char>>) -> Seq<Seq<char>> {
    Seq::new(list.len(), |i: int| item_inner(list[i]))
}

proof fn items_hold(list: Seq<Seq<char>>)
    ensures
        holds_enclosed(shared_items(list), "<si>"@, "</si>"@, item_inners(list)),
    decreases list.len(),
{
    reveal_strlit("<si>");
    reveal_strlit("</si>");
    if list.len() == 0 {
        let e = Seq::<char>::empty();
        clear_without(e, "<si>"@);
        enclosed_none(e, "<si>"@, "</si>"@);
        assert(item_inners(list) == Seq::<Seq<char>>::empty());
    } else {
        let p = list.drop_last();
        let t = list.last();
        items_hold(p);
        item_back(t);
        enclosed_one("<si>"@, item_inner(t), "</si>"@);
        enclosed_join(
            shared_items(p),
            "<si>"@ + item_inner(t) + "</si>"@,
            "<si>"@,
            "</si>"@,
            item_inners(p),
            seq![item_inner(t)],
        );
        assert(item_inners(list) == item_inners(p) + seq![item_inner(t)]);
        reveal_strlit("<si><t xml:space=\"preserve\">");
        reveal_strlit("<t xml:space=\"preserve\">");
        reveal_strlit("</t></si>");
        reveal_strlit("</t>");
        assert("<si>"@ + "<t xml:space=\"preserve\">"@ == "<si><t xml:space=\"preserve\">"@);
        assert("</t>"@ + "</si>"@ == "</t></si>"@);
        let x = esc_text(t, Escape::Full);
        assert(shared_items(list) == shared_items(p) + "<si><t xml:space=\"preserve\">"@ + x
            + "</t></si>"@);
        assert(shared_items(p) + ("<si>"@ + "<t xml:space=\"preserve\">"@) + x + ("</t>"@ + "</si>"@)
            == shared_items(p) + ("<si>"@ + item_inner(t) + "</si>"@));
    }
}

/// The shared strings of a file come back.
pub proof fn strings_round_trip(list: Seq<Seq<char>>)
    ensures
        shared_texts(shared_xml(list)) == list,
{
    let o = "<si>"@;
    let c = "</si>"@;
    let d = xml_decl();
    let h = "<sst xmlns=\"http://schemas.openxmlformats.org/spreadsheetml/2006/main\" count=\""@;
    let n = dec(list.len());
    let m = "\" uniqueCount=\""@;
    let g = "\">"@;
    let z = "</sst>"@;
    reveal_strlit("<si>");
    reveal_strlit("<?xml version=\"1.0\" encoding=\"UTF-8\" standalone=\"yes\"?>\n");
    reveal_strlit("<sst xmlns=\"http://schemas.openxmlformats.org/spreadsheetml/2006/main\" count=\"");
    reveal_strlit("\" uniqueCount=\"");
    reveal_strlit("\">");
    reveal_strlit("</sst>");
    lit_clear(d, o, 1);
    lit_clear(h, o, 2);
    dec_is_plain(list.len());
    plain_is_bare(n);
    clear_without(n, o);
    clear_without(m, o);
    clear_without(g, o);
    clear_join(d, h, o);
    clear_join(d + h, n, o);
    clear_join(d + h + n, m, o);
    clear_join(d + h + n + m, n, o);
    clear_join(d + h + n + m + n, g, o);
    let front = d + h + n + m + n + g;
    enclosed_none(front, o, c);
    items_hold(list);
    let e = Seq::<Seq<char>>::empty();
    enclosed_join(front, shared_items(list), o, c, e, item_inners(list));
    let xml = shared_xml(list);
    assert(xml == (front + shared_items(list)) + z);
    lit_clear(z, o, 1);
    enclosed_none(z, o, c);
    let f = Seq::<char>::empty();
    assert(z + f == z);
    assert(all_enclosed(z + f, o, c) == e + all_enclosed(f, o, c));
    assert(all_enclosed((front + shared_items(list)) + z, o, c) == (e + item_inners(list))
        + all_enclosed(z, o, c));
    let items = all_enclosed(xml, o, c);
    assert(items == item_inners(list));
    assert forall|i: int| 0 <= i < list.len() implies runs_text(
        elements(#[trigger] items[i], "<t"@, "</t>"@),
    ) == list[i] by {
        item_back(list[i]);
    }
    assert(shared_texts(xml) == list);
}

// ---- texts of several runs

/// A run of a text: what stands in front of its text, such as its font, the attributes of the text's
/// tag, and the text.
pub struct Run {
    pub front: Seq<char>,
    pub attrs: Seq<char>,
    pub text: Seq<char>,
}

/// Whether what stands in front of a run's text, and its tag, are no text and end no shared string.
pub open spec fn is_run(r: Run) -> bool {
    clear(r.front, "<t"@) && clear(r.front, "</si>"@) && without(r.attrs, '>') && without(r.attrs, '<')
}

/// Runs one behind the other.
pub open spec fn runs_xml(runs: Seq<Run>) -> Seq<char>
    decreases runs.len(),
{
    if runs.len() == 0 {
        Seq::empty()
    } else {
        let r = runs[0];
        r.front + "<t"@ + r.attrs + ">"@ + esc_text(r.text, Escape::Full) + "</t>"@ + runs_xml(
            runs.skip(1),
        )
    }
}

/// The texts of runs one behind the other.
pub open spec fn all_texts(runs: Seq<Run>) -> Seq<char>
    decreases runs.len(),
{
    if runs.len() == 0 {
        Seq::empty()
    } else {
        runs[0].text + all_texts(runs.skip(1))
    }
}

spec fn run_inners(runs: Seq<Run>) -> Seq<Seq<char>> {
    Seq::new(runs.len(), |i: int| esc_text(runs[i].text, Escape::Full))
}

proof fn runs_hold(runs: Seq<Run>)
    requires
        forall|i: int| 0 <= i < runs.len() ==> is_run(#[trigger] runs[i]),
    ensures
        holds_elements(runs_xml(runs), "<t"@, "</t>"@, run_inners(runs)),
        clear(runs_xml(runs), "</si>"@),
    decreases runs.len(),
{
    let o = "<t"@;
    let c = "</t>"@;
    let z = "</si>"@;
    reveal_strlit("<t");
    reveal_strlit("</t>");
    reveal_strlit("</si>");
    reveal_strlit(">");
    let e = Seq::<Seq<char>>::empty();
    if runs.len() == 0 {
        elements_none(o, c);
        assert(run_inners(runs) == e);
    } else {
        let r = runs[0];
        let rest = runs.skip(1);
        assert(is_run(r));
        assert forall|i: int| 0 <= i < rest.len() implies is_run(#[trigger] rest[i]) by {
            assert(rest[i] == runs[i + 1]);
        }
        runs_hold(rest);
        let x = esc_text(r.text, Escape::Full);
        escaped_is_bare(r.text);
        clear_without(x, c);
        elements_clear(r.front, o, c);
        element_with(o, r.attrs, x, c);
        let one = o + r.attrs + ">"@ + x + c;
        elements_join(r.front, one, o, c, e, seq![x]);
        elements_join(r.front + one, runs_xml(rest), o, c, e + seq![x], run_inners(rest));
        assert(r.front + one + runs_xml(rest) == runs_xml(runs));
        assert(e + seq![x] + run_inners(rest) =~= run_inners(runs));
        lit_clear(o, z, 1);
        clear_without(r.attrs, z);
        clear_without(">"@, z);
        clear_without(x, z);
        lit_clear(c, z, 2);
        clear_join(r.front, o, z);
        clear_join(r.front + o, r.attrs, z);
        clear_join(r.front + o + r.attrs, ">"@, z);
        clear_join(r.front + o + r.attrs + ">"@, x, z);
        clear_join(r.front + o + r.attrs + ">"@ + x, c, z);
        clear_join(r.front + o + r.attrs + ">"@ + x + c, runs_xml(rest), z);
    }
}

proof fn texts_joined(inners: Seq<Seq<char>>, runs: Seq<Run>)
    requires
        inners == run_inners(runs),
    ensures
        runs_text(inners) == all_texts(runs),
    decreases runs.len(),
{
    if runs.len() > 0 {
        let p = runs.drop_last();
        assert(inners.drop_last() =~= run_inners(p));
        texts_joined(inners.drop_last(), p);
        escape_round_trip(runs.last().text);
        last_text(runs);
    }
}

proof fn last_text(runs: Seq<Run>)
    requires
        runs.len() > 0,
    ensures
        all_texts(runs) == all_texts(runs.drop_last()) + runs.last().text,
    decreases runs.len(),
{
    let rest = runs.skip(1);
    if runs.len() == 1 {
        assert(all_texts(rest) == Seq::<char>::empty());
        assert(all_texts(runs.drop_last()) == Seq::<char>::empty());
        assert(runs[0].text + Seq::<char>::empty() == runs[0].text);
    } else {
        last_text(rest);
        assert(rest.drop_last() == runs.drop_last().skip(1));
        assert(runs[0].text + (all_texts(rest.drop_last()) + runs.last().text) == runs[0].text
            + all_texts(rest.drop_last()) + runs.last().text);
    }
}

/// Shared strings of several runs, each with something behind its last run.
pub open spec fn rich_items(items: Seq<(Seq<Run>, Seq<char>)>) -> Seq<char>
    decreases items.len(),
{
    if items.len() == 0 {
        Seq::empty()
    } else {
        rich_items(items.drop_last()) + "<si>"@ + (runs_xml(items.last().0) + items.last().1)
            + "</si>"@
    }
}

pub open spec fn is_rich(item: (Seq<Run>, Seq<char>)) -> bool {
    &&& forall|i: int| 0 <= i < item.0.len() ==> is_run(#[trigger] item.0[i])
    &&& clear(item.1, "<t"@)
    &&& clear(item.1, "</si>"@)
}

spec fn rich_inners(items: Seq<(Seq<Run>, Seq<char>)>) -> Seq<Seq<char>> {
    Seq::new(items.len(), |i: int| runs_xml(items[i].0) + items[i].1)
}

proof fn rich_hold(items: Seq<(Seq<Run>, Seq<char>)>)
    requires
        forall|i: int| 0 <= i < items.len() ==> is_rich(#[trigger] items[i]),
    ensures
        holds_enclosed(rich_items(items), "<si>"@, "</si>"@, rich_inners(items)),
    decreases items.len(),
{
    let o = "<si>"@;
    let c = "</si>"@;
    reveal_strlit("<si>");
    reveal_strlit("</si>");
    if items.len() == 0 {
        let e = Seq::<char>::empty();
        clear_without(e, o);
        enclosed_none(e, o, c);
        assert(rich_inners(items) == Seq::<Seq<char>>::empty());
    } else {
        let p = items.drop_last();
        let x = items.last();
        assert(is_rich(items[items.len() - 1]));
        assert forall|i: int| 0 <= i < p.len() implies is_rich(#[trigger] p[i]) by {
            assert(p[i] == items[i]);
        }
        rich_hold(p);
        runs_hold(x.0);
        let v = runs_xml(x.0) + x.1;
        clear_join(runs_xml(x.0), x.1, c);
        enclosed_one(o, v, c);
        enclosed_join(rich_items(p), o + v + c, o, c, rich_inners(p), seq![v]);
        assert(rich_items(p) + (o + v + c) == rich_items(items));
        assert(rich_inners(p) + seq![v] =~= rich_inners(items));
    }
}

/// A shared string reads as the texts of all its runs, in order, one behind the other, whatever fonts
/// and other tags stand between them; and the shared strings of a file are read one by one.
pub proof fn rich_texts_are_read(
    head: Seq<char>,
    items: Seq<(Seq<Run>, Seq<char>)>,
    tail: Seq<char>,
)
    requires
        clear(head, "<si>"@),
        clear(tail, "<si>"@),
        forall|i: int| 0 <= i < items.len() ==> is_rich(#[trigger] items[i]),
    ensures
        shared_texts(head + rich_items(items) + tail).len() == items.len(),
        forall|i: int|
            0 <= i < items.len() ==> #[trigger] shared_texts(head + rich_items(items) + tail)[i]
                == all_texts(items[i].0),
{
    let o = "<si>"@;
    let c = "</si>"@;
    let e = Seq::<Seq<char>>::empty();
    enclosed_none(head, o, c);
    rich_hold(items);
    enclosed_none(tail, o, c);
    enclosed_join(head, rich_items(items), o, c, e, rich_inners(items));
    let xml = head + rich_items(items) + tail;
    assert(e + rich_inners(items) == rich_inners(items));
    let f = Seq::<char>::empty();
    assert(tail + f == tail);
    assert(all_enclosed(tail + f, o, c) == e + all_enclosed(f, o, c));
    assert(all_enclosed(f, o, c) == e);
    assert(all_enclosed((head + rich_items(items)) + tail, o, c) == (e + rich_inners(items))
        + all_enclosed(tail, o, c));
    let inners = all_enclosed(xml, o, c);
    assert(inners =~= rich_inners(items));
    assert forall|i: int| 0 <= i < items.len() implies #[trigger] shared_texts(xml)[i] == all_texts(
        items[i].0,
    ) by {
        let x = items[i];
        assert(is_rich(x));
        runs_hold(x.0);
        elements_clear(x.1, "<t"@, "</t>"@);
        elements_join(runs_xml(x.0), x.1, "<t"@, "</t>"@, run_inners(x.0), e);
        assert(run_inners(x.0) + e == run_inners(x.0));
        elements_whole(inners[i], "<t"@, "</t>"@, run_inners(x.0));
        texts_joined(run_inners(x.0), x.0);
    }
}

} // verus!
