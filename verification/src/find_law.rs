//! Where tags and attributes are found in text that was put together from pieces.
use crate::scan::{
    at, attr_of, before_gt, captures, closed_tag, element, enclosed, find, first_closed_tag,
    first_element, first_enclosed, first_hit, first_key_in_tag, first_open_tag, first_tag_ref,
    key_in_tag, last_key, open_tag_at, short_tag, short_tags, tag_ref, tag_refs, tag_start,
    tag_stop, white_end, Hit,
};
use crate::text::{find_char, is_white};
use crate::xlsx_styles_read::{record_at, records, Rec};
use vstd::prelude::*;

verus! {

/// Whether `s` differs from `pat` when it is laid at `p`, before `s` ends.
pub open spec fn unlike(s: Seq<char>, pat: Seq<char>, p: int) -> bool {
    exists|j: int| 0 <= j < pat.len() && p + j < s.len() && s[p + j] != #[trigger] pat[j]
}

/// Whether `pat` starts nowhere in `s`, whatever stands behind it.
pub open spec fn clear(s: Seq<char>, pat: Seq<char>) -> bool {
    forall|p: int| 0 <= p < s.len() ==> #[trigger] unlike(s, pat, p)
}

/// Whether a character stands nowhere in `s`.
pub open spec fn without(s: Seq<char>, c: char) -> bool {
    forall|i: int| 0 <= i < s.len() ==> #[trigger] s[i] != c
}

pub proof fn without_join(a: Seq<char>, b: Seq<char>, c: char)
    requires
        without(a, c),
        without(b, c),
    ensures
        without(a + b, c),
{
}

/// Pieces in which a pattern does not start make a text in which it does not start.
pub proof fn clear_join(a: Seq<char>, b: Seq<char>, pat: Seq<char>)
    requires
        clear(a, pat),
        clear(b, pat),
    ensures
        clear(a + b, pat),
{
    let s = a + b;
    assert forall|p: int| 0 <= p < s.len() implies #[trigger] unlike(s, pat, p) by {
        if p < a.len() {
            assert(unlike(a, pat, p));
            let j = choose|j: int| 0 <= j < pat.len() && p + j < a.len() && a[p + j] != #[trigger] pat[j];
            assert(s[p + j] == a[p + j]);
        } else {
            assert(unlike(b, pat, p - a.len()));
            let q = p - a.len();
            let j = choose|j: int| 0 <= j < pat.len() && q + j < b.len() && b[q + j] != #[trigger] pat[j];
            assert(s[p + j] == b[q + j]);
        }
    }
}

/// A text without the first character of a pattern.
pub proof fn clear_without(s: Seq<char>, pat: Seq<char>)
    requires
        pat.len() > 0,
        without(s, pat[0]),
    ensures
        clear(s, pat),
{
    assert forall|p: int| 0 <= p < s.len() implies #[trigger] unlike(s, pat, p) by {
        assert(s[p + 0] != pat[0]);
    }
}

pub proof fn clear_miss(a: Seq<char>, b: Seq<char>, pat: Seq<char>, i: int)
    requires
        clear(a, pat),
        0 <= i < a.len(),
    ensures
        !at(a + b, pat, i),
{
    assert(unlike(a, pat, i));
    let j = choose|j: int| 0 <= j < pat.len() && i + j < a.len() && a[i + j] != #[trigger] pat[j];
    let s = a + b;
    if at(s, pat, i) {
        assert(s.subrange(i, i + pat.len())[j] == pat[j]);
        assert(s[i + j] == a[i + j]);
    }
}

pub proof fn at_start(pat: Seq<char>, b: Seq<char>)
    ensures
        at(pat + b, pat, 0),
{
    assert((pat + b).subrange(0, pat.len() as int) == pat);
}

pub proof fn at_shift(a: Seq<char>, s: Seq<char>, pat: Seq<char>, i: int)
    requires
        0 <= i,
    ensures
        at(a + s, pat, a.len() + i) == at(s, pat, i),
{
    let t = a + s;
    if i + pat.len() <= s.len() {
        assert(t.subrange(a.len() + i, a.len() + i + pat.len()) == s.subrange(i, i + pat.len()));
    }
}

pub open spec fn moved(r: Option<int>, n: int) -> Option<int> {
    match r {
        Some(i) => Some(i + n),
        None => None,
    }
}

pub proof fn find_shift(a: Seq<char>, s: Seq<char>, pat: Seq<char>, i: int)
    requires
        0 <= i,
    ensures
        find(a + s, pat, a.len() + i) == moved(find(s, pat, i), a.len() as int),
    decreases s.len() + 1 - i,
{
    if i <= s.len() {
        at_shift(a, s, pat, i);
        if !at(s, pat, i) {
            find_shift(a, s, pat, i + 1);
        }
    }
}

/// A pattern is found behind what does not hold it.
pub proof fn find_past(a: Seq<char>, b: Seq<char>, pat: Seq<char>, i: int)
    requires
        clear(a, pat),
        at(b, pat, 0),
        0 <= i <= a.len(),
    ensures
        find(a + b, pat, i) == Some(a.len() as int),
    decreases a.len() - i,
{
    if i < a.len() {
        clear_miss(a, b, pat, i);
        find_past(a, b, pat, i + 1);
    } else {
        at_shift(a, b, pat, 0);
    }
}

pub proof fn find_char_move(a: Seq<char>, s: Seq<char>, c: char, i: int)
    requires
        0 <= i,
    ensures
        find_char(a + s, c, a.len() + i) == moved(find_char(s, c, i), a.len() as int),
    decreases s.len() - i,
{
    if i < s.len() {
        assert((a + s)[a.len() + i] == s[i]);
        if s[i] != c {
            find_char_move(a, s, c, i + 1);
        }
    }
}

pub proof fn find_char_past(a: Seq<char>, b: Seq<char>, c: char, i: int)
    requires
        without(a, c),
        b.len() > 0,
        b[0] == c,
        0 <= i <= a.len(),
    ensures
        find_char(a + b, c, i) == Some(a.len() as int),
    decreases a.len() - i,
{
    if i < a.len() {
        assert((a + b)[i] == a[i]);
        find_char_past(a, b, c, i + 1);
    } else {
        assert((a + b)[i] == b[0]);
    }
}

pub proof fn white_end_shift(a: Seq<char>, s: Seq<char>, i: int)
    requires
        0 <= i,
    ensures
        white_end(a + s, a.len() + i) == white_end(s, i) + a.len(),
    decreases s.len() - i,
{
    if i < s.len() {
        assert((a + s)[a.len() + i] == s[i]);
        if is_white(s[i]) {
            white_end_shift(a, s, i + 1);
        }
    }
}

proof fn white_end_on(s: Seq<char>, i: int)
    requires
        0 <= i,
    ensures
        i <= white_end(s, i),
    decreases s.len() - i,
{
    if i < s.len() && is_white(s[i]) {
        white_end_on(s, i + 1);
    }
}

pub proof fn tag_start_shift(a: Seq<char>, s: Seq<char>, open_tag: Seq<char>, i: int)
    requires
        0 <= i,
    ensures
        tag_start(a + s, open_tag, a.len() + i) == moved(tag_start(s, open_tag, i), a.len() as int),
        tag_start(s, open_tag, i) matches Some(k) ==> i <= k,
{
    at_shift(a, s, open_tag, i);
    let k = i + open_tag.len();
    if k < s.len() {
        assert((a + s)[a.len() + k] == s[k]);
    }
    white_end_shift(a, s, k);
    white_end_on(s, k);
}

/// A tag with an attribute behind one blank.
pub proof fn tag_starts(open_tag: Seq<char>, b: Seq<char>)
    requires
        b.len() > 1,
        b[0] == ' ',
        !is_white(b[1]),
    ensures
        tag_start(open_tag + b, open_tag, 0) == Some(open_tag.len() as int + 1),
{
    let s = open_tag + b;
    at_start(open_tag, b);
    assert(s[open_tag.len() as int] == ' ');
    assert(s[open_tag.len() as int + 1] == b[1]);
    assert(white_end(s, open_tag.len() as int + 1) == open_tag.len() + 1);
}

// ---- elements with attributes

pub open spec fn rec_moved(r: Option<Rec>, n: int) -> Option<Rec> {
    match r {
        Some(r) => Some(Rec { a: r.a + n, e: r.e + n, b: r.b + n, c: r.c + n, end: r.end + n }),
        None => None,
    }
}

pub proof fn find_on(s: Seq<char>, pat: Seq<char>, i: int)
    ensures
        find(s, pat, i) matches Some(p) ==> i <= p && p + pat.len() <= s.len(),
    decreases s.len() + 1 - i,
{
    if 0 <= i <= s.len() && !at(s, pat, i) {
        find_on(s, pat, i + 1);
    }
}

pub proof fn find_char_on(s: Seq<char>, c: char, i: int)
    ensures
        find_char(s, c, i) matches Some(p) ==> i <= p < s.len() && s[p] == c,
    decreases s.len() - i,
{
    if 0 <= i < s.len() && s[i] != c {
        find_char_on(s, c, i + 1);
    }
}

proof fn record_shift(a: Seq<char>, s: Seq<char>, open_tag: Seq<char>, close: Seq<char>, i: int)
    requires
        0 <= i,
    ensures
        record_at(a + s, open_tag, close, a.len() + i) == rec_moved(
            record_at(s, open_tag, close, i),
            a.len() as int,
        ),
        record_at(s, open_tag, close, i) matches Some(r) ==> i <= r.a <= r.e && r.e <= r.b && r.b <= r.c
            && r.c <= r.end <= s.len(),
{
    tag_start_shift(a, s, open_tag, i);
    match tag_start(s, open_tag, i) {
        None => {},
        Some(k) => {
            find_char_move(a, s, '>', k);
            find_char_on(s, '>', k);
            match find_char(s, '>', k) {
                None => {},
                Some(g) => {
                    if g > k {
                        assert((a + s)[a.len() + g - 1] == s[g - 1]);
                    }
                    find_shift(a, s, close, g + 1);
                    find_on(s, close, g + 1);
                },
            }
        },
    }
}

proof fn records_shift(a: Seq<char>, s: Seq<char>, open_tag: Seq<char>, close: Seq<char>, i: int)
    requires
        0 <= i,
    ensures
        records(a + s, open_tag, close, a.len() + i) == records(s, open_tag, close, i),
    decreases s.len() - i,
{
    let t = a + s;
    let n = a.len() as int;
    if i < s.len() {
        record_shift(a, s, open_tag, close, i);
        match record_at(s, open_tag, close, i) {
            Some(r) => {
                if i < r.end <= s.len() {
                    assert(t.subrange(r.a + n, r.e + n) == s.subrange(r.a, r.e));
                    assert(t.subrange(r.b + n, r.c + n) == s.subrange(r.b, r.c));
                    records_shift(a, s, open_tag, close, r.end);
                }
            },
            None => {
                records_shift(a, s, open_tag, close, i + 1);
            },
        }
    }
}

proof fn records_skip(
    a: Seq<char>,
    b: Seq<char>,
    open_tag: Seq<char>,
    close: Seq<char>,
    i: int,
)
    requires
        clear(a, open_tag),
        0 <= i <= a.len(),
    ensures
        records(a + b, open_tag, close, i) == records(b, open_tag, close, 0),
    decreases a.len() - i,
{
    if i < a.len() {
        clear_miss(a, b, open_tag, i);
        records_skip(a, b, open_tag, close, i + 1);
    } else {
        records_shift(a, b, open_tag, close, 0);
    }
}

/// Whether the elements of a text are `recs`, whatever stands behind it.
pub open spec fn holds_records(
    s: Seq<char>,
    open_tag: Seq<char>,
    close: Seq<char>,
    recs: Seq<(Seq<char>, Seq<char>)>,
) -> bool {
    forall|b: Seq<char>|
        #[trigger] records(s + b, open_tag, close, 0) == recs + records(b, open_tag, close, 0)
}

pub proof fn records_none(s: Seq<char>, open_tag: Seq<char>, close: Seq<char>)
    requires
        clear(s, open_tag),
    ensures
        holds_records(s, open_tag, close, Seq::empty()),
{
    assert forall|b: Seq<char>| #[trigger]
        records(s + b, open_tag, close, 0) == Seq::<(Seq<char>, Seq<char>)>::empty() + records(
            b,
            open_tag,
            close,
            0,
        ) by {
        records_skip(s, b, open_tag, close, 0);
    }
}

pub proof fn records_join(
    s: Seq<char>,
    t: Seq<char>,
    open_tag: Seq<char>,
    close: Seq<char>,
    r: Seq<(Seq<char>, Seq<char>)>,
    q: Seq<(Seq<char>, Seq<char>)>,
)
    requires
        holds_records(s, open_tag, close, r),
        holds_records(t, open_tag, close, q),
    ensures
        holds_records(s + t, open_tag, close, r + q),
{
    assert forall|b: Seq<char>| #[trigger]
        records((s + t) + b, open_tag, close, 0) == (r + q) + records(b, open_tag, close, 0) by {
        assert((s + t) + b == s + (t + b));
        assert(records(s + (t + b), open_tag, close, 0) == r + records(t + b, open_tag, close, 0));
        assert(records(t + b, open_tag, close, 0) == q + records(b, open_tag, close, 0));
    }
}

/// The elements of a text with nothing behind it.
pub proof fn records_whole(
    s: Seq<char>,
    open_tag: Seq<char>,
    close: Seq<char>,
    r: Seq<(Seq<char>, Seq<char>)>,
)
    requires
        holds_records(s, open_tag, close, r),
    ensures
        records(s, open_tag, close, 0) == r,
{
    let e = Seq::<char>::empty();
    assert(s + e == s);
    assert(records(s + e, open_tag, close, 0) == r + records(e, open_tag, close, 0));
}

/// An element with attributes and an inside is read as it was written.
pub proof fn record_full(
    open_tag: Seq<char>,
    attrs: Seq<char>,
    inner: Seq<char>,
    close: Seq<char>,
)
    requires
        open_tag.len() > 0,
        close.len() > 0,
        attrs.len() > 0,
        !is_white(attrs[0]),
        without(attrs, '>'),
        attrs.last() != '/',
        clear(inner, close),
    ensures
        holds_records(
            open_tag + " "@ + attrs + ">"@ + inner + close,
            open_tag,
            close,
            seq![(attrs, inner)],
        ),
{
    reveal_strlit(" ");
    reveal_strlit(">");
    let e = open_tag + " "@ + attrs + ">"@ + inner + close;
    assert forall|b: Seq<char>| #[trigger]
        records(e + b, open_tag, close, 0) == seq![(attrs, inner)] + records(b, open_tag, close, 0) by {
        let s = e + b;
        let tail = " "@ + attrs + ">"@ + inner + close + b;
        assert(s == open_tag + tail);
        assert(tail[1] == attrs[0]);
        tag_starts(open_tag, tail);
        let k = open_tag.len() as int + 1;
        let head = open_tag + " "@;
        let rest = ">"@ + inner + close + b;
        assert(s == head + (attrs + rest));
        find_char_move(head, attrs + rest, '>', 0);
        find_char_past(attrs, rest, '>', 0);
        let g: int = k + attrs.len();
        assert(find_char(s, '>', k as int) == Some(g as int));
        assert(s[g - 1] == attrs.last());
        let front = open_tag + " "@ + attrs + ">"@;
        assert(s == front + (inner + (close + b)));
        at_start(close, b);
        find_shift(front, inner + (close + b), close, 0);
        find_past(inner, close + b, close, 0);
        assert(find(s, close, g + 1) == Some((g + 1 + inner.len()) as int));
        assert(s.subrange(k as int, g as int) == attrs);
        assert(s.subrange(g + 1, (g + 1 + inner.len()) as int) == inner);
        records_shift(e, b, open_tag, close, 0);
    }
}

/// An element that closes itself is read as it was written.
pub proof fn record_short(open_tag: Seq<char>, attrs: Seq<char>, close: Seq<char>)
    requires
        open_tag.len() > 0,
        attrs.len() > 0,
        !is_white(attrs[0]),
        without(attrs, '>'),
    ensures
        holds_records(
            open_tag + " "@ + attrs + "/>"@,
            open_tag,
            close,
            seq![(attrs, Seq::empty())],
        ),
{
    reveal_strlit(" ");
    reveal_strlit("/>");
    let e = open_tag + " "@ + attrs + "/>"@;
    assert forall|b: Seq<char>| #[trigger]
        records(e + b, open_tag, close, 0) == seq![(attrs, Seq::<char>::empty())] + records(
            b,
            open_tag,
            close,
            0,
        ) by {
        let s = e + b;
        let tail = " "@ + attrs + "/>"@ + b;
        assert(s == open_tag + tail);
        assert(tail[1] == attrs[0]);
        tag_starts(open_tag, tail);
        let k = open_tag.len() as int + 1;
        let head = open_tag + " "@;
        let mid = attrs + seq!['/'];
        let rest = seq!['>'] + b;
        assert(s == head + (mid + rest));
        find_char_move(head, mid + rest, '>', 0);
        find_char_past(mid, rest, '>', 0);
        let g: int = k + mid.len();
        assert(find_char(s, '>', k as int) == Some(g as int));
        assert(s[g - 1] == '/');
        assert(s.subrange(k as int, g - 1) == attrs);
        assert(s.subrange(g as int, g as int) == Seq::<char>::empty());
        records_shift(e, b, open_tag, close, 0);
    }
}

// ---- the first match

pub proof fn first_skip(f: spec_fn(int) -> Option<Hit>, i: int, j: int, n: int)
    requires
        i <= j <= n,
        forall|k: int| i <= k < j ==> (#[trigger] f(k)) is None,
    ensures
        first_hit(f, i, n) == first_hit(f, j, n),
    decreases j - i,
{
    if i < j {
        assert(f(i) is None);
        first_skip(f, i + 1, j, n);
    }
}

// ---- attributes

/// The text before the value of an attribute.
pub open spec fn key_of(name: Seq<char>) -> Seq<char> {
    name + "=\""@
}

/// An attribute that stands first is read as it was written.
pub proof fn attr_found(a: Seq<char>, name: Seq<char>, v: Seq<char>, b: Seq<char>)
    requires
        name.len() > 0,
        clear(a, key_of(name)),
        without(v, '"'),
    ensures
        attr_of(a + key_of(name) + v + "\""@ + b, name) == Some(v),
{
    reveal_strlit("\"");
    clear_without(v, "\""@);
    enclosed_found(a, key_of(name), v, "\""@, b);
}

/// What no key starts in has no such attribute.
pub proof fn attr_missing(s: Seq<char>, name: Seq<char>)
    requires
        clear(s, key_of(name)),
    ensures
        attr_of(s, name) is None,
{
    enclosed_missing(s, key_of(name), "\""@);
}

/// A value with the quote behind it, where no key starts.
pub proof fn value_clear(v: Seq<char>, name: Seq<char>)
    requires
        without(v, '='),
        without(name, '"'),
    ensures
        clear(v + "\""@, key_of(name)),
{
    reveal_strlit("\"");
    reveal_strlit("=\"");
    let s = v + "\""@;
    let key = key_of(name);
    let e = name.len() as int;
    assert(key[e] == '=');
    assert forall|p: int| 0 <= p < s.len() implies #[trigger] unlike(s, key, p) by {
        if p + e < s.len() {
            if p + e < v.len() {
                assert(s[p + e] == v[p + e]);
            }
            assert(s[p + e] != key[e]);
        } else {
            let j = v.len() - p;
            assert(key[j] == name[j]);
            assert(s[p + j] != key[j]);
        }
    }
}

// ---- short tags and references

pub open spec fn hit_moved(h: Option<Hit>, n: int) -> Option<Hit> {
    match h {
        Some(h) => Some(Hit { a: h.a + n, b: h.b + n, end: h.end + n }),
        None => None,
    }
}

/// Captures do not depend on what stands before.
pub proof fn captures_shift(
    a: Seq<char>,
    s: Seq<char>,
    f: spec_fn(int) -> Option<Hit>,
    g: spec_fn(int) -> Option<Hit>,
    i: int,
)
    requires
        0 <= i,
        forall|k: int| 0 <= k ==> #[trigger] f(a.len() + k) == hit_moved(g(k), a.len() as int),
        forall|k: int|
            0 <= k && (#[trigger] g(k)) is Some ==> 0 <= g(k)->0.a <= g(k)->0.b && g(k)->0.b <= g(k)->0.end,
    ensures
        captures(a + s, f, a.len() + i) == captures(s, g, i),
    decreases s.len() - i,
{
    let n = a.len() as int;
    if i < s.len() {
        assert(f(a.len() + i) == hit_moved(g(i), n));
        match g(i) {
            Some(h) => {
                if i < h.end <= s.len() {
                    assert((a + s).subrange(h.a + n, h.b + n) == s.subrange(h.a, h.b));
                    captures_shift(a, s, f, g, h.end);
                }
            },
            None => {
                captures_shift(a, s, f, g, i + 1);
            },
        }
    }
}

pub proof fn captures_skip(s: Seq<char>, f: spec_fn(int) -> Option<Hit>, i: int, j: int)
    requires
        0 <= i <= j <= s.len(),
        forall|k: int| i <= k < j ==> (#[trigger] f(k)) is None,
    ensures
        captures(s, f, i) == captures(s, f, j),
    decreases j - i,
{
    if i < j {
        assert(f(i) is None);
        captures_skip(s, f, i + 1, j);
    }
}

pub proof fn tag_stop_shift(a: Seq<char>, s: Seq<char>, i: int)
    requires
        0 <= i,
    ensures
        tag_stop(a + s, a.len() + i) == moved(tag_stop(s, i), a.len() as int),
        tag_stop(s, i) matches Some(k) ==> i <= k < s.len(),
    decreases s.len() - i,
{
    if i < s.len() {
        assert((a + s)[a.len() + i] == s[i]);
        if s[i] != '/' && s[i] != '>' {
            tag_stop_shift(a, s, i + 1);
        }
    }
}

pub proof fn tag_stop_past(a: Seq<char>, b: Seq<char>, i: int)
    requires
        without(a, '/'),
        without(a, '>'),
        b.len() > 0,
        b[0] == '/' || b[0] == '>',
        0 <= i <= a.len(),
    ensures
        tag_stop(a + b, i) == Some(a.len() as int),
    decreases a.len() - i,
{
    if i < a.len() {
        assert((a + b)[i] == a[i]);
        tag_stop_past(a, b, i + 1);
    } else {
        assert((a + b)[i] == b[0]);
    }
}

proof fn short_shift(a: Seq<char>, s: Seq<char>, open_tag: Seq<char>, i: int)
    requires
        0 <= i,
    ensures
        short_tag(a + s, open_tag, a.len() + i) == hit_moved(
            short_tag(s, open_tag, i),
            a.len() as int,
        ),
        short_tag(s, open_tag, i) matches Some(h) ==> 0 <= h.a <= h.b && h.b <= h.end,
{
    tag_start_shift(a, s, open_tag, i);
    match tag_start(s, open_tag, i) {
        None => {},
        Some(k) => {
            tag_stop_shift(a, s, k);
            match tag_stop(s, k) {
                None => {},
                Some(b) => {
                    assert((a + s)[a.len() + b] == s[b]);
                    if b + 1 < s.len() {
                        assert((a + s)[a.len() + b + 1] == s[b + 1]);
                    }
                },
            }
        },
    }
}

/// Whether the tags `<tag attrs/>` of a text are `list`, whatever stands behind it.
pub open spec fn holds_short(s: Seq<char>, open_tag: Seq<char>, list: Seq<Seq<char>>) -> bool {
    forall|b: Seq<char>| #[trigger] short_tags(s + b, open_tag) == list + short_tags(b, open_tag)
}

pub proof fn short_rest(a: Seq<char>, s: Seq<char>, open_tag: Seq<char>)
    ensures
        captures(a + s, |i: int| short_tag(a + s, open_tag, i), a.len() as int) == short_tags(
            s,
            open_tag,
        ),
{
    let t = a + s;
    let f = |i: int| short_tag(t, open_tag, i);
    let g = |i: int| short_tag(s, open_tag, i);
    assert forall|k: int| 0 <= k implies #[trigger] f(a.len() + k) == hit_moved(g(k), a.len() as int) by {
        short_shift(a, s, open_tag, k);
    }
    assert forall|k: int| 0 <= k && (#[trigger] g(k)) is Some implies 0 <= g(k)->0.a <= g(k)->0.b && g(
        k,
    )->0.b <= g(k)->0.end by {
        short_shift(a, s, open_tag, k);
    }
    captures_shift(a, s, f, g, 0);
}

pub proof fn short_none(s: Seq<char>, open_tag: Seq<char>)
    requires
        clear(s, open_tag),
    ensures
        holds_short(s, open_tag, Seq::empty()),
{
    assert forall|b: Seq<char>| #[trigger]
        short_tags(s + b, open_tag) == Seq::<Seq<char>>::empty() + short_tags(b, open_tag) by {
        let t = s + b;
        let f = |i: int| short_tag(t, open_tag, i);
        assert forall|k: int| 0 <= k < s.len() implies (#[trigger] f(k)) is None by {
            clear_miss(s, b, open_tag, k);
        }
        captures_skip(t, f, 0, s.len() as int);
        short_rest(s, b, open_tag);
    }
}

pub proof fn short_join(
    s: Seq<char>,
    t: Seq<char>,
    open_tag: Seq<char>,
    p: Seq<Seq<char>>,
    q: Seq<Seq<char>>,
)
    requires
        holds_short(s, open_tag, p),
        holds_short(t, open_tag, q),
    ensures
        holds_short(s + t, open_tag, p + q),
{
    assert forall|b: Seq<char>| #[trigger]
        short_tags((s + t) + b, open_tag) == (p + q) + short_tags(b, open_tag) by {
        assert((s + t) + b == s + (t + b));
        assert(short_tags(s + (t + b), open_tag) == p + short_tags(t + b, open_tag));
        assert(short_tags(t + b, open_tag) == q + short_tags(b, open_tag));
    }
}

pub proof fn short_whole(s: Seq<char>, open_tag: Seq<char>, p: Seq<Seq<char>>)
    requires
        holds_short(s, open_tag, p),
    ensures
        short_tags(s, open_tag) == p,
{
    let e = Seq::<char>::empty();
    assert(s + e == s);
    assert(short_tags(s + e, open_tag) == p + short_tags(e, open_tag));
}

/// A tag that closes itself is read as it was written.
pub proof fn short_one(open_tag: Seq<char>, attrs: Seq<char>)
    requires
        open_tag.len() > 0,
        attrs.len() > 0,
        !is_white(attrs[0]),
        without(attrs, '>'),
        without(attrs, '/'),
    ensures
        holds_short(open_tag + " "@ + attrs + "/>"@, open_tag, seq![attrs]),
{
    reveal_strlit(" ");
    reveal_strlit("/>");
    let e = open_tag + " "@ + attrs + "/>"@;
    assert forall|b: Seq<char>| #[trigger]
        short_tags(e + b, open_tag) == seq![attrs] + short_tags(b, open_tag) by {
        let s = e + b;
        let f = |i: int| short_tag(s, open_tag, i);
        let tail = " "@ + attrs + "/>"@ + b;
        assert(s == open_tag + tail);
        assert(tail[1] == attrs[0]);
        tag_starts(open_tag, tail);
        let k = open_tag.len() as int + 1;
        let head = open_tag + " "@;
        let rest = "/>"@ + b;
        assert(s == head + (attrs + rest));
        tag_stop_shift(head, attrs + rest, 0);
        tag_stop_past(attrs, rest, 0);
        let g: int = k + attrs.len();
        assert(tag_stop(s, k as int) == Some(g as int));
        assert(s[g as int] == '/' && s[g + 1] == '>');
        assert(f(0) == Some(Hit { a: k as int, b: g as int, end: g + 2 }));
        assert(s.subrange(k as int, g as int) == attrs);
        short_rest(e, b, open_tag);
        assert(captures(s, f, 0) == seq![attrs] + captures(s, f, g + 2));
    }
}

proof fn ref_shift(a: Seq<char>, s: Seq<char>, open_tag: Seq<char>, key: Seq<char>, i: int)
    requires
        0 <= i,
    ensures
        tag_ref(a + s, open_tag, key, a.len() + i) == hit_moved(
            tag_ref(s, open_tag, key, i),
            a.len() as int,
        ),
        tag_ref(s, open_tag, key, i) matches Some(h) ==> 0 <= h.a <= h.b && h.b <= h.end,
{
    tag_start_shift(a, s, open_tag, i);
    match tag_start(s, open_tag, i) {
        None => {},
        Some(k) => {
            at_shift(a, s, key, k);
            find_char_move(a, s, '"', k + key.len());
            find_char_on(s, '"', k + key.len());
        },
    }
}

/// Whether the references of a kind of tags are `list`, whatever stands behind the text.
pub open spec fn holds_refs(
    s: Seq<char>,
    open_tag: Seq<char>,
    key: Seq<char>,
    list: Seq<Seq<char>>,
) -> bool {
    forall|b: Seq<char>|
        #[trigger] tag_refs(s + b, open_tag, key) == list + tag_refs(b, open_tag, key)
}

proof fn ref_rest(a: Seq<char>, s: Seq<char>, open_tag: Seq<char>, key: Seq<char>)
    ensures
        captures(a + s, |i: int| tag_ref(a + s, open_tag, key, i), a.len() as int) == tag_refs(
            s,
            open_tag,
            key,
        ),
{
    let t = a + s;
    let f = |i: int| tag_ref(t, open_tag, key, i);
    let g = |i: int| tag_ref(s, open_tag, key, i);
    assert forall|k: int| 0 <= k implies #[trigger] f(a.len() + k) == hit_moved(g(k), a.len() as int) by {
        ref_shift(a, s, open_tag, key, k);
    }
    assert forall|k: int| 0 <= k && (#[trigger] g(k)) is Some implies 0 <= g(k)->0.a <= g(k)->0.b && g(
        k,
    )->0.b <= g(k)->0.end by {
        ref_shift(a, s, open_tag, key, k);
    }
    captures_shift(a, s, f, g, 0);
}

pub proof fn refs_none(s: Seq<char>, open_tag: Seq<char>, key: Seq<char>)
    requires
        clear(s, open_tag),
    ensures
        holds_refs(s, open_tag, key, Seq::empty()),
{
    assert forall|b: Seq<char>| #[trigger]
        tag_refs(s + b, open_tag, key) == Seq::<Seq<char>>::empty() + tag_refs(b, open_tag, key) by {
        let t = s + b;
        let f = |i: int| tag_ref(t, open_tag, key, i);
        assert forall|k: int| 0 <= k < s.len() implies (#[trigger] f(k)) is None by {
            clear_miss(s, b, open_tag, k);
        }
        captures_skip(t, f, 0, s.len() as int);
        ref_rest(s, b, open_tag, key);
    }
}

pub proof fn refs_join(
    s: Seq<char>,
    t: Seq<char>,
    open_tag: Seq<char>,
    key: Seq<char>,
    p: Seq<Seq<char>>,
    q: Seq<Seq<char>>,
)
    requires
        holds_refs(s, open_tag, key, p),
        holds_refs(t, open_tag, key, q),
    ensures
        holds_refs(s + t, open_tag, key, p + q),
{
    assert forall|b: Seq<char>| #[trigger]
        tag_refs((s + t) + b, open_tag, key) == (p + q) + tag_refs(b, open_tag, key) by {
        assert((s + t) + b == s + (t + b));
        assert(tag_refs(s + (t + b), open_tag, key) == p + tag_refs(t + b, open_tag, key));
        assert(tag_refs(t + b, open_tag, key) == q + tag_refs(b, open_tag, key));
    }
}

pub proof fn refs_whole(s: Seq<char>, open_tag: Seq<char>, key: Seq<char>, p: Seq<Seq<char>>)
    requires
        holds_refs(s, open_tag, key, p),
    ensures
        tag_refs(s, open_tag, key) == p,
{
    let e = Seq::<char>::empty();
    assert(s + e == s);
    assert(tag_refs(s + e, open_tag, key) == p + tag_refs(e, open_tag, key));
}

/// A reference is read as it was written.
#[verifier::spinoff_prover]
#[verifier::rlimit(40)]
pub proof fn ref_one(open_tag: Seq<char>, key: Seq<char>, v: Seq<char>)
    requires
        open_tag.len() > 0,
        key.len() > 0,
        !is_white(key[0]),
        without(v, '"'),
        clear("\"/>"@, open_tag),
    ensures
        holds_refs(open_tag + " "@ + key + v + "\"/>"@, open_tag, key, seq![v]),
{
    reveal_strlit(" ");
    reveal_strlit("\"/>");
    let e = open_tag + " "@ + key + v + "\"/>"@;
    assert forall|b: Seq<char>| #[trigger]
        tag_refs(e + b, open_tag, key) == seq![v] + tag_refs(b, open_tag, key) by {
        let s = e + b;
        let f = |i: int| tag_ref(s, open_tag, key, i);
        let tail = " "@ + key + v + "\"/>"@ + b;
        assert(s == open_tag + tail);
        assert(tail[1] == key[0]);
        tag_starts(open_tag, tail);
        let head = open_tag + " "@;
        let k = head.len() as int;
        let rest = "\"/>"@ + b;
        assert(s == head + (key + (v + rest)));
        at_start(key, v + rest);
        at_shift(head, key + (v + rest), key, 0);
        let front = head + key;
        assert(s == front + (v + rest));
        find_char_move(front, v + rest, '"', 0);
        find_char_past(v, rest, '"', 0);
        let q = k + key.len() + v.len();
        assert(f(0) == Some(Hit { a: k + key.len(), b: q, end: q + 1 }));
        assert(s.subrange(k + key.len(), q) == v);
        let end = seq!['/', '>'];
        let done = open_tag + " "@ + key + v + "\""@;
        reveal_strlit("\"");
        assert(e == done + end);
        assert(s == done + (end + b));
        ref_rest(done, end + b, open_tag, key);
        assert forall|p: int| 0 <= p < end.len() implies #[trigger] unlike(end, open_tag, p) by {
            assert(unlike("\"/>"@, open_tag, p + 1));
            let j = choose|j: int|
                0 <= j < open_tag.len() && p + 1 + j < 3 && "\"/>"@[p + 1 + j] != #[trigger] open_tag[j];
            assert(end[p + j] == "\"/>"@[p + 1 + j]);
        }
        refs_none(end, open_tag, key);
        assert(tag_refs(end + b, open_tag, key) == Seq::<Seq<char>>::empty() + tag_refs(
            b,
            open_tag,
            key,
        ));
        assert(captures(s, f, 0) == seq![v] + captures(s, f, q + 1));
    }
}

// ---- the first element

/// What stands between two texts is read as it was written.
pub proof fn enclosed_found(
    a: Seq<char>,
    open_text: Seq<char>,
    v: Seq<char>,
    close: Seq<char>,
    b: Seq<char>,
)
    requires
        open_text.len() > 0,
        clear(a, open_text),
        clear(v, close),
    ensures
        first_enclosed(a + open_text + v + close + b, open_text, close) == Some(v),
{
    let s = a + open_text + v + close + b;
    let f = |i: int| enclosed(s, open_text, close, i);
    let rest = open_text + (v + close + b);
    assert(s == a + rest);
    assert forall|k: int| 0 <= k < a.len() implies (#[trigger] f(k)) is None by {
        clear_miss(a, rest, open_text, k);
    }
    at_start(open_text, v + close + b);
    at_shift(a, rest, open_text, 0);
    first_skip(f, 0, a.len() as int, s.len() as int);
    let head = a + open_text;
    let tail = close + b;
    assert(s == head + (v + tail));
    find_shift(head, v + tail, close, 0);
    at_start(close, b);
    find_past(v, tail, close, 0);
    let p = head.len() as int;
    assert(f(a.len() as int) == Some(Hit { a: p, b: p + v.len(), end: p + v.len() + close.len() }));
    assert(first_hit(f, a.len() as int, s.len() as int) == f(a.len() as int));
    assert(s.subrange(p, p + v.len()) == v);
}

pub proof fn enclosed_missing(s: Seq<char>, open_text: Seq<char>, close: Seq<char>)
    requires
        clear(s, open_text),
    ensures
        first_enclosed(s, open_text, close) is None,
{
    let f = |i: int| enclosed(s, open_text, close, i);
    let e = Seq::<char>::empty();
    assert(s + e == s);
    assert forall|k: int| 0 <= k < s.len() implies (#[trigger] f(k)) is None by {
        clear_miss(s, e, open_text, k);
    }
    first_skip(f, 0, s.len() as int, s.len() as int);
}

/// What stands in an element is read as it was written.
pub proof fn element_found(
    a: Seq<char>,
    open_tag: Seq<char>,
    attrs: Seq<char>,
    v: Seq<char>,
    close: Seq<char>,
    b: Seq<char>,
)
    requires
        open_tag.len() > 0,
        clear(a, open_tag),
        without(attrs, '>'),
        clear(v, close),
    ensures
        first_element(a + open_tag + attrs + ">"@ + v + close + b, open_tag, close) == Some(v),
{
    reveal_strlit(">");
    let s = a + open_tag + attrs + ">"@ + v + close + b;
    let f = |i: int| element(s, open_tag, close, i);
    let rest = open_tag + (attrs + ">"@ + v + close + b);
    assert(s == a + rest);
    assert forall|k: int| 0 <= k < a.len() implies (#[trigger] f(k)) is None by {
        clear_miss(a, rest, open_tag, k);
    }
    at_start(open_tag, attrs + ">"@ + v + close + b);
    at_shift(a, rest, open_tag, 0);
    first_skip(f, 0, a.len() as int, s.len() as int);
    let head = a + open_tag;
    let mid = ">"@ + v + close + b;
    assert(s == head + (attrs + mid));
    find_char_move(head, attrs + mid, '>', 0);
    find_char_past(attrs, mid, '>', 0);
    let front = a + open_tag + attrs + ">"@;
    let tail = close + b;
    assert(s == front + (v + tail));
    find_shift(front, v + tail, close, 0);
    at_start(close, b);
    find_past(v, tail, close, 0);
    let p = front.len() as int;
    assert(f(a.len() as int) == Some(Hit { a: p, b: p + v.len(), end: p + v.len() + close.len() }));
    assert(first_hit(f, a.len() as int, s.len() as int) == f(a.len() as int));
    assert(s.subrange(p, p + v.len()) == v);
}

pub proof fn element_missing(s: Seq<char>, open_tag: Seq<char>, close: Seq<char>)
    requires
        clear(s, open_tag),
    ensures
        first_element(s, open_tag, close) is None,
{
    let f = |i: int| element(s, open_tag, close, i);
    let e = Seq::<char>::empty();
    assert(s + e == s);
    assert forall|k: int| 0 <= k < s.len() implies (#[trigger] f(k)) is None by {
        clear_miss(s, e, open_tag, k);
    }
    first_skip(f, 0, s.len() as int, s.len() as int);
}

/// A pattern that starts nowhere is not found.
pub proof fn find_missing(s: Seq<char>, pat: Seq<char>, i: int)
    requires
        pat.len() > 0,
        clear(s, pat),
        0 <= i,
    ensures
        find(s, pat, i) is None,
    decreases s.len() + 1 - i,
{
    let e = Seq::<char>::empty();
    assert(s + e == s);
    if i < s.len() {
        clear_miss(s, e, pat, i);
        find_missing(s, pat, i + 1);
    } else if i == s.len() {
        find_missing(s, pat, i + 1);
    }
}

/// The attributes of a tag that closes itself are read as they were written.
pub proof fn closed_found(a: Seq<char>, open_tag: Seq<char>, attrs: Seq<char>, b: Seq<char>)
    requires
        open_tag.len() > 0,
        clear(a, open_tag),
        attrs.len() > 0,
        !is_white(attrs[0]),
        without(attrs, '>'),
    ensures
        first_closed_tag(a + open_tag + " "@ + attrs + "/>"@ + b, open_tag) == Some(attrs),
{
    reveal_strlit(" ");
    reveal_strlit("/>");
    let s = a + open_tag + " "@ + attrs + "/>"@ + b;
    let f = |i: int| closed_tag(s, open_tag, i);
    let behind = " "@ + attrs + "/>"@ + b;
    let rest = open_tag + behind;
    assert(s == a + rest);
    assert forall|k: int| 0 <= k < a.len() implies (#[trigger] f(k)) is None by {
        clear_miss(a, rest, open_tag, k);
    }
    first_skip(f, 0, a.len() as int, s.len() as int);
    assert(behind[1] == attrs[0]);
    tag_starts(open_tag, behind);
    tag_start_shift(a, rest, open_tag, 0);
    let head = a + open_tag + " "@;
    let mid = attrs + seq!['/'];
    let tail = seq!['>'] + b;
    assert(s == head + (mid + tail));
    find_char_move(head, mid + tail, '>', 0);
    find_char_past(mid, tail, '>', 0);
    let k = head.len() as int;
    let g: int = k + mid.len();
    assert(s[g - 1] == '/');
    assert(f(a.len() as int) == Some(Hit { a: k, b: g - 1, end: g + 1 }));
    assert(first_hit(f, a.len() as int, s.len() as int) == f(a.len() as int));
    assert(s.subrange(k, g - 1) == attrs);
}

pub proof fn closed_missing(s: Seq<char>, open_tag: Seq<char>)
    requires
        clear(s, open_tag),
    ensures
        first_closed_tag(s, open_tag) is None,
{
    let f = |i: int| closed_tag(s, open_tag, i);
    let e = Seq::<char>::empty();
    assert(s + e == s);
    assert forall|k: int| 0 <= k < s.len() implies (#[trigger] f(k)) is None by {
        clear_miss(s, e, open_tag, k);
    }
    first_skip(f, 0, s.len() as int, s.len() as int);
}

proof fn open_shift(a: Seq<char>, s: Seq<char>, open_tag: Seq<char>, i: int)
    requires
        0 <= i,
    ensures
        open_tag_at(a + s, open_tag, a.len() + i) == hit_moved(
            open_tag_at(s, open_tag, i),
            a.len() as int,
        ),
{
    tag_start_shift(a, s, open_tag, i);
    match tag_start(s, open_tag, i) {
        None => {},
        Some(k) => {
            tag_stop_shift(a, s, k);
            match tag_stop(s, k) {
                None => {},
                Some(b) => {
                    assert((a + s)[a.len() + b] == s[b]);
                    if b + 1 < s.len() {
                        assert((a + s)[a.len() + b + 1] == s[b + 1]);
                    }
                },
            }
        },
    }
}

proof fn open_at(open_tag: Seq<char>, attrs: Seq<char>, b: Seq<char>)
    requires
        attrs.len() > 0,
        !is_white(attrs[0]),
        without(attrs, '>'),
        without(attrs, '/'),
    ensures
        open_tag_at(open_tag + (" "@ + attrs + "/>"@ + b), open_tag, 0) == Some(
            Hit {
                a: open_tag.len() as int + 1,
                b: open_tag.len() as int + 1 + attrs.len(),
                end: open_tag.len() as int + 3 + attrs.len(),
            },
        ),
{
    reveal_strlit(" ");
    reveal_strlit("/>");
    let behind = " "@ + attrs + "/>"@ + b;
    let s = open_tag + behind;
    assert(behind[1] == attrs[0]);
    tag_starts(open_tag, behind);
    let head = open_tag + " "@;
    let tail = "/>"@ + b;
    assert(s == head + (attrs + tail));
    tag_stop_shift(head, attrs + tail, 0);
    tag_stop_past(attrs, tail, 0);
    let g = (head.len() + attrs.len()) as int;
    assert(s[g] == tail[0]);
    assert(s[g + 1] == tail[1]);
}

/// The attributes of a tag that closes itself, as a tag that need not do so.
pub proof fn open_found(a: Seq<char>, open_tag: Seq<char>, attrs: Seq<char>, b: Seq<char>)
    requires
        open_tag.len() > 0,
        clear(a, open_tag),
        attrs.len() > 0,
        !is_white(attrs[0]),
        without(attrs, '>'),
        without(attrs, '/'),
    ensures
        first_open_tag(a + (open_tag + (" "@ + attrs + "/>"@ + b)), open_tag) == Some(attrs),
{
    reveal_strlit(" ");
    reveal_strlit("/>");
    let rest = open_tag + (" "@ + attrs + "/>"@ + b);
    let s = a + rest;
    let f = |i: int| open_tag_at(s, open_tag, i);
    assert forall|k: int| 0 <= k < a.len() implies (#[trigger] f(k)) is None by {
        clear_miss(a, rest, open_tag, k);
    }
    first_skip(f, 0, a.len() as int, s.len() as int);
    open_at(open_tag, attrs, b);
    open_shift(a, rest, open_tag, 0);
    assert(first_hit(f, a.len() as int, s.len() as int) == f(a.len() as int));
    let k = a.len() + open_tag.len() as int + 1;
    assert(s.subrange(k, k + attrs.len()) == attrs);
}

pub proof fn open_missing(s: Seq<char>, open_tag: Seq<char>)
    requires
        clear(s, open_tag),
    ensures
        first_open_tag(s, open_tag) is None,
{
    let f = |i: int| open_tag_at(s, open_tag, i);
    let e = Seq::<char>::empty();
    assert(s + e == s);
    assert forall|k: int| 0 <= k < s.len() implies (#[trigger] f(k)) is None by {
        clear_miss(s, e, open_tag, k);
    }
    first_skip(f, 0, s.len() as int, s.len() as int);
}

/// The reference of the first tag of a kind is read as it was written.
pub proof fn ref_found(
    a: Seq<char>,
    open_tag: Seq<char>,
    key: Seq<char>,
    v: Seq<char>,
    b: Seq<char>,
)
    requires
        open_tag.len() > 0,
        clear(a, open_tag),
        key.len() > 0,
        !is_white(key[0]),
        without(v, '"'),
    ensures
        first_tag_ref(a + open_tag + " "@ + key + v + "\""@ + b, open_tag, key) == Some(v),
{
    reveal_strlit(" ");
    reveal_strlit("\"");
    let s = a + open_tag + " "@ + key + v + "\""@ + b;
    let f = |i: int| tag_ref(s, open_tag, key, i);
    let behind = " "@ + key + v + "\""@ + b;
    let rest = open_tag + behind;
    assert(s == a + rest);
    assert forall|k: int| 0 <= k < a.len() implies (#[trigger] f(k)) is None by {
        clear_miss(a, rest, open_tag, k);
    }
    first_skip(f, 0, a.len() as int, s.len() as int);
    assert(behind[1] == key[0]);
    tag_starts(open_tag, behind);
    tag_start_shift(a, rest, open_tag, 0);
    let head = a + open_tag + " "@;
    let tail = "\""@ + b;
    assert(s == head + (key + (v + tail)));
    at_start(key, v + tail);
    at_shift(head, key + (v + tail), key, 0);
    let front = head + key;
    assert(s == front + (v + tail));
    find_char_move(front, v + tail, '"', 0);
    find_char_past(v, tail, '"', 0);
    let k = front.len() as int;
    assert(f(a.len() as int) == Some(Hit { a: k, b: k + v.len(), end: k + v.len() + 1 }));
    assert(first_hit(f, a.len() as int, s.len() as int) == f(a.len() as int));
    assert(s.subrange(k, k + v.len()) == v);
}

// ---- lists of attributes

/// An attribute as it is written; nothing where it has no value.
pub open spec fn attr_item(name: Seq<char>, value: Option<Seq<char>>) -> Seq<char> {
    match value {
        Some(v) => " "@ + key_of(name) + v + "\""@,
        None => Seq::empty(),
    }
}

/// Attributes as they are written.
pub open spec fn attr_list(l: Seq<(Seq<char>, Option<Seq<char>>)>) -> Seq<char>
    decreases l.len(),
{
    if l.len() == 0 {
        Seq::empty()
    } else {
        attr_list(l.drop_last()) + attr_item(l.last().0, l.last().1)
    }
}

/// Whether the key of `name` starts nowhere in an attribute.
pub open spec fn passes(item: (Seq<char>, Option<Seq<char>>), name: Seq<char>) -> bool {
    item.1 matches Some(v) ==> without(v, '=') && clear(" "@ + key_of(item.0), key_of(name))
}

proof fn item_clear(item: (Seq<char>, Option<Seq<char>>), name: Seq<char>)
    requires
        without(name, '"'),
        passes(item, name),
    ensures
        clear(attr_item(item.0, item.1), key_of(name)),
{
    match item.1 {
        Some(v) => {
            value_clear(v, name);
            clear_join(" "@ + key_of(item.0), v + "\""@, key_of(name));
            assert(attr_item(item.0, item.1) == " "@ + key_of(item.0) + (v + "\""@));
        },
        None => {},
    }
}

pub proof fn list_clear(l: Seq<(Seq<char>, Option<Seq<char>>)>, name: Seq<char>)
    requires
        without(name, '"'),
        forall|j: int| 0 <= j < l.len() ==> passes(#[trigger] l[j], name),
    ensures
        clear(attr_list(l), key_of(name)),
    decreases l.len(),
{
    if l.len() > 0 {
        assert(passes(l[l.len() - 1], name));
        assert forall|j: int| 0 <= j < l.drop_last().len() implies passes(
            #[trigger] l.drop_last()[j],
            name,
        ) by {
            assert(l.drop_last()[j] == l[j]);
        }
        list_clear(l.drop_last(), name);
        item_clear(l.last(), name);
        clear_join(attr_list(l.drop_last()), attr_item(l.last().0, l.last().1), key_of(name));
    }
}

proof fn list_split(l: Seq<(Seq<char>, Option<Seq<char>>)>, i: int)
    requires
        0 <= i < l.len(),
    ensures
        attr_list(l) == attr_list(l.take(i)) + attr_item(l[i].0, l[i].1) + attr_list(l.skip(i + 1)),
    decreases l.len(),
{
    let p = l.drop_last();
    if i == l.len() - 1 {
        assert(p == l.take(i));
        assert(l.skip(i + 1) == Seq::<(Seq<char>, Option<Seq<char>>)>::empty());
        assert(attr_list(l) == attr_list(l.take(i)) + attr_item(l[i].0, l[i].1) + Seq::empty());
    } else {
        list_split(p, i);
        assert(p.take(i) == l.take(i));
        assert(p.skip(i + 1) == l.skip(i + 1).drop_last());
        assert(l.skip(i + 1).last() == l.last());
        assert(attr_list(l.skip(i + 1)) == attr_list(p.skip(i + 1)) + attr_item(
            l.last().0,
            l.last().1,
        ));
    }
}

/// The attribute at `i` of a list is read as it was written.
pub proof fn attr_in_list(head: Seq<char>, l: Seq<(Seq<char>, Option<Seq<char>>)>, i: int)
    requires
        0 <= i < l.len(),
        l[i].0.len() > 0,
        without(l[i].0, '"'),
        clear(head, key_of(l[i].0)),
        clear(" "@, key_of(l[i].0)),
        forall|j: int| 0 <= j < i ==> passes(#[trigger] l[j], l[i].0),
        l[i].1 is None ==> forall|j: int| i < j < l.len() ==> passes(#[trigger] l[j], l[i].0),
        l[i].1 matches Some(v) ==> without(v, '"'),
    ensures
        attr_of(head + attr_list(l), l[i].0) == l[i].1,
{
    let name = l[i].0;
    let key = key_of(name);
    match l[i].1 {
        Some(v) => {
            list_split(l, i);
            let a = l.take(i);
            assert forall|j: int| 0 <= j < a.len() implies passes(#[trigger] a[j], name) by {
                assert(a[j] == l[j]);
            }
            list_clear(a, name);
            let front = head + attr_list(a) + " "@;
            clear_join(head, attr_list(a), key);
            clear_join(head + attr_list(a), " "@, key);
            let b = attr_list(l.skip(i + 1));
            attr_found(front, name, v, b);
            assert(head + attr_list(l) == front + key + v + "\""@ + b);
        },
        None => {
            assert forall|j: int| 0 <= j < l.len() implies passes(#[trigger] l[j], name) by {}
            list_clear(l, name);
            clear_join(head, attr_list(l), key);
            attr_missing(head + attr_list(l), name);
        },
    }
}

/// Whether a name is one of attributes: no blank, no sign of markup.
pub open spec fn is_name(s: Seq<char>) -> bool {
    s.len() > 0 && forall|i: int| 0 <= i < s.len() ==> 'A' <= #[trigger] s[i] <= 'z'
}

/// The key of `b` does not start in an attribute `a`, as `b` is longer or differs from the end of
/// `a` in its character `d`.
pub proof fn names_apart(a: Seq<char>, b: Seq<char>, d: int)
    requires
        is_name(a),
        is_name(b),
        b.len() > a.len() + 1 || (0 <= d < b.len() && (" "@ + a)[1 + a.len() - b.len() + d] != b[d]),
    ensures
        clear(" "@ + key_of(a), key_of(b)),
{
    reveal_strlit(" ");
    reveal_strlit("=\"");
    let s = " "@ + key_of(a);
    let key = key_of(b);
    let e = b.len() as int;
    assert(key[e] == '=');
    assert(s.len() == a.len() + 3);
    assert(s[1 + a.len() as int] == '=');
    assert(s[2 + a.len() as int] == '"');
    assert forall|p: int| 0 <= p < s.len() implies #[trigger] unlike(s, key, p) by {
        if p + e < s.len() {
            if p + e == 1 + a.len() {
                assert((" "@ + a)[p + d] == s[p + d]);
                assert(key[d] == b[d]);
                assert(s[p + d] != key[d]);
            } else {
                if 1 <= p + e < 1 + a.len() {
                    assert(s[p + e] == a[p + e - 1]);
                }
                assert(s[p + e] != key[e]);
            }
        } else {
            let j = s.len() - 1 - p;
            assert(key[j] == b[j]);
            assert(s[p + j] != key[j]);
        }
    }
}

/// A blank is no start of a key.
pub proof fn name_apart(b: Seq<char>)
    requires
        is_name(b),
    ensures
        clear(" "@, key_of(b)),
        without(b, '"'),
{
    reveal_strlit(" ");
    assert(key_of(b)[0] == b[0]);
    clear_without(" "@, key_of(b));
}

/// The attribute at the start of a tag, where the key of `b` does not start.
pub proof fn head_apart(a: Seq<char>, v: Seq<char>, b: Seq<char>, d: int)
    requires
        is_name(a),
        is_name(b),
        without(v, '='),
        b.len() > a.len() + 1 || (0 <= d < b.len() && (" "@ + a)[1 + a.len() - b.len() + d] != b[d]),
    ensures
        clear(key_of(a) + v + "\""@, key_of(b)),
{
    reveal_strlit(" ");
    names_apart(a, b, d);
    name_apart(b);
    let s = " "@ + key_of(a);
    let key = key_of(b);
    assert forall|p: int| 0 <= p < key_of(a).len() implies #[trigger] unlike(key_of(a), key, p) by {
        assert(unlike(s, key, p + 1));
        let j = choose|j: int| 0 <= j < key.len() && p + 1 + j < s.len() && s[p + 1 + j] != #[trigger] key[j];
        assert(s[p + 1 + j] == key_of(a)[p + j]);
    }
    value_clear(v, b);
    clear_join(key_of(a), v + "\""@, key);
    assert(key_of(a) + v + "\""@ == key_of(a) + (v + "\""@));
}

pub proof fn list_push(l: Seq<(Seq<char>, Option<Seq<char>>)>, x: (Seq<char>, Option<Seq<char>>))
    ensures
        attr_list(l.push(x)) == attr_list(l) + attr_item(x.0, x.1),
{
    assert(l.push(x).drop_last() == l);
}

/// Attributes hold no `>` nor `/` where their values do not.
pub proof fn list_without(l: Seq<(Seq<char>, Option<Seq<char>>)>, c: char)
    requires
        c == '>' || c == '/' || c == '<',
        forall|j: int|
            0 <= j < l.len() ==> is_name((#[trigger] l[j]).0) && (l[j].1 matches Some(v) ==> without(v, c)),
    ensures
        without(attr_list(l), c),
    decreases l.len(),
{
    if l.len() > 0 {
        let p = l.drop_last();
        assert forall|j: int| 0 <= j < p.len() implies is_name((#[trigger] p[j]).0) && (
        p[j].1 matches Some(v) ==> without(v, c)) by {
            assert(p[j] == l[j]);
        }
        list_without(p, c);
        reveal_strlit(" ");
        reveal_strlit("=\"");
        reveal_strlit("\"");
        assert(is_name(l[l.len() - 1].0));
        assert(without(attr_item(l.last().0, l.last().1), c));
    }
}


// ---- the last key of a tag

proof fn last_key_is(s: Seq<char>, key: Seq<char>, k: int, p: int, g: int)
    requires
        k <= p <= g,
        at(s, key, p),
        find_char(s, '"', p + key.len()) is Some,
        forall|q: int| p < q <= g ==> !#[trigger] at(s, key, q),
    ensures
        last_key(s, key, k, g) == Some(p),
    decreases g - p,
{
    if g > p {
        last_key_is(s, key, k, p, g - 1);
    }
}

/// A key in quotes stands where it was written, with its value behind it.
proof fn key_stands(head: Seq<char>, key: Seq<char>, v: Seq<char>, rest: Seq<char>, s: Seq<char>)
    requires
        s == head + (key + (v + rest)),
        without(v, '"'),
        rest.len() > 0,
        rest[0] == '"',
    ensures
        at(s, key, head.len() as int),
        find_char(s, '"', (head.len() + key.len()) as int) == Some(
            (head.len() + key.len() + v.len()) as int,
        ),
        s.subrange(
            (head.len() + key.len()) as int,
            (head.len() + key.len() + v.len()) as int,
        ) == v,
{
    at_start(key, v + rest);
    at_shift(head, key + (v + rest), key, 0);
    let front = head + key;
    assert(s == front + (v + rest));
    find_char_move(front, v + rest, '"', 0);
    find_char_past(v, rest, '"', 0);
}

/// A key that starts with a letter the text behind it never repeats stands once.
proof fn key_alone(start: Seq<char>, z: Seq<char>, b: Seq<char>, key: Seq<char>, s: Seq<char>)
    requires
        s == start + (z + b),
        clear(z, key),
    ensures
        forall|q: int| start.len() <= q < start.len() + z.len() ==> !#[trigger] at(s, key, q),
{
    assert forall|q: int| start.len() <= q < start.len() + z.len() implies !#[trigger] at(
        s,
        key,
        q,
    ) by {
        let d = q - start.len();
        clear_miss(z, b, key, d);
        at_shift(start, z + b, key, d);
    }
}

/// The tag ends behind the text between its name and its sign.
proof fn tag_end(open: Seq<char>, mid: Seq<char>, tail: Seq<char>, s: Seq<char>)
    requires
        s == open + (mid + tail),
        without(mid, '>'),
        tail.len() > 0,
        tail[0] == '>',
    ensures
        before_gt(s, open.len() as int) == open.len() + mid.len(),
{
    find_char_move(open, mid + tail, '>', 0);
    find_char_past(mid, tail, '>', 0);
}

/// The value behind the only key of a tag is read as it was written. `c` is the key without its
/// first character.
pub proof fn key_found(
    pre: Seq<char>,
    o: Seq<char>,
    key: Seq<char>,
    c: Seq<char>,
    v: Seq<char>,
    b: Seq<char>,
)
    requires
        key.len() > 0,
        key == seq![key[0]] + c,
        clear(c + v + "\"/>"@, key),
        without(key, '>'),
        without(v, '>'),
        without(v, '"'),
    ensures
        ({
            let s = pre + (o + " "@ + (key + v + "\"/>"@) + b);
            let a = (pre.len() + o.len() + 1 + key.len()) as int;
            &&& key_in_tag(s, o, key, pre.len() as int) == Some(
                Hit { a, b: a + v.len(), end: a + v.len() + 1 },
            )
            &&& s.subrange(a, a + v.len()) == v
        }),
{
    let e = "\"/>"@;
    let rest = o + " "@ + (key + v + e) + b;
    let s = pre + rest;
    let head = pre + o + " "@;
    let mid = " "@ + key + v + seq!['"', '/'];
    let k = (pre.len() + o.len()) as int;
    let p = head.len() as int;
    let g: int = k + mid.len();
    let a: int = p + key.len();
    reveal_strlit("\"/>");
    reveal_strlit(" ");
    assert(at(s, o, pre.len() as int)) by {
        assert(rest == o + (" "@ + (key + v + e) + b));
        at_start(o, " "@ + (key + v + e) + b);
        at_shift(pre, rest, o, 0);
    }
    assert(at(s, key, p) && find_char(s, '"', a) == Some(a + v.len()) && s.subrange(
        a,
        a + v.len(),
    ) == v) by {
        assert(s == head + (key + (v + (e + b))));
        key_stands(head, key, v, e + b, s);
    }
    assert(before_gt(s, k) == g) by {
        let tail = seq!['>'] + b;
        assert(e == seq!['"', '/'] + seq!['>']);
        assert(s == pre + o + (mid + tail));
        tag_end(pre + o, mid, tail, s);
    }
    assert(last_key(s, key, k, g) == Some(p)) by {
        let z = c + v + e;
        let start = head + seq![key[0]];
        assert(s == start + (z + b)) by {
            assert(key + v + e == seq![key[0]] + z);
        }
        key_alone(start, z, b, key, s);
        assert(g < start.len() + z.len());
        last_key_is(s, key, k, p, g);
    }
}

/// The value behind the only key of the first tag of a kind is read as it was written.
pub proof fn key_first(
    pre: Seq<char>,
    o: Seq<char>,
    key: Seq<char>,
    c: Seq<char>,
    v: Seq<char>,
    b: Seq<char>,
)
    requires
        o.len() > 0,
        clear(pre, o),
        key.len() > 0,
        key == seq![key[0]] + c,
        clear(c + v + "\"/>"@, key),
        without(key, '>'),
        without(v, '>'),
        without(v, '"'),
    ensures
        first_key_in_tag(pre + (o + " "@ + (key + v + "\"/>"@) + b), o, key) == Some(v),
{
    let rest = o + " "@ + (key + v + "\"/>"@) + b;
    let s = pre + rest;
    let f = |i: int| key_in_tag(s, o, key, i);
    key_found(pre, o, key, c, v, b);
    assert forall|i: int| 0 <= i < pre.len() implies (#[trigger] f(i)) is None by {
        clear_miss(pre, rest, o, i);
    }
    first_skip(f, 0, pre.len() as int, s.len() as int);
    assert(f(pre.len() as int) is Some);
    assert(first_hit(f, pre.len() as int, s.len() as int) == f(pre.len() as int));
}

/// The value of a key is missing where no tag of the kind is.
pub proof fn key_missing(s: Seq<char>, o: Seq<char>, key: Seq<char>)
    requires
        clear(s, o),
    ensures
        first_key_in_tag(s, o, key) is None,
{
    let f = |i: int| key_in_tag(s, o, key, i);
    let e = Seq::<char>::empty();
    assert(s + e == s);
    assert forall|i: int| 0 <= i < s.len() implies (#[trigger] f(i)) is None by {
        clear_miss(s, e, o, i);
    }
    first_skip(f, 0, s.len() as int, s.len() as int);
}

} // verus!
