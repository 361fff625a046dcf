//! Looking for tags and attributes in XML text.
use crate::text::{chars_of, find_char, is_white, opt_pos, position_of, slice_string, white};
use vstd::prelude::*;

verus! {

/// Whether `pat` stands in `s` at `i`.
pub open spec fn at(s: Seq<char>, pat: Seq<char>, i: int) -> bool {
    0 <= i && i + pat.len() <= s.len() && s.subrange(i, i + pat.len()) == pat
}

/// Whether `pat` stands in `s`.
pub open spec fn occurs(s: Seq<char>, pat: Seq<char>) -> bool {
    exists|i: int| #[trigger] at(s, pat, i)
}

/// The first place at or behind `from` where `pat` stands.
pub open spec fn find(s: Seq<char>, pat: Seq<char>, from: int) -> Option<int>
    decreases s.len() + 1 - from,
{
    if from < 0 || from > s.len() {
        None
    } else if at(s, pat, from) {
        Some(from)
    } else {
        find(s, pat, from + 1)
    }
}

/// Where white space that starts at `i` ends.
pub open spec fn white_end(s: Seq<char>, i: int) -> int
    decreases s.len() - i,
{
    if 0 <= i < s.len() && is_white(s[i]) {
        white_end(s, i + 1)
    } else {
        i
    }
}

/// The first place at or behind `i` of a `/` or a `>`.
pub open spec fn tag_stop(s: Seq<char>, i: int) -> Option<int>
    decreases s.len() - i,
{
    if i < 0 || i >= s.len() {
        None
    } else if s[i] == '/' || s[i] == '>' {
        Some(i)
    } else {
        tag_stop(s, i + 1)
    }
}

/// Behind the start `<tag` with white space that stands at `i`: where its attributes start.
pub open spec fn tag_start(s: Seq<char>, open_tag: Seq<char>, i: int) -> Option<int> {
    let k = i + open_tag.len();
    if at(s, open_tag, i) && k < s.len() && is_white(s[k]) {
        Some(white_end(s, k))
    } else {
        None
    }
}

/// What a pattern captured: where a capture starts and ends, and where the match ends.
pub struct Hit {
    pub a: int,
    pub b: int,
    pub end: int,
}

/// `<tag attrs/>` at `i`, where the attributes hold no `/`.
pub open spec fn short_tag(s: Seq<char>, open_tag: Seq<char>, i: int) -> Option<Hit> {
    match tag_start(s, open_tag, i) {
        None => None,
        Some(a) => match tag_stop(s, a) {
            None => None,
            Some(b) => if s[b] == '/' && b + 1 < s.len() && s[b + 1] == '>' {
                Some(Hit { a, b, end: b + 2 })
            } else {
                None
            },
        },
    }
}

/// `<tag attrs/>` at `i`, where the attributes hold no `>`.
pub open spec fn closed_tag(s: Seq<char>, open_tag: Seq<char>, i: int) -> Option<Hit> {
    match tag_start(s, open_tag, i) {
        None => None,
        Some(a) => match find_char(s, '>', a) {
            None => None,
            Some(g) => if g > a && s[g - 1] == '/' {
                Some(Hit { a, b: g - 1, end: g + 1 })
            } else {
                None
            },
        },
    }
}

/// `<tag attrs>` or `<tag attrs/>` at `i`, where the attributes hold no `/`.
pub open spec fn open_tag_at(s: Seq<char>, open_tag: Seq<char>, i: int) -> Option<Hit> {
    match tag_start(s, open_tag, i) {
        None => None,
        Some(a) => match tag_stop(s, a) {
            None => None,
            Some(b) => if s[b] == '>' {
                Some(Hit { a, b, end: b + 1 })
            } else if b + 1 < s.len() && s[b + 1] == '>' {
                Some(Hit { a, b, end: b + 2 })
            } else {
                None
            },
        },
    }
}

/// `<open…>inner<close>` at `i`.
pub open spec fn element(s: Seq<char>, open_tag: Seq<char>, close: Seq<char>, i: int) -> Option<Hit> {
    if at(s, open_tag, i) {
        match find_char(s, '>', i + open_tag.len()) {
            None => None,
            Some(g) => match find(s, close, g + 1) {
                None => None,
                Some(b) => Some(Hit { a: g + 1, b, end: b + close.len() }),
            },
        }
    } else {
        None
    }
}

/// `open inner close` at `i`.
pub open spec fn enclosed(s: Seq<char>, open_text: Seq<char>, close: Seq<char>, i: int) -> Option<Hit> {
    if at(s, open_text, i) {
        match find(s, close, i + open_text.len()) {
            None => None,
            Some(b) => Some(Hit { a: i + open_text.len(), b, end: b + close.len() }),
        }
    } else {
        None
    }
}

/// `<tag ref="value"` at `i`, with white space before the attribute.
pub open spec fn tag_ref(s: Seq<char>, open_tag: Seq<char>, key: Seq<char>, i: int) -> Option<Hit> {
    match tag_start(s, open_tag, i) {
        None => None,
        Some(a) => if at(s, key, a) {
            match find_char(s, '"', a + key.len()) {
                None => None,
                Some(q) => Some(Hit { a: a + key.len(), b: q, end: q + 1 }),
            }
        } else {
            None
        },
    }
}

/// What a pattern captures at the first place at or behind `i` where it matches.
pub open spec fn first_hit(f: spec_fn(int) -> Option<Hit>, i: int, n: int) -> Option<Hit>
    decreases n - i,
{
    if i >= n {
        None
    } else {
        match f(i) {
            Some(h) => Some(h),
            None => first_hit(f, i + 1, n),
        }
    }
}

/// What a pattern captures in a text, match behind match.
pub open spec fn captures(s: Seq<char>, f: spec_fn(int) -> Option<Hit>, i: int) -> Seq<Seq<char>>
    decreases s.len() - i,
{
    if i >= s.len() {
        Seq::empty()
    } else {
        match f(i) {
            Some(h) => if i < h.end <= s.len() {
                seq![s.subrange(h.a, h.b)] + captures(s, f, h.end)
            } else {
                Seq::empty()
            },
            None => captures(s, f, i + 1),
        }
    }
}

/// The text that a capture holds.
pub open spec fn captured(s: Seq<char>, h: Option<Hit>) -> Option<Seq<char>> {
    match h {
        Some(h) => Some(s.subrange(h.a, h.b)),
        None => None,
    }
}

/// The attributes of the tags `<tag attrs/>` in a text.
pub open spec fn short_tags(s: Seq<char>, open_tag: Seq<char>) -> Seq<Seq<char>> {
    captures(s, |i: int| short_tag(s, open_tag, i), 0)
}

/// The attributes of the first tag `<tag attrs/>` in a text.
pub open spec fn first_short_tag(s: Seq<char>, open_tag: Seq<char>) -> Option<Seq<char>> {
    captured(s, first_hit(|i: int| short_tag(s, open_tag, i), 0, s.len() as int))
}

/// The attributes of the first tag `<tag attrs/>` in a text, whatever they hold but `>`.
pub open spec fn first_closed_tag(s: Seq<char>, open_tag: Seq<char>) -> Option<Seq<char>> {
    captured(s, first_hit(|i: int| closed_tag(s, open_tag, i), 0, s.len() as int))
}

/// The attributes of the first tag `<tag attrs>` or `<tag attrs/>` in a text.
pub open spec fn first_open_tag(s: Seq<char>, open_tag: Seq<char>) -> Option<Seq<char>> {
    captured(s, first_hit(|i: int| open_tag_at(s, open_tag, i), 0, s.len() as int))
}

/// What stands in the elements of a tag.
pub open spec fn elements(s: Seq<char>, open_tag: Seq<char>, close: Seq<char>) -> Seq<Seq<char>> {
    captures(s, |i: int| element(s, open_tag, close, i), 0)
}

/// What stands in the first element of a tag.
pub open spec fn first_element(s: Seq<char>, open_tag: Seq<char>, close: Seq<char>) -> Option<Seq<char>> {
    captured(s, first_hit(|i: int| element(s, open_tag, close, i), 0, s.len() as int))
}

/// What stands between texts, time after time.
pub open spec fn all_enclosed(s: Seq<char>, open_text: Seq<char>, close: Seq<char>) -> Seq<Seq<char>> {
    captures(s, |i: int| enclosed(s, open_text, close, i), 0)
}

/// What first stands between texts.
pub open spec fn first_enclosed(s: Seq<char>, open_text: Seq<char>, close: Seq<char>) -> Option<Seq<char>> {
    captured(s, first_hit(|i: int| enclosed(s, open_text, close, i), 0, s.len() as int))
}

/// The values of an attribute that stands first in the tags of a kind.
pub open spec fn tag_refs(s: Seq<char>, open_tag: Seq<char>, key: Seq<char>) -> Seq<Seq<char>> {
    captures(s, |i: int| tag_ref(s, open_tag, key, i), 0)
}

/// The value of an attribute that stands first in the first such tag of a kind.
pub open spec fn first_tag_ref(s: Seq<char>, open_tag: Seq<char>, key: Seq<char>) -> Option<Seq<char>> {
    captured(s, first_hit(|i: int| tag_ref(s, open_tag, key, i), 0, s.len() as int))
}

/// The value behind `key`, up to the next quote.
pub open spec fn quoted(s: Seq<char>, key: Seq<char>) -> Option<Seq<char>> {
    first_enclosed(s, key, "\""@)
}

/// The value of an attribute.
pub open spec fn attr_of(s: Seq<char>, name: Seq<char>) -> Option<Seq<char>> {
    quoted(s, name + "=\""@)
}

/// The last place at or before `p`, and not before `from`, where `key` stands with a quote
/// behind it.
pub open spec fn last_key(s: Seq<char>, key: Seq<char>, from: int, p: int) -> Option<int>
    decreases p - from + 1,
{
    if p < from {
        None
    } else if at(s, key, p) && find_char(s, '"', p + key.len()) is Some {
        Some(p)
    } else {
        last_key(s, key, from, p - 1)
    }
}

/// Where the text that starts at `i` and holds no `>` ends.
pub open spec fn before_gt(s: Seq<char>, i: int) -> int {
    match find_char(s, '>', i) {
        Some(g) => g,
        None => s.len() as int,
    }
}

/// The value behind the last `key` in the tag that starts with `open_tag` at `i`.
pub open spec fn key_in_tag(s: Seq<char>, open_tag: Seq<char>, key: Seq<char>, i: int) -> Option<Hit> {
    if at(s, open_tag, i) {
        let k = i + open_tag.len();
        match last_key(s, key, k, before_gt(s, k)) {
            Some(p) => match find_char(s, '"', p + key.len()) {
                Some(q) => Some(Hit { a: p + key.len(), b: q, end: q + 1 }),
                None => None,
            },
            None => None,
        }
    } else {
        None
    }
}

/// The value behind the last `key` in the first tag that has one.
pub open spec fn first_key_in_tag(s: Seq<char>, open_tag: Seq<char>, key: Seq<char>) -> Option<Seq<char>> {
    captured(s, first_hit(|i: int| key_in_tag(s, open_tag, key, i), 0, s.len() as int))
}

// ---- executable

/// Whether `pat` stands in `s` at `i`.
pub fn stands_at(s: &Vec<char>, pat: &Vec<char>, i: usize) -> (r: bool)
    requires
        i <= s.len(),
    ensures
        r == at(s@, pat@, i as int),
{
    if pat.len() > s.len() - i {
        return false;
    }
    let mut k: usize = 0;
    while k < pat.len()
        invariant
            k <= pat.len(),
            i + pat.len() <= s.len(),
            forall|j: int| 0 <= j < k ==> s@[i + j] == #[trigger] pat@[j],
        decreases pat.len() - k,
    {
        if s[i + k] != pat[k] {
            assert(s@.subrange(i as int, i + pat@.len())[k as int] != pat@[k as int]);
            return false;
        }
        k = k + 1;
    }
    assert(s@.subrange(i as int, i + pat@.len()) == pat@);
    true
}

/// Whether `pat` stands in `s`.
pub fn has_text(s: &Vec<char>, pat: &Vec<char>) -> (r: bool)
    ensures
        r == occurs(s@, pat@),
{
    let mut i: usize = 0;
    loop
        invariant
            i <= s.len(),
            forall|j: int| 0 <= j < i ==> !#[trigger] at(s@, pat@, j),
        decreases s.len() - i,
    {
        if stands_at(s, pat, i) {
            return true;
        }
        if i == s.len() {
            assert forall|j: int| !#[trigger] at(s@, pat@, j) by {
                if j > s@.len() {
                    assert(j + pat@.len() > s@.len());
                }
            }
            return false;
        }
        i = i + 1;
    }
}

/// Whether `pat` stands in `s`.
pub fn contains_str(s: &Vec<char>, pat: &str) -> (r: bool)
    ensures
        r == occurs(s@, pat@),
{
    let p: Vec<char> = chars_of(pat);
    has_text(s, &p)
}

/// The first place at or behind `from` where `pat` stands.
pub fn find_text(s: &Vec<char>, pat: &Vec<char>, from: usize) -> (r: Option<usize>)
    ensures
        opt_pos(r) == find(s@, pat@, from as int),
        r matches Some(p) ==> from <= p && p + pat@.len() <= s@.len(),
{
    let mut i: usize = from;
    while i <= s.len()
        invariant
            from <= i,
            i <= s.len() + 1 || i == from,
            find(s@, pat@, from as int) == find(s@, pat@, i as int),
        decreases s.len() + 1 - i,
    {
        if stands_at(s, pat, i) {
            return Some(i);
        }
        if i == s.len() {
            assert(find(s@, pat@, s@.len() as int + 1) is None);
            return None;
        }
        i = i + 1;
    }
    None
}

fn white_end_of(s: &Vec<char>, i: usize) -> (r: usize)
    requires
        i <= s.len(),
    ensures
        r == white_end(s@, i as int),
        i <= r <= s.len(),
{
    let mut k: usize = i;
    while k < s.len() && white(s[k])
        invariant
            i <= k <= s.len(),
            white_end(s@, i as int) == white_end(s@, k as int),
        decreases s.len() - k,
    {
        k = k + 1;
    }
    k
}

fn tag_stop_of(s: &Vec<char>, i: usize) -> (r: Option<usize>)
    requires
        i <= s.len(),
    ensures
        opt_pos(r) == tag_stop(s@, i as int),
        r matches Some(b) ==> i <= b < s.len(),
{
    let mut k: usize = i;
    while k < s.len()
        invariant
            i <= k <= s.len(),
            tag_stop(s@, i as int) == tag_stop(s@, k as int),
        decreases s.len() - k,
    {
        if s[k] == '/' || s[k] == '>' {
            return Some(k);
        }
        k = k + 1;
    }
    None
}

fn tag_start_of(s: &Vec<char>, open_tag: &Vec<char>, i: usize) -> (r: Option<usize>)
    requires
        i <= s.len(),
    ensures
        opt_pos(r) == tag_start(s@, open_tag@, i as int),
        r matches Some(a) ==> i + open_tag@.len() < a <= s.len(),
{
    if !stands_at(s, open_tag, i) {
        return None;
    }
    let k: usize = i + open_tag.len();
    if k < s.len() && white(s[k]) {
        Some(white_end_of(s, k + 1))
    } else {
        None
    }
}

/// A capture: where it starts and ends, and where the match ends.
#[derive(Clone, Copy)]
pub struct Found {
    pub a: usize,
    pub b: usize,
    pub end: usize,
}

pub open spec fn hit(f: Option<Found>) -> Option<Hit> {
    match f {
        Some(x) => Some(Hit { a: x.a as int, b: x.b as int, end: x.end as int }),
        None => None,
    }
}

/// Whether a capture lies in a text, behind where its match starts.
pub open spec fn found_in(f: Option<Found>, i: int, n: int) -> bool {
    f matches Some(x) ==> i <= x.a <= x.b && x.b <= n && i < x.end <= n
}

/// The patterns.
pub enum Pattern {
    Short(Vec<char>),
    Closed(Vec<char>),
    Open(Vec<char>),
    Element(Vec<char>, Vec<char>),
    Enclosed(Vec<char>, Vec<char>),
    Ref(Vec<char>, Vec<char>),
    Key(Vec<char>, Vec<char>),
}

/// What a pattern captures at `i`.
pub open spec fn pattern_at(p: Pattern, s: Seq<char>, i: int) -> Option<Hit> {
    match p {
        Pattern::Short(t) => short_tag(s, t@, i),
        Pattern::Closed(t) => closed_tag(s, t@, i),
        Pattern::Open(t) => open_tag_at(s, t@, i),
        Pattern::Element(t, c) => element(s, t@, c@, i),
        Pattern::Enclosed(t, c) => enclosed(s, t@, c@, i),
        Pattern::Ref(t, k) => tag_ref(s, t@, k@, i),
        Pattern::Key(t, k) => key_in_tag(s, t@, k@, i),
    }
}

/// Whether a pattern's match cannot be empty.
pub open spec fn pattern_ok(p: Pattern) -> bool {
    match p {
        Pattern::Enclosed(t, c) => t@.len() + c@.len() > 0,
        _ => true,
    }
}

fn last_key_of(s: &Vec<char>, key: &Vec<char>, from: usize, to: usize) -> (r: Option<usize>)
    requires
        from <= to <= s.len(),
    ensures
        opt_pos(r) == last_key(s@, key@, from as int, to as int),
        r matches Some(p) ==> from <= p && p + key@.len() <= s@.len() && find_char(
            s@,
            '"',
            p + key@.len(),
        ) is Some,
{
    let mut p: usize = to;
    loop
        invariant
            from <= p <= to <= s.len(),
            last_key(s@, key@, from as int, to as int) == last_key(s@, key@, from as int, p as int),
        decreases p,
    {
        if stands_at(s, key, p) {
            if position_of(s, '"', p + key.len()).is_some() {
                return Some(p);
            }
        }
        if p == from {
            assert(last_key(s@, key@, from as int, from - 1) is None);
            return None;
        }
        p = p - 1;
    }
}

pub fn match_at(p: &Pattern, s: &Vec<char>, i: usize) -> (r: Option<Found>)
    requires
        i < s.len(),
        pattern_ok(*p),
    ensures
        hit(r) == pattern_at(*p, s@, i as int),
        found_in(r, i as int, s@.len() as int),
{
    match p {
        Pattern::Short(t) => {
            let a: usize = match tag_start_of(s, t, i) {
                Some(a) => a,
                None => {
                    return None;
                },
            };
            match tag_stop_of(s, a) {
                Some(b) => if s[b] == '/' && b + 1 < s.len() && s[b + 1] == '>' {
                    Some(Found { a, b, end: b + 2 })
                } else {
                    None
                },
                None => None,
            }
        },
        Pattern::Closed(t) => {
            let a: usize = match tag_start_of(s, t, i) {
                Some(a) => a,
                None => {
                    return None;
                },
            };
            match position_of(s, '>', a) {
                Some(g) => if g > a && s[g - 1] == '/' {
                    Some(Found { a, b: g - 1, end: g + 1 })
                } else {
                    None
                },
                None => None,
            }
        },
        Pattern::Open(t) => {
            let a: usize = match tag_start_of(s, t, i) {
                Some(a) => a,
                None => {
                    return None;
                },
            };
            match tag_stop_of(s, a) {
                Some(b) => if s[b] == '>' {
                    Some(Found { a, b, end: b + 1 })
                } else if b + 1 < s.len() && s[b + 1] == '>' {
                    Some(Found { a, b, end: b + 2 })
                } else {
                    None
                },
                None => None,
            }
        },
        Pattern::Element(t, c) => {
            if !stands_at(s, t, i) {
                return None;
            }
            match position_of(s, '>', i + t.len()) {
                Some(g) => match find_text(s, c, g + 1) {
                    Some(b) => Some(Found { a: g + 1, b, end: b + c.len() }),
                    None => None,
                },
                None => None,
            }
        },
        Pattern::Enclosed(t, c) => {
            if !stands_at(s, t, i) {
                return None;
            }
            match find_text(s, c, i + t.len()) {
                Some(b) => Some(Found { a: i + t.len(), b, end: b + c.len() }),
                None => None,
            }
        },
        Pattern::Ref(t, k) => {
            let a: usize = match tag_start_of(s, t, i) {
                Some(a) => a,
                None => {
                    return None;
                },
            };
            if !stands_at(s, k, a) {
                return None;
            }
            match position_of(s, '"', a + k.len()) {
                Some(q) => Some(Found { a: a + k.len(), b: q, end: q + 1 }),
                None => None,
            }
        },
        Pattern::Key(t, k) => {
            if !stands_at(s, t, i) {
                return None;
            }
            let from: usize = i + t.len();
            let to: usize = match position_of(s, '>', from) {
                Some(g) => g,
                None => s.len(),
            };
            match last_key_of(s, k, from, to) {
                Some(p) => match position_of(s, '"', p + k.len()) {
                    Some(q) => Some(Found { a: p + k.len(), b: q, end: q + 1 }),
                    None => None,
                },
                None => None,
            }
        },
    }
}

/// What a pattern first captures in a text.
pub open spec fn pattern_first(p: Pattern, s: Seq<char>) -> Option<Seq<char>> {
    captured(s, first_hit(|i: int| pattern_at(p, s, i), 0, s.len() as int))
}

/// What a pattern captures in a text, match behind match.
pub open spec fn pattern_all(p: Pattern, s: Seq<char>) -> Seq<Seq<char>> {
    captures(s, |i: int| pattern_at(p, s, i), 0)
}

/// What a pattern first captures in a text.
pub fn first_match(p: &Pattern, s: &Vec<char>) -> (r: Option<String>)
    requires
        pattern_ok(*p),
    ensures
        match pattern_first(*p, s@) {
            Some(t) => r matches Some(x) && x@ == t,
            None => r is None,
        },
{
    let ghost f = |i: int| pattern_at(*p, s@, i);
    let ghost n = s@.len() as int;
    let mut i: usize = 0;
    while i < s.len()
        invariant
            i <= s.len(),
            n == s@.len(),
            pattern_ok(*p),
            f == (|i: int| pattern_at(*p, s@, i)),
            first_hit(f, 0, n) == first_hit(f, i as int, n),
        decreases s.len() - i,
    {
        if let Some(h) = match_at(p, s, i) {
            assert(f(i as int) == Some(Hit { a: h.a as int, b: h.b as int, end: h.end as int }));
            return Some(slice_string(s, h.a, h.b));
        }
        assert(f(i as int) is None);
        i = i + 1;
    }
    None
}

/// What a pattern captures in a text, match behind match.
pub fn all_matches(p: &Pattern, s: &Vec<char>) -> (r: Vec<String>)
    requires
        pattern_ok(*p),
    ensures
        crate::text::texts(r@) == pattern_all(*p, s@),
{
    let ghost f = |i: int| pattern_at(*p, s@, i);
    let ghost all = captures(s@, f, 0);
    let mut out: Vec<String> = Vec::new();
    let mut i: usize = 0;
    assert(crate::text::texts(out@) + captures(s@, f, 0) == all);
    while i < s.len()
        invariant
            i <= s.len(),
            pattern_ok(*p),
            f == (|i: int| pattern_at(*p, s@, i)),
            crate::text::texts(out@) + captures(s@, f, i as int) == all,
        decreases s.len() - i,
    {
        if let Some(h) = match_at(p, s, i) {
            assert(f(i as int) == Some(Hit { a: h.a as int, b: h.b as int, end: h.end as int }));
            let t: String = slice_string(s, h.a, h.b);
            let ghost before = crate::text::texts(out@);
            let ghost tt = t@;
            out.push(t);
            assert(crate::text::texts(out@) == before.push(tt));
            assert(before + (seq![tt] + captures(s@, f, h.end as int)) == before.push(tt)
                + captures(s@, f, h.end as int));
            i = h.end;
        } else {
            assert(f(i as int) is None);
            i = i + 1;
        }
    }
    assert(crate::text::texts(out@) + Seq::<Seq<char>>::empty() == crate::text::texts(out@));
    out
}

/// The value of an attribute.
pub fn attr(tag: &str, name: &str) -> (r: Option<String>)
    ensures
        match attr_of(tag@, name@) {
            Some(t) => r matches Some(x) && x@ == t,
            None => r is None,
        },
{
    let mut key: String = name.to_string();
    key.append("=\"");
    quoted_text(tag, key.as_str())
}

/// The value behind `key`, up to the next quote.
pub fn quoted_text(s: &str, key: &str) -> (r: Option<String>)
    ensures
        match quoted(s@, key@) {
            Some(t) => r matches Some(x) && x@ == t,
            None => r is None,
        },
{
    proof {
        reveal_strlit("\"");
    }
    let p = Pattern::Enclosed(chars_of(key), chars_of("\""));
    let chars: Vec<char> = chars_of(s);
    let ghost f = |i: int| pattern_at(p, s@, i);
    let ghost g = |i: int| enclosed(s@, key@, "\""@, i);
    assert(f =~= g);
    first_match(&p, &chars)
}

/// What stands in the first element of a tag.
pub fn block(xml: &str, tag: &str) -> (r: Option<String>)
    ensures
        match first_element(xml@, "<"@ + tag@, "</"@ + tag@ + ">"@) {
            Some(t) => r matches Some(x) && x@ == t,
            None => r is None,
        },
{
    let mut open_tag: String = "<".to_string();
    open_tag.append(tag);
    let mut close: String = "</".to_string();
    close.append(tag);
    close.append(">");
    let p = Pattern::Element(chars_of(open_tag.as_str()), chars_of(close.as_str()));
    let chars: Vec<char> = chars_of(xml);
    let ghost f = |i: int| pattern_at(p, xml@, i);
    let ghost g = |i: int| element(xml@, "<"@ + tag@, "</"@ + tag@ + ">"@, i);
    assert(f =~= g);
    first_match(&p, &chars)
}

} // verus!
