//! What holds of functions on texts: parts of a text make the text again, and a text is found,
//! replaced and repeated where it stands.
use crate::reading::{counted, everything, failed, say, truncated, yes, Given, Said};
use crate::scan::{at, find};
use crate::text::{alphabetic, cat, lower, trim_char, trim_end_char, trim_start_char, upper};
use crate::text_fn::{
    change_of, char_of, code_of, concatenate_of, exact_of, find_of, grouped, left_of, len_of,
    mid_of, nth_replaced, places_of, proper_of, repeated, replace_of, rept_of, right_of,
    single_spaced, substitute_of, text_split_of, textjoin_of, texts_in, Change,
};
use crate::value::{FValue, FormulaError};
use crate::xml::replaced;
use vstd::prelude::*;

verus! {

/// Whether an argument is a text.
pub open spec fn text_given(args: Seq<Given>, i: int, t: Seq<char>) -> bool {
    0 <= i < args.len() && (args[i] matches Given::One(r) && r.value == FValue::Text(t))
}

/// Whether an argument is a number whose whole part is `k`.
pub open spec fn count_given(args: Seq<Given>, i: int, k: int) -> bool {
    0 <= i < args.len() && (args[i] matches Given::One(r) && (r.value matches FValue::Number(n)
        && n.finite() && truncated(n) == k))
}

/// Whether a text stands in another at a place.
pub open spec fn stands(s: Seq<char>, pat: Seq<char>, p: int) -> bool {
    0 <= p && p + pat.len() <= s.len() && forall|i: int|
        0 <= i < pat.len() ==> #[trigger] s[p + i] == pat[i]
}

/// Whether `p` is the first place from `from` on where a text stands in another.
pub open spec fn is_first_place(s: Seq<char>, pat: Seq<char>, from: int, p: int) -> bool {
    from <= p && stands(s, pat, p) && forall|q: int| from <= q < p ==> !#[trigger] stands(s, pat, q)
}

/// Whether a text stands nowhere in another from a place on.
pub open spec fn is_nowhere(s: Seq<char>, pat: Seq<char>, from: int) -> bool {
    forall|q: int| from <= q ==> !#[trigger] stands(s, pat, q)
}

proof fn stands_is(s: Seq<char>, pat: Seq<char>, p: int)
    ensures
        stands(s, pat, p) == at(s, pat, p),
{
    if 0 <= p && p + pat.len() <= s.len() {
        let sub = s.subrange(p, p + pat.len());
        if at(s, pat, p) {
            assert forall|i: int| 0 <= i < pat.len() implies #[trigger] s[p + i] == pat[i] by {
                assert(sub[i] == s[p + i]);
            }
        }
        if stands(s, pat, p) {
            assert forall|i: int| 0 <= i < pat.len() implies sub[i] == pat[i] by {
                assert(s[p + i] == pat[i]);
            }
            assert(sub =~= pat);
        }
    }
}

/// The first place where a text stands is the place that is found.
pub proof fn first_place_is_found(s: Seq<char>, pat: Seq<char>, from: int, p: int)
    requires
        0 <= from,
        is_first_place(s, pat, from, p),
    ensures
        find(s, pat, from) == Some(p),
    decreases p - from,
{
    stands_is(s, pat, from);
    stands_is(s, pat, p);
    if from < p {
        assert(!stands(s, pat, from));
        first_place_is_found(s, pat, from + 1, p);
    }
}

/// A text that stands nowhere is not found.
pub proof fn nowhere_is_not_found(s: Seq<char>, pat: Seq<char>, from: int)
    requires
        is_nowhere(s, pat, from),
    ensures
        find(s, pat, from) is None,
    decreases s.len() + 1 - from,
{
    if 0 <= from <= s.len() {
        stands_is(s, pat, from);
        assert(!stands(s, pat, from));
        nowhere_is_not_found(s, pat, from + 1);
    }
}

/// `LEFT` and `RIGHT` part a text: what `LEFT` takes and what `RIGHT` takes of the rest make the
/// text again, and each is as long as was asked for.
pub proof fn left_and_right_part_a_text(
    front: Seq<Given>,
    back: Seq<Given>,
    a: Seq<char>,
    b: Seq<char>,
)
    requires
        text_given(front, 0, a + b),
        count_given(front, 1, a.len() as int),
        text_given(back, 0, a + b),
        count_given(back, 1, b.len() as int),
    ensures
        left_of(front) == say(a),
        right_of(back) == say(b),
{
    assert((a + b).take(a.len() as int) =~= a);
    assert((a + b).skip(a.len() as int) =~= b);
}

/// `LEFT` and `RIGHT` take one character where no count is given.
pub proof fn ends_are_one_character(args: Seq<Given>, t: Seq<char>)
    requires
        args.len() == 1,
        text_given(args, 0, t),
        t.len() > 0,
    ensures
        left_of(args) == say(seq![t[0]]),
        right_of(args) == say(seq![t[t.len() - 1]]),
{
    assert(t.take(1) =~= seq![t[0]]);
    assert(t.skip(t.len() - 1) =~= seq![t[t.len() - 1]]);
}

/// `LEFT` and `RIGHT` take the whole text where more is asked for than there is, and nothing where
/// less than nothing is.
pub proof fn ends_stay_in_the_text(args: Seq<Given>, t: Seq<char>, k: int)
    requires
        text_given(args, 0, t),
        count_given(args, 1, k),
    ensures
        k >= t.len() ==> left_of(args) == say(t) && right_of(args) == say(t),
        k <= 0 ==> left_of(args) == say(Seq::empty()) && right_of(args) == say(Seq::empty()),
{
    assert(t.take(t.len() as int) =~= t);
    assert(t.skip(0) =~= t);
    assert(t.take(0) =~= Seq::empty());
    assert(t.skip(t.len() as int) =~= Seq::empty());
}

/// `MID` cuts a part out of a text, `REPLACE` puts another text in its place, and `LEN` counts the
/// characters.
pub proof fn parts_are_cut_out(
    args: Seq<Given>,
    a: Seq<char>,
    b: Seq<char>,
    c: Seq<char>,
    new: Seq<char>,
)
    requires
        text_given(args, 0, a + b + c),
        count_given(args, 1, (a.len() + 1) as int),
        count_given(args, 2, b.len() as int),
    ensures
        mid_of(args) == say(b),
        text_given(args, 3, new) ==> replace_of(args) == say(a + new + c),
        len_of(args) == counted((a.len() + b.len() + c.len()) as int),
{
    let t = a + b + c;
    assert(t.subrange(a.len() as int, (a.len() + b.len()) as int) =~= b);
    assert(t.take(a.len() as int) =~= a);
    assert(t.skip((a.len() + b.len()) as int) =~= c);
}

/// `MID` takes what there is where more is asked for, and nothing behind the text's end.
pub proof fn parts_stay_in_the_text(args: Seq<Given>, a: Seq<char>, b: Seq<char>, k: int, n: int)
    requires
        text_given(args, 0, a + b),
        count_given(args, 1, k),
        count_given(args, 2, n),
    ensures
        k == a.len() + 1 && n >= b.len() ==> mid_of(args) == say(b),
        k > a.len() + b.len() ==> mid_of(args) == say(Seq::empty()),
        n <= 0 ==> mid_of(args) == say(Seq::empty()),
{
    let t = a + b;
    assert(t.subrange(a.len() as int, t.len() as int) =~= b);
    assert forall|x: int| 0 <= x <= t.len() implies #[trigger] t.subrange(x, x) =~= Seq::empty() by {}
}

/// `FIND` gives the first place of a text in another, counted from 1, from the place on that is
/// asked for, and `#VALUE!` where the text stands nowhere.
pub proof fn texts_are_found(
    args: Seq<Given>,
    needle: Seq<char>,
    hay: Seq<char>,
    start: int,
    p: int,
)
    requires
        text_given(args, 0, needle),
        text_given(args, 1, hay),
        args.len() == 2 && start == 1 || count_given(args, 2, start),
        1 <= start <= hay.len() + 1,
    ensures
        is_first_place(hay, needle, start - 1, p) ==> find_of(args, true) == counted(p + 1),
        is_nowhere(hay, needle, start - 1) ==> find_of(args, true) == failed(FormulaError::Value),
{
    let from = start - 1;
    let sub = hay.skip(from);
    if is_first_place(hay, needle, from, p) {
        assert forall|q: int| 0 <= q <= p - from implies stands(sub, needle, q) == stands(
            hay,
            needle,
            from + q,
        ) by {
            skipped_stands(hay, needle, from, q);
        }
        assert forall|q: int| 0 <= q < p - from implies !#[trigger] stands(sub, needle, q) by {
            assert(!stands(hay, needle, from + q));
        }
        first_place_is_found(sub, needle, 0, p - from);
    }
    if is_nowhere(hay, needle, from) {
        assert forall|q: int| 0 <= q implies !#[trigger] stands(sub, needle, q) by {
            skipped_stands(hay, needle, from, q);
            assert(!stands(hay, needle, from + q));
        }
        nowhere_is_not_found(sub, needle, 0);
    }
}

proof fn skipped_stands(s: Seq<char>, pat: Seq<char>, from: int, q: int)
    requires
        0 <= from <= s.len(),
        0 <= q,
    ensures
        stands(s.skip(from), pat, q) == stands(s, pat, from + q),
{
    let sub = s.skip(from);
    if q + pat.len() <= sub.len() {
        if stands(sub, pat, q) {
            assert forall|i: int| 0 <= i < pat.len() implies #[trigger] s[from + q + i] == pat[i] by {
                assert(sub[q + i] == pat[i]);
            }
        }
        if stands(s, pat, from + q) {
            assert forall|i: int| 0 <= i < pat.len() implies #[trigger] sub[q + i] == pat[i] by {
                assert(s[from + q + i] == pat[i]);
            }
        }
    }
}

/// Whether a text, put in front of another, keeps a third from standing before it.
pub open spec fn ends_first(a: Seq<char>, old_text: Seq<char>, b: Seq<char>) -> bool {
    forall|q: int| 0 <= q < a.len() ==> !#[trigger] stands(a + old_text + b, old_text, q)
}

proof fn later_is_no_first(a: Seq<char>, old_text: Seq<char>, b: Seq<char>)
    requires
        a.len() > 0,
        ends_first(a, old_text, b),
    ensures
        ends_first(a.skip(1), old_text, b),
        (a + old_text + b).skip(1) == a.skip(1) + old_text + b,
        !stands(a + old_text + b, old_text, 0),
{
    let s = a + old_text + b;
    let rest = a.skip(1);
    assert(s.skip(1) =~= rest + old_text + b);
    assert forall|q: int| 0 <= q < rest.len() implies !#[trigger] stands(
        rest + old_text + b,
        old_text,
        q,
    ) by {
        skipped_stands(s, old_text, 1, q);
        assert(!stands(s, old_text, 1 + q));
    }
}

proof fn stands_between(a: Seq<char>, old_text: Seq<char>, b: Seq<char>)
    ensures
        stands(a + old_text + b, old_text, a.len() as int),
        at(a + old_text + b, old_text, a.len() as int),
{
    let s = a + old_text + b;
    assert forall|i: int| 0 <= i < old_text.len() implies #[trigger] s[a.len() + i]
        == old_text[i] by {}
    stands_is(s, old_text, a.len() as int);
}

proof fn put_in_front(c: char, x: Seq<char>, y: Seq<char>, z: Seq<char>)
    ensures
        seq![c] + (x + y + z) == (seq![c] + x) + y + z,
{
    assert(seq![c] + (x + y + z) =~= (seq![c] + x) + y + z);
}

proof fn replaced_here(old_text: Seq<char>, b: Seq<char>, new: Seq<char>)
    requires
        old_text.len() > 0,
    ensures
        replaced(old_text + b, old_text, new) == new + replaced(b, old_text, new),
{
    let s = old_text + b;
    assert(s.subrange(0, old_text.len() as int) =~= old_text);
    assert(s.skip(old_text.len() as int) =~= b);
}

proof fn replaced_first(a: Seq<char>, old_text: Seq<char>, b: Seq<char>, new: Seq<char>)
    requires
        old_text.len() > 0,
        ends_first(a, old_text, b),
    ensures
        replaced(a + old_text + b, old_text, new) == a + new + replaced(b, old_text, new),
    decreases a.len(),
{
    if a.len() == 0 {
        replaced_here(old_text, b, new);
        assert(a + old_text =~= old_text);
        assert(a + new =~= new);
    } else {
        let rest = a.skip(1);
        let s = a + old_text + b;
        later_is_no_first(a, old_text, b);
        stands_is(s, old_text, 0);
        replaced_first(rest, old_text, b, new);
        assert(s[0] == a[0]);
        put_in_front(a[0], rest, new, replaced(b, old_text, new));
        assert(seq![a[0]] + rest =~= a);
        assert(s.len() > 0);
        assert(replaced(s, old_text, new) == seq![s[0]] + replaced(s.skip(1), old_text, new));
    }
}

proof fn replaced_none(s: Seq<char>, old_text: Seq<char>, new: Seq<char>)
    requires
        is_nowhere(s, old_text, 0),
    ensures
        replaced(s, old_text, new) == s,
    decreases s.len(),
{
    if s.len() > 0 {
        stands_is(s, old_text, 0);
        assert(!stands(s, old_text, 0));
        assert forall|q: int| 0 <= q implies !#[trigger] stands(s.skip(1), old_text, q) by {
            skipped_stands(s, old_text, 1, q);
            assert(!stands(s, old_text, 1 + q));
        }
        replaced_none(s.skip(1), old_text, new);
        assert(seq![s[0]] + s.skip(1) =~= s);
    }
}

/// `SUBSTITUTE` puts a text in the place of another wherever that stands: at its first place, and
/// then in what stands behind. A text in which the other does not stand stays as it is.
pub proof fn texts_are_substituted(
    args: Seq<Given>,
    rest: Seq<Given>,
    a: Seq<char>,
    old_text: Seq<char>,
    b: Seq<char>,
    new: Seq<char>,
    after: Seq<char>,
)
    requires
        args.len() == 3,
        text_given(args, 0, a + old_text + b),
        text_given(args, 1, old_text),
        text_given(args, 2, new),
        rest == args.update(0, rest[0]),
        text_given(rest, 0, b),
        old_text.len() > 0,
        ends_first(a, old_text, b),
        substitute_of(rest) == say(after),
    ensures
        substitute_of(args) == say(a + new + after),
        is_nowhere(b, old_text, 0) ==> after == b,
{
    assert(rest[1] == args[1] && rest[2] == args[2]);
    replaced_first(a, old_text, b, new);
    if is_nowhere(b, old_text, 0) {
        replaced_none(b, old_text, new);
    }
}

proof fn find_behind(a: Seq<char>, b: Seq<char>, pat: Seq<char>, from: int)
    requires
        0 <= from,
    ensures
        find(a + b, pat, a.len() + from) == (match find(b, pat, from) {
            Some(p) => Some(a.len() + p),
            None => None,
        }),
    decreases b.len() + 1 - from,
{
    if from <= b.len() {
        assert((a + b).skip(a.len() as int) =~= b);
        skipped_stands(a + b, pat, a.len() as int, from);
        stands_is(a + b, pat, a.len() + from);
        stands_is(b, pat, from);
        if !at(b, pat, from) {
            find_behind(a, b, pat, from + 1);
        }
    }
}

proof fn nth_behind(
    a: Seq<char>,
    b: Seq<char>,
    old_text: Seq<char>,
    new: Seq<char>,
    n: int,
    from: int,
)
    requires
        0 <= from,
    ensures
        nth_replaced(a + b, old_text, new, n, a.len() + from) == a + nth_replaced(
            b,
            old_text,
            new,
            n,
            from,
        ),
    decreases n,
{
    find_behind(a, b, old_text, from);
    crate::find_law::find_on(b, old_text, from);
    match find(b, old_text, from) {
        None => {},
        Some(p) => {
            if n <= 1 {
                assert((a + b).take(a.len() + p) =~= a + b.take(p));
                assert((a + b).skip(a.len() + p + old_text.len()) =~= b.skip(p + old_text.len()));
                assert(a + b.take(p) + new + b.skip(p + old_text.len()) =~= a + (b.take(p) + new
                    + b.skip(p + old_text.len())));
            } else {
                nth_behind(a, b, old_text, new, n - 1, (p + old_text.len()) as int);
            }
        },
    }
}

/// `SUBSTITUTE` with a count puts a text in the place of another at that place alone: at the first
/// where the count is one, and else it keeps the first and goes on behind it with one less.
pub proof fn one_place_is_substituted(
    args: Seq<Given>,
    rest: Seq<Given>,
    a: Seq<char>,
    old_text: Seq<char>,
    b: Seq<char>,
    new: Seq<char>,
    n: int,
    after: Seq<char>,
)
    requires
        args.len() == 4,
        rest.len() == 4,
        text_given(args, 0, a + old_text + b),
        text_given(args, 1, old_text),
        text_given(args, 2, new),
        count_given(args, 3, n),
        text_given(rest, 0, b),
        text_given(rest, 1, old_text),
        text_given(rest, 2, new),
        count_given(rest, 3, n - 1),
        old_text.len() > 0,
        ends_first(a, old_text, b),
        n > 1 ==> substitute_of(rest) == say(after),
    ensures
        n == 1 ==> substitute_of(args) == say(a + new + b),
        n > 1 ==> substitute_of(args) == say(a + old_text + after),
        n < 1 ==> substitute_of(args) == failed(FormulaError::Value),
        n > 1 && is_nowhere(b, old_text, 0) ==> after == b,
{
    let s = a + old_text + b;
    stands_between(a, old_text, b);
    first_place_is_found(s, old_text, 0, a.len() as int);
    assert(s.take(a.len() as int) =~= a);
    assert(s.skip((a.len() + old_text.len()) as int) =~= b);
    if n > 1 {
        nth_behind(a + old_text, b, old_text, new, n - 1, 0);
        if is_nowhere(b, old_text, 0) {
            nowhere_is_not_found(b, old_text, 0);
        }
    }
}

/// `REPT` writes a text one time more for each time more that is asked for: not at all for none,
/// and as it is for one.
pub proof fn texts_are_repeated(args: Seq<Given>, fewer: Seq<Given>, t: Seq<char>, n: int)
    requires
        text_given(args, 0, t),
        count_given(args, 1, n),
        text_given(fewer, 0, t),
        count_given(fewer, 1, n - 1),
    ensures
        n <= 0 ==> rept_of(args) == say(Seq::empty()),
        n == 1 ==> rept_of(args) == say(t),
        n >= 1 ==> (rept_of(fewer) matches Said::Value(FValue::Text(u)) && rept_of(args) == say(
            u + t,
        )),
{
    if n == 1 {
        assert(repeated(t, 0) + t =~= t);
    }
}

proof fn char_again(c: char)
    ensures
        (c as u32) as char == c,
        0 <= c as u32 <= 0x10_FFFF,
        crate::xml::is_scalar((c as u32) as nat),
{
}

/// `EXACT` says whether two texts are the same, `CODE` gives a text's first character, and `CHAR`
/// gives it back.
pub proof fn characters_come_back(args: Seq<Given>, t: Seq<char>, u: Seq<char>, back: Seq<Given>)
    requires
        text_given(args, 0, t),
        text_given(args, 1, u),
    ensures
        exact_of(args) == yes(t == u),
        t.len() > 0 ==> code_of(args) == Said::Int(t[0] as u32 as int),
        t.len() == 0 ==> code_of(args) == failed(FormulaError::Value),
        t.len() > 0 && count_given(back, 0, t[0] as u32 as int) ==> {
            &&& t[0] as u32 > 0 ==> char_of(back, 0x10_FFFF) == say(seq![t[0]])
            &&& 0 < t[0] as u32 <= 255 ==> char_of(back, 255) == say(seq![t[0]])
        },
{
    if t.len() > 0 {
        let c: char = t[0];
        let k: int = c as u32 as int;
        assert(k % 0x1_0000_0000 == k);
        char_again(c);
    }
}

proof fn spaced_word(s: Seq<char>, w: Seq<char>)
    requires
        forall|i: int| 0 <= i < w.len() ==> #[trigger] w[i] != ' ',
    ensures
        single_spaced(s + w) == single_spaced(s) + w,
    decreases w.len(),
{
    if w.len() > 0 {
        let u = w.drop_last();
        spaced_word(s, u);
        assert((s + w).drop_last() =~= s + u);
        assert((s + w).last() == w[w.len() - 1]);
        assert((single_spaced(s) + u).push(w.last()) =~= single_spaced(s) + w);
    } else {
        assert(s + w =~= s);
        assert(single_spaced(s) + w =~= single_spaced(s));
    }
}

/// Some spaces.
pub open spec fn spaces(n: nat) -> Seq<char> {
    Seq::new(n, |i: int| ' ')
}

proof fn spaced_gap(s: Seq<char>, n: nat)
    requires
        n > 0,
        s.len() > 0 ==> s.last() != ' ',
    ensures
        single_spaced(s + spaces(n)) == single_spaced(s).push(' '),
    decreases n,
{
    let t = s + spaces(n);
    let m = (n - 1) as nat;
    assert(t.drop_last() =~= s + spaces(m));
    assert(t.last() == ' ');
    if n > 1 {
        spaced_gap(s, m);
        assert(t[t.len() - 2] == ' ');
    } else {
        assert(s + spaces(m) =~= s);
        if t.len() > 1 {
            assert(t[t.len() - 2] == s[s.len() - 1]);
        }
    }
}

/// Words with some spaces in front of each.
pub open spec fn words_out(words: Seq<Seq<char>>, gaps: Seq<nat>) -> Seq<char>
    decreases words.len(),
{
    if words.len() == 0 {
        Seq::empty()
    } else {
        words_out(words.drop_last(), gaps) + spaces(gaps[words.len() - 1]) + words.last()
    }
}

/// Whether each text is a word: something without a space in it.
pub open spec fn are_words(words: Seq<Seq<char>>) -> bool {
    forall|i: int| 0 <= i < words.len() ==> is_word(#[trigger] words[i])
}

pub open spec fn is_word(w: Seq<char>) -> bool {
    w.len() > 0 && forall|i: int| 0 <= i < w.len() ==> #[trigger] w[i] != ' '
}

/// Words with one space between them.
pub open spec fn sentence(words: Seq<Seq<char>>) -> Seq<char>
    decreases words.len(),
{
    if words.len() == 0 {
        Seq::empty()
    } else if words.len() == 1 {
        words[0]
    } else {
        sentence(words.drop_last()) + seq![' '] + words.last()
    }
}

proof fn sentence_ends(words: Seq<Seq<char>>)
    requires
        are_words(words),
        words.len() > 0,
    ensures
        sentence(words).len() > 0,
        sentence(words)[0] != ' ',
        sentence(words).last() != ' ',
    decreases words.len(),
{
    let w = words.last();
    assert(is_word(words[words.len() - 1]));
    if words.len() > 1 {
        let fore = words.drop_last();
        assert forall|i: int| 0 <= i < fore.len() implies is_word(#[trigger] fore[i]) by {
            assert(is_word(words[i]));
        }
        sentence_ends(fore);
        let s = sentence(words);
        assert(s[0] == sentence(fore)[0]);
        assert(s.last() == w[w.len() - 1]);
    } else {
        assert(words[0] == w);
        assert(w.last() == w[w.len() - 1]);
    }
}

proof fn words_spaced(words: Seq<Seq<char>>, gaps: Seq<nat>)
    requires
        are_words(words),
        words.len() > 0,
        gaps.len() >= words.len(),
        forall|i: int| 0 < i < words.len() ==> #[trigger] gaps[i] > 0,
    ensures
        single_spaced(words_out(words, gaps)) == (if gaps[0] > 0 {
            seq![' ']
        } else {
            Seq::empty()
        }) + sentence(words),
        words_out(words, gaps).len() > 0,
        words_out(words, gaps).last() != ' ',
    decreases words.len(),
{
    let k = words.len() - 1;
    let w = words.last();
    let fore = words.drop_last();
    let s = words_out(fore, gaps);
    let lead: Seq<char> = if gaps[0] > 0 {
        seq![' ']
    } else {
        Seq::empty()
    };
    assert(is_word(words[k]));
    let mid = s + spaces(gaps[k]);
    spaced_word(mid, w);
    assert(words_out(words, gaps) == mid + w);
    assert((mid + w).last() == w[w.len() - 1]);
    if k == 0 {
        assert(words[0] == w);
        assert(s =~= Seq::empty());
        if gaps[0] > 0 {
            spaced_gap(s, gaps[0]);
            assert(single_spaced(s) =~= Seq::empty());
            assert(single_spaced(mid) =~= lead);
        } else {
            assert(mid =~= Seq::empty());
            assert(single_spaced(mid) =~= lead);
        }
    } else {
        assert forall|i: int| 0 <= i < fore.len() implies is_word(#[trigger] fore[i]) by {
            assert(is_word(words[i]));
        }
        words_spaced(fore, gaps);
        assert(gaps[k] > 0);
        spaced_gap(s, gaps[k]);
        assert((lead + sentence(fore)).push(' ') + w =~= lead + (sentence(fore) + seq![' '] + w));
    }
}

proof fn ends_are_trimmed(t: Seq<char>, before: bool, behind: bool)
    requires
        t.len() > 0,
        t[0] != ' ',
        t.last() != ' ',
    ensures
        ({
            let inner = if behind {
                t.push(' ')
            } else {
                t
            };
            trim_char(
                if before {
                    seq![' '] + inner
                } else {
                    inner
                },
                ' ',
            ) == t
        }),
{
    let inner = if behind {
        t.push(' ')
    } else {
        t
    };
    let u = seq![' '] + inner;
    assert(inner[0] == t[0]);
    assert(trim_start_char(inner, ' ') == inner);
    assert(u.skip(1) =~= inner);
    assert(u[0] == ' ');
    assert(trim_start_char(u, ' ') == trim_start_char(u.skip(1), ' '));
    assert(trim_end_char(t, ' ') == t);
    if behind {
        assert(inner.drop_last() =~= t);
        assert(inner.last() == ' ');
        assert(trim_end_char(inner, ' ') == trim_end_char(inner.drop_last(), ' '));
    }
}

/// `TRIM` leaves the words of a text with one space between them, and no space at either end.
pub proof fn words_are_trimmed(
    args: Seq<Given>,
    words: Seq<Seq<char>>,
    gaps: Seq<nat>,
    end: nat,
)
    requires
        text_given(args, 0, words_out(words, gaps) + spaces(end)),
        are_words(words),
        words.len() > 0,
        gaps.len() >= words.len(),
        forall|i: int| 0 < i < words.len() ==> #[trigger] gaps[i] > 0,
    ensures
        change_of(args, Change::Trim) == say(sentence(words)),
{
    let s = words_out(words, gaps);
    let t = sentence(words);
    words_spaced(words, gaps);
    sentence_ends(words);
    let full = s + spaces(end);
    if end > 0 {
        spaced_gap(s, end);
    } else {
        assert(full =~= s);
    }
    let inner = if end > 0 {
        t.push(' ')
    } else {
        t
    };
    ends_are_trimmed(t, gaps[0] > 0, end > 0);
    if gaps[0] > 0 {
        assert(single_spaced(full) =~= seq![' '] + inner);
    } else {
        assert(single_spaced(full) =~= inner);
    }
}

/// What a letter or another character becomes by what stands in front of it.
pub open spec fn in_proper(s: Seq<char>, i: int) -> Seq<char> {
    if !alphabetic(s[i]) {
        seq![s[i]]
    } else if i > 0 && alphabetic(s[i - 1]) {
        lower(seq![s[i]])
    } else {
        upper(seq![s[i]])
    }
}

proof fn proper_pieces(s: Seq<char>)
    ensures
        proper_of(s) == Seq::new(s.len(), |i: int| in_proper(s, i)).flatten(),
    decreases s.len(),
{
    let all = Seq::new(s.len(), |i: int| in_proper(s, i));
    if s.len() == 0 {
        assert(all =~= Seq::empty());
        assert(all.flatten() =~= Seq::empty());
    } else {
        let u = s.drop_last();
        let fore = Seq::new(u.len(), |i: int| in_proper(u, i));
        proper_pieces(u);
        assert(all =~= fore.push(in_proper(s, s.len() - 1)));
        fore.lemma_flatten_push(in_proper(s, s.len() - 1));
        assert(proper_of(u) + seq![s.last()] =~= proper_of(u).push(s.last()));
    }
}

/// `PROPER` writes a letter in capitals where no letter stands in front of it, and small where one
/// does; other characters stay.
pub proof fn words_start_in_capitals(args: Seq<Given>, t: Seq<char>)
    requires
        text_given(args, 0, t),
    ensures
        change_of(args, Change::Proper) == say(
            Seq::new(t.len(), |i: int| in_proper(t, i)).flatten(),
        ),
        change_of(args, Change::Upper) == say(upper(t)),
        change_of(args, Change::Lower) == say(lower(t)),
{
    proper_pieces(t);
}

/// `CLEAN` leaves out the characters below the space and keeps the others in their order.
pub proof fn controls_are_cleaned_out(
    args: Seq<Given>,
    more: Seq<Given>,
    t: Seq<char>,
    c: char,
    rest: Seq<char>,
)
    requires
        text_given(args, 0, t),
        text_given(more, 0, t.push(c)),
        change_of(args, Change::Clean) == say(rest),
    ensures
        c as u32 >= 32 ==> change_of(more, Change::Clean) == say(rest.push(c)),
        (c as u32) < 32 ==> change_of(more, Change::Clean) == say(rest),
        t.len() == 0 ==> rest.len() == 0,
{
    assert(t.push(c).drop_last() =~= t);
    assert(t.push(c).last() == c);
}

/// How many places before `n` there are where a text stands in another.
pub open spec fn places_before(s: Seq<char>, pat: Seq<char>, n: int) -> int
    decreases n,
{
    if n <= 0 {
        0
    } else if stands(s, pat, n - 1) {
        places_before(s, pat, n - 1) + 1
    } else {
        places_before(s, pat, n - 1)
    }
}

proof fn places_counted(s: Seq<char>, pat: Seq<char>, n: int, p: int)
    requires
        0 <= n,
    ensures
        places_of(s, pat, n).len() == places_before(s, pat, n),
        0 <= p < n && stands(s, pat, p) ==> 0 <= places_before(s, pat, p) < places_of(s, pat, n).len()
            && places_of(s, pat, n)[places_before(s, pat, p)] == p,
        places_before(s, pat, n) >= 0,
    decreases n,
{
    if n > 0 {
        stands_is(s, pat, n - 1);
        places_counted(s, pat, n - 1, p);
    }
}

/// `TEXTBEFORE` and `TEXTAFTER` part a text at a place where a mark stands: at the one with as many
/// places before it as the count says, less one, or, counted from the end, with as many from it
/// on. What comes before, the mark and what comes after make the text again.
pub proof fn marks_part_a_text(
    args: Seq<Given>,
    a: Seq<char>,
    mark: Seq<char>,
    b: Seq<char>,
    k: int,
)
    requires
        text_given(args, 0, a + mark + b),
        text_given(args, 1, mark),
        mark.len() > 0,
        args.len() == 2 && k == 1 || count_given(args, 2, k),
        ({
            let t = a + mark + b;
            let fore = places_before(t, mark, a.len() as int);
            k > 0 && fore == k - 1 || k < 0 && places_before(t, mark, t.len() as int) - fore == -k
        }),
    ensures
        text_split_of(args, true) == say(a),
        text_split_of(args, false) == say(b),
{
    let t = a + mark + b;
    let p = a.len() as int;
    stands_between(a, mark, b);
    places_counted(t, mark, t.len() as int, p);
    assert(t.take(p) =~= a);
    assert(t.skip(p + mark.len()) =~= b);
    if args.len() == 2 {
        crate::reading_law::one_is_one();
    }
}

/// A text in which the mark does not stand gives what is to stand for it, `#N/A` where nothing is.
pub proof fn missing_marks_part_nothing(
    args: Seq<Given>,
    t: Seq<char>,
    mark: Seq<char>,
    before: bool,
)
    requires
        text_given(args, 0, t),
        text_given(args, 1, mark),
        mark.len() > 0,
        args.len() == 2 || count_given(args, 2, 1),
        places_before(t, mark, t.len() as int) == 0,
    ensures
        args.len() <= 3 ==> text_split_of(args, before) == failed(FormulaError::Na),
        args.len() > 3 && (args[3] is One) ==> text_split_of(args, before) == Said::Value(
            args[3]->One_0.value,
        ),
{
    places_counted(t, mark, t.len() as int, 0);
}

/// Whether arguments are texts.
pub open spec fn texts_given(args: Seq<Given>, from: int, ts: Seq<Seq<char>>) -> bool {
    args.len() == from + ts.len() && forall|i: int|
        0 <= i < ts.len() ==> text_given(args, from + i, #[trigger] ts[i])
}

proof fn all_texts(args: Seq<Given>, ts: Seq<Seq<char>>, skip_blank: bool)
    requires
        texts_given(args, 0, ts),
        forall|i: int| 0 <= i < ts.len() ==> (#[trigger] ts[i]).len() > 0,
    ensures
        texts_in(everything(args), skip_blank) == Ok::<Seq<Seq<char>>, FormulaError>(ts),
    decreases ts.len(),
{
    if ts.len() == 0 {
        assert(ts =~= Seq::empty());
    } else {
        let k = ts.len() - 1;
        let fore = args.drop_last();
        let less = ts.drop_last();
        assert forall|i: int| 0 <= i < less.len() implies text_given(fore, 0 + i, #[trigger] less[i]) by {
            assert(text_given(args, 0 + i, ts[i]));
        }
        assert forall|i: int| 0 <= i < less.len() implies (#[trigger] less[i]).len() > 0 by {
            assert(ts[i].len() > 0);
        }
        all_texts(fore, less, skip_blank);
        assert(text_given(args, 0 + k, ts[k]));
        let r = args[k]->One_0;
        let vs = everything(args);
        assert(vs =~= everything(fore).push(r));
        assert(vs.drop_last() =~= everything(fore));
        assert(ts =~= less.push(ts[k]));
    }
}

proof fn cat_is(ts: Seq<Seq<char>>)
    ensures
        cat(ts) == ts.flatten(),
    decreases ts.len(),
{
    if ts.len() == 0 {
        assert(ts =~= Seq::empty());
        assert(ts.flatten() =~= Seq::empty());
    } else {
        let fore = ts.drop_last();
        cat_is(fore);
        fore.lemma_flatten_push(ts.last());
        assert(fore.push(ts.last()) =~= ts);
    }
}

/// `CONCATENATE` writes texts one behind the other.
pub proof fn texts_are_concatenated(args: Seq<Given>, ts: Seq<Seq<char>>)
    requires
        texts_given(args, 0, ts),
        forall|i: int| 0 <= i < ts.len() ==> (#[trigger] ts[i]).len() > 0,
    ensures
        concatenate_of(args) == say(ts.flatten()),
{
    all_texts(args, ts, false);
    cat_is(ts);
}

/// `TEXTJOIN` puts one text more behind those before it, with the mark between them.
pub proof fn texts_are_joined(
    args: Seq<Given>,
    more: Seq<Given>,
    mark: Seq<char>,
    skip: bool,
    ts: Seq<Seq<char>>,
    t: Seq<char>,
    before: Seq<char>,
)
    requires
        text_given(args, 0, mark),
        args.len() >= 2,
        args[1] matches Given::One(r) && r.value == FValue::Bool(skip),
        texts_given(args, 2, ts),
        forall|i: int| 0 <= i < ts.len() ==> (#[trigger] ts[i]).len() > 0,
        t.len() > 0,
        more.len() == args.len() + 1,
        more.drop_last() == args,
        text_given(more, args.len() as int, t),
        textjoin_of(args) == say(before),
    ensures
        ts.len() == 0 ==> before == Seq::<char>::empty() && textjoin_of(more) == say(t),
        ts.len() > 0 ==> textjoin_of(more) == say(before + mark + t),
{
    let tail = args.skip(2);
    assert forall|i: int| 0 <= i < ts.len() implies text_given(tail, 0 + i, #[trigger] ts[i]) by {
        assert(text_given(args, 2 + i, ts[i]));
    }
    all_texts(tail, ts, skip);
    let longer = ts.push(t);
    let tail2 = more.skip(2);
    assert forall|i: int| 0 <= i < longer.len() implies text_given(
        tail2,
        0 + i,
        #[trigger] longer[i],
    ) by {
        if i < ts.len() {
            assert(text_given(args, 2 + i, ts[i]));
            assert(more[2 + i] == args[2 + i]);
        }
    }
    assert forall|i: int| 0 <= i < longer.len() implies (#[trigger] longer[i]).len() > 0 by {
        if i < ts.len() {
            assert(ts[i].len() > 0);
        }
    }
    assert(more[0] == args[0] && more[1] == args[1]);
    all_texts(tail2, longer, skip);
    assert(longer.drop_last() =~= ts);
}

proof fn grouped_len(s: Seq<char>, done: int)
    requires
        0 <= done <= s.len(),
    ensures
        grouped(s, done).len() >= done,
    decreases done,
{
    if done > 0 {
        grouped_len(s, done - 1);
    }
}

/// Digits in groups of three: a digit more in front keeps the groups behind it, and a comma stands
/// in front of them where they are whole.
pub proof fn digits_stand_in_threes(s: Seq<char>, c: char)
    ensures
        grouped(seq![c] + s, (s.len() + 1) as int) == (if s.len() > 0 && s.len() % 3 == 0 {
            seq![c, ',']
        } else {
            seq![c]
        }) + grouped(s, s.len() as int),
        grouped(s, s.len() as int).len() == 0 <==> s.len() == 0,
{
    digit_in_front(s, c, s.len() as int);
    grouped_len(s, s.len() as int);
}

proof fn digit_in_front(s: Seq<char>, c: char, done: int)
    requires
        0 <= done <= s.len(),
    ensures
        grouped(seq![c] + s, done + 1) == (if done > 0 && s.len() % 3 == 0 {
            seq![c, ',']
        } else {
            seq![c]
        }) + grouped(s, done),
    decreases done,
{
    let t = seq![c] + s;
    if done == 0 {
        reveal_with_fuel(grouped, 2);
        assert(t[0] == c);
        assert(grouped(t, 1) =~= seq![c]);
        assert(grouped(s, 0) =~= Seq::empty());
    } else {
        digit_in_front(s, c, done - 1);
        assert(t[done] == s[done - 1]);
        assert(t.len() - done == s.len() - (done - 1));
        if done == 1 {
            assert(grouped(s, 0) =~= Seq::empty());
        }
    }
}

} // verus!
