//! Functions on texts.
use crate::pattern::{wild_place, wildcard_place};
use crate::reading::{
    arg_at, counted, everything, failed, given, given_from, nth, num, num_or, number_at, number_or,
    read_seq, say, text_at, truncated, truth, truth_at, txt, values_from, whole, yes, Arg, Given,
    Read, Reading, Reply, Said,
};
use crate::scan::{at, find, find_text, stands_at};
use crate::text::{
    alphabetic, cat, chars_of, concat_texts, join, join_texts, lower, same_text, slice_string,
    texts, trim_char, trim_char_of, trim_text, trimmed, upper,
};
use crate::value::{blank, FValue, FormulaError, FormulaValue, Num};
use crate::xml::{is_scalar, replace_all, replaced};
use vstd::prelude::*;

verus! {

/// The texts of some values, or the first error among them; blank values are left out where
/// `skip_blank` says so.
pub open spec fn texts_in(vs: Seq<Read>, skip_blank: bool) -> Result<Seq<Seq<char>>, FormulaError>
    decreases vs.len(),
{
    if vs.len() == 0 {
        Ok(Seq::empty())
    } else {
        match texts_in(vs.drop_last(), skip_blank) {
            Err(e) => Err(e),
            Ok(ts) => if skip_blank && blank(vs.last().value) {
                Ok(ts)
            } else {
                match txt(vs.last()) {
                    Ok(t) => Ok(ts.push(t)),
                    Err(e) => Err(e),
                }
            },
        }
    }
}

fn collect_texts(vs: &Vec<Reading>, skip_blank: bool) -> (r: Result<Vec<String>, FormulaError>)
    ensures
        match texts_in(read_seq(vs@), skip_blank) {
            Ok(ts) => r matches Ok(v) && texts(v@) == ts,
            Err(e) => r == Err::<Vec<String>, _>(e),
        },
{
    let ghost all = read_seq(vs@);
    let mut out: Vec<String> = Vec::new();
    let mut error: Option<FormulaError> = None;
    let mut i: usize = 0;
    assert(texts(out@) =~= Seq::empty());
    assert(all.take(0).len() == 0);
    while i < vs.len()
        invariant
            i <= vs.len(),
            all == read_seq(vs@),
            match texts_in(all.take(i as int), skip_blank) {
                Ok(ts) => error is None && texts(out@) == ts,
                Err(e) => error == Some(e),
            },
        decreases vs.len() - i,
    {
        let ghost before = texts(out@);
        assert(all.take(i + 1).drop_last() =~= all.take(i as int));
        assert(all.take(i + 1).last() == vs@[i as int]@);
        if error.is_none() && !(skip_blank && vs[i].value.is_blank()) {
            match vs[i].text() {
                Ok(t) => {
                    let ghost tv = t@;
                    out.push(t);
                    assert(texts(out@) =~= before.push(tv));
                },
                Err(e) => {
                    error = Some(e);
                },
            }
        }
        i = i + 1;
    }
    assert(all.take(i as int) =~= all);
    match error {
        Some(e) => Err(e),
        None => Ok(out),
    }
}

/// `CONCATENATE`: all values' texts, one behind the other.
pub open spec fn concatenate_of(args: Seq<Given>) -> Said {
    match texts_in(everything(args), false) {
        Err(e) => failed(e),
        Ok(ts) => say(cat(ts)),
    }
}

pub fn f_concatenate(args: &Vec<Arg>) -> (r: Reply)
    ensures
        r@ == concatenate_of(given(args@)),
{
    assert(given_from(given(args@), 0) =~= given(args@));
    let vs: Vec<Reading> = values_from(args, 0);
    match collect_texts(&vs, false) {
        Err(e) => Reply::error(e),
        Ok(ts) => Reply::text(concat_texts(&ts)),
    }
}

/// `TEXTJOIN`: the texts of the values from the third argument on, with the first argument
/// between them; the second says whether blank values are left out.
pub open spec fn textjoin_of(args: Seq<Given>) -> Said {
    match txt(nth(args, 0)) {
        Err(e) => failed(e),
        Ok(delim) => match truth(nth(args, 1)) {
            Err(e) => failed(e),
            Ok(skip) => match texts_in(everything(given_from(args, 2)), skip) {
                Err(e) => failed(e),
                Ok(ts) => say(join(ts, delim)),
            },
        },
    }
}

pub fn textjoin(args: &Vec<Arg>) -> (r: Reply)
    ensures
        r@ == textjoin_of(given(args@)),
{
    let delim: String = match text_at(args, 0) {
        Ok(t) => t,
        Err(e) => {
            return Reply::error(e);
        },
    };
    let skip: bool = match truth_at(args, 1) {
        Ok(b) => b,
        Err(e) => {
            return Reply::error(e);
        },
    };
    let vs: Vec<Reading> = values_from(args, 2);
    match collect_texts(&vs, skip) {
        Err(e) => Reply::error(e),
        Ok(ts) => Reply::text(join_texts(&ts, delim.as_str())),
    }
}

/// A count of characters held between none and `len`.
pub open spec fn held(k: int, len: int) -> int {
    if k < 0 {
        0
    } else if k > len {
        len
    } else {
        k
    }
}

fn hold(k: i64, len: usize) -> (r: usize)
    ensures
        r == held(k as int, len as int),
{
    if k < 0 {
        0
    } else if (k as u64) > len as u64 {
        len
    } else {
        k as usize
    }
}

/// The first argument's text and the second's count, which is 1 where it is not given.
pub open spec fn text_and_count(args: Seq<Given>) -> Result<(Seq<char>, int), FormulaError> {
    match txt(nth(args, 0)) {
        Err(e) => Err(e),
        Ok(t) => if args.len() > 1 {
            match num(nth(args, 1)) {
                Err(e) => Err(e),
                Ok(n) => Ok((t, truncated(n))),
            }
        } else {
            Ok((t, 1))
        },
    }
}

fn read_text_and_count(args: &Vec<Arg>) -> (r: Result<(String, i64), FormulaError>)
    ensures
        match text_and_count(given(args@)) {
            Err(e) => r == Err::<(String, i64), _>(e),
            Ok((t, k)) => r matches Ok((s, n)) && s@ == t && n == k,
        },
{
    let t: String = match text_at(args, 0) {
        Ok(t) => t,
        Err(e) => {
            return Err(e);
        },
    };
    if args.len() > 1 {
        match number_at(args, 1) {
            Ok(n) => Ok((t, whole(n))),
            Err(e) => Err(e),
        }
    } else {
        Ok((t, 1))
    }
}

/// `LEFT`.
pub open spec fn left_of(args: Seq<Given>) -> Said {
    match text_and_count(args) {
        Err(e) => failed(e),
        Ok((t, k)) => say(t.take(held(k, t.len() as int))),
    }
}

pub fn f_left(args: &Vec<Arg>) -> (r: Reply)
    ensures
        r@ == left_of(given(args@)),
{
    match read_text_and_count(args) {
        Err(e) => Reply::error(e),
        Ok((t, k)) => {
            let chars: Vec<char> = chars_of(t.as_str());
            let n: usize = hold(k, chars.len());
            let s: String = slice_string(&chars, 0, n);
            assert(s@ =~= t@.take(n as int));
            Reply::text(s)
        },
    }
}

/// `RIGHT`.
pub open spec fn right_of(args: Seq<Given>) -> Said {
    match text_and_count(args) {
        Err(e) => failed(e),
        Ok((t, k)) => say(t.skip(t.len() - held(k, t.len() as int))),
    }
}

pub fn f_right(args: &Vec<Arg>) -> (r: Reply)
    ensures
        r@ == right_of(given(args@)),
{
    match read_text_and_count(args) {
        Err(e) => Reply::error(e),
        Ok((t, k)) => {
            let chars: Vec<char> = chars_of(t.as_str());
            let n: usize = hold(k, chars.len());
            let s: String = slice_string(&chars, chars.len() - n, chars.len());
            assert(s@ =~= t@.skip(t@.len() - n));
            Reply::text(s)
        },
    }
}

/// A text and two whole numbers.
pub open spec fn text_and_span(args: Seq<Given>) -> Result<(Seq<char>, int, int), FormulaError> {
    match txt(nth(args, 0)) {
        Err(e) => Err(e),
        Ok(t) => match num(nth(args, 1)) {
            Err(e) => Err(e),
            Ok(a) => match num(nth(args, 2)) {
                Err(e) => Err(e),
                Ok(b) => Ok((t, truncated(a), truncated(b))),
            },
        },
    }
}

fn read_text_and_span(args: &Vec<Arg>) -> (r: Result<(String, i64, i64), FormulaError>)
    ensures
        match text_and_span(given(args@)) {
            Err(e) => r == Err::<(String, i64, i64), _>(e),
            Ok((t, a, b)) => r matches Ok((s, x, y)) && s@ == t && x == a && y == b,
        },
{
    let t: String = match text_at(args, 0) {
        Ok(t) => t,
        Err(e) => {
            return Err(e);
        },
    };
    let a: i64 = match number_at(args, 1) {
        Ok(n) => whole(n),
        Err(e) => {
            return Err(e);
        },
    };
    match number_at(args, 2) {
        Ok(n) => Ok((t, a, whole(n))),
        Err(e) => Err(e),
    }
}

/// Where a part of a text starts that begins at the character `start`, counted from 1, held
/// within the text.
pub open spec fn part_start(start: int, len: int) -> int {
    held(
        if start < 1 {
            0
        } else {
            start - 1
        },
        len,
    )
}

/// Where the part ends that is `count` characters long.
pub open spec fn part_end(start: int, count: int, len: int) -> int {
    part_start(start, len) + held(count, len - part_start(start, len))
}

fn find_part(start: i64, count: i64, len: usize) -> (r: (usize, usize))
    ensures
        r.0 == part_start(start as int, len as int),
        r.1 == part_end(start as int, count as int, len as int),
        r.0 <= r.1 <= len,
{
    let from: usize = hold(
        if start < 1 {
            0
        } else {
            start - 1
        },
        len,
    );
    let n: usize = hold(count, len - from);
    (from, from + n)
}

/// `MID`.
pub open spec fn mid_of(args: Seq<Given>) -> Said {
    match text_and_span(args) {
        Err(e) => failed(e),
        Ok((t, start, count)) => say(
            t.subrange(part_start(start, t.len() as int), part_end(start, count, t.len() as int)),
        ),
    }
}

pub fn f_mid(args: &Vec<Arg>) -> (r: Reply)
    ensures
        r@ == mid_of(given(args@)),
{
    match read_text_and_span(args) {
        Err(e) => Reply::error(e),
        Ok((t, start, count)) => {
            let chars: Vec<char> = chars_of(t.as_str());
            let (a, b) = find_part(start, count, chars.len());
            Reply::text(slice_string(&chars, a, b))
        },
    }
}

/// `REPLACE`: a text with a part of it replaced.
pub open spec fn replace_of(args: Seq<Given>) -> Said {
    match text_and_span(args) {
        Err(e) => failed(e),
        Ok((t, start, count)) => match txt(nth(args, 3)) {
            Err(e) => failed(e),
            Ok(new) => say(
                t.take(part_start(start, t.len() as int)) + new + t.skip(
                    part_end(start, count, t.len() as int),
                ),
            ),
        },
    }
}

pub fn replace_fn(args: &Vec<Arg>) -> (r: Reply)
    ensures
        r@ == replace_of(given(args@)),
{
    match read_text_and_span(args) {
        Err(e) => Reply::error(e),
        Ok((t, start, count)) => {
            let new: String = match text_at(args, 3) {
                Ok(n) => n,
                Err(e) => {
                    return Reply::error(e);
                },
            };
            let chars: Vec<char> = chars_of(t.as_str());
            let (a, b) = find_part(start, count, chars.len());
            let mut out: String = slice_string(&chars, 0, a);
            let tail: String = slice_string(&chars, b, chars.len());
            out.append(new.as_str());
            out.append(tail.as_str());
            assert(out@ =~= t@.take(a as int) + new@ + t@.skip(b as int));
            Reply::text(out)
        },
    }
}

/// `LEN`.
pub open spec fn len_of(args: Seq<Given>) -> Said {
    match txt(nth(args, 0)) {
        Err(e) => failed(e),
        Ok(t) => counted(t.len() as int),
    }
}

pub fn f_len(args: &Vec<Arg>) -> (r: Reply)
    ensures
        r@ == len_of(given(args@)),
{
    match text_at(args, 0) {
        Err(e) => Reply::error(e),
        Ok(t) => Reply::count(chars_of(t.as_str()).len()),
    }
}

/// A text with each run of spaces made one.
pub open spec fn single_spaced(s: Seq<char>) -> Seq<char>
    decreases s.len(),
{
    if s.len() == 0 {
        s
    } else {
        let rest = single_spaced(s.drop_last());
        if s.last() == ' ' && s.len() > 1 && s[s.len() - 2] == ' ' {
            rest
        } else {
            rest.push(s.last())
        }
    }
}

/// A text with each run of spaces made one, and none at either end.
pub fn collapse_spaces(s: &str) -> (r: String)
    ensures
        r@ == trim_char(single_spaced(s@), ' '),
{
    let chars: Vec<char> = chars_of(s);
    let mut out: Vec<char> = Vec::new();
    let mut prev_space: bool = false;
    let mut i: usize = 0;
    assert(out@ =~= single_spaced(s@.take(0)));
    while i < chars.len()
        invariant
            i <= chars.len(),
            chars@ == s@,
            out@ == single_spaced(s@.take(i as int)),
            prev_space == (i > 0 && s@[i - 1] == ' '),
        decreases chars.len() - i,
    {
        let c: char = chars[i];
        assert(s@.take(i + 1).drop_last() =~= s@.take(i as int));
        assert(s@.take(i + 1).last() == c);
        if c == ' ' {
            if !prev_space {
                out.push(' ');
            }
            prev_space = true;
        } else {
            out.push(c);
            prev_space = false;
        }
        i = i + 1;
    }
    assert(s@.take(i as int) =~= s@);
    let r: String = trim_char_of(&out, 0, out.len(), ' ');
    assert(out@.subrange(0, out@.len() as int) =~= out@);
    r
}

/// A change that a function makes to a text.
#[derive(Debug, Clone, Copy, PartialEq, Eq, Structural)]
pub enum Change {
    Trim,
    Upper,
    Lower,
    Proper,
    Clean,
}

/// A text with each run of letters starting in a capital and going on in small letters.
pub open spec fn proper_of(s: Seq<char>) -> Seq<char>
    decreases s.len(),
{
    if s.len() == 0 {
        s
    } else {
        let rest = proper_of(s.drop_last());
        if alphabetic(s.last()) {
            if s.len() > 1 && alphabetic(s[s.len() - 2]) {
                rest + lower(seq![s.last()])
            } else {
                rest + upper(seq![s.last()])
            }
        } else {
            rest.push(s.last())
        }
    }
}

/// A text with each run of letters starting in a capital and going on in small letters.
pub fn proper(s: &str) -> (r: String)
    ensures
        r@ == proper_of(s@),
{
    let chars: Vec<char> = chars_of(s);
    let mut out: String = String::new();
    let mut prev_alpha: bool = false;
    let mut i: usize = 0;
    assert(out@ =~= proper_of(s@.take(0)));
    while i < chars.len()
        invariant
            i <= chars.len(),
            chars@ == s@,
            out@ == proper_of(s@.take(i as int)),
            prev_alpha == (i > 0 && alphabetic(s@[i - 1])),
        decreases chars.len() - i,
    {
        let c: char = chars[i];
        assert(s@.take(i + 1).drop_last() =~= s@.take(i as int));
        assert(s@.take(i + 1).last() == c);
        if c.is_alphabetic() {
            let mut one: String = String::new();
            one.push(c);
            assert(one@ =~= seq![c]);
            let t: String = if prev_alpha {
                one.as_str().to_lowercase()
            } else {
                one.as_str().to_uppercase()
            };
            out.append(t.as_str());
            prev_alpha = true;
        } else {
            out.push(c);
            prev_alpha = false;
        }
        i = i + 1;
    }
    assert(s@.take(i as int) =~= s@);
    out
}

/// A text without the characters below the space.
pub open spec fn cleaned(s: Seq<char>) -> Seq<char>
    decreases s.len(),
{
    if s.len() == 0 {
        s
    } else if s.last() as u32 >= 32 {
        cleaned(s.drop_last()).push(s.last())
    } else {
        cleaned(s.drop_last())
    }
}

fn clean(s: &str) -> (r: String)
    ensures
        r@ == cleaned(s@),
{
    let chars: Vec<char> = chars_of(s);
    let mut out: String = String::new();
    let mut i: usize = 0;
    assert(out@ =~= cleaned(s@.take(0)));
    while i < chars.len()
        invariant
            i <= chars.len(),
            chars@ == s@,
            out@ == cleaned(s@.take(i as int)),
        decreases chars.len() - i,
    {
        let c: char = chars[i];
        assert(s@.take(i + 1).drop_last() =~= s@.take(i as int));
        assert(s@.take(i + 1).last() == c);
        if c as u32 >= 32 {
            out.push(c);
        }
        i = i + 1;
    }
    assert(s@.take(i as int) =~= s@);
    out
}

/// What a change makes of a text.
pub open spec fn changed(s: Seq<char>, how: Change) -> Seq<char> {
    match how {
        Change::Trim => trim_char(single_spaced(s), ' '),
        Change::Upper => upper(s),
        Change::Lower => lower(s),
        Change::Proper => proper_of(s),
        Change::Clean => cleaned(s),
    }
}

/// `TRIM`, `UPPER`, `LOWER`, `PROPER` and `CLEAN`.
pub open spec fn change_of(args: Seq<Given>, how: Change) -> Said {
    match txt(nth(args, 0)) {
        Err(e) => failed(e),
        Ok(t) => say(changed(t, how)),
    }
}

/// `TRIM`, `UPPER`, `LOWER`, `PROPER` and `CLEAN`.
pub fn change_text(args: &Vec<Arg>, how: Change) -> (r: Reply)
    ensures
        r@ == change_of(given(args@), how),
{
    match text_at(args, 0) {
        Err(e) => Reply::error(e),
        Ok(t) => Reply::text(
            match how {
                Change::Trim => collapse_spaces(t.as_str()),
                Change::Upper => t.as_str().to_uppercase(),
                Change::Lower => t.as_str().to_lowercase(),
                Change::Proper => proper(t.as_str()),
                Change::Clean => clean(t.as_str()),
            },
        ),
    }
}

/// A text with the `n`-th place at or behind `from` where `old` stands, places not overlapping,
/// replaced by `new`.
pub open spec fn nth_replaced(
    s: Seq<char>,
    old: Seq<char>,
    new: Seq<char>,
    n: int,
    from: int,
) -> Seq<char>
    decreases n,
{
    match find(s, old, from) {
        None => s,
        Some(p) => if n <= 1 {
            s.take(p) + new + s.skip(p + old.len())
        } else {
            nth_replaced(s, old, new, n - 1, p + old.len())
        },
    }
}

/// `SUBSTITUTE`: a text with one text in it replaced by another, everywhere or at one place.
pub open spec fn substitute_of(args: Seq<Given>) -> Said {
    match txt(nth(args, 0)) {
        Err(e) => failed(e),
        Ok(t) => match txt(nth(args, 1)) {
            Err(e) => failed(e),
            Ok(old_text) => match txt(nth(args, 2)) {
                Err(e) => failed(e),
                Ok(new) => if old_text.len() == 0 {
                    say(t)
                } else if args.len() <= 3 {
                    say(replaced(t, old_text, new))
                } else {
                    match num(nth(args, 3)) {
                        Err(e) => failed(e),
                        Ok(n) => if truncated(n) < 1 {
                            failed(FormulaError::Value)
                        } else {
                            say(nth_replaced(t, old_text, new, truncated(n), 0))
                        },
                    }
                },
            },
        },
    }
}

fn replace_nth(t: &str, old_text: &str, new: &str, nth: i64) -> (r: String)
    requires
        nth >= 1,
        old_text@.len() > 0,
    ensures
        r@ == nth_replaced(t@, old_text@, new@, nth as int, 0),
{
    let chars: Vec<char> = chars_of(t);
    let pat: Vec<char> = chars_of(old_text);
    let mut left: i64 = nth;
    let mut from: usize = 0;
    loop
        invariant
            left >= 1,
            from <= chars.len(),
            chars@ == t@,
            pat@ == old_text@,
            pat.len() > 0,
            nth_replaced(t@, old_text@, new@, nth as int, 0) == nth_replaced(
                t@,
                old_text@,
                new@,
                left as int,
                from as int,
            ),
        decreases left,
    {
        match find_text(&chars, &pat, from) {
            None => {
                return t.to_string();
            },
            Some(p) => {
                if left == 1 {
                    let mut out: String = slice_string(&chars, 0, p);
                    let tail: String = slice_string(&chars, p + pat.len(), chars.len());
                    out.append(new);
                    out.append(tail.as_str());
                    assert(out@ =~= t@.take(p as int) + new@ + t@.skip(p + old_text@.len()));
                    return out;
                }
                left = left - 1;
                from = p + pat.len();
            },
        }
    }
}

pub fn substitute(args: &Vec<Arg>) -> (r: Reply)
    ensures
        r@ == substitute_of(given(args@)),
{
    let t: String = match text_at(args, 0) {
        Ok(t) => t,
        Err(e) => {
            return Reply::error(e);
        },
    };
    let old_text: String = match text_at(args, 1) {
        Ok(t) => t,
        Err(e) => {
            return Reply::error(e);
        },
    };
    let new: String = match text_at(args, 2) {
        Ok(t) => t,
        Err(e) => {
            return Reply::error(e);
        },
    };
    if old_text.as_str().is_empty() {
        return Reply::text(t);
    }
    if args.len() <= 3 {
        return Reply::text(replace_all(t.as_str(), old_text.as_str(), new.as_str()));
    }
    match number_at(args, 3) {
        Err(e) => Reply::error(e),
        Ok(n) => {
            let k: i64 = whole(n);
            if k < 1 {
                Reply::error(FormulaError::Value)
            } else {
                Reply::text(replace_nth(t.as_str(), old_text.as_str(), new.as_str(), k))
            }
        },
    }
}

/// `FIND` and `SEARCH`: where a text stands in another, counted from 1, at or behind a place; by
/// its characters, or as a wildcard pattern without regard to case.
pub open spec fn find_of(args: Seq<Given>, exact: bool) -> Said {
    match txt(nth(args, 0)) {
        Err(e) => failed(e),
        Ok(needle) => match txt(nth(args, 1)) {
            Err(e) => failed(e),
            Ok(hay) => match start_of(args) {
                Err(e) => failed(e),
                Ok(start) => {
                    let from = if start < 1 {
                        0
                    } else {
                        start - 1
                    };
                    if from > hay.len() {
                        failed(FormulaError::Value)
                    } else {
                        let sub = hay.skip(from);
                        match (if exact {
                            find(sub, needle, 0)
                        } else {
                            wild_place(needle, sub)
                        }) {
                            Some(p) => counted(from + p + 1),
                            None => failed(FormulaError::Value),
                        }
                    }
                },
            },
        },
    }
}

/// The place from which to search, 1 where it is not given.
pub open spec fn start_of(args: Seq<Given>) -> Result<int, FormulaError> {
    if args.len() > 2 {
        match num(nth(args, 2)) {
            Ok(n) => Ok(truncated(n)),
            Err(e) => Err(e),
        }
    } else {
        Ok(1)
    }
}

pub fn find_in(args: &Vec<Arg>, case_sensitive: bool) -> (r: Reply)
    ensures
        r@ == find_of(given(args@), case_sensitive),
{
    let needle: String = match text_at(args, 0) {
        Ok(t) => t,
        Err(e) => {
            return Reply::error(e);
        },
    };
    let hay: String = match text_at(args, 1) {
        Ok(t) => t,
        Err(e) => {
            return Reply::error(e);
        },
    };
    let start: i64 = if args.len() > 2 {
        match number_at(args, 2) {
            Ok(n) => whole(n),
            Err(e) => {
                return Reply::error(e);
            },
        }
    } else {
        1
    };
    let chars: Vec<char> = chars_of(hay.as_str());
    let from: u64 = if start < 1 {
        0
    } else {
        (start - 1) as u64
    };
    if from > chars.len() as u64 {
        return Reply::error(FormulaError::Value);
    }
    let from: usize = from as usize;
    let sub: String = slice_string(&chars, from, chars.len());
    assert(sub@ =~= hay@.skip(from as int));
    let found: Option<usize> = if case_sensitive {
        find_text(&chars_of(sub.as_str()), &chars_of(needle.as_str()), 0)
    } else {
        wildcard_place(needle.as_str(), sub.as_str())
    };
    match found {
        Some(p) => {
            let k: u64 = from as u64 + p as u64;
            Reply::Int(
                if k >= i64::MAX as u64 {
                    i64::MAX
                } else {
                    k as i64 + 1
                },
            )
        },
        None => Reply::error(FormulaError::Value),
    }
}

/// A text `n` times over.
pub open spec fn repeated(t: Seq<char>, n: int) -> Seq<char>
    decreases n,
{
    if n <= 0 {
        Seq::empty()
    } else {
        repeated(t, n - 1) + t
    }
}

/// `REPT`.
pub open spec fn rept_of(args: Seq<Given>) -> Said {
    match txt(nth(args, 0)) {
        Err(e) => failed(e),
        Ok(t) => match num(nth(args, 1)) {
            Err(e) => failed(e),
            Ok(n) => say(repeated(t, truncated(n))),
        },
    }
}

/// A text `n` times over.
pub fn repeat_text(t: &str, n: i64) -> (r: String)
    ensures
        r@ == repeated(t@, n as int),
{
    let mut out: String = String::new();
    let mut i: i64 = 0;
    assert(out@ =~= Seq::empty());
    while i < n
        invariant
            0 <= i,
            i <= n || n <= 0 && i == 0,
            out@ == repeated(t@, i as int),
        decreases n - i,
    {
        out.append(t);
        i = i + 1;
    }
    out
}

pub fn rept(args: &Vec<Arg>) -> (r: Reply)
    ensures
        r@ == rept_of(given(args@)),
{
    let t: String = match text_at(args, 0) {
        Ok(t) => t,
        Err(e) => {
            return Reply::error(e);
        },
    };
    match number_at(args, 1) {
        Err(e) => Reply::error(e),
        Ok(n) => Reply::text(repeat_text(t.as_str(), whole(n))),
    }
}

/// `EXACT`.
pub open spec fn exact_of(args: Seq<Given>) -> Said {
    match txt(nth(args, 0)) {
        Err(e) => failed(e),
        Ok(a) => match txt(nth(args, 1)) {
            Err(e) => failed(e),
            Ok(b) => yes(a == b),
        },
    }
}

pub fn exact(args: &Vec<Arg>) -> (r: Reply)
    ensures
        r@ == exact_of(given(args@)),
{
    let a: String = match text_at(args, 0) {
        Ok(t) => t,
        Err(e) => {
            return Reply::error(e);
        },
    };
    match text_at(args, 1) {
        Err(e) => Reply::error(e),
        Ok(b) => Reply::truth(same_text(a.as_str(), b.as_str())),
    }
}

/// `CHAR` and `UNICHAR`: the character of a number between 1 and `max`, of which the lowest 32
/// bits count.
pub open spec fn char_of(args: Seq<Given>, max: int) -> Said {
    match num(nth(args, 0)) {
        Err(e) => failed(e),
        Ok(n) => {
            let k = truncated(n);
            if 1 <= k <= max && is_scalar((k % 0x1_0000_0000) as nat) {
                say(seq![((k % 0x1_0000_0000) as u32) as char])
            } else {
                failed(FormulaError::Value)
            }
        },
    }
}

/// `CHAR` and `UNICHAR`.
pub fn char_fn(args: &Vec<Arg>, max: i64) -> (r: Reply)
    ensures
        r@ == char_of(given(args@), max as int),
{
    match number_at(args, 0) {
        Err(e) => Reply::error(e),
        Ok(n) => {
            let k: i64 = whole(n);
            if k < 1 || k > max {
                return Reply::error(FormulaError::Value);
            }
            let low: u32 = (k as u64 % 0x1_0000_0000) as u32;
            match char::from_u32(low) {
                Some(c) => {
                    let mut s: String = String::new();
                    s.push(c);
                    assert(s@ =~= seq![c]);
                    Reply::text(s)
                },
                None => Reply::error(FormulaError::Value),
            }
        },
    }
}

/// `CODE` and `UNICODE`: the number of a text's first character.
pub open spec fn code_of(args: Seq<Given>) -> Said {
    match txt(nth(args, 0)) {
        Err(e) => failed(e),
        Ok(t) => if t.len() > 0 {
            Said::Int(t[0] as u32 as int)
        } else {
            failed(FormulaError::Value)
        },
    }
}

pub fn code(args: &Vec<Arg>) -> (r: Reply)
    ensures
        r@ == code_of(given(args@)),
{
    match text_at(args, 0) {
        Err(e) => Reply::error(e),
        Ok(t) => {
            let chars: Vec<char> = chars_of(t.as_str());
            if chars.len() > 0 {
                let c: char = chars[0];
                let k: u32 = c as u32;
                assert(k == c as u32);
                assert(t@[0] == c);
                Reply::Int(k as i64)
            } else {
                Reply::error(FormulaError::Value)
            }
        },
    }
}

/// A text with another in front of each character and at the end.
pub open spec fn sprinkled(s: Seq<char>, rep: Seq<char>) -> Seq<char>
    decreases s.len(),
{
    if s.len() == 0 {
        rep
    } else {
        rep + seq![s[0]] + sprinkled(s.skip(1), rep)
    }
}

fn sprinkle(s: &str, rep: &str) -> (r: String)
    ensures
        r@ == sprinkled(s@, rep@),
{
    let chars: Vec<char> = chars_of(s);
    let mut out: String = String::new();
    let mut i: usize = 0;
    assert(s@.skip(0) =~= s@);
    assert(out@ + sprinkled(s@.skip(0), rep@) =~= sprinkled(s@, rep@));
    while i < chars.len()
        invariant
            i <= chars.len(),
            chars@ == s@,
            out@ + sprinkled(s@.skip(i as int), rep@) == sprinkled(s@, rep@),
        decreases chars.len() - i,
    {
        let ghost o = out@;
        let ghost t = s@.skip(i as int);
        out.append(rep);
        out.push(chars[i]);
        assert(t.skip(1) =~= s@.skip(i + 1));
        assert(out@ + sprinkled(t.skip(1), rep@) =~= o + (rep@ + seq![t[0]] + sprinkled(
            t.skip(1),
            rep@,
        )));
        i = i + 1;
    }
    assert(s@.skip(i as int).len() == 0);
    out.append(rep);
    out
}

/// The text of the argument at `i`; `default` where it is not given or is an error.
pub open spec fn text_or(args: Seq<Given>, i: int, default: Seq<char>) -> Seq<char> {
    if i < args.len() {
        match txt(nth(args, i)) {
            Ok(t) => t,
            Err(_) => default,
        }
    } else {
        default
    }
}

fn text_or_default(args: &Vec<Arg>, i: usize, default: &str) -> (r: String)
    ensures
        r@ == text_or(given(args@), i as int, default@),
{
    if i < args.len() {
        match text_at(args, i) {
            Ok(t) => t,
            Err(_) => default.to_string(),
        }
    } else {
        default.to_string()
    }
}

/// A text without the `%` at its end.
pub open spec fn without_percent(s: Seq<char>) -> Seq<char> {
    crate::text::trim_end_char(s, '%')
}

/// A numeral in the way floating-point numbers are read, made from one with a decimal mark and a
/// group mark of its own.
pub open spec fn normal_numeral(t: Seq<char>, dec: Seq<char>, grp: Seq<char>) -> Seq<char> {
    let s = replaced(t, grp, Seq::empty());
    trimmed(
        if dec.len() == 0 {
            sprinkled(s, "."@)
        } else {
            replaced(s, dec, "."@)
        },
    )
}

/// `NUMBERVALUE`.
pub open spec fn number_value_of(args: Seq<Given>) -> Said {
    match txt(nth(args, 0)) {
        Err(e) => failed(e),
        Ok(t) => {
            let s = normal_numeral(t, text_or(args, 1, "."@), text_or(args, 2, ","@));
            Said::Parse(without_percent(s), s.len() > 0 && s.last() == '%')
        },
    }
}

pub fn number_value(args: &Vec<Arg>) -> (r: Reply)
    ensures
        r@ == number_value_of(given(args@)),
{
    let t: String = match text_at(args, 0) {
        Ok(t) => t,
        Err(e) => {
            return Reply::error(e);
        },
    };
    let dec: String = text_or_default(args, 1, ".");
    let grp: String = text_or_default(args, 2, ",");
    let none: String = String::new();
    assert(none@ =~= Seq::empty());
    let plain: String = replace_all(t.as_str(), grp.as_str(), none.as_str());
    let marked: String = if dec.as_str().is_empty() {
        sprinkle(plain.as_str(), ".")
    } else {
        replace_all(plain.as_str(), dec.as_str(), ".")
    };
    let s: String = trim_text(marked.as_str());
    let chars: Vec<char> = chars_of(s.as_str());
    let n: usize = chars.len();
    let percent: bool = n > 0 && chars[n - 1] == '%';
    let mut end: usize = n;
    assert(s@.take(n as int) =~= s@);
    while end > 0 && chars[end - 1] == '%'
        invariant
            end <= n == chars.len(),
            chars@ == s@,
            without_percent(s@) == without_percent(s@.take(end as int)),
        decreases end,
    {
        assert(s@.take(end as int).drop_last() =~= s@.take(end - 1));
        end = end - 1;
    }
    let body: String = slice_string(&chars, 0, end);
    assert(body@ =~= s@.take(end as int));
    assert(without_percent(s@.take(end as int)) == s@.take(end as int));
    Reply::Parse(body, percent)
}

/// The places where `pat` stands in `s`, up to but not at `n`.
pub open spec fn places_of(s: Seq<char>, pat: Seq<char>, n: int) -> Seq<int>
    decreases n,
{
    if n <= 0 {
        Seq::empty()
    } else if at(s, pat, n - 1) {
        places_of(s, pat, n - 1).push(n - 1)
    } else {
        places_of(s, pat, n - 1)
    }
}

/// Which of `len` places an instance means: counted from 1 from the front, or from -1 from the
/// back.
pub open spec fn instance_place(inst: int, len: int) -> Option<int> {
    if inst > 0 && inst <= len {
        Some(inst - 1)
    } else if inst < 0 && len + inst >= 0 {
        Some(len + inst)
    } else {
        None
    }
}

/// `TEXTBEFORE` and `TEXTAFTER`: what stands in front of, or behind, an instance of a text.
pub open spec fn text_split_of(args: Seq<Given>, before: bool) -> Said {
    match txt(nth(args, 0)) {
        Err(e) => failed(e),
        Ok(text) => match txt(nth(args, 1)) {
            Err(e) => failed(e),
            Ok(delim) => match num_or(args, 2, crate::value::one()) {
                Err(e) => failed(e),
                Ok(instance) => {
                    let missing = if args.len() > 3 {
                        Said::Value(nth(args, 3).value)
                    } else {
                        failed(FormulaError::Na)
                    };
                    if delim.len() == 0 {
                        if before {
                            say(Seq::empty())
                        } else {
                            say(text)
                        }
                    } else {
                        let ps = places_of(text, delim, text.len() as int);
                        if ps.len() == 0 {
                            missing
                        } else if truncated(instance) == 0 {
                            failed(FormulaError::Value)
                        } else {
                            match instance_place(truncated(instance), ps.len() as int) {
                                None => missing,
                                Some(k) => if before {
                                    say(text.take(ps[k]))
                                } else {
                                    say(text.skip(ps[k] + delim.len()))
                                },
                            }
                        }
                    }
                },
            },
        },
    }
}

/// Places as integers.
pub open spec fn ints(v: Seq<usize>) -> Seq<int> {
    Seq::new(v.len(), |i: int| v[i] as int)
}

fn list_places(chars: &Vec<char>, pat: &Vec<char>) -> (r: Vec<usize>)
    ensures
        ints(r@) == places_of(chars@, pat@, chars@.len() as int),
        forall|k: int| 0 <= k < r@.len() ==> (#[trigger] r@[k]) + pat@.len() <= chars@.len(),
{
    let mut out: Vec<usize> = Vec::new();
    let mut i: usize = 0;
    assert(ints(out@) =~= places_of(chars@, pat@, 0));
    while i < chars.len()
        invariant
            i <= chars.len(),
            ints(out@) == places_of(chars@, pat@, i as int),
            forall|k: int|
                0 <= k < out@.len() ==> (#[trigger] out@[k]) + pat@.len() <= chars@.len(),
        decreases chars.len() - i,
    {
        let ghost o = ints(out@);
        if stands_at(chars, pat, i) {
            out.push(i);
            assert(ints(out@) =~= o.push(i as int));
        }
        i = i + 1;
    }
    out
}

pub fn text_split(args: &Vec<Arg>, before: bool) -> (r: Reply)
    ensures
        r@ == text_split_of(given(args@), before),
{
    let text: String = match text_at(args, 0) {
        Ok(t) => t,
        Err(e) => {
            return Reply::error(e);
        },
    };
    let delim: String = match text_at(args, 1) {
        Ok(t) => t,
        Err(e) => {
            return Reply::error(e);
        },
    };
    let inst: i64 = match number_or(args, 2, Num { bits: 0x3ff0_0000_0000_0000 }) {
        Ok(n) => {
            assert(n.finite());
            whole(n)
        },
        Err(e) => {
            return Reply::error(e);
        },
    };
    if delim.as_str().is_empty() {
        let none: String = String::new();
        assert(none@ =~= Seq::empty());
        return Reply::text(
            if before {
                none
            } else {
                text
            },
        );
    }
    let chars: Vec<char> = chars_of(text.as_str());
    let pat: Vec<char> = chars_of(delim.as_str());
    let ps: Vec<usize> = list_places(&chars, &pat);
    assert(ints(ps@).len() == ps@.len());
    let len: u64 = ps.len() as u64;
    if len > 0 && inst == 0 {
        return Reply::error(FormulaError::Value);
    }
    let place: Option<usize> = if inst > 0 && inst as u64 <= len {
        Some((inst - 1) as usize)
    } else if inst < 0 {
        let back: u64 = (-(inst as i128)) as u64;
        if back <= len {
            Some((len - back) as usize)
        } else {
            None
        }
    } else {
        None
    };
    match place {
        None => if args.len() > 3 {
            Reply::Value(arg_at(args, 3).value)
        } else {
            Reply::error(FormulaError::Na)
        },
        Some(k) => {
            let p: usize = ps[k];
            assert(ints(ps@)[k as int] == p);
            assert(p + pat.len() <= chars.len());
            if before {
                let s: String = slice_string(&chars, 0, p);
                assert(s@ =~= text@.take(p as int));
                Reply::text(s)
            } else {
                let s: String = slice_string(&chars, p + pat.len(), chars.len());
                assert(s@ =~= text@.skip(p + delim@.len()));
                Reply::text(s)
            }
        },
    }
}

/// A numeral's digits with a comma in front of each group of three.
pub open spec fn grouped(s: Seq<char>, done: int) -> Seq<char>
    decreases done,
{
    if done <= 0 {
        Seq::empty()
    } else {
        let i = done - 1;
        grouped(s, i) + (if i > 0 && (s.len() - i) % 3 == 0 {
            seq![',', s[i]]
        } else {
            seq![s[i]]
        })
    }
}

/// A whole numeral with its digits in groups of three.
pub open spec fn thousands(s: Seq<char>) -> Seq<char> {
    if s.len() > 0 && s[0] == '-' {
        "-"@ + grouped(s.skip(1), s.len() - 1)
    } else {
        grouped(s, s.len() as int)
    }
}

/// Whether a text is made of ASCII characters.
pub open spec fn is_ascii(s: Seq<char>) -> bool {
    forall|i: int| 0 <= i < s.len() ==> (#[trigger] s[i]) as u32 <= 127
}

/// A whole numeral with its digits in groups of three.
pub fn group_thousands(int_part: &str) -> (r: String)
    requires
        is_ascii(int_part@),
    ensures
        r@ == thousands(int_part@),
{
    let chars: Vec<char> = chars_of(int_part);
    let neg: bool = chars.len() > 0 && chars[0] == '-';
    let from: usize = if neg {
        1
    } else {
        0
    };
    let ghost digits = int_part@.skip(from as int);
    assert(int_part@.skip(0) =~= int_part@);
    let len: usize = chars.len() - from;
    let mut out: String = String::new();
    let mut i: usize = 0;
    assert(out@ =~= grouped(digits, 0));
    while i < len
        invariant
            i <= len,
            from <= 1,
            len == chars.len() - from,
            from <= chars.len(),
            chars@ == int_part@,
            digits == int_part@.skip(from as int),
            out@ == grouped(digits, i as int),
        decreases len - i,
    {
        let ghost o = out@;
        if i > 0 && (len - i) % 3 == 0 {
            out.push(',');
        }
        out.push(chars[from + i]);
        assert(digits[i as int] == chars@[from + i]);
        assert(out@ =~= grouped(digits, i + 1));
        i = i + 1;
    }
    if neg {
        let mut r: String = "-".to_string();
        r.append(out.as_str());
        r
    } else {
        out
    }
}

/// A numeral that is not negative with its sign put in front, and with commas in its whole part
/// where asked for.
pub open spec fn fixed(shown: Seq<char>, negative: bool, commas: bool) -> Seq<char> {
    let dot = match crate::text::find_char(shown, '.', 0) {
        Some(p) => p,
        None => shown.len() as int,
    };
    (if negative {
        "-"@
    } else {
        Seq::empty()
    }) + (if commas {
        thousands(shown.take(dot))
    } else {
        shown.take(dot)
    }) + shown.skip(dot)
}

/// A numeral that is not negative, with its sign put in front and its digits in groups of three
/// where asked for.
pub fn fixed_text(shown: &str, negative: bool, commas: bool) -> (r: String)
    requires
        is_ascii(shown@),
    ensures
        r@ == fixed(shown@, negative, commas),
{
    let chars: Vec<char> = chars_of(shown);
    let dot: usize = match crate::text::position_of(&chars, '.', 0) {
        Some(p) => p,
        None => chars.len(),
    };
    let int_part: String = slice_string(&chars, 0, dot);
    let rest: String = slice_string(&chars, dot, chars.len());
    assert(int_part@ =~= shown@.take(dot as int));
    assert(rest@ =~= shown@.skip(dot as int));
    let mut out: String = String::new();
    if negative {
        out.append("-");
    }
    if commas {
        let g: String = group_thousands(int_part.as_str());
        out.append(g.as_str());
    } else {
        out.append(int_part.as_str());
    }
    out.append(rest.as_str());
    assert(out@ =~= fixed(shown@, negative, commas));
    out
}

/// `TEXT`: a value in a number format. A blank value counts as the empty text.
pub open spec fn text_of_format(args: Seq<Given>) -> Said {
    match nth(args, 0).value {
        FValue::Error(e) => failed(e),
        v => match txt(nth(args, 1)) {
            Err(e) => failed(e),
            Ok(fmt) => Said::Format(
                match v {
                    FValue::Blank => FValue::Text(Seq::empty()),
                    _ => v,
                },
                fmt,
            ),
        },
    }
}

pub fn f_text(args: &Vec<Arg>) -> (r: Reply)
    ensures
        r@ == text_of_format(given(args@)),
{
    let v: FormulaValue = arg_at(args, 0).value;
    if let FormulaValue::Error(e) = v {
        return Reply::error(e);
    }
    match text_at(args, 1) {
        Err(e) => Reply::error(e),
        Ok(fmt) => {
            let shown: FormulaValue = match v {
                FormulaValue::Blank => {
                    let none: String = String::new();
                    assert(none@ =~= Seq::empty());
                    FormulaValue::Text(none)
                },
                other => other,
            };
            Reply::Format(shown, fmt)
        },
    }
}

} // verus!
