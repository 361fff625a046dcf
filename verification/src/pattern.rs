//! Regular expressions, and wildcard patterns written as such.
use crate::text::chars_of;
use regex::Regex;
use vstd::prelude::*;

verus! {

/// What the `regex` crate says of a pattern and a text: whether a match is somewhere in the text,
/// or nothing where it does not accept the pattern.
pub uninterp spec fn regex_matches(pattern: Seq<char>, text: Seq<char>) -> Option<bool>;

/// `Regex::is_match` on the pattern that `Regex::new` accepts, nothing where it accepts none. Both
/// depend on the pattern and the text alone; what a pattern matches is not written out here.
#[verifier::external_body]
pub(crate) fn is_match(pattern: &str, text: &str) -> (r: Option<bool>)
    ensures
        r == regex_matches(pattern@, text@),
{
    match Regex::new(pattern) {
        Ok(re) => Some(re.is_match(text)),
        Err(_) => None,
    }
}

/// What the `regex` crate finds of a pattern in a text: what stands in front of the leftmost
/// match, or that there is no match; nothing where it does not accept the pattern.
pub uninterp spec fn regex_before(pattern: Seq<char>, text: Seq<char>) -> Option<Option<Seq<char>>>;

/// A text in a text as a mathematical value.
pub open spec fn before_view(r: Option<Option<String>>) -> Option<Option<Seq<char>>> {
    match r {
        Some(Some(s)) => Some(Some(s@)),
        Some(None) => Some(None),
        None => None,
    }
}

/// `Regex::find` on the pattern that `Regex::new` accepts, as the text in front of the match: a
/// beginning of the text. It depends on the pattern and the text alone; what a pattern matches is
/// not written out here.
#[verifier::external_body]
pub(crate) fn text_before_match(pattern: &str, text: &str) -> (r: Option<Option<String>>)
    ensures
        before_view(r) == regex_before(pattern@, text@),
        r matches Some(Some(s)) ==> s@.len() <= text@.len() && s@ == text@.take(s@.len() as int),
{
    match Regex::new(pattern) {
        Ok(re) => Some(re.find(text).map(|m| text[..m.start()].to_string())),
        Err(_) => None,
    }
}

/// Whether a character means something in a pattern.
pub open spec fn is_meta(c: char) -> bool {
    ||| c == '\\' || c == '.' || c == '+' || c == '*' || c == '?' || c == '(' || c == ')'
    ||| c == '|' || c == '[' || c == ']' || c == '{' || c == '}' || c == '^' || c == '$'
    ||| c == '#' || c == '&' || c == '-' || c == '~'
}

/// A text as the pattern that matches it: each character that means something in a pattern gets
/// a backslash in front.
pub open spec fn quoted(s: Seq<char>) -> Seq<char>
    decreases s.len(),
{
    if s.len() == 0 {
        s
    } else if is_meta(s.last()) {
        quoted(s.drop_last()).push('\\').push(s.last())
    } else {
        quoted(s.drop_last()).push(s.last())
    }
}

/// `regex::escape`: the text with a backslash in front of each character that means something in
/// a pattern.
#[verifier::external_body]
fn quote(text: &str) -> (r: String)
    ensures
        r@ == quoted(text@),
{
    regex::escape(text)
}

/// A wildcard pattern from `i` on as a regular expression: `*` stands for any text, `?` for any
/// character, and behind `~` a character stands for itself.
pub open spec fn wild_from(p: Seq<char>, i: int) -> Seq<char>
    decreases p.len() - i,
{
    if i < 0 || i >= p.len() {
        Seq::empty()
    } else if p[i] == '~' {
        if i + 1 < p.len() {
            quoted(seq![p[i + 1]]) + wild_from(p, i + 2)
        } else {
            wild_from(p, i + 1)
        }
    } else if p[i] == '*' {
        ".*"@ + wild_from(p, i + 1)
    } else if p[i] == '?' {
        "."@ + wild_from(p, i + 1)
    } else {
        quoted(seq![p[i]]) + wild_from(p, i + 1)
    }
}

/// A wildcard pattern as a regular expression without regard to case, for whole texts or for
/// parts of them.
pub open spec fn wild_source(p: Seq<char>, anchored: bool) -> Seq<char> {
    if anchored {
        "(?i)^"@ + wild_from(p, 0) + "$"@
    } else {
        "(?i)"@ + wild_from(p, 0)
    }
}

fn push_quoted(out: &mut String, c: char)
    ensures
        final(out)@ == old(out)@ + quoted(seq![c]),
{
    let mut one: String = String::new();
    one.push(c);
    assert(one@ =~= seq![c]);
    let q: String = quote(one.as_str());
    out.append(q.as_str());
}

/// A wildcard pattern as a regular expression.
pub fn wildcard_to_regex(pattern: &str, anchored: bool) -> (r: String)
    ensures
        r@ == wild_source(pattern@, anchored),
{
    let p: Vec<char> = chars_of(pattern);
    let mut out: String = if anchored {
        "(?i)^".to_string()
    } else {
        "(?i)".to_string()
    };
    let ghost head = out@;
    let mut i: usize = 0;
    assert(head + wild_from(p@, 0) =~= out@ + wild_from(p@, 0));
    while i < p.len()
        invariant
            i <= p.len(),
            p@ == pattern@,
            out@ + wild_from(p@, i as int) == head + wild_from(p@, 0),
        decreases p.len() - i,
    {
        let ghost o = out@;
        let ghost at = i as int;
        let c: char = p[i];
        if c == '~' {
            if i + 1 < p.len() {
                push_quoted(&mut out, p[i + 1]);
                i = i + 2;
                assert(out@ + wild_from(p@, i as int) =~= o + wild_from(p@, at));
            } else {
                i = i + 1;
            }
        } else {
            if c == '*' {
                out.append(".*");
            } else if c == '?' {
                out.append(".");
            } else {
                push_quoted(&mut out, c);
            }
            i = i + 1;
            assert(out@ + wild_from(p@, i as int) =~= o + wild_from(p@, at));
        }
    }
    assert(out@ + wild_from(p@, i as int) =~= out@);
    if anchored {
        out.append("$");
    }
    out
}

/// Whether a text is one that a wildcard pattern stands for.
pub open spec fn wild_match(p: Seq<char>, text: Seq<char>) -> bool {
    match regex_matches(wild_source(p, true), text) {
        Some(b) => b,
        None => regex_matches("$^"@, text) == Some(true),
    }
}

/// Whether a text is one that a wildcard pattern stands for.
pub fn wildcard_match(pattern: &str, text: &str) -> (r: bool)
    ensures
        r == wild_match(pattern@, text@),
{
    let source: String = wildcard_to_regex(pattern, true);
    match is_match(source.as_str(), text) {
        Some(b) => b,
        None => match is_match("$^", text) {
            Some(b) => b,
            None => false,
        },
    }
}

/// Where the first part of a text stands that a wildcard pattern stands for.
pub open spec fn wild_place(p: Seq<char>, text: Seq<char>) -> Option<int> {
    let found = match regex_before(wild_source(p, false), text) {
        Some(f) => f,
        None => match regex_before("$^"@, text) {
            Some(f) => f,
            None => None,
        },
    };
    match found {
        Some(s) => Some(s.len() as int),
        None => None,
    }
}

/// Where the first part of a text stands that a wildcard pattern stands for.
pub fn wildcard_place(pattern: &str, text: &str) -> (r: Option<usize>)
    ensures
        crate::text::opt_pos(r) == wild_place(pattern@, text@),
        r matches Some(p) ==> p <= text@.len(),
{
    let source: String = wildcard_to_regex(pattern, false);
    let found: Option<String> = match text_before_match(source.as_str(), text) {
        Some(f) => f,
        None => match text_before_match("$^", text) {
            Some(f) => f,
            None => None,
        },
    };
    match found {
        Some(s) => Some(chars_of(s.as_str()).len()),
        None => None,
    }
}

} // verus!
