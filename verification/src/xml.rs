//! XML text: escaping, and reading escaped text back.
use crate::decimal::{all_digits, dec_value, read_unsigned};
use crate::pattern::{is_match, regex_matches};
use crate::scan::{at, stands_at};
use crate::text::chars_of;
use crate::token::{is_digit, spec_is_digit};
use crate::xlsx_style::is_hex;
use vstd::prelude::*;

verus! {

/// Which characters are escaped.
#[derive(Clone, Copy)]
pub enum Escape {
    /// `& < >`
    Html,
    /// `& < > "`
    Quoted,
    /// `& < > " '`
    Full,
}

/// A character, escaped.
pub open spec fn esc_char(c: char, k: Escape) -> Seq<char> {
    if c == '&' {
        "&amp;"@
    } else if c == '<' {
        "&lt;"@
    } else if c == '>' {
        "&gt;"@
    } else if c == '"' && !(k is Html) {
        "&quot;"@
    } else if c == '\'' && k is Full {
        "&apos;"@
    } else {
        seq![c]
    }
}

/// A text, escaped.
pub open spec fn esc_text(s: Seq<char>, k: Escape) -> Seq<char>
    decreases s.len(),
{
    if s.len() == 0 {
        Seq::empty()
    } else {
        esc_text(s.drop_last(), k) + esc_char(s.last(), k)
    }
}

/// A text, escaped.
pub fn escape(s: &str, k: Escape) -> (r: String)
    ensures
        r@ == esc_text(s@, k),
{
    let chars: Vec<char> = chars_of(s);
    let mut out: String = String::new();
    let mut i: usize = 0;
    while i < chars.len()
        invariant
            i <= chars.len(),
            out@ == esc_text(chars@.take(i as int), k),
        decreases chars.len() - i,
    {
        let c = chars[i];
        let quoted = match k {
            Escape::Html => false,
            _ => true,
        };
        let full = match k {
            Escape::Full => true,
            _ => false,
        };
        assert(chars@.take(i + 1).drop_last() == chars@.take(i as int));
        let ghost before = out@;
        if c == '&' {
            out.append("&amp;");
        } else if c == '<' {
            out.append("&lt;");
        } else if c == '>' {
            out.append("&gt;");
        } else if c == '"' && quoted {
            out.append("&quot;");
        } else if c == '\'' && full {
            out.append("&apos;");
        } else {
            out.push(c);
            assert(out@ == before + seq![c]);
        }
        i = i + 1;
    }
    assert(chars@.take(i as int) == chars@);
    out
}

/// Escapes `& < > " '`.
pub fn esc(s: &str) -> (r: String)
    ensures
        r@ == esc_text(s@, Escape::Full),
{
    escape(s, Escape::Full)
}

// ---- back from escapes

/// A text with each `pat` replaced by `rep`.
pub open spec fn replaced(s: Seq<char>, pat: Seq<char>, rep: Seq<char>) -> Seq<char>
    decreases s.len(),
{
    if s.len() == 0 {
        s
    } else if pat.len() > 0 && at(s, pat, 0) {
        rep + replaced(s.skip(pat.len() as int), pat, rep)
    } else {
        seq![s[0]] + replaced(s.skip(1), pat, rep)
    }
}

/// Whether the `regex` crate takes a character for a decimal digit.
pub open spec fn unicode_digit(c: char) -> bool {
    regex_matches("\\A\\d\\z"@, seq![c]) == Some(true)
}

fn is_unicode_digit(c: char) -> (r: bool)
    ensures
        r == unicode_digit(c),
{
    let mut s: String = String::new();
    s.push(c);
    assert(s@ =~= seq![c]);
    match is_match("\\A\\d\\z", s.as_str()) {
        Some(b) => b,
        None => false,
    }
}

/// Whether a number is a character's.
pub open spec fn is_scalar(n: nat) -> bool {
    n < 0xd800 || 0xe000 <= n <= 0x10ffff
}

/// `char::from_u32`: the character of a number that is one's.
pub assume_specification[ char::from_u32 ](n: u32) -> (r: Option<char>)
    ensures
        r == (if is_scalar(n as nat) {
            Some(n as char)
        } else {
            None
        }),
;

/// Whether a character is a decimal digit of any script.
pub open spec fn is_decimal(c: char) -> bool {
    if c as int >= 128 {
        unicode_digit(c)
    } else {
        spec_is_digit(c)
    }
}

/// Where the decimal digits that start at `i` end.
pub open spec fn decimal_end(s: Seq<char>, i: int) -> int
    decreases s.len() - i,
{
    if 0 <= i < s.len() && is_decimal(s[i]) {
        decimal_end(s, i + 1)
    } else {
        i
    }
}

/// Where the hexadecimal digits that start at `i` end.
pub open spec fn hex_end(s: Seq<char>, i: int) -> int
    decreases s.len() - i,
{
    if 0 <= i < s.len() && is_hex(s[i]) {
        hex_end(s, i + 1)
    } else {
        i
    }
}

pub open spec fn hex_digit(c: char) -> int {
    if 'a' <= c {
        c as int - 'a' as int + 10
    } else if 'A' <= c {
        c as int - 'A' as int + 10
    } else {
        c as int - '0' as int
    }
}

/// The number that hexadecimal digits stand for.
pub open spec fn hex_value(s: Seq<char>) -> nat
    decreases s.len(),
{
    if s.len() == 0 {
        0
    } else {
        (hex_value(s.drop_last()) * 16 + hex_digit(s.last())) as nat
    }
}

/// The character of a number, nothing where it has none.
pub open spec fn char_text(n: nat) -> Seq<char> {
    if is_scalar(n) {
        seq![n as char]
    } else {
        Seq::empty()
    }
}

/// Where the decimal character reference that starts a text ends.
pub open spec fn decimal_ref(s: Seq<char>) -> Option<int> {
    let k = decimal_end(s, 2);
    if at(s, "&#"@, 0) && k > 2 && k < s.len() && s[k] == ';' {
        Some(k)
    } else {
        None
    }
}

/// Where the hexadecimal character reference that starts a text ends.
pub open spec fn hex_ref(s: Seq<char>) -> Option<int> {
    let k = hex_end(s, 3);
    if at(s, "&#x"@, 0) && k > 3 && k < s.len() && s[k] == ';' {
        Some(k)
    } else {
        None
    }
}

/// A text with its decimal character references resolved. Digits that are not ASCII name no
/// character.
pub open spec fn decimals_resolved(s: Seq<char>) -> Seq<char>
    decreases s.len(),
{
    if s.len() == 0 {
        s
    } else {
        match decimal_ref(s) {
            Some(k) => (if all_digits(s.subrange(2, k)) {
                char_text(dec_value(s.subrange(2, k)))
            } else {
                Seq::empty()
            }) + decimals_resolved(s.skip(k + 1)),
            None => seq![s[0]] + decimals_resolved(s.skip(1)),
        }
    }
}

/// A text with its hexadecimal character references resolved.
pub open spec fn hexes_resolved(s: Seq<char>) -> Seq<char>
    decreases s.len(),
{
    if s.len() == 0 {
        s
    } else {
        match hex_ref(s) {
            Some(k) => char_text(hex_value(s.subrange(3, k))) + hexes_resolved(s.skip(k + 1)),
            None => seq![s[0]] + hexes_resolved(s.skip(1)),
        }
    }
}

/// A text with its escapes resolved: the four named ones, then character references, then `&amp;`.
pub open spec fn unescaped(s: Seq<char>) -> Seq<char> {
    let a = replaced(s, "&lt;"@, "<"@);
    let b = replaced(a, "&gt;"@, ">"@);
    let c = replaced(b, "&quot;"@, "\""@);
    let d = replaced(c, "&apos;"@, "'"@);
    replaced(hexes_resolved(decimals_resolved(d)), "&amp;"@, "&"@)
}

/// A text with each `pat` replaced by `rep`.
pub fn replace_all(s: &str, pat: &str, rep: &str) -> (r: String)
    ensures
        r@ == replaced(s@, pat@, rep@),
{
    let chars: Vec<char> = chars_of(s);
    let p: Vec<char> = chars_of(pat);
    let mut out: String = String::new();
    let mut i: usize = 0;
    let ghost all = replaced(chars@, pat@, rep@);
    assert(chars@.skip(0) == chars@);
    assert(out@ + replaced(chars@.skip(0), pat@, rep@) == all);
    while i < chars.len()
        invariant
            i <= chars.len(),
            p@ == pat@,
            out@ + replaced(chars@.skip(i as int), pat@, rep@) == all,
        decreases chars.len() - i,
    {
        let ghost t = chars@.skip(i as int);
        let ghost before = out@;
        let here = stands_at(&chars, &p, i);
        assert(here == at(t, pat@, 0)) by {
            if i + pat@.len() <= chars@.len() {
                assert(t.subrange(0, 0 + pat@.len() as int) == chars@.subrange(
                    i as int,
                    i + pat@.len(),
                ));
            }
        }
        if p.len() > 0 && here {
            out.append(rep);
            assert(t.skip(pat@.len() as int) == chars@.skip(i + pat@.len()));
            assert(before + (rep@ + replaced(t.skip(pat@.len() as int), pat@, rep@)) == out@
                + replaced(chars@.skip(i + pat@.len()), pat@, rep@));
            i = i + p.len();
        } else {
            out.push(chars[i]);
            assert(t.skip(1) == chars@.skip(i + 1));
            assert(before + (seq![t[0]] + replaced(t.skip(1), pat@, rep@)) == out@ + replaced(
                chars@.skip(i + 1),
                pat@,
                rep@,
            ));
            i = i + 1;
        }
    }
    assert(out@ + Seq::<char>::empty() == out@);
    out
}

fn decimal(c: char) -> (r: bool)
    ensures
        r == is_decimal(c),
{
    if c as u32 >= 128 {
        is_unicode_digit(c)
    } else {
        is_digit(c)
    }
}

fn hex_char(c: char) -> (r: bool)
    ensures
        r == is_hex(c),
{
    is_digit(c) || ('a' <= c && c <= 'f') || ('A' <= c && c <= 'F')
}

proof fn decimal_end_shift(s: Seq<char>, i: int, k: int)
    requires
        0 <= i <= s.len(),
        0 <= k,
    ensures
        decimal_end(s.skip(i), k) + i == decimal_end(s, i + k),
    decreases s.len() - i - k,
{
    if i + k < s.len() && is_decimal(s[i + k]) {
        decimal_end_shift(s, i, k + 1);
    }
}

proof fn hex_end_shift(s: Seq<char>, i: int, k: int)
    requires
        0 <= i <= s.len(),
        0 <= k,
    ensures
        hex_end(s.skip(i), k) + i == hex_end(s, i + k),
    decreases s.len() - i - k,
{
    if i + k < s.len() && is_hex(s[i + k]) {
        hex_end_shift(s, i, k + 1);
    }
}

fn resolve_decimals(s: &str) -> (r: String)
    ensures
        r@ == decimals_resolved(s@),
{
    proof {
        reveal_strlit("&#");
    }
    let chars: Vec<char> = chars_of(s);
    let mut out: String = String::new();
    let mut i: usize = 0;
    let ghost all = decimals_resolved(chars@);
    assert(chars@.skip(0) == chars@);
    assert(out@ + decimals_resolved(chars@.skip(0)) == all);
    while i < chars.len()
        invariant
            i <= chars.len(),
            "&#"@ == seq!['&', '#'],
            out@ + decimals_resolved(chars@.skip(i as int)) == all,
        decreases chars.len() - i,
    {
        let ghost t = chars@.skip(i as int);
        let ghost before = out@;
        let mut k: usize = i;
        let mut found = false;
        let start = i + 1 < chars.len() && chars[i] == '&' && chars[i + 1] == '#';
        assert(start == at(t, "&#"@, 0)) by {
            if t.len() >= 2 {
                let u = t.subrange(0, 2);
                assert(u[0] == t[0] && u[1] == t[1]);
                assert(start ==> u == seq!['&', '#']);
            }
        }
        if start {
            k = i + 2;
            proof {
                decimal_end_shift(chars@, i as int, 2);
            }
            while k < chars.len() && decimal(chars[k])
                invariant
                    i + 2 <= k <= chars.len(),
                    decimal_end(chars@, i + 2) == decimal_end(chars@, k as int),
                decreases chars.len() - k,
            {
                k = k + 1;
            }
            found = k > i + 2 && k < chars.len() && chars[k] == ';';
            assert(found == (decimal_ref(t) is Some));
            assert(found ==> decimal_ref(t) == Some(k - i));
        }
        if found {
            let mut digits: Vec<char> = Vec::new();
            let mut j: usize = i + 2;
            let mut ascii = true;
            while j < k
                invariant
                    i + 2 <= j <= k <= chars.len(),
                    digits@ == chars@.subrange(i + 2, j as int),
                    ascii == all_digits(digits@),
                decreases k - j,
            {
                let ghost d0 = digits@;
                let c = chars[j];
                digits.push(c);
                if !is_digit(c) {
                    ascii = false;
                    assert(!spec_is_digit(digits@[d0.len() as int]));
                } else {
                    assert(all_digits(d0) ==> all_digits(digits@));
                    assert(all_digits(digits@) ==> all_digits(d0)) by {
                        if all_digits(digits@) {
                            assert forall|q: int| 0 <= q < d0.len() implies spec_is_digit(
                                #[trigger] d0[q],
                            ) by {
                                assert(d0[q] == digits@[q]);
                            }
                        }
                    }
                }
                j = j + 1;
            }
            let ghost num = t.subrange(2, k - i);
            assert(digits@ == num);
            let ghost text = if all_digits(num) {
                char_text(dec_value(num))
            } else {
                Seq::empty()
            };
            if ascii {
                assert(spec_is_digit(digits@[0]));
                if let Some(v) = read_unsigned(&digits, 0xffff_ffff) {
                    if let Some(c) = char::from_u32(v as u32) {
                        out.push(c);
                    }
                }
            }
            assert(out@ == before + text);
            assert(t.skip(k - i + 1) == chars@.skip(k + 1));
            assert(before + (text + decimals_resolved(t.skip(k - i + 1))) == out@
                + decimals_resolved(chars@.skip(k + 1)));
            i = k + 1;
        } else {
            assert(decimal_ref(t) is None);
            out.push(chars[i]);
            assert(t.skip(1) == chars@.skip(i + 1));
            assert(before + (seq![t[0]] + decimals_resolved(t.skip(1))) == out@ + decimals_resolved(
                chars@.skip(i + 1),
            ));
            i = i + 1;
        }
    }
    assert(out@ + Seq::<char>::empty() == out@);
    out
}

fn hex_digit_of(c: char) -> (r: u64)
    requires
        is_hex(c),
    ensures
        r == hex_digit(c),
        r < 16,
{
    if 'a' <= c {
        c as u64 - 'a' as u64 + 10
    } else if 'A' <= c {
        c as u64 - 'A' as u64 + 10
    } else {
        c as u64 - '0' as u64
    }
}

fn resolve_hexes(s: &str) -> (r: String)
    ensures
        r@ == hexes_resolved(s@),
{
    proof {
        reveal_strlit("&#x");
    }
    let chars: Vec<char> = chars_of(s);
    let mut out: String = String::new();
    let mut i: usize = 0;
    let ghost all = hexes_resolved(chars@);
    assert(chars@.skip(0) == chars@);
    assert(out@ + hexes_resolved(chars@.skip(0)) == all);
    while i < chars.len()
        invariant
            i <= chars.len(),
            "&#x"@ == seq!['&', '#', 'x'],
            out@ + hexes_resolved(chars@.skip(i as int)) == all,
        decreases chars.len() - i,
    {
        let ghost t = chars@.skip(i as int);
        let ghost before = out@;
        let mut k: usize = i;
        let mut found = false;
        // a number above every character's, once the digits pass it
        let mut v: u64 = 0;
        let start = chars.len() - i >= 3 && chars[i] == '&' && chars[i + 1] == '#' && chars[i + 2]
            == 'x';
        assert(start == at(t, "&#x"@, 0)) by {
            if t.len() >= 3 {
                let u = t.subrange(0, 3);
                assert(u[0] == t[0] && u[1] == t[1] && u[2] == t[2]);
                assert(start ==> u == seq!['&', '#', 'x']);
            }
        }
        if start {
            k = i + 3;
            proof {
                hex_end_shift(chars@, i as int, 3);
            }
            assert(chars@.subrange(i + 3, k as int) == Seq::<char>::empty());
            while k < chars.len() && hex_char(chars[k])
                invariant
                    i + 3 <= k <= chars.len(),
                    hex_end(chars@, i + 3) == hex_end(chars@, k as int),
                    v <= 0x110000,
                    v < 0x110000 ==> v == hex_value(chars@.subrange(i + 3, k as int)),
                    v == 0x110000 ==> hex_value(chars@.subrange(i + 3, k as int)) >= 0x110000,
                decreases chars.len() - k,
            {
                let ghost a = chars@.subrange(i + 3, k as int);
                let ghost b = chars@.subrange(i + 3, k + 1);
                assert(b.drop_last() == a);
                let d: u64 = hex_digit_of(chars[k]);
                let next: u64 = v * 16 + d;
                v = if next >= 0x110000 {
                    0x110000
                } else {
                    next
                };
                k = k + 1;
            }
            found = k > i + 3 && k < chars.len() && chars[k] == ';';
            assert(found == (hex_ref(t) is Some));
            assert(found ==> hex_ref(t) == Some(k - i));
        }
        if found {
            let ghost num = t.subrange(3, k - i);
            assert(chars@.subrange(i + 3, k as int) == num);
            let ghost text = char_text(hex_value(num));
            if let Some(c) = char::from_u32(v as u32) {
                out.push(c);
            }
            assert(out@ == before + text);
            assert(t.skip(k - i + 1) == chars@.skip(k + 1));
            assert(before + (text + hexes_resolved(t.skip(k - i + 1))) == out@ + hexes_resolved(
                chars@.skip(k + 1),
            ));
            i = k + 1;
        } else {
            assert(hex_ref(t) is None);
            out.push(chars[i]);
            assert(t.skip(1) == chars@.skip(i + 1));
            assert(before + (seq![t[0]] + hexes_resolved(t.skip(1))) == out@ + hexes_resolved(
                chars@.skip(i + 1),
            ));
            i = i + 1;
        }
    }
    assert(out@ + Seq::<char>::empty() == out@);
    out
}

/// A text with its escapes resolved.
pub fn unesc(s: &str) -> (r: String)
    ensures
        r@ == unescaped(s@),
{
    let a: String = replace_all(s, "&lt;", "<");
    let b: String = replace_all(a.as_str(), "&gt;", ">");
    let c: String = replace_all(b.as_str(), "&quot;", "\"");
    let d: String = replace_all(c.as_str(), "&apos;", "'");
    let e: String = resolve_decimals(d.as_str());
    let f: String = resolve_hexes(e.as_str());
    replace_all(f.as_str(), "&amp;", "&")
}

// ---- there and back

/// A character after the first `k` steps of resolving escapes.
spec fn stage_char(c: char, k: int) -> Seq<char> {
    if (c == '<' && k >= 1) || (c == '>' && k >= 2) || (c == '"' && k >= 3) || (c == '\'' && k >= 4)
        || (c == '&' && k >= 5) {
        seq![c]
    } else {
        esc_char(c, Escape::Full)
    }
}

spec fn stage(s: Seq<char>, k: int) -> Seq<char>
    decreases s.len(),
{
    if s.len() == 0 {
        Seq::empty()
    } else {
        stage_char(s[0], k) + stage(s.skip(1), k)
    }
}

/// What escapes two texts escapes the one behind the other.
pub proof fn esc_concat(a: Seq<char>, b: Seq<char>, k: Escape)
    ensures
        esc_text(a + b, k) == esc_text(a, k) + esc_text(b, k),
    decreases b.len(),
{
    if b.len() == 0 {
        assert(a + b == a);
        assert(esc_text(a, k) + Seq::<char>::empty() == esc_text(a, k));
    } else {
        esc_concat(a, b.drop_last(), k);
        assert((a + b).drop_last() == a + b.drop_last());
        assert(esc_text(a, k) + (esc_text(b.drop_last(), k) + esc_char(b.last(), k)) == (esc_text(a, k)
            + esc_text(b.drop_last(), k)) + esc_char(b.last(), k));
    }
}

proof fn stage_zero(s: Seq<char>)
    ensures
        stage(s, 0) == esc_text(s, Escape::Full),
    decreases s.len(),
{
    if s.len() > 0 {
        stage_zero(s.skip(1));
        let h = seq![s[0]];
        assert(h + s.skip(1) == s);
        esc_concat(h, s.skip(1), Escape::Full);
        assert(h.drop_last() == Seq::<char>::empty());
        assert(esc_text(h, Escape::Full) == esc_char(s[0], Escape::Full)) by {
            reveal_with_fuel(esc_text, 2);
            assert(Seq::<char>::empty() + esc_char(s[0], Escape::Full) == esc_char(s[0], Escape::Full));
        }
    }
}

proof fn stage_five(s: Seq<char>)
    ensures
        stage(s, 5) == s,
    decreases s.len(),
{
    if s.len() > 0 {
        stage_five(s.skip(1));
        assert(seq![s[0]] + s.skip(1) == s);
    }
}

proof fn replaced_run(u: Seq<char>, rest: Seq<char>, pat: Seq<char>, rep: Seq<char>)
    requires
        pat.len() > 0,
        pat[0] == '&',
        forall|i: int| 0 <= i < u.len() ==> #[trigger] u[i] != '&',
    ensures
        replaced(u + rest, pat, rep) == u + replaced(rest, pat, rep),
    decreases u.len(),
{
    if u.len() == 0 {
        assert(u + rest == rest);
        assert(u + replaced(rest, pat, rep) == replaced(rest, pat, rep));
    } else {
        let t = u + rest;
        assert(t[0] == u[0]);
        if at(t, pat, 0) {
            assert(t.subrange(0, pat.len() as int)[0] == pat[0]);
        }
        assert(t.skip(1) == u.skip(1) + rest);
        replaced_run(u.skip(1), rest, pat, rep);
        assert(seq![u[0]] + (u.skip(1) + replaced(rest, pat, rep)) == u + replaced(rest, pat, rep));
    }
}

/// A text that starts with an escape other than `pat`.
proof fn replaced_other(e: Seq<char>, rest: Seq<char>, pat: Seq<char>, rep: Seq<char>, d: int)
    requires
        pat.len() > 0,
        pat[0] == '&',
        e.len() > 0,
        e[0] == '&',
        forall|i: int| 1 <= i < e.len() ==> #[trigger] e[i] != '&',
        0 < d < e.len(),
        d < pat.len(),
        e[d] != pat[d],
    ensures
        replaced(e + rest, pat, rep) == e + replaced(rest, pat, rep),
{
    let t = e + rest;
    if at(t, pat, 0) {
        assert(t.subrange(0, pat.len() as int)[d] == pat[d]);
        assert(t[d] == e[d]);
    }
    let u = e.skip(1);
    assert forall|i: int| 0 <= i < u.len() implies #[trigger] u[i] != '&' by {
        assert(u[i] == e[i + 1]);
    }
    assert(t.skip(1) == u + rest);
    replaced_run(u, rest, pat, rep);
    assert(seq!['&'] + (u + replaced(rest, pat, rep)) == e + replaced(rest, pat, rep));
}

proof fn replaced_same(pat: Seq<char>, rest: Seq<char>, rep: Seq<char>)
    requires
        pat.len() > 0,
    ensures
        replaced(pat + rest, pat, rep) == rep + replaced(rest, pat, rep),
{
    let t = pat + rest;
    assert(t.subrange(0, pat.len() as int) == pat);
    assert(t.skip(pat.len() as int) == rest);
}

proof fn literals()
    ensures
        "&amp;"@ == seq!['&', 'a', 'm', 'p', ';'],
        "&lt;"@ == seq!['&', 'l', 't', ';'],
        "&gt;"@ == seq!['&', 'g', 't', ';'],
        "&quot;"@ == seq!['&', 'q', 'u', 'o', 't', ';'],
        "&apos;"@ == seq!['&', 'a', 'p', 'o', 's', ';'],
        "<"@ == seq!['<'],
        ">"@ == seq!['>'],
        "\""@ == seq!['"'],
        "'"@ == seq!['\''],
        "&"@ == seq!['&'],
        "&#"@ == seq!['&', '#'],
        "&#x"@ == seq!['&', '#', 'x'],
{
    reveal_strlit("&amp;");
    reveal_strlit("&lt;");
    reveal_strlit("&gt;");
    reveal_strlit("&quot;");
    reveal_strlit("&apos;");
    reveal_strlit("<");
    reveal_strlit(">");
    reveal_strlit("\"");
    reveal_strlit("'");
    reveal_strlit("&");
    reveal_strlit("&#");
    reveal_strlit("&#x");
    assert("&amp;"@ =~= seq!['&', 'a', 'm', 'p', ';']);
    assert("&lt;"@ =~= seq!['&', 'l', 't', ';']);
    assert("&gt;"@ =~= seq!['&', 'g', 't', ';']);
    assert("&quot;"@ =~= seq!['&', 'q', 'u', 'o', 't', ';']);
    assert("&apos;"@ =~= seq!['&', 'a', 'p', 'o', 's', ';']);
    assert("<"@ =~= seq!['<']);
    assert(">"@ =~= seq!['>']);
    assert("\""@ =~= seq!['"']);
    assert("'"@ =~= seq!['\'']);
    assert("&"@ =~= seq!['&']);
    assert("&#"@ =~= seq!['&', '#']);
    assert("&#x"@ =~= seq!['&', '#', 'x']);
}

/// The escape that step `k` resolves.
spec fn stage_pat(k: int) -> Seq<char> {
    if k == 0 {
        "&lt;"@
    } else if k == 1 {
        "&gt;"@
    } else if k == 2 {
        "&quot;"@
    } else if k == 3 {
        "&apos;"@
    } else {
        "&amp;"@
    }
}

spec fn stage_rep(k: int) -> Seq<char> {
    if k == 0 {
        "<"@
    } else if k == 1 {
        ">"@
    } else if k == 2 {
        "\""@
    } else if k == 3 {
        "'"@
    } else {
        "&"@
    }
}

/// The place where two escapes first differ.
spec fn differs(c: char, k: int) -> int {
    if c == '&' && k == 3 {
        2
    } else {
        1
    }
}

proof fn stage_step(s: Seq<char>, k: int)
    requires
        0 <= k <= 4,
    ensures
        replaced(stage(s, k), stage_pat(k), stage_rep(k)) == stage(s, k + 1),
    decreases s.len(),
{
    if s.len() > 0 {
        literals();
        let c = s[0];
        let rest = stage(s.skip(1), k);
        let pat = stage_pat(k);
        let rep = stage_rep(k);
        stage_step(s.skip(1), k);
        let e = stage_char(c, k);
        if e == pat {
            replaced_same(pat, rest, rep);
            assert(stage_char(c, k + 1) == rep);
        } else if e.len() == 1 && e[0] != '&' {
            replaced_run(e, rest, pat, rep);
            assert(stage_char(c, k + 1) == e);
        } else {
            assert(e[0] == '&');
            replaced_other(e, rest, pat, rep, differs(c, k));
            assert(stage_char(c, k + 1) == e);
        }
    } else {
        assert(replaced(stage(s, k), stage_pat(k), stage_rep(k)) == Seq::<char>::empty());
    }
}

/// Texts without `&#` hold no character references.
proof fn no_refs(s: Seq<char>)
    requires
        forall|i: int| 0 <= i < s.len() - 1 && s[i] == '&' ==> #[trigger] s[i + 1] != '#',
    ensures
        decimals_resolved(s) == s,
        hexes_resolved(s) == s,
    decreases s.len(),
{
    if s.len() > 0 {
        literals();
        let t = s.skip(1);
        assert forall|i: int| 0 <= i < t.len() - 1 && t[i] == '&' implies #[trigger] t[i + 1] != '#' by {
            assert(t[i] == s[i + 1]);
            assert(t[i + 1] == s[(i + 1) + 1]);
        }
        no_refs(t);
        if at(s, "&#"@, 0) {
            assert(s.subrange(0, 2)[0] == '&' && s.subrange(0, 2)[1] == '#');
            assert(s[0int + 1] == '#');
        }
        if at(s, "&#x"@, 0) {
            assert(s.subrange(0, 3)[0] == '&' && s.subrange(0, 3)[1] == '#');
            assert(s[0int + 1] == '#');
        }
        assert(seq![s[0]] + t == s);
    }
}

proof fn stage_no_refs(s: Seq<char>)
    ensures
        forall|i: int|
            0 <= i < stage(s, 4).len() - 1 && stage(s, 4)[i] == '&' ==> #[trigger] stage(s, 4)[i + 1]
                != '#',
        stage(s, 4).len() > 0 && stage(s, 4).last() == '&' ==> false,
    decreases s.len(),
{
    if s.len() > 0 {
        literals();
        stage_no_refs(s.skip(1));
        let e = stage_char(s[0], 4);
        let r = stage(s.skip(1), 4);
        let t = e + r;
        assert(stage(s, 4) == t);
        assert forall|i: int| 0 <= i < t.len() - 1 && t[i] == '&' implies #[trigger] t[i + 1] != '#' by {
            if i < e.len() {
                assert(t[i] == e[i]);
                assert(i == 0);
                assert(t[i + 1] == e[1]);
            } else {
                assert(t[i] == r[i - e.len()]);
                assert(t[i + 1] == r[(i - e.len()) + 1]);
            }
        }
        if r.len() > 0 {
            assert(t.last() == r.last());
        } else {
            assert(t.last() == e.last());
        }
    }
}

/// An escaped text reads back as it was.
pub proof fn escape_round_trip(s: Seq<char>)
    ensures
        unescaped(esc_text(s, Escape::Full)) == s,
{
    stage_zero(s);
    stage_step(s, 0);
    stage_step(s, 1);
    stage_step(s, 2);
    stage_step(s, 3);
    stage_no_refs(s);
    no_refs(stage(s, 4));
    stage_step(s, 4);
    stage_five(s);
}

} // verus!
