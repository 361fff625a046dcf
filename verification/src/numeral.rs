//! Numerals: texts that stand for decimal numbers, such as `34`, `-0.5` or `1e-7`.
use crate::decimal::digit_value;
use crate::text::chars_of;
use crate::token::{is_digit, spec_is_digit};
use vstd::prelude::*;

verus! {

/// Where the digits that start at `i` end.
pub open spec fn digits_end(s: Seq<char>, i: int) -> int
    decreases s.len() - i,
{
    if 0 <= i < s.len() && spec_is_digit(s[i]) {
        digits_end(s, i + 1)
    } else {
        i
    }
}

/// Behind an optional sign at `i`.
pub open spec fn sign_end(s: Seq<char>, i: int) -> int {
    if 0 <= i < s.len() && (s[i] == '+' || s[i] == '-') {
        i + 1
    } else {
        i
    }
}

/// Where the digits and the point of a number that start at `i` end; `i` where there is no digit.
pub open spec fn mantissa_end(s: Seq<char>, i: int) -> int {
    let a = digits_end(s, i);
    if 0 <= a < s.len() && s[a] == '.' {
        let b = digits_end(s, a + 1);
        if a > i || b > a + 1 {
            b
        } else {
            i
        }
    } else {
        a
    }
}

/// Whether an exponent stands from `i` to the end.
pub open spec fn is_exponent(s: Seq<char>, i: int) -> bool {
    0 <= i < s.len() && (s[i] == 'e' || s[i] == 'E') && ({
        let k = sign_end(s, i + 1);
        digits_end(s, k) == s.len() && k < s.len()
    })
}

/// Whether `s` from `i` on is `word`, without regard to the case of ASCII letters.
pub open spec fn is_word(s: Seq<char>, i: int, word: Seq<char>) -> bool {
    s.len() - i == word.len() && forall|k: int|
        0 <= k < word.len() ==> (#[trigger] s[i + k] == word[k] || s[i + k] as int + 32 == word[k] as int)
}

/// Whether a text is a decimal number: a sign, digits with or without a point, an exponent.
pub open spec fn is_plain_number(s: Seq<char>) -> bool {
    let i = sign_end(s, 0);
    let m = mantissa_end(s, i);
    m > i && (m == s.len() || is_exponent(s, m))
}

/// Whether a text reads as a floating-point number, as `str::parse` documents it: a decimal
/// number, an infinity or NaN.
pub open spec fn is_number_text(s: Seq<char>) -> bool {
    is_plain_number(s) || is_word(s, sign_end(s, 0), "inf"@) || is_word(
        s,
        sign_end(s, 0),
        "infinity"@,
    ) || is_word(s, sign_end(s, 0), "nan"@)
}

/// Whether a digit other than 0 stands between `i` and `e`.
pub open spec fn has_nonzero(s: Seq<char>, i: int, e: int) -> bool {
    exists|k: int| i <= k < e && spec_is_digit(#[trigger] s[k]) && s[k] != '0'
}

/// Whether a text stands for a number other than 0 (infinities among them).
pub open spec fn is_nonzero(s: Seq<char>) -> bool {
    let i = sign_end(s, 0);
    if is_plain_number(s) {
        has_nonzero(s, i, mantissa_end(s, i))
    } else {
        true
    }
}

/// Whether a text stands for a number above 0; NaN is not.
pub open spec fn is_positive(s: Seq<char>) -> bool {
    &&& is_nonzero(s)
    &&& !(s.len() > 0 && s[0] == '-')
    &&& !is_word(s, sign_end(s, 0), "nan"@)
}

fn digits_end_of(s: &Vec<char>, i: usize) -> (r: usize)
    requires
        i <= s.len(),
    ensures
        r == digits_end(s@, i as int),
        i <= r <= s.len(),
{
    let mut j: usize = i;
    while j < s.len() && is_digit(s[j])
        invariant
            i <= j <= s.len(),
            digits_end(s@, i as int) == digits_end(s@, j as int),
        decreases s.len() - j,
    {
        j = j + 1;
    }
    j
}

fn sign_end_of(s: &Vec<char>, i: usize) -> (r: usize)
    requires
        i <= s.len(),
    ensures
        r == sign_end(s@, i as int),
        i <= r <= s.len(),
{
    if i < s.len() && (s[i] == '+' || s[i] == '-') {
        i + 1
    } else {
        i
    }
}

fn mantissa_end_of(s: &Vec<char>, i: usize) -> (r: usize)
    requires
        i <= s.len(),
    ensures
        r == mantissa_end(s@, i as int),
        i <= r <= s.len(),
{
    let a: usize = digits_end_of(s, i);
    if a < s.len() && s[a] == '.' {
        let b: usize = digits_end_of(s, a + 1);
        if a > i || b > a + 1 {
            b
        } else {
            i
        }
    } else {
        a
    }
}

fn plain_number(s: &Vec<char>) -> (r: bool)
    ensures
        r == is_plain_number(s@),
{
    let i: usize = sign_end_of(s, 0);
    let m: usize = mantissa_end_of(s, i);
    if m == i {
        return false;
    }
    if m == s.len() {
        return true;
    }
    if s[m] == 'e' || s[m] == 'E' {
        let k: usize = sign_end_of(s, m + 1);
        k < s.len() && digits_end_of(s, k) == s.len()
    } else {
        false
    }
}

fn word_at(s: &Vec<char>, i: usize, word: &str) -> (r: bool)
    requires
        i <= s.len(),
        forall|k: int| 0 <= k < word@.len() ==> 'a' <= #[trigger] word@[k] <= 'z',
    ensures
        r == is_word(s@, i as int, word@),
{
    let w: Vec<char> = chars_of(word);
    if s.len() - i != w.len() {
        return false;
    }
    let mut k: usize = 0;
    while k < w.len()
        invariant
            k <= w.len(),
            s.len() - i == w.len(),
            w@ == word@,
            forall|j: int| 0 <= j < word@.len() ==> 'a' <= #[trigger] word@[j] <= 'z',
            forall|j: int|
                0 <= j < k ==> (#[trigger] s@[i + j] == word@[j] || s@[i + j] as int + 32 == word@[j] as int),
        decreases w.len() - k,
    {
        let c = s[i + k];
        assert('a' <= word@[k as int] <= 'z');
        if !(c == w[k] || ('A' <= c && c <= 'Z' && c as u64 + 32 == w[k] as u64)) {
            assert(!(s@[i + k] == word@[k as int] || s@[i + k] as int + 32 == word@[k as int] as int));
            return false;
        }
        k = k + 1;
    }
    true
}

/// Whether a text reads as a floating-point number.
pub fn number_text(s: &str) -> (r: bool)
    ensures
        r == is_number_text(s@),
{
    proof {
        reveal_strlit("inf");
        reveal_strlit("infinity");
        reveal_strlit("nan");
    }
    let chars: Vec<char> = chars_of(s);
    let i: usize = sign_end_of(&chars, 0);
    plain_number(&chars) || word_at(&chars, i, "inf") || word_at(&chars, i, "infinity") || word_at(
        &chars,
        i,
        "nan",
    )
}

/// Whether a text stands for a number other than 0.
pub fn nonzero(s: &str) -> (r: bool)
    ensures
        r == is_nonzero(s@),
{
    let chars: Vec<char> = chars_of(s);
    if !plain_number(&chars) {
        return true;
    }
    let i: usize = sign_end_of(&chars, 0);
    let m: usize = mantissa_end_of(&chars, i);
    let mut k: usize = i;
    while k < m
        invariant
            i <= k <= m <= chars.len(),
            chars@ == s@,
            i == sign_end(s@, 0),
            m == mantissa_end(s@, i as int),
            is_plain_number(s@),
            forall|j: int| i <= j < k ==> !(spec_is_digit(#[trigger] chars@[j]) && chars@[j] != '0'),
        decreases m - k,
    {
        if is_digit(chars[k]) && chars[k] != '0' {
            assert(has_nonzero(chars@, i as int, m as int));
            return true;
        }
        k = k + 1;
    }
    false
}

/// Whether a text stands for a number above 0.
pub fn positive(s: &str) -> (r: bool)
    ensures
        r == is_positive(s@),
{
    proof {
        reveal_strlit("nan");
    }
    let chars: Vec<char> = chars_of(s);
    let i: usize = sign_end_of(&chars, 0);
    nonzero(s) && !(chars.len() > 0 && chars[0] == '-') && !word_at(&chars, i, "nan")
}

/// The whole part of a decimal number, cut off at the range of `i64`. A number with an exponent
/// counts as one of at least 1e21 or under 1e-6, which is where numerals have one.
pub open spec fn whole(s: Seq<char>) -> int {
    let i = sign_end(s, 0);
    let negative = s.len() > 0 && s[0] == '-';
    let d = digits_end(s, i);
    let m = mantissa_end(s, i);
    let exponent = is_exponent(s, m);
    let size = if exponent {
        if m + 1 < s.len() && s[m + 1] == '-' {
            0
        } else {
            i64::MAX + 1
        }
    } else {
        digits_value(s, i, d)
    };
    if negative {
        if size > i64::MAX {
            i64::MIN as int
        } else {
            -size
        }
    } else if size > i64::MAX {
        i64::MAX as int
    } else {
        size
    }
}

/// The number that the digits between `i` and `e` stand for.
pub open spec fn digits_value(s: Seq<char>, i: int, e: int) -> int
    decreases e - i,
{
    if i >= e {
        0
    } else {
        digits_value(s, i, e - 1) * 10 + digit_value(s[e - 1])
    }
}

proof fn digits_end_all(s: Seq<char>, i: int, k: int)
    requires
        0 <= i <= k < digits_end(s, i),
    ensures
        spec_is_digit(s[k]),
        k < s.len(),
    decreases s.len() - i,
{
    if i < k {
        digits_end_all(s, i + 1, k);
    }
}

/// The whole part of a decimal number.
pub fn whole_part(s: &str) -> (r: i64)
    ensures
        r == whole(s@),
{
    let chars: Vec<char> = chars_of(s);
    let i: usize = sign_end_of(&chars, 0);
    let d: usize = digits_end_of(&chars, i);
    let m: usize = mantissa_end_of(&chars, i);
    let negative = chars.len() > 0 && chars[0] == '-';
    if m < chars.len() && (chars[m] == 'e' || chars[m] == 'E') {
        let k: usize = sign_end_of(&chars, m + 1);
        if k < chars.len() && digits_end_of(&chars, k) == chars.len() {
            if chars[m + 1] == '-' {
                return 0;
            }
            return if negative {
                i64::MIN
            } else {
                i64::MAX
            };
        }
    }
    // 2^63, the first size that no i64 has
    let top: u64 = 0x8000_0000_0000_0000;
    let mut n: u64 = 0;
    let mut k: usize = i;
    while k < d
        invariant
            i <= k <= d <= chars.len(),
            d == digits_end(chars@, i as int),
            top == 0x8000_0000_0000_0000u64,
            n <= top,
            n < top ==> n == digits_value(chars@, i as int, k as int),
            n == top ==> digits_value(chars@, i as int, k as int) >= top,
        decreases d - k,
    {
        proof {
            digits_end_all(chars@, i as int, k as int);
        }
        let c = chars[k];
        let v: u64 = crate::decimal::digit_of(c);
        if n >= top / 10 + 1 || n * 10 + v >= top {
            n = top;
        } else {
            n = n * 10 + v;
        }
        k = k + 1;
    }
    if negative {
        if n >= top {
            i64::MIN
        } else {
            -(n as i64)
        }
    } else if n >= top {
        i64::MAX
    } else {
        n as i64
    }
}

} // verus!
