//! Decimal numerals of natural numbers: writing them and reading them back.
use crate::token::{is_digit, spec_is_digit};
use vstd::prelude::*;

verus! {

/// The digit for a value under ten.
pub open spec fn digit(d: int) -> char {
    ('0' as int + d) as char
}

/// The value of a digit.
pub open spec fn digit_value(c: char) -> int {
    c as int - '0' as int
}

/// The shortest decimal numeral of `n`.
pub open spec fn dec(n: nat) -> Seq<char>
    decreases n,
{
    if n < 10 {
        seq![digit(n as int)]
    } else {
        dec(n / 10).push(digit((n % 10) as int))
    }
}

/// The number that a row of digits stands for.
pub open spec fn dec_value(s: Seq<char>) -> nat
    decreases s.len(),
{
    if s.len() == 0 {
        0
    } else {
        (dec_value(s.drop_last()) * 10 + digit_value(s.last())) as nat
    }
}

/// Whether a text is made of digits alone.
pub open spec fn all_digits(s: Seq<char>) -> bool {
    forall|i: int| 0 <= i < s.len() ==> spec_is_digit(#[trigger] s[i])
}

/// What `str::parse` reads as an unsigned number up to `max`: an optional `+`, then digits.
pub open spec fn parse_unsigned(s: Seq<char>, max: nat) -> Option<nat> {
    let t = if s.len() > 1 && s[0] == '+' {
        s.skip(1)
    } else {
        s
    };
    if t.len() > 0 && all_digits(t) && dec_value(t) <= max {
        Some(dec_value(t))
    } else {
        None
    }
}

/// A numeral reads back as the number it was written for.
pub proof fn dec_round_trip(n: nat)
    ensures
        dec_value(dec(n)) == n,
        all_digits(dec(n)),
        dec(n).len() > 0,
    decreases n,
{
    if n >= 10 {
        dec_round_trip(n / 10);
        assert(dec(n).drop_last() == dec(n / 10));
    } else {
        reveal_with_fuel(dec_value, 2);
        assert(dec(n).drop_last() == Seq::<char>::empty());
    }
}

/// A numeral is read by [`parse_unsigned`] whenever the number is in range.
pub proof fn parse_unsigned_dec(n: nat, max: nat)
    requires
        n <= max,
    ensures
        parse_unsigned(dec(n), max) == Some(n),
{
    dec_round_trip(n);
    assert(spec_is_digit(dec(n)[0]));
}

proof fn dec_value_mono(s: Seq<char>, k: int)
    requires
        0 <= k <= s.len(),
        all_digits(s),
    ensures
        dec_value(s.take(k)) <= dec_value(s),
    decreases s.len() - k,
{
    if k < s.len() {
        dec_value_mono(s, k + 1);
        assert(s.take(k + 1).drop_last() == s.take(k));
        assert(spec_is_digit(s[k]));
    } else {
        assert(s.take(k) == s);
    }
}

fn digit_char(d: u128) -> (r: char)
    requires
        d < 10,
    ensures
        r == digit(d as int),
{
    if d == 0 {
        '0'
    } else if d == 1 {
        '1'
    } else if d == 2 {
        '2'
    } else if d == 3 {
        '3'
    } else if d == 4 {
        '4'
    } else if d == 5 {
        '5'
    } else if d == 6 {
        '6'
    } else if d == 7 {
        '7'
    } else if d == 8 {
        '8'
    } else {
        '9'
    }
}

/// Appends the numeral of `n`.
pub fn push_dec(out: &mut String, n: u128)
    ensures
        final(out)@ == old(out)@ + dec(n as nat),
    decreases n,
{
    if n >= 10 {
        push_dec(out, n / 10);
    }
    out.push(digit_char(n % 10));
    assert(out@ == old(out)@ + dec(n as nat));
}

/// The numeral of `n`.
pub fn dec_string(n: u128) -> (r: String)
    ensures
        r@ == dec(n as nat),
{
    let mut out: String = String::new();
    push_dec(&mut out, n);
    out
}

/// The value of a digit.
pub fn digit_of(c: char) -> (r: u64)
    requires
        spec_is_digit(c),
    ensures
        r == digit_value(c),
{
    c as u64 - '0' as u64
}

/// Reads an unsigned number up to `max`, as `str::parse` does.
pub fn read_unsigned(s: &Vec<char>, max: u64) -> (r: Option<u64>)
    ensures
        match parse_unsigned(s@, max as nat) {
            Some(n) => r == Some(n as u64) && n <= max,
            None => r is None,
        },
{
    let start: usize = if s.len() > 1 && s[0] == '+' {
        1
    } else {
        0
    };
    if s.len() == start {
        return None;
    }
    let ghost t = s@.skip(start as int);
    assert(start == 0 ==> t == s@);
    let mut n: u64 = 0;
    let mut i: usize = start;
    while i < s.len()
        invariant
            start <= i <= s.len(),
            t == s@.skip(start as int),
            forall|k: int| 0 <= k < i - start ==> spec_is_digit(#[trigger] t[k]),
            n == dec_value(t.take(i - start)),
            n <= max,
            parse_unsigned(s@, max as nat) == (if t.len() > 0 && all_digits(t) && dec_value(t) <= max {
                Some(dec_value(t))
            } else {
                None
            }),
        decreases s.len() - i,
    {
        let c = s[i];
        assert(t[i - start] == c);
        if !is_digit(c) {
            return None;
        }
        let d: u64 = digit_of(c);
        let ghost next = t.take(i - start + 1);
        proof {
            assert(next.drop_last() == t.take(i - start));
            assert(next.last() == c);
            if all_digits(t) {
                dec_value_mono(t, i - start + 1);
            }
        }
        if n > max / 10 || d > max - n * 10 {
            return None;
        }
        n = n * 10 + d;
        i = i + 1;
    }
    assert(t.take(i - start) == t);
    Some(n)
}

/// What `str::parse` reads as a signed 64-bit number: an optional sign, then digits.
pub open spec fn parse_signed(s: Seq<char>) -> Option<int> {
    if s.len() > 1 && s[0] == '-' {
        let t = s.skip(1);
        if all_digits(t) && dec_value(t) <= 0x8000_0000_0000_0000 {
            Some(-(dec_value(t) as int))
        } else {
            None
        }
    } else {
        match parse_unsigned(s, 0x7fff_ffff_ffff_ffff) {
            Some(n) => Some(n as int),
            None => None,
        }
    }
}

/// Reads a signed 64-bit number as `str::parse` does.
pub fn read_signed(s: &Vec<char>) -> (r: Option<i64>)
    ensures
        match parse_signed(s@) {
            Some(n) => r == Some(n as i64) && i64::MIN <= n <= i64::MAX,
            None => r is None,
        },
{
    if s.len() > 1 && s[0] == '-' {
        if s[1] == '+' {
            assert(!spec_is_digit(s@.skip(1)[0]));
            return None;
        }
        let mut t: Vec<char> = Vec::new();
        let mut i: usize = 1;
        while i < s.len()
            invariant
                1 <= i <= s.len(),
                t@ == s@.subrange(1, i as int),
            decreases s.len() - i,
        {
            t.push(s[i]);
            i = i + 1;
        }
        assert(t@ =~= s@.skip(1));
        match read_unsigned(&t, 0x8000_0000_0000_0000) {
            Some(n) => if n == 0x8000_0000_0000_0000 {
                Some(i64::MIN)
            } else {
                Some(-(n as i64))
            },
            None => None,
        }
    } else {
        match read_unsigned(s, 0x7fff_ffff_ffff_ffff) {
            Some(n) => Some(n as i64),
            None => None,
        }
    }
}

} // verus!
