//! Functions on whole numbers: bases, bits, Roman numerals, divisors.
use crate::kernel::Kernel;
use crate::logic_fn::equal;
use crate::reading::{
    everything, failed, given, given_from, is_whole, nth, num, num_or, number_at, number_of_whole,
    number_or, read_seq, reply_view, say, text_at, truncated, two_to, txt, values_from, whole, Arg,
    Given, Read, Reading, Reply, Said,
};
use crate::text::{chars_of, trim_text, trimmed, upper};
use crate::text_fn::{repeat_text, repeated};
use crate::value::{blank, zero, FormulaError, Num};
use vstd::prelude::*;

verus! {

/// The digit of a value below 36.
pub open spec fn digit_char(d: int) -> char {
    if d < 10 {
        ('0' as int + d) as char
    } else {
        ('A' as int + (d - 10)) as char
    }
}

/// The value of a digit, in capitals or not.
pub open spec fn digit_val(c: char) -> Option<int> {
    if '0' <= c <= '9' {
        Some(c as int - '0' as int)
    } else if 'A' <= c <= 'Z' {
        Some(c as int - 'A' as int + 10)
    } else if 'a' <= c <= 'z' {
        Some(c as int - 'a' as int + 10)
    } else {
        None
    }
}

/// The shortest numeral of `n` in a base.
pub open spec fn numeral(n: nat, base: nat) -> Seq<char>
    decreases n,
{
    if base < 2 || n < base {
        seq![digit_char(n as int)]
    } else {
        proof {
            assert(n / base < n) by (nonlinear_arith)
                requires
                    n >= base,
                    base >= 2,
            ;
        }
        numeral(n / base, base).push(digit_char((n % base) as int))
    }
}

/// The value of a numeral in a base.
pub open spec fn numeral_value(s: Seq<char>, base: nat) -> int
    decreases s.len(),
{
    if s.len() == 0 {
        0
    } else {
        numeral_value(s.drop_last(), base) * base + match digit_val(s.last()) {
            Some(d) => d,
            None => 0,
        }
    }
}

/// Whether a text is made of digits of a base.
pub open spec fn all_in_base(s: Seq<char>, base: nat) -> bool {
    forall|i: int| 0 <= i < s.len() ==> in_base(#[trigger] s[i], base)
}

/// Whether a character is a digit of a base.
pub open spec fn in_base(c: char, base: nat) -> bool {
    digit_val(c) matches Some(d) && d < base
}

/// A base to the `k`.
pub open spec fn to_the(base: nat, k: nat) -> nat
    decreases k,
{
    if k == 0 {
        1
    } else {
        base * to_the(base, (k - 1) as nat)
    }
}

/// A numeral reads back as its number, is made of digits of its base, and is no longer than the
/// number's size asks for.
pub proof fn numeral_round_trip(n: nat, base: nat)
    requires
        2 <= base <= 36,
    ensures
        numeral_value(numeral(n, base), base) == n,
        all_in_base(numeral(n, base), base),
        numeral(n, base).len() > 0,
        n < to_the(base, numeral(n, base).len()),
        numeral(n, base).len() > 1 ==> to_the(base, (numeral(n, base).len() - 1) as nat) <= n,
    decreases n,
{
    let s = numeral(n, base);
    if n < base {
        assert(s.drop_last() =~= Seq::<char>::empty());
        assert(numeral_value(s.drop_last(), base) == 0);
        assert(0 * base == 0) by (nonlinear_arith);
        assert(to_the(base, 1) == base * to_the(base, 0));
        assert(base * 1 == base) by (nonlinear_arith);
    } else {
        assert(n / base < n) by (nonlinear_arith)
            requires
                n >= base,
                base >= 2,
        ;
        numeral_round_trip(n / base, base);
        let t = numeral(n / base, base);
        assert(s.drop_last() =~= t);
        assert((n / base) * base + n % base == n) by (nonlinear_arith)
            requires
                base >= 2,
        ;
        assert forall|i: int| 0 <= i < s.len() implies in_base(#[trigger] s[i], base) by {
            if i < t.len() {
                assert(s[i] == t[i]);
            }
        }
        let k = t.len();
        assert(to_the(base, k + 1) == base * to_the(base, k));
        let q = n / base;
        let p = to_the(base, k);
        assert(n < base * p) by (nonlinear_arith)
            requires
                q == n / base,
                q < p,
                base >= 2,
        ;
        if k > 1 {
            let lo = to_the(base, (k - 1) as nat);
            assert(base * lo <= n) by (nonlinear_arith)
                requires
                    q == n / base,
                    lo <= q,
                    base >= 2,
            ;
        } else {
            assert(to_the(base, 1) == base * to_the(base, 0));
            assert(base * 1 == base) by (nonlinear_arith);
        }
    }
}

fn digit_of(d: u64) -> (r: char)
    requires
        d < 36,
    ensures
        r == digit_char(d as int),
{
    if d < 10 {
        (48 + d as u8) as char
    } else {
        (55 + d as u8) as char
    }
}

fn push_numeral(out: &mut String, n: u64, base: u64)
    requires
        2 <= base <= 36,
    ensures
        final(out)@ == old(out)@ + numeral(n as nat, base as nat),
    decreases n,
{
    let ghost before = out@;
    if n >= base {
        proof {
            assert((n as nat) / (base as nat) < n) by (nonlinear_arith)
                requires
                    n >= base,
                    base >= 2,
            ;
        }
        push_numeral(out, n / base, base);
        out.push(digit_of(n % base));
        assert(out@ =~= before + numeral(n as nat, base as nat));
    } else {
        out.push(digit_of(n));
        assert(out@ =~= before + numeral(n as nat, base as nat));
    }
}

/// The shortest numeral of a number in a base.
pub fn to_radix_string(v: u64, radix: u32) -> (r: String)
    requires
        2 <= radix <= 36,
    ensures
        r@ == numeral(v as nat, radix as nat),
{
    let mut out: String = String::new();
    push_numeral(&mut out, v, radix as u64);
    assert(out@ =~= numeral(v as nat, radix as nat));
    out
}

/// The shortest numeral of a number in a base up to 16; nothing for a negative number.
pub fn radix_string(n: i64, base: i64) -> (r: String)
    requires
        2 <= base <= 16,
    ensures
        r@ == (if n < 0 {
            Seq::empty()
        } else {
            numeral(n as nat, base as nat)
        }),
{
    if n < 0 {
        let none: String = String::new();
        assert(none@ =~= Seq::empty());
        none
    } else {
        to_radix_string(n as u64, base as u32)
    }
}

/// A base of the conversions with ten digits at most.
#[derive(Debug, Clone, Copy, PartialEq, Eq, Structural)]
pub enum Radix {
    Bin,
    Oct,
    Hex,
}

impl Radix {
    pub open spec fn spec_base(self) -> nat {
        match self {
            Radix::Bin => 2,
            Radix::Oct => 8,
            Radix::Hex => 16,
        }
    }

    /// The base.
    pub fn base(self) -> (r: u32)
        ensures
            r == self.spec_base(),
            2 <= r <= 16,
    {
        match self {
            Radix::Bin => 2,
            Radix::Oct => 8,
            Radix::Hex => 16,
        }
    }

    /// The base to the ten: what is taken off a numeral of ten digits for a negative number.
    pub open spec fn spec_neg(self) -> int {
        match self {
            Radix::Bin => 0x400,
            Radix::Oct => 0x4000_0000,
            Radix::Hex => 0x100_0000_0000,
        }
    }

    pub fn neg(self) -> (r: i64)
        ensures
            r == self.spec_neg(),
    {
        match self {
            Radix::Bin => 0x400,
            Radix::Oct => 0x4000_0000,
            Radix::Hex => 0x100_0000_0000,
        }
    }
}

/// The number that a numeral of at most ten digits stands for; one of ten digits whose first
/// bit is set stands for a negative number.
pub open spec fn read_radix(text: Seq<char>, radix: Radix) -> Result<int, FormulaError> {
    let t = trimmed(text);
    if t.len() == 0 {
        Ok(0)
    } else if t.len() > 10 || !all_in_base(t, radix.spec_base()) {
        Err(FormulaError::Num)
    } else {
        let v = numeral_value(t, radix.spec_base());
        if t.len() == 10 && v >= radix.spec_neg() / 2 {
            Ok(v - radix.spec_neg())
        } else {
            Ok(v)
        }
    }
}

/// The value of a digit, in capitals or not.
pub fn digit_value_of(c: char) -> (r: Option<u32>)
    ensures
        match digit_val(c) {
            Some(d) => r == Some(d as u32) && 0 <= d < 36,
            None => r is None,
        },
{
    if '0' <= c && c <= '9' {
        Some(c as u32 - 48)
    } else if 'A' <= c && c <= 'Z' {
        Some(c as u32 - 55)
    } else if 'a' <= c && c <= 'z' {
        Some(c as u32 - 87)
    } else {
        None
    }
}

proof fn value_bounds(s: Seq<char>, base: nat)
    requires
        2 <= base <= 16,
        all_in_base(s, base),
    ensures
        0 <= numeral_value(s, base) < to_the(base, s.len()),
    decreases s.len(),
{
    if s.len() > 0 {
        let t = s.drop_last();
        assert forall|i: int| 0 <= i < t.len() implies in_base(#[trigger] t[i], base) by {
            assert(t[i] == s[i]);
        }
        value_bounds(t, base);
        assert(in_base(s[s.len() - 1], base));
        let v = numeral_value(t, base);
        let p = to_the(base, t.len());
        let d = digit_val(s.last())->0;
        assert(to_the(base, s.len()) == base * p);
        assert(0 <= v * base + d < base * p) by (nonlinear_arith)
            requires
                0 <= v < p,
                0 <= d < base,
        ;
    }
}

proof fn ten_digits(base: nat, k: nat)
    requires
        base == 2 || base == 8 || base == 16,
        k <= 10,
    ensures
        to_the(base, k) <= 0x100_0000_0000,
        base == 2 ==> to_the(base, 10) == 0x400,
        base == 8 ==> to_the(base, 10) == 0x4000_0000,
        base == 16 ==> to_the(base, 10) == 0x100_0000_0000,
        base == 2 ==> to_the(base, 9) == 0x200,
{
    reveal_with_fuel(to_the, 12);
}

/// The number that a numeral of at most ten digits stands for.
pub fn parse_radix(text: &str, radix: Radix) -> (r: Result<i64, FormulaError>)
    ensures
        match read_radix(text@, radix) {
            Ok(v) => r == Ok::<i64, FormulaError>(v as i64) && -0x80_0000_0000 <= v < 0x100_0000_0000,
            Err(e) => r == Err::<i64, FormulaError>(e),
        },
{
    let t: String = trim_text(text);
    let chars: Vec<char> = chars_of(t.as_str());
    let n: usize = chars.len();
    if n == 0 {
        return Ok(0);
    }
    if n > 10 {
        return Err(FormulaError::Num);
    }
    let base: u32 = radix.base();
    let mut v: i64 = 0;
    let mut i: usize = 0;
    assert(t@.take(0) =~= Seq::<char>::empty());
    while i < n
        invariant
            i <= n <= 10,
            n == chars.len(),
            n > 0,
            chars@ == t@,
            t@ == trimmed(text@),
            base == radix.spec_base(),
            2 <= base <= 16,
            v == numeral_value(t@.take(i as int), base as nat),
            0 <= v < to_the(base as nat, i as nat),
            forall|k: int| 0 <= k < i ==> in_base(#[trigger] t@[k], base as nat),
        decreases n - i,
    {
        match digit_value_of(chars[i]) {
            Some(d) => {
                if d >= base {
                    assert(!in_base(t@[i as int], base as nat));
                    return Err(FormulaError::Num);
                }
                proof {
                    ten_digits(base as nat, i as nat);
                    ten_digits(base as nat, (i + 1) as nat);
                    assert(t@.take(i + 1).drop_last() =~= t@.take(i as int));
                    assert(t@.take(i + 1).last() == t@[i as int]);
                    let p = to_the(base as nat, i as nat);
                    assert(v * base + d < base * p) by (nonlinear_arith)
                        requires
                            0 <= v < p,
                            0 <= d < base,
                    ;
                    assert(0 <= v * base <= v * 16) by (nonlinear_arith)
                        requires
                            0 <= v,
                            base <= 16,
                    ;
                    assert(v * base == numeral_value(t@.take(i as int), base as nat) * (
                    base as nat));
                }
                v = v * (base as i64) + d as i64;
            },
            None => {
                assert(!in_base(t@[i as int], base as nat));
                return Err(FormulaError::Num);
            },
        }
        i = i + 1;
    }
    assert(t@.take(i as int) =~= t@);
    proof {
        ten_digits(base as nat, n as nat);
    }
    if n == 10 && v >= radix.neg() / 2 {
        Ok(v - radix.neg())
    } else {
        Ok(v)
    }
}

/// The numeral of at most ten digits that stands for a number; `places` pads a numeral that is
/// not negative with zeros.
pub open spec fn write_radix(n: int, radix: Radix, places: Option<int>) -> Said {
    if n < -radix.spec_neg() / 2 || n > radix.spec_neg() / 2 - 1 {
        failed(FormulaError::Num)
    } else if n < 0 {
        say(numeral((n + radix.spec_neg()) as nat, radix.spec_base()))
    } else {
        let s = numeral(n as nat, radix.spec_base());
        match places {
            None => say(s),
            Some(p) => if p < 0 || p > 10 || s.len() > p {
                failed(FormulaError::Num)
            } else {
                say(repeated("0"@, p - s.len()) + s)
            },
        }
    }
}

/// Optional places as an integer.
pub open spec fn places_view(p: Option<i64>) -> Option<int> {
    match p {
        Some(k) => Some(k as int),
        None => None,
    }
}

/// The numeral of at most ten digits that stands for a number.
pub fn to_radix(n: i64, radix: Radix, places: Option<i64>) -> (r: Reply)
    ensures
        r@ == write_radix(n as int, radix, places_view(places)),
{
    let neg: i64 = radix.neg();
    let base: u32 = radix.base();
    assert(-radix.spec_neg() / 2 == -(radix.spec_neg() / 2));
    if n < -(neg / 2) || n > neg / 2 - 1 {
        return Reply::error(FormulaError::Num);
    }
    if n < 0 {
        return Reply::text(to_radix_string((n + neg) as u64, base));
    }
    let s: String = to_radix_string(n as u64, base);
    match places {
        None => Reply::text(s),
        Some(p) => {
            let len: usize = chars_of(s.as_str()).len();
            if p < 0 || p > 10 || len > p as usize {
                return Reply::error(FormulaError::Num);
            }
            let mut out: String = repeat_text("0", p - len as i64);
            out.append(s.as_str());
            Reply::text(out)
        },
    }
}

/// What is written for a number that ten digits hold reads back as that number.
pub proof fn radix_round_trip(n: int, radix: Radix)
    requires
        -radix.spec_neg() / 2 <= n <= radix.spec_neg() / 2 - 1,
    ensures
        write_radix(n, radix, None) matches Said::Value(crate::value::FValue::Text(s)) && read_radix(
            s,
            radix,
        ) == Ok::<int, FormulaError>(n),
{
    let base = radix.spec_base();
    let neg = radix.spec_neg();
    assert(-neg / 2 == -(neg / 2));
    let m: nat = (if n < 0 {
        n + neg
    } else {
        n
    }) as nat;
    let s = numeral(m, base);
    numeral_round_trip(m, base);
    no_white(s, base);
    ten_digits(base, 10);
    if s.len() > 10 {
        longer(base, 10, (s.len() - 1) as nat);
    }
    if n < 0 {
        if s.len() < 10 {
            longer(base, s.len(), 9);
            ninth(radix);
        }
    }
}

proof fn ninth(radix: Radix)
    ensures
        to_the(radix.spec_base(), 9) <= radix.spec_neg() / 2,
{
    ten_digits(radix.spec_base(), 10);
    assert(to_the(radix.spec_base(), 10) == radix.spec_base() * to_the(radix.spec_base(), 9));
}

proof fn longer(base: nat, a: nat, b: nat)
    requires
        base >= 1,
        a <= b,
    ensures
        to_the(base, a) <= to_the(base, b),
    decreases b,
{
    if a < b {
        longer(base, a, (b - 1) as nat);
        let p = to_the(base, (b - 1) as nat);
        assert(p <= base * p) by (nonlinear_arith)
            requires
                base >= 1,
        ;
    }
}

proof fn no_white(s: Seq<char>, base: nat)
    requires
        all_in_base(s, base),
    ensures
        trimmed(s) == s,
{
    if s.len() > 0 {
        assert(in_base(s[0], base));
        assert(in_base(s[s.len() - 1], base));
    }
}

/// The number of places, where the argument at `i` is given.
pub open spec fn places_of(args: Seq<Given>, i: int) -> Result<Option<int>, FormulaError> {
    if i < args.len() {
        match num(nth(args, i)) {
            Ok(n) => Ok(Some(truncated(n))),
            Err(e) => Err(e),
        }
    } else {
        Ok(None)
    }
}

fn places_arg(args: &Vec<Arg>, i: usize) -> (r: Result<Option<i64>, FormulaError>)
    ensures
        match places_of(given(args@), i as int) {
            Ok(p) => r matches Ok(q) && places_view(q) == p,
            Err(e) => r == Err::<Option<i64>, FormulaError>(e),
        },
{
    if i < args.len() {
        match number_at(args, i) {
            Ok(n) => Ok(Some(whole(n))),
            Err(e) => Err(e),
        }
    } else {
        Ok(None)
    }
}

/// `BIN2DEC` and the like: from a base to a number.
pub open spec fn conv_to_dec_of(args: Seq<Given>, src: Radix) -> Said {
    match txt(nth(args, 0)) {
        Err(e) => failed(e),
        Ok(t) => match read_radix(t, src) {
            Err(e) => failed(e),
            Ok(v) => Said::Int(v),
        },
    }
}

pub fn conv_to_dec(args: &Vec<Arg>, src: Radix) -> (r: Reply)
    ensures
        r@ == conv_to_dec_of(given(args@), src),
{
    match text_at(args, 0) {
        Err(e) => Reply::error(e),
        Ok(t) => match parse_radix(t.as_str(), src) {
            Err(e) => Reply::error(e),
            Ok(v) => Reply::Int(v),
        },
    }
}

/// `BIN2HEX` and the like: from one base to another.
pub open spec fn conv_radix_of(args: Seq<Given>, src: Radix, dst: Radix) -> Said {
    match txt(nth(args, 0)) {
        Err(e) => failed(e),
        Ok(t) => match read_radix(t, src) {
            Err(e) => failed(e),
            Ok(v) => match places_of(args, 1) {
                Err(e) => failed(e),
                Ok(p) => write_radix(v, dst, p),
            },
        },
    }
}

pub fn conv_radix(args: &Vec<Arg>, src: Radix, dst: Radix) -> (r: Reply)
    ensures
        r@ == conv_radix_of(given(args@), src, dst),
{
    match text_at(args, 0) {
        Err(e) => Reply::error(e),
        Ok(t) => match parse_radix(t.as_str(), src) {
            Err(e) => Reply::error(e),
            Ok(v) => match places_arg(args, 1) {
                Err(e) => Reply::error(e),
                Ok(p) => to_radix(v, dst, p),
            },
        },
    }
}

/// `DEC2BIN` and the like: from a number to a base.
pub open spec fn dec_to_of(args: Seq<Given>, dst: Radix) -> Said {
    match num(nth(args, 0)) {
        Err(e) => failed(e),
        Ok(n) => match places_of(args, 1) {
            Err(e) => failed(e),
            Ok(p) => write_radix(truncated(n), dst, p),
        },
    }
}

pub fn dec_to(args: &Vec<Arg>, dst: Radix) -> (r: Reply)
    ensures
        r@ == dec_to_of(given(args@), dst),
{
    match number_at(args, 0) {
        Err(e) => Reply::error(e),
        Ok(n) => match places_arg(args, 1) {
            Err(e) => Reply::error(e),
            Ok(p) => to_radix(whole(n), dst, p),
        },
    }
}

/// `BASE`: the numeral of a number in a base, padded with zeros to a length.
pub open spec fn base_of(args: Seq<Given>) -> Said {
    match num(nth(args, 0)) {
        Err(e) => failed(e),
        Ok(v) => match num(nth(args, 1)) {
            Err(e) => failed(e),
            Ok(radix) => match num_or(args, 2, zero()) {
                Err(e) => failed(e),
                Ok(min_len) => base_text(truncated(v), truncated(radix), truncated(min_len)),
            },
        },
    }
}

/// The numeral of a number in a base, padded with zeros to a length.
pub open spec fn base_text(value: int, radix: int, min_len: int) -> Said {
    if radix < 2 || radix > 36 || value < 0 {
        failed(FormulaError::Num)
    } else {
        let s = numeral(value as nat, radix as nat);
        say(repeated("0"@, min_len - s.len()) + s)
    }
}

/// The numeral of a number in a base, padded with zeros to a length.
pub fn to_base_text(value: i64, radix: i64, min_len: i64) -> (r: Reply)
    ensures
        r@ == base_text(value as int, radix as int, min_len as int),
{
    if radix < 2 || radix > 36 || value < 0 {
        return Reply::error(FormulaError::Num);
    }
    let s: String = to_radix_string(value as u64, radix as u32);
    let ghost m = min_len - s@.len();
    let len: u64 = chars_of(s.as_str()).len() as u64;
    let pad: i64 = if min_len >= 0 && min_len as u64 > len {
        (min_len as u64 - len) as i64
    } else {
        0
    };
    let mut out: String = repeat_text("0", pad);
    out.append(s.as_str());
    assert(out@ =~= repeated("0"@, m) + s@);
    Reply::text(out)
}

pub fn base_fn(args: &Vec<Arg>) -> (r: Reply)
    ensures
        r@ == base_of(given(args@)),
{
    let v: i64 = match number_at(args, 0) {
        Ok(n) => whole(n),
        Err(e) => {
            return Reply::error(e);
        },
    };
    let radix: i64 = match number_at(args, 1) {
        Ok(n) => whole(n),
        Err(e) => {
            return Reply::error(e);
        },
    };
    match number_or(args, 2, Num { bits: 0 }) {
        Ok(n) => {
            assert(n.finite());
            to_base_text(v, radix, whole(n))
        },
        Err(e) => Reply::error(e),
    }
}

/// The digits at the start of a text from `i` on, up to the first that its base does not have;
/// nothing where a character that is no digit of any base comes before that.
pub open spec fn leading_digits(s: Seq<char>, base: int, i: int) -> Option<Seq<int>>
    decreases s.len() - i,
{
    if i < 0 || i >= s.len() {
        Some(Seq::empty())
    } else {
        match digit_val(s[i]) {
            None => None,
            Some(d) => if d >= base {
                Some(Seq::empty())
            } else {
                match leading_digits(s, base, i + 1) {
                    None => None,
                    Some(rest) => Some(seq![d] + rest),
                }
            },
        }
    }
}

/// Whether numbers stand for whole values.
pub open spec fn stand_for(ns: Seq<Num>, ds: Seq<int>) -> bool {
    ns.len() == ds.len() && forall|i: int| 0 <= i < ns.len() ==> is_whole(#[trigger] ns[i], ds[i])
}

/// Where the digits of a numeral with a sign start.
pub open spec fn behind_sign(s: Seq<char>) -> int {
    if s.len() > 0 && (s[0] == '-' || s[0] == '+') {
        1
    } else {
        0
    }
}

/// What `DECIMAL` says: the value of a numeral's digits in a base.
pub open spec fn is_decimal_reply(args: Seq<Given>, r: Said) -> bool {
    match txt(nth(args, 0)) {
        Err(e) => r == failed(e),
        Ok(t) => match num(nth(args, 1)) {
            Err(e) => r == failed(e),
            Ok(radix) => {
                let b = truncated(radix);
                let s = trimmed(t);
                if b < 2 || b > 36 {
                    r == failed(FormulaError::Num)
                } else {
                    match leading_digits(s, b, behind_sign(s)) {
                        None => r == failed(FormulaError::Num),
                        Some(ds) => if ds.len() == 0 {
                            r == failed(FormulaError::Num)
                        } else {
                            r matches Said::Compute(k, ns, none) && k == Kernel::Digits(
                                b as u32,
                                s[0] == '-',
                            ) && stand_for(ns, ds) && none.len() == 0
                        },
                    }
                }
            },
        },
    }
}

fn read_digits(chars: &Vec<char>, base: u32, from: usize) -> (r: Option<Vec<Num>>)
    requires
        from <= chars.len(),
    ensures
        match leading_digits(chars@, base as int, from as int) {
            None => r is None,
            Some(ds) => r matches Some(ns) && stand_for(ns@, ds),
        },
{
    let ghost all = leading_digits(chars@, base as int, from as int);
    let ghost mut seen: Seq<int> = Seq::empty();
    let mut out: Vec<Num> = Vec::new();
    let mut i: usize = from;
    assert(all == (match leading_digits(chars@, base as int, i as int) {
        None => None,
        Some(rest) => Some(seen + rest),
    })) by {
        if let Some(rest) = leading_digits(chars@, base as int, i as int) {
            assert(seen + rest =~= rest);
        }
    }
    while i < chars.len()
        invariant
            from <= i <= chars.len(),
            stand_for(out@, seen),
            all == leading_digits(chars@, base as int, from as int),
            all == (match leading_digits(chars@, base as int, i as int) {
                None => None,
                Some(rest) => Some(seen + rest),
            }),
        decreases chars.len() - i,
    {
        match digit_value_of(chars[i]) {
            None => {
                return None;
            },
            Some(d) => {
                if d >= base {
                    assert(seen + Seq::<int>::empty() =~= seen);
                    return Some(out);
                }
                let ghost before = seen;
                out.push(number_of_whole(d as u64));
                proof {
                    seen = seen.push(d as int);
                    if let Some(rest) = leading_digits(chars@, base as int, i + 1) {
                        assert(before + (seq![d as int] + rest) =~= seen + rest);
                    }
                }
            },
        }
        i = i + 1;
    }
    assert(seen + Seq::<int>::empty() =~= seen);
    Some(out)
}

/// `DECIMAL`: the value of a numeral's digits in a base.
pub fn decimal_fn(args: &Vec<Arg>) -> (r: Reply)
    ensures
        is_decimal_reply(given(args@), r@),
{
    let t: String = match text_at(args, 0) {
        Ok(t) => t,
        Err(e) => {
            return Reply::error(e);
        },
    };
    let b: i64 = match number_at(args, 1) {
        Ok(n) => whole(n),
        Err(e) => {
            return Reply::error(e);
        },
    };
    if b < 2 || b > 36 {
        return Reply::error(FormulaError::Num);
    }
    let s: String = trim_text(t.as_str());
    let chars: Vec<char> = chars_of(s.as_str());
    let negative: bool = chars.len() > 0 && chars[0] == '-';
    let from: usize = if negative || (chars.len() > 0 && chars[0] == '+') {
        1
    } else {
        0
    };
    match read_digits(&chars, b as u32, from) {
        None => Reply::error(FormulaError::Num),
        Some(ns) => if ns.len() == 0 {
            Reply::error(FormulaError::Num)
        } else {
            assert(chars.len() > 0);
            Reply::compute(Kernel::Digits(b as u32, negative), ns)
        },
    }
}

/// The largest number of 48 bits.
pub const BIT_MAX: i64 = 0xffff_ffff_ffff;

/// A number of 48 bits.
pub open spec fn bits_of(n: Num) -> Result<int, FormulaError> {
    if truncated(n) < 0 || truncated(n) > BIT_MAX {
        Err(FormulaError::Num)
    } else {
        Ok(truncated(n))
    }
}

fn bit_check(n: Num) -> (r: Result<u64, FormulaError>)
    requires
        n.finite(),
    ensures
        match bits_of(n) {
            Ok(k) => r == Ok::<u64, FormulaError>(k as u64) && 0 <= k <= BIT_MAX,
            Err(e) => r == Err::<u64, FormulaError>(e),
        },
{
    let k: i64 = whole(n);
    if k < 0 || k > BIT_MAX {
        Err(FormulaError::Num)
    } else {
        Ok(k as u64)
    }
}

/// An operation on bits.
#[derive(Debug, Clone, Copy, PartialEq, Eq, Structural)]
pub enum BitOp {
    And,
    Or,
    Xor,
}

/// What an operation makes of two numbers' bits.
pub open spec fn bits_joined(a: u64, b: u64, op: BitOp) -> u64 {
    match op {
        BitOp::And => a & b,
        BitOp::Or => a | b,
        BitOp::Xor => a ^ b,
    }
}

/// `BITAND`, `BITOR` and `BITXOR`.
pub open spec fn bit2_of(args: Seq<Given>, op: BitOp) -> Said {
    match num(nth(args, 0)) {
        Err(e) => failed(e),
        Ok(a) => match num(nth(args, 1)) {
            Err(e) => failed(e),
            Ok(b) => match (bits_of(a), bits_of(b)) {
                (Ok(x), Ok(y)) => Said::Int(bits_joined(x as u64, y as u64, op) as int),
                _ => failed(FormulaError::Num),
            },
        },
    }
}

/// `BITAND`, `BITOR` and `BITXOR`.
pub fn bit2(args: &Vec<Arg>, op: BitOp) -> (r: Reply)
    ensures
        r@ == bit2_of(given(args@), op),
{
    let a: Num = match number_at(args, 0) {
        Ok(n) => n,
        Err(e) => {
            return Reply::error(e);
        },
    };
    let b: Num = match number_at(args, 1) {
        Ok(n) => n,
        Err(e) => {
            return Reply::error(e);
        },
    };
    let x: u64 = match bit_check(a) {
        Ok(k) => k,
        Err(e) => {
            return Reply::error(e);
        },
    };
    let y: u64 = match bit_check(b) {
        Ok(k) => k,
        Err(e) => {
            return Reply::error(e);
        },
    };
    assert((x & y) <= 0xffff_ffff_ffff && (x | y) <= 0xffff_ffff_ffff && (x ^ y)
        <= 0xffff_ffff_ffff) by (bit_vector)
        requires
            x <= 0xffff_ffff_ffff,
            y <= 0xffff_ffff_ffff,
    ;
    let joined: u64 = match op {
        BitOp::And => x & y,
        BitOp::Or => x | y,
        BitOp::Xor => x ^ y,
    };
    Reply::Int(joined as i64)
}

/// A number of 48 bits moved up by `k` places, or down where `k` is negative.
pub open spec fn shifted(x: int, k: int) -> int {
    if k >= 0 {
        x * two_to(k)
    } else {
        x / two_to(-k)
    }
}

/// `BITLSHIFT` and `BITRSHIFT`.
pub open spec fn bit_shift_of(args: Seq<Given>, left: bool) -> Said {
    match num(nth(args, 0)) {
        Err(e) => failed(e),
        Ok(a) => match num(nth(args, 1)) {
            Err(e) => failed(e),
            Ok(shift) => match bits_of(a) {
                Err(e) => failed(e),
                Ok(x) => {
                    let k = if left {
                        truncated(shift)
                    } else {
                        -truncated(shift)
                    };
                    if k < -53 || k > 53 || shifted(x, k) > BIT_MAX {
                        failed(FormulaError::Num)
                    } else {
                        Said::Int(shifted(x, k))
                    }
                },
            },
        },
    }
}

fn shift_bits(x: u64, k: i64) -> (r: Option<u64>)
    requires
        x <= BIT_MAX,
        -53 <= k <= 53,
    ensures
        match r {
            Some(y) => y == shifted(x as int, k as int) && y <= BIT_MAX,
            None => shifted(x as int, k as int) > BIT_MAX,
        },
{
    let mut y: u64 = x;
    let mut i: i64 = 0;
    if k >= 0 {
        assert(x * two_to(0) == x) by {
            assert(x * 1 == x) by (nonlinear_arith);
        }
        while i < k
            invariant
                0 <= i <= k <= 53,
                y == x * two_to(i as int),
                y <= BIT_MAX,
                x <= BIT_MAX,
            decreases k - i,
        {
            let ghost p = two_to(i as int);
            assert(x * (2 * p) == 2 * (x * p)) by (nonlinear_arith);
            y = y * 2;
            i = i + 1;
            if y > BIT_MAX as u64 {
                proof {
                    more_places(i as int, k as int);
                    let a = two_to(i as int);
                    let b = two_to(k as int);
                    assert(x * b >= x * a) by (nonlinear_arith)
                        requires
                            b >= a,
                            x >= 0,
                    ;
                }
                return None;
            }
        }
        Some(y)
    } else {
        assert(x as int / two_to(0) == x);
        while i < -k
            invariant
                0 <= i <= -k <= 53,
                y == x as int / two_to(i as int),
                y <= BIT_MAX,
            decreases -k - i,
        {
            let ghost p = two_to(i as int);
            proof {
                more_places(0, i as int);
                vstd::arithmetic::div_mod::lemma_div_denominator(x as int, p, 2);
                assert(p * 2 == 2 * p);
            }
            y = y / 2;
            i = i + 1;
        }
        Some(y)
    }
}

proof fn more_places(a: int, b: int)
    requires
        0 <= a <= b,
    ensures
        1 <= two_to(a) <= two_to(b),
    decreases b,
{
    if b > 0 {
        if a < b {
            more_places(a, b - 1);
        } else {
            more_places(a - 1, b - 1);
        }
    }
}

/// `BITLSHIFT` and `BITRSHIFT`.
pub fn bit_shift(args: &Vec<Arg>, left: bool) -> (r: Reply)
    ensures
        r@ == bit_shift_of(given(args@), left),
{
    let a: Num = match number_at(args, 0) {
        Ok(n) => n,
        Err(e) => {
            return Reply::error(e);
        },
    };
    let sh: i64 = match number_at(args, 1) {
        Ok(n) => whole(n),
        Err(e) => {
            return Reply::error(e);
        },
    };
    let x: u64 = match bit_check(a) {
        Ok(k) => k,
        Err(e) => {
            return Reply::error(e);
        },
    };
    if sh < -53 || sh > 53 {
        return Reply::error(FormulaError::Num);
    }
    let k: i64 = if left {
        sh
    } else {
        -sh
    };
    match shift_bits(x, k) {
        Some(y) => Reply::Int(y as i64),
        None => Reply::error(FormulaError::Num),
    }
}

/// The Roman numeral of a number.
pub open spec fn roman(n: int) -> Seq<char>
    decreases n,
{
    if n <= 0 {
        Seq::empty()
    } else if n >= 1000 {
        "M"@ + roman(n - 1000)
    } else if n >= 900 {
        "CM"@ + roman(n - 900)
    } else if n >= 500 {
        "D"@ + roman(n - 500)
    } else if n >= 400 {
        "CD"@ + roman(n - 400)
    } else if n >= 100 {
        "C"@ + roman(n - 100)
    } else if n >= 90 {
        "XC"@ + roman(n - 90)
    } else if n >= 50 {
        "L"@ + roman(n - 50)
    } else if n >= 40 {
        "XL"@ + roman(n - 40)
    } else if n >= 10 {
        "X"@ + roman(n - 10)
    } else if n >= 9 {
        "IX"@ + roman(n - 9)
    } else if n >= 5 {
        "V"@ + roman(n - 5)
    } else if n >= 4 {
        "IV"@ + roman(n - 4)
    } else {
        "I"@ + roman(n - 1)
    }
}

/// `ROMAN`.
pub open spec fn roman_of(args: Seq<Given>) -> Said {
    match num(nth(args, 0)) {
        Err(e) => failed(e),
        Ok(n) => if 0 <= truncated(n) <= 3999 {
            say(roman(truncated(n)))
        } else {
            failed(FormulaError::Value)
        },
    }
}

fn roman_step(n: i64) -> (r: (i64, &'static str))
    requires
        0 < n <= 3999,
    ensures
        0 < r.0 <= n,
        roman(n as int) == r.1@ + roman(n - r.0),
{
    if n >= 1000 {
        (1000, "M")
    } else if n >= 900 {
        (900, "CM")
    } else if n >= 500 {
        (500, "D")
    } else if n >= 400 {
        (400, "CD")
    } else if n >= 100 {
        (100, "C")
    } else if n >= 90 {
        (90, "XC")
    } else if n >= 50 {
        (50, "L")
    } else if n >= 40 {
        (40, "XL")
    } else if n >= 10 {
        (10, "X")
    } else if n >= 9 {
        (9, "IX")
    } else if n >= 5 {
        (5, "V")
    } else if n >= 4 {
        (4, "IV")
    } else {
        (1, "I")
    }
}

/// `ROMAN`.
pub fn to_roman(args: &Vec<Arg>) -> (r: Reply)
    ensures
        r@ == roman_of(given(args@)),
{
    let n: i64 = match number_at(args, 0) {
        Ok(n) => whole(n),
        Err(e) => {
            return Reply::error(e);
        },
    };
    if n < 0 || n > 3999 {
        return Reply::error(FormulaError::Value);
    }
    let mut out: String = String::new();
    let mut left: i64 = n;
    assert(out@ + roman(left as int) =~= roman(n as int));
    while left > 0
        invariant
            0 <= left <= n <= 3999,
            out@ + roman(left as int) == roman(n as int),
        decreases left,
    {
        let ghost o = out@;
        let (v, sym) = roman_step(left);
        out.append(sym);
        assert(out@ + roman(left - v) =~= o + (sym@ + roman(left - v)));
        left = left - v;
    }
    assert(out@ + roman(0) =~= out@);
    Reply::text(out)
}

/// The value of a Roman digit.
pub open spec fn roman_digit(c: char) -> Option<int> {
    if c == 'I' {
        Some(1)
    } else if c == 'V' {
        Some(5)
    } else if c == 'X' {
        Some(10)
    } else if c == 'L' {
        Some(50)
    } else if c == 'C' {
        Some(100)
    } else if c == 'D' {
        Some(500)
    } else if c == 'M' {
        Some(1000)
    } else {
        None
    }
}

/// The value of a Roman numeral and the largest digit in it, read from its end: a digit before a
/// larger one is taken off.
pub open spec fn arabic(s: Seq<char>) -> Option<(int, int)>
    decreases s.len(),
{
    if s.len() == 0 {
        Some((0, 0))
    } else {
        match (arabic(s.skip(1)), roman_digit(s[0])) {
            (Some((total, prev)), Some(v)) => if v < prev {
                Some((total - v, prev))
            } else {
                Some((total + v, v))
            },
            _ => None,
        }
    }
}

/// The largest digit in a Roman numeral.
pub open spec fn roman_top(n: int) -> int {
    if n <= 0 {
        0
    } else if n < 4 {
        1
    } else if n < 9 {
        5
    } else if n < 40 {
        10
    } else if n < 90 {
        50
    } else if n < 400 {
        100
    } else if n < 900 {
        500
    } else {
        1000
    }
}

/// A Roman numeral reads back as its number.
pub proof fn roman_round_trip(n: int)
    requires
        0 <= n,
    ensures
        arabic(roman(n)) == Some((n, roman_top(n))),
    decreases n,
{
    reveal_strlit("M");
    reveal_strlit("CM");
    reveal_strlit("D");
    reveal_strlit("CD");
    reveal_strlit("C");
    reveal_strlit("XC");
    reveal_strlit("L");
    reveal_strlit("XL");
    reveal_strlit("X");
    reveal_strlit("IX");
    reveal_strlit("V");
    reveal_strlit("IV");
    reveal_strlit("I");
    if n > 0 {
        let v: int = if n >= 1000 {
            1000
        } else if n >= 900 {
            900
        } else if n >= 500 {
            500
        } else if n >= 400 {
            400
        } else if n >= 100 {
            100
        } else if n >= 90 {
            90
        } else if n >= 50 {
            50
        } else if n >= 40 {
            40
        } else if n >= 10 {
            10
        } else if n >= 9 {
            9
        } else if n >= 5 {
            5
        } else if n >= 4 {
            4
        } else {
            1
        };
        let rest = roman(n - v);
        let s = roman(n);
        roman_round_trip(n - v);
        if v == 900 || v == 400 || v == 90 || v == 40 || v == 9 || v == 4 {
            let t = s.skip(1);
            assert(t.skip(1) =~= rest);
            assert(arabic(t) == Some((n - v + roman_digit(t[0])->0, roman_digit(t[0])->0)));
        } else {
            assert(s.skip(1) =~= rest);
        }
    }
}

/// `ARABIC`: the number that a Roman numeral stands for.
pub open spec fn arabic_of(args: Seq<Given>) -> Said {
    match txt(nth(args, 0)) {
        Err(e) => failed(e),
        Ok(t) => {
            let s = upper(trimmed(t));
            let negative = s.len() > 0 && s[0] == '-';
            match arabic(
                if negative {
                    s.skip(1)
                } else {
                    s
                },
            ) {
                None => failed(FormulaError::Value),
                Some((v, _)) => Said::Int(
                    if negative {
                        -v
                    } else {
                        v
                    },
                ),
            }
        },
    }
}

proof fn arabic_bounds(s: Seq<char>)
    ensures
        arabic(s) matches Some((v, p)) ==> -1000 * s.len() <= v <= 1000 * s.len() && 0 <= p <= 1000,
    decreases s.len(),
{
    if s.len() > 0 {
        arabic_bounds(s.skip(1));
    }
}

proof fn arabic_fails(s: Seq<char>, i: int)
    requires
        0 <= i <= s.len(),
        arabic(s.skip(i)) is None,
    ensures
        arabic(s) is None,
    decreases i,
{
    if i > 0 {
        assert(s.skip(1).skip(i - 1) =~= s.skip(i));
        arabic_fails(s.skip(1), i - 1);
    } else {
        assert(s.skip(0) =~= s);
    }
}

fn roman_value(c: char) -> (r: Option<i64>)
    ensures
        match roman_digit(c) {
            Some(v) => r == Some(v as i64) && 0 < v <= 1000,
            None => r is None,
        },
{
    match c {
        'I' => Some(1),
        'V' => Some(5),
        'X' => Some(10),
        'L' => Some(50),
        'C' => Some(100),
        'D' => Some(500),
        'M' => Some(1000),
        _ => None,
    }
}

/// Whether `ARABIC` may say this: nothing only for a text too long to be summed.
pub open spec fn is_arabic_reply(args: Seq<Given>, r: Option<Said>) -> bool {
    match r {
        Some(x) => x == arabic_of(args),
        None => txt(nth(args, 0)) matches Ok(t) && upper(trimmed(t)).len() > 0x10_0000_0000_0000,
    }
}

/// `ARABIC`. A numeral longer than a memory can hold does not occur: its length is at most
/// 2<sup>52</sup>.
pub fn from_roman(args: &Vec<Arg>) -> (r: Option<Reply>)
    ensures
        is_arabic_reply(given(args@), reply_view(r)),
{
    let t: String = match text_at(args, 0) {
        Ok(t) => t,
        Err(e) => {
            return Some(Reply::error(e));
        },
    };
    let s: String = trim_text(t.as_str()).as_str().to_uppercase();
    let chars: Vec<char> = chars_of(s.as_str());
    if chars.len() as u64 > 0x10_0000_0000_0000 {
        return None;
    }
    let negative: bool = chars.len() > 0 && chars[0] == '-';
    let from: usize = if negative {
        1
    } else {
        0
    };
    let ghost body = if negative {
        s@.skip(1)
    } else {
        s@
    };
    let mut i: usize = chars.len();
    let mut total: i64 = 0;
    let mut prev: i64 = 0;
    proof {
        assert(s@.skip(0) =~= s@);
        assert(body.skip(body.len() as int) =~= Seq::empty());
    }
    while i > from
        invariant
            from <= i <= chars.len() <= 0x10_0000_0000_0000,
            chars@ == s@,
            from <= 1,
            txt(nth(given(args@), 0)) == Ok::<Seq<char>, FormulaError>(t@),
            s@ == upper(trimmed(t@)),
            negative == (s@.len() > 0 && s@[0] == '-'),
            body == (if negative {
                s@.skip(1)
            } else {
                s@
            }),
            body == s@.skip(from as int),
            arabic(body.skip(i - from)) == Some((total as int, prev as int)),
            -1000 * (chars.len() - i) <= total <= 1000 * (chars.len() - i),
            0 <= prev <= 1000,
        decreases i,
    {
        i = i - 1;
        let ghost tail = body.skip(i - from);
        assert(tail.skip(1) =~= body.skip(i + 1 - from));
        assert(tail[0] == chars@[i as int]);
        match roman_value(chars[i]) {
            None => {
                proof {
                    arabic_fails(body, i - from);
                }
                return Some(Reply::error(FormulaError::Value));
            },
            Some(v) => {
                if v < prev {
                    total = total - v;
                } else {
                    total = total + v;
                    prev = v;
                }
            },
        }
    }
    assert(body.skip(0) =~= body);
    Some(
        Reply::Int(
            if negative {
                -total
            } else {
                total
            },
        ),
    )
}

/// The greatest common divisor, by Euclid.
pub open spec fn gcd(a: nat, b: nat) -> nat
    decreases b,
{
    if b == 0 {
        a
    } else {
        gcd(b, a % b)
    }
}

/// The size of a number.
pub open spec fn size_of_int(a: int) -> nat {
    if a < 0 {
        (-a) as nat
    } else {
        a as nat
    }
}

/// The greatest common divisor divides both numbers, and every common divisor divides it.
pub proof fn gcd_divides(a: nat, b: nat, d: nat)
    requires
        a > 0 || b > 0,
        d > 0,
    ensures
        gcd(a, b) > 0,
        a % gcd(a, b) == 0,
        b % gcd(a, b) == 0,
        a % d == 0 && b % d == 0 ==> gcd(a, b) % d == 0,
    decreases b,
{
    if b == 0 {
        assert(a % a == 0) by (nonlinear_arith)
            requires
                a > 0,
        ;
        assert(0nat % a == 0) by (nonlinear_arith)
            requires
                a > 0,
        ;
    } else {
        let q = a / b;
        let r = a % b;
        assert(a == b * q + r) by (nonlinear_arith)
            requires
                b > 0,
                q == a / b,
                r == a % b,
        ;
        if a % d == 0 && b % d == 0 {
            combination(b as int, r as int, q as int, a as int, d as int);
        }
        gcd_divides(b, r, d);
        let g = gcd(b, r);
        combination_up(b as int, r as int, q as int, a as int, g as int);
    }
}

proof fn combination(b: int, r: int, q: int, a: int, d: int)
    requires
        d > 0,
        a == b * q + r,
        a % d == 0,
        b % d == 0,
    ensures
        r % d == 0,
{
    let x = a / d;
    let y = b / d;
    assert(r == d * (x - y * q)) by (nonlinear_arith)
        requires
            d > 0,
            a == b * q + r,
            a % d == 0,
            b % d == 0,
            x == a / d,
            y == b / d,
    ;
    let z = x - y * q;
    assert((d * z) % d == 0) by (nonlinear_arith)
        requires
            d > 0,
    ;
}

proof fn combination_up(b: int, r: int, q: int, a: int, g: int)
    requires
        g > 0,
        a == b * q + r,
        b % g == 0,
        r % g == 0,
    ensures
        a % g == 0,
{
    let x = b / g;
    let y = r / g;
    assert(a == g * (x * q + y)) by (nonlinear_arith)
        requires
            g > 0,
            a == b * q + r,
            b % g == 0,
            r % g == 0,
            x == b / g,
            y == r / g,
    ;
    let z = x * q + y;
    assert((g * z) % g == 0) by (nonlinear_arith)
        requires
            g > 0,
    ;
}

/// The greatest common divisor of two numbers.
pub fn gcd2(a: i64, b: i64) -> (r: i64)
    requires
        a > i64::MIN,
        b > i64::MIN,
    ensures
        r == gcd(size_of_int(a as int), size_of_int(b as int)),
{
    let mut x: i64 = if a < 0 {
        -a
    } else {
        a
    };
    let mut y: i64 = if b < 0 {
        -b
    } else {
        b
    };
    let ghost g = gcd(x as nat, y as nat);
    while y != 0
        invariant
            x >= 0,
            y >= 0,
            g == gcd(x as nat, y as nat),
        decreases y,
    {
        let t: i64 = y;
        assert((x as nat) % (y as nat) == x % y);
        y = x % y;
        x = t;
    }
    x
}

/// The whole parts of the values that are not blank; the first that is no number or is negative
/// fails.
pub open spec fn whole_list(vs: Seq<Read>) -> Result<Seq<int>, FormulaError>
    decreases vs.len(),
{
    if vs.len() == 0 {
        Ok(Seq::empty())
    } else {
        match whole_list(vs.drop_last()) {
            Err(e) => Err(e),
            Ok(ks) => if blank(vs.last().value) {
                Ok(ks)
            } else {
                match num(vs.last()) {
                    Err(e) => Err(e),
                    Ok(n) => if n.lt(zero()) {
                        Err(FormulaError::Num)
                    } else {
                        Ok(ks.push(truncated(n)))
                    },
                }
            },
        }
    }
}

/// Whole numbers as integers.
pub open spec fn as_ints(v: Seq<i64>) -> Seq<int> {
    Seq::new(v.len(), |i: int| v[i] as int)
}

/// The whole parts of the values that are not blank.
pub fn int_list(args: &Vec<Arg>) -> (r: Result<Vec<i64>, FormulaError>)
    ensures
        match whole_list(everything(given(args@))) {
            Ok(ks) => r matches Ok(v) && as_ints(v@) == ks && forall|i: int|
                0 <= i < v@.len() ==> (#[trigger] v@[i]) >= 0,
            Err(e) => r == Err::<Vec<i64>, FormulaError>(e),
        },
{
    assert(given_from(given(args@), 0) =~= given(args@));
    let vs: Vec<Reading> = values_from(args, 0);
    let ghost all = read_seq(vs@);
    let mut out: Vec<i64> = Vec::new();
    let mut error: Option<FormulaError> = None;
    let mut i: usize = 0;
    assert(as_ints(out@) =~= Seq::empty());
    assert(all.take(0).len() == 0);
    while i < vs.len()
        invariant
            i <= vs.len(),
            all == read_seq(vs@),
            match whole_list(all.take(i as int)) {
                Ok(ks) => error is None && as_ints(out@) == ks,
                Err(e) => error == Some(e),
            },
            forall|i: int| 0 <= i < out@.len() ==> (#[trigger] out@[i]) >= 0,
        decreases vs.len() - i,
    {
        let ghost before = as_ints(out@);
        assert(all.take(i + 1).drop_last() =~= all.take(i as int));
        assert(all.take(i + 1).last() == vs@[i as int]@);
        if error.is_none() && !vs[i].value.is_blank() {
            match vs[i].number() {
                Err(e) => {
                    error = Some(e);
                },
                Ok(n) => if n.less(Num { bits: 0 }) {
                    error = Some(FormulaError::Num);
                } else {
                    proof {
                        not_negative(n);
                    }
                    let k: i64 = whole(n);
                    out.push(k);
                    assert(as_ints(out@) =~= before.push(k as int));
                },
            }
        }
        i = i + 1;
    }
    assert(all.take(i as int) =~= all);
    match error {
        Some(e) => Err(e),
        None => Ok(out),
    }
}

proof fn not_negative(n: Num)
    requires
        n.finite(),
        !n.lt(zero()),
    ensures
        truncated(n) >= 0,
{
    let m = n.magnitude();
    let e = m / 0x10_0000_0000_0000;
    let f = m % 0x10_0000_0000_0000;
    let s = if e == 0 {
        f
    } else {
        f + 0x10_0000_0000_0000
    };
    if e >= 1075 {
        more_places(0, e - 1075);
        let p = two_to(e - 1075);
        assert(s * p >= 0) by (nonlinear_arith)
            requires
                s >= 0,
                p >= 1,
        ;
    } else {
        more_places(0, 1075 - e);
        let p = two_to(1075 - e);
        assert(s / p >= 0) by (nonlinear_arith)
            requires
                s >= 0,
                p >= 1,
        ;
        if n.bits >= crate::value::SIGN {
            assert(m == 0);
            assert(0int / p == 0) by (nonlinear_arith)
                requires
                    p >= 1,
            ;
        }
    }
}

/// The greatest common divisor of some numbers, 0 for none.
pub open spec fn gcd_all(ks: Seq<int>) -> nat
    decreases ks.len(),
{
    if ks.len() == 0 {
        0
    } else {
        gcd(gcd_all(ks.drop_last()), size_of_int(ks.last()))
    }
}

/// `GCD`.
pub open spec fn gcd_of(args: Seq<Given>) -> Said {
    match whole_list(everything(args)) {
        Err(e) => failed(e),
        Ok(ks) => Said::Int(gcd_all(ks) as int),
    }
}

/// `GCD`.
pub fn gcd_fn(args: &Vec<Arg>) -> (r: Reply)
    ensures
        r@ == gcd_of(given(args@)),
{
    let ks: Vec<i64> = match int_list(args) {
        Ok(v) => v,
        Err(e) => {
            return Reply::error(e);
        },
    };
    let ghost all = as_ints(ks@);
    let mut g: i64 = 0;
    let mut i: usize = 0;
    assert(all.take(0).len() == 0);
    while i < ks.len()
        invariant
            i <= ks.len(),
            all == as_ints(ks@),
            forall|k: int| 0 <= k < ks@.len() ==> (#[trigger] ks@[k]) >= 0,
            g >= 0,
            g == gcd_all(all.take(i as int)),
        decreases ks.len() - i,
    {
        assert(all.take(i + 1).drop_last() =~= all.take(i as int));
        assert(all.take(i + 1).last() == ks@[i as int]);
        g = gcd2(g, ks[i]);
        i = i + 1;
    }
    assert(all.take(i as int) =~= all);
    Reply::Int(g)
}

/// The least common multiple of two numbers; 0 where one of them is 0.
pub open spec fn lcm(a: int, b: int) -> int {
    if a == 0 || b == 0 {
        0
    } else {
        a / (gcd(size_of_int(a), size_of_int(b)) as int) * b
    }
}

/// The least common multiple of some numbers, 1 for none; nothing where one on the way leaves
/// the range of 64-bit integers.
pub open spec fn lcm_all(ks: Seq<int>) -> Option<int>
    decreases ks.len(),
{
    if ks.len() == 0 {
        Some(1)
    } else {
        match lcm_all(ks.drop_last()) {
            None => None,
            Some(a) => if lcm(a, ks.last()) > i64::MAX {
                None
            } else {
                Some(lcm(a, ks.last()))
            },
        }
    }
}

/// What `LCM` says, nothing where a multiple does not fit.
pub open spec fn lcm_of(args: Seq<Given>) -> Option<Said> {
    match whole_list(everything(args)) {
        Err(e) => Some(failed(e)),
        Ok(ks) => match lcm_all(ks) {
            Some(m) => Some(Said::Int(m)),
            None => None,
        },
    }
}

/// `LCM`, nothing where a multiple on the way leaves the range of 64-bit integers.
pub fn lcm_fn(args: &Vec<Arg>) -> (r: Option<Reply>)
    ensures
        reply_view(r) == lcm_of(given(args@)),
{
    let ks: Vec<i64> = match int_list(args) {
        Ok(v) => v,
        Err(e) => {
            return Some(Reply::error(e));
        },
    };
    let ghost all = as_ints(ks@);
    let mut acc: i64 = 1;
    let mut over: bool = false;
    let mut i: usize = 0;
    assert(all.take(0).len() == 0);
    while i < ks.len()
        invariant
            i <= ks.len(),
            all == as_ints(ks@),
            forall|k: int| 0 <= k < ks@.len() ==> (#[trigger] ks@[k]) >= 0,
            acc >= 0,
            match lcm_all(all.take(i as int)) {
                Some(m) => !over && acc == m,
                None => over,
            },
        decreases ks.len() - i,
    {
        assert(all.take(i + 1).drop_last() =~= all.take(i as int));
        assert(all.take(i + 1).last() == ks@[i as int]);
        if !over {
            let b: i64 = ks[i];
            if acc == 0 || b == 0 {
                acc = 0;
            } else {
                let g: i64 = gcd2(acc, b);
                proof {
                    gcd_divides(acc as nat, b as nat, 1);
                    assert(0 <= acc as int / g as int <= acc) by (nonlinear_arith)
                        requires
                            g >= 1,
                            acc >= 0,
                    ;
                }
                let q: i64 = acc / g;
                proof {
                    assert(0 <= q * b <= 0x7fff_ffff_ffff_ffff * 0x7fff_ffff_ffff_ffff) by (nonlinear_arith)
                        requires
                            0 <= q <= 0x7fff_ffff_ffff_ffff,
                            0 <= b <= 0x7fff_ffff_ffff_ffff,
                    ;
                }
                let m: i128 = (q as i128) * (b as i128);
                if m > i64::MAX as i128 {
                    over = true;
                } else {
                    acc = m as i64;
                }
            }
        }
        i = i + 1;
    }
    assert(all.take(i as int) =~= all);
    if over {
        None
    } else {
        Some(Reply::Int(acc))
    }
}

/// `DELTA` and `GESTEP`: 1 where the first number equals, or is not below, the second, else 0.
pub open spec fn step_of(args: Seq<Given>, same: bool) -> Said {
    match num(nth(args, 0)) {
        Err(e) => failed(e),
        Ok(x) => match num_or(args, 1, zero()) {
            Err(e) => failed(e),
            Ok(y) => Said::Int(
                if equal(x, y) || !same && y.lt(x) {
                    1
                } else {
                    0
                },
            ),
        },
    }
}

/// `DELTA` and `GESTEP`.
pub fn step_fn(args: &Vec<Arg>, same: bool) -> (r: Reply)
    ensures
        r@ == step_of(given(args@), same),
{
    let x: Num = match number_at(args, 0) {
        Ok(n) => n,
        Err(e) => {
            return Reply::error(e);
        },
    };
    match number_or(args, 1, Num { bits: 0 }) {
        Err(e) => Reply::error(e),
        Ok(y) => Reply::Int(
            if crate::logic_fn::same_number(x, y) || (!same && y.less(x)) {
                1
            } else {
                0
            },
        ),
    }
}

} // verus!
