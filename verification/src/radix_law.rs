//! What holds of numerals and whole numbers: digits have their places, divisors divide, and bits
//! are joined and moved as they stand.
use crate::radix_fn::{
    all_in_base, arabic_of, bit2_of, bit_shift_of, conv_radix_of, conv_to_dec_of, dec_to_of,
    digit_char, digit_val, gcd, gcd_all, gcd_divides, gcd_of, lcm, numeral, numeral_value,
    radix_round_trip, read_radix, roman_of, roman_round_trip, shifted, size_of_int, step_of,
    whole_list, BIT_MAX, BitOp, Radix,
};
use crate::reading::{everything, failed, say, two_to, Given, Said};
use crate::text::{trimmed, upper};
use crate::text_law::{count_given, text_given};
use crate::value::{FValue, FormulaError, Num};
use vstd::prelude::*;

verus! {

/// The value of a digit, by where it stands among all digits.
pub open spec fn is_digit(c: char, d: int) -> bool {
    ||| 0 <= d <= 9 && c as int == '0' as int + d
    ||| 10 <= d <= 35 && (c as int == 'A' as int + d - 10 || c as int == 'a' as int + d - 10)
}

/// A digit behind a numeral makes the numeral's value the base times as much, and the digit more.
pub proof fn digits_have_their_places(
    args: Seq<Given>,
    more: Seq<Given>,
    t: Seq<char>,
    c: char,
    d: int,
    v: int,
    radix: Radix,
)
    requires
        text_given(args, 0, t),
        text_given(more, 0, t.push(c)),
        trimmed(t) == t,
        trimmed(t.push(c)) == t.push(c),
        t.len() < 9,
        is_digit(c, d),
        d < (match radix {
            Radix::Bin => 2int,
            Radix::Oct => 8,
            Radix::Hex => 16,
        }),
        conv_to_dec_of(args, radix) == Said::Int(v),
    ensures
        conv_to_dec_of(more, radix) == Said::Int(
            v * (match radix {
                Radix::Bin => 2int,
                Radix::Oct => 8,
                Radix::Hex => 16,
            }) + d,
        ),
        t.len() == 0 ==> v == 0,
{
    let u = t.push(c);
    let base = radix.spec_base();
    assert(digit_val(c) == Some(d));
    if t.len() > 0 {
        assert(all_in_base(t, base));
    }
    assert forall|i: int| 0 <= i < u.len() implies crate::radix_fn::in_base(#[trigger] u[i], base) by {
        if i < t.len() {
            assert(crate::radix_fn::in_base(t[i], base));
        }
    }
    assert(u.drop_last() =~= t);
    assert(u.last() == c);
    assert(numeral_value(t, base) == v);
    assert(numeral_value(u, base) == numeral_value(t, base) * base + d);
    match radix {
        Radix::Bin => {
            assert(base == 2);
        },
        Radix::Oct => {
            assert(base == 8);
        },
        Radix::Hex => {
            assert(base == 16);
        },
    }
    assert(read_radix(u, radix) == Ok::<int, FormulaError>(numeral_value(u, base)));
}

/// The numeral of a number ends in the digit of what is left over by the base, behind the numeral
/// of the rest.
pub proof fn numerals_end_in_what_is_left(n: nat, base: nat)
    requires
        2 <= base <= 36,
    ensures
        n < base ==> numeral(n, base).len() == 1,
        is_digit(numeral(n, base).last(), (n % base) as int),
        n >= base ==> numeral(n, base).drop_last() == numeral(n / base, base),
{
    let m = (n % base) as int;
    assert(0 <= m < base) by (nonlinear_arith)
        requires
            m == n % base,
            base > 0,
    ;
    if n < base {
        assert(n % base == n) by (nonlinear_arith)
            requires
                n < base,
        ;
        assert(numeral(n, base).last() == digit_char(m));
    } else {
        assert(numeral(n, base).last() == digit_char(m));
        assert(numeral(n, base).drop_last() =~= numeral(n / base, base));
    }
    if m < 10 {
        assert(digit_char(m) as int == '0' as int + m);
    } else {
        assert(digit_char(m) as int == 'A' as int + (m - 10));
    }
}

proof fn divides_on(a: int, g: int, h: int)
    requires
        g > 0,
        h > 0,
        a % g == 0,
        g % h == 0,
    ensures
        a % h == 0,
{
    let k = a / g;
    let m = g / h;
    assert(a == g * k) by (nonlinear_arith)
        requires
            g > 0,
            a % g == 0,
            k == a / g,
    ;
    assert(g == h * m) by (nonlinear_arith)
        requires
            h > 0,
            g % h == 0,
            m == g / h,
    ;
    assert(a == h * (m * k)) by (nonlinear_arith)
        requires
            a == g * k,
            g == h * m,
    ;
    assert((h * (m * k)) % h == 0) by (nonlinear_arith)
        requires
            h > 0,
    ;
}

proof fn zero_divided(d: nat)
    requires
        d > 0,
    ensures
        0nat % d == 0,
{
    assert(0nat % d == 0) by (nonlinear_arith)
        requires
            d > 0,
    ;
}

/// The greatest common divisor of some numbers divides each of them, and whatever divides them all
/// divides it.
pub proof fn divisors_divide(ks: Seq<int>, d: nat)
    requires
        d > 0,
        forall|i: int| 0 <= i < ks.len() ==> #[trigger] ks[i] >= 0,
    ensures
        gcd_all(ks) > 0 ==> forall|i: int|
            0 <= i < ks.len() ==> #[trigger] ks[i] % (gcd_all(ks) as int) == 0,
        gcd_all(ks) == 0 ==> forall|i: int| 0 <= i < ks.len() ==> #[trigger] ks[i] == 0,
        (forall|i: int| 0 <= i < ks.len() ==> #[trigger] ks[i] % (d as int) == 0) ==> gcd_all(ks) % d
            == 0,
    decreases ks.len(),
{
    if ks.len() == 0 {
        zero_divided(d);
    } else {
        let fore = ks.drop_last();
        let k = ks.len() - 1;
        let last = ks[k];
        let b = size_of_int(last);
        assert(last >= 0 && b == last);
        assert forall|i: int| 0 <= i < fore.len() implies #[trigger] fore[i] >= 0 by {
            assert(ks[i] >= 0);
        }
        divisors_divide(fore, d);
        let g = gcd_all(fore);
        if g > 0 || b > 0 {
            gcd_divides(g, b, d);
            let h = gcd_all(ks);
            assert forall|i: int| 0 <= i < ks.len() implies #[trigger] ks[i] % (h as int) == 0 by {
                if i < k {
                    assert(fore[i] == ks[i]);
                    if g > 0 {
                        divides_on(fore[i], g as int, h as int);
                    } else {
                        zero_divided(h);
                    }
                }
            }
            if forall|i: int| 0 <= i < ks.len() ==> #[trigger] ks[i] % (d as int) == 0 {
                assert forall|i: int| 0 <= i < fore.len() implies #[trigger] fore[i] % (d as int)
                    == 0 by {
                    assert(ks[i] % (d as int) == 0);
                }
                assert(ks[k] % (d as int) == 0);
            }
        } else {
            zero_divided(d);
            assert(gcd(0, 0) == 0);
            assert forall|i: int| 0 <= i < ks.len() implies #[trigger] ks[i] == 0 by {
                if i < k {
                    assert(fore[i] == ks[i]);
                }
            }
        }
    }
}

/// The least common multiple of two numbers, times their greatest common divisor, is their product;
/// both numbers divide it.
pub proof fn multiples_are_common(a: int, b: int)
    requires
        a > 0,
        b > 0,
    ensures
        lcm(a, b) * gcd(a as nat, b as nat) == a * b,
        lcm(a, b) % a == 0,
        lcm(a, b) % b == 0,
{
    let g = gcd(a as nat, b as nat) as int;
    gcd_divides(a as nat, b as nat, 1);
    let m = a / g;
    let n = b / g;
    assert(a == g * m) by (nonlinear_arith)
        requires
            g > 0,
            a % g == 0,
            m == a / g,
    ;
    assert(b == g * n) by (nonlinear_arith)
        requires
            g > 0,
            b % g == 0,
            n == b / g,
    ;
    let l = lcm(a, b);
    assert(l == m * b);
    assert(l * g == a * b) by (nonlinear_arith)
        requires
            l == m * b,
            a == g * m,
    ;
    assert(l == a * n) by (nonlinear_arith)
        requires
            l == m * b,
            a == g * m,
            b == g * n,
    ;
    assert((m * b) % b == 0) by (nonlinear_arith)
        requires
            b > 0,
    ;
    assert((a * n) % a == 0) by (nonlinear_arith)
        requires
            a > 0,
    ;
}

/// What two numbers' bits have in common is in both of them, what is in one of them is what is left
/// of both without that, and what is in either is both.
pub proof fn bits_are_joined(args: Seq<Given>, x: int, y: int)
    requires
        count_given(args, 0, x),
        count_given(args, 1, y),
        0 <= x <= BIT_MAX,
        0 <= y <= BIT_MAX,
    ensures
        bit2_of(args, BitOp::And) matches Said::Int(a) && bit2_of(args, BitOp::Or) matches Said::Int(o)
            && bit2_of(args, BitOp::Xor) matches Said::Int(e) && {
            &&& a + o == x + y
            &&& a + e == o
            &&& a <= x
            &&& a <= y
            &&& x <= o
            &&& y <= o
            &&& forall|i: u64|
                i < 64 ==> #[trigger] (((a as u64) >> i) & 1) == (((x as u64) >> i) & 1) & (((y as u64)
                    >> i) & 1)
        },
{
    let a = x as u64;
    let b = y as u64;
    assert(a <= 0xffff_ffff_ffff && b <= 0xffff_ffff_ffff);
    assert((a & b) + (a | b) == a + b) by (bit_vector)
        requires
            a <= 0xffff_ffff_ffff,
            b <= 0xffff_ffff_ffff,
    ;
    assert((a & b) + (a ^ b) == (a | b)) by (bit_vector);
    assert(a & b <= a && a & b <= b && a <= a | b && b <= a | b) by (bit_vector);
    assert forall|i: u64| i < 64 implies #[trigger] (((a & b) >> i) & 1) == ((a >> i) & 1) & ((b >> i)
        & 1) by {
        assert((((a & b) >> i) & 1) == ((a >> i) & 1) & ((b >> i) & 1)) by (bit_vector);
    }
}

proof fn moved_up(x: int, k: int)
    requires
        0 <= k,
    ensures
        shifted(x, k + 1) == 2 * shifted(x, k),
        shifted(x, 0) == x,
        shifted(shifted(x, k), -k) == x,
{
    reveal_with_fuel(two_to, 2);
    positive(k);
    let p = two_to(k);
    assert(x * (2 * p) == 2 * (x * p)) by (nonlinear_arith);
    assert((x * p) / p == x) by (nonlinear_arith)
        requires
            p > 0,
    ;
    assert(x * 1 == x);
    assert(two_to(0) == 1);
}

proof fn positive(k: int)
    ensures
        two_to(k) > 0,
    decreases k,
{
    if k > 0 {
        positive(k - 1);
    }
}

/// `BITLSHIFT` by one place more gives twice as much, by none the number itself, and `BITRSHIFT`
/// takes it back.
pub proof fn bits_are_moved(
    args: Seq<Given>,
    more: Seq<Given>,
    back: Seq<Given>,
    x: int,
    k: int,
    v: int,
)
    requires
        count_given(args, 0, x),
        count_given(args, 1, k),
        count_given(more, 0, x),
        count_given(more, 1, k + 1),
        count_given(back, 0, v),
        count_given(back, 1, k),
        0 <= x <= BIT_MAX,
        0 <= k < 53,
        bit_shift_of(args, true) == Said::Int(v),
    ensures
        k == 0 ==> v == x,
        bit_shift_of(more, true) == (if 2 * v > BIT_MAX {
            failed(FormulaError::Num)
        } else {
            Said::Int(2 * v)
        }),
        bit_shift_of(back, false) == Said::Int(x),
{
    moved_up(x, k);
    positive(k);
    assert(x * two_to(k) >= 0) by (nonlinear_arith)
        requires
            x >= 0,
            two_to(k) > 0,
    ;
}

/// `DELTA` and `GESTEP` compare by value.
pub proof fn steps_compare(args: Seq<Given>, x: Num, y: Num)
    requires
        args.len() == 2,
        args[0] matches Given::One(r) && r.value == FValue::Number(x),
        args[1] matches Given::One(r) && r.value == FValue::Number(y),
        x.finite(),
        y.finite(),
    ensures
        step_of(args, true) == Said::Int(
            if x.rank() == y.rank() {
                1
            } else {
                0
            },
        ),
        step_of(args, false) == Said::Int(
            if x.rank() >= y.rank() {
                1
            } else {
                0
            },
        ),
{
}

/// `ROMAN` writes a number so that `ARABIC` reads it back.
pub proof fn roman_numerals_are_read_back(args: Seq<Given>, back: Seq<Given>, n: int, t: Seq<char>)
    requires
        count_given(args, 0, n),
        0 < n <= 3999,
        roman_of(args) == say(t),
        text_given(back, 0, t),
        trimmed(t) == t,
        upper(t) == t,
        t.len() > 0,
        t[0] != '-',
    ensures
        arabic_of(back) == Said::Int(n),
{
    roman_round_trip(n);
}

/// `GCD` of whole numbers that are not negative divides each of them, and whatever divides them all
/// divides it.
pub proof fn common_divisors_are_given(args: Seq<Given>, ks: Seq<int>, d: nat)
    requires
        whole_list(everything(args)) == Ok::<Seq<int>, FormulaError>(ks),
        forall|i: int| 0 <= i < ks.len() ==> #[trigger] ks[i] >= 0,
        d > 0,
    ensures
        gcd_of(args) matches Said::Int(g) && {
            &&& g > 0 ==> forall|i: int| 0 <= i < ks.len() ==> #[trigger] ks[i] % g == 0
            &&& (forall|i: int| 0 <= i < ks.len() ==> #[trigger] ks[i] % (d as int) == 0) ==> g % (
            d as int) == 0
        },
{
    divisors_divide(ks, d);
}

/// A number written in a base is read back from it, negative ones too.
pub proof fn numbers_are_read_back_from_their_base(
    args: Seq<Given>,
    back: Seq<Given>,
    n: int,
    t: Seq<char>,
    radix: Radix,
)
    requires
        args.len() == 1,
        count_given(args, 0, n),
        -radix.spec_neg() / 2 <= n <= radix.spec_neg() / 2 - 1,
        dec_to_of(args, radix) == say(t),
        text_given(back, 0, t),
    ensures
        conv_to_dec_of(back, radix) == Said::Int(n),
        back.len() == 1 ==> conv_radix_of(back, radix, radix) == say(t),
{
    radix_round_trip(n, radix);
}

} // verus!
