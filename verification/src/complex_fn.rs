//! Functions of complex numbers, which are texts such as `3+4i`.
use crate::engineering_fn::{
    complex_shown, ends_imaginary, fmt_cx, last_sign, minus_unit, split_complex, unit, ComplexText,
};
use crate::kernel::{ComplexKernel, ComplexResult, Kernel};
use crate::logic_fn::{equal, same_number};
use crate::reading::{
    arg_at, failed, figure, given, nth, num, number_at, text_at, txt, work, Arg, Given, Read,
    Reading, Reply, Said,
};
use crate::text::{same_text, trimmed};
use crate::value::{zero, SIGN, FValue, FormulaError, FormulaValue, Num};
use vstd::prelude::*;

verus! {

/// The complex number that a text is: its parts and its letter. `re` and `im` are what the numerals
/// of its parts read as. A real part that is not there is 0; an imaginary one that is a sign alone,
/// or nothing, is 1 with that sign. A text that is no complex number of finite parts is `#NUM!`.
pub open spec fn complex_of(text: Seq<char>, re: Option<Num>, im: Option<Num>) -> Result<
    (Num, Num, char),
    FormulaError,
> {
    let t = trimmed(text);
    if t.len() == 0 {
        Err(FormulaError::Num)
    } else if !ends_imaginary(t) {
        parts_of(re, Some(zero()), 'i')
    } else {
        let body = t.drop_last();
        let k = last_sign(body, body.len() as int);
        parts_of(
            if k == 0 {
                Some(zero())
            } else {
                re
            },
            if body.skip(k).len() == 0 || body.skip(k) == "+"@ {
                Some(unit())
            } else if body.skip(k) == "-"@ {
                Some(minus_unit())
            } else {
                im
            },
            if t.last() == 'j' || t.last() == 'J' {
                'j'
            } else {
                'i'
            },
        )
    }
}

/// A complex number of parts that are finite.
pub open spec fn parts_of(re: Option<Num>, im: Option<Num>, letter: char) -> Result<
    (Num, Num, char),
    FormulaError,
> {
    match (re, im) {
        (Some(x), Some(y)) => if x.finite() && y.finite() {
            Ok((x, y, letter))
        } else {
            Err(FormulaError::Num)
        },
        _ => Err(FormulaError::Num),
    }
}

fn finite_parts(re: Option<Num>, im: Option<Num>, letter: char) -> (r: Result<
    (Num, Num, char),
    FormulaError,
>)
    ensures
        r == parts_of(re, im, letter),
{
    match (re, im) {
        (Some(x), Some(y)) => if x.is_finite() && y.is_finite() {
            Ok((x, y, letter))
        } else {
            Err(FormulaError::Num)
        },
        _ => Err(FormulaError::Num),
    }
}

/// The complex number that a text is; `re` and `im` are what the numerals of its parts read as.
pub fn read_complex(text: &str, re: Option<Num>, im: Option<Num>) -> (r: Result<
    (Num, Num, char),
    FormulaError,
>)
    ensures
        r == complex_of(text@, re, im),
{
    let c: ComplexText = match split_complex(text) {
        Some(c) => c,
        None => {
            return Err(FormulaError::Num);
        },
    };
    let nil: Num = Num { bits: 0 };
    if !c.has_imaginary {
        return finite_parts(re, Some(nil), 'i');
    }
    proof {
        let body = trimmed(text@).drop_last();
        last_sign_inside(body, body.len() as int);
    }
    let left: Option<Num> = if c.re.as_str().is_empty() {
        Some(nil)
    } else {
        re
    };
    let right: Option<Num> = if c.im.as_str().is_empty() || same_text(c.im.as_str(), "+") {
        Some(Num { bits: 0x3ff0_0000_0000_0000 })
    } else if same_text(c.im.as_str(), "-") {
        Some(Num { bits: 0xbff0_0000_0000_0000 })
    } else {
        im
    };
    finite_parts(left, right, c.letter)
}

proof fn last_sign_inside(s: Seq<char>, n: int)
    requires
        0 <= n <= s.len(),
    ensures
        0 <= last_sign(s, n) <= n,
    decreases n,
{
    if n > 1 {
        last_sign_inside(s, n - 1);
    }
}

// ---- arguments

/// A reading as a complex number.
pub open spec fn complex_read(r: Read) -> Result<(Num, Num, char), FormulaError> {
    match txt(r) {
        Ok(t) => complex_of(t, r.re, r.im),
        Err(e) => Err(e),
    }
}

/// The argument at `i` as a complex number.
pub fn complex_at(args: &Vec<Arg>, i: usize) -> (r: Result<(Num, Num, char), FormulaError>)
    ensures
        r == complex_read(nth(given(args@), i as int)),
{
    let a: Reading = arg_at(args, i);
    match a.text() {
        Ok(t) => read_complex(t.as_str(), a.re, a.im),
        Err(e) => Err(e),
    }
}

/// The first `n` arguments as complex numbers, and the letter of the first; the first error where
/// one is none.
pub open spec fn complex_list(args: Seq<Given>, n: int) -> Result<
    (Seq<(Num, Num)>, char),
    FormulaError,
>
    decreases n,
{
    if n <= 0 {
        Ok((Seq::empty(), 'i'))
    } else {
        match complex_list(args, n - 1) {
            Err(e) => Err(e),
            Ok((zs, letter)) => match complex_read(nth(args, n - 1)) {
                Err(e) => Err(e),
                Ok(z) => Ok(
                    (
                        zs.push((z.0, z.1)),
                        if n == 1 {
                            z.2
                        } else {
                            letter
                        },
                    ),
                ),
            },
        }
    }
}

fn all_complex(args: &Vec<Arg>) -> (r: Result<(Vec<(Num, Num)>, char), FormulaError>)
    ensures
        match complex_list(given(args@), args@.len() as int) {
            Ok((zs, letter)) => r matches Ok(x) && x.0@ == zs && x.1 == letter,
            Err(e) => r == Err::<(Vec<(Num, Num)>, char), FormulaError>(e),
        },
{
    let ghost g = given(args@);
    let mut zs: Vec<(Num, Num)> = Vec::new();
    let mut letter: char = 'i';
    let mut i: usize = 0;
    assert(zs@ == Seq::<(Num, Num)>::empty());
    while i < args.len()
        invariant
            i <= args.len(),
            g == given(args@),
            complex_list(g, i as int) == Ok::<(Seq<(Num, Num)>, char), FormulaError>((zs@, letter)),
        decreases args.len() - i,
    {
        match complex_at(args, i) {
            Ok(z) => {
                zs.push((z.0, z.1));
                if i == 0 {
                    letter = z.2;
                }
            },
            Err(e) => {
                proof {
                    list_fails(g, i + 1, args@.len() as int, e);
                }
                return Err(e);
            },
        }
        i = i + 1;
    }
    Ok((zs, letter))
}

proof fn list_fails(args: Seq<Given>, i: int, n: int, e: FormulaError)
    requires
        0 <= i <= n,
        complex_list(args, i) == Err::<(Seq<(Num, Num)>, char), FormulaError>(e),
    ensures
        complex_list(args, n) == Err::<(Seq<(Num, Num)>, char), FormulaError>(e),
    decreases n - i,
{
    if i < n {
        list_fails(args, i, n - 1, e);
    }
}

// ---- functions

/// A function of complex numbers.
#[derive(Debug, Clone, Copy)]
pub enum ComplexFn {
    /// A complex number of two parts and a letter.
    Complex,
    Real,
    Imaginary,
    Abs,
    Argument,
    Conjugate,
    /// A function of any number of complex numbers.
    All(ComplexKernel),
    Two(ComplexKernel),
    Power,
    /// A logarithm, which zero has none of.
    Log(ComplexKernel),
    One(ComplexKernel),
}

/// The function of complex numbers under a name.
pub open spec fn complex_named(name: Seq<char>) -> Option<ComplexFn> {
    if name == "COMPLEX"@ {
        Some(ComplexFn::Complex)
    } else if name == "IMREAL"@ {
        Some(ComplexFn::Real)
    } else if name == "IMAGINARY"@ {
        Some(ComplexFn::Imaginary)
    } else if name == "IMABS"@ {
        Some(ComplexFn::Abs)
    } else if name == "IMARGUMENT"@ {
        Some(ComplexFn::Argument)
    } else if name == "IMCONJUGATE"@ {
        Some(ComplexFn::Conjugate)
    } else if name == "IMSUM"@ {
        Some(ComplexFn::All(ComplexKernel::Sum))
    } else if name == "IMPRODUCT"@ {
        Some(ComplexFn::All(ComplexKernel::Product))
    } else if name == "IMSUB"@ {
        Some(ComplexFn::Two(ComplexKernel::Difference))
    } else if name == "IMDIV"@ {
        Some(ComplexFn::Two(ComplexKernel::Quotient))
    } else if name == "IMPOWER"@ {
        Some(ComplexFn::Power)
    } else if name == "IMLN"@ {
        Some(ComplexFn::Log(ComplexKernel::Ln))
    } else if name == "IMLOG10"@ {
        Some(ComplexFn::Log(ComplexKernel::Log10))
    } else if name == "IMLOG2"@ {
        Some(ComplexFn::Log(ComplexKernel::Log2))
    } else if name == "IMEXP"@ {
        Some(ComplexFn::One(ComplexKernel::Exp))
    } else if name == "IMSQRT"@ {
        Some(ComplexFn::One(ComplexKernel::Sqrt))
    } else if name == "IMSIN"@ {
        Some(ComplexFn::One(ComplexKernel::Sin))
    } else if name == "IMCOS"@ {
        Some(ComplexFn::One(ComplexKernel::Cos))
    } else if name == "IMTAN"@ {
        Some(ComplexFn::One(ComplexKernel::Tan))
    } else if name == "IMSINH"@ {
        Some(ComplexFn::One(ComplexKernel::Sinh))
    } else if name == "IMCOSH"@ {
        Some(ComplexFn::One(ComplexKernel::Cosh))
    } else if name == "IMSEC"@ {
        Some(ComplexFn::One(ComplexKernel::Sec))
    } else if name == "IMCSC"@ {
        Some(ComplexFn::One(ComplexKernel::Csc))
    } else if name == "IMCOT"@ {
        Some(ComplexFn::One(ComplexKernel::Cot))
    } else if name == "IMSECH"@ {
        Some(ComplexFn::One(ComplexKernel::Sech))
    } else if name == "IMCSCH"@ {
        Some(ComplexFn::One(ComplexKernel::Csch))
    } else {
        None
    }
}

/// The function of complex numbers under a name.
pub fn complex_by_name(name: &str) -> (r: Option<ComplexFn>)
    ensures
        r == complex_named(name@),
{
    if same_text(name, "COMPLEX") {
        Some(ComplexFn::Complex)
    } else if same_text(name, "IMREAL") {
        Some(ComplexFn::Real)
    } else if same_text(name, "IMAGINARY") {
        Some(ComplexFn::Imaginary)
    } else if same_text(name, "IMABS") {
        Some(ComplexFn::Abs)
    } else if same_text(name, "IMARGUMENT") {
        Some(ComplexFn::Argument)
    } else if same_text(name, "IMCONJUGATE") {
        Some(ComplexFn::Conjugate)
    } else if same_text(name, "IMSUM") {
        Some(ComplexFn::All(ComplexKernel::Sum))
    } else if same_text(name, "IMPRODUCT") {
        Some(ComplexFn::All(ComplexKernel::Product))
    } else if same_text(name, "IMSUB") {
        Some(ComplexFn::Two(ComplexKernel::Difference))
    } else if same_text(name, "IMDIV") {
        Some(ComplexFn::Two(ComplexKernel::Quotient))
    } else if same_text(name, "IMPOWER") {
        Some(ComplexFn::Power)
    } else if same_text(name, "IMLN") {
        Some(ComplexFn::Log(ComplexKernel::Ln))
    } else if same_text(name, "IMLOG10") {
        Some(ComplexFn::Log(ComplexKernel::Log10))
    } else if same_text(name, "IMLOG2") {
        Some(ComplexFn::Log(ComplexKernel::Log2))
    } else if same_text(name, "IMEXP") {
        Some(ComplexFn::One(ComplexKernel::Exp))
    } else if same_text(name, "IMSQRT") {
        Some(ComplexFn::One(ComplexKernel::Sqrt))
    } else if same_text(name, "IMSIN") {
        Some(ComplexFn::One(ComplexKernel::Sin))
    } else if same_text(name, "IMCOS") {
        Some(ComplexFn::One(ComplexKernel::Cos))
    } else if same_text(name, "IMTAN") {
        Some(ComplexFn::One(ComplexKernel::Tan))
    } else if same_text(name, "IMSINH") {
        Some(ComplexFn::One(ComplexKernel::Sinh))
    } else if same_text(name, "IMCOSH") {
        Some(ComplexFn::One(ComplexKernel::Cosh))
    } else if same_text(name, "IMSEC") {
        Some(ComplexFn::One(ComplexKernel::Sec))
    } else if same_text(name, "IMCSC") {
        Some(ComplexFn::One(ComplexKernel::Csc))
    } else if same_text(name, "IMCOT") {
        Some(ComplexFn::One(ComplexKernel::Cot))
    } else if same_text(name, "IMSECH") {
        Some(ComplexFn::One(ComplexKernel::Sech))
    } else if same_text(name, "IMCSCH") {
        Some(ComplexFn::One(ComplexKernel::Csch))
    } else {
        None
    }
}

/// A number with the other sign.
pub open spec fn negated(n: Num) -> Num {
    Num {
        bits: (if n.bits >= SIGN {
            n.bits - SIGN
        } else {
            n.bits + SIGN
        }) as u64,
    }
}

fn negate(n: Num) -> (r: Num)
    ensures
        r == negated(n),
{
    Num {
        bits: if n.bits >= SIGN {
            n.bits - SIGN
        } else {
            n.bits + SIGN
        },
    }
}

/// The letter that `COMPLEX` is given: the third argument, `i` where there is none. Other texts
/// than `i` and `j` are `#VALUE!`.
pub open spec fn letter_given(args: Seq<Given>) -> Result<char, FormulaError> {
    if args.len() <= 2 {
        Ok('i')
    } else {
        match txt(nth(args, 2)) {
            Err(e) => Err(e),
            Ok(t) => if t == "i"@ {
                Ok('i')
            } else if t == "j"@ {
                Ok('j')
            } else {
                Err(FormulaError::Value)
            },
        }
    }
}

fn letter_at(args: &Vec<Arg>) -> (r: Result<char, FormulaError>)
    ensures
        r == letter_given(given(args@)),
{
    if args.len() <= 2 {
        return Ok('i');
    }
    match text_at(args, 2) {
        Err(e) => Err(e),
        Ok(t) => if same_text(t.as_str(), "i") {
            Ok('i')
        } else if same_text(t.as_str(), "j") {
            Ok('j')
        } else {
            Err(FormulaError::Value)
        },
    }
}

/// What `COMPLEX` says: the number of two parts, the first error of the arguments otherwise.
pub open spec fn complex_made(args: Seq<Given>) -> Said {
    match num(nth(args, 0)) {
        Err(e) => failed(e),
        Ok(re) => match num(nth(args, 1)) {
            Err(e) => failed(e),
            Ok(im) => match letter_given(args) {
                Err(e) => failed(e),
                Ok(c) => Said::Complex(ComplexKernel::Itself, seq![(re, im)], c),
            },
        },
    }
}

/// What a function of one complex number says of it.
pub open spec fn said_of_one(f: ComplexFn, z: (Num, Num, char)) -> Said {
    let none = equal(z.0, zero()) && equal(z.1, zero());
    match f {
        ComplexFn::Real => figure(z.0),
        ComplexFn::Imaginary => figure(z.1),
        ComplexFn::Abs => work(Kernel::Hypot, seq![z.0, z.1]),
        ComplexFn::Argument => if none {
            failed(FormulaError::Div0)
        } else {
            work(Kernel::Atan2, seq![z.0, z.1])
        },
        ComplexFn::Conjugate => Said::Complex(
            ComplexKernel::Itself,
            seq![(z.0, negated(z.1))],
            z.2,
        ),
        ComplexFn::Log(k) => if none {
            failed(FormulaError::Num)
        } else {
            Said::Complex(k, seq![(z.0, z.1)], z.2)
        },
        ComplexFn::One(k) => Said::Complex(k, seq![(z.0, z.1)], z.2),
        _ => arbitrary(),
    }
}

/// What a function of complex numbers says to its arguments: the first error among those that it
/// takes, and otherwise a value or what is to be computed.
pub open spec fn complex_says(f: ComplexFn, args: Seq<Given>) -> Said {
    match f {
        ComplexFn::Complex => complex_made(args),
        ComplexFn::All(k) => match complex_list(args, args.len() as int) {
            Err(e) => failed(e),
            Ok((zs, letter)) => if zs.len() == 0 {
                failed(FormulaError::Value)
            } else {
                Said::Complex(k, zs, letter)
            },
        },
        ComplexFn::Two(k) => match complex_read(nth(args, 0)) {
            Err(e) => failed(e),
            Ok(x) => match complex_read(nth(args, 1)) {
                Err(e) => failed(e),
                Ok(y) => Said::Complex(k, seq![(x.0, x.1), (y.0, y.1)], x.2),
            },
        },
        ComplexFn::Power => match complex_read(nth(args, 0)) {
            Err(e) => failed(e),
            Ok(z) => match num(nth(args, 1)) {
                Err(e) => failed(e),
                Ok(p) => Said::Complex(
                    ComplexKernel::Power,
                    seq![(z.0, z.1), (p, zero())],
                    z.2,
                ),
            },
        },
        _ => match complex_read(nth(args, 0)) {
            Err(e) => failed(e),
            Ok(z) => said_of_one(f, z),
        },
    }
}

fn make_complex(args: &Vec<Arg>) -> (r: Reply)
    ensures
        r@ == complex_made(given(args@)),
{
    let re: Num = match number_at(args, 0) {
        Ok(x) => x,
        Err(e) => {
            return Reply::error(e);
        },
    };
    let im: Num = match number_at(args, 1) {
        Ok(x) => x,
        Err(e) => {
            return Reply::error(e);
        },
    };
    match letter_at(args) {
        Ok(c) => {
            let zs: Vec<(Num, Num)> = vec![(re, im)];
            assert(zs@ == seq![(re, im)]);
            Reply::Complex(ComplexKernel::Itself, zs, c)
        },
        Err(e) => Reply::error(e),
    }
}

fn one_complex(f: ComplexFn, z: (Num, Num, char)) -> (r: Reply)
    requires
        !(f is Complex || f is All || f is Two || f is Power),
    ensures
        r@ == said_of_one(f, z),
{
    let nil: Num = Num { bits: 0 };
    let none: bool = same_number(z.0, nil) && same_number(z.1, nil);
    let both: Vec<Num> = vec![z.0, z.1];
    let pair: Vec<(Num, Num)> = vec![(z.0, z.1)];
    assert(both@ == seq![z.0, z.1]);
    assert(pair@ == seq![(z.0, z.1)]);
    match f {
        ComplexFn::Real => Reply::number(z.0),
        ComplexFn::Imaginary => Reply::number(z.1),
        ComplexFn::Abs => Reply::compute(Kernel::Hypot, both),
        ComplexFn::Argument => if none {
            Reply::error(FormulaError::Div0)
        } else {
            Reply::compute(Kernel::Atan2, both)
        },
        ComplexFn::Conjugate => {
            let other: Vec<(Num, Num)> = vec![(z.0, negate(z.1))];
            assert(other@ == seq![(z.0, negated(z.1))]);
            Reply::Complex(ComplexKernel::Itself, other, z.2)
        },
        ComplexFn::Log(k) => if none {
            Reply::error(FormulaError::Num)
        } else {
            Reply::Complex(k, pair, z.2)
        },
        ComplexFn::One(k) => Reply::Complex(k, pair, z.2),
        _ => Reply::error(FormulaError::Num),
    }
}

fn two_complex(k: ComplexKernel, args: &Vec<Arg>) -> (r: Reply)
    ensures
        r@ == complex_says(ComplexFn::Two(k), given(args@)),
{
    match complex_at(args, 0) {
        Err(e) => Reply::error(e),
        Ok(x) => match complex_at(args, 1) {
            Err(e) => Reply::error(e),
            Ok(y) => {
                let zs: Vec<(Num, Num)> = vec![(x.0, x.1), (y.0, y.1)];
                assert(zs@ == seq![(x.0, x.1), (y.0, y.1)]);
                Reply::Complex(k, zs, x.2)
            },
        },
    }
}

fn power_of_complex(args: &Vec<Arg>) -> (r: Reply)
    ensures
        r@ == complex_says(ComplexFn::Power, given(args@)),
{
    match complex_at(args, 0) {
        Err(e) => Reply::error(e),
        Ok(z) => match number_at(args, 1) {
            Err(e) => Reply::error(e),
            Ok(p) => {
                let zs: Vec<(Num, Num)> = vec![(z.0, z.1), (p, Num { bits: 0 })];
                assert(zs@ == seq![(z.0, z.1), (p, zero())]);
                Reply::Complex(ComplexKernel::Power, zs, z.2)
            },
        },
    }
}

/// Calls a function of complex numbers.
pub fn complex_call(f: ComplexFn, args: &Vec<Arg>) -> (r: Reply)
    ensures
        r@ == complex_says(f, given(args@)),
{
    match f {
        ComplexFn::Complex => make_complex(args),
        ComplexFn::All(k) => match all_complex(args) {
            Err(e) => Reply::error(e),
            Ok((zs, letter)) => if zs.len() == 0 {
                Reply::error(FormulaError::Value)
            } else {
                Reply::Complex(k, zs, letter)
            },
        },
        ComplexFn::Two(k) => two_complex(k, args),
        ComplexFn::Power => power_of_complex(args),
        _ => match complex_at(args, 0) {
            Err(e) => Reply::error(e),
            Ok(z) => one_complex(f, z),
        },
    }
}

// ---- results

/// How a part of a complex number is shown: `0` where it is zero.
pub open spec fn part_shown(n: Num, text: Seq<char>) -> Seq<char> {
    if equal(n, zero()) {
        "0"@
    } else {
        text
    }
}

/// The value that a computed complex number is, where `re_text` and `im_text` show its parts:
/// `#NUM!` where something was divided by zero or a part is not finite, and otherwise its text.
pub open spec fn complex_value(
    got: ComplexResult,
    re_text: Seq<char>,
    im_text: Seq<char>,
    letter: char,
) -> FValue {
    if equal(got.divisor, zero()) || !got.re.finite() || !got.im.finite() {
        FValue::Error(FormulaError::Num)
    } else {
        FValue::Text(
            complex_shown(
                got.re,
                got.im,
                part_shown(got.re, re_text),
                part_shown(got.im, im_text),
                letter,
            ),
        )
    }
}

fn show_part<'a>(n: Num, text: &'a str) -> (r: &'a str)
    ensures
        r@ == part_shown(n, text@),
{
    if same_number(n, Num { bits: 0 }) {
        "0"
    } else {
        text
    }
}

/// The value that a computed complex number is, where `re_text` and `im_text` show its parts.
pub fn complex_result(got: ComplexResult, re_text: &str, im_text: &str, letter: char) -> (r:
    FormulaValue)
    ensures
        r@ == complex_value(got, re_text@, im_text@, letter),
{
    if same_number(got.divisor, Num { bits: 0 }) || !got.re.is_finite() || !got.im.is_finite() {
        return FormulaValue::Error(FormulaError::Num);
    }
    FormulaValue::Text(
        fmt_cx(got.re, got.im, show_part(got.re, re_text), show_part(got.im, im_text), letter),
    )
}

} // verus!
