//! Functions of a few numbers: which numbers they take, which they refuse, and what is to be
//! computed of the rest.
use crate::kernel::Kernel;
use crate::logic_fn::equal;
use crate::reading::{
    failed, figure, given, nth, num, num_or, number_at, number_or, truncated, whole, work, Arg,
    Given, Reply, Said,
};
use crate::text::same_text;
use crate::value::{zero, FormulaError, Num};
use vstd::prelude::*;

verus! {

/// The whole number -1.
pub const MINUS_ONE: i64 = -1;

/// What is asked of a function's numbers, by their places.
#[derive(Debug, Clone, Copy, PartialEq, Eq, Structural)]
pub enum Check {
    /// The number lies above a bound, or the error is the answer.
    Above(usize, Num, FormulaError),
    AtLeast(usize, Num, FormulaError),
    Below(usize, Num, FormulaError),
    AtMost(usize, Num, FormulaError),
    Not(usize, Num, FormulaError),
    /// Where the number is zero, so is the answer.
    ZeroIsZero(usize),
    /// Both numbers are negative or none is.
    SameSign(usize, usize),
    /// The same, or the first number is zero.
    SameSignOrZero(usize, usize),
    NotBothZero(usize, usize),
    /// The first number is not above the second.
    NotAboveOther(usize, usize),
    /// The number lies outside -1 to 1.
    OutsideUnit(usize),
    /// The number's whole part is not below a bound.
    WholeAtLeast(usize, i64, FormulaError),
    /// The first number's whole part is not above the second's.
    WholeAtMost(usize, usize, FormulaError),
    /// The number's whole part is not zero.
    WholeNotZero(usize),
    /// The whole parts of the first two numbers are periods from 1 on, in order, and the third
    /// number's is not below them.
    Periods(usize, usize, usize),
}

/// How a function of a few numbers goes: the numbers that it must be given, those that stand in
/// for numbers not given, what is asked of them, and what is computed of them.
#[derive(Debug, Clone, Copy)]
pub struct Plan {
    pub kernel: Kernel,
    pub required: usize,
    pub defaults: (Option<Num>, Option<Num>, Option<Num>),
    pub checks: (Option<Check>, Option<Check>, Option<Check>, Option<Check>),
}

/// The number 1.
pub open spec fn unit() -> Num {
    Num { bits: 0x3ff0_0000_0000_0000 }
}

/// The number -1.
pub open spec fn minus_unit() -> Num {
    Num { bits: 0xbff0_0000_0000_0000 }
}

/// What a check answers for some numbers, if it does not let them pass.
pub open spec fn refused(c: Check, ns: Seq<Num>) -> Option<Said> {
    match c {
        Check::Above(i, k, e) => if !k.lt(ns[i as int]) {
            Some(failed(e))
        } else {
            None
        },
        Check::AtLeast(i, k, e) => if ns[i as int].lt(k) {
            Some(failed(e))
        } else {
            None
        },
        Check::Below(i, k, e) => if !ns[i as int].lt(k) {
            Some(failed(e))
        } else {
            None
        },
        Check::AtMost(i, k, e) => if k.lt(ns[i as int]) {
            Some(failed(e))
        } else {
            None
        },
        Check::Not(i, k, e) => if equal(ns[i as int], k) {
            Some(failed(e))
        } else {
            None
        },
        Check::ZeroIsZero(i) => if equal(ns[i as int], zero()) {
            Some(figure(zero()))
        } else {
            None
        },
        Check::SameSign(i, j) => if ns[i as int].lt(zero()) != ns[j as int].lt(zero()) {
            Some(failed(FormulaError::Num))
        } else {
            None
        },
        Check::SameSignOrZero(i, j) => if ns[i as int].lt(zero()) != ns[j as int].lt(zero()) && !equal(
            ns[i as int],
            zero(),
        ) {
            Some(failed(FormulaError::Num))
        } else {
            None
        },
        Check::NotBothZero(i, j) => if equal(ns[i as int], zero()) && equal(ns[j as int], zero()) {
            Some(failed(FormulaError::Div0))
        } else {
            None
        },
        Check::NotAboveOther(i, j) => if ns[j as int].lt(ns[i as int]) {
            Some(failed(FormulaError::Num))
        } else {
            None
        },
        Check::OutsideUnit(i) => if !ns[i as int].lt(minus_unit()) && !unit().lt(ns[i as int]) {
            Some(failed(FormulaError::Num))
        } else {
            None
        },
        Check::WholeAtLeast(i, k, e) => if truncated(ns[i as int]) < k {
            Some(failed(e))
        } else {
            None
        },
        Check::WholeAtMost(i, j, e) => if truncated(ns[i as int]) > truncated(ns[j as int]) {
            Some(failed(e))
        } else {
            None
        },
        Check::WholeNotZero(i) => if truncated(ns[i as int]) == 0 {
            Some(failed(FormulaError::Div0))
        } else {
            None
        },
        Check::Periods(i, j, k) => if truncated(ns[i as int]) < 1 || truncated(ns[j as int])
            < truncated(ns[i as int]) || truncated(ns[j as int]) > truncated(ns[k as int]) {
            Some(failed(FormulaError::Num))
        } else {
            None
        },
    }
}

/// What an optional check answers.
pub open spec fn refused_by(c: Option<Check>, ns: Seq<Num>) -> Option<Said> {
    match c {
        Some(k) => refused(k, ns),
        None => None,
    }
}

/// How many numbers a plan takes.
pub open spec fn arity(p: Plan) -> nat {
    p.required as nat + (match p.defaults {
        (Some(_), Some(_), Some(_)) => 3nat,
        (Some(_), Some(_), None) => 2,
        (Some(_), None, _) => 1,
        _ => 0,
    })
}

/// What stands in for the number at a place behind those that must be given.
pub open spec fn default_at(p: Plan, k: int) -> Num {
    match (
        if k == 0 {
            p.defaults.0
        } else if k == 1 {
            p.defaults.1
        } else {
            p.defaults.2
        }
    ) {
        Some(n) => n,
        None => zero(),
    }
}

/// The number at a place, for a plan.
pub open spec fn number_for(p: Plan, args: Seq<Given>, i: int) -> Result<Num, FormulaError> {
    if i < p.required {
        num(nth(args, i))
    } else {
        num_or(args, i, default_at(p, i - p.required))
    }
}

/// The first `n` numbers for a plan, or the first error among them.
pub open spec fn numbers_for(p: Plan, args: Seq<Given>, n: nat) -> Result<Seq<Num>, FormulaError>
    decreases n,
{
    if n == 0 {
        Ok(Seq::empty())
    } else {
        match numbers_for(p, args, (n - 1) as nat) {
            Err(e) => Err(e),
            Ok(ns) => match number_for(p, args, n - 1) {
                Err(e) => Err(e),
                Ok(x) => Ok(ns.push(x)),
            },
        }
    }
}

/// What a plan gives for some arguments: the first error among its numbers, the answer of the
/// first check that refuses them, or the work to be done on them.
pub open spec fn planned(p: Plan, args: Seq<Given>) -> Said {
    match numbers_for(p, args, arity(p)) {
        Err(e) => failed(e),
        Ok(ns) => judged(p, ns),
    }
}

/// What a plan gives for some numbers.
pub open spec fn judged(p: Plan, ns: Seq<Num>) -> Said {
    match refused_by(p.checks.0, ns) {
        Some(r) => r,
        None => match refused_by(p.checks.1, ns) {
            Some(r) => r,
            None => match refused_by(p.checks.2, ns) {
                Some(r) => r,
                None => match refused_by(p.checks.3, ns) {
                    Some(r) => r,
                    None => work(p.kernel, ns),
                },
            },
        },
    }
}

/// Whether a check speaks of numbers that are there.
pub open spec fn in_reach(c: Option<Check>, n: nat) -> bool {
    match c {
        None => true,
        Some(Check::Above(i, _, _)) => i < n,
        Some(Check::AtLeast(i, _, _)) => i < n,
        Some(Check::Below(i, _, _)) => i < n,
        Some(Check::AtMost(i, _, _)) => i < n,
        Some(Check::Not(i, _, _)) => i < n,
        Some(Check::ZeroIsZero(i)) => i < n,
        Some(Check::SameSign(i, j)) => i < n && j < n,
        Some(Check::SameSignOrZero(i, j)) => i < n && j < n,
        Some(Check::NotBothZero(i, j)) => i < n && j < n,
        Some(Check::NotAboveOther(i, j)) => i < n && j < n,
        Some(Check::OutsideUnit(i)) => i < n,
        Some(Check::WholeAtLeast(i, _, _)) => i < n,
        Some(Check::WholeAtMost(i, j, _)) => i < n && j < n,
        Some(Check::WholeNotZero(i)) => i < n,
        Some(Check::Periods(i, j, k)) => i < n && j < n && k < n,
    }
}

/// Whether a plan's checks speak of its numbers, and its numbers are few.
pub open spec fn sound(p: Plan) -> bool {
    &&& p.required <= 8
    &&& in_reach(p.checks.0, arity(p))
    &&& in_reach(p.checks.1, arity(p))
    &&& in_reach(p.checks.2, arity(p))
    &&& in_reach(p.checks.3, arity(p))
    &&& default_finite(p.defaults.0)
    &&& default_finite(p.defaults.1)
    &&& default_finite(p.defaults.2)
}

/// Whether what stands in for a number is finite.
pub open spec fn default_finite(d: Option<Num>) -> bool {
    d matches Some(n) ==> n.finite()
}

/// An optional reply as a mathematical value.
pub open spec fn maybe(r: Option<Reply>) -> Option<Said> {
    match r {
        Some(x) => Some(x@),
        None => None,
    }
}

fn refuse_if(c: bool, e: FormulaError) -> (r: Option<Reply>)
    ensures
        maybe(r) == (if c {
            Some(failed(e))
        } else {
            None
        }),
{
    if c {
        Some(Reply::error(e))
    } else {
        None
    }
}

fn apply_check(c: Option<Check>, ns: &Vec<Num>) -> (r: Option<Reply>)
    requires
        in_reach(c, ns@.len()),
        forall|i: int| 0 <= i < ns@.len() ==> (#[trigger] ns@[i]).finite(),
    ensures
        maybe(r) == refused_by(c, ns@),
{
    let nil: Num = Num { bits: 0 };
    match c {
        None => None,
        Some(Check::Above(i, k, e)) => refuse_if(!k.less(ns[i]), e),
        Some(Check::AtLeast(i, k, e)) => refuse_if(ns[i].less(k), e),
        Some(Check::Below(i, k, e)) => refuse_if(!ns[i].less(k), e),
        Some(Check::AtMost(i, k, e)) => refuse_if(k.less(ns[i]), e),
        Some(Check::Not(i, k, e)) => refuse_if(crate::logic_fn::same_number(ns[i], k), e),
        Some(Check::ZeroIsZero(i)) => if crate::logic_fn::same_number(ns[i], nil) {
            Some(Reply::number(nil))
        } else {
            None
        },
        Some(Check::SameSign(i, j)) => refuse_if(ns[i].less(nil) != ns[j].less(nil), FormulaError::Num),
        Some(Check::SameSignOrZero(i, j)) => refuse_if(
            ns[i].less(nil) != ns[j].less(nil) && !crate::logic_fn::same_number(ns[i], nil),
            FormulaError::Num,
        ),
        Some(Check::NotBothZero(i, j)) => refuse_if(
            crate::logic_fn::same_number(ns[i], nil) && crate::logic_fn::same_number(ns[j], nil),
            FormulaError::Div0,
        ),
        Some(Check::NotAboveOther(i, j)) => refuse_if(ns[j].less(ns[i]), FormulaError::Num),
        Some(Check::OutsideUnit(i)) => {
            let one: Num = Num { bits: 0x3ff0_0000_0000_0000 };
            let minus: Num = Num { bits: 0xbff0_0000_0000_0000 };
            refuse_if(!ns[i].less(minus) && !one.less(ns[i]), FormulaError::Num)
        },
        Some(Check::WholeAtLeast(i, k, e)) => refuse_if(whole(ns[i]) < k, e),
        Some(Check::WholeAtMost(i, j, e)) => refuse_if(whole(ns[i]) > whole(ns[j]), e),
        Some(Check::WholeNotZero(i)) => refuse_if(whole(ns[i]) == 0, FormulaError::Div0),
        Some(Check::Periods(i, j, k)) => {
            let a: i64 = whole(ns[i]);
            let b: i64 = whole(ns[j]);
            refuse_if(a < 1 || b < a || b > whole(ns[k]), FormulaError::Num)
        },
    }
}

fn count_numbers(p: Plan) -> (r: usize)
    requires
        p.required <= 8,
    ensures
        r == arity(p),
        r <= 11,
{
    p.required + match p.defaults {
        (Some(_), Some(_), Some(_)) => 3,
        (Some(_), Some(_), None) => 2,
        (Some(_), None, _) => 1,
        _ => 0,
    }
}

fn stand_in(p: Plan, k: usize) -> (r: Num)
    ensures
        r == default_at(p, k as int),
{
    let d: Option<Num> = if k == 0 {
        p.defaults.0
    } else if k == 1 {
        p.defaults.1
    } else {
        p.defaults.2
    };
    match d {
        Some(n) => n,
        None => Num { bits: 0 },
    }
}

fn judge(p: Plan, ns: Vec<Num>) -> (r: Reply)
    requires
        sound(p),
        ns@.len() == arity(p),
        forall|i: int| 0 <= i < ns@.len() ==> (#[trigger] ns@[i]).finite(),
    ensures
        r@ == judged(p, ns@),
{
    if let Some(r) = apply_check(p.checks.0, &ns) {
        return r;
    }
    if let Some(r) = apply_check(p.checks.1, &ns) {
        return r;
    }
    if let Some(r) = apply_check(p.checks.2, &ns) {
        return r;
    }
    if let Some(r) = apply_check(p.checks.3, &ns) {
        return r;
    }
    Reply::compute(p.kernel, ns)
}

/// Carries out a plan up to the work that is left to floating point.
pub fn run_plan(p: Plan, args: &Vec<Arg>) -> (r: Reply)
    requires
        sound(p),
    ensures
        r@ == planned(p, given(args@)),
{
    let n: usize = count_numbers(p);
    let mut ns: Vec<Num> = Vec::new();
    let mut error: Option<FormulaError> = None;
    let mut i: usize = 0;
    assert(ns@ =~= Seq::empty());
    while i < n
        invariant
            i <= n <= 11,
            sound(p),
            n == arity(p),
            match numbers_for(p, given(args@), i as nat) {
                Ok(xs) => error is None && ns@ == xs && xs.len() == i,
                Err(e) => error == Some(e),
            },
            forall|k: int| 0 <= k < ns@.len() ==> (#[trigger] ns@[k]).finite(),
        decreases n - i,
    {
        if error.is_none() {
            let x: Result<Num, FormulaError> = if i < p.required {
                number_at(args, i)
            } else {
                number_or(args, i, stand_in(p, i - p.required))
            };
            match x {
                Ok(v) => {
                    assert(v.finite());
                    ns.push(v);
                },
                Err(e) => {
                    error = Some(e);
                },
            }
        }
        i = i + 1;
    }
    match error {
        Some(e) => Reply::error(e),
        None => judge(p, ns),
    }
}

/// The plans of arithmetic and rounding.
pub open spec fn arithmetic(name: Seq<char>) -> Option<Plan> {
    if name == "ABS"@ {
        Some((Plan {
            kernel: Kernel::Abs,
            required: 1,
            defaults: (None, None, None),
            checks: (None, None, None, None),
        }))
    } else if name == "INT"@ {
        Some((Plan {
            kernel: Kernel::Floor,
            required: 1,
            defaults: (None, None, None),
            checks: (None, None, None, None),
        }))
    } else if name == "TRUNC"@ {
        Some((Plan {
            kernel: Kernel::Trunc,
            required: 1,
            defaults: (None, None, None),
            checks: (None, None, None, None),
        }))
    } else if name == "SQRT"@ {
        Some((Plan {
            kernel: Kernel::Sqrt,
            required: 1,
            defaults: (None, None, None),
            checks: (Some(Check::AtLeast(0, Num { bits: 0 }, FormulaError::Num)), None, None, None),
        }))
    } else if name == "ROUND"@ {
        Some((Plan {
            kernel: Kernel::Round,
            required: 2,
            defaults: (None, None, None),
            checks: (None, None, None, None),
        }))
    } else if name == "ROUNDDOWN"@ {
        Some((Plan {
            kernel: Kernel::RoundDown,
            required: 2,
            defaults: (None, None, None),
            checks: (None, None, None, None),
        }))
    } else if name == "ROUNDUP"@ {
        Some((Plan {
            kernel: Kernel::RoundUp,
            required: 2,
            defaults: (None, None, None),
            checks: (None, None, None, None),
        }))
    } else if name == "MOD"@ {
        Some((Plan {
            kernel: Kernel::Mod,
            required: 2,
            defaults: (None, None, None),
            checks: (Some(Check::Not(1, Num { bits: 0 }, FormulaError::Div0)), None, None, None),
        }))
    } else if name == "POWER"@ {
        Some((Plan {
            kernel: Kernel::Power,
            required: 2,
            defaults: (None, None, None),
            checks: (None, None, None, None),
        }))
    } else if name == "MROUND"@ {
        Some((Plan {
            kernel: Kernel::RoundTo,
            required: 2,
            defaults: (None, None, None),
            checks: (Some(Check::ZeroIsZero(1)), Some(Check::SameSign(0, 1)), None, None),
        }))
    } else if name == "EVEN"@ {
        Some((Plan {
            kernel: Kernel::Even,
            required: 1,
            defaults: (None, None, None),
            checks: (None, None, None, None),
        }))
    } else if name == "ODD"@ {
        Some((Plan {
            kernel: Kernel::Odd,
            required: 1,
            defaults: (None, None, None),
            checks: (None, None, None, None),
        }))
    } else if name == "EXP"@ {
        Some((Plan {
            kernel: Kernel::Exp,
            required: 1,
            defaults: (None, None, None),
            checks: (None, None, None, None),
        }))
    } else if name == "LN"@ {
        Some((Plan {
            kernel: Kernel::Ln,
            required: 1,
            defaults: (None, None, None),
            checks: (Some(Check::Above(0, Num { bits: 0 }, FormulaError::Num)), None, None, None),
        }))
    } else if name == "LOG10"@ {
        Some((Plan {
            kernel: Kernel::Log10,
            required: 1,
            defaults: (None, None, None),
            checks: (Some(Check::Above(0, Num { bits: 0 }, FormulaError::Num)), None, None, None),
        }))
    } else if name == "LOG"@ {
        Some((Plan {
            kernel: Kernel::Log,
            required: 1,
            defaults: (Some(Num { bits: 0x4024_0000_0000_0000 }), None, None),
            checks: (
                Some(Check::Above(0, Num { bits: 0 }, FormulaError::Num)),
                Some(Check::Above(1, Num { bits: 0 }, FormulaError::Num)),
                Some(Check::Not(1, Num { bits: 0x3ff0_0000_0000_0000 }, FormulaError::Num)),
                None,
            ),
        }))
    } else if name == "SQRTPI"@ {
        Some((Plan {
            kernel: Kernel::SqrtPi,
            required: 1,
            defaults: (None, None, None),
            checks: (Some(Check::AtLeast(0, Num { bits: 0 }, FormulaError::Num)), None, None, None),
        }))
    } else if name == "FACT"@ {
        Some((Plan {
            kernel: Kernel::Factorial,
            required: 1,
            defaults: (None, None, None),
            checks: (Some(Check::WholeAtLeast(0, 0, FormulaError::Num)), None, None, None),
        }))
    } else if name == "FACTDOUBLE"@ {
        Some((Plan {
            kernel: Kernel::FactDouble,
            required: 1,
            defaults: (None, None, None),
            checks: (Some(Check::WholeAtLeast(0, MINUS_ONE, FormulaError::Num)), None, None, None),
        }))
    } else if name == "COMBIN"@ {
        Some((Plan {
            kernel: Kernel::Combin,
            required: 2,
            defaults: (None, None, None),
            checks: (
                Some(Check::WholeAtLeast(0, 0, FormulaError::Num)),
                Some(Check::WholeAtLeast(1, 0, FormulaError::Num)),
                Some(Check::WholeAtMost(1, 0, FormulaError::Num)),
                None,
            ),
        }))
    } else if name == "COMBINA"@ {
        Some((Plan {
            kernel: Kernel::CombinA,
            required: 2,
            defaults: (None, None, None),
            checks: (
                Some(Check::WholeAtLeast(0, 0, FormulaError::Num)),
                Some(Check::WholeAtLeast(1, 0, FormulaError::Num)),
                None,
                None,
            ),
        }))
    } else if name == "PERMUT"@ {
        Some((Plan {
            kernel: Kernel::Permut,
            required: 2,
            defaults: (None, None, None),
            checks: (
                Some(Check::WholeAtLeast(0, 0, FormulaError::Num)),
                Some(Check::WholeAtLeast(1, 0, FormulaError::Num)),
                Some(Check::WholeAtMost(1, 0, FormulaError::Num)),
                None,
            ),
        }))
    } else if name == "PERMUTATIONA"@ {
        Some((Plan {
            kernel: Kernel::PermutA,
            required: 2,
            defaults: (None, None, None),
            checks: (
                Some(Check::WholeAtLeast(0, 0, FormulaError::Num)),
                Some(Check::WholeAtLeast(1, 0, FormulaError::Num)),
                None,
                None,
            ),
        }))
    } else if name == "QUOTIENT"@ {
        Some((Plan {
            kernel: Kernel::Quotient,
            required: 2,
            defaults: (None, None, None),
            checks: (Some(Check::Not(1, Num { bits: 0 }, FormulaError::Div0)), None, None, None),
        }))
    } else if name == "CEILING.MATH"@ {
        Some((Plan {
            kernel: Kernel::CeilingMath,
            required: 1,
            defaults: (Some(Num { bits: 0x3ff0_0000_0000_0000 }), Some(Num { bits: 0 }), None),
            checks: (Some(Check::ZeroIsZero(1)), None, None, None),
        }))
    } else if name == "FLOOR.MATH"@ {
        Some((Plan {
            kernel: Kernel::FloorMath,
            required: 1,
            defaults: (Some(Num { bits: 0x3ff0_0000_0000_0000 }), Some(Num { bits: 0 }), None),
            checks: (Some(Check::ZeroIsZero(1)), None, None, None),
        }))
    } else if name == "CEILING.PRECISE"@ || name == "ISO.CEILING"@ {
        Some((Plan {
            kernel: Kernel::CeilingPrecise,
            required: 1,
            defaults: (Some(Num { bits: 0x3ff0_0000_0000_0000 }), None, None),
            checks: (Some(Check::ZeroIsZero(1)), None, None, None),
        }))
    } else if name == "FLOOR.PRECISE"@ {
        Some((Plan {
            kernel: Kernel::FloorPrecise,
            required: 1,
            defaults: (Some(Num { bits: 0x3ff0_0000_0000_0000 }), None, None),
            checks: (Some(Check::ZeroIsZero(1)), None, None, None),
        }))
    } else if name == "RANDBETWEEN"@ {
        Some((Plan {
            kernel: Kernel::LowerBound,
            required: 2,
            defaults: (None, None, None),
            checks: (None, None, None, None),
        }))
    } else {
        None
    }
}

fn arithmetic_plan(name: &str) -> (r: Option<Plan>)
    ensures
        r == arithmetic(name@),
{
    if same_text(name, "ABS") {
        Some(Plan {
            kernel: Kernel::Abs,
            required: 1,
            defaults: (None, None, None),
            checks: (None, None, None, None),
        })
    } else if same_text(name, "INT") {
        Some(Plan {
            kernel: Kernel::Floor,
            required: 1,
            defaults: (None, None, None),
            checks: (None, None, None, None),
        })
    } else if same_text(name, "TRUNC") {
        Some(Plan {
            kernel: Kernel::Trunc,
            required: 1,
            defaults: (None, None, None),
            checks: (None, None, None, None),
        })
    } else if same_text(name, "SQRT") {
        Some(Plan {
            kernel: Kernel::Sqrt,
            required: 1,
            defaults: (None, None, None),
            checks: (Some(Check::AtLeast(0, Num { bits: 0 }, FormulaError::Num)), None, None, None),
        })
    } else if same_text(name, "ROUND") {
        Some(Plan {
            kernel: Kernel::Round,
            required: 2,
            defaults: (None, None, None),
            checks: (None, None, None, None),
        })
    } else if same_text(name, "ROUNDDOWN") {
        Some(Plan {
            kernel: Kernel::RoundDown,
            required: 2,
            defaults: (None, None, None),
            checks: (None, None, None, None),
        })
    } else if same_text(name, "ROUNDUP") {
        Some(Plan {
            kernel: Kernel::RoundUp,
            required: 2,
            defaults: (None, None, None),
            checks: (None, None, None, None),
        })
    } else if same_text(name, "MOD") {
        Some(Plan {
            kernel: Kernel::Mod,
            required: 2,
            defaults: (None, None, None),
            checks: (Some(Check::Not(1, Num { bits: 0 }, FormulaError::Div0)), None, None, None),
        })
    } else if same_text(name, "POWER") {
        Some(Plan {
            kernel: Kernel::Power,
            required: 2,
            defaults: (None, None, None),
            checks: (None, None, None, None),
        })
    } else if same_text(name, "MROUND") {
        Some(Plan {
            kernel: Kernel::RoundTo,
            required: 2,
            defaults: (None, None, None),
            checks: (Some(Check::ZeroIsZero(1)), Some(Check::SameSign(0, 1)), None, None),
        })
    } else if same_text(name, "EVEN") {
        Some(Plan {
            kernel: Kernel::Even,
            required: 1,
            defaults: (None, None, None),
            checks: (None, None, None, None),
        })
    } else if same_text(name, "ODD") {
        Some(Plan {
            kernel: Kernel::Odd,
            required: 1,
            defaults: (None, None, None),
            checks: (None, None, None, None),
        })
    } else if same_text(name, "EXP") {
        Some(Plan {
            kernel: Kernel::Exp,
            required: 1,
            defaults: (None, None, None),
            checks: (None, None, None, None),
        })
    } else if same_text(name, "LN") {
        Some(Plan {
            kernel: Kernel::Ln,
            required: 1,
            defaults: (None, None, None),
            checks: (Some(Check::Above(0, Num { bits: 0 }, FormulaError::Num)), None, None, None),
        })
    } else if same_text(name, "LOG10") {
        Some(Plan {
            kernel: Kernel::Log10,
            required: 1,
            defaults: (None, None, None),
            checks: (Some(Check::Above(0, Num { bits: 0 }, FormulaError::Num)), None, None, None),
        })
    } else if same_text(name, "LOG") {
        Some(Plan {
            kernel: Kernel::Log,
            required: 1,
            defaults: (Some(Num { bits: 0x4024_0000_0000_0000 }), None, None),
            checks: (
                Some(Check::Above(0, Num { bits: 0 }, FormulaError::Num)),
                Some(Check::Above(1, Num { bits: 0 }, FormulaError::Num)),
                Some(Check::Not(1, Num { bits: 0x3ff0_0000_0000_0000 }, FormulaError::Num)),
                None,
            ),
        })
    } else if same_text(name, "SQRTPI") {
        Some(Plan {
            kernel: Kernel::SqrtPi,
            required: 1,
            defaults: (None, None, None),
            checks: (Some(Check::AtLeast(0, Num { bits: 0 }, FormulaError::Num)), None, None, None),
        })
    } else if same_text(name, "FACT") {
        Some(Plan {
            kernel: Kernel::Factorial,
            required: 1,
            defaults: (None, None, None),
            checks: (Some(Check::WholeAtLeast(0, 0, FormulaError::Num)), None, None, None),
        })
    } else if same_text(name, "FACTDOUBLE") {
        Some(Plan {
            kernel: Kernel::FactDouble,
            required: 1,
            defaults: (None, None, None),
            checks: (Some(Check::WholeAtLeast(0, MINUS_ONE, FormulaError::Num)), None, None, None),
        })
    } else if same_text(name, "COMBIN") {
        Some(Plan {
            kernel: Kernel::Combin,
            required: 2,
            defaults: (None, None, None),
            checks: (
                Some(Check::WholeAtLeast(0, 0, FormulaError::Num)),
                Some(Check::WholeAtLeast(1, 0, FormulaError::Num)),
                Some(Check::WholeAtMost(1, 0, FormulaError::Num)),
                None,
            ),
        })
    } else if same_text(name, "COMBINA") {
        Some(Plan {
            kernel: Kernel::CombinA,
            required: 2,
            defaults: (None, None, None),
            checks: (
                Some(Check::WholeAtLeast(0, 0, FormulaError::Num)),
                Some(Check::WholeAtLeast(1, 0, FormulaError::Num)),
                None,
                None,
            ),
        })
    } else if same_text(name, "PERMUT") {
        Some(Plan {
            kernel: Kernel::Permut,
            required: 2,
            defaults: (None, None, None),
            checks: (
                Some(Check::WholeAtLeast(0, 0, FormulaError::Num)),
                Some(Check::WholeAtLeast(1, 0, FormulaError::Num)),
                Some(Check::WholeAtMost(1, 0, FormulaError::Num)),
                None,
            ),
        })
    } else if same_text(name, "PERMUTATIONA") {
        Some(Plan {
            kernel: Kernel::PermutA,
            required: 2,
            defaults: (None, None, None),
            checks: (
                Some(Check::WholeAtLeast(0, 0, FormulaError::Num)),
                Some(Check::WholeAtLeast(1, 0, FormulaError::Num)),
                None,
                None,
            ),
        })
    } else if same_text(name, "QUOTIENT") {
        Some(Plan {
            kernel: Kernel::Quotient,
            required: 2,
            defaults: (None, None, None),
            checks: (Some(Check::Not(1, Num { bits: 0 }, FormulaError::Div0)), None, None, None),
        })
    } else if same_text(name, "CEILING.MATH") {
        Some(Plan {
            kernel: Kernel::CeilingMath,
            required: 1,
            defaults: (Some(Num { bits: 0x3ff0_0000_0000_0000 }), Some(Num { bits: 0 }), None),
            checks: (Some(Check::ZeroIsZero(1)), None, None, None),
        })
    } else if same_text(name, "FLOOR.MATH") {
        Some(Plan {
            kernel: Kernel::FloorMath,
            required: 1,
            defaults: (Some(Num { bits: 0x3ff0_0000_0000_0000 }), Some(Num { bits: 0 }), None),
            checks: (Some(Check::ZeroIsZero(1)), None, None, None),
        })
    } else if same_text(name, "CEILING.PRECISE") || same_text(name, "ISO.CEILING") {
        Some(Plan {
            kernel: Kernel::CeilingPrecise,
            required: 1,
            defaults: (Some(Num { bits: 0x3ff0_0000_0000_0000 }), None, None),
            checks: (Some(Check::ZeroIsZero(1)), None, None, None),
        })
    } else if same_text(name, "FLOOR.PRECISE") {
        Some(Plan {
            kernel: Kernel::FloorPrecise,
            required: 1,
            defaults: (Some(Num { bits: 0x3ff0_0000_0000_0000 }), None, None),
            checks: (Some(Check::ZeroIsZero(1)), None, None, None),
        })
    } else if same_text(name, "RANDBETWEEN") {
        Some(Plan {
            kernel: Kernel::LowerBound,
            required: 2,
            defaults: (None, None, None),
            checks: (None, None, None, None),
        })
    } else {
        None
    }
}

/// The plans of trigonometry and special functions.
pub open spec fn trigonometry(name: Seq<char>) -> Option<Plan> {
    if name == "SIN"@ {
        Some((Plan {
            kernel: Kernel::Sin,
            required: 1,
            defaults: (None, None, None),
            checks: (None, None, None, None),
        }))
    } else if name == "COS"@ {
        Some((Plan {
            kernel: Kernel::Cos,
            required: 1,
            defaults: (None, None, None),
            checks: (None, None, None, None),
        }))
    } else if name == "TAN"@ {
        Some((Plan {
            kernel: Kernel::Tan,
            required: 1,
            defaults: (None, None, None),
            checks: (None, None, None, None),
        }))
    } else if name == "ATAN"@ {
        Some((Plan {
            kernel: Kernel::Atan,
            required: 1,
            defaults: (None, None, None),
            checks: (None, None, None, None),
        }))
    } else if name == "SINH"@ {
        Some((Plan {
            kernel: Kernel::Sinh,
            required: 1,
            defaults: (None, None, None),
            checks: (None, None, None, None),
        }))
    } else if name == "COSH"@ {
        Some((Plan {
            kernel: Kernel::Cosh,
            required: 1,
            defaults: (None, None, None),
            checks: (None, None, None, None),
        }))
    } else if name == "TANH"@ {
        Some((Plan {
            kernel: Kernel::Tanh,
            required: 1,
            defaults: (None, None, None),
            checks: (None, None, None, None),
        }))
    } else if name == "ASINH"@ {
        Some((Plan {
            kernel: Kernel::Asinh,
            required: 1,
            defaults: (None, None, None),
            checks: (None, None, None, None),
        }))
    } else if name == "SEC"@ {
        Some((Plan {
            kernel: Kernel::Sec,
            required: 1,
            defaults: (None, None, None),
            checks: (None, None, None, None),
        }))
    } else if name == "CSC"@ {
        Some((Plan {
            kernel: Kernel::Csc,
            required: 1,
            defaults: (None, None, None),
            checks: (None, None, None, None),
        }))
    } else if name == "COT"@ {
        Some((Plan {
            kernel: Kernel::Cot,
            required: 1,
            defaults: (None, None, None),
            checks: (None, None, None, None),
        }))
    } else if name == "SECH"@ {
        Some((Plan {
            kernel: Kernel::Sech,
            required: 1,
            defaults: (None, None, None),
            checks: (None, None, None, None),
        }))
    } else if name == "CSCH"@ {
        Some((Plan {
            kernel: Kernel::Csch,
            required: 1,
            defaults: (None, None, None),
            checks: (None, None, None, None),
        }))
    } else if name == "COTH"@ {
        Some((Plan {
            kernel: Kernel::Coth,
            required: 1,
            defaults: (None, None, None),
            checks: (None, None, None, None),
        }))
    } else if name == "ACOT"@ {
        Some((Plan {
            kernel: Kernel::Acot,
            required: 1,
            defaults: (None, None, None),
            checks: (None, None, None, None),
        }))
    } else if name == "DEGREES"@ {
        Some((Plan {
            kernel: Kernel::Degrees,
            required: 1,
            defaults: (None, None, None),
            checks: (None, None, None, None),
        }))
    } else if name == "RADIANS"@ {
        Some((Plan {
            kernel: Kernel::Radians,
            required: 1,
            defaults: (None, None, None),
            checks: (None, None, None, None),
        }))
    } else if name == "ASIN"@ {
        Some((Plan {
            kernel: Kernel::Asin,
            required: 1,
            defaults: (None, None, None),
            checks: (
                Some(Check::AtLeast(0, Num { bits: 0xbff0_0000_0000_0000 }, FormulaError::Num)),
                Some(Check::AtMost(0, Num { bits: 0x3ff0_0000_0000_0000 }, FormulaError::Num)),
                None,
                None,
            ),
        }))
    } else if name == "ACOS"@ {
        Some((Plan {
            kernel: Kernel::Acos,
            required: 1,
            defaults: (None, None, None),
            checks: (
                Some(Check::AtLeast(0, Num { bits: 0xbff0_0000_0000_0000 }, FormulaError::Num)),
                Some(Check::AtMost(0, Num { bits: 0x3ff0_0000_0000_0000 }, FormulaError::Num)),
                None,
                None,
            ),
        }))
    } else if name == "ATAN2"@ {
        Some((Plan {
            kernel: Kernel::Atan2,
            required: 2,
            defaults: (None, None, None),
            checks: (Some(Check::NotBothZero(0, 1)), None, None, None),
        }))
    } else if name == "ACOSH"@ {
        Some((Plan {
            kernel: Kernel::Acosh,
            required: 1,
            defaults: (None, None, None),
            checks: (
                Some(Check::AtLeast(0, Num { bits: 0x3ff0_0000_0000_0000 }, FormulaError::Num)),
                None,
                None,
                None,
            ),
        }))
    } else if name == "ATANH"@ {
        Some((Plan {
            kernel: Kernel::Atanh,
            required: 1,
            defaults: (None, None, None),
            checks: (
                Some(Check::Above(0, Num { bits: 0xbff0_0000_0000_0000 }, FormulaError::Num)),
                Some(Check::Below(0, Num { bits: 0x3ff0_0000_0000_0000 }, FormulaError::Num)),
                None,
                None,
            ),
        }))
    } else if name == "ACOTH"@ {
        Some((Plan {
            kernel: Kernel::Acoth,
            required: 1,
            defaults: (None, None, None),
            checks: (Some(Check::OutsideUnit(0)), None, None, None),
        }))
    } else if name == "ERF.PRECISE"@ {
        Some((Plan {
            kernel: Kernel::Erf,
            required: 1,
            defaults: (None, None, None),
            checks: (None, None, None, None),
        }))
    } else if name == "ERFC"@ || name == "ERFC.PRECISE"@ {
        Some((Plan {
            kernel: Kernel::Erfc,
            required: 1,
            defaults: (None, None, None),
            checks: (None, None, None, None),
        }))
    } else if name == "BESSELJ"@ {
        Some((Plan {
            kernel: Kernel::BesselJ,
            required: 2,
            defaults: (None, None, None),
            checks: (None, None, None, None),
        }))
    } else if name == "BESSELY"@ {
        Some((Plan {
            kernel: Kernel::BesselY,
            required: 2,
            defaults: (None, None, None),
            checks: (None, None, None, None),
        }))
    } else if name == "BESSELI"@ {
        Some((Plan {
            kernel: Kernel::BesselI,
            required: 2,
            defaults: (None, None, None),
            checks: (None, None, None, None),
        }))
    } else if name == "BESSELK"@ {
        Some((Plan {
            kernel: Kernel::BesselK,
            required: 2,
            defaults: (None, None, None),
            checks: (None, None, None, None),
        }))
    } else {
        None
    }
}

fn trigonometry_plan(name: &str) -> (r: Option<Plan>)
    ensures
        r == trigonometry(name@),
{
    if same_text(name, "SIN") {
        Some(Plan {
            kernel: Kernel::Sin,
            required: 1,
            defaults: (None, None, None),
            checks: (None, None, None, None),
        })
    } else if same_text(name, "COS") {
        Some(Plan {
            kernel: Kernel::Cos,
            required: 1,
            defaults: (None, None, None),
            checks: (None, None, None, None),
        })
    } else if same_text(name, "TAN") {
        Some(Plan {
            kernel: Kernel::Tan,
            required: 1,
            defaults: (None, None, None),
            checks: (None, None, None, None),
        })
    } else if same_text(name, "ATAN") {
        Some(Plan {
            kernel: Kernel::Atan,
            required: 1,
            defaults: (None, None, None),
            checks: (None, None, None, None),
        })
    } else if same_text(name, "SINH") {
        Some(Plan {
            kernel: Kernel::Sinh,
            required: 1,
            defaults: (None, None, None),
            checks: (None, None, None, None),
        })
    } else if same_text(name, "COSH") {
        Some(Plan {
            kernel: Kernel::Cosh,
            required: 1,
            defaults: (None, None, None),
            checks: (None, None, None, None),
        })
    } else if same_text(name, "TANH") {
        Some(Plan {
            kernel: Kernel::Tanh,
            required: 1,
            defaults: (None, None, None),
            checks: (None, None, None, None),
        })
    } else if same_text(name, "ASINH") {
        Some(Plan {
            kernel: Kernel::Asinh,
            required: 1,
            defaults: (None, None, None),
            checks: (None, None, None, None),
        })
    } else if same_text(name, "SEC") {
        Some(Plan {
            kernel: Kernel::Sec,
            required: 1,
            defaults: (None, None, None),
            checks: (None, None, None, None),
        })
    } else if same_text(name, "CSC") {
        Some(Plan {
            kernel: Kernel::Csc,
            required: 1,
            defaults: (None, None, None),
            checks: (None, None, None, None),
        })
    } else if same_text(name, "COT") {
        Some(Plan {
            kernel: Kernel::Cot,
            required: 1,
            defaults: (None, None, None),
            checks: (None, None, None, None),
        })
    } else if same_text(name, "SECH") {
        Some(Plan {
            kernel: Kernel::Sech,
            required: 1,
            defaults: (None, None, None),
            checks: (None, None, None, None),
        })
    } else if same_text(name, "CSCH") {
        Some(Plan {
            kernel: Kernel::Csch,
            required: 1,
            defaults: (None, None, None),
            checks: (None, None, None, None),
        })
    } else if same_text(name, "COTH") {
        Some(Plan {
            kernel: Kernel::Coth,
            required: 1,
            defaults: (None, None, None),
            checks: (None, None, None, None),
        })
    } else if same_text(name, "ACOT") {
        Some(Plan {
            kernel: Kernel::Acot,
            required: 1,
            defaults: (None, None, None),
            checks: (None, None, None, None),
        })
    } else if same_text(name, "DEGREES") {
        Some(Plan {
            kernel: Kernel::Degrees,
            required: 1,
            defaults: (None, None, None),
            checks: (None, None, None, None),
        })
    } else if same_text(name, "RADIANS") {
        Some(Plan {
            kernel: Kernel::Radians,
            required: 1,
            defaults: (None, None, None),
            checks: (None, None, None, None),
        })
    } else if same_text(name, "ASIN") {
        Some(Plan {
            kernel: Kernel::Asin,
            required: 1,
            defaults: (None, None, None),
            checks: (
                Some(Check::AtLeast(0, Num { bits: 0xbff0_0000_0000_0000 }, FormulaError::Num)),
                Some(Check::AtMost(0, Num { bits: 0x3ff0_0000_0000_0000 }, FormulaError::Num)),
                None,
                None,
            ),
        })
    } else if same_text(name, "ACOS") {
        Some(Plan {
            kernel: Kernel::Acos,
            required: 1,
            defaults: (None, None, None),
            checks: (
                Some(Check::AtLeast(0, Num { bits: 0xbff0_0000_0000_0000 }, FormulaError::Num)),
                Some(Check::AtMost(0, Num { bits: 0x3ff0_0000_0000_0000 }, FormulaError::Num)),
                None,
                None,
            ),
        })
    } else if same_text(name, "ATAN2") {
        Some(Plan {
            kernel: Kernel::Atan2,
            required: 2,
            defaults: (None, None, None),
            checks: (Some(Check::NotBothZero(0, 1)), None, None, None),
        })
    } else if same_text(name, "ACOSH") {
        Some(Plan {
            kernel: Kernel::Acosh,
            required: 1,
            defaults: (None, None, None),
            checks: (
                Some(Check::AtLeast(0, Num { bits: 0x3ff0_0000_0000_0000 }, FormulaError::Num)),
                None,
                None,
                None,
            ),
        })
    } else if same_text(name, "ATANH") {
        Some(Plan {
            kernel: Kernel::Atanh,
            required: 1,
            defaults: (None, None, None),
            checks: (
                Some(Check::Above(0, Num { bits: 0xbff0_0000_0000_0000 }, FormulaError::Num)),
                Some(Check::Below(0, Num { bits: 0x3ff0_0000_0000_0000 }, FormulaError::Num)),
                None,
                None,
            ),
        })
    } else if same_text(name, "ACOTH") {
        Some(Plan {
            kernel: Kernel::Acoth,
            required: 1,
            defaults: (None, None, None),
            checks: (Some(Check::OutsideUnit(0)), None, None, None),
        })
    } else if same_text(name, "ERF.PRECISE") {
        Some(Plan {
            kernel: Kernel::Erf,
            required: 1,
            defaults: (None, None, None),
            checks: (None, None, None, None),
        })
    } else if same_text(name, "ERFC") || same_text(name, "ERFC.PRECISE") {
        Some(Plan {
            kernel: Kernel::Erfc,
            required: 1,
            defaults: (None, None, None),
            checks: (None, None, None, None),
        })
    } else if same_text(name, "BESSELJ") {
        Some(Plan {
            kernel: Kernel::BesselJ,
            required: 2,
            defaults: (None, None, None),
            checks: (None, None, None, None),
        })
    } else if same_text(name, "BESSELY") {
        Some(Plan {
            kernel: Kernel::BesselY,
            required: 2,
            defaults: (None, None, None),
            checks: (None, None, None, None),
        })
    } else if same_text(name, "BESSELI") {
        Some(Plan {
            kernel: Kernel::BesselI,
            required: 2,
            defaults: (None, None, None),
            checks: (None, None, None, None),
        })
    } else if same_text(name, "BESSELK") {
        Some(Plan {
            kernel: Kernel::BesselK,
            required: 2,
            defaults: (None, None, None),
            checks: (None, None, None, None),
        })
    } else {
        None
    }
}

/// The plans of finance.
pub open spec fn annuity(name: Seq<char>) -> Option<Plan> {
    if name == "PMT"@ {
        Some((Plan {
            kernel: Kernel::Pmt,
            required: 3,
            defaults: (Some(Num { bits: 0 }), Some(Num { bits: 0 }), None),
            checks: (None, None, None, None),
        }))
    } else if name == "FV"@ {
        Some((Plan {
            kernel: Kernel::Fv,
            required: 3,
            defaults: (Some(Num { bits: 0 }), Some(Num { bits: 0 }), None),
            checks: (None, None, None, None),
        }))
    } else if name == "PV"@ {
        Some((Plan {
            kernel: Kernel::Pv,
            required: 3,
            defaults: (Some(Num { bits: 0 }), Some(Num { bits: 0 }), None),
            checks: (None, None, None, None),
        }))
    } else if name == "NPER"@ {
        Some((Plan {
            kernel: Kernel::Nper,
            required: 3,
            defaults: (Some(Num { bits: 0 }), Some(Num { bits: 0 }), None),
            checks: (None, None, None, None),
        }))
    } else if name == "RATE"@ {
        Some((Plan {
            kernel: Kernel::Rate,
            required: 3,
            defaults: (
                Some(Num { bits: 0 }),
                Some(Num { bits: 0 }),
                Some(Num { bits: 0x3fb9_9999_9999_999a }),
            ),
            checks: (None, None, None, None),
        }))
    } else if name == "IPMT"@ {
        Some((Plan {
            kernel: Kernel::Ipmt,
            required: 4,
            defaults: (Some(Num { bits: 0 }), Some(Num { bits: 0 }), None),
            checks: (None, None, None, None),
        }))
    } else if name == "PPMT"@ {
        Some((Plan {
            kernel: Kernel::Ppmt,
            required: 4,
            defaults: (Some(Num { bits: 0 }), Some(Num { bits: 0 }), None),
            checks: (None, None, None, None),
        }))
    } else if name == "CUMIPMT"@ {
        Some((Plan {
            kernel: Kernel::CumIpmt,
            required: 5,
            defaults: (Some(Num { bits: 0 }), None, None),
            checks: (
                Some(Check::Above(0, Num { bits: 0 }, FormulaError::Num)),
                Some(Check::Above(1, Num { bits: 0 }, FormulaError::Num)),
                Some(Check::Above(2, Num { bits: 0 }, FormulaError::Num)),
                Some(Check::Periods(3, 4, 1)),
            ),
        }))
    } else if name == "CUMPRINC"@ {
        Some((Plan {
            kernel: Kernel::CumPrinc,
            required: 5,
            defaults: (Some(Num { bits: 0 }), None, None),
            checks: (
                Some(Check::Above(0, Num { bits: 0 }, FormulaError::Num)),
                Some(Check::Above(1, Num { bits: 0 }, FormulaError::Num)),
                Some(Check::Above(2, Num { bits: 0 }, FormulaError::Num)),
                Some(Check::Periods(3, 4, 1)),
            ),
        }))
    } else if name == "SLN"@ {
        Some((Plan {
            kernel: Kernel::Sln,
            required: 3,
            defaults: (None, None, None),
            checks: (Some(Check::Not(2, Num { bits: 0 }, FormulaError::Div0)), None, None, None),
        }))
    } else if name == "SYD"@ {
        Some((Plan {
            kernel: Kernel::Syd,
            required: 4,
            defaults: (None, None, None),
            checks: (
                Some(Check::Above(2, Num { bits: 0 }, FormulaError::Num)),
                Some(Check::AtLeast(3, Num { bits: 0x3ff0_0000_0000_0000 }, FormulaError::Num)),
                Some(Check::NotAboveOther(3, 2)),
                None,
            ),
        }))
    } else if name == "DDB"@ {
        Some((Plan {
            kernel: Kernel::Ddb,
            required: 4,
            defaults: (Some(Num { bits: 0x4000_0000_0000_0000 }), None, None),
            checks: (
                Some(Check::Above(2, Num { bits: 0 }, FormulaError::Num)),
                Some(Check::AtLeast(3, Num { bits: 0x3ff0_0000_0000_0000 }, FormulaError::Num)),
                Some(Check::NotAboveOther(3, 2)),
                None,
            ),
        }))
    } else if name == "DB"@ {
        Some((Plan {
            kernel: Kernel::Db,
            required: 4,
            defaults: (Some(Num { bits: 0x4028_0000_0000_0000 }), None, None),
            checks: (
                Some(Check::Above(2, Num { bits: 0 }, FormulaError::Num)),
                Some(Check::AtLeast(0, Num { bits: 0 }, FormulaError::Num)),
                Some(Check::ZeroIsZero(0)),
                None,
            ),
        }))
    } else if name == "EFFECT"@ {
        Some((Plan {
            kernel: Kernel::Effect,
            required: 2,
            defaults: (None, None, None),
            checks: (
                Some(Check::Above(0, Num { bits: 0 }, FormulaError::Num)),
                Some(Check::WholeAtLeast(1, 1, FormulaError::Num)),
                None,
                None,
            ),
        }))
    } else if name == "NOMINAL"@ {
        Some((Plan {
            kernel: Kernel::Nominal,
            required: 2,
            defaults: (None, None, None),
            checks: (
                Some(Check::Above(0, Num { bits: 0 }, FormulaError::Num)),
                Some(Check::WholeAtLeast(1, 1, FormulaError::Num)),
                None,
                None,
            ),
        }))
    } else if name == "DOLLARDE"@ {
        Some((Plan {
            kernel: Kernel::DollarDe,
            required: 2,
            defaults: (None, None, None),
            checks: (
                Some(Check::WholeAtLeast(1, 0, FormulaError::Num)),
                Some(Check::WholeNotZero(1)),
                None,
                None,
            ),
        }))
    } else if name == "DOLLARFR"@ {
        Some((Plan {
            kernel: Kernel::DollarFr,
            required: 2,
            defaults: (None, None, None),
            checks: (
                Some(Check::WholeAtLeast(1, 0, FormulaError::Num)),
                Some(Check::WholeNotZero(1)),
                None,
                None,
            ),
        }))
    } else if name == "PDURATION"@ {
        Some((Plan {
            kernel: Kernel::Pduration,
            required: 3,
            defaults: (None, None, None),
            checks: (
                Some(Check::Above(0, Num { bits: 0 }, FormulaError::Num)),
                Some(Check::Above(1, Num { bits: 0 }, FormulaError::Num)),
                Some(Check::Above(2, Num { bits: 0 }, FormulaError::Num)),
                None,
            ),
        }))
    } else if name == "RRI"@ {
        Some((Plan {
            kernel: Kernel::Rri,
            required: 3,
            defaults: (None, None, None),
            checks: (
                Some(Check::Above(0, Num { bits: 0 }, FormulaError::Num)),
                Some(Check::Not(1, Num { bits: 0 }, FormulaError::Num)),
                None,
                None,
            ),
        }))
    } else {
        None
    }
}

fn annuity_plan(name: &str) -> (r: Option<Plan>)
    ensures
        r == annuity(name@),
{
    if same_text(name, "PMT") {
        Some(Plan {
            kernel: Kernel::Pmt,
            required: 3,
            defaults: (Some(Num { bits: 0 }), Some(Num { bits: 0 }), None),
            checks: (None, None, None, None),
        })
    } else if same_text(name, "FV") {
        Some(Plan {
            kernel: Kernel::Fv,
            required: 3,
            defaults: (Some(Num { bits: 0 }), Some(Num { bits: 0 }), None),
            checks: (None, None, None, None),
        })
    } else if same_text(name, "PV") {
        Some(Plan {
            kernel: Kernel::Pv,
            required: 3,
            defaults: (Some(Num { bits: 0 }), Some(Num { bits: 0 }), None),
            checks: (None, None, None, None),
        })
    } else if same_text(name, "NPER") {
        Some(Plan {
            kernel: Kernel::Nper,
            required: 3,
            defaults: (Some(Num { bits: 0 }), Some(Num { bits: 0 }), None),
            checks: (None, None, None, None),
        })
    } else if same_text(name, "RATE") {
        Some(Plan {
            kernel: Kernel::Rate,
            required: 3,
            defaults: (
                Some(Num { bits: 0 }),
                Some(Num { bits: 0 }),
                Some(Num { bits: 0x3fb9_9999_9999_999a }),
            ),
            checks: (None, None, None, None),
        })
    } else if same_text(name, "IPMT") {
        Some(Plan {
            kernel: Kernel::Ipmt,
            required: 4,
            defaults: (Some(Num { bits: 0 }), Some(Num { bits: 0 }), None),
            checks: (None, None, None, None),
        })
    } else if same_text(name, "PPMT") {
        Some(Plan {
            kernel: Kernel::Ppmt,
            required: 4,
            defaults: (Some(Num { bits: 0 }), Some(Num { bits: 0 }), None),
            checks: (None, None, None, None),
        })
    } else if same_text(name, "CUMIPMT") {
        Some(Plan {
            kernel: Kernel::CumIpmt,
            required: 5,
            defaults: (Some(Num { bits: 0 }), None, None),
            checks: (
                Some(Check::Above(0, Num { bits: 0 }, FormulaError::Num)),
                Some(Check::Above(1, Num { bits: 0 }, FormulaError::Num)),
                Some(Check::Above(2, Num { bits: 0 }, FormulaError::Num)),
                Some(Check::Periods(3, 4, 1)),
            ),
        })
    } else if same_text(name, "CUMPRINC") {
        Some(Plan {
            kernel: Kernel::CumPrinc,
            required: 5,
            defaults: (Some(Num { bits: 0 }), None, None),
            checks: (
                Some(Check::Above(0, Num { bits: 0 }, FormulaError::Num)),
                Some(Check::Above(1, Num { bits: 0 }, FormulaError::Num)),
                Some(Check::Above(2, Num { bits: 0 }, FormulaError::Num)),
                Some(Check::Periods(3, 4, 1)),
            ),
        })
    } else if same_text(name, "SLN") {
        Some(Plan {
            kernel: Kernel::Sln,
            required: 3,
            defaults: (None, None, None),
            checks: (Some(Check::Not(2, Num { bits: 0 }, FormulaError::Div0)), None, None, None),
        })
    } else if same_text(name, "SYD") {
        Some(Plan {
            kernel: Kernel::Syd,
            required: 4,
            defaults: (None, None, None),
            checks: (
                Some(Check::Above(2, Num { bits: 0 }, FormulaError::Num)),
                Some(Check::AtLeast(3, Num { bits: 0x3ff0_0000_0000_0000 }, FormulaError::Num)),
                Some(Check::NotAboveOther(3, 2)),
                None,
            ),
        })
    } else if same_text(name, "DDB") {
        Some(Plan {
            kernel: Kernel::Ddb,
            required: 4,
            defaults: (Some(Num { bits: 0x4000_0000_0000_0000 }), None, None),
            checks: (
                Some(Check::Above(2, Num { bits: 0 }, FormulaError::Num)),
                Some(Check::AtLeast(3, Num { bits: 0x3ff0_0000_0000_0000 }, FormulaError::Num)),
                Some(Check::NotAboveOther(3, 2)),
                None,
            ),
        })
    } else if same_text(name, "DB") {
        Some(Plan {
            kernel: Kernel::Db,
            required: 4,
            defaults: (Some(Num { bits: 0x4028_0000_0000_0000 }), None, None),
            checks: (
                Some(Check::Above(2, Num { bits: 0 }, FormulaError::Num)),
                Some(Check::AtLeast(0, Num { bits: 0 }, FormulaError::Num)),
                Some(Check::ZeroIsZero(0)),
                None,
            ),
        })
    } else if same_text(name, "EFFECT") {
        Some(Plan {
            kernel: Kernel::Effect,
            required: 2,
            defaults: (None, None, None),
            checks: (
                Some(Check::Above(0, Num { bits: 0 }, FormulaError::Num)),
                Some(Check::WholeAtLeast(1, 1, FormulaError::Num)),
                None,
                None,
            ),
        })
    } else if same_text(name, "NOMINAL") {
        Some(Plan {
            kernel: Kernel::Nominal,
            required: 2,
            defaults: (None, None, None),
            checks: (
                Some(Check::Above(0, Num { bits: 0 }, FormulaError::Num)),
                Some(Check::WholeAtLeast(1, 1, FormulaError::Num)),
                None,
                None,
            ),
        })
    } else if same_text(name, "DOLLARDE") {
        Some(Plan {
            kernel: Kernel::DollarDe,
            required: 2,
            defaults: (None, None, None),
            checks: (
                Some(Check::WholeAtLeast(1, 0, FormulaError::Num)),
                Some(Check::WholeNotZero(1)),
                None,
                None,
            ),
        })
    } else if same_text(name, "DOLLARFR") {
        Some(Plan {
            kernel: Kernel::DollarFr,
            required: 2,
            defaults: (None, None, None),
            checks: (
                Some(Check::WholeAtLeast(1, 0, FormulaError::Num)),
                Some(Check::WholeNotZero(1)),
                None,
                None,
            ),
        })
    } else if same_text(name, "PDURATION") {
        Some(Plan {
            kernel: Kernel::Pduration,
            required: 3,
            defaults: (None, None, None),
            checks: (
                Some(Check::Above(0, Num { bits: 0 }, FormulaError::Num)),
                Some(Check::Above(1, Num { bits: 0 }, FormulaError::Num)),
                Some(Check::Above(2, Num { bits: 0 }, FormulaError::Num)),
                None,
            ),
        })
    } else if same_text(name, "RRI") {
        Some(Plan {
            kernel: Kernel::Rri,
            required: 3,
            defaults: (None, None, None),
            checks: (
                Some(Check::Above(0, Num { bits: 0 }, FormulaError::Num)),
                Some(Check::Not(1, Num { bits: 0 }, FormulaError::Num)),
                None,
                None,
            ),
        })
    } else {
        None
    }
}

/// The plans of the normal distribution.
pub open spec fn normal(name: Seq<char>) -> Option<Plan> {
    if name == "NORMSDIST"@ {
        Some((Plan {
            kernel: Kernel::NormalCdf,
            required: 1,
            defaults: (None, None, None),
            checks: (None, None, None, None),
        }))
    } else if name == "NORM.INV"@ || name == "NORMINV"@ {
        Some((Plan {
            kernel: Kernel::NormalInv,
            required: 3,
            defaults: (None, None, None),
            checks: (Some(Check::Above(2, Num { bits: 0 }, FormulaError::Num)), None, None, None),
        }))
    } else if name == "NORM.S.INV"@ || name == "NORMSINV"@ {
        Some((Plan {
            kernel: Kernel::StandardInv,
            required: 1,
            defaults: (None, None, None),
            checks: (None, None, None, None),
        }))
    } else if name == "STANDARDIZE"@ {
        Some((Plan {
            kernel: Kernel::Standardize,
            required: 3,
            defaults: (None, None, None),
            checks: (Some(Check::Above(2, Num { bits: 0 }, FormulaError::Num)), None, None, None),
        }))
    } else if name == "CONFIDENCE.NORM"@ || name == "CONFIDENCE"@ {
        Some((Plan {
            kernel: Kernel::Confidence,
            required: 3,
            defaults: (None, None, None),
            checks: (
                Some(Check::Above(0, Num { bits: 0 }, FormulaError::Num)),
                Some(Check::Below(0, Num { bits: 0x3ff0_0000_0000_0000 }, FormulaError::Num)),
                Some(Check::Above(1, Num { bits: 0 }, FormulaError::Num)),
                Some(Check::AtLeast(2, Num { bits: 0x3ff0_0000_0000_0000 }, FormulaError::Num)),
            ),
        }))
    } else if name == "GAUSS"@ {
        Some((Plan {
            kernel: Kernel::Gauss,
            required: 1,
            defaults: (None, None, None),
            checks: (None, None, None, None),
        }))
    } else if name == "PHI"@ {
        Some((Plan {
            kernel: Kernel::Phi,
            required: 1,
            defaults: (None, None, None),
            checks: (None, None, None, None),
        }))
    } else {
        None
    }
}

fn normal_plan(name: &str) -> (r: Option<Plan>)
    ensures
        r == normal(name@),
{
    if same_text(name, "NORMSDIST") {
        Some(Plan {
            kernel: Kernel::NormalCdf,
            required: 1,
            defaults: (None, None, None),
            checks: (None, None, None, None),
        })
    } else if same_text(name, "NORM.INV") || same_text(name, "NORMINV") {
        Some(Plan {
            kernel: Kernel::NormalInv,
            required: 3,
            defaults: (None, None, None),
            checks: (Some(Check::Above(2, Num { bits: 0 }, FormulaError::Num)), None, None, None),
        })
    } else if same_text(name, "NORM.S.INV") || same_text(name, "NORMSINV") {
        Some(Plan {
            kernel: Kernel::StandardInv,
            required: 1,
            defaults: (None, None, None),
            checks: (None, None, None, None),
        })
    } else if same_text(name, "STANDARDIZE") {
        Some(Plan {
            kernel: Kernel::Standardize,
            required: 3,
            defaults: (None, None, None),
            checks: (Some(Check::Above(2, Num { bits: 0 }, FormulaError::Num)), None, None, None),
        })
    } else if same_text(name, "CONFIDENCE.NORM") || same_text(name, "CONFIDENCE") {
        Some(Plan {
            kernel: Kernel::Confidence,
            required: 3,
            defaults: (None, None, None),
            checks: (
                Some(Check::Above(0, Num { bits: 0 }, FormulaError::Num)),
                Some(Check::Below(0, Num { bits: 0x3ff0_0000_0000_0000 }, FormulaError::Num)),
                Some(Check::Above(1, Num { bits: 0 }, FormulaError::Num)),
                Some(Check::AtLeast(2, Num { bits: 0x3ff0_0000_0000_0000 }, FormulaError::Num)),
            ),
        })
    } else if same_text(name, "GAUSS") {
        Some(Plan {
            kernel: Kernel::Gauss,
            required: 1,
            defaults: (None, None, None),
            checks: (None, None, None, None),
        })
    } else if same_text(name, "PHI") {
        Some(Plan {
            kernel: Kernel::Phi,
            required: 1,
            defaults: (None, None, None),
            checks: (None, None, None, None),
        })
    } else {
        None
    }
}

/// The plan of a function of a few numbers.
pub open spec fn plan_of(name: Seq<char>) -> Option<Plan> {
    match arithmetic(name) {
        Some(p) => Some(p),
        None => match trigonometry(name) {
            Some(p) => Some(p),
            None => match annuity(name) {
                Some(p) => Some(p),
                None => normal(name),
            },
        },
    }
}

/// The plan of a function of a few numbers, found by its name.
pub fn find_plan(name: &str) -> (r: Option<Plan>)
    ensures
        r == plan_of(name@),
        r matches Some(p) ==> sound(p),
{
    if let Some(p) = arithmetic_plan(name) {
        return Some(p);
    }
    if let Some(p) = trigonometry_plan(name) {
        return Some(p);
    }
    if let Some(p) = annuity_plan(name) {
        return Some(p);
    }
    normal_plan(name)
}

} // verus!
