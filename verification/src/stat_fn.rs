//! Functions of many numbers: which values count as numbers, what their order says, and what is
//! to be computed of them.
use crate::criteria::{extreme_of, extreme_or_zero, numbers_view};
use crate::kernel::Kernel;
use crate::logic_fn::equal;
use crate::reading::{
    counted, everything, failed, figure, given, given_from, nothing, nth, num, number_at, read_seq,
    truncated, values_from, whole, work, Arg, Given, Read, Reading, Reply, Said,
};
use crate::value::{blank, one, zero, FValue, FormulaError, FormulaValue, Num};
use vstd::prelude::*;

verus! {

/// Which values count as numbers.
#[derive(Debug, Clone, Copy, PartialEq, Eq, Structural)]
pub enum Pick {
    /// Numbers, truth values, and texts that read as numbers; blanks and other texts are left
    /// out; an error ends it.
    Usual,
    /// What is not blank has to read as a number.
    Strict,
    /// As usual, but a text that reads as no number counts as 0.
    WithTexts,
    /// Whatever reads as a number, blanks as 0; the rest is left out.
    Readable,
    /// As usual, but errors are left out.
    Tolerant,
    /// Whatever is not blank and reads as a number.
    Filled,
    /// Everything has to read as a number whose factorial is finite.
    Factors,
    /// Everything has to read as a number.
    All,
}

/// The number behind a text's reading, where it is finite.
pub open spec fn finite_or_none(n: Option<Num>) -> Option<Num> {
    match n {
        Some(x) => if x.finite() {
            Some(x)
        } else {
            None
        },
        None => None,
    }
}

/// The number of a truth value.
pub open spec fn truth_number(b: bool) -> Num {
    if b {
        one()
    } else {
        zero()
    }
}

/// What a value counts for: a number, nothing, or an error that ends the collecting.
pub open spec fn picked(v: Read, p: Pick) -> Result<Option<Num>, FormulaError> {
    match p {
        Pick::Usual => match v.value {
            FValue::Error(e) => Err(e),
            FValue::Number(n) => Ok(Some(n)),
            FValue::Bool(b) => Ok(Some(truth_number(b))),
            FValue::Text(s) => if s.len() == 0 {
                Ok(None)
            } else {
                Ok(finite_or_none(v.parsed))
            },
            FValue::Blank => Ok(None),
        },
        Pick::Strict => if blank(v.value) {
            Ok(None)
        } else {
            match num(v) {
                Ok(n) => Ok(Some(n)),
                Err(e) => Err(e),
            }
        },
        Pick::WithTexts => match v.value {
            FValue::Error(e) => Err(e),
            FValue::Number(n) => Ok(Some(n)),
            FValue::Bool(b) => Ok(Some(truth_number(b))),
            FValue::Text(s) => if s.len() == 0 {
                Ok(None)
            } else {
                match finite_or_none(v.parsed) {
                    Some(n) => Ok(Some(n)),
                    None => Ok(Some(zero())),
                }
            },
            FValue::Blank => Ok(None),
        },
        Pick::Readable => match num(v) {
            Ok(n) => Ok(Some(n)),
            Err(_) => Ok(None),
        },
        Pick::Tolerant => match v.value {
            FValue::Error(_) => Ok(None),
            FValue::Number(n) => Ok(Some(n)),
            FValue::Bool(b) => Ok(Some(truth_number(b))),
            FValue::Text(s) => if s.len() == 0 {
                Ok(None)
            } else {
                Ok(finite_or_none(v.parsed))
            },
            FValue::Blank => Ok(None),
        },
        Pick::Filled => if blank(v.value) {
            Ok(None)
        } else {
            match num(v) {
                Ok(n) => Ok(Some(n)),
                Err(_) => Ok(None),
            }
        },
        Pick::Factors => match num(v) {
            Ok(n) => if 0 <= truncated(n) <= 170 {
                Ok(Some(n))
            } else {
                Err(FormulaError::Num)
            },
            Err(e) => Err(e),
        },
        Pick::All => match num(v) {
            Ok(n) => Ok(Some(n)),
            Err(e) => Err(e),
        },
    }
}

/// The numbers that some values count for, or the first error that ends the collecting.
pub open spec fn gathered(vs: Seq<Read>, p: Pick) -> Result<Seq<Num>, FormulaError>
    decreases vs.len(),
{
    if vs.len() == 0 {
        Ok(Seq::empty())
    } else {
        match gathered(vs.drop_last(), p) {
            Err(e) => Err(e),
            Ok(ns) => match picked(vs.last(), p) {
                Err(e) => Err(e),
                Ok(None) => Ok(ns),
                Ok(Some(n)) => Ok(ns.push(n)),
            },
        }
    }
}

fn finite_only(n: Option<Num>) -> (r: Option<Num>)
    ensures
        r == finite_or_none(n),
{
    match n {
        Some(x) => if x.is_finite() {
            Some(x)
        } else {
            None
        },
        None => None,
    }
}

fn number_of_truth(b: bool) -> (r: Num)
    ensures
        r == truth_number(b),
{
    if b {
        Num { bits: 0x3ff0_0000_0000_0000 }
    } else {
        Num { bits: 0 }
    }
}

fn pick_usual(v: &Reading, p: Pick) -> (r: Result<Option<Num>, FormulaError>)
    requires
        p == Pick::Usual || p == Pick::WithTexts || p == Pick::Tolerant,
    ensures
        r == picked(v@, p),
{
    match &v.value {
        FormulaValue::Error(e) => match p {
            Pick::Tolerant => Ok(None),
            _ => Err(*e),
        },
        FormulaValue::Number(n) => Ok(Some(*n)),
        FormulaValue::Bool(b) => Ok(Some(number_of_truth(*b))),
        FormulaValue::Text(s) => if s.as_str().is_empty() {
            Ok(None)
        } else {
            match finite_only(v.parsed) {
                Some(n) => Ok(Some(n)),
                None => match p {
                    Pick::WithTexts => Ok(Some(Num { bits: 0 })),
                    _ => Ok(None),
                },
            }
        },
        FormulaValue::Blank => Ok(None),
    }
}

fn pick(v: &Reading, p: Pick) -> (r: Result<Option<Num>, FormulaError>)
    ensures
        r == picked(v@, p),
{
    match p {
        Pick::Usual => pick_usual(v, p),
        Pick::WithTexts => pick_usual(v, p),
        Pick::Tolerant => pick_usual(v, p),
        Pick::Strict => if v.value.is_blank() {
            Ok(None)
        } else {
            match v.number() {
                Ok(n) => Ok(Some(n)),
                Err(e) => Err(e),
            }
        },
        Pick::Readable => match v.number() {
            Ok(n) => Ok(Some(n)),
            Err(_) => Ok(None),
        },
        Pick::Filled => if v.value.is_blank() {
            Ok(None)
        } else {
            match v.number() {
                Ok(n) => Ok(Some(n)),
                Err(_) => Ok(None),
            }
        },
        Pick::Factors => match v.number() {
            Ok(n) => {
                let k: i64 = whole(n);
                if 0 <= k && k <= 170 {
                    Ok(Some(n))
                } else {
                    Err(FormulaError::Num)
                }
            },
            Err(e) => Err(e),
        },
        Pick::All => match v.number() {
            Ok(n) => Ok(Some(n)),
            Err(e) => Err(e),
        },
    }
}

/// The numbers that some values count for, or the first error that ends the collecting.
pub fn gather(vs: &Vec<Reading>, p: Pick) -> (r: Result<Vec<Num>, FormulaError>)
    ensures
        numbers_view(r) == gathered(read_seq(vs@), p),
{
    let ghost all = read_seq(vs@);
    let mut out: Vec<Num> = Vec::new();
    let mut error: Option<FormulaError> = None;
    let mut i: usize = 0;
    assert(all.take(0).len() == 0);
    assert(out@ =~= Seq::empty());
    while i < vs.len()
        invariant
            i <= vs.len(),
            all == read_seq(vs@),
            match gathered(all.take(i as int), p) {
                Ok(ns) => error is None && out@ == ns,
                Err(e) => error == Some(e),
            },
        decreases vs.len() - i,
    {
        assert(all.take(i + 1).drop_last() =~= all.take(i as int));
        assert(all.take(i + 1).last() == vs@[i as int]@);
        if error.is_none() {
            match pick(&vs[i], p) {
                Err(e) => {
                    error = Some(e);
                },
                Ok(None) => {},
                Ok(Some(n)) => {
                    out.push(n);
                },
            }
        }
        i = i + 1;
    }
    assert(all.take(i as int) =~= all);
    match error {
        Some(e) => Err(e),
        None => Ok(out),
    }
}

/// The numbers that all arguments from `from` on count for.
pub open spec fn numbers_from(args: Seq<Given>, from: int, p: Pick) -> Result<Seq<Num>, FormulaError> {
    gathered(everything(given_from(args, from)), p)
}

/// The numbers that all arguments from `from` on count for.
pub fn gather_from(args: &Vec<Arg>, from: usize, p: Pick) -> (r: Result<Vec<Num>, FormulaError>)
    ensures
        numbers_view(r) == numbers_from(given(args@), from as int, p),
{
    let vs: Vec<Reading> = values_from(args, from);
    gather(&vs, p)
}

/// The numbers that all arguments count for, in the usual way.
pub fn numeric_values(args: &Vec<Arg>) -> (r: Result<Vec<Num>, FormulaError>)
    ensures
        numbers_view(r) == numbers_from(given(args@), 0, Pick::Usual),
{
    gather_from(args, 0, Pick::Usual)
}

/// What is made of many numbers.
#[derive(Debug, Clone, Copy, PartialEq, Eq, Structural)]
pub enum Total {
    Sum,
    Mean,
    Product,
    Largest,
    Smallest,
    SumSquares,
    /// The variance of a sample or of all, or its square root.
    Variance(bool, bool),
    DevSq,
    AveDev,
    Skew(bool),
    Kurt,
    GeoMean,
    HarMean,
    Median,
    Mode,
}

/// Whether some number is not above zero.
pub open spec fn any_not_positive(ns: Seq<Num>) -> bool {
    exists|i: int| 0 <= i < ns.len() && !zero().lt(#[trigger] ns[i])
}

/// Whether a number comes before another.
pub open spec fn before(x: Num, y: Num, down: bool) -> bool {
    if down {
        y.lt(x)
    } else {
        x.lt(y)
    }
}

/// A number put into an order, behind those that do not come after it.
pub open spec fn put_in_order(o: Seq<Num>, x: Num, down: bool) -> Seq<Num>
    decreases o.len(),
{
    if o.len() == 0 || !before(x, o.last(), down) {
        o.push(x)
    } else {
        put_in_order(o.drop_last(), x, down).push(o.last())
    }
}

/// Numbers in rising or falling order; equal ones keep their order.
pub open spec fn ordered(ns: Seq<Num>, down: bool) -> Seq<Num>
    decreases ns.len(),
{
    if ns.len() == 0 {
        ns
    } else {
        put_in_order(ordered(ns.drop_last(), down), ns.last(), down)
    }
}

proof fn put_in_order_keeps(o: Seq<Num>, x: Num, down: bool)
    ensures
        put_in_order(o, x, down).len() == o.len() + 1,
        put_in_order(o, x, down).to_multiset() == o.to_multiset().insert(x),
    decreases o.len(),
{
    broadcast use vstd::seq_lib::group_to_multiset_ensures;

    if o.len() == 0 || !before(x, o.last(), down) {
    } else {
        put_in_order_keeps(o.drop_last(), x, down);
        let q = put_in_order(o.drop_last(), x, down);
        assert(o =~= o.drop_last().push(o.last()));
        assert(q.push(o.last()).to_multiset() =~= o.to_multiset().insert(x));
    }
}

/// Whether no number comes before the one in front of it.
pub open spec fn in_order(o: Seq<Num>, down: bool) -> bool {
    forall|i: int, j: int| 0 <= i < j < o.len() ==> !before(o[j], o[i], down)
}

proof fn put_in_order_sorts(o: Seq<Num>, x: Num, down: bool)
    requires
        in_order(o, down),
        !x.nan(),
        forall|i: int| 0 <= i < o.len() ==> !(#[trigger] o[i]).nan(),
    ensures
        in_order(put_in_order(o, x, down), down),
        forall|i: int|
            0 <= i < put_in_order(o, x, down).len() ==> !(#[trigger] put_in_order(
                o,
                x,
                down,
            )[i]).nan(),
        forall|y: Num|
            !y.nan() && !before(y, x, down) && (forall|i: int|
                0 <= i < o.len() ==> !before(y, #[trigger] o[i], down)) ==> (forall|i: int|
                0 <= i < put_in_order(o, x, down).len() ==> !before(
                    y,
                    #[trigger] put_in_order(o, x, down)[i],
                    down,
                )),
    decreases o.len(),
{
    if o.len() == 0 || !before(x, o.last(), down) {
        let r = o.push(x);
        assert forall|i: int, j: int| 0 <= i < j < r.len() implies !before(r[j], r[i], down) by {
            if j == o.len() {
                if i < o.len() - 1 {
                    assert(!before(o[o.len() - 1], o[i], down));
                }
            }
        }
    } else {
        let d = o.drop_last();
        assert forall|i: int| 0 <= i < d.len() implies !(#[trigger] d[i]).nan() by {
            assert(d[i] == o[i]);
        }
        assert(in_order(d, down));
        put_in_order_sorts(d, x, down);
        let q = put_in_order(d, x, down);
        let r = q.push(o.last());
        let y = o.last();
        assert(!before(y, x, down));
        assert forall|i: int| 0 <= i < d.len() implies !before(y, #[trigger] d[i], down) by {
            assert(d[i] == o[i]);
            assert(!before(o[o.len() - 1], o[i], down));
        }
        assert forall|i: int, j: int| 0 <= i < j < r.len() implies !before(r[j], r[i], down) by {
            if j == q.len() {
                assert(!before(y, q[i], down));
            }
        }
        assert forall|z: Num|
            !z.nan() && !before(z, x, down) && (forall|i: int|
                0 <= i < o.len() ==> !before(z, #[trigger] o[i], down)) implies (forall|i: int|
            0 <= i < r.len() ==> !before(z, #[trigger] r[i], down)) by {
            assert(forall|i: int| 0 <= i < d.len() ==> !before(z, #[trigger] d[i], down)) by {
                assert forall|i: int| 0 <= i < d.len() implies !before(z, #[trigger] d[i], down) by {
                    assert(d[i] == o[i]);
                }
            }
            assert(!before(z, o[o.len() - 1], down));
        }
    }
}

/// Ordering numbers keeps them all, and puts none before a smaller one, or before a larger one
/// where they fall.
pub proof fn ordered_sorts(ns: Seq<Num>, down: bool)
    requires
        forall|i: int| 0 <= i < ns.len() ==> !(#[trigger] ns[i]).nan(),
    ensures
        ordered(ns, down).len() == ns.len(),
        ordered(ns, down).to_multiset() == ns.to_multiset(),
        in_order(ordered(ns, down), down),
    decreases ns.len(),
{
    sorted_and_kept(ns, down);
}

proof fn sorted_and_kept(ns: Seq<Num>, down: bool)
    requires
        forall|i: int| 0 <= i < ns.len() ==> !(#[trigger] ns[i]).nan(),
    ensures
        ordered(ns, down).len() == ns.len(),
        ordered(ns, down).to_multiset() == ns.to_multiset(),
        in_order(ordered(ns, down), down),
        forall|i: int| 0 <= i < ns.len() ==> !(#[trigger] ordered(ns, down)[i]).nan(),
    decreases ns.len(),
{
    broadcast use vstd::seq_lib::group_to_multiset_ensures;

    if ns.len() > 0 {
        let d = ns.drop_last();
        assert forall|i: int| 0 <= i < d.len() implies !(#[trigger] d[i]).nan() by {
            assert(d[i] == ns[i]);
        }
        sorted_and_kept(d, down);
        assert(!ns[ns.len() - 1].nan());
        put_in_order_keeps(ordered(d, down), ns.last(), down);
        put_in_order_sorts(ordered(d, down), ns.last(), down);
        assert(ns =~= d.push(ns.last()));
    }
}

proof fn ordered_len(ns: Seq<Num>, down: bool)
    ensures
        ordered(ns, down).len() == ns.len(),
    decreases ns.len(),
{
    if ns.len() > 0 {
        ordered_len(ns.drop_last(), down);
        put_in_order_keeps(ordered(ns.drop_last(), down), ns.last(), down);
    }
}

proof fn put_at(o: Seq<Num>, x: Num, down: bool, p: int)
    requires
        0 <= p <= o.len(),
        p == 0 || !before(x, o[p - 1], down),
        forall|k: int| p <= k < o.len() ==> before(x, #[trigger] o[k], down),
    ensures
        put_in_order(o, x, down) == o.insert(p, x),
    decreases o.len(),
{
    if p == o.len() {
        assert(o.insert(p, x) =~= o.push(x));
    } else {
        assert(before(x, o[o.len() - 1], down));
        let d = o.drop_last();
        assert forall|k: int| p <= k < d.len() implies before(x, #[trigger] d[k], down) by {
            assert(d[k] == o[k]);
        }
        put_at(d, x, down, p);
        assert(o.insert(p, x) =~= d.insert(p, x).push(o.last()));
    }
}

fn comes_before(x: Num, y: Num, down: bool) -> (r: bool)
    ensures
        r == before(x, y, down),
{
    if down {
        y.less(x)
    } else {
        x.less(y)
    }
}

/// Numbers in rising or falling order; equal ones keep their order.
pub fn put_in_sequence(ns: &Vec<Num>, down: bool) -> (r: Vec<Num>)
    ensures
        r@ == ordered(ns@, down),
        r@.len() == ns@.len(),
{
    let mut o: Vec<Num> = Vec::new();
    let mut i: usize = 0;
    assert(o@ =~= ordered(ns@.take(0), down));
    while i < ns.len()
        invariant
            i <= ns.len(),
            o@ == ordered(ns@.take(i as int), down),
            o@.len() == i,
        decreases ns.len() - i,
    {
        let x: Num = ns[i];
        let mut p: usize = o.len();
        while p > 0 && comes_before(x, o[p - 1], down)
            invariant
                p <= o.len(),
                forall|k: int| p <= k < o@.len() ==> before(x, #[trigger] o@[k], down),
            decreases p,
        {
            p = p - 1;
        }
        proof {
            put_at(o@, x, down, p as int);
            assert(ns@.take(i + 1).drop_last() =~= ns@.take(i as int));
            assert(ns@.take(i + 1).last() == x);
        }
        o.insert(p, x);
        i = i + 1;
    }
    assert(ns@.take(i as int) =~= ns@);
    o
}

/// How often a number stands in a list, by its bits.
pub open spec fn times(ns: Seq<Num>, x: Num) -> nat
    decreases ns.len(),
{
    if ns.len() == 0 {
        0
    } else {
        times(ns.drop_last(), x) + (if ns.last() == x {
            1nat
        } else {
            0
        })
    }
}

/// The number that was the first to stand more than once, and more often than any before it did,
/// and how often it stands; 1 where none stands more than once.
pub open spec fn most_often(ns: Seq<Num>) -> (Option<Num>, nat)
    decreases ns.len(),
{
    if ns.len() == 0 {
        (None, 1)
    } else {
        let (best, count) = most_often(ns.drop_last());
        if times(ns, ns.last()) > count {
            (Some(ns.last()), times(ns, ns.last()))
        } else {
            (best, count)
        }
    }
}

fn count_times(ns: &Vec<Num>, upto: usize, x: Num) -> (r: usize)
    requires
        upto <= ns.len(),
    ensures
        r == times(ns@.take(upto as int), x),
        r <= upto,
{
    let mut count: usize = 0;
    let mut i: usize = 0;
    assert(ns@.take(0).len() == 0);
    while i < upto
        invariant
            i <= upto <= ns.len(),
            count <= i,
            count == times(ns@.take(i as int), x),
        decreases upto - i,
    {
        assert(ns@.take(i + 1).drop_last() =~= ns@.take(i as int));
        assert(ns@.take(i + 1).last() == ns@[i as int]);
        if ns[i].bits == x.bits {
            count = count + 1;
        }
        i = i + 1;
    }
    count
}

/// The number that stands most often.
pub fn mode(ns: &Vec<Num>) -> (r: Option<Num>)
    ensures
        r == most_often(ns@).0,
{
    let mut best: Option<Num> = None;
    let mut best_count: usize = 1;
    let mut i: usize = 0;
    assert(ns@.take(0).len() == 0);
    while i < ns.len()
        invariant
            i <= ns.len(),
            (best, best_count as nat) == most_often(ns@.take(i as int)),
        decreases ns.len() - i,
    {
        assert(ns@.take(i + 1).drop_last() =~= ns@.take(i as int));
        assert(ns@.take(i + 1).last() == ns@[i as int]);
        let count: usize = count_times(ns, i + 1, ns[i]);
        if count > best_count {
            best_count = count;
            best = Some(ns[i]);
        }
        i = i + 1;
    }
    assert(ns@.take(i as int) =~= ns@);
    best
}

/// The middle number of some, or the work of finding it between two.
pub open spec fn median_of(ns: Seq<Num>) -> Said {
    if ns.len() == 0 {
        failed(FormulaError::Num)
    } else {
        let o = ordered(ns, false);
        let mid = (ns.len() / 2) as int;
        if ns.len() % 2 == 1 {
            figure(o[mid])
        } else {
            work(Kernel::Mean, seq![o[mid - 1], o[mid]])
        }
    }
}

pub fn median(ns: &Vec<Num>) -> (r: Reply)
    ensures
        r@ == median_of(ns@),
{
    if ns.len() == 0 {
        return Reply::error(FormulaError::Num);
    }
    let o: Vec<Num> = put_in_sequence(ns, false);
    let mid: usize = o.len() / 2;
    if o.len() % 2 == 1 {
        Reply::number(o[mid])
    } else {
        let mut two: Vec<Num> = Vec::new();
        two.push(o[mid - 1]);
        two.push(o[mid]);
        assert(two@ =~= seq![o@[mid - 1], o@[mid as int]]);
        Reply::compute(Kernel::Mean, two)
    }
}

/// What is made of many numbers, or the work it takes.
pub open spec fn totalled(ns: Seq<Num>, t: Total) -> Said {
    match t {
        Total::Sum => work(Kernel::Sum, ns),
        Total::Mean => if ns.len() == 0 {
            failed(FormulaError::Div0)
        } else {
            work(Kernel::Mean, ns)
        },
        Total::Product => if ns.len() == 0 {
            figure(zero())
        } else {
            work(Kernel::Product, ns)
        },
        Total::Largest => figure(extreme_or_zero(ns, true)),
        Total::Smallest => figure(extreme_or_zero(ns, false)),
        Total::SumSquares => work(Kernel::SumSquares, ns),
        Total::Variance(sample, root) => if sample && ns.len() < 2 || ns.len() < 1 {
            failed(FormulaError::Div0)
        } else {
            work(Kernel::Variance(sample, root), ns)
        },
        Total::DevSq => if ns.len() == 0 {
            figure(zero())
        } else {
            work(Kernel::DevSq, ns)
        },
        Total::AveDev => if ns.len() == 0 {
            failed(FormulaError::Num)
        } else {
            work(Kernel::AveDev, ns)
        },
        Total::Skew(all) => if all && ns.len() < 1 || !all && ns.len() < 3 {
            failed(FormulaError::Div0)
        } else {
            work(Kernel::Skew(all), ns)
        },
        Total::Kurt => if ns.len() < 4 {
            failed(FormulaError::Div0)
        } else {
            work(Kernel::Kurt, ns)
        },
        Total::GeoMean => if ns.len() == 0 || any_not_positive(ns) {
            failed(FormulaError::Num)
        } else {
            work(Kernel::GeoMean, ns)
        },
        Total::HarMean => if ns.len() == 0 || any_not_positive(ns) {
            failed(FormulaError::Num)
        } else {
            work(Kernel::HarMean, ns)
        },
        Total::Median => median_of(ns),
        Total::Mode => match most_often(ns).0 {
            Some(n) => figure(n),
            None => failed(FormulaError::Na),
        },
    }
}

fn has_not_positive(ns: &Vec<Num>) -> (r: bool)
    ensures
        r == any_not_positive(ns@),
{
    let nil: Num = Num { bits: 0 };
    let mut i: usize = 0;
    while i < ns.len()
        invariant
            i <= ns.len(),
            nil == zero(),
            forall|k: int| 0 <= k < i ==> zero().lt(#[trigger] ns@[k]),
        decreases ns.len() - i,
    {
        if !nil.less(ns[i]) {
            assert(!zero().lt(ns@[i as int]));
            return true;
        }
        i = i + 1;
    }
    false
}

/// What is made of many numbers.
pub fn total_of(ns: Vec<Num>, t: Total) -> (r: Reply)
    ensures
        r@ == totalled(ns@, t),
{
    let n: usize = ns.len();
    match t {
        Total::Sum => Reply::compute(Kernel::Sum, ns),
        Total::Mean => if n == 0 {
            Reply::error(FormulaError::Div0)
        } else {
            Reply::compute(Kernel::Mean, ns)
        },
        Total::Product => if n == 0 {
            Reply::number(Num { bits: 0 })
        } else {
            Reply::compute(Kernel::Product, ns)
        },
        Total::Largest => Reply::number(extreme_of(&ns, true)),
        Total::Smallest => Reply::number(extreme_of(&ns, false)),
        Total::SumSquares => Reply::compute(Kernel::SumSquares, ns),
        Total::Variance(sample, root) => if (sample && n < 2) || n < 1 {
            Reply::error(FormulaError::Div0)
        } else {
            Reply::compute(Kernel::Variance(sample, root), ns)
        },
        Total::DevSq => if n == 0 {
            Reply::number(Num { bits: 0 })
        } else {
            Reply::compute(Kernel::DevSq, ns)
        },
        Total::AveDev => if n == 0 {
            Reply::error(FormulaError::Num)
        } else {
            Reply::compute(Kernel::AveDev, ns)
        },
        Total::Skew(all) => if (all && n < 1) || (!all && n < 3) {
            Reply::error(FormulaError::Div0)
        } else {
            Reply::compute(Kernel::Skew(all), ns)
        },
        Total::Kurt => if n < 4 {
            Reply::error(FormulaError::Div0)
        } else {
            Reply::compute(Kernel::Kurt, ns)
        },
        Total::GeoMean => if n == 0 || has_not_positive(&ns) {
            Reply::error(FormulaError::Num)
        } else {
            Reply::compute(Kernel::GeoMean, ns)
        },
        Total::HarMean => if n == 0 || has_not_positive(&ns) {
            Reply::error(FormulaError::Num)
        } else {
            Reply::compute(Kernel::HarMean, ns)
        },
        Total::Median => median(&ns),
        Total::Mode => match mode(&ns) {
            Some(x) => Reply::number(x),
            None => Reply::error(FormulaError::Na),
        },
    }
}

/// `SUM`, `AVERAGE`, `MAX` and the like: what is made of the numbers of the arguments from
/// `from` on.
pub open spec fn total_from(args: Seq<Given>, from: int, p: Pick, t: Total) -> Said {
    match numbers_from(args, from, p) {
        Err(e) => failed(e),
        Ok(ns) => totalled(ns, t),
    }
}

/// `SUM`, `AVERAGE`, `MAX` and the like.
pub fn total_args(args: &Vec<Arg>, from: usize, p: Pick, t: Total) -> (r: Reply)
    ensures
        r@ == total_from(given(args@), from as int, p, t),
{
    match gather_from(args, from, p) {
        Err(e) => Reply::error(e),
        Ok(ns) => total_of(ns, t),
    }
}

/// Which values are counted.
#[derive(Debug, Clone, Copy, PartialEq, Eq, Structural)]
pub enum Counted {
    Numbers,
    Filled,
    Blank,
}

/// Whether a value is counted.
pub open spec fn is_counted(v: Read, c: Counted) -> bool {
    match c {
        Counted::Numbers => match v.value {
            FValue::Number(_) => true,
            FValue::Text(s) => crate::text::trimmed(s).len() > 0 && finite_or_none(v.parsed) is Some,
            _ => false,
        },
        Counted::Filled => !blank(v.value),
        Counted::Blank => blank(v.value),
    }
}

/// How many values are counted.
pub open spec fn count_in(vs: Seq<Read>, c: Counted) -> nat
    decreases vs.len(),
{
    if vs.len() == 0 {
        0
    } else {
        count_in(vs.drop_last(), c) + (if is_counted(vs.last(), c) {
            1nat
        } else {
            0
        })
    }
}

fn counts(v: &Reading, c: Counted) -> (r: bool)
    ensures
        r == is_counted(v@, c),
{
    match c {
        Counted::Numbers => match &v.value {
            FormulaValue::Number(_) => true,
            FormulaValue::Text(s) => {
                let t: String = crate::text::trim_text(s.as_str());
                !t.as_str().is_empty() && finite_only(v.parsed).is_some()
            },
            _ => false,
        },
        Counted::Filled => !v.value.is_blank(),
        Counted::Blank => v.value.is_blank(),
    }
}

/// How many values are counted.
pub fn count_values(vs: &Vec<Reading>, c: Counted) -> (r: usize)
    ensures
        r == count_in(read_seq(vs@), c),
{
    let ghost all = read_seq(vs@);
    let mut count: usize = 0;
    let mut i: usize = 0;
    assert(all.take(0).len() == 0);
    while i < vs.len()
        invariant
            i <= vs.len(),
            count <= i,
            all == read_seq(vs@),
            count == count_in(all.take(i as int), c),
        decreases vs.len() - i,
    {
        assert(all.take(i + 1).drop_last() =~= all.take(i as int));
        assert(all.take(i + 1).last() == vs@[i as int]@);
        if counts(&vs[i], c) {
            count = count + 1;
        }
        i = i + 1;
    }
    assert(all.take(i as int) =~= all);
    count
}

/// `COUNT`, `COUNTA` and `COUNTBLANK` over the arguments from `from` on.
pub fn count_args(args: &Vec<Arg>, from: usize, c: Counted) -> (r: Reply)
    ensures
        r@ == counted(count_in(everything(given_from(given(args@), from as int)), c) as int),
{
    let vs: Vec<Reading> = values_from(args, from);
    Reply::count(count_values(&vs, c))
}

/// A whole number's remainder behind a hundred, negative where the number is.
pub open spec fn code_of(k: int) -> int {
    if k >= 0 {
        k % 100
    } else {
        -((-k) % 100)
    }
}

/// `SUBTOTAL`: what the first argument's code asks for of the rest.
pub open spec fn subtotal_of(args: Seq<Given>) -> Said {
    match num(nth(args, 0)) {
        Err(e) => failed(e),
        Ok(n) => {
            let c = code_of(truncated(n));
            let rest = everything(given_from(args, 1));
            if c == 1 {
                total_from(args, 1, Pick::Usual, Total::Mean)
            } else if c == 2 {
                counted(count_in(rest, Counted::Numbers) as int)
            } else if c == 3 {
                counted(count_in(rest, Counted::Filled) as int)
            } else if c == 4 {
                total_from(args, 1, Pick::Usual, Total::Largest)
            } else if c == 5 {
                total_from(args, 1, Pick::Usual, Total::Smallest)
            } else if c == 6 {
                total_from(args, 1, Pick::Usual, Total::Product)
            } else if c == 7 {
                total_from(args, 1, Pick::Usual, Total::Variance(true, true))
            } else if c == 8 {
                total_from(args, 1, Pick::Usual, Total::Variance(false, true))
            } else if c == 9 {
                total_from(args, 1, Pick::Usual, Total::Sum)
            } else if c == 10 {
                total_from(args, 1, Pick::Usual, Total::Variance(true, false))
            } else if c == 11 {
                total_from(args, 1, Pick::Usual, Total::Variance(false, false))
            } else {
                failed(FormulaError::Value)
            }
        },
    }
}

/// `SUBTOTAL`.
pub fn f_subtotal(args: &Vec<Arg>) -> (r: Reply)
    ensures
        r@ == subtotal_of(given(args@)),
{
    let k: i64 = match number_at(args, 0) {
        Ok(n) => whole(n),
        Err(e) => {
            return Reply::error(e);
        },
    };
    if k < 0 {
        return Reply::error(FormulaError::Value);
    }
    let c: i64 = k % 100;
    if c == 1 {
        total_args(args, 1, Pick::Usual, Total::Mean)
    } else if c == 2 {
        count_args(args, 1, Counted::Numbers)
    } else if c == 3 {
        count_args(args, 1, Counted::Filled)
    } else if c == 4 {
        total_args(args, 1, Pick::Usual, Total::Largest)
    } else if c == 5 {
        total_args(args, 1, Pick::Usual, Total::Smallest)
    } else if c == 6 {
        total_args(args, 1, Pick::Usual, Total::Product)
    } else if c == 7 {
        total_args(args, 1, Pick::Usual, Total::Variance(true, true))
    } else if c == 8 {
        total_args(args, 1, Pick::Usual, Total::Variance(false, true))
    } else if c == 9 {
        total_args(args, 1, Pick::Usual, Total::Sum)
    } else if c == 10 {
        total_args(args, 1, Pick::Usual, Total::Variance(true, false))
    } else if c == 11 {
        total_args(args, 1, Pick::Usual, Total::Variance(false, false))
    } else {
        Reply::error(FormulaError::Value)
    }
}

} // verus!
