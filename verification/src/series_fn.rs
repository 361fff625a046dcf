//! Functions of lists of numbers beside other numbers: ranks and quantiles, paired lists, flows of
//! payments.
use crate::criteria::numbers_view;
use crate::kernel::Kernel;
use crate::logic_fn::{equal, same_number};
use crate::number_fn::{planned, run_plan, Check, Plan};
use crate::reading::{
    all_at, all_of, all_values, failed, figure, flag, flag_at, given, nothing, nth, num, num_or,
    number_at, number_or, read_seq, truncated, values_at, values_or_blank, whole, work, Arg, Given,
    Read, Reading, Reply, Said,
};
use crate::stat_fn::{
    finite_or_none, gather, gather_from, gathered, numbers_from, ordered, put_in_sequence,
    truth_number, Pick,
};
use crate::value::{blank, zero, FValue, FormulaError, FormulaValue, Num};
use vstd::prelude::*;

verus! {

/// The numbers that the values of the argument at `i` count for; none, or one blank, where it is
/// not given.
pub open spec fn numbers_at(args: Seq<Given>, i: int, p: Pick, missing: Seq<Read>) -> Result<
    Seq<Num>,
    FormulaError,
> {
    gathered(all_at(args, i, missing), p)
}

fn gather_at(args: &Vec<Arg>, i: usize, p: Pick) -> (r: Result<Vec<Num>, FormulaError>)
    ensures
        numbers_view(r) == numbers_at(given(args@), i as int, p, Seq::empty()),
{
    let vs: Vec<Reading> = values_at(args, i);
    gather(&vs, p)
}

/// Where some ways of collecting cannot fail.
pub open spec fn never_fails(p: Pick) -> bool {
    p == Pick::Readable || p == Pick::Tolerant || p == Pick::Filled
}

proof fn gathers(vs: Seq<Read>, p: Pick)
    requires
        never_fails(p),
    ensures
        gathered(vs, p) is Ok,
    decreases vs.len(),
{
    if vs.len() > 0 {
        gathers(vs.drop_last(), p);
    }
}

/// The numbers that values count for in a way that cannot fail.
pub open spec fn collected(vs: Seq<Read>, p: Pick) -> Seq<Num> {
    match gathered(vs, p) {
        Ok(ns) => ns,
        Err(_) => Seq::empty(),
    }
}

fn collect(vs: &Vec<Reading>, p: Pick) -> (r: Vec<Num>)
    requires
        never_fails(p),
    ensures
        r@ == collected(read_seq(vs@), p),
{
    proof {
        gathers(read_seq(vs@), p);
    }
    match gather(vs, p) {
        Ok(ns) => ns,
        Err(_) => Vec::new(),
    }
}

/// `LARGE` and `SMALL`: the `k`-th largest or smallest number.
pub open spec fn nth_order_of(args: Seq<Given>, large: bool) -> Said {
    let ns = collected(all_at(args, 0, seq![nothing()]), Pick::Readable);
    match num(nth(args, 1)) {
        Err(e) => failed(e),
        Ok(x) => {
            let k = truncated(x);
            if k < 1 || k > ns.len() {
                failed(FormulaError::Num)
            } else {
                figure(ordered(ns, large)[k - 1])
            }
        },
    }
}

/// `LARGE` and `SMALL`.
pub fn nth_order(args: &Vec<Arg>, large: bool) -> (r: Reply)
    ensures
        r@ == nth_order_of(given(args@), large),
{
    let vs: Vec<Reading> = values_or_blank(args, 0);
    let ns: Vec<Num> = collect(&vs, Pick::Readable);
    match number_at(args, 1) {
        Err(e) => Reply::error(e),
        Ok(x) => {
            let k: i64 = whole(x);
            if k < 1 || k as u64 > ns.len() as u64 {
                return Reply::error(FormulaError::Num);
            }
            let o: Vec<Num> = put_in_sequence(&ns, large);
            Reply::number(o[(k - 1) as usize])
        },
    }
}

/// The first place at or behind `i` where a number has a value.
pub open spec fn place_of_number(o: Seq<Num>, x: Num, i: int) -> Option<int>
    decreases o.len() - i,
{
    if i < 0 || i >= o.len() {
        None
    } else if equal(o[i], x) {
        Some(i)
    } else {
        place_of_number(o, x, i + 1)
    }
}

fn find_number(o: &Vec<Num>, x: Num) -> (r: Option<usize>)
    ensures
        crate::text::opt_pos(r) == place_of_number(o@, x, 0),
        r matches Some(k) ==> k < o.len(),
{
    let mut i: usize = 0;
    while i < o.len()
        invariant
            i <= o.len(),
            place_of_number(o@, x, 0) == place_of_number(o@, x, i as int),
        decreases o.len() - i,
    {
        if same_number(o[i], x) {
            return Some(i);
        }
        i = i + 1;
    }
    None
}

/// `RANK`: the place of a number among others, counted from 1, from the largest down or, where
/// the third argument is given and is not zero, from the smallest up.
pub open spec fn rank_of(args: Seq<Given>) -> Said {
    match num(nth(args, 0)) {
        Err(e) => failed(e),
        Ok(target) => {
            let ns = collected(all_at(args, 1, seq![nothing()]), Pick::Readable);
            let up = args.len() > 2 && (num(nth(args, 2)) matches Ok(k) && !equal(k, zero()));
            match place_of_number(ordered(ns, !up), target, 0) {
                Some(i) => crate::reading::counted(i + 1),
                None => failed(FormulaError::Na),
            }
        },
    }
}

/// `RANK`.
pub fn rank_fn(args: &Vec<Arg>) -> (r: Reply)
    ensures
        r@ == rank_of(given(args@)),
{
    let target: Num = match number_at(args, 0) {
        Ok(n) => n,
        Err(e) => {
            return Reply::error(e);
        },
    };
    let vs: Vec<Reading> = values_or_blank(args, 1);
    let ns: Vec<Num> = collect(&vs, Pick::Readable);
    let up: bool = args.len() > 2 && match number_at(args, 2) {
        Ok(k) => !same_number(k, Num { bits: 0 }),
        Err(_) => false,
    };
    let o: Vec<Num> = put_in_sequence(&ns, !up);
    match find_number(&o, target) {
        Some(i) => Reply::count(i + 1),
        None => Reply::error(FormulaError::Na),
    }
}

/// How many of the numbers have a value.
pub open spec fn how_many(o: Seq<Num>, x: Num) -> nat
    decreases o.len(),
{
    if o.len() == 0 {
        0
    } else {
        how_many(o.drop_last(), x) + (if equal(o.last(), x) {
            1nat
        } else {
            0
        })
    }
}

/// `RANK.AVG`: the mean of the places that numbers of the same value take.
pub open spec fn rank_avg_of(args: Seq<Given>) -> Said {
    match num(nth(args, 0)) {
        Err(e) => failed(e),
        Ok(target) => match num_or(args, 2, zero()) {
            Err(e) => failed(e),
            Ok(order) => {
                let ns = collected(all_at(args, 1, Seq::empty()), Pick::Tolerant);
                let o = ordered(ns, equal(order, zero()));
                match place_of_number(o, target, 0) {
                    Some(i) => Said::Ratio(
                        crate::date_fn::clamped(2 * i + 1 + how_many(o, target)),
                        2,
                        1,
                    ),
                    None => failed(FormulaError::Na),
                }
            },
        },
    }
}

fn count_number(o: &Vec<Num>, x: Num) -> (r: usize)
    ensures
        r == how_many(o@, x),
        r <= o.len(),
{
    let mut count: usize = 0;
    let mut i: usize = 0;
    assert(o@.take(0).len() == 0);
    while i < o.len()
        invariant
            i <= o.len(),
            count <= i,
            count == how_many(o@.take(i as int), x),
        decreases o.len() - i,
    {
        assert(o@.take(i + 1).drop_last() =~= o@.take(i as int));
        assert(o@.take(i + 1).last() == o@[i as int]);
        if same_number(o[i], x) {
            count = count + 1;
        }
        i = i + 1;
    }
    assert(o@.take(i as int) =~= o@);
    count
}

/// `RANK.AVG`.
pub fn rank_avg(args: &Vec<Arg>) -> (r: Reply)
    ensures
        r@ == rank_avg_of(given(args@)),
{
    let target: Num = match number_at(args, 0) {
        Ok(n) => n,
        Err(e) => {
            return Reply::error(e);
        },
    };
    let vs: Vec<Reading> = values_at(args, 1);
    let ns: Vec<Num> = collect(&vs, Pick::Tolerant);
    let nil: Num = Num { bits: 0 };
    let order: Num = match number_or(args, 2, nil) {
        Ok(n) => n,
        Err(e) => {
            return Reply::error(e);
        },
    };
    let o: Vec<Num> = put_in_sequence(&ns, same_number(order, nil));
    match find_number(&o, target) {
        None => Reply::error(FormulaError::Na),
        Some(i) => {
            let k: u128 = 2 * (i as u128) + 1 + count_number(&o, target) as u128;
            Reply::Ratio(
                if k > i64::MAX as u128 {
                    i64::MAX
                } else {
                    k as i64
                },
                2,
                1,
            )
        },
    }
}

/// A list of one number.
pub open spec fn just(x: Num) -> Seq<Num> {
    seq![x]
}

fn single(x: Num) -> (r: Vec<Num>)
    ensures
        r@ == just(x),
{
    let mut v: Vec<Num> = Vec::new();
    v.push(x);
    assert(v@ =~= seq![x]);
    v
}

/// The number 1.
pub open spec fn unit() -> Num {
    Num { bits: 0x3ff0_0000_0000_0000 }
}

/// `PERCENTILE`: a quantile between 0 and 1 of the numbers in order.
pub open spec fn percentile_of(args: Seq<Given>) -> Said {
    let ns = collected(all_at(args, 0, seq![nothing()]), Pick::Readable);
    match num(nth(args, 1)) {
        Err(e) => failed(e),
        Ok(p) => if p.lt(zero()) || unit().lt(p) || ns.len() == 0 {
            failed(FormulaError::Num)
        } else {
            Said::Compute(Kernel::Quantile, ordered(ns, false), just(p))
        },
    }
}

/// `PERCENTILE`.
pub fn percentile(args: &Vec<Arg>) -> (r: Reply)
    ensures
        r@ == percentile_of(given(args@)),
{
    let vs: Vec<Reading> = values_or_blank(args, 0);
    let ns: Vec<Num> = collect(&vs, Pick::Readable);
    let p: Num = match number_at(args, 1) {
        Ok(n) => n,
        Err(e) => {
            return Reply::error(e);
        },
    };
    let nil: Num = Num { bits: 0 };
    let one: Num = Num { bits: 0x3ff0_0000_0000_0000 };
    if p.less(nil) || one.less(p) || ns.len() == 0 {
        return Reply::error(FormulaError::Num);
    }
    Reply::Compute(Kernel::Quantile, put_in_sequence(&ns, false), single(p))
}

/// `QUARTILE`, with the ends or without them.
pub open spec fn quartile_of(args: Seq<Given>, inc: bool) -> Said {
    let ns = collected(all_at(args, 0, Seq::empty()), Pick::Tolerant);
    match num(nth(args, 1)) {
        Err(e) => failed(e),
        Ok(q) => {
            let k = truncated(q);
            if ns.len() == 0 || inc && (k < 0 || k > 4) || !inc && (k < 1 || k > 3) {
                failed(FormulaError::Num)
            } else {
                work(Kernel::Quartile(k as u8, inc), ordered(ns, false))
            }
        },
    }
}

/// `QUARTILE`.
pub fn quartile(args: &Vec<Arg>, inc: bool) -> (r: Reply)
    ensures
        r@ == quartile_of(given(args@), inc),
{
    let vs: Vec<Reading> = values_at(args, 0);
    let ns: Vec<Num> = collect(&vs, Pick::Tolerant);
    let k: i64 = match number_at(args, 1) {
        Ok(n) => whole(n),
        Err(e) => {
            return Reply::error(e);
        },
    };
    if ns.len() == 0 || (inc && (k < 0 || k > 4)) || (!inc && (k < 1 || k > 3)) {
        return Reply::error(FormulaError::Num);
    }
    Reply::compute(Kernel::Quartile(k as u8, inc), put_in_sequence(&ns, false))
}

/// `PERCENTILE.EXC`.
pub open spec fn percentile_exc_of(args: Seq<Given>) -> Said {
    let ns = collected(all_at(args, 0, Seq::empty()), Pick::Tolerant);
    match num(nth(args, 1)) {
        Err(e) => failed(e),
        Ok(p) => if ns.len() == 0 {
            failed(FormulaError::Num)
        } else {
            Said::Compute(Kernel::QuantileExc, ordered(ns, false), just(p))
        },
    }
}

/// `PERCENTILE.EXC`.
pub fn percentile_exc(args: &Vec<Arg>) -> (r: Reply)
    ensures
        r@ == percentile_exc_of(given(args@)),
{
    let vs: Vec<Reading> = values_at(args, 0);
    let ns: Vec<Num> = collect(&vs, Pick::Tolerant);
    match number_at(args, 1) {
        Err(e) => Reply::error(e),
        Ok(p) => if ns.len() == 0 {
            Reply::error(FormulaError::Num)
        } else {
            Reply::Compute(Kernel::QuantileExc, put_in_sequence(&ns, false), single(p))
        },
    }
}

/// The number 3.
pub open spec fn three() -> Num {
    Num { bits: 0x4008_0000_0000_0000 }
}

/// `PERCENTRANK`: where a number lies among the numbers in order, to some digits.
pub open spec fn percent_rank_of(args: Seq<Given>, inc: bool) -> Said {
    let o = ordered(collected(all_at(args, 0, Seq::empty()), Pick::Tolerant), false);
    match num(nth(args, 1)) {
        Err(e) => failed(e),
        Ok(x) => match num_or(args, 2, three()) {
            Err(e) => failed(e),
            Ok(digits) => if o.len() == 0 {
                failed(FormulaError::Num)
            } else if x.lt(o[0]) || o.last().lt(x) {
                failed(FormulaError::Na)
            } else {
                Said::Compute(Kernel::PercentRank(inc), o, seq![x, digits])
            },
        },
    }
}

/// `PERCENTRANK`.
pub fn percent_rank(args: &Vec<Arg>, inc: bool) -> (r: Reply)
    ensures
        r@ == percent_rank_of(given(args@), inc),
{
    let vs: Vec<Reading> = values_at(args, 0);
    let ns: Vec<Num> = collect(&vs, Pick::Tolerant);
    let o: Vec<Num> = put_in_sequence(&ns, false);
    let x: Num = match number_at(args, 1) {
        Ok(n) => n,
        Err(e) => {
            return Reply::error(e);
        },
    };
    let digits: Num = match number_or(args, 2, Num { bits: 0x4008_0000_0000_0000 }) {
        Ok(n) => n,
        Err(e) => {
            return Reply::error(e);
        },
    };
    if o.len() == 0 {
        return Reply::error(FormulaError::Num);
    }
    if x.less(o[0]) || o[o.len() - 1].less(x) {
        return Reply::error(FormulaError::Na);
    }
    let mut two: Vec<Num> = Vec::new();
    two.push(x);
    two.push(digits);
    assert(two@ =~= seq![x, digits]);
    Reply::Compute(Kernel::PercentRank(inc), o, two)
}

/// `TRIMMEAN`: the mean without a part of the numbers at either end.
pub open spec fn trimmean_of(args: Seq<Given>) -> Said {
    let o = ordered(collected(all_at(args, 0, Seq::empty()), Pick::Readable), false);
    match num(nth(args, 1)) {
        Err(e) => failed(e),
        Ok(p) => if p.lt(zero()) || !p.lt(unit()) {
            failed(FormulaError::Num)
        } else {
            Said::Compute(Kernel::TrimMean, o, just(p))
        },
    }
}

/// `TRIMMEAN`.
pub fn trimmean(args: &Vec<Arg>) -> (r: Reply)
    ensures
        r@ == trimmean_of(given(args@)),
{
    let vs: Vec<Reading> = values_at(args, 0);
    let ns: Vec<Num> = collect(&vs, Pick::Readable);
    let p: Num = match number_at(args, 1) {
        Ok(n) => n,
        Err(e) => {
            return Reply::error(e);
        },
    };
    let nil: Num = Num { bits: 0 };
    let one: Num = Num { bits: 0x3ff0_0000_0000_0000 };
    if p.less(nil) || !p.less(one) {
        return Reply::error(FormulaError::Num);
    }
    Reply::Compute(Kernel::TrimMean, put_in_sequence(&ns, false), single(p))
}

/// The number that a value of a list counts for in a product: 0 for what is no number.
pub open spec fn factor(v: Read) -> Num {
    match v.value {
        FValue::Number(n) => n,
        FValue::Text(_) => match v.parsed {
            Some(n) => n,
            None => zero(),
        },
        _ => zero(),
    }
}

/// The numbers that values count for in products.
pub open spec fn factors(vs: Seq<Read>) -> Seq<Num> {
    Seq::new(vs.len(), |i: int| factor(vs[i]))
}

/// The factors of the first `n` arguments, one list behind the other.
pub open spec fn all_factors(args: Seq<Given>, n: nat) -> Seq<Num>
    decreases n,
{
    if n == 0 {
        Seq::empty()
    } else {
        all_factors(args, (n - 1) as nat) + factors(all_of(args[n - 1]))
    }
}

/// Whether the first `n` arguments have equally many values.
pub open spec fn equally_long(args: Seq<Given>, n: nat) -> bool {
    forall|i: int| 0 <= i < n ==> all_of(#[trigger] args[i]).len() == all_of(args[0]).len()
}

/// `SUMPRODUCT`: the sum of the products of the values at the same places.
pub open spec fn sum_product_of(args: Seq<Given>) -> Said {
    if args.len() == 0 {
        figure(zero())
    } else if !equally_long(args, args.len()) {
        failed(FormulaError::Value)
    } else {
        work(
            Kernel::SumProduct(args.len() as u64),
            all_factors(args, args.len()),
        )
    }
}

fn factor_of(v: &Reading) -> (r: Num)
    ensures
        r == factor(v@),
{
    match &v.value {
        FormulaValue::Number(n) => *n,
        FormulaValue::Text(_) => match v.parsed {
            Some(n) => n,
            None => Num { bits: 0 },
        },
        _ => Num { bits: 0 },
    }
}

/// `SUMPRODUCT`.
pub fn sum_product(args: &Vec<Arg>) -> (r: Reply)
    ensures
        r@ == sum_product_of(given(args@)),
{
    let ghost all = given(args@);
    if args.len() == 0 {
        return Reply::number(Num { bits: 0 });
    }
    let mut out: Vec<Num> = Vec::new();
    let mut len: usize = 0;
    let mut i: usize = 0;
    assert(out@ =~= all_factors(all, 0));
    while i < args.len()
        invariant
            i <= args.len(),
            args.len() > 0,
            all == given(args@),
            out@ == all_factors(all, i as nat),
            equally_long(all, i as nat),
            i > 0 ==> len == all_of(all[0]).len(),
        decreases args.len() - i,
    {
        let vs: Vec<Reading> = all_values(&args[i]);
        assert(all[i as int] == args@[i as int]@);
        assert(read_seq(vs@).len() == vs@.len());
        if i == 0 {
            len = vs.len();
        } else if vs.len() != len {
            assert(all_of(all[i as int]).len() != all_of(all[0]).len());
            return Reply::error(FormulaError::Value);
        }
        let ghost before = out@;
        let ghost mine = factors(read_seq(vs@));
        let mut j: usize = 0;
        assert(before + mine.take(0) =~= before);
        while j < vs.len()
            invariant
                j <= vs.len(),
                mine == factors(read_seq(vs@)),
                out@ == before + mine.take(j as int),
            decreases vs.len() - j,
        {
            let ghost o = out@;
            out.push(factor_of(&vs[j]));
            assert(mine.take(j + 1) =~= mine.take(j as int).push(mine[j as int]));
            assert(out@ =~= before + mine.take(j + 1));
            j = j + 1;
        }
        assert(mine.take(j as int) =~= mine);
        i = i + 1;
    }
    Reply::compute(Kernel::SumProduct(args.len() as u64), out)
}

/// The number that a value counts for in a pair.
pub open spec fn pair_number(v: Read) -> Option<Num> {
    match v.value {
        FValue::Bool(b) => Some(truth_number(b)),
        FValue::Number(n) => finite_or_none(Some(n)),
        FValue::Text(_) => finite_or_none(v.parsed),
        _ => None,
    }
}

/// The pairs of finite numbers at the same places of two lists, as two lists; the first error
/// ends it, and a pair with a blank is left out.
pub open spec fn paired(ys: Seq<Read>, xs: Seq<Read>) -> Result<(Seq<Num>, Seq<Num>), FormulaError>
    decreases ys.len(),
{
    if ys.len() == 0 {
        Ok((Seq::empty(), Seq::empty()))
    } else {
        match paired(ys.drop_last(), xs.drop_last()) {
            Err(e) => Err(e),
            Ok((a, b)) => match (ys.last().value, xs.last().value) {
                (FValue::Error(e), _) => Err(e),
                (_, FValue::Error(e)) => Err(e),
                _ => if blank(ys.last().value) || blank(xs.last().value) {
                    Ok((a, b))
                } else {
                    match (pair_number(ys.last()), pair_number(xs.last())) {
                        (Some(y), Some(x)) => Ok((a.push(x), b.push(y))),
                        _ => Ok((a, b)),
                    }
                },
            },
        }
    }
}

/// Two parallel lists of numbers, the second argument's first.
pub open spec fn pair_lists(args: Seq<Given>, i: int, j: int) -> Result<
    (Seq<Num>, Seq<Num>),
    FormulaError,
> {
    let ys = all_at(args, i, Seq::empty());
    let xs = all_at(args, j, Seq::empty());
    if ys.len() != xs.len() {
        Err(FormulaError::Na)
    } else {
        paired(ys, xs)
    }
}

fn number_in_pair(v: &Reading) -> (r: Option<Num>)
    ensures
        r == pair_number(v@),
{
    let n: Option<Num> = match &v.value {
        FormulaValue::Bool(b) => Some(
            if *b {
                Num { bits: 0x3ff0_0000_0000_0000 }
            } else {
                Num { bits: 0 }
            },
        ),
        FormulaValue::Number(n) => Some(*n),
        FormulaValue::Text(_) => v.parsed,
        _ => None,
    };
    match n {
        Some(x) => if x.is_finite() {
            Some(x)
        } else {
            None
        },
        None => None,
    }
}

/// Two parallel lists of numbers.
pub fn pair_vectors(args: &Vec<Arg>, i: usize, j: usize) -> (r: Result<
    (Vec<Num>, Vec<Num>),
    FormulaError,
>)
    ensures
        match pair_lists(given(args@), i as int, j as int) {
            Ok((a, b)) => r matches Ok((x, y)) && x@ == a && y@ == b && a.len() == b.len(),
            Err(e) => r == Err::<(Vec<Num>, Vec<Num>), FormulaError>(e),
        },
{
    let ya: Vec<Reading> = values_at(args, i);
    let xb: Vec<Reading> = values_at(args, j);
    let ghost ys = read_seq(ya@);
    let ghost xs = read_seq(xb@);
    if ya.len() != xb.len() {
        return Err(FormulaError::Na);
    }
    let mut a: Vec<Num> = Vec::new();
    let mut b: Vec<Num> = Vec::new();
    let mut error: Option<FormulaError> = None;
    let mut k: usize = 0;
    assert(ys.take(0).len() == 0);
    assert(a@ =~= Seq::empty() && b@ =~= Seq::empty());
    while k < ya.len()
        invariant
            k <= ya.len(),
            ya.len() == xb.len(),
            ys == read_seq(ya@),
            xs == read_seq(xb@),
            match paired(ys.take(k as int), xs.take(k as int)) {
                Ok((p, q)) => error is None && a@ == p && b@ == q && p.len() == q.len(),
                Err(e) => error == Some(e),
            },
        decreases ya.len() - k,
    {
        assert(ys.take(k + 1).drop_last() =~= ys.take(k as int));
        assert(ys.take(k + 1).last() == ya@[k as int]@);
        assert(xs.take(k + 1).drop_last() =~= xs.take(k as int));
        assert(xs.take(k + 1).last() == xb@[k as int]@);
        if error.is_none() {
            let yv: &Reading = &ya[k];
            let xv: &Reading = &xb[k];
            if let Some(e) = yv.value.as_error() {
                error = Some(e);
            } else if let Some(e) = xv.value.as_error() {
                error = Some(e);
            } else if !yv.value.is_blank() && !xv.value.is_blank() {
                if let Some(y) = number_in_pair(yv) {
                    if let Some(x) = number_in_pair(xv) {
                        a.push(x);
                        b.push(y);
                    }
                }
            }
        }
        k = k + 1;
    }
    assert(ys.take(k as int) =~= ys);
    assert(xs.take(k as int) =~= xs);
    match error {
        Some(e) => Err(e),
        None => Ok((a, b)),
    }
}

/// `CORREL`, `SLOPE`, `COVAR` and the like: floating-point work on two parallel lists of at least
/// so many numbers.
pub open spec fn bivar_of(args: Seq<Given>, k: Kernel, least: int) -> Said {
    match pair_lists(args, 0, 1) {
        Err(e) => failed(e),
        Ok((xs, ys)) => if xs.len() < least {
            failed(FormulaError::Div0)
        } else {
            Said::Compute(k, xs, ys)
        },
    }
}

/// `CORREL`, `SLOPE`, `COVAR` and the like.
pub fn bivar(args: &Vec<Arg>, k: Kernel, least: usize) -> (r: Reply)
    ensures
        r@ == bivar_of(given(args@), k, least as int),
{
    match pair_vectors(args, 0, 1) {
        Err(e) => Reply::error(e),
        Ok((xs, ys)) => if xs.len() < least {
            Reply::error(FormulaError::Div0)
        } else {
            Reply::Compute(k, xs, ys)
        },
    }
}

/// `FORECAST`: the value that a line through pairs has at a number. The number stands in front of
/// the first list.
pub open spec fn forecast_of(args: Seq<Given>) -> Said {
    match num(nth(args, 0)) {
        Err(e) => failed(e),
        Ok(x) => match pair_lists(args, 1, 2) {
            Err(e) => failed(e),
            Ok((xs, ys)) => if xs.len() < 2 {
                failed(FormulaError::Div0)
            } else {
                Said::Compute(Kernel::Forecast, xs.insert(0, x), ys)
            },
        },
    }
}

/// `FORECAST`.
pub fn forecast_fn(args: &Vec<Arg>) -> (r: Reply)
    ensures
        r@ == forecast_of(given(args@)),
{
    let x: Num = match number_at(args, 0) {
        Ok(n) => n,
        Err(e) => {
            return Reply::error(e);
        },
    };
    match pair_vectors(args, 1, 2) {
        Err(e) => Reply::error(e),
        Ok((xs, ys)) => if xs.len() < 2 {
            Reply::error(FormulaError::Div0)
        } else {
            let mut list: Vec<Num> = xs;
            list.insert(0, x);
            Reply::Compute(Kernel::Forecast, list, ys)
        },
    }
}

/// The number 0.1.
pub open spec fn tenth() -> Num {
    Num { bits: 0x3fb9_9999_9999_999a }
}

/// `NPV`: what a rate makes of payments.
pub open spec fn npv_of(args: Seq<Given>) -> Said {
    match num(nth(args, 0)) {
        Err(e) => failed(e),
        Ok(rate) => match numbers_from(args, 1, Pick::Strict) {
            Err(e) => failed(e),
            Ok(flows) => Said::Compute(Kernel::Npv, flows, just(rate)),
        },
    }
}

/// `NPV`.
pub fn npv(args: &Vec<Arg>) -> (r: Reply)
    ensures
        r@ == npv_of(given(args@)),
{
    let rate: Num = match number_at(args, 0) {
        Ok(n) => n,
        Err(e) => {
            return Reply::error(e);
        },
    };
    match gather_from(args, 1, Pick::Strict) {
        Err(e) => Reply::error(e),
        Ok(flows) => Reply::Compute(Kernel::Npv, flows, single(rate)),
    }
}

/// `IRR`: the rate at which payments are worth nothing.
pub open spec fn irr_of(args: Seq<Given>) -> Said {
    match numbers_at(args, 0, Pick::Strict, Seq::empty()) {
        Err(e) => failed(e),
        Ok(flows) => match num_or(args, 1, tenth()) {
            Err(e) => failed(e),
            Ok(guess) => if flows.len() < 2 {
                failed(FormulaError::Num)
            } else {
                Said::Compute(Kernel::Irr, flows, just(guess))
            },
        },
    }
}

/// `IRR`.
pub fn irr(args: &Vec<Arg>) -> (r: Reply)
    ensures
        r@ == irr_of(given(args@)),
{
    let flows: Vec<Num> = match gather_at(args, 0, Pick::Strict) {
        Ok(v) => v,
        Err(e) => {
            return Reply::error(e);
        },
    };
    match number_or(args, 1, Num { bits: 0x3fb9_9999_9999_999a }) {
        Err(e) => Reply::error(e),
        Ok(guess) => if flows.len() < 2 {
            Reply::error(FormulaError::Num)
        } else {
            Reply::Compute(Kernel::Irr, flows, single(guess))
        },
    }
}

/// `MIRR`: the rate of payments that are financed and reinvested at rates of their own.
pub open spec fn mirr_of(args: Seq<Given>) -> Said {
    match numbers_at(args, 0, Pick::Strict, Seq::empty()) {
        Err(e) => failed(e),
        Ok(flows) => match num(nth(args, 1)) {
            Err(e) => failed(e),
            Ok(finance) => match num(nth(args, 2)) {
                Err(e) => failed(e),
                Ok(reinvest) => if flows.len() < 2 {
                    failed(FormulaError::Div0)
                } else {
                    Said::Compute(Kernel::Mirr, flows, seq![finance, reinvest])
                },
            },
        },
    }
}

/// `MIRR`.
pub fn mirr(args: &Vec<Arg>) -> (r: Reply)
    ensures
        r@ == mirr_of(given(args@)),
{
    let flows: Vec<Num> = match gather_at(args, 0, Pick::Strict) {
        Ok(v) => v,
        Err(e) => {
            return Reply::error(e);
        },
    };
    let finance: Num = match number_at(args, 1) {
        Ok(n) => n,
        Err(e) => {
            return Reply::error(e);
        },
    };
    let reinvest: Num = match number_at(args, 2) {
        Ok(n) => n,
        Err(e) => {
            return Reply::error(e);
        },
    };
    if flows.len() < 2 {
        return Reply::error(FormulaError::Div0);
    }
    let mut two: Vec<Num> = Vec::new();
    two.push(finance);
    two.push(reinvest);
    assert(two@ =~= seq![finance, reinvest]);
    Reply::Compute(Kernel::Mirr, flows, two)
}

/// `XNPV`: what a rate makes of payments on some days. The rate stands in front of the days.
pub open spec fn xnpv_of(args: Seq<Given>) -> Said {
    match num(nth(args, 0)) {
        Err(e) => failed(e),
        Ok(rate) => match numbers_at(args, 1, Pick::Strict, Seq::empty()) {
            Err(e) => failed(e),
            Ok(flows) => match numbers_at(args, 2, Pick::Strict, Seq::empty()) {
                Err(e) => failed(e),
                Ok(dates) => if flows.len() != dates.len() || flows.len() == 0 {
                    failed(FormulaError::Num)
                } else {
                    Said::Compute(Kernel::Xnpv, flows, dates.insert(0, rate))
                },
            },
        },
    }
}

/// `XNPV`.
pub fn xnpv(args: &Vec<Arg>) -> (r: Reply)
    ensures
        r@ == xnpv_of(given(args@)),
{
    let rate: Num = match number_at(args, 0) {
        Ok(n) => n,
        Err(e) => {
            return Reply::error(e);
        },
    };
    let flows: Vec<Num> = match gather_at(args, 1, Pick::Strict) {
        Ok(v) => v,
        Err(e) => {
            return Reply::error(e);
        },
    };
    let mut dates: Vec<Num> = match gather_at(args, 2, Pick::Strict) {
        Ok(v) => v,
        Err(e) => {
            return Reply::error(e);
        },
    };
    if flows.len() != dates.len() || flows.len() == 0 {
        return Reply::error(FormulaError::Num);
    }
    dates.insert(0, rate);
    Reply::Compute(Kernel::Xnpv, flows, dates)
}

/// `XIRR`: the rate at which payments on some days are worth nothing. The guess stands in front
/// of the days.
pub open spec fn xirr_of(args: Seq<Given>) -> Said {
    match numbers_at(args, 0, Pick::Strict, Seq::empty()) {
        Err(e) => failed(e),
        Ok(flows) => match numbers_at(args, 1, Pick::Strict, Seq::empty()) {
            Err(e) => failed(e),
            Ok(dates) => match num_or(args, 2, tenth()) {
                Err(e) => failed(e),
                Ok(guess) => if flows.len() != dates.len() || flows.len() < 2 {
                    failed(FormulaError::Num)
                } else {
                    Said::Compute(Kernel::Xirr, flows, dates.insert(0, guess))
                },
            },
        },
    }
}

/// `XIRR`.
pub fn xirr(args: &Vec<Arg>) -> (r: Reply)
    ensures
        r@ == xirr_of(given(args@)),
{
    let flows: Vec<Num> = match gather_at(args, 0, Pick::Strict) {
        Ok(v) => v,
        Err(e) => {
            return Reply::error(e);
        },
    };
    let mut dates: Vec<Num> = match gather_at(args, 1, Pick::Strict) {
        Ok(v) => v,
        Err(e) => {
            return Reply::error(e);
        },
    };
    let guess: Num = match number_or(args, 2, Num { bits: 0x3fb9_9999_9999_999a }) {
        Ok(n) => n,
        Err(e) => {
            return Reply::error(e);
        },
    };
    if flows.len() != dates.len() || flows.len() < 2 {
        return Reply::error(FormulaError::Num);
    }
    dates.insert(0, guess);
    Reply::Compute(Kernel::Xirr, flows, dates)
}

/// `SERIESSUM`: a sum of powers with coefficients.
pub open spec fn seriessum_of(args: Seq<Given>) -> Said {
    match num(nth(args, 0)) {
        Err(e) => failed(e),
        Ok(x) => match num(nth(args, 1)) {
            Err(e) => failed(e),
            Ok(n) => match num(nth(args, 2)) {
                Err(e) => failed(e),
                Ok(m) => match numbers_at(args, 3, Pick::All, Seq::empty()) {
                    Err(e) => failed(e),
                    Ok(coeffs) => Said::Compute(Kernel::SeriesSum, coeffs, seq![x, n, m]),
                },
            },
        },
    }
}

/// `SERIESSUM`.
pub fn seriessum(args: &Vec<Arg>) -> (r: Reply)
    ensures
        r@ == seriessum_of(given(args@)),
{
    let x: Num = match number_at(args, 0) {
        Ok(n) => n,
        Err(e) => {
            return Reply::error(e);
        },
    };
    let n: Num = match number_at(args, 1) {
        Ok(n) => n,
        Err(e) => {
            return Reply::error(e);
        },
    };
    let m: Num = match number_at(args, 2) {
        Ok(n) => n,
        Err(e) => {
            return Reply::error(e);
        },
    };
    match gather_at(args, 3, Pick::All) {
        Err(e) => Reply::error(e),
        Ok(coeffs) => {
            let mut three: Vec<Num> = Vec::new();
            three.push(x);
            three.push(n);
            three.push(m);
            assert(three@ =~= seq![x, n, m]);
            Reply::Compute(Kernel::SeriesSum, coeffs, three)
        },
    }
}

/// `MULTINOMIAL`.
pub open spec fn multinomial_of(args: Seq<Given>) -> Said {
    match numbers_from(args, 0, Pick::Factors) {
        Err(e) => failed(e),
        Ok(ns) => work(Kernel::Multinomial, ns),
    }
}

/// `MULTINOMIAL`.
pub fn multinomial(args: &Vec<Arg>) -> (r: Reply)
    ensures
        r@ == multinomial_of(given(args@)),
{
    match gather_from(args, 0, Pick::Factors) {
        Err(e) => Reply::error(e),
        Ok(ns) => Reply::compute(Kernel::Multinomial, ns),
    }
}

/// The plan of `NORM.DIST` and `NORM.S.DIST`: the distribution, or its density.
pub open spec fn distribution_plan(standard: bool, cumulative: bool) -> Plan {
    Plan {
        kernel: if standard {
            Kernel::StandardDist(cumulative)
        } else {
            Kernel::NormalDist(cumulative)
        },
        required: if standard {
            1
        } else {
            3
        },
        defaults: (None, None, None),
        checks: (
            if standard {
                None
            } else {
                Some(Check::Above(2, Num { bits: 0 }, FormulaError::Num))
            },
            None,
            None,
            None,
        ),
    }
}

/// What `NORM.DIST` and `NORM.S.DIST` say.
pub open spec fn distribution_of(args: Seq<Given>, standard: bool) -> Said {
    planned(
        distribution_plan(
            standard,
            flag(
                args,
                if standard {
                    1
                } else {
                    3
                },
                true,
            ),
        ),
        args,
    )
}

/// `NORM.DIST` and `NORM.S.DIST`.
pub fn norm_dist(args: &Vec<Arg>, standard: bool) -> (r: Reply)
    ensures
        r@ == distribution_of(given(args@), standard),
{
    let cumulative: bool = flag_at(
        args,
        if standard {
            1
        } else {
            3
        },
        true,
    );
    let p: Plan = Plan {
        kernel: if standard {
            Kernel::StandardDist(cumulative)
        } else {
            Kernel::NormalDist(cumulative)
        },
        required: if standard {
            1
        } else {
            3
        },
        defaults: (None, None, None),
        checks: (
            if standard {
                None
            } else {
                Some(Check::Above(2, Num { bits: 0 }, FormulaError::Num))
            },
            None,
            None,
            None,
        ),
    };
    run_plan(p, args)
}

/// The plan of `ERF`: from zero to a number, or between two.
pub open spec fn erf_plan(two: bool) -> Plan {
    Plan {
        kernel: if two {
            Kernel::ErfBetween
        } else {
            Kernel::Erf
        },
        required: if two {
            2
        } else {
            1
        },
        defaults: (None, None, None),
        checks: (None, None, None, None),
    }
}

/// `ERF`.
pub fn erf_fn(args: &Vec<Arg>) -> (r: Reply)
    ensures
        r@ == planned(erf_plan(args.len() > 1), given(args@)),
{
    let two: bool = args.len() > 1;
    let p: Plan = Plan {
        kernel: if two {
            Kernel::ErfBetween
        } else {
            Kernel::Erf
        },
        required: if two {
            2
        } else {
            1
        },
        defaults: (None, None, None),
        checks: (None, None, None, None),
    };
    run_plan(p, args)
}

/// The plan of `CEILING` and `FLOOR`: to a multiple, which is 1 where it is not given.
pub open spec fn multiple_plan(up: bool, given_two: bool) -> Plan {
    Plan {
        kernel: if up {
            Kernel::CeilingTo
        } else {
            Kernel::FloorTo
        },
        required: if given_two {
            2
        } else {
            1
        },
        defaults: if given_two {
            (None, None, None)
        } else {
            (Some(Num { bits: 0x3ff0_0000_0000_0000 }), None, None)
        },
        checks: (
            Some(Check::ZeroIsZero(1)),
            Some(Check::SameSignOrZero(0, 1)),
            None,
            None,
        ),
    }
}

/// `CEILING` and `FLOOR`.
pub fn multiple_fn(args: &Vec<Arg>, up: bool) -> (r: Reply)
    ensures
        r@ == planned(multiple_plan(up, args.len() > 1), given(args@)),
{
    let two: bool = args.len() > 1;
    let p: Plan = Plan {
        kernel: if up {
            Kernel::CeilingTo
        } else {
            Kernel::FloorTo
        },
        required: if two {
            2
        } else {
            1
        },
        defaults: if two {
            (None, None, None)
        } else {
            (Some(Num { bits: 0x3ff0_0000_0000_0000 }), None, None)
        },
        checks: (
            Some(Check::ZeroIsZero(1)),
            Some(Check::SameSignOrZero(0, 1)),
            None,
            None,
        ),
    };
    run_plan(p, args)
}

/// The number 2.
pub open spec fn two() -> Num {
    Num { bits: 0x4000_0000_0000_0000 }
}

/// `FIXED` and `DOLLAR`: a number as text with some decimals, with commas where asked for.
pub open spec fn fixed_of(args: Seq<Given>, dollar: bool) -> Said {
    match num(nth(args, 0)) {
        Err(e) => failed(e),
        Ok(n) => match num_or(args, 1, two()) {
            Err(e) => failed(e),
            Ok(d) => work(
                if dollar {
                    Kernel::DollarText(truncated(d) as i64)
                } else {
                    Kernel::FixedText(truncated(d) as i64, !flag(args, 2, false))
                },
                just(n),
            ),
        },
    }
}

/// `FIXED` and `DOLLAR`.
pub fn fixed_fn(args: &Vec<Arg>, dollar: bool) -> (r: Reply)
    ensures
        r@ == fixed_of(given(args@), dollar),
{
    let n: Num = match number_at(args, 0) {
        Ok(n) => n,
        Err(e) => {
            return Reply::error(e);
        },
    };
    let d: i64 = match number_or(args, 1, Num { bits: 0x4000_0000_0000_0000 }) {
        Ok(k) => {
            assert(k.finite());
            whole(k)
        },
        Err(e) => {
            return Reply::error(e);
        },
    };
    Reply::compute(
        if dollar {
            Kernel::DollarText(d)
        } else {
            Kernel::FixedText(d, !flag_at(args, 2, false))
        },
        single(n),
    )
}

/// `SIGN`.
pub open spec fn sign_of(args: Seq<Given>) -> Said {
    match num(nth(args, 0)) {
        Err(e) => failed(e),
        Ok(n) => Said::Int(
            if zero().lt(n) {
                1
            } else if n.lt(zero()) {
                -1
            } else {
                0
            },
        ),
    }
}

/// `SIGN`.
pub fn sign_fn(args: &Vec<Arg>) -> (r: Reply)
    ensures
        r@ == sign_of(given(args@)),
{
    let nil: Num = Num { bits: 0 };
    match number_at(args, 0) {
        Err(e) => Reply::error(e),
        Ok(n) => Reply::Int(
            if nil.less(n) {
                1
            } else if n.less(nil) {
                -1
            } else {
                0
            },
        ),
    }
}

/// `VALUE`.
pub open spec fn value_of(args: Seq<Given>) -> Said {
    match num(nth(args, 0)) {
        Err(e) => failed(e),
        Ok(n) => figure(n),
    }
}

/// `VALUE`.
pub fn value_fn(args: &Vec<Arg>) -> (r: Reply)
    ensures
        r@ == value_of(given(args@)),
{
    match number_at(args, 0) {
        Err(e) => Reply::error(e),
        Ok(n) => Reply::number(n),
    }
}

} // verus!
