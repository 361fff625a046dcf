//! What holds of functions on many numbers: which values count, and where a number stands among
//! the others.
use crate::criteria_law::{is_number, the_number};
use crate::kernel::Kernel;
use crate::logic_fn::equal;
use crate::reading::{all_of, counted, everything, failed, figure, work, Given, Read, Said};
use crate::series_fn::{
    all_factors, bivar_of, collected, forecast_of, npv_of, nth_order_of, paired, percentile_of,
    place_of_number, quartile_of, rank_of, sum_product_of, trimmean_of, xnpv_of,
};
use crate::stat_fn::{
    before, count_in, gathered, most_often, ordered, ordered_sorts, subtotal_of, times, total_from,
    Counted, Pick, Total,
};
use crate::text_law::count_given;
use crate::value::{FValue, FormulaError, Num};
use vstd::prelude::*;

verus! {

/// The numbers that readings are.
pub open spec fn the_numbers(vs: Seq<Read>) -> Seq<Num> {
    Seq::new(vs.len(), |i: int| the_number(vs[i]))
}

/// Whether all readings are numbers that can be worked with.
pub open spec fn are_numbers(vs: Seq<Read>) -> bool {
    forall|i: int| 0 <= i < vs.len() ==> is_number(#[trigger] vs[i])
}

proof fn numbers_gathered(vs: Seq<Read>, p: Pick)
    requires
        are_numbers(vs),
        !(p is Factors),
    ensures
        gathered(vs, p) == Ok::<Seq<Num>, FormulaError>(the_numbers(vs)),
    decreases vs.len(),
{
    if vs.len() == 0 {
        assert(the_numbers(vs) =~= Seq::empty());
    } else {
        let fore = vs.drop_last();
        assert forall|i: int| 0 <= i < fore.len() implies is_number(#[trigger] fore[i]) by {
            assert(is_number(vs[i]));
        }
        numbers_gathered(fore, p);
        assert(is_number(vs[vs.len() - 1]));
        assert(the_numbers(vs) =~= the_numbers(fore).push(the_number(vs.last())));
    }
}

/// `SUM`, `AVERAGE`, `PRODUCT` and the sum of squares work on all numbers that are given, in their
/// order, and with nothing else.
pub proof fn all_numbers_are_used(args: Seq<Given>)
    requires
        are_numbers(everything(args)),
        everything(args).len() > 0,
    ensures
        ({
            let ns = the_numbers(everything(args));
            &&& total_from(args, 0, Pick::Usual, Total::Sum) == work(Kernel::Sum, ns)
            &&& total_from(args, 0, Pick::Usual, Total::Mean) == work(Kernel::Mean, ns)
            &&& total_from(args, 0, Pick::Usual, Total::Product) == work(Kernel::Product, ns)
            &&& total_from(args, 0, Pick::Usual, Total::SumSquares) == work(Kernel::SumSquares, ns)
        }),
{
    numbers_gathered(everything(args), Pick::Usual);
    assert(args.skip(0) =~= args);
}

/// Where numbers are usually collected, a truth value counts as 1 or 0, a text as the number that
/// it reads as, and other texts and blanks for nothing; an error comes out.
pub proof fn values_count_for_numbers(vs: Seq<Read>, v: Read, before_it: Seq<Num>)
    requires
        gathered(vs, Pick::Usual) == Ok::<Seq<Num>, FormulaError>(before_it),
    ensures
        v.value matches FValue::Number(n) ==> gathered(vs.push(v), Pick::Usual) == Ok::<
            Seq<Num>,
            FormulaError,
        >(before_it.push(n)),
        v.value matches FValue::Bool(b) ==> gathered(vs.push(v), Pick::Usual) == Ok::<
            Seq<Num>,
            FormulaError,
        >(
            before_it.push(
                if b {
                    crate::value::one()
                } else {
                    crate::value::zero()
                },
            ),
        ),
        v.value is Blank || v.value is Text && v.parsed is None ==> gathered(
            vs.push(v),
            Pick::Usual,
        ) == Ok::<Seq<Num>, FormulaError>(before_it),
        (v.value matches FValue::Text(s) && s.len() > 0 && v.parsed is Some && v.parsed->0.finite())
            ==> gathered(vs.push(v), Pick::Usual) == Ok::<Seq<Num>, FormulaError>(
            before_it.push(v.parsed->0),
        ),
        v.value matches FValue::Error(e) ==> gathered(vs.push(v), Pick::Usual) == Err::<
            Seq<Num>,
            FormulaError,
        >(e),
{
    assert(vs.push(v).drop_last() =~= vs);
    assert(vs.push(v).last() == v);
}

/// Whether numbers stand from the smallest to the largest, or from the largest to the smallest.
pub open spec fn is_sorted(o: Seq<Num>, down: bool) -> bool {
    forall|i: int, j: int|
        0 <= i <= j < o.len() ==> (if down {
            (#[trigger] o[i]).rank() >= (#[trigger] o[j]).rank()
        } else {
            o[i].rank() <= o[j].rank()
        })
}

/// Whether a list is another one in order.
pub open spec fn is_order_of(o: Seq<Num>, ns: Seq<Num>, down: bool) -> bool {
    is_sorted(o, down) && o.to_multiset() == ns.to_multiset() && o.len() == ns.len()
}

proof fn ordered_is(vs: Seq<Read>, down: bool)
    requires
        are_numbers(vs),
    ensures
        is_order_of(ordered(the_numbers(vs), down), the_numbers(vs), down),
        forall|i: int|
            0 <= i < vs.len() ==> (#[trigger] ordered(the_numbers(vs), down)[i]).finite(),
{
    let ns = the_numbers(vs);
    assert forall|i: int| 0 <= i < ns.len() implies !(#[trigger] ns[i]).nan() && ns[i].finite() by {
        assert(is_number(vs[i]));
    }
    ordered_sorts(ns, down);
    let o = ordered(ns, down);
    assert forall|i: int| 0 <= i < o.len() implies (#[trigger] o[i]).finite() by {
        broadcast use vstd::seq_lib::group_to_multiset_ensures;

        assert(o.contains(o[i]));
        assert(o.to_multiset().count(o[i]) > 0);
        assert(ns.contains(o[i]));
        let j = choose|j: int| 0 <= j < ns.len() && ns[j] == o[i];
        assert(ns[j].finite());
    }
    assert forall|i: int, j: int| 0 <= i <= j < o.len() implies (if down {
        (#[trigger] o[i]).rank() >= (#[trigger] o[j]).rank()
    } else {
        o[i].rank() <= o[j].rank()
    }) by {
        assert(o[i].finite() && o[j].finite());
        if i < j {
            assert(!before(o[j], o[i], down));
        }
    }
}

/// `LARGE` and `SMALL` give the number at the place that is asked for, counted from 1, of the
/// numbers in falling or rising order, and `#NUM!` for other places.
pub proof fn numbers_stand_in_order(args: Seq<Given>, k: int, large: bool)
    requires
        args.len() >= 2,
        are_numbers(all_of(args[0])),
        count_given(args, 1, k),
    ensures
        1 <= k <= all_of(args[0]).len() ==> exists|o: Seq<Num>| #[trigger]
            is_order_of(o, the_numbers(all_of(args[0])), large) && nth_order_of(args, large)
                == figure(o[k - 1]),
        !(1 <= k <= all_of(args[0]).len()) ==> nth_order_of(args, large) == failed(
            FormulaError::Num,
        ),
{
    let vs = all_of(args[0]);
    numbers_gathered(vs, Pick::Readable);
    ordered_is(vs, large);
}

/// The median is the middle one of the numbers in order, or the mean of the middle two.
pub proof fn medians_stand_in_the_middle(args: Seq<Given>, m: int)
    requires
        are_numbers(everything(args)),
    ensures
        everything(args).len() == 2 * m + 1 && m >= 0 ==> exists|o: Seq<Num>| #[trigger]
            is_order_of(o, the_numbers(everything(args)), false) && total_from(
                args,
                0,
                Pick::Usual,
                Total::Median,
            ) == figure(o[m]),
        everything(args).len() == 2 * m && m > 0 ==> exists|o: Seq<Num>| #[trigger]
            is_order_of(o, the_numbers(everything(args)), false) && total_from(
                args,
                0,
                Pick::Usual,
                Total::Median,
            ) == work(Kernel::Mean, seq![o[m - 1], o[m]]),
{
    let vs = everything(args);
    numbers_gathered(vs, Pick::Usual);
    assert(args.skip(0) =~= args);
    ordered_is(vs, false);
    let o = ordered(the_numbers(vs), false);
    assert(is_order_of(o, the_numbers(vs), false));
}

proof fn place_is(o: Seq<Num>, x: Num, i: int)
    requires
        0 <= i <= o.len(),
        x.finite(),
        forall|j: int| 0 <= j < o.len() ==> (#[trigger] o[j]).finite(),
    ensures
        match place_of_number(o, x, i) {
            Some(p) => i <= p < o.len() && o[p].rank() == x.rank() && forall|j: int|
                i <= j < p ==> (#[trigger] o[j]).rank() != x.rank(),
            None => forall|j: int| i <= j < o.len() ==> (#[trigger] o[j]).rank() != x.rank(),
        },
    decreases o.len() - i,
{
    if i < o.len() {
        assert(o[i].finite());
        if !equal(o[i], x) {
            place_is(o, x, i + 1);
        }
    }
}

/// `RANK` gives the first place of a number among the others in falling order, counted from 1, or
/// in rising order where the third argument is not zero; `#N/A` where the number is not there.
pub proof fn numbers_have_their_rank(args: Seq<Given>, x: Num, down: bool)
    requires
        args.len() == 2 && down || count_given(args, 2, 1) && !down,
        args[0] matches Given::One(r) && r.value == FValue::Number(x),
        x.finite(),
        are_numbers(all_of(args[1])),
    ensures
        exists|o: Seq<Num>| #[trigger]
            is_order_of(o, the_numbers(all_of(args[1])), down) && (match rank_of(args) {
                Said::Int(p) => 1 <= p <= o.len() && o[p - 1].rank() == x.rank() && forall|j: int|
                    0 <= j < p - 1 ==> (#[trigger] o[j]).rank() != x.rank(),
                s => s == failed(FormulaError::Na) && forall|j: int|
                    0 <= j < o.len() ==> (#[trigger] o[j]).rank() != x.rank(),
            }) || all_of(args[1]).len() > i64::MAX,
{
    let vs = all_of(args[1]);
    numbers_gathered(vs, Pick::Readable);
    ordered_is(vs, down);
    let o = ordered(the_numbers(vs), down);
    place_is(o, x, 0);
    if !down {
        let k = args[2]->One_0.value->Number_0;
        crate::reading_law::zero_is_none(k);
    }
    assert(is_order_of(o, the_numbers(vs), down));
}

proof fn times_is(ns: Seq<Num>, x: Num)
    ensures
        times(ns, x) == ns.to_multiset().count(x),
    decreases ns.len(),
{
    broadcast use vstd::seq_lib::group_to_multiset_ensures;

    if ns.len() > 0 {
        let fore = ns.drop_last();
        times_is(fore, x);
        assert(fore.push(ns.last()) =~= ns);
        assert(ns.to_multiset() =~= fore.to_multiset().insert(ns.last()));
    } else {
        assert(ns.to_multiset().count(x) == 0);
    }
}

proof fn most_is(ns: Seq<Num>)
    ensures
        match most_often(ns) {
            (Some(x), n) => n == times(ns, x) && n > 1,
            (None, n) => n == 1,
        },
        forall|y: Num| #[trigger] times(ns, y) <= most_often(ns).1,
    decreases ns.len(),
{
    if ns.len() > 0 {
        let fore = ns.drop_last();
        most_is(fore);
        assert forall|y: Num| #[trigger] times(ns, y) <= most_often(ns).1 by {
            assert(times(fore, y) <= most_often(fore).1);
        }
        match most_often(fore) {
            (Some(x), n) => {
                assert(times(fore, x) <= most_often(fore).1);
            },
            _ => {},
        }
    }
}

/// The mode is a number that stands more than once, and no other stands more often; there is none
/// where each stands once.
pub proof fn modes_stand_most_often(ns: Seq<Num>)
    ensures
        match most_often(ns).0 {
            Some(x) => ns.to_multiset().count(x) > 1 && forall|y: Num|
                #[trigger] ns.to_multiset().count(y) <= ns.to_multiset().count(x),
            None => forall|y: Num| #[trigger] ns.to_multiset().count(y) <= 1,
        },
{
    most_is(ns);
    assert forall|y: Num| #[trigger] ns.to_multiset().count(y) <= most_often(ns).1 by {
        times_is(ns, y);
        assert(times(ns, y) <= most_often(ns).1);
    }
    match most_often(ns).0 {
        Some(x) => {
            times_is(ns, x);
        },
        None => {},
    }
}

/// `COUNT` counts numbers, `COUNTA` what is not blank, and `COUNTBLANK` what is: one value more
/// counts one more, or none.
pub proof fn values_are_counted(vs: Seq<Read>, v: Read)
    ensures
        v.value is Number ==> count_in(vs.push(v), Counted::Numbers) == count_in(
            vs,
            Counted::Numbers,
        ) + 1,
        v.value is Bool || v.value is Blank || v.value is Error || v.value is Text && v.parsed is None
            ==> count_in(vs.push(v), Counted::Numbers) == count_in(vs, Counted::Numbers),
        !(v.value is Blank) && !(v.value matches FValue::Text(s) && s.len() == 0) ==> count_in(
            vs.push(v),
            Counted::Filled,
        ) == count_in(vs, Counted::Filled) + 1,
        v.value is Blank ==> count_in(vs.push(v), Counted::Filled) == count_in(vs, Counted::Filled),
        count_in(vs.push(v), Counted::Filled) + count_in(vs.push(v), Counted::Blank) == count_in(
            vs,
            Counted::Filled,
        ) + count_in(vs, Counted::Blank) + 1,
        count_in(Seq::empty(), Counted::Numbers) == 0,
        count_in(Seq::empty(), Counted::Filled) == 0,
        count_in(Seq::empty(), Counted::Blank) == 0,
{
    assert(vs.push(v).drop_last() =~= vs);
    assert(vs.push(v).last() == v);
}

/// `SUBTOTAL` does what the function does whose number is asked for, with what stands behind that
/// number; a hundred more asks for the same.
pub proof fn subtotals_are_totals(args: Seq<Given>, k: int)
    requires
        count_given(args, 0, k),
        0 < k < 200,
    ensures
        ({
            let rest = args.skip(1);
            let c = if k > 100 {
                k - 100
            } else {
                k
            };
            &&& c == 1 ==> subtotal_of(args) == total_from(rest, 0, Pick::Usual, Total::Mean)
            &&& c == 2 ==> subtotal_of(args) == counted(
                count_in(everything(rest), Counted::Numbers) as int,
            )
            &&& c == 3 ==> subtotal_of(args) == counted(
                count_in(everything(rest), Counted::Filled) as int,
            )
            &&& c == 4 ==> subtotal_of(args) == total_from(rest, 0, Pick::Usual, Total::Largest)
            &&& c == 5 ==> subtotal_of(args) == total_from(rest, 0, Pick::Usual, Total::Smallest)
            &&& c == 6 ==> subtotal_of(args) == total_from(rest, 0, Pick::Usual, Total::Product)
            &&& c == 7 ==> subtotal_of(args) == total_from(
                rest,
                0,
                Pick::Usual,
                Total::Variance(true, true),
            )
            &&& c == 8 ==> subtotal_of(args) == total_from(
                rest,
                0,
                Pick::Usual,
                Total::Variance(false, true),
            )
            &&& c == 9 ==> subtotal_of(args) == total_from(rest, 0, Pick::Usual, Total::Sum)
            &&& c == 10 ==> subtotal_of(args) == total_from(
                rest,
                0,
                Pick::Usual,
                Total::Variance(true, false),
            )
            &&& c == 11 ==> subtotal_of(args) == total_from(
                rest,
                0,
                Pick::Usual,
                Total::Variance(false, false),
            )
            &&& 12 <= c <= 99 ==> subtotal_of(args) == failed(FormulaError::Value)
        }),
{
    let rest = args.skip(1);
    assert(rest.skip(0) =~= rest);
}

proof fn factors_laid(args: Seq<Given>, m: nat, n: nat)
    requires
        m <= args.len(),
        forall|i: int|
            0 <= i < m ==> all_of(#[trigger] args[i]).len() == n && are_numbers(all_of(args[i])),
    ensures
        all_factors(args, m).len() == m * n,
        forall|i: int, j: int|
            0 <= i < m && 0 <= j < n ==> all_factors(args, m)[i * n + j] == the_number(
                #[trigger] all_of(args[i])[j],
            ),
    decreases m,
{
    if m > 0 {
        let k = (m - 1) as nat;
        factors_laid(args, k, n);
        assert(all_of(args[k as int]).len() == n);
        assert(m * n == k * n + n) by (nonlinear_arith)
            requires
                m == k + 1,
        ;
        let all = all_factors(args, m);
        assert forall|i: int, j: int| 0 <= i < m && 0 <= j < n implies all[i * n + j] == the_number(
            #[trigger] all_of(args[i])[j],
        ) by {
            if i < k {
                assert(0 <= i * n + j < k * n) by (nonlinear_arith)
                    requires
                        0 <= i < k,
                        0 <= j < n,
                ;
                assert(all[i * n + j] == all_factors(args, k)[i * n + j]);
            } else {
                assert(is_number(all_of(args[i])[j]));
                assert(all[k * n + j] == crate::series_fn::factors(all_of(args[i]))[j]);
            }
        }
    } else {
        assert(0 * n == 0) by (nonlinear_arith);
    }
}

/// `SUMPRODUCT` multiplies the numbers that stand at the same place of its arguments: they are laid
/// out one argument behind the other, each in its order.
pub proof fn places_are_multiplied(args: Seq<Given>, n: nat)
    requires
        args.len() > 0,
        forall|i: int|
            0 <= i < args.len() ==> all_of(#[trigger] args[i]).len() == n && are_numbers(
                all_of(args[i]),
            ),
    ensures
        sum_product_of(args) matches Said::Compute(k, fs, none) && {
            &&& k == Kernel::SumProduct(args.len() as u64)
            &&& fs.len() == args.len() * n
            &&& none.len() == 0
            &&& forall|i: int, j: int|
                0 <= i < args.len() && 0 <= j < n ==> fs[i * n + j] == the_number(
                    #[trigger] all_of(args[i])[j],
                )
        },
{
    assert(all_of(args[0]).len() == n);
    factors_laid(args, args.len(), n);
}

proof fn pairs_read(ys: Seq<Read>, xs: Seq<Read>)
    requires
        ys.len() == xs.len(),
        are_numbers(ys),
        are_numbers(xs),
    ensures
        paired(ys, xs) == Ok::<(Seq<Num>, Seq<Num>), FormulaError>(
            (the_numbers(xs), the_numbers(ys)),
        ),
    decreases ys.len(),
{
    if ys.len() > 0 {
        let a = ys.drop_last();
        let b = xs.drop_last();
        assert forall|i: int| 0 <= i < a.len() implies is_number(#[trigger] a[i]) by {
            assert(is_number(ys[i]));
        }
        assert forall|i: int| 0 <= i < b.len() implies is_number(#[trigger] b[i]) by {
            assert(is_number(xs[i]));
        }
        pairs_read(a, b);
        assert(is_number(ys[ys.len() - 1]));
        assert(is_number(xs[xs.len() - 1]));
        assert(the_numbers(ys) =~= the_numbers(a).push(the_number(ys.last())));
        assert(the_numbers(xs) =~= the_numbers(b).push(the_number(xs.last())));
    } else {
        assert(the_numbers(xs) =~= Seq::empty());
        assert(the_numbers(ys) =~= Seq::empty());
    }
}

/// `SLOPE`, `CORREL` and the like take the numbers of their second argument for those on which the
/// ones of their first depend, place by place; lists of different lengths are `#N/A`.
pub proof fn lists_are_paired(args: Seq<Given>, k: Kernel, least: int)
    requires
        args.len() == 2,
        are_numbers(all_of(args[0])),
        are_numbers(all_of(args[1])),
    ensures
        all_of(args[0]).len() != all_of(args[1]).len() ==> bivar_of(args, k, least) == failed(
            FormulaError::Na,
        ),
        all_of(args[0]).len() == all_of(args[1]).len() >= least ==> bivar_of(args, k, least)
            == Said::Compute(k, the_numbers(all_of(args[1])), the_numbers(all_of(args[0]))),
{
    if all_of(args[0]).len() == all_of(args[1]).len() {
        pairs_read(all_of(args[0]), all_of(args[1]));
    }
}

/// `PERCENTILE`, `QUARTILE` and `TRIMMEAN` are given the numbers from the smallest to the largest.
pub proof fn quantiles_are_taken_in_order(args: Seq<Given>, p: Num, k: int)
    requires
        args.len() == 2,
        are_numbers(all_of(args[0])),
        all_of(args[0]).len() > 0,
        args[1] matches Given::One(r) && r.value == FValue::Number(p),
        p.finite(),
    ensures
        0 <= p.rank() <= crate::value::one().rank() ==> exists|o: Seq<Num>| #[trigger]
            is_order_of(o, the_numbers(all_of(args[0])), false) && percentile_of(args)
                == Said::Compute(Kernel::Quantile, o, seq![p]),
        p.rank() < 0 || p.rank() > crate::value::one().rank() ==> percentile_of(args) == failed(
            FormulaError::Num,
        ),
        count_given(args, 1, k) && 0 <= k <= 4 ==> exists|o: Seq<Num>| #[trigger]
            is_order_of(o, the_numbers(all_of(args[0])), false) && quartile_of(args, true) == work(
                Kernel::Quartile(k as u8, true),
                o,
            ),
        0 <= p.rank() < crate::value::one().rank() ==> exists|o: Seq<Num>| #[trigger]
            is_order_of(o, the_numbers(all_of(args[0])), false) && trimmean_of(args)
                == Said::Compute(Kernel::TrimMean, o, seq![p]),
{
    let vs = all_of(args[0]);
    numbers_gathered(vs, Pick::Readable);
    numbers_gathered(vs, Pick::Tolerant);
    ordered_is(vs, false);
    let o = ordered(the_numbers(vs), false);
    assert(is_order_of(o, the_numbers(vs), false));
    assert(crate::value::one().rank() > 0);
}

/// Payments keep their order, and the rate, the guess and the days stand beside them.
pub proof fn payments_keep_their_order(
    args: Seq<Given>,
    more: Seq<Given>,
    rate: Num,
    flows: Seq<Read>,
    days: Seq<Read>,
)
    requires
        args.len() == 2,
        args[0] matches Given::One(r) && r.value == FValue::Number(rate),
        rate.finite(),
        all_of(args[1]) == flows,
        are_numbers(flows),
        flows.len() >= 2,
        more.len() == 3,
        more[0] == args[0],
        more[1] == args[1],
        all_of(more[2]) == days,
        are_numbers(days),
        days.len() == flows.len(),
    ensures
        npv_of(args) == Said::Compute(Kernel::Npv, the_numbers(flows), seq![rate]),
        xnpv_of(more) == Said::Compute(
            Kernel::Xnpv,
            the_numbers(flows),
            seq![rate] + the_numbers(days),
        ),
{
    numbers_gathered(flows, Pick::Strict);
    numbers_gathered(days, Pick::Strict);
    let tail = args.skip(1);
    assert(tail.len() == 1 && tail[0] == args[1]);
    assert(tail.drop_last() =~= Seq::empty());
    let none = Seq::<Given>::empty();
    assert(tail.last() == args[1]);
    assert(everything(none) =~= Seq::empty());
    assert(everything(tail) == everything(tail.drop_last()) + all_of(tail.last()));
    assert(Seq::<Read>::empty() + flows =~= flows);
    assert(the_numbers(days).insert(0, rate) =~= seq![rate] + the_numbers(days));
}

/// `FORECAST` is given the number in front of those on which the others depend.
pub proof fn forecasts_are_given_their_number(args: Seq<Given>, x: Num)
    requires
        args.len() == 3,
        args[0] matches Given::One(r) && r.value == FValue::Number(x),
        x.finite(),
        are_numbers(all_of(args[1])),
        are_numbers(all_of(args[2])),
        all_of(args[1]).len() == all_of(args[2]).len(),
        all_of(args[1]).len() >= 2,
    ensures
        forecast_of(args) == Said::Compute(
            Kernel::Forecast,
            seq![x] + the_numbers(all_of(args[2])),
            the_numbers(all_of(args[1])),
        ),
{
    pairs_read(all_of(args[1]), all_of(args[2]));
    let xs = the_numbers(all_of(args[2]));
    assert(xs.insert(0, x) =~= seq![x] + xs);
}

} // verus!
