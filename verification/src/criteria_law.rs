//! What holds of functions that choose values by a criterion: which values meet it, and which
//! numbers stand at the places that are chosen.
use crate::criteria::{
    averageif_of, averageifs_of, chosen, countifs_of, even_pairs, extreme, extremum_ifs_of, fits,
    fitting, hit, hit_numbers, hits, meets, operator_of, pair_count, pair_criterion, pair_range,
    places, sumif_of, sumifs_of,
};
use crate::kernel::Kernel;
use crate::logic_fn::equal;
use crate::reading::{all_of, counted, failed, work, Given, Read, Said};
use crate::scan::at;
use crate::text::{trimmed, upper};
use crate::value::{FValue, FormulaError, Num};
use vstd::prelude::*;

verus! {

/// What an operator in front of a criterion asks of a number, by the order of numbers.
pub open spec fn in_order(op: Seq<char>, a: Num, b: Num) -> bool {
    if op == seq!['>', '='] {
        a.rank() >= b.rank()
    } else if op == seq!['<', '='] {
        a.rank() <= b.rank()
    } else if op == seq!['<', '>'] {
        a.rank() != b.rank()
    } else if op == seq!['>'] {
        a.rank() > b.rank()
    } else if op == seq!['<'] {
        a.rank() < b.rank()
    } else {
        op == seq!['='] && a.rank() == b.rank()
    }
}

/// Whether a text is a comparison operator.
pub open spec fn is_operator(op: Seq<char>) -> bool {
    ||| op == seq!['>', '=']
    ||| op == seq!['<', '=']
    ||| op == seq!['<', '>']
    ||| op == seq!['>']
    ||| op == seq!['<']
    ||| op == seq!['=']
}

proof fn operators()
    ensures
        ">="@ == seq!['>', '='],
        "<="@ == seq!['<', '='],
        "<>"@ == seq!['<', '>'],
        ">"@ == seq!['>'],
        "<"@ == seq!['<'],
        "="@ == seq!['='],
{
    reveal_strlit(">=");
    reveal_strlit("<=");
    reveal_strlit("<>");
    reveal_strlit(">");
    reveal_strlit("<");
    reveal_strlit("=");
    assert(">="@ =~= seq!['>', '=']);
    assert("<="@ =~= seq!['<', '=']);
    assert("<>"@ =~= seq!['<', '>']);
    assert(">"@ =~= seq!['>']);
    assert("<"@ =~= seq!['<']);
    assert("="@ =~= seq!['=']);
}

proof fn starts(cs: Seq<char>, pat: Seq<char>)
    requires
        0 < pat.len() <= 2,
    ensures
        at(cs, pat, 0) == (cs.len() >= pat.len() && cs[0] == pat[0] && (pat.len() == 2 ==> cs[1]
            == pat[1])),
{
    if cs.len() >= pat.len() {
        let sub = cs.subrange(0, pat.len() as int);
        if cs[0] == pat[0] && (pat.len() == 2 ==> cs[1] == pat[1]) {
            assert(sub =~= pat);
        }
        if sub == pat {
            assert(sub[0] == pat[0]);
            if pat.len() == 2 {
                assert(sub[1] == pat[1]);
            }
        }
    }
}

/// Whether what stands behind an operator makes no longer operator with it.
pub open spec fn is_behind(op: Seq<char>, rest: Seq<char>) -> bool {
    rest.len() > 0 && op.len() == 1 ==> rest[0] != '=' && rest[0] != '>'
}

proof fn operator_read(op: Seq<char>, rest: Seq<char>)
    requires
        is_operator(op),
        is_behind(op, rest),
    ensures
        operator_of(op + rest) == op,
        (op + rest).skip(op.len() as int) == rest,
{
    operators();
    let cs = op + rest;
    starts(cs, ">="@);
    starts(cs, "<="@);
    starts(cs, "<>"@);
    starts(cs, ">"@);
    starts(cs, "<"@);
    starts(cs, "="@);
    assert(cs.skip(op.len() as int) =~= rest);
    assert(cs[0] == op[0]);
    if op.len() == 2 {
        assert(cs[1] == op[1]);
    } else if rest.len() > 0 {
        assert(cs[1] == rest[0]);
    }
}

/// A criterion with an operator and a number is met by the numbers that stand to that number as
/// the operator says.
pub proof fn numbers_meet_comparisons(v: Read, c: Read, op: Seq<char>, rest: Seq<char>, a: Num, b: Num)
    requires
        is_operator(op),
        is_behind(op, rest),
        c.value == FValue::Text(op + rest),
        trimmed(op + rest) == op + rest,
        c.operand == Some(b),
        v.value == FValue::Number(a),
        !a.nan(),
        !b.nan(),
    ensures
        fits(v, c) == in_order(op, a, b),
{
    operator_read(op, rest);
    operators();
    assert((op + rest).len() > 0);
    distinct(op);
}

proof fn distinct(op: Seq<char>)
    requires
        is_operator(op),
    ensures
        op.len() == 1 || op.len() == 2,
        op == seq!['>', '='] <==> op.len() == 2 && op[0] == '>',
        op == seq!['<', '='] <==> op.len() == 2 && op[0] == '<' && op[1] == '=',
        op == seq!['<', '>'] <==> op.len() == 2 && op[0] == '<' && op[1] == '>',
        op == seq!['>'] <==> op.len() == 1 && op[0] == '>',
        op == seq!['<'] <==> op.len() == 1 && op[0] == '<',
        op == seq!['='] <==> op.len() == 1 && op[0] == '=',
{
}

/// A criterion that is a text without operator and wildcard is met by the texts that are equal to
/// it but for capitals; one with `=` in front by those equal to the rest, and one with `<>` by the
/// others.
pub proof fn texts_meet_texts(v: Read, c: Read, op: Seq<char>, rest: Seq<char>, t: Seq<char>)
    requires
        op.len() == 0 && rest.len() > 0 && operator_of(rest).len() == 0 || is_behind(op, rest) && (op
            == seq!['='] || op == seq!['<', '>']),
        c.value == FValue::Text(op + rest),
        trimmed(op + rest) == op + rest,
        c.operand is None,
        v.value == FValue::Text(t),
        !rest.contains('*') && !rest.contains('?'),
    ensures
        fits(v, c) == (if op == seq!['<', '>'] {
            upper(t) != upper(rest)
        } else {
            upper(t) == upper(rest)
        }),
{
    operators();
    assert((op + rest).len() > 0);
    if op.len() == 0 {
        assert(op + rest =~= rest);
        assert(operator_of(rest) != "="@ && operator_of(rest) != "<>"@);
    } else {
        operator_read(op, rest);
        distinct(op);
    }
}

/// Whether `ks` are, from the first to the last, the places below `n` that are chosen.
pub open spec fn is_choice(ks: Seq<int>, n: int, p: spec_fn(int) -> bool) -> bool {
    &&& forall|j: int| 0 <= j < ks.len() ==> 0 <= #[trigger] ks[j] < n && p(ks[j])
    &&& forall|i: int, j: int| 0 <= i < j < ks.len() ==> #[trigger] ks[i] < #[trigger] ks[j]
    &&& forall|i: int| 0 <= i < n && #[trigger] p(i) ==> ks.contains(i)
}

pub proof fn choice_less(ks: Seq<int>, n: int, p: spec_fn(int) -> bool)
    requires
        is_choice(ks, n, p),
        n > 0,
    ensures
        p(n - 1) ==> ks.len() > 0 && ks.last() == n - 1 && is_choice(ks.drop_last(), n - 1, p),
        !p(n - 1) ==> is_choice(ks, n - 1, p),
{
    if p(n - 1) {
        assert(ks.contains(n - 1));
        let k = choose|k: int| 0 <= k < ks.len() && ks[k] == n - 1;
        if k < ks.len() - 1 {
            assert(ks[k] < ks[ks.len() - 1]);
        }
        let less = ks.drop_last();
        assert forall|j: int| 0 <= j < less.len() implies 0 <= #[trigger] less[j] < n - 1 && p(
            less[j],
        ) by {
            assert(ks[j] < ks[ks.len() - 1]);
        }
        assert forall|i: int| 0 <= i < n - 1 && #[trigger] p(i) implies less.contains(i) by {
            assert(ks.contains(i));
            let m = choose|m: int| 0 <= m < ks.len() && ks[m] == i;
            assert(less[m] == i);
        }
    } else {
        assert forall|j: int| 0 <= j < ks.len() implies 0 <= #[trigger] ks[j] < n - 1 && p(ks[j]) by {}
    }
}

pub proof fn choice_none(ks: Seq<int>, p: spec_fn(int) -> bool)
    requires
        is_choice(ks, 0, p),
    ensures
        ks.len() == 0,
{
    if ks.len() > 0 {
        let k = ks[0];
        assert(0 <= k && k < 0);
    }
}

/// The number that a reading is.
pub open spec fn the_number(r: Read) -> Num {
    r.value->Number_0
}

/// Whether a reading is a number that can be worked with.
pub open spec fn is_number(r: Read) -> bool {
    r.value matches FValue::Number(n) && n.finite()
}

proof fn chosen_are(range: Seq<Read>, from: Seq<Read>, c: Read, ks: Seq<int>)
    requires
        range.len() <= from.len(),
        forall|i: int| 0 <= i < from.len() ==> is_number(#[trigger] from[i]),
        is_choice(ks, range.len() as int, |i: int| fits(range[i], c)),
    ensures
        chosen(range, from, c) == Seq::new(ks.len(), |j: int| the_number(from[ks[j]])),
        fitting(range, c) == ks.len(),
    decreases range.len(),
{
    let p = |i: int| fits(range[i], c);
    let out = Seq::new(ks.len(), |j: int| the_number(from[ks[j]]));
    if range.len() == 0 {
        choice_none(ks, p);
        assert(out =~= Seq::empty());
    } else {
        let n = range.len() as int;
        let fore = range.drop_last();
        let q = |i: int| fits(fore[i], c);
        choice_less(ks, n, p);
        assert(is_number(from[n - 1]));
        let less = if p(n - 1) {
            ks.drop_last()
        } else {
            ks
        };
        assert(is_choice(less, n - 1, q)) by {
            assert forall|j: int| 0 <= j < less.len() implies 0 <= #[trigger] less[j] < n - 1 && q(
                less[j],
            ) by {
                assert(p(less[j]));
            }
            assert forall|i: int| 0 <= i < n - 1 && #[trigger] q(i) implies less.contains(i) by {
                assert(p(i));
            }
        }
        chosen_are(fore, from, c, less);
        let inner = Seq::new(less.len(), |j: int| the_number(from[less[j]]));
        if p(n - 1) {
            assert(out =~= inner.push(the_number(from[n - 1])));
        } else {
            assert(out =~= inner);
        }
    }
}

/// `SUMIF` adds, and `AVERAGEIF` averages, the numbers that stand at the places whose value meets
/// the criterion, in their order; `COUNTIF` counts the places. Where no third argument is given,
/// the numbers stand in the first.
pub proof fn chosen_numbers_are_used(args: Seq<Given>, c: Read, from: Seq<Read>, ks: Seq<int>)
    requires
        args.len() == 2 && from == all_of(args[0]) || args.len() == 3 && from == all_of(args[2]),
        args[0] is Area,
        args[1] == Given::One(c),
        from.len() >= all_of(args[0]).len(),
        forall|i: int| 0 <= i < from.len() ==> is_number(#[trigger] from[i]),
        is_choice(ks, all_of(args[0]).len() as int, |i: int| fits(all_of(args[0])[i], c)),
    ensures
        sumif_of(args) == work(Kernel::Sum, Seq::new(ks.len(), |j: int| the_number(from[ks[j]]))),
        ks.len() > 0 ==> averageif_of(args) == work(
            Kernel::Mean,
            Seq::new(ks.len(), |j: int| the_number(from[ks[j]])),
        ),
        ks.len() == 0 ==> averageif_of(args) == failed(FormulaError::Div0),
        fitting(all_of(args[0]), c) == ks.len(),
{
    chosen_are(all_of(args[0]), from, c, ks);
}

/// Whether at a place the value of each range meets the criterion behind the range.
pub open spec fn all_meet(args: Seq<Given>, start: int, cs: Seq<Read>, i: int) -> bool {
    forall|j: int| 0 <= j < cs.len() ==> fits(all_of(args[start + 2 * j])[i], #[trigger] cs[j])
}

/// Whether from an argument on stand ranges of `n` values, each with a criterion behind it.
pub open spec fn pairs_given(args: Seq<Given>, start: int, cs: Seq<Read>, n: nat) -> bool {
    &&& 0 <= start
    &&& cs.len() > 0
    &&& args.len() == start + 2 * cs.len()
    &&& forall|j: int|
        0 <= j < cs.len() ==> args[start + 2 * j + 1] == Given::One(#[trigger] cs[j]) && all_of(
            args[start + 2 * j],
        ).len() == n
}

proof fn pairs_read(args: Seq<Given>, start: int, cs: Seq<Read>, n: nat)
    requires
        pairs_given(args, start, cs, n),
    ensures
        pair_count(args, start) == cs.len(),
        even_pairs(args, start),
        places(args, start) == n,
        forall|i: int| #[trigger] hit(args, start, i) == all_meet(args, start, cs, i),
{
    assert forall|j: int| 0 <= j < cs.len() implies (#[trigger] pair_range(args, start, j)).len()
        == n && pair_criterion(args, start, j) == cs[j] by {
        assert(args[start + 2 * j + 1] == Given::One(cs[j]));
    }
    assert(pair_range(args, start, 0).len() == n);
    assert forall|i: int| #[trigger] hit(args, start, i) == all_meet(args, start, cs, i) by {
        if hit(args, start, i) {
            assert forall|j: int| 0 <= j < cs.len() implies fits(
                all_of(args[start + 2 * j])[i],
                #[trigger] cs[j],
            ) by {
                let r = pair_range(args, start, j);
                assert(fits(r[i], pair_criterion(args, start, j)));
            }
        }
        if all_meet(args, start, cs, i) {
            assert forall|j: int| 0 <= j < pair_count(args, start) implies fits(
                (#[trigger] pair_range(args, start, j))[i],
                pair_criterion(args, start, j),
            ) by {
                assert(fits(all_of(args[start + 2 * j])[i], cs[j]));
            }
        }
    }
}

proof fn hits_are(
    vs: Seq<Read>,
    args: Seq<Given>,
    start: int,
    cs: Seq<Read>,
    m: nat,
    n: nat,
    ks: Seq<int>,
)
    requires
        pairs_given(args, start, cs, m),
        n <= vs.len(),
        forall|i: int| 0 <= i < vs.len() ==> is_number(#[trigger] vs[i]),
        is_choice(ks, n as int, |i: int| all_meet(args, start, cs, i)),
    ensures
        hit_numbers(vs, args, start, n) == Seq::new(ks.len(), |j: int| the_number(vs[ks[j]])),
        hits(args, start, n) == ks.len(),
    decreases n,
{
    let p = |i: int| all_meet(args, start, cs, i);
    let out = Seq::new(ks.len(), |j: int| the_number(vs[ks[j]]));
    pairs_read(args, start, cs, m);
    if n == 0 {
        choice_none(ks, p);
        assert(out =~= Seq::empty());
    } else {
        choice_less(ks, n as int, p);
        assert(hit(args, start, n - 1) == p(n - 1));
        assert(is_number(vs[n - 1]));
        let less = if p(n - 1) {
            ks.drop_last()
        } else {
            ks
        };
        hits_are(vs, args, start, cs, m, (n - 1) as nat, less);
        let inner = Seq::new(less.len(), |j: int| the_number(vs[less[j]]));
        if p(n - 1) {
            assert(out =~= inner.push(the_number(vs[n - 1])));
        } else {
            assert(out =~= inner);
        }
    }
}

/// `SUMIFS` and `AVERAGEIFS` use the numbers of their first argument at the places where every
/// range meets the criterion behind it.
pub proof fn numbers_chosen_by_all_are_used(
    args: Seq<Given>,
    cs: Seq<Read>,
    n: nat,
    ks: Seq<int>,
)
    requires
        pairs_given(args, 1, cs, n),
        all_of(args[0]).len() == n,
        forall|i: int| 0 <= i < n ==> is_number(#[trigger] all_of(args[0])[i]),
        is_choice(ks, n as int, |i: int| all_meet(args, 1, cs, i)),
    ensures
        ({
            let ns = Seq::new(ks.len(), |j: int| the_number(all_of(args[0])[ks[j]]));
            &&& sumifs_of(args) == work(Kernel::Sum, ns)
            &&& ks.len() > 0 ==> averageifs_of(args) == work(Kernel::Mean, ns)
            &&& ks.len() == 0 ==> averageifs_of(args) == failed(FormulaError::Div0)
        }),
{
    pairs_read(args, 1, cs, n);
    hits_are(all_of(args[0]), args, 1, cs, n, n, ks);
}

/// `COUNTIFS` counts the places where every range meets the criterion behind it.
pub proof fn places_chosen_by_all_are_counted(
    args: Seq<Given>,
    cs: Seq<Read>,
    vs: Seq<Read>,
    n: nat,
    ks: Seq<int>,
)
    requires
        pairs_given(args, 0, cs, n),
        vs.len() == n,
        forall|i: int| 0 <= i < n ==> is_number(#[trigger] vs[i]),
        is_choice(ks, n as int, |i: int| all_meet(args, 0, cs, i)),
    ensures
        countifs_of(args) == counted(ks.len() as int),
{
    pairs_read(args, 0, cs, n);
    hits_are(vs, args, 0, cs, n, n, ks);
}

proof fn extreme_is(ns: Seq<Num>, max: bool)
    requires
        forall|i: int| 0 <= i < ns.len() ==> (#[trigger] ns[i]).finite(),
        ns.len() > 0,
    ensures
        ns.contains(extreme(ns, max)),
        forall|i: int|
            0 <= i < ns.len() ==> (if max {
                (#[trigger] ns[i]).rank() <= extreme(ns, max).rank()
            } else {
                ns[i].rank() >= extreme(ns, max).rank()
            }),
    decreases ns.len(),
{
    let fore = ns.drop_last();
    let k = ns.len() - 1;
    assert(ns[k].finite());
    assert(extreme(ns, max) == ns[k] || extreme(ns, max) == extreme(fore, max));
    if fore.len() == 0 {
        assert(extreme(fore, max) == crate::criteria::worst(max));
        assert(extreme(ns, max) == ns[k]);
    } else {
        assert forall|i: int| 0 <= i < fore.len() implies (#[trigger] fore[i]).finite() by {
            assert(ns[i].finite());
        }
        extreme_is(fore, max);
        let e = extreme(fore, max);
        let i = choose|i: int| 0 <= i < fore.len() && fore[i] == e;
        assert(ns[i] == e);
        assert forall|j: int| 0 <= j < ns.len() implies (if max {
            (#[trigger] ns[j]).rank() <= extreme(ns, max).rank()
        } else {
            ns[j].rank() >= extreme(ns, max).rank()
        }) by {
            if j < k {
                assert(fore[j] == ns[j]);
            }
        }
    }
}

/// `MAXIFS` and `MINIFS` give a number that stands at a chosen place and that no other there is
/// above, or below.
pub proof fn extreme_numbers_are_chosen(
    args: Seq<Given>,
    cs: Seq<Read>,
    n: nat,
    ks: Seq<int>,
    max: bool,
)
    requires
        pairs_given(args, 1, cs, n),
        all_of(args[0]).len() == n,
        forall|i: int| 0 <= i < n ==> is_number(#[trigger] all_of(args[0])[i]),
        is_choice(ks, n as int, |i: int| all_meet(args, 1, cs, i)),
        ks.len() > 0,
    ensures
        extremum_ifs_of(args, max) matches Said::Value(FValue::Number(x)) && {
            let ns = Seq::new(ks.len(), |j: int| the_number(all_of(args[0])[ks[j]]));
            &&& ns.contains(x)
            &&& forall|j: int|
                0 <= j < ns.len() ==> (if max {
                    (#[trigger] ns[j]).rank() <= x.rank()
                } else {
                    ns[j].rank() >= x.rank()
                })
        },
{
    pairs_read(args, 1, cs, n);
    hits_are(all_of(args[0]), args, 1, cs, n, n, ks);
    let ns = Seq::new(ks.len(), |j: int| the_number(all_of(args[0])[ks[j]]));
    assert forall|i: int| 0 <= i < ns.len() implies (#[trigger] ns[i]).finite() by {
        assert(0 <= ks[i] < n);
        assert(is_number(all_of(args[0])[ks[i]]));
    }
    extreme_is(ns, max);
}

} // verus!
