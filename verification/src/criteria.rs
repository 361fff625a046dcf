//! Criteria such as `">=10"` or `"a*"`, and the functions that count or add up what meets them.
use crate::kernel::Kernel;
use crate::logic_fn::{equal, same_number};
use crate::pattern::{wild_match, wildcard_match};
use crate::reading::{
    all_at, all_of, all_values, arg_at, counted, failed, figure, given, nothing, nth, num, plain,
    read_seq, values_at, values_or_blank, work, Arg, Given, Read, Reading, Reply, Said,
};
use crate::scan::{at, stands_at};
use crate::text::{chars_of, same_text, slice_string, trim_text, trimmed, upper};
use crate::value::{blank, zero, INFINITE, SIGN, FValue, FormulaError, FormulaValue, Num};
use vstd::prelude::*;

verus! {

/// The comparison operator that a text starts with, the empty text where there is none.
pub open spec fn operator_of(cs: Seq<char>) -> Seq<char> {
    if at(cs, ">="@, 0) {
        ">="@
    } else if at(cs, "<="@, 0) {
        "<="@
    } else if at(cs, "<>"@, 0) {
        "<>"@
    } else if at(cs, ">"@, 0) {
        ">"@
    } else if at(cs, "<"@, 0) {
        "<"@
    } else if at(cs, "="@, 0) {
        "="@
    } else {
        Seq::empty()
    }
}

fn cut(op: &str, chars: &Vec<char>) -> (r: (String, String))
    requires
        op@.len() <= chars@.len(),
    ensures
        r.0@ == op@,
        r.1@ == chars@.skip(op@.len() as int),
{
    let n: usize = chars_of(op).len();
    let rest: String = slice_string(chars, n, chars.len());
    assert(rest@ =~= chars@.skip(op@.len() as int));
    (op.to_string(), rest)
}

/// A criterion's operator and what stands behind it.
pub fn split_operator(cs: &str) -> (r: (String, String))
    ensures
        r.0@ == operator_of(cs@),
        r.1@ == cs@.skip(operator_of(cs@).len() as int),
{
    let chars: Vec<char> = chars_of(cs);
    if stands_at(&chars, &chars_of(">="), 0) {
        return cut(">=", &chars);
    }
    if stands_at(&chars, &chars_of("<="), 0) {
        return cut("<=", &chars);
    }
    if stands_at(&chars, &chars_of("<>"), 0) {
        return cut("<>", &chars);
    }
    if stands_at(&chars, &chars_of(">"), 0) {
        return cut(">", &chars);
    }
    if stands_at(&chars, &chars_of("<"), 0) {
        return cut("<", &chars);
    }
    if stands_at(&chars, &chars_of("="), 0) {
        return cut("=", &chars);
    }
    assert(cs@.skip(0) =~= cs@);
    let none: String = String::new();
    assert(none@ =~= Seq::empty());
    (none, cs.to_string())
}

/// A database criterion's operator and what stands behind it.
pub fn split_operator_db(cs: &str) -> (r: (String, String))
    ensures
        r.0@ == operator_of(cs@),
        r.1@ == cs@.skip(operator_of(cs@).len() as int),
{
    split_operator(cs)
}

/// The number that a value is or reads as.
pub open spec fn own_number(v: Read) -> Option<Num> {
    match v.value {
        FValue::Number(n) => Some(n),
        FValue::Text(_) => v.parsed,
        _ => None,
    }
}

/// What a comparison operator says of two numbers.
pub open spec fn number_holds(op: Seq<char>, a: Num, b: Num) -> bool {
    if op == ">="@ {
        b.lt(a) || equal(a, b)
    } else if op == "<="@ {
        a.lt(b) || equal(a, b)
    } else if op == "<>"@ {
        !equal(a, b)
    } else if op == ">"@ {
        b.lt(a)
    } else if op == "<"@ {
        a.lt(b)
    } else {
        op == "="@ && equal(a, b)
    }
}

/// Whether a text holds a wildcard.
pub open spec fn is_wild(s: Seq<char>) -> bool {
    s.contains('*') || s.contains('?')
}

/// Whether a text is a target's: by pattern where the target holds a wildcard, else without
/// regard to case.
pub open spec fn text_fits(s: Seq<char>, target: Seq<char>) -> bool {
    if is_wild(target) {
        wild_match(target, s)
    } else {
        upper(s) == upper(target)
    }
}

/// Whether a value meets a criterion that is not blank: by number where an operator stands in
/// front of a number and the value has one, else by text.
pub open spec fn meets(v: Read, c: Read) -> bool {
    let cs = trimmed(plain(c));
    let op = operator_of(cs);
    if op.len() > 0 && c.operand is Some && own_number(v) is Some {
        number_holds(op, own_number(v)->0, c.operand->0)
    } else {
        let target = if op == "="@ || op == "<>"@ {
            cs.skip(op.len() as int)
        } else {
            cs
        };
        if op == "<>"@ {
            !text_fits(plain(v), target)
        } else {
            text_fits(plain(v), target)
        }
    }
}

/// Whether a value meets a criterion; a blank one is met by blank values.
pub open spec fn fits(v: Read, c: Read) -> bool {
    if blank(c.value) {
        blank(v.value)
    } else {
        meets(v, c)
    }
}

fn has_wildcard(s: &str) -> (r: bool)
    ensures
        r == is_wild(s@),
{
    let chars: Vec<char> = chars_of(s);
    let mut i: usize = 0;
    while i < chars.len()
        invariant
            i <= chars.len(),
            chars@ == s@,
            forall|k: int| 0 <= k < i ==> s@[k] != '*' && s@[k] != '?',
        decreases chars.len() - i,
    {
        if chars[i] == '*' || chars[i] == '?' {
            assert(s@[i as int] == chars@[i as int]);
            return true;
        }
        i = i + 1;
    }
    false
}

/// Whether a text is a target's.
pub fn text_matches(s: &str, target: &str) -> (r: bool)
    ensures
        r == text_fits(s@, target@),
{
    if has_wildcard(target) {
        wildcard_match(target, s)
    } else {
        let a: String = s.to_uppercase();
        let b: String = target.to_uppercase();
        same_text(a.as_str(), b.as_str())
    }
}

fn compare_numbers(op: &str, a: Num, b: Num) -> (r: bool)
    ensures
        r == number_holds(op@, a, b),
{
    if same_text(op, ">=") {
        b.less(a) || same_number(a, b)
    } else if same_text(op, "<=") {
        a.less(b) || same_number(a, b)
    } else if same_text(op, "<>") {
        !same_number(a, b)
    } else if same_text(op, ">") {
        b.less(a)
    } else if same_text(op, "<") {
        a.less(b)
    } else {
        same_text(op, "=") && same_number(a, b)
    }
}

fn number_in(v: &Reading) -> (r: Option<Num>)
    ensures
        r == own_number(v@),
{
    match &v.value {
        FormulaValue::Number(n) => Some(*n),
        FormulaValue::Text(_) => v.parsed,
        _ => None,
    }
}

fn meets_filled(v: &Reading, c: &Reading) -> (r: bool)
    ensures
        r == meets(v@, c@),
{
    let cs: String = trim_text(c.plain_text().as_str());
    let (op, rhs) = split_operator(cs.as_str());
    if !op.as_str().is_empty() {
        if let Some(rn) = c.operand {
            if let Some(vn) = number_in(v) {
                return compare_numbers(op.as_str(), vn, rn);
            }
        }
    }
    let vs: String = v.plain_text();
    let not: bool = same_text(op.as_str(), "<>");
    let eq: bool = if not || same_text(op.as_str(), "=") {
        text_matches(vs.as_str(), rhs.as_str())
    } else {
        text_matches(vs.as_str(), cs.as_str())
    };
    if not {
        !eq
    } else {
        eq
    }
}

/// Whether a value meets a criterion; a blank one is met by blank values.
pub fn matches_criteria(v: &Reading, criteria: &Reading) -> (r: bool)
    ensures
        r == fits(v@, criteria@),
{
    if criteria.value.is_blank() {
        v.value.is_blank()
    } else {
        meets_filled(v, criteria)
    }
}

/// Whether a record's value meets a database criterion; a blank one asks for nothing.
pub fn match_one(cell: &Reading, criteria: &Reading) -> (r: bool)
    ensures
        r == (blank(criteria@.value) || meets(cell@, criteria@)),
{
    criteria.value.is_blank() || meets_filled(cell, criteria)
}

/// The numbers that stand, in `from`, at the places where `range` meets a criterion; where `from`
/// has no such place, the value in `range` itself counts. What is no number is left out.
pub open spec fn chosen(range: Seq<Read>, from: Seq<Read>, c: Read) -> Seq<Num>
    decreases range.len(),
{
    if range.len() == 0 {
        Seq::empty()
    } else {
        let rest = chosen(range.drop_last(), from, c);
        let i = range.len() - 1;
        let t = if i < from.len() {
            from[i]
        } else {
            range[i]
        };
        if fits(range[i], c) && num(t) is Ok {
            rest.push(num(t)->Ok_0)
        } else {
            rest
        }
    }
}

fn choose_numbers(range: &Vec<Reading>, from: &Vec<Reading>, c: &Reading) -> (r: Vec<Num>)
    ensures
        r@ == chosen(read_seq(range@), read_seq(from@), c@),
{
    let ghost all = read_seq(range@);
    let mut out: Vec<Num> = Vec::new();
    let mut i: usize = 0;
    assert(out@ =~= chosen(all.take(0), read_seq(from@), c@));
    while i < range.len()
        invariant
            i <= range.len(),
            all == read_seq(range@),
            out@ == chosen(all.take(i as int), read_seq(from@), c@),
        decreases range.len() - i,
    {
        assert(all.take(i + 1).drop_last() =~= all.take(i as int));
        assert(all.take(i + 1)[i as int] == range@[i as int]@);
        if matches_criteria(&range[i], c) {
            let t: Result<Num, FormulaError> = if i < from.len() {
                from[i].number()
            } else {
                range[i].number()
            };
            if let Ok(n) = t {
                out.push(n);
            }
        }
        i = i + 1;
    }
    assert(all.take(i as int) =~= all);
    out
}

/// The numbers that a criterion chooses: the first argument is the range, the second the
/// criterion, the third, where given, the numbers' range.
pub open spec fn chosen_args(args: Seq<Given>) -> Seq<Num> {
    let range = all_at(args, 0, Seq::empty());
    chosen(range, all_at(args, 2, range), nth(args, 1))
}

fn choose_args(args: &Vec<Arg>) -> (r: Vec<Num>)
    requires
        args.len() > 0,
    ensures
        r@ == chosen_args(given(args@)),
{
    let range: Vec<Reading> = all_values(&args[0]);
    let c: Reading = arg_at(args, 1);
    if args.len() > 2 {
        let from: Vec<Reading> = all_values(&args[2]);
        choose_numbers(&range, &from, &c)
    } else {
        choose_numbers(&range, &range, &c)
    }
}

/// `SUMIF`: the sum of what the criterion chooses from an area.
pub open spec fn sumif_of(args: Seq<Given>) -> Said {
    if args.len() == 0 || !(args[0] is Area) {
        failed(FormulaError::Value)
    } else {
        work(Kernel::Sum, chosen_args(args))
    }
}

pub fn f_sumif(args: &Vec<Arg>) -> (r: Reply)
    ensures
        r@ == sumif_of(given(args@)),
{
    if args.len() == 0 {
        return Reply::error(FormulaError::Value);
    }
    assert(given(args@)[0] == args@[0]@);
    match &args[0] {
        Arg::Area(_) => Reply::compute(Kernel::Sum, choose_args(args)),
        _ => Reply::error(FormulaError::Value),
    }
}

/// `AVERAGEIF`: the mean of what the criterion chooses.
pub open spec fn averageif_of(args: Seq<Given>) -> Said {
    if args.len() == 0 || chosen_args(args).len() == 0 {
        failed(FormulaError::Div0)
    } else {
        work(Kernel::Mean, chosen_args(args))
    }
}

pub fn averageif(args: &Vec<Arg>) -> (r: Reply)
    ensures
        r@ == averageif_of(given(args@)),
{
    if args.len() == 0 {
        return Reply::error(FormulaError::Div0);
    }
    let ns: Vec<Num> = choose_args(args);
    if ns.len() == 0 {
        Reply::error(FormulaError::Div0)
    } else {
        Reply::compute(Kernel::Mean, ns)
    }
}

/// How many of some values meet a criterion.
pub open spec fn fitting(vs: Seq<Read>, c: Read) -> nat
    decreases vs.len(),
{
    if vs.len() == 0 {
        0
    } else {
        fitting(vs.drop_last(), c) + (if fits(vs.last(), c) {
            1nat
        } else {
            0
        })
    }
}

/// `COUNTIF`.
pub fn f_countif(args: &Vec<Arg>) -> (r: Reply)
    ensures
        r@ == counted(
            fitting(all_at(given(args@), 0, Seq::empty()), nth(given(args@), 1)) as int,
        ),
{
    let vs: Vec<Reading> = values_at(args, 0);
    let c: Reading = arg_at(args, 1);
    let ghost all = read_seq(vs@);
    let mut count: usize = 0;
    let mut i: usize = 0;
    while i < vs.len()
        invariant
            i <= vs.len(),
            count <= i,
            all == read_seq(vs@),
            count == fitting(all.take(i as int), c@),
        decreases vs.len() - i,
    {
        assert(all.take(i + 1).drop_last() =~= all.take(i as int));
        assert(all.take(i + 1).last() == vs@[i as int]@);
        if matches_criteria(&vs[i], &c) {
            count = count + 1;
        }
        i = i + 1;
    }
    assert(all.take(i as int) =~= all);
    Reply::count(count)
}

/// How many pairs of a range and a criterion stand from `start` on.
pub open spec fn pair_count(args: Seq<Given>, start: int) -> int {
    if args.len() > start {
        (args.len() - start) / 2
    } else {
        0
    }
}

/// The range of the pair `j`.
pub open spec fn pair_range(args: Seq<Given>, start: int, j: int) -> Seq<Read> {
    all_of(args[start + 2 * j])
}

/// The criterion of the pair `j`.
pub open spec fn pair_criterion(args: Seq<Given>, start: int, j: int) -> Read {
    nth(args, start + 2 * j + 1)
}

/// Whether all ranges of the pairs are equally long.
pub open spec fn even_pairs(args: Seq<Given>, start: int) -> bool {
    forall|j: int|
        0 <= j < pair_count(args, start) ==> (#[trigger] pair_range(args, start, j)).len()
            == pair_range(args, start, 0).len()
}

/// How many places the pairs' ranges have.
pub open spec fn places(args: Seq<Given>, start: int) -> nat {
    if pair_count(args, start) == 0 {
        0
    } else {
        pair_range(args, start, 0).len()
    }
}

/// Whether every pair's range meets its criterion at the place `i`.
pub open spec fn hit(args: Seq<Given>, start: int, i: int) -> bool {
    forall|j: int|
        0 <= j < pair_count(args, start) ==> fits(
            (#[trigger] pair_range(args, start, j))[i],
            pair_criterion(args, start, j),
        )
}

/// At which places every pair's range meets its criterion.
pub fn build_mask(args: &Vec<Arg>, start: usize) -> (r: Result<Vec<bool>, FormulaError>)
    ensures
        match r {
            Err(e) => e == FormulaError::Value && !even_pairs(given(args@), start as int),
            Ok(m) => even_pairs(given(args@), start as int) && m@.len() == places(
                given(args@),
                start as int,
            ) && forall|i: int|
                0 <= i < m@.len() ==> #[trigger] m@[i] == hit(given(args@), start as int, i),
        },
{
    let ghost all = given(args@);
    let pairs: usize = if args.len() > start {
        (args.len() - start) / 2
    } else {
        0
    };
    let mut mask: Vec<bool> = Vec::new();
    if pairs == 0 {
        return Ok(mask);
    }
    let first: Vec<Reading> = all_values(&args[start]);
    let n: usize = first.len();
    assert(all[start as int] == args@[start as int]@);
    assert(n == pair_range(all, start as int, 0).len());
    let mut i: usize = 0;
    while i < n
        invariant
            i <= n,
            mask@.len() == i,
            forall|k: int| 0 <= k < i ==> mask@[k],
        decreases n - i,
    {
        mask.push(true);
        i = i + 1;
    }
    let mut j: usize = 0;
    while j < pairs
        invariant
            j <= pairs,
            pairs == pair_count(all, start as int),
            all == given(args@),
            start < args.len(),
            pairs == (args.len() - start) / 2,
            n == pair_range(all, start as int, 0).len(),
            mask@.len() == n,
            forall|k: int|
                0 <= k < j ==> (#[trigger] pair_range(all, start as int, k)).len() == n,
            forall|i: int|
                0 <= i < n ==> (#[trigger] mask@[i] == forall|k: int|
                    0 <= k < j ==> fits(
                        (#[trigger] pair_range(all, start as int, k))[i],
                        pair_criterion(all, start as int, k),
                    )),
        decreases pairs - j,
    {
        let vs: Vec<Reading> = all_values(&args[start + 2 * j]);
        let c: Reading = arg_at(args, start + 2 * j + 1);
        assert(all[start + 2 * j] == args@[start + 2 * j]@);
        assert(read_seq(vs@) == pair_range(all, start as int, j as int));
        assert(c@ == pair_criterion(all, start as int, j as int));
        if vs.len() != n {
            return Err(FormulaError::Value);
        }
        let ghost before = mask@;
        let mut p: usize = 0;
        while p < n
            invariant
                p <= n,
                n == vs.len(),
                mask@.len() == n,
                before.len() == n,
                forall|i: int| p <= i < n ==> mask@[i] == before[i],
                forall|i: int|
                    0 <= i < p ==> (#[trigger] mask@[i] == (before[i] && fits(read_seq(vs@)[i], c@))),
            decreases n - p,
        {
            let ok: bool = mask[p] && matches_criteria(&vs[p], &c);
            mask.set(p, ok);
            p = p + 1;
        }
        proof {
            assert forall|i: int| 0 <= i < n implies (#[trigger] mask@[i] == forall|k: int|
                0 <= k < j + 1 ==> fits(
                    (#[trigger] pair_range(all, start as int, k))[i],
                    pair_criterion(all, start as int, k),
                )) by {
                assert(before[i] == forall|k: int|
                    0 <= k < j ==> fits(
                        (#[trigger] pair_range(all, start as int, k))[i],
                        pair_criterion(all, start as int, k),
                    ));
                assert(pair_range(all, start as int, j as int)[i] == read_seq(vs@)[i]);
            }
        }
        j = j + 1;
    }
    Ok(mask)
}

/// The numbers that stand in `vs` at the first `n` places that are hit.
pub open spec fn hit_numbers(vs: Seq<Read>, args: Seq<Given>, start: int, n: nat) -> Seq<Num>
    decreases n,
{
    if n == 0 {
        Seq::empty()
    } else {
        let rest = hit_numbers(vs, args, start, (n - 1) as nat);
        if hit(args, start, n - 1) && n <= vs.len() && num(vs[n - 1]) is Ok {
            rest.push(num(vs[n - 1])->Ok_0)
        } else {
            rest
        }
    }
}

/// The numbers of the first argument at the places where the pairs behind it are hit.
pub open spec fn hit_args(args: Seq<Given>) -> Result<Seq<Num>, FormulaError> {
    if !even_pairs(args, 1) {
        Err(FormulaError::Value)
    } else {
        Ok(hit_numbers(all_at(args, 0, seq![nothing()]), args, 1, places(args, 1)))
    }
}

/// Numbers or an error as a mathematical value.
pub open spec fn numbers_view(r: Result<Vec<Num>, FormulaError>) -> Result<Seq<Num>, FormulaError> {
    match r {
        Ok(v) => Ok(v@),
        Err(e) => Err(e),
    }
}

fn hit_numbers_of(args: &Vec<Arg>) -> (r: Result<Vec<Num>, FormulaError>)
    ensures
        numbers_view(r) == hit_args(given(args@)),
{
    let ghost all = given(args@);
    let vs: Vec<Reading> = values_or_blank(args, 0);
    let mask: Vec<bool> = match build_mask(args, 1) {
        Ok(m) => m,
        Err(e) => {
            return Err(e);
        },
    };
    let mut out: Vec<Num> = Vec::new();
    let mut i: usize = 0;
    assert(out@ =~= hit_numbers(read_seq(vs@), all, 1, 0));
    while i < mask.len()
        invariant
            i <= mask.len(),
            all == given(args@),
            mask@.len() == places(all, 1),
            forall|k: int| 0 <= k < mask@.len() ==> #[trigger] mask@[k] == hit(all, 1, k),
            out@ == hit_numbers(read_seq(vs@), all, 1, i as nat),
        decreases mask.len() - i,
    {
        if mask[i] && i < vs.len() {
            if let Ok(n) = vs[i].number() {
                out.push(n);
            }
        }
        assert(read_seq(vs@).len() == vs@.len());
        i = i + 1;
    }
    Ok(out)
}

/// `SUMIFS`.
pub open spec fn sumifs_of(args: Seq<Given>) -> Said {
    match hit_args(args) {
        Err(e) => failed(e),
        Ok(ns) => work(Kernel::Sum, ns),
    }
}

pub fn sumifs(args: &Vec<Arg>) -> (r: Reply)
    ensures
        r@ == sumifs_of(given(args@)),
{
    match hit_numbers_of(args) {
        Err(e) => Reply::error(e),
        Ok(ns) => Reply::compute(Kernel::Sum, ns),
    }
}

/// `AVERAGEIFS`.
pub open spec fn averageifs_of(args: Seq<Given>) -> Said {
    match hit_args(args) {
        Err(e) => failed(e),
        Ok(ns) => if ns.len() == 0 {
            failed(FormulaError::Div0)
        } else {
            work(Kernel::Mean, ns)
        },
    }
}

pub fn averageifs(args: &Vec<Arg>) -> (r: Reply)
    ensures
        r@ == averageifs_of(given(args@)),
{
    match hit_numbers_of(args) {
        Err(e) => Reply::error(e),
        Ok(ns) => if ns.len() == 0 {
            Reply::error(FormulaError::Div0)
        } else {
            Reply::compute(Kernel::Mean, ns)
        },
    }
}

/// The infinity that every number is better than.
pub open spec fn worst(max: bool) -> Num {
    if max {
        Num { bits: (INFINITE + SIGN) as u64 }
    } else {
        Num { bits: INFINITE }
    }
}

/// The largest or the smallest of some numbers; what is not a number does not count.
pub open spec fn extreme(ns: Seq<Num>, max: bool) -> Num
    decreases ns.len(),
{
    if ns.len() == 0 {
        worst(max)
    } else {
        let best = extreme(ns.drop_last(), max);
        if max && best.lt(ns.last()) || !max && ns.last().lt(best) {
            ns.last()
        } else {
            best
        }
    }
}

/// The largest or the smallest of some numbers, 0 where there is none.
pub open spec fn extreme_or_zero(ns: Seq<Num>, max: bool) -> Num {
    if ns.len() == 0 {
        zero()
    } else {
        extreme(ns, max)
    }
}

/// The largest or the smallest of some numbers, 0 where there is none.
pub fn extreme_of(ns: &Vec<Num>, max: bool) -> (r: Num)
    ensures
        r == extreme_or_zero(ns@, max),
{
    if ns.len() == 0 {
        return Num { bits: 0 };
    }
    let mut best: Num = if max {
        Num { bits: 0xfff0_0000_0000_0000 }
    } else {
        Num { bits: INFINITE }
    };
    let mut i: usize = 0;
    assert(ns@.take(0).len() == 0);
    while i < ns.len()
        invariant
            i <= ns.len(),
            best == extreme(ns@.take(i as int), max),
        decreases ns.len() - i,
    {
        assert(ns@.take(i + 1).drop_last() =~= ns@.take(i as int));
        assert(ns@.take(i + 1).last() == ns@[i as int]);
        let n: Num = ns[i];
        if max {
            if best.less(n) {
                best = n;
            }
        } else if n.less(best) {
            best = n;
        }
        i = i + 1;
    }
    assert(ns@.take(i as int) =~= ns@);
    best
}

/// No number of a list is better than its extreme, which is one of the list where all of it are
/// finite.
pub proof fn extreme_is_best(ns: Seq<Num>, max: bool, i: int)
    requires
        0 <= i < ns.len(),
    ensures
        max ==> !extreme(ns, max).lt(ns[i]),
        !max ==> !ns[i].lt(extreme(ns, max)),
        (forall|k: int| 0 <= k < ns.len() ==> (#[trigger] ns[k]).finite()) ==> ns.contains(
            extreme(ns, max),
        ),
    decreases ns.len(),
{
    let front = ns.drop_last();
    assert(!extreme(front, max).nan()) by {
        never_nan(front, max);
    }
    if i < front.len() {
        assert(front[i] == ns[i]);
        extreme_is_best(front, max, i);
    } else if front.len() > 0 {
        extreme_is_best(front, max, 0);
    }
    if forall|k: int| 0 <= k < ns.len() ==> (#[trigger] ns[k]).finite() {
        assert(forall|k: int| 0 <= k < front.len() ==> front[k] == ns[k]);
        if extreme(ns, max) == ns.last() {
            assert(ns[ns.len() - 1] == ns.last());
        } else {
            if front.len() > 0 {
                let k = choose|k: int| 0 <= k < front.len() && front[k] == extreme(front, max);
                assert(ns[k] == extreme(ns, max));
            } else {
                assert(ns.last().finite());
                assert(false);
            }
        }
    }
}

proof fn never_nan(ns: Seq<Num>, max: bool)
    ensures
        !extreme(ns, max).nan(),
    decreases ns.len(),
{
    if ns.len() > 0 {
        never_nan(ns.drop_last(), max);
    }
}

/// `MAXIFS` and `MINIFS`.
pub open spec fn extremum_ifs_of(args: Seq<Given>, max: bool) -> Said {
    match hit_args(args) {
        Err(e) => failed(e),
        Ok(ns) => figure(extreme_or_zero(ns, max)),
    }
}

pub fn extremum_ifs(args: &Vec<Arg>, max: bool) -> (r: Reply)
    ensures
        r@ == extremum_ifs_of(given(args@), max),
{
    match hit_numbers_of(args) {
        Err(e) => Reply::error(e),
        Ok(ns) => Reply::number(extreme_of(&ns, max)),
    }
}

/// How many of the first `n` places are hit.
pub open spec fn hits(args: Seq<Given>, start: int, n: nat) -> nat
    decreases n,
{
    if n == 0 {
        0
    } else {
        hits(args, start, (n - 1) as nat) + (if hit(args, start, n - 1) {
            1nat
        } else {
            0
        })
    }
}

/// `COUNTIFS`.
pub open spec fn countifs_of(args: Seq<Given>) -> Said {
    if !even_pairs(args, 0) {
        failed(FormulaError::Value)
    } else {
        counted(hits(args, 0, places(args, 0)) as int)
    }
}

pub fn countifs(args: &Vec<Arg>) -> (r: Reply)
    ensures
        r@ == countifs_of(given(args@)),
{
    let ghost all = given(args@);
    let mask: Vec<bool> = match build_mask(args, 0) {
        Ok(m) => m,
        Err(e) => {
            return Reply::error(e);
        },
    };
    let mut count: usize = 0;
    let mut i: usize = 0;
    while i < mask.len()
        invariant
            i <= mask.len(),
            count <= i,
            mask@.len() == places(all, 0),
            forall|k: int| 0 <= k < mask@.len() ==> #[trigger] mask@[k] == hit(all, 0, k),
            count == hits(all, 0, i as nat),
        decreases mask.len() - i,
    {
        if mask[i] {
            count = count + 1;
        }
        i = i + 1;
    }
    Reply::count(count)
}

} // verus!
