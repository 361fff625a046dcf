//! What a function is given: values, each with what reading and showing numbers tells of it.
use crate::value::{
    blank, number_of, one, text_of, to_boolean, to_number, to_text, truth_of, zero, FValue,
    FormulaError, FormulaValue, Num,
};
use vstd::prelude::*;

verus! {

/// A value with what only floating-point reading and showing can tell of it.
#[derive(Debug)]
pub struct Reading {
    pub value: FormulaValue,
    /// The number that the trimmed text reads as, if the value is a text and reads as one.
    pub parsed: Option<Num>,
    /// How the number is shown, if the value is a number.
    pub shown: String,
    /// The number behind a comparison operator in front of the value's trimmed text, or that the
    /// whole text reads as where no operator stands there.
    pub operand: Option<Num>,
    /// What the numerals of the two parts of a complex number read as, where the value's text is
    /// taken for one.
    pub re: Option<Num>,
    pub im: Option<Num>,
}

/// A reading as a mathematical value.
pub struct Read {
    pub value: FValue,
    pub parsed: Option<Num>,
    pub shown: Seq<char>,
    pub operand: Option<Num>,
    pub re: Option<Num>,
    pub im: Option<Num>,
}

impl View for Reading {
    type V = Read;

    open spec fn view(&self) -> Read {
        Read {
            value: self.value@,
            parsed: self.parsed,
            shown: self.shown@,
            operand: self.operand,
            re: self.re,
            im: self.im,
        }
    }
}

/// What stands for an argument that is not given.
pub open spec fn nothing() -> Read {
    Read {
        value: FValue::Blank,
        parsed: None,
        shown: Seq::empty(),
        operand: None,
        re: None,
        im: None,
    }
}

/// A reading as a number.
pub open spec fn num(r: Read) -> Result<Num, FormulaError> {
    number_of(r.value, r.parsed)
}

/// A reading as a text.
pub open spec fn txt(r: Read) -> Result<Seq<char>, FormulaError> {
    text_of(r.value, r.shown)
}

/// A reading as a text, empty where it is an error.
pub open spec fn plain(r: Read) -> Seq<char> {
    match txt(r) {
        Ok(t) => t,
        Err(_) => Seq::empty(),
    }
}

/// A reading as a truth value.
pub open spec fn truth(r: Read) -> Result<bool, FormulaError> {
    truth_of(r.value, r.parsed)
}

impl Reading {
    pub fn nothing() -> (r: Reading)
        ensures
            r@ == nothing(),
    {
        let r = Reading {
            value: FormulaValue::Blank,
            parsed: None,
            shown: String::new(),
            operand: None,
            re: None,
            im: None,
        };
        assert(r@.shown == Seq::<char>::empty());
        r
    }

    pub fn copied(&self) -> (r: Reading)
        ensures
            r@ == self@,
    {
        Reading {
            value: self.value.copied(),
            parsed: self.parsed,
            shown: self.shown.clone(),
            operand: self.operand,
            re: self.re,
            im: self.im,
        }
    }

    pub fn number(&self) -> (r: Result<Num, FormulaError>)
        ensures
            r == num(self@),
    {
        to_number(&self.value, self.parsed)
    }

    pub fn text(&self) -> (r: Result<String, FormulaError>)
        ensures
            text_view(r) == txt(self@),
    {
        to_text(&self.value, self.shown.as_str())
    }

    pub fn plain_text(&self) -> (r: String)
        ensures
            r@ == plain(self@),
    {
        match self.text() {
            Ok(t) => t,
            Err(_) => String::new(),
        }
    }

    pub fn truth(&self) -> (r: Result<bool, FormulaError>)
        ensures
            r == truth(self@),
    {
        to_boolean(&self.value, self.parsed)
    }
}

/// A text or an error as a mathematical value.
pub open spec fn text_view(r: Result<String, FormulaError>) -> Result<Seq<char>, FormulaError> {
    match r {
        Ok(t) => Ok(t@),
        Err(e) => Err(e),
    }
}

/// An argument: one value, or an area's values row by row.
#[derive(Debug)]
pub enum Arg {
    One(Reading),
    Area(Vec<Vec<Reading>>),
}

/// An argument as a mathematical value.
pub enum Given {
    One(Read),
    Area(Seq<Seq<Read>>),
}

/// The readings of a list.
pub open spec fn read_seq(v: Seq<Reading>) -> Seq<Read> {
    Seq::new(v.len(), |i: int| v[i]@)
}

/// The readings of a list of rows.
pub open spec fn read_rows(v: Seq<Vec<Reading>>) -> Seq<Seq<Read>> {
    Seq::new(v.len(), |i: int| read_seq(v[i]@))
}

impl View for Arg {
    type V = Given;

    open spec fn view(&self) -> Given {
        match self {
            Arg::One(r) => Given::One(r@),
            Arg::Area(rows) => Given::Area(read_rows(rows@)),
        }
    }
}

/// The arguments of a list.
pub open spec fn given(v: Seq<Arg>) -> Seq<Given> {
    Seq::new(v.len(), |i: int| v[i]@)
}

/// An argument where one value is wanted: an area's upper left one, nothing where it has none.
pub open spec fn first_of(g: Given) -> Read {
    match g {
        Given::One(r) => r,
        Given::Area(rows) => if rows.len() > 0 && rows[0].len() > 0 {
            rows[0][0]
        } else {
            nothing()
        },
    }
}

/// The argument at `i` where one value is wanted, nothing where it is not given.
pub open spec fn nth(args: Seq<Given>, i: int) -> Read {
    if 0 <= i < args.len() {
        first_of(args[i])
    } else {
        nothing()
    }
}

/// All values of an area, row by row.
pub open spec fn flat_rows(rows: Seq<Seq<Read>>) -> Seq<Read>
    decreases rows.len(),
{
    if rows.len() == 0 {
        Seq::empty()
    } else {
        flat_rows(rows.drop_last()) + rows.last()
    }
}

/// All values of an argument.
pub open spec fn all_of(g: Given) -> Seq<Read> {
    match g {
        Given::One(r) => seq![r],
        Given::Area(rows) => flat_rows(rows),
    }
}

/// All values of the argument at `i`; `missing` where it is not given.
pub open spec fn all_at(args: Seq<Given>, i: int, missing: Seq<Read>) -> Seq<Read> {
    if 0 <= i < args.len() {
        all_of(args[i])
    } else {
        missing
    }
}

/// All values of several arguments.
pub open spec fn everything(args: Seq<Given>) -> Seq<Read>
    decreases args.len(),
{
    if args.len() == 0 {
        Seq::empty()
    } else {
        everything(args.drop_last()) + all_of(args.last())
    }
}

/// An argument as a matrix, a single value being one of one row and one column.
pub open spec fn matrix(args: Seq<Given>, i: int) -> Seq<Seq<Read>> {
    if 0 <= i < args.len() {
        match args[i] {
            Given::One(r) => seq![seq![r]],
            Given::Area(rows) => rows,
        }
    } else {
        seq![seq![nothing()]]
    }
}

/// The value at a place of a matrix, if it is there.
pub open spec fn matrix_at(m: Seq<Seq<Read>>, i: int, j: int) -> Option<FValue> {
    if 0 <= i < m.len() && 0 <= j < m[i].len() {
        Some(m[i][j].value)
    } else {
        None
    }
}

/// The argument at `i` where one value is wanted.
pub fn arg_at(args: &Vec<Arg>, i: usize) -> (r: Reading)
    ensures
        r@ == nth(given(args@), i as int),
{
    if i >= args.len() {
        return Reading::nothing();
    }
    match &args[i] {
        Arg::One(r) => r.copied(),
        Arg::Area(rows) => {
            if rows.len() > 0 && rows[0].len() > 0 {
                rows[0][0].copied()
            } else {
                Reading::nothing()
            }
        },
    }
}

/// The argument at `i` as a number.
pub fn number_at(args: &Vec<Arg>, i: usize) -> (r: Result<Num, FormulaError>)
    ensures
        r == num(nth(given(args@), i as int)),
{
    arg_at(args, i).number()
}

/// The argument at `i` as a text.
pub fn text_at(args: &Vec<Arg>, i: usize) -> (r: Result<String, FormulaError>)
    ensures
        text_view(r) == txt(nth(given(args@), i as int)),
{
    arg_at(args, i).text()
}

/// The argument at `i` as a truth value.
pub fn truth_at(args: &Vec<Arg>, i: usize) -> (r: Result<bool, FormulaError>)
    ensures
        r == truth(nth(given(args@), i as int)),
{
    arg_at(args, i).truth()
}

/// The argument at `i` as a number, `default` where it is not given or blank.
pub open spec fn num_or(args: Seq<Given>, i: int, default: Num) -> Result<Num, FormulaError> {
    if blank(nth(args, i).value) {
        Ok(default)
    } else {
        num(nth(args, i))
    }
}

/// The argument at `i` as a number, `default` where it is not given or blank.
pub fn number_or(args: &Vec<Arg>, i: usize, default: Num) -> (r: Result<Num, FormulaError>)
    ensures
        r == num_or(given(args@), i as int, default),
{
    let a: Reading = arg_at(args, i);
    if a.value.is_blank() {
        Ok(default)
    } else {
        a.number()
    }
}

/// The argument at `i` as a truth value: `default` where it is not given, true where it is an
/// error.
pub open spec fn flag(args: Seq<Given>, i: int, default: bool) -> bool {
    if 0 <= i < args.len() {
        match truth(nth(args, i)) {
            Ok(b) => b,
            Err(_) => true,
        }
    } else {
        default
    }
}

/// The argument at `i` as a truth value: `default` where it is not given, true where it is an
/// error.
pub fn flag_at(args: &Vec<Arg>, i: usize, default: bool) -> (r: bool)
    ensures
        r == flag(given(args@), i as int, default),
{
    if i < args.len() {
        match truth_at(args, i) {
            Ok(b) => b,
            Err(_) => true,
        }
    } else {
        default
    }
}

fn push_all(arg: &Arg, out: &mut Vec<Reading>)
    ensures
        read_seq(final(out)@) == read_seq(old(out)@) + all_of(arg@),
{
    let ghost before = read_seq(out@);
    match arg {
        Arg::One(v) => {
            out.push(v.copied());
            assert(read_seq(out@) =~= before + seq![v@]);
        },
        Arg::Area(rows) => {
            let ghost all = read_rows(rows@);
            let mut i: usize = 0;
            assert(before + flat_rows(all.take(0)) =~= before);
            while i < rows.len()
                invariant
                    i <= rows.len(),
                    all == read_rows(rows@),
                    read_seq(out@) == before + flat_rows(all.take(i as int)),
                decreases rows.len() - i,
            {
                let ghost mid = read_seq(out@);
                let row: &Vec<Reading> = &rows[i];
                let mut j: usize = 0;
                while j < row.len()
                    invariant
                        j <= row.len(),
                        read_seq(out@) == mid + read_seq(row@).take(j as int),
                    decreases row.len() - j,
                {
                    let ghost o = read_seq(out@);
                    out.push(row[j].copied());
                    assert(read_seq(out@) =~= o.push(read_seq(row@)[j as int]));
                    assert(read_seq(row@).take(j + 1) =~= read_seq(row@).take(j as int).push(
                        read_seq(row@)[j as int],
                    ));
                    j = j + 1;
                }
                proof {
                    assert(read_seq(row@).take(j as int) =~= read_seq(row@));
                    assert(all.take(i + 1).drop_last() =~= all.take(i as int));
                    assert(all.take(i + 1).last() == read_seq(row@));
                }
                i = i + 1;
            }
            assert(all.take(i as int) =~= all);
        },
    }
}

/// All values of an argument.
pub fn all_values(arg: &Arg) -> (r: Vec<Reading>)
    ensures
        read_seq(r@) == all_of(arg@),
{
    let mut out: Vec<Reading> = Vec::new();
    push_all(arg, &mut out);
    assert(read_seq(out@) =~= all_of(arg@));
    out
}

/// All values of the argument at `i`, none where it is not given.
pub fn values_at(args: &Vec<Arg>, i: usize) -> (r: Vec<Reading>)
    ensures
        read_seq(r@) == all_at(given(args@), i as int, Seq::empty()),
{
    if i < args.len() {
        all_values(&args[i])
    } else {
        let r: Vec<Reading> = Vec::new();
        assert(read_seq(r@) =~= Seq::empty());
        r
    }
}

/// All values of the argument at `i`, one blank where it is not given.
pub fn values_or_blank(args: &Vec<Arg>, i: usize) -> (r: Vec<Reading>)
    ensures
        read_seq(r@) == all_at(given(args@), i as int, seq![nothing()]),
{
    if i < args.len() {
        all_values(&args[i])
    } else {
        let mut r: Vec<Reading> = Vec::new();
        r.push(Reading::nothing());
        assert(read_seq(r@) =~= seq![nothing()]);
        r
    }
}

/// The arguments from `from` on.
pub open spec fn given_from(args: Seq<Given>, from: int) -> Seq<Given> {
    if from <= args.len() {
        args.skip(from)
    } else {
        Seq::empty()
    }
}

/// All values of the arguments from `from` on.
pub fn values_from(args: &Vec<Arg>, from: usize) -> (r: Vec<Reading>)
    ensures
        read_seq(r@) == everything(given_from(given(args@), from as int)),
{
    let ghost all = given_from(given(args@), from as int);
    let mut out: Vec<Reading> = Vec::new();
    let mut i: usize = from;
    assert(read_seq(out@) =~= everything(all.take(0)));
    if from > args.len() {
        assert(all.take(0) =~= all);
        return out;
    }
    while i < args.len()
        invariant
            from <= i <= args.len(),
            all == given(args@).skip(from as int),
            read_seq(out@) == everything(all.take(i - from)),
        decreases args.len() - i,
    {
        push_all(&args[i], &mut out);
        assert(all.take(i + 1 - from).drop_last() =~= all.take(i - from));
        assert(all.take(i + 1 - from).last() == args@[i as int]@);
        i = i + 1;
    }
    assert(all.take(i - from) =~= all);
    out
}

/// A row's readings again.
pub fn copy_readings(row: &Vec<Reading>) -> (r: Vec<Reading>)
    ensures
        read_seq(r@) == read_seq(row@),
{
    let mut out: Vec<Reading> = Vec::new();
    let mut i: usize = 0;
    while i < row.len()
        invariant
            i <= row.len(),
            read_seq(out@) == read_seq(row@).take(i as int),
        decreases row.len() - i,
    {
        let ghost o = read_seq(out@);
        out.push(row[i].copied());
        assert(read_seq(out@) =~= o.push(read_seq(row@)[i as int]));
        assert(read_seq(row@).take(i + 1) =~= o.push(read_seq(row@)[i as int]));
        i = i + 1;
    }
    assert(read_seq(row@).take(i as int) =~= read_seq(row@));
    out
}

/// The argument at `i` as a matrix.
pub fn matrix_arg(args: &Vec<Arg>, i: usize) -> (r: Vec<Vec<Reading>>)
    ensures
        read_rows(r@) == matrix(given(args@), i as int),
{
    let mut out: Vec<Vec<Reading>> = Vec::new();
    if i < args.len() {
        if let Arg::Area(rows) = &args[i] {
            let ghost all = read_rows(rows@);
            let mut k: usize = 0;
            while k < rows.len()
                invariant
                    k <= rows.len(),
                    all == read_rows(rows@),
                    read_rows(out@) == all.take(k as int),
                decreases rows.len() - k,
            {
                let ghost o = read_rows(out@);
                out.push(copy_readings(&rows[k]));
                assert(read_rows(out@) =~= o.push(all[k as int]));
                assert(all.take(k + 1) =~= o.push(all[k as int]));
                k = k + 1;
            }
            assert(all.take(k as int) =~= all);
            return out;
        }
    }
    let mut row: Vec<Reading> = Vec::new();
    row.push(arg_at(args, i));
    let ghost one_row = row@;
    out.push(row);
    assert(read_seq(one_row) =~= seq![one_row[0]@]);
    assert(read_rows(out@) =~= seq![read_seq(one_row)]);
    out
}

/// Two to the `k`.
pub open spec fn two_to(k: int) -> int
    decreases k,
{
    if k <= 0 {
        1
    } else {
        2 * two_to(k - 1)
    }
}

/// The whole number nearest to a finite number on the way to zero.
pub open spec fn whole_part(n: Num) -> int {
    let m = n.magnitude();
    let e = m / 0x10_0000_0000_0000;
    let f = m % 0x10_0000_0000_0000;
    let s = if e == 0 {
        f
    } else {
        f + 0x10_0000_0000_0000
    };
    let size = if e >= 1075 {
        s * two_to(e - 1075)
    } else {
        s / two_to(1075 - e)
    };
    if n.bits >= crate::value::SIGN {
        -size
    } else {
        size
    }
}

/// The whole part, held within the range of 64-bit integers.
pub open spec fn truncated(n: Num) -> int {
    if whole_part(n) > i64::MAX {
        i64::MAX as int
    } else if whole_part(n) < i64::MIN {
        i64::MIN as int
    } else {
        whole_part(n)
    }
}

proof fn two_to_grows(a: int, b: int)
    requires
        a <= b,
    ensures
        1 <= two_to(a) <= two_to(b),
    decreases b,
{
    if b > 0 {
        if a < b {
            two_to_grows(a, b - 1);
        } else {
            two_to_grows(a - 1, b - 1);
        }
    }
}

fn power_of_two(k: u64) -> (r: u64)
    requires
        k <= 62,
    ensures
        r == two_to(k as int),
{
    let mut r: u64 = 1;
    let mut i: u64 = 0;
    while i < k
        invariant
            i <= k <= 62,
            r == two_to(i as int),
        decreases k - i,
    {
        proof {
            two_to_grows(i as int, 61);
            assert(two_to(61) == 0x2000_0000_0000_0000) by {
                reveal_with_fuel(two_to, 63);
            }
        }
        r = r * 2;
        i = i + 1;
    }
    r
}

/// The whole part of a finite number, held within the range of 64-bit integers.
pub fn whole(n: Num) -> (r: i64)
    requires
        n.finite(),
    ensures
        r == truncated(n),
{
    let negative: bool = n.bits >= crate::value::SIGN;
    let m: u64 = if negative {
        n.bits - crate::value::SIGN
    } else {
        n.bits
    };
    let e: u64 = m / 0x10_0000_0000_0000;
    let f: u64 = m % 0x10_0000_0000_0000;
    if e < 1023 {
        proof {
            two_to_grows(53, 1075 - e);
            assert(two_to(53) == 0x20_0000_0000_0000) by {
                reveal_with_fuel(two_to, 55);
            }
            let s = if e == 0 {
                f as int
            } else {
                f + 0x10_0000_0000_0000
            };
            let d = two_to(1075 - e);
            assert(s / d == 0) by (nonlinear_arith)
                requires
                    0 <= s < d,
            ;
        }
        return 0;
    }
    let s: u64 = f + 0x10_0000_0000_0000;
    if e >= 1086 {
        proof {
            two_to_grows(11, e - 1075);
            assert(two_to(11) == 2048) by {
                reveal_with_fuel(two_to, 13);
            }
            let d = two_to(e - 1075);
            assert(s * d >= 0x8000_0000_0000_0000) by (nonlinear_arith)
                requires
                    s >= 0x10_0000_0000_0000,
                    d >= 2048,
            ;
        }
        return if negative {
            i64::MIN
        } else {
            i64::MAX
        };
    }
    let size: u64 = if e >= 1075 {
        let p: u64 = power_of_two(e - 1075);
        proof {
            two_to_grows(e - 1075, 10);
            assert(two_to(10) == 1024) by {
                reveal_with_fuel(two_to, 12);
            }
            assert(s * p < 0x8000_0000_0000_0000) by (nonlinear_arith)
                requires
                    s < 0x20_0000_0000_0000,
                    p <= 1024,
            ;
        }
        s * p
    } else {
        let p: u64 = power_of_two(1075 - e);
        proof {
            two_to_grows(0, 1075 - e);
            assert(0 <= s as int / p as int <= s) by (nonlinear_arith)
                requires
                    p >= 1,
            ;
        }
        s / p
    };
    if negative {
        -(size as i64)
    } else {
        size as i64
    }
}

/// Whether a finite number is a whole one.
pub open spec fn integral(n: Num) -> bool {
    let m = n.magnitude();
    let e = m / 0x10_0000_0000_0000;
    let f = m % 0x10_0000_0000_0000;
    let s = if e == 0 {
        f
    } else {
        f + 0x10_0000_0000_0000
    };
    e >= 1075 || s % two_to(1075 - e) == 0
}

/// The largest whole number that is not above a finite number, held within the range of 64-bit
/// integers.
pub open spec fn floored(n: Num) -> int {
    if n.bits >= crate::value::SIGN && !integral(n) && truncated(n) > i64::MIN {
        truncated(n) - 1
    } else {
        truncated(n)
    }
}

/// The largest whole number that is not above a finite number, held within the range of 64-bit
/// integers.
pub fn floor_of(n: Num) -> (r: i64)
    requires
        n.finite(),
    ensures
        r == floored(n),
{
    let t: i64 = whole(n);
    if n.bits < crate::value::SIGN {
        return t;
    }
    let m: u64 = n.bits - crate::value::SIGN;
    let e: u64 = m / 0x10_0000_0000_0000;
    let f: u64 = m % 0x10_0000_0000_0000;
    let s: u64 = if e == 0 {
        f
    } else {
        f + 0x10_0000_0000_0000
    };
    let exact: bool = if e >= 1075 {
        true
    } else if e >= 1013 {
        let p: u64 = power_of_two(1075 - e);
        proof {
            two_to_grows(0, 1075 - e);
        }
        s % p == 0
    } else {
        proof {
            two_to_grows(62, 1075 - e);
            assert(two_to(62) == 0x4000_0000_0000_0000) by {
                reveal_with_fuel(two_to, 64);
            }
            let d = two_to(1075 - e);
            assert(s as int % d == s) by (nonlinear_arith)
                requires
                    0 <= s < d,
            ;
        }
        s == 0
    };
    if !exact && t > i64::MIN {
        t - 1
    } else {
        t
    }
}

/// Whether a number is the whole value `k`; 0 has no sign.
pub open spec fn is_whole(n: Num, k: int) -> bool {
    &&& n.finite()
    &&& integral(n)
    &&& whole_part(n) == k
    &&& k == 0 ==> n.bits == 0
}

/// The number of a whole value that a double holds exactly.
pub fn number_of_whole(k: u64) -> (r: Num)
    requires
        k < 0x20_0000_0000_0000,
    ensures
        is_whole(r, k as int),
{
    if k == 0 {
        proof {
            two_to_grows(0, 1075);
            assert(0int / two_to(1075) == 0 && 0int % two_to(1075) == 0) by (nonlinear_arith)
                requires
                    two_to(1075) >= 1,
            ;
        }
        return Num { bits: 0 };
    }
    let mut e: u64 = 0;
    let mut p: u64 = 1;
    assert(two_to(0) == 1);
    while p <= k / 2
        invariant
            0 < p <= k < 0x20_0000_0000_0000,
            e <= 52,
            p == two_to(e as int),
        decreases k - p,
    {
        proof {
            if e >= 52 {
                two_to_grows(52, e as int);
                assert(two_to(52) == 0x10_0000_0000_0000) by {
                    reveal_with_fuel(two_to, 54);
                }
            }
        }
        p = p * 2;
        e = e + 1;
    }
    let up: u64 = power_of_two(52 - e);
    proof {
        product_of_powers(e as int, 52 - e);
        two_to_grows(0, 52 - e);
        assert(two_to(52) == 0x10_0000_0000_0000) by {
            reveal_with_fuel(two_to, 54);
        }
        assert(p * up == 0x10_0000_0000_0000);
        assert(0x10_0000_0000_0000 <= k * up < 0x20_0000_0000_0000) by (nonlinear_arith)
            requires
                p * up == 0x10_0000_0000_0000,
                p <= k < 2 * p,
                up >= 1,
        ;
    }
    let s: u64 = k * up;
    let bits: u64 = (1023 + e) * 0x10_0000_0000_0000 + (s - 0x10_0000_0000_0000);
    let r: Num = Num { bits };
    proof {
        let m = r.magnitude();
        assert(m == (1023 + e) * 0x10_0000_0000_0000 + (s - 0x10_0000_0000_0000));
        assert(m / 0x10_0000_0000_0000 == 1023 + e);
        assert(m % 0x10_0000_0000_0000 == s - 0x10_0000_0000_0000);
        assert(r.bits < crate::value::SIGN && r.finite());
        if e < 52 {
            assert(1075 - (1023 + e) == 52 - e);
            assert(two_to(1075 - (1023 + e)) == up);
            assert(s as int / up as int == k && s as int % up as int == 0) by (nonlinear_arith)
                requires
                    s == k * up,
                    up >= 1,
            ;
        } else {
            assert(two_to(0) == 1);
            assert(up == 1);
        }
    }
    r
}

proof fn product_of_powers(a: int, b: int)
    requires
        a >= 0,
        b >= 0,
    ensures
        two_to(a) * two_to(b) == two_to(a + b),
    decreases b,
{
    if b > 0 {
        product_of_powers(a, b - 1);
        assert(two_to(a) * (2 * two_to(b - 1)) == 2 * (two_to(a) * two_to(b - 1))) by (nonlinear_arith);
    } else {
        assert(two_to(a) * 1 == two_to(a)) by (nonlinear_arith);
    }
}

/// What a function has to say: a value, a whole number, or floating-point work to be done on
/// some numbers.
#[derive(Debug)]
pub enum Reply {
    Value(FormulaValue),
    Int(i64),
    Compute(crate::kernel::Kernel, Vec<Num>, Vec<Num>),
    /// The value of the cell or range that a text refers to.
    Fetch(String),
    /// The number that a text reads as, a hundredth of it where the flag is set; `#VALUE!` where
    /// it reads as no finite number.
    Parse(String, bool),
    /// A value as text in a number format.
    Format(FormulaValue, String),
    /// The first whole number divided by the quotient of the other two.
    Ratio(i64, i64, i64),
    /// The text of a complex number that is computed from others, with a letter.
    Complex(crate::kernel::ComplexKernel, Vec<(Num, Num)>, char),
}

/// A reply as a mathematical value.
pub enum Said {
    Value(FValue),
    Int(int),
    Compute(crate::kernel::Kernel, Seq<Num>, Seq<Num>),
    Fetch(Seq<char>),
    Parse(Seq<char>, bool),
    Format(FValue, Seq<char>),
    Ratio(int, int, int),
    Complex(crate::kernel::ComplexKernel, Seq<(Num, Num)>, char),
}

/// A reply or none as a mathematical value.
pub open spec fn reply_view(r: Option<Reply>) -> Option<Said> {
    match r {
        Some(x) => Some(x@),
        None => None,
    }
}

impl View for Reply {
    type V = Said;

    open spec fn view(&self) -> Said {
        match self {
            Reply::Value(v) => Said::Value(v@),
            Reply::Int(i) => Said::Int(*i as int),
            Reply::Compute(k, a, b) => Said::Compute(*k, a@, b@),
            Reply::Fetch(s) => Said::Fetch(s@),
            Reply::Parse(s, b) => Said::Parse(s@, *b),
            Reply::Format(v, s) => Said::Format(v@, s@),
            Reply::Ratio(a, b, c) => Said::Ratio(*a as int, *b as int, *c as int),
            Reply::Complex(k, zs, letter) => Said::Complex(*k, zs@, *letter),
        }
    }
}

/// The reply that is an error.
pub open spec fn failed(e: FormulaError) -> Said {
    Said::Value(FValue::Error(e))
}

/// The reply that is a text.
pub open spec fn say(s: Seq<char>) -> Said {
    Said::Value(FValue::Text(s))
}

/// The reply that is a truth value.
pub open spec fn yes(b: bool) -> Said {
    Said::Value(FValue::Bool(b))
}

/// The reply that is a number.
pub open spec fn figure(n: Num) -> Said {
    Said::Value(FValue::Number(n))
}

/// Floating-point work on some numbers.
pub open spec fn work(k: crate::kernel::Kernel, ns: Seq<Num>) -> Said {
    Said::Compute(k, ns, Seq::empty())
}

/// The reply that is a count, held within the range of 64-bit integers.
pub open spec fn counted(n: int) -> Said {
    Said::Int(
        if n > i64::MAX {
            i64::MAX as int
        } else {
            n
        },
    )
}

impl Reply {
    pub fn count(n: usize) -> (r: Reply)
        ensures
            r@ == counted(n as int),
    {
        Reply::Int(
            if n as u64 <= i64::MAX as u64 {
                n as i64
            } else {
                i64::MAX
            },
        )
    }

    pub fn error(e: FormulaError) -> (r: Reply)
        ensures
            r@ == failed(e),
    {
        Reply::Value(FormulaValue::Error(e))
    }

    pub fn text(s: String) -> (r: Reply)
        ensures
            r@ == say(s@),
    {
        Reply::Value(FormulaValue::Text(s))
    }

    pub fn truth(b: bool) -> (r: Reply)
        ensures
            r@ == yes(b),
    {
        Reply::Value(FormulaValue::Bool(b))
    }

    pub fn number(n: Num) -> (r: Reply)
        ensures
            r@ == figure(n),
    {
        Reply::Value(FormulaValue::Number(n))
    }

    pub fn compute(k: crate::kernel::Kernel, ns: Vec<Num>) -> (r: Reply)
        ensures
            r@ == work(k, ns@),
    {
        let none: Vec<Num> = Vec::new();
        assert(none@ =~= Seq::empty());
        Reply::Compute(k, ns, none)
    }
}

} // verus!
