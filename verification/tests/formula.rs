//! Formulas, run with a host that does the floating-point work.
#![allow(dead_code)]
use cmx_sheet::address::{label_to_col, parse_addr};
use cmx_sheet::builtin::{find_builtin, Place};
use cmx_sheet::builtin_names::builtin_names;
use cmx_sheet::calling::{call_function, numeral_value, read_arg, read_one};
use cmx_sheet::calendar::date_to_serial as serial;
use cmx_sheet::complex_fn::complex_result;
use cmx_sheet::criteria::split_operator_db;
use cmx_sheet::custom_fn::ReportValueMap;
use cmx_sheet::engine::{
    get_cell_value, get_range_values, BookCell, BookSheet, CellContent,
    FormulaEngine as Planner, Seed,
};
use cmx_sheet::engineering_fn::Scale;
use cmx_sheet::evaluator::{
    as_matrix, first_error, flatten_arg, flatten_args, scalar_arg, split_top_range, EvaluatedArg, Query,
    Step,
};
use cmx_sheet::evaluator::{Evaluator as Machine, Reply as Answer};
use cmx_sheet::kernel::{ComplexKernel, ComplexResult, Kernel};
use cmx_sheet::parse::{parse_formula, AstNode};
use cmx_sheet::radix_fn::radix_string;
use cmx_sheet::reading::{Arg, Reading, Reply};
use cmx_sheet::recalc::{fetch, EvalContext as At, FunctionRegistry};
use cmx_sheet::snapshot::DefinedNameSnapshot;
use cmx_sheet::stat_fn::numeric_values;
use cmx_sheet::text_fn::fixed_text;
use cmx_sheet::value::{FormulaError, FormulaValue as Kept, Num};
use std::cell::RefCell;
use std::collections::{HashMap, HashSet};
use std::rc::Rc;
use std::time::{SystemTime, UNIX_EPOCH};

const PI: f64 = std::f64::consts::PI;

/// A formula's value, with its number as a floating-point number.
#[derive(Debug, Clone, PartialEq)]
enum FormulaValue {
    Number(f64),
    Text(String),
    Bool(bool),
    Error(FormulaError),
    Blank,
}

impl From<f64> for FormulaValue {
    fn from(v: f64) -> Self {
        FormulaValue::Number(v)
    }
}

impl From<i64> for FormulaValue {
    fn from(v: i64) -> Self {
        FormulaValue::Number(v as f64)
    }
}

impl From<bool> for FormulaValue {
    fn from(v: bool) -> Self {
        FormulaValue::Bool(v)
    }
}

impl From<&str> for FormulaValue {
    fn from(v: &str) -> Self {
        FormulaValue::Text(v.to_string())
    }
}

impl From<String> for FormulaValue {
    fn from(v: String) -> Self {
        FormulaValue::Text(v)
    }
}

impl From<FormulaError> for FormulaValue {
    fn from(e: FormulaError) -> Self {
        FormulaValue::Error(e)
    }
}

fn num(x: f64) -> Num {
    Num { bits: x.to_bits() }
}

fn float(n: Num) -> f64 {
    f64::from_bits(n.bits)
}

fn to_kept(v: &FormulaValue) -> Kept {
    match v {
        FormulaValue::Number(x) => Kept::Number(num(*x)),
        FormulaValue::Text(s) => Kept::Text(s.clone()),
        FormulaValue::Bool(b) => Kept::Bool(*b),
        FormulaValue::Error(e) => Kept::Error(*e),
        FormulaValue::Blank => Kept::Blank,
    }
}

fn from_kept(v: &Kept) -> FormulaValue {
    match v {
        Kept::Number(n) => FormulaValue::Number(float(*n)),
        Kept::Text(s) => FormulaValue::Text(s.clone()),
        Kept::Bool(b) => FormulaValue::Bool(*b),
        Kept::Error(e) => FormulaValue::Error(*e),
        Kept::Blank => FormulaValue::Blank,
    }
}

/// A number in its shortest form, with an exponent where it is very large or small.
fn num_to_string(x: f64) -> String {
    if x == 0.0 {
        return "0".to_string();
    }
    if (1e-6..1e21).contains(&x.abs()) {
        return format!("{x}");
    }
    let s = format!("{x:e}");
    match s.find('e') {
        Some(p) if !s[p + 1..].starts_with('-') => format!("{}e+{}", &s[..p], &s[p + 1..]),
        _ => s,
    }
}

/// A number as text, with at most 15 significant digits.
fn number_to_text(n: f64) -> String {
    if n.is_nan() {
        return "NaN".to_string();
    }
    if n.is_infinite() {
        return if n > 0.0 { "Infinity" } else { "-Infinity" }.to_string();
    }
    if n == n.trunc() && n.abs() < 1e21 {
        return num_to_string(n);
    }
    num_to_string(format!("{n:.14e}").parse().unwrap_or(n))
}

/// The number that a text reads as.
fn parse_number(s: &str) -> Option<f64> {
    let t = s.trim();
    match t {
        "Infinity" | "+Infinity" => Some(f64::INFINITY),
        "-Infinity" => Some(f64::NEG_INFINITY),
        _ => t.parse::<f64>().ok(),
    }
}

fn parsed(v: &Kept) -> Option<Num> {
    match v {
        Kept::Text(s) => parse_number(s).map(num),
        _ => None,
    }
}

fn shown(v: &Kept) -> String {
    match v {
        Kept::Number(n) => number_to_text(float(*n)),
        _ => String::new(),
    }
}

fn numeral(t: String) -> Option<Num> {
    t.parse::<f64>().ok().map(num)
}

fn shortest(n: Num) -> String {
    number_to_text(float(n))
}

fn reading(v: &Kept) -> Reading {
    read_one(v, &numeral, &shortest)
}

fn argument(a: &EvaluatedArg) -> Arg {
    read_arg(a, &numeral, &shortest)
}

/// The cells that formulas read.
trait CellAccessor {
    fn get_cell_value(&self, reference: &str) -> FormulaValue;
    fn get_range_values(&self, start: &str, end: &str) -> Vec<Vec<FormulaValue>>;
    /// The value of a reference that a function makes as a text.
    fn fetch(&self, reference: &str) -> FormulaValue {
        let Some((a, b)) = split_top_range(reference) else {
            return self.get_cell_value(reference);
        };
        let rows = self.get_range_values(&a, &b);
        let kept = rows.iter().map(|row| row.iter().map(to_kept).collect()).collect();
        from_kept(&scalar_arg(Some(&EvaluatedArg::Range(kept))))
    }
    fn resolve_name(&self, _name: &str) -> Option<FormulaValue> {
        None
    }
    fn resolve_name_ref(&self, _name: &str) -> Option<String> {
        None
    }
}

/// Where a formula stands, and what it reads.
struct EvalContext<'a> {
    accessor: &'a dyn CellAccessor,
    row: u32,
    col: u32,
    sheet_name: &'a str,
    /// The seconds since 1970, the same for all formulas of a round.
    seconds: u64,
}

/// The seconds since 1970.
fn seconds_now() -> u64 {
    SystemTime::now().duration_since(UNIX_EPOCH).map(|d| d.as_secs()).unwrap_or(0)
}

type FunctionImpl = Rc<dyn Fn(&[EvaluatedArg], &EvalContext) -> FormulaValue>;

/// The functions that formulas may call: the built-in ones and those that were registered.
#[derive(Default)]
struct BuiltinRegistry {
    added: HashMap<String, FunctionImpl>,
    volatiles: HashSet<String>,
}

impl BuiltinRegistry {
    fn new() -> Self {
        BuiltinRegistry::default()
    }

    fn register(&mut self, name: &str, imp: FunctionImpl, volatile: bool) {
        let key = name.to_uppercase();
        if volatile {
            self.volatiles.insert(key.clone());
        }
        self.added.insert(key, imp);
    }

    fn is_volatile(&self, name: &str) -> bool {
        self.volatiles.contains(&name.to_uppercase())
    }

    fn volatile_names(&self) -> Vec<String> {
        self.volatiles.iter().cloned().collect()
    }

    /// The names of all functions.
    fn names(&self) -> Vec<String> {
        let mut all: Vec<String> = builtin_names();
        for n in self.added.keys() {
            if !all.contains(n) {
                all.push(n.clone());
            }
        }
        all
    }

    fn known(&self, name: &str) -> bool {
        let key = name.to_uppercase();
        self.added.contains_key(&key) || find_builtin(&key).is_some()
    }

    fn call(&self, name: &str, args: &Vec<EvaluatedArg>, ctx: &EvalContext) -> FormulaValue {
        if let Some(f) = self.added.get(&name.to_uppercase()) {
            return f(args, ctx);
        }
        let place = Place { row: ctx.row, col: ctx.col, seconds: ctx.seconds };
        match call_function(name, args, place, &numeral, &shortest) {
            Some(Some(reply)) => finish(reply, ctx),
            Some(None) => panic!("{name}: out of range"),
            None => FormulaValue::Error(FormulaError::Name),
        }
    }

    /// The answer to a question of a formula.
    fn answer(&self, q: Query, ctx: &EvalContext) -> Answer {
        match q {
            Query::Literal(t) => Answer::Parsed(parse_number(&t).map(num)),
            Query::Cell(r) => Answer::Value(to_kept(&ctx.accessor.get_cell_value(&r))),
            Query::Range(a, b) => Answer::Rows(
                ctx.accessor
                    .get_range_values(&a, &b)
                    .iter()
                    .map(|row| row.iter().map(to_kept).collect())
                    .collect(),
            ),
            Query::NameRef(n) => Answer::Reference(ctx.accessor.resolve_name_ref(&n)),
            Query::NameValue(n) => {
                Answer::Named(ctx.accessor.resolve_name(&n).as_ref().map(to_kept))
            }
            Query::Known(n) => Answer::Truth(self.known(&n)),
            Query::Call(n, args) => Answer::Value(to_kept(&self.call(&n, &args, ctx))),
            Query::Numbers(a, b) => Answer::Numbers(parsed(&a), parsed(&b)),
            Query::Shown(a, b) => Answer::Shown(shown(&a), shown(&b)),
            Query::Arith1(op, x) => {
                let x = float(x);
                Answer::Number(num(if op == "%" { x / 100.0 } else { -x }))
            }
            Query::Arith2(op, a, b) => {
                let (a, b) = (float(a), float(b));
                Answer::Number(num(match op.as_str() {
                    "+" => a + b,
                    "-" => a - b,
                    "*" => a * b,
                    "/" => a / b,
                    _ => a.powf(b),
                }))
            }
        }
    }
}

/// Does what a function's reply asks for.
fn finish(reply: Reply, ctx: &EvalContext) -> FormulaValue {
    match reply {
        Reply::Value(v) => from_kept(&v),
        Reply::Int(i) => FormulaValue::Number(i as f64),
        Reply::Ratio(a, b, c) => FormulaValue::Number(a as f64 / (b as f64 / c as f64)),
        Reply::Compute(k, a, b) => {
            let xs: Vec<f64> = a.iter().map(|n| float(*n)).collect();
            let ys: Vec<f64> = b.iter().map(|n| float(*n)).collect();
            if let Some(t) = compute_text(k, xs.first().copied().unwrap_or(0.0)) {
                return FormulaValue::Text(t);
            }
            match compute(k, &xs, &ys) {
                Ok(x) => FormulaValue::Number(x),
                Err(e) => FormulaValue::Error(e),
            }
        }
        Reply::Fetch(r) => ctx.accessor.fetch(&r),
        Reply::Parse(t, percent) => {
            let x = t.parse::<f64>().ok().map(|x| if percent { x / 100.0 } else { x });
            from_kept(&numeral_value(x.map(num)))
        }
        Reply::Format(v, code) => FormulaValue::Text(format_with(&from_kept(&v), &code)),
        Reply::Complex(k, zs, letter) => {
            let pairs: Vec<(f64, f64)> = zs.iter().map(|z| (float(z.0), float(z.1))).collect();
            let (re, im, divisor) = compute_complex(k, &pairs);
            let got = ComplexResult { re: num(re), im: num(im), divisor: num(divisor) };
            let (a, b) = (num_to_string(re), num_to_string(im));
            from_kept(&complex_result(got, &a, &b, letter))
        }
    }
}

/// A value in a number format: digits behind the point, groups of three and a percent sign.
fn format_with(v: &FormulaValue, code: &str) -> String {
    let x = match v {
        FormulaValue::Number(x) => *x,
        FormulaValue::Text(s) => return s.clone(),
        FormulaValue::Bool(b) => return if *b { "TRUE" } else { "FALSE" }.to_string(),
        FormulaValue::Error(e) => return e.as_str().to_string(),
        FormulaValue::Blank => return String::new(),
    };
    if code.is_empty() || code == "General" {
        return number_to_text(x);
    }
    let percent = code.ends_with('%');
    let scaled = if percent { x * 100.0 } else { x };
    let body = code.trim_end_matches('%');
    let places = body.find('.').map(|i| body.len() - i - 1).unwrap_or(0);
    let digits = format!("{:.1$}", scaled.abs(), places);
    let text = fixed_text(&digits, scaled < 0.0, body.contains(','));
    if percent {
        format!("{text}%")
    } else {
        text
    }
}

/// Runs formulas.
struct Evaluator<'r> {
    registry: &'r BuiltinRegistry,
}

impl<'r> Evaluator<'r> {
    fn new(registry: &'r BuiltinRegistry) -> Self {
        Evaluator { registry }
    }

    fn evaluate(&self, node: &AstNode, ctx: &EvalContext) -> FormulaValue {
        let mut machine = Machine::new(node);
        let mut step = machine.start();
        loop {
            match step {
                Step::Done(v) => return from_kept(&scalar_arg(Some(&v))),
                Step::Ask(q) => step = machine.resume(self.registry.answer(q, ctx)),
            }
        }
    }
}

// ---- floating-point work

/// Complex numbers are pairs of numbers; a third one is what was divided by.
fn compute_complex(k: ComplexKernel, zs: &[(f64, f64)]) -> (f64, f64, f64) {
    let z = zs.first().copied().unwrap_or((0.0, 0.0));
    let w = zs.get(1).copied().unwrap_or((0.0, 0.0));
    let (re, im) = z;
    let (size, angle) = (re.hypot(im), im.atan2(re));
    let sin = (re.sin() * im.cosh(), re.cos() * im.sinh());
    let cos = (re.cos() * im.cosh(), -re.sin() * im.sinh());
    let sinh = (re.sinh() * im.cos(), re.cosh() * im.sin());
    let cosh = (re.cosh() * im.cos(), re.sinh() * im.sin());
    let whole = |p: (f64, f64)| (p.0, p.1, 1.0);
    let over = |a: (f64, f64), b: (f64, f64)| {
        let d = b.0 * b.0 + b.1 * b.1;
        ((a.0 * b.0 + a.1 * b.1) / d, (a.1 * b.0 - a.0 * b.1) / d, d)
    };
    let one_over = |b: (f64, f64)| {
        let d = b.0 * b.0 + b.1 * b.1;
        (b.0 / d, -b.1 / d, d)
    };
    let fold = |f: fn((f64, f64), (f64, f64)) -> (f64, f64)| {
        whole(zs.iter().skip(1).fold(z, |a, b| f(a, *b)))
    };
    match k {
        ComplexKernel::Itself => whole(z),
        ComplexKernel::Sum => fold(|a, b| (a.0 + b.0, a.1 + b.1)),
        ComplexKernel::Product => fold(|a, b| (a.0 * b.0 - a.1 * b.1, a.0 * b.1 + a.1 * b.0)),
        ComplexKernel::Difference => whole((re - w.0, im - w.1)),
        ComplexKernel::Quotient => over(z, w),
        ComplexKernel::Power => {
            let (r, a) = (size.powf(w.0), angle * w.0);
            whole((r * a.cos(), r * a.sin()))
        }
        ComplexKernel::Exp => whole((re.exp() * im.cos(), re.exp() * im.sin())),
        ComplexKernel::Ln => whole((size.ln(), angle)),
        ComplexKernel::Log10 => whole((size.log10(), angle / std::f64::consts::LN_10)),
        ComplexKernel::Log2 => whole((size.log2(), angle / std::f64::consts::LN_2)),
        ComplexKernel::Sqrt => {
            let (r, a) = (size.sqrt(), angle / 2.0);
            whole((r * a.cos(), r * a.sin()))
        }
        ComplexKernel::Sin => whole(sin),
        ComplexKernel::Cos => whole(cos),
        ComplexKernel::Tan => over(sin, cos),
        ComplexKernel::Sinh => whole(sinh),
        ComplexKernel::Cosh => whole(cosh),
        ComplexKernel::Sec => one_over(cos),
        ComplexKernel::Csc => one_over(sin),
        ComplexKernel::Cot => {
            let t = over(sin, cos);
            if t.2 == 0.0 {
                t
            } else {
                one_over((t.0, t.1))
            }
        }
        ComplexKernel::Sech => one_over(cosh),
        ComplexKernel::Csch => one_over(sinh),
    }
}

fn factorial(n: f64) -> Result<f64, FormulaError> {
    let n = n.trunc() as i64;
    if n < 0 {
        return Err(FormulaError::Num);
    }
    let mut r = 1.0f64;
    let mut i = 2i64;
    while i <= n {
        r *= i as f64;
        if !r.is_finite() {
            return Err(FormulaError::Num);
        }
        i += 1;
    }
    Ok(r)
}

fn fact_double(n: f64) -> Result<f64, FormulaError> {
    let n = n.trunc() as i64;
    if n < -1 {
        return Err(FormulaError::Num);
    }
    let mut r = 1.0f64;
    let mut i = n;
    while i > 1 {
        r *= i as f64;
        if !r.is_finite() {
            return Err(FormulaError::Num);
        }
        i -= 2;
    }
    Ok(r)
}

fn combin(n: f64, k: f64) -> Result<f64, FormulaError> {
    let n = n.trunc() as i64;
    let mut k = k.trunc() as i64;
    if n < 0 || k < 0 || k > n {
        return Err(FormulaError::Num);
    }
    k = k.min(n - k);
    let mut r = 1.0f64;
    for i in 1..=k {
        r = r * (n - k + i) as f64 / i as f64;
        if !r.is_finite() {
            return Err(FormulaError::Num);
        }
    }
    Ok(r.round())
}

fn permut(n: f64, k: f64) -> Result<f64, FormulaError> {
    let n = n.trunc() as i64;
    let k = k.trunc() as i64;
    if n < 0 || k < 0 || k > n {
        return Err(FormulaError::Num);
    }
    let mut r = 1.0f64;
    for i in 0..k {
        r *= (n - i) as f64;
        if !r.is_finite() {
            return Err(FormulaError::Num);
        }
    }
    Ok(r)
}

fn pow1p(rate: f64, n: f64) -> f64 {
    (1.0 + rate).powf(n)
}

fn fv_of(rate: f64, nper: f64, pmt: f64, pv: f64, type_: f64) -> f64 {
    if rate == 0.0 {
        return -(pv + pmt * nper);
    }
    let f = pow1p(rate, nper);
    -(pv * f + pmt * (1.0 + rate * type_) * (f - 1.0) / rate)
}

fn pmt_of(rate: f64, nper: f64, pv: f64, fv: f64, type_: f64) -> f64 {
    if nper == 0.0 {
        return f64::NAN;
    }
    if rate == 0.0 {
        return -(pv + fv) / nper;
    }
    let f = pow1p(rate, nper);
    -(pv * f + fv) * rate / ((1.0 + rate * type_) * (f - 1.0))
}

fn pv_of(rate: f64, nper: f64, pmt: f64, fv: f64, type_: f64) -> f64 {
    if rate == 0.0 {
        return -(fv + pmt * nper);
    }
    let f = pow1p(rate, nper);
    -(fv + pmt * (1.0 + rate * type_) * (f - 1.0) / rate) / f
}

fn nper_of(rate: f64, pmt: f64, pv: f64, fv: f64, type_: f64) -> f64 {
    if rate == 0.0 {
        if pmt == 0.0 {
            return f64::NAN;
        }
        return -(pv + fv) / pmt;
    }
    let t = pmt * (1.0 + rate * type_) / rate;
    let num = t - fv;
    let den = pv + t;
    if den == 0.0 || num / den <= 0.0 {
        return f64::NAN;
    }
    (num / den).ln() / (1.0 + rate).ln()
}

fn ipmt_of(
    rate: f64,
    per: f64,
    nper: f64,
    pv: f64,
    fv: f64,
    type_: f64,
) -> Result<f64, FormulaError> {
    if per < 1.0 || per > nper {
        return Err(FormulaError::Num);
    }
    let pmt = pmt_of(rate, nper, pv, fv, type_);
    let ip = if type_ == 0.0 {
        let bal = fv_of(rate, per - 1.0, pmt, pv, 0.0);
        bal * rate
    } else if per == 1.0 {
        0.0
    } else {
        let bal = fv_of(rate, per - 2.0, pmt, pv, 1.0);
        bal * rate
    };
    Ok(ip)
}

fn solve_rate(f: impl Fn(f64) -> f64, guess: f64) -> f64 {
    let mut r = guess;
    for _ in 0..80 {
        let y = f(r);
        if !y.is_finite() {
            break;
        }
        if y.abs() < 1e-9 {
            return r;
        }
        let dr = 1e-6;
        let dy = (f(r + dr) - y) / dr;
        if !dy.is_finite() || dy == 0.0 {
            break;
        }
        let next = r - y / dy;
        if !next.is_finite() {
            break;
        }
        if (next - r).abs() < 1e-9 {
            return next;
        }
        r = next;
    }
    let mut lo = -0.999999f64;
    let mut hi = 10.0f64;
    let mut flo = f(lo);
    for _ in 0..200 {
        let mid = (lo + hi) / 2.0;
        let fm = f(mid);
        if !fm.is_finite() {
            return f64::NAN;
        }
        if fm.abs() < 1e-9 {
            return mid;
        }
        if (flo < 0.0) != (fm < 0.0) {
            hi = mid;
        } else {
            lo = mid;
            flo = fm;
        }
    }
    f64::NAN
}

fn npv_at(rate: f64, flows: &[f64]) -> f64 {
    let mut sum = 0.0;
    for (i, cf) in flows.iter().enumerate() {
        sum += cf / (1.0 + rate).powi(i as i32 + 1);
    }
    sum
}

fn xnpv_at(rate: f64, flows: &[f64], dates: &[f64]) -> f64 {
    let d0 = dates[0];
    let mut sum = 0.0;
    for i in 0..flows.len() {
        sum += flows[i] / (1.0 + rate).powf((dates[i] - d0) / 365.0);
    }
    sum
}

fn norm_pdf(x: f64, mu: f64, sigma: f64) -> f64 {
    (-((x - mu).powi(2)) / (2.0 * sigma * sigma)).exp() / (sigma * (2.0 * PI).sqrt())
}

fn norm_s_cdf(z: f64) -> f64 {
    let t = 1.0 / (1.0 + 0.2316419 * z.abs());
    let d = 0.398_942_280_401_432_7 * (-z * z / 2.0).exp();
    let p = d
        * t
        * (0.319_381_53
            + t * (-0.356_563_782
                + t * (1.781_477_937 + t * (-1.821_255_978 + t * 1.330_274_429))));
    if z >= 0.0 {
        1.0 - p
    } else {
        p
    }
}

fn norm_s_inv(p: f64) -> Result<f64, FormulaError> {
    if p <= 0.0 || p >= 1.0 {
        return Err(FormulaError::Num);
    }
    let a = [
        -3.969_683_028_665_376e1,
        2.209_460_984_245_205e2,
        -2.759_285_104_469_687e2,
        1.383_577_518_672_69e2,
        -3.066_479_806_614_716e1,
        2.506_628_277_459_239e0,
    ];
    let b = [
        -5.447_609_879_822_406e1,
        1.615_858_368_580_409e2,
        -1.556_989_798_598_866e2,
        6.680_131_188_771_972e1,
        -1.328_068_155_288_572e1,
    ];
    let c = [
        -7.784_894_002_430_293e-3,
        -3.223_964_580_411_365e-1,
        -2.400_758_277_161_838e0,
        -2.549_732_539_343_734e0,
        4.374_664_141_464_968e0,
        2.938_163_982_698_783e0,
    ];
    let d = [
        7.784_695_709_041_462e-3,
        3.224_671_290_700_398e-1,
        2.445_134_137_142_996e0,
        3.754_408_661_907_416e0,
    ];
    let plow = 0.02425;
    let phigh = 1.0 - plow;
    let x = if p < plow {
        let q = (-2.0 * p.ln()).sqrt();
        (((((c[0] * q + c[1]) * q + c[2]) * q + c[3]) * q + c[4]) * q + c[5])
            / ((((d[0] * q + d[1]) * q + d[2]) * q + d[3]) * q + 1.0)
    } else if p <= phigh {
        let q = p - 0.5;
        let r = q * q;
        (((((a[0] * r + a[1]) * r + a[2]) * r + a[3]) * r + a[4]) * r + a[5]) * q
            / (((((b[0] * r + b[1]) * r + b[2]) * r + b[3]) * r + b[4]) * r + 1.0)
    } else {
        let q = (-2.0 * (1.0 - p).ln()).sqrt();
        -(((((c[0] * q + c[1]) * q + c[2]) * q + c[3]) * q + c[4]) * q + c[5])
            / ((((d[0] * q + d[1]) * q + d[2]) * q + d[3]) * q + 1.0)
    };
    Ok(x)
}

fn percentile_inc(sorted: &[f64], p: f64) -> f64 {
    let rank = p * (sorted.len() - 1) as f64;
    let lo = rank.floor() as usize;
    let hi = rank.ceil() as usize;
    if lo == hi {
        sorted[lo]
    } else {
        sorted[lo] + (rank - lo as f64) * (sorted[hi] - sorted[lo])
    }
}

fn percentile_exc(sorted: &[f64], p: f64) -> Result<f64, FormulaError> {
    let n = sorted.len();
    let rank = p * (n + 1) as f64 - 1.0;
    if rank < 0.0 || rank > (n - 1) as f64 {
        return Err(FormulaError::Num);
    }
    let lo = rank.floor() as usize;
    let hi = rank.ceil() as usize;
    if lo == hi {
        Ok(sorted[lo])
    } else {
        Ok(sorted[lo] + (rank - lo as f64) * (sorted[hi] - sorted[lo]))
    }
}

fn sample_var_raw(ns: &[f64]) -> f64 {
    let n = ns.len();
    let m = mean(ns);
    ns.iter().map(|x| (x - m) * (x - m)).sum::<f64>() / (n - 1) as f64
}

fn pop_var_raw(ns: &[f64]) -> f64 {
    let n = ns.len();
    let m = mean(ns);
    ns.iter().map(|x| (x - m) * (x - m)).sum::<f64>() / n as f64
}

fn mean(ns: &[f64]) -> f64 {
    ns.iter().sum::<f64>() / ns.len() as f64
}

fn erf(x: f64) -> f64 {
    let sign = if x < 0.0 { -1.0 } else { 1.0 };
    let ax = x.abs();
    let t = 1.0 / (1.0 + 0.3275911 * ax);
    let y = 1.0
        - (((((1.061405429 * t - 1.453152027) * t) + 1.421413741) * t - 0.284496736) * t
            + 0.254829592)
            * t
            * (-ax * ax).exp();
    sign * y
}

fn erfc(x: f64) -> f64 {
    1.0 - erf(x)
}

fn bessel_j0(x: f64) -> f64 {
    let ax = x.abs();
    if ax < 8.0 {
        let y = x * x;
        let p1 = 57568490574.0
            + y * (-13362590354.0
                + y * (651619640.7 + y * (-11214424.18 + y * (77392.33017 + y * -184.9052456))));
        let p2 = 57568490411.0
            + y * (1029532985.0 + y * (9494680.718 + y * (59272.64853 + y * (267.8532712 + y))));
        p1 / p2
    } else {
        let z = 8.0 / ax;
        let y = z * z;
        let xx = ax - 0.785398164;
        let p1 = 1.0
            + y * (-0.1098628627e-2
                + y * (0.2734510407e-4 + y * (-0.2073370639e-5 + y * 0.2093887211e-6)));
        let p2 = -0.1562499995e-1
            + y * (0.1430488765e-3
                + y * (-0.6911147651e-5 + y * (0.7621095161e-6 + y * (-0.934935152e-7))));
        (0.636619772 / ax).sqrt() * (xx.cos() * p1 - z * xx.sin() * p2)
    }
}

fn bessel_j1(x: f64) -> f64 {
    let ax = x.abs();
    if ax < 8.0 {
        let y = x * x;
        let p1 = x
            * (72362614232.0
                + y * (-7895059235.0
                    + y * (242396853.1
                        + y * (-2972611.439 + y * (15704.48260 + y * (-30.16036606))))));
        let p2 = 144725228442.0
            + y * (2300535178.0 + y * (18583304.74 + y * (99447.43394 + y * (376.9991397 + y))));
        p1 / p2
    } else {
        let z = 8.0 / ax;
        let y = z * z;
        let xx = ax - 2.356194491;
        let p1 = 1.0
            + y * (0.183105e-2
                + y * (-0.3516396496e-4 + y * (0.2457520174e-5 + y * (-0.240337019e-6))));
        let p2 = 0.04687499995
            + y * (-0.2002690873e-3
                + y * (0.8449199096e-5 + y * (-0.88228987e-6 + y * 0.105787412e-6)));
        let ans = (0.636619772 / ax).sqrt() * (xx.cos() * p1 - z * xx.sin() * p2);
        if x < 0.0 {
            -ans
        } else {
            ans
        }
    }
}

fn bessel_jn(n: f64, x: f64) -> Result<f64, FormulaError> {
    let n = n.trunc() as i64;
    if n < 0 {
        return Err(FormulaError::Num);
    }
    if n == 0 {
        return Ok(bessel_j0(x));
    }
    if n == 1 {
        return Ok(bessel_j1(x));
    }
    if x == 0.0 {
        return Ok(0.0);
    }
    let ax = x.abs();
    let mut ans;
    if ax > n as f64 {
        let tox = 2.0 / ax;
        let mut bjm = bessel_j0(ax);
        let mut bj = bessel_j1(ax);
        for j in 1..n {
            let bjp = j as f64 * tox * bj - bjm;
            bjm = bj;
            bj = bjp;
        }
        ans = bj;
    } else {
        let tox = 2.0 / ax;
        let m = 2 * ((n as f64 + (40.0 * n as f64).sqrt()).floor() as i64 / 2);
        let mut jsum = false;
        let mut bjp = 0.0;
        let mut bj = 1.0;
        let mut sum = 0.0;
        ans = 0.0;
        for j in (1..=m).rev() {
            let bjm = j as f64 * tox * bj - bjp;
            bjp = bj;
            bj = bjm;
            if bj.abs() > 1e10 {
                bj *= 1e-10;
                bjp *= 1e-10;
                ans *= 1e-10;
                sum *= 1e-10;
            }
            if jsum {
                sum += bj;
            }
            jsum = !jsum;
            if j == n {
                ans = bjp;
            }
        }
        sum = 2.0 * sum - bj;
        ans /= sum;
    }
    Ok(if x < 0.0 && n % 2 == 1 { -ans } else { ans })
}

fn bessel_y0(x: f64) -> f64 {
    if x < 8.0 {
        let y = x * x;
        let p1 = -2957821389.0
            + y * (7062834065.0
                + y * (-512359803.6 + y * (10879881.29 + y * (-86327.92757 + y * 228.4622733))));
        let p2 = 40076544269.0
            + y * (745249964.8 + y * (7189466.438 + y * (47447.26470 + y * (226.1030244 + y))));
        p1 / p2 + 0.636619772 * bessel_j0(x) * x.ln()
    } else {
        let z = 8.0 / x;
        let y = z * z;
        let xx = x - 0.785398164;
        let p1 = 1.0
            + y * (-0.1098628627e-2
                + y * (0.2734510407e-4 + y * (-0.2073370639e-5 + y * 0.2093887211e-6)));
        let p2 = -0.1562499995e-1
            + y * (0.1430488765e-3
                + y * (-0.6911147651e-5 + y * (0.7621095161e-6 + y * (-0.934935152e-7))));
        (0.636619772 / x).sqrt() * (xx.sin() * p1 + z * xx.cos() * p2)
    }
}

fn bessel_y1(x: f64) -> f64 {
    if x < 8.0 {
        let y = x * x;
        let p1 = x
            * (-4.900604943e13
                + y * (1.275274390e13
                    + y * (-5.153438139e11
                        + y * (7.349264551e9 + y * (-4.237922726e7 + y * 8.511937935e4)))));
        let p2 = 2.499580570e14
            + y * (4.244419664e12
                + y * (3.733650367e10
                    + y * (2.245904002e8 + y * (1.020426050e6 + y * (3.549632885e3 + y)))));
        p1 / p2 + 0.636619772 * (bessel_j1(x) * x.ln() - 1.0 / x)
    } else {
        let z = 8.0 / x;
        let y = z * z;
        let xx = x - 2.356194491;
        let p1 = 1.0
            + y * (0.183105e-2
                + y * (-0.3516396496e-4 + y * (0.2457520174e-5 + y * (-0.240337019e-6))));
        let p2 = 0.04687499995
            + y * (-0.2002690873e-3
                + y * (0.8449199096e-5 + y * (-0.88228987e-6 + y * 0.105787412e-6)));
        (0.636619772 / x).sqrt() * (xx.sin() * p1 + z * xx.cos() * p2)
    }
}

fn bessel_yn(n: f64, x: f64) -> Result<f64, FormulaError> {
    let n = n.trunc() as i64;
    if n < 0 || x <= 0.0 {
        return Err(FormulaError::Num);
    }
    if n == 0 {
        return Ok(bessel_y0(x));
    }
    if n == 1 {
        return Ok(bessel_y1(x));
    }
    let tox = 2.0 / x;
    let mut by = bessel_y1(x);
    let mut bym = bessel_y0(x);
    for j in 1..n {
        let byp = j as f64 * tox * by - bym;
        bym = by;
        by = byp;
    }
    Ok(by)
}

fn bessel_i0(x: f64) -> f64 {
    let ax = x.abs();
    if ax < 3.75 {
        let y = (x / 3.75).powi(2);
        1.0 + y
            * (3.5156229
                + y * (3.0899424
                    + y * (1.2067492 + y * (0.2659732 + y * (0.360768e-1 + y * 0.45813e-2)))))
    } else {
        let y = 3.75 / ax;
        (ax.exp() / ax.sqrt())
            * (0.39894228
                + y * (0.1328592e-1
                    + y * (0.225319e-2
                        + y * (-0.157565e-2
                            + y * (0.916281e-2
                                + y * (-0.2057706e-1
                                    + y * (0.2635537e-1
                                        + y * (-0.1647633e-1 + y * 0.392377e-2))))))))
    }
}

fn bessel_i1(x: f64) -> f64 {
    let ax = x.abs();
    let ans = if ax < 3.75 {
        let y = (x / 3.75).powi(2);
        ax * (0.5
            + y * (0.87890594
                + y * (0.51498869
                    + y * (0.15084934 + y * (0.2658733e-1 + y * (0.301532e-2 + y * 0.32411e-3))))))
    } else {
        let y = 3.75 / ax;
        let p = 0.2282967e-1 + y * (-0.2895312e-1 + y * (0.1787654e-1 - y * 0.420059e-2));
        let q = 0.39894228
            + y * (-0.3988024e-1
                + y * (-0.362018e-2 + y * (0.163801e-2 + y * (-0.1031555e-1 + y * p))));
        (ax.exp() / ax.sqrt()) * q
    };
    if x < 0.0 {
        -ans
    } else {
        ans
    }
}

fn bessel_in(n: f64, x: f64) -> Result<f64, FormulaError> {
    let n = n.trunc() as i64;
    if n < 0 {
        return Err(FormulaError::Num);
    }
    if n == 0 {
        return Ok(bessel_i0(x));
    }
    if n == 1 {
        return Ok(bessel_i1(x));
    }
    if x == 0.0 {
        return Ok(0.0);
    }
    let tox = 2.0 / x.abs();
    let mut bip = 0.0;
    let mut bi = 1.0;
    let mut ans = 0.0;
    let m = 2 * (n + (40.0 * n as f64).sqrt().floor() as i64);
    for j in (1..=m).rev() {
        let bim = bip + j as f64 * tox * bi;
        bip = bi;
        bi = bim;
        if bi.abs() > 1e10 {
            ans *= 1e-10;
            bi *= 1e-10;
            bip *= 1e-10;
        }
        if j == n {
            ans = bip;
        }
    }
    ans *= bessel_i0(x) / bi;
    Ok(if x < 0.0 && n % 2 == 1 { -ans } else { ans })
}

fn bessel_k0(x: f64) -> f64 {
    if x <= 2.0 {
        let y = x * x / 4.0;
        -(x / 2.0).ln() * bessel_i0(x)
            + (-0.57721566
                + y * (0.42278420
                    + y * (0.23069756
                        + y * (0.3488590e-1 + y * (0.262698e-2 + y * (0.10750e-3 + y * 0.74e-5))))))
    } else {
        let y = 2.0 / x;
        ((-x).exp() / x.sqrt())
            * (1.25331414
                + y * (-0.7832358e-1
                    + y * (0.2189568e-1
                        + y * (-0.1062446e-1
                            + y * (0.587872e-2 + y * (-0.251540e-2 + y * 0.53208e-3))))))
    }
}

fn bessel_k1(x: f64) -> f64 {
    if x <= 2.0 {
        let y = x * x / 4.0;
        (x / 2.0).ln() * bessel_i1(x)
            + (1.0 / x)
                * (1.0
                    + y * (0.15443144
                        + y * (-0.67278579
                            + y * (-0.18156897
                                + y * (-0.1919402e-1 + y * (-0.110404e-2 + y * (-0.4686e-4)))))))
    } else {
        let y = 2.0 / x;
        ((-x).exp() / x.sqrt())
            * (1.25331414
                + y * (0.23498619
                    + y * (-0.3655620e-1
                        + y * (0.1504268e-1
                            + y * (-0.780353e-2 + y * (0.325614e-2 + y * (-0.68245e-3)))))))
    }
}

fn bessel_kn(n: f64, x: f64) -> Result<f64, FormulaError> {
    let n = n.trunc() as i64;
    if n < 0 || x <= 0.0 {
        return Err(FormulaError::Num);
    }
    if n == 0 {
        return Ok(bessel_k0(x));
    }
    if n == 1 {
        return Ok(bessel_k1(x));
    }
    let tox = 2.0 / x;
    let mut bkm = bessel_k0(x);
    let mut bk = bessel_k1(x);
    for j in 1..n {
        let bkp = bkm + j as f64 * tox * bk;
        bkm = bk;
        bk = bkp;
    }
    Ok(bk)
}

fn round_half_away(n: f64, digits: i32) -> f64 {
    let f = 10f64.powi(digits);
    let x = n * f;
    let r = if x >= 0.0 {
        (x + 0.5).floor()
    } else {
        (x - 0.5).ceil()
    };
    r / f
}

struct Regression {
    slope: f64,
    intercept: f64,
    r: f64,
    sxx: f64,
    syy: f64,
    sxy: f64,
    n: usize,
}

fn regress(xs: &[f64], ys: &[f64]) -> Result<Regression, FormulaError> {
    let n = xs.len();
    if n < 2 {
        return Err(FormulaError::Div0);
    }
    let mx = mean(xs);
    let my = mean(ys);
    let (mut sxx, mut syy, mut sxy) = (0.0, 0.0, 0.0);
    for i in 0..n {
        let dx = xs[i] - mx;
        let dy = ys[i] - my;
        sxx += dx * dx;
        syy += dy * dy;
        sxy += dx * dy;
    }
    if sxx == 0.0 {
        return Err(FormulaError::Div0);
    }
    let slope = sxy / sxx;
    let intercept = my - slope * mx;
    let r = if syy == 0.0 { 0.0 } else { sxy / (sxx * syy).sqrt() };
    Ok(Regression { slope, intercept, r, sxx, syy, sxy, n })
}

fn finite(x: f64) -> Result<f64, FormulaError> {
    if x.is_finite() {
        Ok(x)
    } else {
        Err(FormulaError::Num)
    }
}

fn ceiling_floor_math(x: f64, sig: f64, mode: f64, ceil: bool) -> Result<f64, FormulaError> {
    let s = sig.abs();
    let q = x / s;
    let up = if x >= 0.0 || mode == 0.0 { ceil } else { !ceil };
    finite((if up { q.ceil() } else { q.floor() }) * s)
}

fn cumulative(a: &[f64], interest: bool) -> Result<f64, FormulaError> {
    let (rate, nper, pv, start, end, type_) = (a[0], a[1], a[2], a[3], a[4], a[5]);
    let pmt = pmt_of(rate, nper, pv, 0.0, type_);
    let mut total = 0.0;
    for p in (start.trunc() as i64)..=(end.trunc() as i64) {
        let ip = ipmt_of(rate, p as f64, nper, pv, 0.0, type_)?;
        total += if interest { ip } else { pmt - ip };
    }
    finite(total)
}

fn depreciation_db(a: &[f64]) -> Result<f64, FormulaError> {
    let (cost, salvage, life, per, month) = (a[0], a[1], a[2], a[3], a[4]);
    let rate = ((1.0 - (salvage / cost).powf(1.0 / life)) * 1000.0).round() / 1000.0;
    let mut book = cost;
    let mut dep = 0.0;
    let life_int = life.trunc() as i64;
    for p in 1..=(per.trunc() as i64) {
        dep = if p == 1 {
            cost * rate * month / 12.0
        } else if p == life_int + 1 {
            book * rate * (12.0 - month) / 12.0
        } else {
            book * rate
        };
        book -= dep;
    }
    finite(dep)
}

fn depreciation_ddb(a: &[f64]) -> Result<f64, FormulaError> {
    let (cost, salvage, life, per, factor) = (a[0], a[1], a[2], a[3], a[4]);
    let mut book = cost;
    let mut dep = 0.0;
    for _ in 1..=(per.trunc() as i64) {
        dep = (book * factor / life).min((book - salvage).max(0.0));
        book -= dep;
    }
    finite(dep)
}

fn skew(ns: &[f64], all: bool) -> Result<f64, FormulaError> {
    let n = ns.len();
    let m = mean(ns);
    let sd = if all { pop_var_raw(ns) } else { sample_var_raw(ns) }.sqrt();
    if sd == 0.0 {
        return Err(FormulaError::Div0);
    }
    let sum: f64 = ns.iter().map(|x| ((x - m) / sd).powi(3)).sum();
    Ok(if all { sum / n as f64 } else { (n as f64 / ((n - 1) as f64 * (n - 2) as f64)) * sum })
}

fn kurt(ns: &[f64]) -> Result<f64, FormulaError> {
    let m = mean(ns);
    let sd = sample_var_raw(ns).sqrt();
    if sd == 0.0 {
        return Err(FormulaError::Div0);
    }
    let sum: f64 = ns.iter().map(|x| ((x - m) / sd).powi(4)).sum();
    let nf = ns.len() as f64;
    Ok((nf * (nf + 1.0)) / ((nf - 1.0) * (nf - 2.0) * (nf - 3.0)) * sum
        - (3.0 * (nf - 1.0).powi(2)) / ((nf - 2.0) * (nf - 3.0)))
}

fn percent_rank(data: &[f64], x: f64, sig: f64, inc: bool) -> f64 {
    let n = data.len();
    let rank = if let Some(i) = data.iter().position(|&v| v == x) {
        if inc {
            i as f64 / (n - 1) as f64
        } else {
            (i + 1) as f64 / (n + 1) as f64
        }
    } else {
        let mut lo = 0usize;
        while lo < n - 1 && data[lo + 1] < x {
            lo += 1;
        }
        let frac = (x - data[lo]) / (data[lo + 1] - data[lo]);
        if inc {
            (lo as f64 + frac) / (n - 1) as f64
        } else {
            (lo as f64 + 1.0 + frac) / (n + 1) as f64
        }
    };
    let f = 10f64.powi(sig.trunc() as i32);
    (rank * f).floor() / f
}

fn multinomial(ns: &[f64]) -> Result<f64, FormulaError> {
    let mut sum = 0.0f64;
    let mut denom = 1.0f64;
    for n in ns {
        let t = n.trunc();
        if t < 0.0 {
            return Err(FormulaError::Num);
        }
        sum += t;
        denom *= factorial(t)?;
    }
    finite(factorial(sum)? / denom)
}

fn mirr(flows: &[f64], finance: f64, reinvest: f64) -> Result<f64, FormulaError> {
    let n = flows.len();
    let mut pv_neg = 0.0;
    let mut fv_pos = 0.0;
    for (i, cf) in flows.iter().enumerate() {
        if *cf < 0.0 {
            pv_neg += cf / (1.0 + finance).powi(i as i32);
        } else {
            fv_pos += cf * (1.0 + reinvest).powi((n - 1 - i) as i32);
        }
    }
    if pv_neg == 0.0 || fv_pos == 0.0 {
        return Err(FormulaError::Div0);
    }
    finite((-fv_pos / pv_neg).powf(1.0 / (n - 1) as f64) - 1.0)
}

fn sum_product(ns: &[f64], lists: u64) -> f64 {
    if lists == 0 {
        return 0.0;
    }
    let len = ns.len() / lists as usize;
    let mut total = 0.0;
    for i in 0..len {
        let mut prod = 1.0;
        for k in 0..lists as usize {
            prod *= ns[k * len + i];
        }
        total += prod;
    }
    total
}

/// The seconds of a serial number's time, counted within its day.
fn day_seconds(serial: f64) -> i64 {
    let frac = serial - serial.floor();
    ((frac * 86400.0).round() as i64) % 86400
}

fn temperature(v: f64, from: Scale, to: Scale) -> f64 {
    let c = match from {
        Scale::Celsius => v,
        Scale::Fahrenheit => (v - 32.0) * 5.0 / 9.0,
        Scale::Kelvin => v - 273.15,
    };
    match to {
        Scale::Celsius => c,
        Scale::Fahrenheit => c * 9.0 / 5.0 + 32.0,
        Scale::Kelvin => c + 273.15,
    }
}

/// A positive number's digits with some decimals; digits before the point are rounded away where
/// there are less than none.
fn digits_text(abs: f64, decimals: i64) -> String {
    if decimals >= 0 {
        let d = decimals.min(100) as usize;
        format!("{abs:.d$}")
    } else {
        let f = 10f64.powi((-decimals) as i32);
        let rounded = (abs / f).round() * f;
        format!("{rounded:.0}")
    }
}

/// What a text-making job makes.
fn compute_text(k: Kernel, x: f64) -> Option<String> {
    match k {
        Kernel::FixedText(d, commas) => {
            Some(fixed_text(&digits_text(x.abs(), d), x < 0.0, commas))
        }
        Kernel::DollarText(d) => {
            let body = fixed_text(&digits_text(x.abs(), d), false, true);
            Some(if x < 0.0 { format!("(${body})") } else { format!("${body}") })
        }
        _ => None,
    }
}

/// What a job comes to.
fn compute(k: Kernel, a: &[f64], b: &[f64]) -> Result<f64, FormulaError> {
    let x = a.first().copied().unwrap_or(0.0);
    let y = a.get(1).copied().unwrap_or(0.0);
    match k {
        Kernel::Sum => Ok(a.iter().sum()),
        Kernel::Mean => Ok(mean(a)),
        Kernel::Product => Ok(a.iter().product()),
        Kernel::Digits(base, negative) => {
            let mut acc = 0.0f64;
            for d in a {
                acc = acc * base as f64 + d;
            }
            finite(if negative { -acc } else { acc })
        }
        Kernel::Hour => Ok((day_seconds(x) / 3600) as f64),
        Kernel::Minute => Ok((day_seconds(x) / 60 % 60) as f64),
        Kernel::Second => Ok((day_seconds(x) % 60) as f64),
        Kernel::Abs => Ok(x.abs()),
        Kernel::Floor => Ok(x.floor()),
        Kernel::Trunc => Ok(x.trunc()),
        Kernel::Sqrt => Ok(x.sqrt()),
        Kernel::Round => Ok(round_half_away(x, y.trunc() as i32)),
        Kernel::RoundDown => {
            let f = 10f64.powi(y.trunc() as i32);
            Ok((x * f).trunc() / f)
        }
        Kernel::RoundUp => {
            let f = 10f64.powi(y.trunc() as i32);
            let z = x * f;
            Ok((if z < 0.0 { z.floor() } else { z.ceil() }) / f)
        }
        Kernel::Mod => Ok(x - y * (x / y).floor()),
        Kernel::Power => finite(x.powf(y)),
        Kernel::RoundTo => Ok(round_half_away(x / y, 0) * y),
        Kernel::Even => {
            let n = (x.abs() / 2.0).ceil() * 2.0;
            Ok(if x < 0.0 { -n } else { n })
        }
        Kernel::Odd => {
            let mut n = x.abs().ceil();
            if (n as i64) % 2 == 0 {
                n += 1.0;
            }
            Ok(if x < 0.0 { -n } else { n })
        }
        Kernel::Exp => finite(x.exp()),
        Kernel::Ln => finite(x.ln()),
        Kernel::Log10 => finite(x.log10()),
        Kernel::Log => finite(x.ln() / y.ln()),
        Kernel::SqrtPi => finite((x * PI).sqrt()),
        Kernel::Factorial => factorial(x),
        Kernel::FactDouble => fact_double(x),
        Kernel::Combin => combin(x, y),
        Kernel::CombinA => {
            let (n, k) = (x.trunc() as i64, y.trunc() as i64);
            if n == 0 && k == 0 {
                Ok(1.0)
            } else {
                combin((n + k - 1) as f64, k as f64)
            }
        }
        Kernel::Permut => permut(x, y),
        Kernel::PermutA => finite(x.trunc().powf(y.trunc())),
        Kernel::Quotient => Ok((x / y).trunc()),
        Kernel::CeilingMath => ceiling_floor_math(x, y, a[2], true),
        Kernel::FloorMath => ceiling_floor_math(x, y, a[2], false),
        Kernel::CeilingPrecise => finite((x / y.abs()).ceil() * y.abs()),
        Kernel::FloorPrecise => finite((x / y.abs()).floor() * y.abs()),
        Kernel::LowerBound => {
            if x.ceil() > y.floor() {
                Err(FormulaError::Num)
            } else {
                Ok(x.ceil())
            }
        }
        Kernel::Sin => finite(x.sin()),
        Kernel::Cos => finite(x.cos()),
        Kernel::Tan => finite(x.tan()),
        Kernel::Atan => finite(x.atan()),
        Kernel::Sinh => finite(x.sinh()),
        Kernel::Cosh => finite(x.cosh()),
        Kernel::Tanh => finite(x.tanh()),
        Kernel::Asinh => finite(x.asinh()),
        Kernel::Sec => finite(1.0 / x.cos()),
        Kernel::Csc => finite(1.0 / x.sin()),
        Kernel::Cot => finite(1.0 / x.tan()),
        Kernel::Sech => finite(1.0 / x.cosh()),
        Kernel::Csch => finite(1.0 / x.sinh()),
        Kernel::Coth => finite(1.0 / x.tanh()),
        Kernel::Acot => finite(PI / 2.0 - x.atan()),
        Kernel::Degrees => finite(x * 180.0 / PI),
        Kernel::Radians => finite(x * PI / 180.0),
        Kernel::Asin => finite(x.asin()),
        Kernel::Acos => finite(x.acos()),
        Kernel::Atan2 => finite(y.atan2(x)),
        Kernel::Hypot => finite(x.hypot(y)),
        Kernel::Acosh => finite(x.acosh()),
        Kernel::Atanh => finite(x.atanh()),
        Kernel::Acoth => finite((1.0 / x).atanh()),
        Kernel::Erf => finite(erf(x)),
        Kernel::Erfc => finite(erfc(x)),
        Kernel::BesselJ => finite(bessel_jn(y, x)?),
        Kernel::BesselY => finite(bessel_yn(y, x)?),
        Kernel::BesselI => finite(bessel_in(y, x)?),
        Kernel::BesselK => finite(bessel_kn(y, x)?),
        Kernel::Pmt => finite(pmt_of(a[0], a[1], a[2], a[3], a[4])),
        Kernel::Fv => finite(fv_of(a[0], a[1], a[2], a[3], a[4])),
        Kernel::Pv => finite(pv_of(a[0], a[1], a[2], a[3], a[4])),
        Kernel::Nper => finite(nper_of(a[0], a[1], a[2], a[3], a[4])),
        Kernel::Rate => finite(solve_rate(|r| fv_of(r, a[0], a[1], a[2], a[4]) - a[3], a[5])),
        Kernel::Ipmt => finite(ipmt_of(a[0], a[1].trunc(), a[2], a[3], a[4], a[5])?),
        Kernel::Ppmt => {
            let ip = ipmt_of(a[0], a[1].trunc(), a[2], a[3], a[4], a[5])?;
            finite(pmt_of(a[0], a[2], a[3], a[4], a[5]) - ip)
        }
        Kernel::CumIpmt => cumulative(a, true),
        Kernel::CumPrinc => cumulative(a, false),
        Kernel::Sln => Ok((a[0] - a[1]) / a[2]),
        Kernel::Syd => Ok((a[0] - a[1]) * (a[2] - a[3] + 1.0) * 2.0 / (a[2] * (a[2] + 1.0))),
        Kernel::Ddb => depreciation_ddb(a),
        Kernel::Db => depreciation_db(a),
        Kernel::Effect => {
            let np = y.trunc();
            finite((1.0 + x / np).powi(np as i32) - 1.0)
        }
        Kernel::Nominal => {
            let np = y.trunc();
            finite(((1.0 + x).powf(1.0 / np) - 1.0) * np)
        }
        Kernel::DollarDe => {
            let d = y.trunc();
            let digits = d.log10().ceil();
            finite(x.trunc() + ((x - x.trunc()) * 10f64.powf(digits)) / d)
        }
        Kernel::DollarFr => {
            let d = y.trunc();
            let digits = d.log10().ceil();
            finite(x.trunc() + ((x - x.trunc()) * d) / 10f64.powf(digits))
        }
        Kernel::Pduration => finite((a[2].ln() - a[1].ln()) / (1.0 + a[0]).ln()),
        Kernel::Rri => finite((a[2] / a[1]).powf(1.0 / a[0]) - 1.0),
        Kernel::NormalCdf => Ok(norm_s_cdf(x)),
        Kernel::NormalInv => Ok(a[1] + a[2] * norm_s_inv(a[0])?),
        Kernel::StandardInv => norm_s_inv(x),
        Kernel::Standardize => Ok((a[0] - a[1]) / a[2]),
        Kernel::Confidence => Ok(norm_s_inv(1.0 - a[0] / 2.0)? * a[1] / a[2].trunc().sqrt()),
        Kernel::Gauss => Ok(norm_s_cdf(x) - 0.5),
        Kernel::Phi => Ok(norm_pdf(x, 0.0, 1.0)),
        Kernel::SumSquares => Ok(a.iter().map(|n| n * n).sum()),
        Kernel::Variance(sample, root) => {
            let v = if sample { sample_var_raw(a) } else { pop_var_raw(a) };
            Ok(if root { v.sqrt() } else { v })
        }
        Kernel::DevSq => {
            let m = mean(a);
            Ok(a.iter().map(|n| (n - m).powi(2)).sum())
        }
        Kernel::AveDev => {
            let m = mean(a);
            Ok(a.iter().map(|n| (n - m).abs()).sum::<f64>() / a.len() as f64)
        }
        Kernel::Skew(all) => skew(a, all),
        Kernel::Kurt => kurt(a),
        Kernel::GeoMean => {
            let sum: f64 = a.iter().map(|n| n.ln()).sum();
            finite((sum / a.len() as f64).exp())
        }
        Kernel::HarMean => {
            let sum: f64 = a.iter().map(|n| 1.0 / n).sum();
            finite(a.len() as f64 / sum)
        }
        Kernel::Quantile => Ok(percentile_inc(a, b[0])),
        Kernel::QuantileExc => percentile_exc(a, b[0]),
        Kernel::Quartile(q, inc) => {
            let p = q as f64 / 4.0;
            if inc {
                Ok(percentile_inc(a, p))
            } else {
                percentile_exc(a, p)
            }
        }
        Kernel::PercentRank(inc) => Ok(percent_rank(a, b[0], b[1], inc)),
        Kernel::TrimMean => {
            let cut = ((a.len() as f64 * b[0]) / 2.0).floor() as usize;
            if cut * 2 >= a.len() {
                return Err(FormulaError::Num);
            }
            Ok(mean(&a[cut..a.len() - cut]))
        }
        Kernel::SumProduct(lists) => Ok(sum_product(a, lists)),
        Kernel::Correl => finite(regress(a, b)?.r),
        Kernel::RSq => {
            let r = regress(a, b)?.r;
            finite(r * r)
        }
        Kernel::Slope => finite(regress(a, b)?.slope),
        Kernel::Intercept => finite(regress(a, b)?.intercept),
        Kernel::Covariance(sample) => {
            let n = a.len();
            let (mx, my) = (mean(a), mean(b));
            let sxy: f64 = (0..n).map(|i| (a[i] - mx) * (b[i] - my)).sum();
            Ok(sxy / if sample { (n - 1) as f64 } else { n as f64 })
        }
        Kernel::Steyx => {
            let r = regress(a, b)?;
            let se = (r.syy - (r.sxy * r.sxy) / r.sxx) / (r.n - 2) as f64;
            finite(se.max(0.0).sqrt())
        }
        Kernel::Forecast => {
            let r = regress(&a[1..], b)?;
            finite(r.intercept + r.slope * a[0])
        }
        Kernel::Npv => finite(npv_at(b[0], a)),
        Kernel::Irr => finite(solve_rate(
            |r| a.iter().enumerate().map(|(i, cf)| cf / (1.0 + r).powi(i as i32)).sum(),
            b[0],
        )),
        Kernel::Mirr => mirr(a, b[0], b[1]),
        Kernel::Xnpv => finite(xnpv_at(b[0], a, &b[1..])),
        Kernel::Xirr => finite(solve_rate(|r| xnpv_at(r, a, &b[1..]), b[0])),
        Kernel::SeriesSum => finite(
            a.iter().enumerate().map(|(i, c)| c * b[0].powf(b[1] + i as f64 * b[2])).sum(),
        ),
        Kernel::Multinomial => multinomial(a),
        Kernel::NormalDist(cumulative) => Ok(if cumulative {
            norm_s_cdf((a[0] - a[1]) / a[2])
        } else {
            norm_pdf(a[0], a[1], a[2])
        }),
        Kernel::StandardDist(cumulative) => {
            Ok(if cumulative { norm_s_cdf(x) } else { norm_pdf(x, 0.0, 1.0) })
        }
        Kernel::ErfBetween => finite(erf(y) - erf(x)),
        Kernel::CeilingTo => Ok((x / y).ceil() * y),
        Kernel::FloorTo => Ok((x / y).floor() * y),
        Kernel::FixedText(..) | Kernel::DollarText(_) => Err(FormulaError::Value),
        Kernel::Temperature(from, to) => finite(temperature(x, from, to)),
        Kernel::Scaled => finite(a[0] * a[1] / a[2]),
    }
}

// ---- cells for tests

/// How a reference that names no cell reads.
#[derive(Clone, Copy, PartialEq)]
enum Unknown {
    Blank,
    Ref,
}

struct Grid {
    cells: HashMap<(u32, u32), FormulaValue>,
    names: HashMap<String, String>,
    size: i64,
    unknown: Unknown,
}

fn local_of(reference: &str) -> String {
    let local = match reference.find('!') {
        Some(b) => &reference[b + 1..],
        None => reference,
    };
    local.replace('$', "")
}

fn endpoint(reference: &str) -> (i64, i64) {
    let clean = local_of(reference);
    if let Some(p) = parse_addr(&clean) {
        return (p.row as i64, p.col as i64);
    }
    if !clean.is_empty() && clean.chars().all(|c| c.is_ascii_alphabetic()) {
        return (-1, label_to_col(&clean).unwrap_or(0) as i64);
    }
    if let Ok(r) = clean.parse::<i64>() {
        return (r - 1, -1);
    }
    (-1, -1)
}

impl CellAccessor for Grid {
    fn get_cell_value(&self, reference: &str) -> FormulaValue {
        let (r, c) = endpoint(reference);
        if r < 0 || c < 0 {
            return if self.unknown == Unknown::Ref {
                FormulaValue::Error(FormulaError::Ref)
            } else {
                FormulaValue::Blank
            };
        }
        self.cells.get(&(r as u32, c as u32)).cloned().unwrap_or(FormulaValue::Blank)
    }
    fn get_range_values(&self, start: &str, end: &str) -> Vec<Vec<FormulaValue>> {
        let (ar, ac) = endpoint(start);
        let (br, bc) = endpoint(end);
        let ar = if ar < 0 { 0 } else { ar };
        let br = if br < 0 { self.size - 1 } else { br };
        let ac = if ac < 0 { 0 } else { ac };
        let bc = if bc < 0 { self.size - 1 } else { bc };
        (ar.min(br)..=ar.max(br))
            .map(|r| {
                (ac.min(bc)..=ac.max(bc))
                    .map(|c| {
                        self.cells
                            .get(&(r as u32, c as u32))
                            .cloned()
                            .unwrap_or(FormulaValue::Blank)
                    })
                    .collect()
            })
            .collect()
    }
    fn resolve_name_ref(&self, name: &str) -> Option<String> {
        self.names.get(&name.to_uppercase()).cloned()
    }
}

fn run(
    src: &str,
    cells: &[((u32, u32), FormulaValue)],
    names: &[(&str, &str)],
    size: i64,
    unknown: Unknown,
) -> FormulaValue {
    let acc = Grid {
        cells: cells.iter().cloned().collect(),
        names: names.iter().map(|(k, v)| (k.to_string(), v.to_string())).collect(),
        size,
        unknown,
    };
    let reg = BuiltinRegistry::new();
    let ctx = EvalContext { accessor: &acc, row: 0, col: 0, sheet_name: "Sheet1", seconds: seconds_now() };
    match parse_formula(src) {
        Ok(node) => Evaluator::new(&reg).evaluate(&node, &ctx),
        Err(e) => panic!("{src}: {}", e.message),
    }
}

fn loose(src: &str, cells: &[((u32, u32), FormulaValue)]) -> FormulaValue {
    run(src, cells, &[], 8, Unknown::Blank)
}

fn strict(src: &str, cells: &[((u32, u32), FormulaValue)]) -> FormulaValue {
    run(src, cells, &[], 8, Unknown::Ref)
}

fn named(src: &str, cells: &[((u32, u32), FormulaValue)], names: &[(&str, &str)]) -> FormulaValue {
    run(src, cells, names, 8, Unknown::Ref)
}

fn on(src: &str, cells: &[((u32, u32), FormulaValue)]) -> FormulaValue {
    run(src, cells, &[], 12, Unknown::Ref)
}

fn plain(src: &str) -> FormulaValue {
    run(src, &[], &[], 1, Unknown::Blank)
}

fn n(v: FormulaValue) -> f64 {
    match v {
        FormulaValue::Number(x) => x,
        o => panic!("expected number: {o:?}"),
    }
}

fn pn(src: &str) -> f64 {
    n(plain(src))
}

fn pt(src: &str) -> String {
    match plain(src) {
        FormulaValue::Text(s) => s,
        o => panic!("expected text from {src}: {o:?}"),
    }
}

fn close(a: f64, b: f64, eps: f64) {
    assert!((a - b).abs() < eps, "{a} vs {b}");
}

fn near(v: FormulaValue, x: f64) {
    let got = n(v);
    assert!((got - x).abs() < 1e-4, "near: got {got}, want {x}");
}

fn near_p(v: FormulaValue, x: f64, tol: f64) {
    let got = n(v);
    assert!((got - x).abs() < tol, "near_p: got {got}, want {x} (tol {tol})");
}

fn err(e: FormulaError) -> FormulaValue {
    FormulaValue::Error(e)
}

fn date_to_serial(y: i64, m: u32, d: i64) -> f64 {
    serial(y, m, d) as f64
}

fn parts_to_serial(y: i64, m: u32, d: i64, h: i64, mi: i64, s: i64) -> f64 {
    date_to_serial(y, m, d) + (h * 3600 + mi * 60 + s) as f64 / 86400.0
}

fn grid() -> Vec<((u32, u32), FormulaValue)> {
    vec![
        ((0, 0), 10.into()),
        ((1, 0), 20.into()),
        ((2, 0), 30.into()),
        ((3, 0), 40.into()),
        ((4, 0), 50.into()),
        ((0, 1), "x".into()),
        ((1, 1), "y".into()),
        ((2, 1), "x".into()),
        ((3, 1), "y".into()),
        ((4, 1), "x".into()),
    ]
}

fn ab_grid() -> Vec<((u32, u32), FormulaValue)> {
    vec![
        ((0, 0), 1.into()),
        ((1, 0), 2.into()),
        ((2, 0), 3.into()),
        ((3, 0), 4.into()),
        ((4, 0), 5.into()),
        ((0, 1), 2.into()),
        ((1, 1), 4.into()),
        ((2, 1), 6.into()),
        ((3, 1), 8.into()),
        ((4, 1), 10.into()),
    ]
}

fn db_grid() -> Vec<((u32, u32), FormulaValue)> {
    vec![
        ((0, 0), "Name".into()),
        ((0, 1), "Cat".into()),
        ((0, 2), "Qty".into()),
        ((1, 0), "a".into()),
        ((1, 1), "x".into()),
        ((1, 2), 10.into()),
        ((2, 0), "b".into()),
        ((2, 1), "y".into()),
        ((2, 2), 20.into()),
        ((3, 0), "c".into()),
        ((3, 1), "x".into()),
        ((3, 2), 30.into()),
        ((0, 4), "Cat".into()),
        ((1, 4), "x".into()),
        ((0, 6), "Cat".into()),
        ((1, 6), "z".into()),
    ]
}

// ---- tests

#[test]
fn aggregates() {
    let c = [
        ((0u32, 0u32), FormulaValue::Number(10.0)),
        ((0, 1), FormulaValue::Number(20.0)),
        ((0, 2), FormulaValue::Number(30.0)),
        ((0, 3), FormulaValue::Text("".into())),
    ];
    assert_eq!(n(loose("SUM(A1:D1)", &c)), 60.0);
    assert_eq!(n(loose("AVERAGE(A1:C1)", &c)), 20.0);
    assert_eq!(n(loose("MAX(A1:C1)", &c)), 30.0);
    assert_eq!(n(loose("MIN(A1:C1)", &c)), 10.0);
    assert_eq!(n(loose("COUNT(A1:D1)", &c)), 3.0);
}

#[test]
fn round_family() {
    assert_eq!(n(loose("ROUND(2.71828, 2)", &[])), 2.72);
    assert_eq!(n(loose("ROUNDUP(3.1, 0)", &[])), 4.0);
    assert_eq!(n(loose("ROUNDDOWN(3.9, 0)", &[])), 3.0);
    assert_eq!(n(loose("ABS(-7)", &[])), 7.0);
    assert_eq!(n(loose("INT(3.9)", &[])), 3.0);
    assert_eq!(n(loose("MOD(10, 3)", &[])), 1.0);
}

#[test]
fn logical() {
    assert_eq!(
        loose("IF(1>0, \"yes\", \"no\")", &[]),
        FormulaValue::Text("yes".into())
    );
    assert_eq!(
        loose("IF(1<0, \"yes\", \"no\")", &[]),
        FormulaValue::Text("no".into())
    );
    assert_eq!(
        loose("IFERROR(1/0, \"err\")", &[]),
        FormulaValue::Text("err".into())
    );
    assert_eq!(loose("AND(1>0, 2>1)", &[]), FormulaValue::Bool(true));
    assert_eq!(loose("OR(1<0, 2>1)", &[]), FormulaValue::Bool(true));
    assert_eq!(loose("NOT(1>0)", &[]), FormulaValue::Bool(false));
}

#[test]
fn functions_text_functions() {
    assert_eq!(
        loose("CONCATENATE(\"a\",\"b\",\"c\")", &[]),
        FormulaValue::Text("abc".into())
    );
    assert_eq!(
        loose("LEFT(\"hello\", 2)", &[]),
        FormulaValue::Text("he".into())
    );
    assert_eq!(
        loose("RIGHT(\"hello\", 2)", &[]),
        FormulaValue::Text("lo".into())
    );
    assert_eq!(
        loose("MID(\"hello\", 2, 3)", &[]),
        FormulaValue::Text("ell".into())
    );
    assert_eq!(n(loose("LEN(\"hello\")", &[])), 5.0);
    assert_eq!(loose("UPPER(\"ab\")", &[]), FormulaValue::Text("AB".into()));
    assert_eq!(
        loose("TEXT(1234.5, \"#,##0.00\")", &[]),
        FormulaValue::Text("1,234.50".into())
    );
}

#[test]
fn sumif_countif() {
    let c = [
        ((0u32, 0u32), FormulaValue::Number(5.0)),
        ((1, 0), FormulaValue::Number(15.0)),
        ((2, 0), FormulaValue::Number(25.0)),
    ];
    assert_eq!(n(loose("SUMIF(A1:A3, \">10\")", &c)), 40.0);
    assert_eq!(n(loose("COUNTIF(A1:A3, \">10\")", &c)), 2.0);
}

#[test]
fn subtotal_fn() {
    let c = [
        ((0u32, 0u32), FormulaValue::Number(1.0)),
        ((1, 0), FormulaValue::Number(2.0)),
        ((2, 0), FormulaValue::Number(3.0)),
    ];
    assert_eq!(n(loose("SUBTOTAL(9, A1:A3)", &c)), 6.0);
    assert_eq!(n(loose("SUBTOTAL(1, A1:A3)", &c)), 2.0);
}

#[test]
fn info_and_errors() {
    assert_eq!(n(loose("COALESCE(Z1, Z2, 7)", &[])), 7.0);
    assert_eq!(loose("ISEMPTY(Z1)", &[]), FormulaValue::Bool(true));
    assert_eq!(loose("ISBLANK(Z1)", &[]), FormulaValue::Bool(true));
    assert_eq!(
        loose("NOSUCHFN(1)", &[]),
        FormulaValue::Error(FormulaError::Name)
    );
    assert_eq!(
        loose("SUM(1, 1/0)", &[]),
        FormulaValue::Error(FormulaError::Div0)
    );
}

#[test]
fn registry_surface() {
    let reg = BuiltinRegistry::new();
    assert!(reg.names().len() >= 40);
    assert!(reg.known("sum"));
    let mut reg2 = BuiltinRegistry::new();
    reg2.register(
        "MYFN",
        Rc::new(|_: &[EvaluatedArg], _: &EvalContext| FormulaValue::Number(42.0)),
        true,
    );
    assert!(reg2.known("MYFN"));
    assert!(reg2.is_volatile("myfn"));
    assert!(!reg2.is_volatile("SUM"));
}

#[test]
fn arithmetic() {
    assert_eq!(n(strict("1+2*3", &[])), 7.0);
    assert_eq!(n(strict("(1+2)*3", &[])), 9.0);
    assert_eq!(n(strict("2^10", &[])), 1024.0);
    assert_eq!(n(strict("10/4", &[])), 2.5);
    assert_eq!(n(strict("-5+3", &[])), -2.0);
    assert_eq!(n(strict("50%", &[])), 0.5);
    assert_eq!(strict("1/0", &[]), FormulaValue::Error(FormulaError::Div0));
    assert_eq!(strict("\"a\"&\"b\"&1", &[]), FormulaValue::Text("ab1".into()));
    assert_eq!(strict("3>2", &[]), FormulaValue::Bool(true));
    assert_eq!(strict("3<>3", &[]), FormulaValue::Bool(false));
}

#[test]
fn cell_refs_and_ranges() {
    let cells = [
        ((0u32, 0u32), FormulaValue::Number(10.0)),
        ((1, 0), FormulaValue::Number(20.0)),
        ((2, 0), FormulaValue::Number(30.0)),
    ];
    assert_eq!(n(strict("A1+A2", &cells)), 30.0);
    assert_eq!(n(strict("SUM(A1:A3)", &cells)), 60.0);
    assert_eq!(n(strict("A1+Z9", &cells)), 10.0);
}

#[test]
fn math_rounding() {
    assert_eq!(n(named("MROUND(10, 3)", &[], &[])), 9.0);
    assert_eq!(n(named("MROUND(-10, -3)", &[], &[])), -9.0);
    assert_eq!(n(named("CEILING(2.1, 1)", &[], &[])), 3.0);
    assert_eq!(n(named("FLOOR(2.9, 1)", &[], &[])), 2.0);
    assert_eq!(n(named("CEILING(-2.1, -1)", &[], &[])), -3.0);
    assert_eq!(n(named("EVEN(3)", &[], &[])), 4.0);
    assert_eq!(n(named("ODD(2)", &[], &[])), 3.0);
    assert_eq!(n(named("EVEN(-1)", &[], &[])), -2.0);
    assert_eq!(n(named("SIGN(-5)", &[], &[])), -1.0);
    assert_eq!(n(named("SIGN(0)", &[], &[])), 0.0);
    assert_eq!(n(named("GCD(12, 18)", &[], &[])), 6.0);
    assert_eq!(n(named("LCM(4, 6)", &[], &[])), 12.0);
    assert_eq!(n(named("SUMSQ(3, 4)", &[], &[])), 25.0);
    assert_eq!(n(named("PRODUCT(2, 3, 4)", &[], &[])), 24.0);
}

#[test]
fn statistics() {
    assert_eq!(n(named("MEDIAN(1, 2, 3, 4)", &[], &[])), 2.5);
    assert_eq!(n(named("MEDIAN(1, 2, 3)", &[], &[])), 2.0);
    assert_eq!(n(named("MODE(1, 2, 2, 3)", &[], &[])), 2.0);
    assert_eq!(n(named("VAR(2, 4, 6)", &[], &[])), 4.0);
    assert!((n(named("VARP(2, 4, 6)", &[], &[])) - 2.6667).abs() < 1e-3);
    assert_eq!(n(named("STDEV(2, 4, 6)", &[], &[])), 2.0);
    let g = grid();
    assert_eq!(n(named("RANK(30, A1:A5)", &g, &[])), 3.0);
    assert_eq!(n(named("LARGE(A1:A5, 2)", &g, &[])), 40.0);
    assert_eq!(n(named("SMALL(A1:A5, 1)", &g, &[])), 10.0);
    assert_eq!(n(named("PERCENTILE(A1:A5, 0.5)", &g, &[])), 30.0);
    let c = [
        ((0u32, 0u32), 1.into()),
        ((1, 0), 2.into()),
        ((0, 1), 3.into()),
        ((1, 1), 4.into()),
    ];
    assert_eq!(n(named("SUMPRODUCT(A1:A2, B1:B2)", &c, &[])), 11.0);
}

#[test]
fn multi_criteria() {
    let g = grid();
    assert_eq!(n(named("SUMIFS(A1:A5, B1:B5, \"x\")", &g, &[])), 90.0);
    assert_eq!(n(named("COUNTIFS(B1:B5, \"x\")", &g, &[])), 3.0);
    assert_eq!(n(named("SUMIFS(A1:A5, A1:A5, \">=30\")", &g, &[])), 120.0);
    assert_eq!(n(named("AVERAGEIF(B1:B5, \"x\", A1:A5)", &g, &[])), 30.0);
    assert_eq!(n(named("AVERAGEIFS(A1:A5, B1:B5, \"y\")", &g, &[])), 30.0);
    assert_eq!(n(named("MAXIFS(A1:A5, B1:B5, \"x\")", &g, &[])), 50.0);
    assert_eq!(n(named("MINIFS(A1:A5, B1:B5, \"y\")", &g, &[])), 20.0);
}

#[test]
fn builtins_m8_text_functions() {
    assert_eq!(
        named("TEXTJOIN(\"-\", TRUE, \"a\", \"\", \"b\")", &[], &[]),
        "a-b".into()
    );
    assert_eq!(
        named("TEXTJOIN(\"-\", FALSE, \"a\", \"\", \"b\")", &[], &[]),
        "a--b".into()
    );
    assert_eq!(
        named("SUBSTITUTE(\"a-b-c\", \"-\", \"+\")", &[], &[]),
        "a+b+c".into()
    );
    assert_eq!(
        named("SUBSTITUTE(\"a-b-c\", \"-\", \"+\", 2)", &[], &[]),
        "a-b+c".into()
    );
    assert_eq!(
        named("REPLACE(\"abcdef\", 2, 3, \"XY\")", &[], &[]),
        "aXYef".into()
    );
    assert_eq!(n(named("FIND(\"b\", \"abc\")", &[], &[])), 2.0);
    assert_eq!(
        named("FIND(\"B\", \"abc\")", &[], &[]),
        FormulaValue::Error(FormulaError::Value)
    );
    assert_eq!(n(named("SEARCH(\"B\", \"abc\")", &[], &[])), 2.0);
    assert_eq!(named("REPT(\"ab\", 3)", &[], &[]), "ababab".into());
    assert_eq!(
        named("PROPER(\"hello WORLD\")", &[], &[]),
        "Hello World".into()
    );
    assert_eq!(
        named("EXACT(\"a\", \"A\")", &[], &[]),
        FormulaValue::Bool(false)
    );
    assert_eq!(named("CHAR(65)", &[], &[]), "A".into());
    assert_eq!(n(named("CODE(\"A\")", &[], &[])), 65.0);
    assert_eq!(n(named("NUMBERVALUE(\"1,234.5\")", &[], &[])), 1234.5);
}

#[test]
fn logic_info() {
    assert_eq!(named("IFS(1>2, \"a\", 2>1, \"b\")", &[], &[]), "b".into());
    assert_eq!(
        named("IFS(1>2, \"a\", 3>4, \"b\")", &[], &[]),
        FormulaValue::Error(FormulaError::Na)
    );
    assert_eq!(
        named("SWITCH(2, 1, \"one\", 2, \"two\", \"def\")", &[], &[]),
        "two".into()
    );
    assert_eq!(named("SWITCH(9, 1, \"one\", \"def\")", &[], &[]), "def".into());
    assert_eq!(named("ISNA(NA())", &[], &[]), FormulaValue::Bool(true));
    assert_eq!(named("ISLOGICAL(TRUE)", &[], &[]), FormulaValue::Bool(true));
    assert_eq!(named("ISODD(3)", &[], &[]), FormulaValue::Bool(true));
    assert_eq!(named("ISEVEN(4)", &[], &[]), FormulaValue::Bool(true));
    assert_eq!(n(named("N(TRUE)", &[], &[])), 1.0);
    assert_eq!(n(named("TYPE(\"hi\")", &[], &[])), 2.0);
}

#[test]
fn datetime() {
    let d = date_to_serial(2024, 3, 15);
    assert_eq!(n(named("DATE(2024, 3, 15)", &[], &[])), d);
    assert_eq!(n(named(&format!("YEAR({d})"), &[], &[])), 2024.0);
    assert_eq!(n(named(&format!("MONTH({d})"), &[], &[])), 3.0);
    assert_eq!(n(named(&format!("DAY({d})"), &[], &[])), 15.0);
    assert_eq!(
        n(named("DATE(2024, 13, 1)", &[], &[])),
        date_to_serial(2025, 1, 1)
    );
    assert_eq!(
        n(named(
            &format!("WEEKDAY({})", date_to_serial(2024, 1, 15)),
            &[],
            &[]
        )),
        2.0
    );
    assert_eq!(
        n(named(
            &format!("EDATE({}, 1)", date_to_serial(2024, 1, 31)),
            &[],
            &[]
        )),
        date_to_serial(2024, 2, 29)
    );
    assert_eq!(
        n(named(
            &format!("EOMONTH({}, 0)", date_to_serial(2024, 2, 10)),
            &[],
            &[]
        )),
        date_to_serial(2024, 2, 29)
    );
    assert_eq!(
        n(named(
            &format!(
                "DATEDIF({}, {}, \"M\")",
                date_to_serial(2024, 1, 1),
                date_to_serial(2024, 3, 1)
            ),
            &[],
            &[]
        )),
        2.0
    );
    let t = parts_to_serial(2024, 6, 15, 13, 45, 30);
    assert_eq!(n(named(&format!("HOUR({t})"), &[], &[])), 13.0);
    assert_eq!(n(named(&format!("MINUTE({t})"), &[], &[])), 45.0);
}

#[test]
fn lookup_reference() {
    let t = vec![
        ((0u32, 0u32), "apple".into()),
        ((0, 1), 3.into()),
        ((0, 2), "red".into()),
        ((1, 0), "banana".into()),
        ((1, 1), 5.into()),
        ((1, 2), "yellow".into()),
        ((2, 0), "cherry".into()),
        ((2, 1), 7.into()),
        ((2, 2), "dark".into()),
    ];
    assert_eq!(n(named("VLOOKUP(\"banana\", A1:C3, 2, FALSE)", &t, &[])), 5.0);
    assert_eq!(
        named("VLOOKUP(\"banana\", A1:C3, 3, FALSE)", &t, &[]),
        "yellow".into()
    );
    assert_eq!(
        named("VLOOKUP(\"grape\", A1:C3, 2, FALSE)", &t, &[]),
        FormulaValue::Error(FormulaError::Na)
    );
    assert_eq!(named("INDEX(A1:C3, 2, 3)", &t, &[]), "yellow".into());
    assert_eq!(n(named("MATCH(\"cherry\", A1:A3, 0)", &t, &[])), 3.0);
    assert_eq!(
        n(named("INDEX(B1:B3, MATCH(\"cherry\", A1:A3, 0))", &t, &[])),
        7.0
    );
    assert_eq!(named("CHOOSE(2, \"a\", \"b\", \"c\")", &[], &[]), "b".into());
    assert_eq!(n(named("XLOOKUP(\"cherry\", A1:A3, B1:B3)", &t, &[])), 7.0);
    assert_eq!(n(named("XLOOKUP(\"grape\", A1:A3, B1:B3, -1)", &t, &[])), -1.0);
    assert_eq!(n(named("ROWS(A1:C3)", &t, &[])), 3.0);
    assert_eq!(n(named("COLUMNS(A1:C3)", &t, &[])), 3.0);
    let v = [
        ((0u32, 0u32), 1.into()),
        ((1, 0), 3.into()),
        ((2, 0), 5.into()),
        ((0, 1), "a".into()),
        ((1, 1), "b".into()),
        ((2, 1), "c".into()),
    ];
    assert_eq!(named("LOOKUP(4, A1:A3, B1:B3)", &v, &[]), "b".into());
}

#[test]
fn whole_col_and_names() {
    let g = grid();
    assert_eq!(n(named("SUM(A:A)", &g, &[])), 150.0);
    assert_eq!(n(named("COUNT(A:A)", &g, &[])), 5.0);
    let c = [
        ((0u32, 0u32), 1.into()),
        ((0, 1), 2.into()),
        ((0, 2), 3.into()),
    ];
    assert_eq!(n(named("SUM(1:1)", &c, &[])), 6.0);
    assert_eq!(n(named("SUM({1,2;3,4})", &[], &[])), 10.0);
    assert_eq!(n(named("SUMPRODUCT({1,2,3}, {4,5,6})", &[], &[])), 32.0);
    assert_eq!(n(named("MAX({5,3,9,1})", &[], &[])), 9.0);
    let names = [("SALES", "A1:A5"), ("TAXRATE", "A1")];
    assert_eq!(n(named("SUM(SALES)", &g, &names)), 150.0);
    assert_eq!(n(named("TAXRATE*2", &g, &names)), 20.0);
    assert_eq!(n(named("AVERAGE(SALES)", &g, &names)), 30.0);
    assert_eq!(
        named("SUM(UNKNOWNRANGE)", &g, &[]),
        FormulaValue::Error(FormulaError::Name)
    );
}

#[test]
fn registration_scale() {
    let reg = BuiltinRegistry::new();
    assert!(
        reg.names().len() >= 270,
        "builtin count {} < 270",
        reg.names().len()
    );
    for f in [
        "SIN",
        "PMT",
        "GEOMEAN",
        "DSUM",
        "TEXTBEFORE",
        "NORM.S.DIST",
        "CEILING.MATH",
        "ROMAN",
        "ADDRESS",
        "INDIRECT",
    ] {
        assert!(reg.known(f), "{f} not registered");
    }
}

#[test]
fn math_trig() {
    near(on("SIN(PI()/6)", &[]), 0.5);
    near(on("COS(0)", &[]), 1.0);
    near(on("TAN(PI()/4)", &[]), 1.0);
    near(on("ASIN(1)", &[]), PI / 2.0);
    near(on("ATAN2(1,1)", &[]), PI / 4.0);
    near(on("SINH(0)", &[]), 0.0);
    near(on("DEGREES(PI())", &[]), 180.0);
    near(on("RADIANS(180)", &[]), PI);
}

#[test]
fn math_log_exp() {
    near(on("LN(EXP(1))", &[]), 1.0);
    near(on("LOG10(1000)", &[]), 3.0);
    near(on("LOG(8,2)", &[]), 3.0);
    near(on("LOG(100)", &[]), 2.0);
    assert_eq!(on("LN(0)", &[]), err(FormulaError::Num));
    assert_eq!(on("LN(-1)", &[]), err(FormulaError::Num));
}

#[test]
fn math_combinatorics() {
    assert_eq!(on("FACT(5)", &[]), FormulaValue::Number(120.0));
    assert_eq!(on("FACT(0)", &[]), FormulaValue::Number(1.0));
    assert_eq!(on("FACTDOUBLE(7)", &[]), FormulaValue::Number(105.0));
    assert_eq!(on("COMBIN(5,2)", &[]), FormulaValue::Number(10.0));
    assert_eq!(on("COMBINA(4,3)", &[]), FormulaValue::Number(20.0));
    assert_eq!(on("PERMUT(5,2)", &[]), FormulaValue::Number(20.0));
    assert_eq!(on("MULTINOMIAL(2,3,4)", &[]), FormulaValue::Number(1260.0));
    assert_eq!(on("QUOTIENT(17,5)", &[]), FormulaValue::Number(3.0));
}

#[test]
fn math_rounding_siblings() {
    assert_eq!(on("CEILING.MATH(6.7)", &[]), FormulaValue::Number(7.0));
    assert_eq!(on("CEILING.MATH(-8.1,2)", &[]), FormulaValue::Number(-8.0));
    assert_eq!(
        on("CEILING.MATH(-8.1,2,1)", &[]),
        FormulaValue::Number(-10.0)
    );
    assert_eq!(on("FLOOR.MATH(5.9)", &[]), FormulaValue::Number(5.0));
    assert_eq!(on("FLOOR.MATH(-5.5,2,1)", &[]), FormulaValue::Number(-4.0));
    assert_eq!(
        on("CEILING.PRECISE(-4.3,2)", &[]),
        FormulaValue::Number(-4.0)
    );
    assert_eq!(on("FLOOR.PRECISE(-4.3,2)", &[]), FormulaValue::Number(-6.0));
}

#[test]
fn math_base_roman() {
    assert_eq!(on("BASE(255,16)", &[]), "FF".into());
    assert_eq!(on("BASE(7,2,8)", &[]), "00000111".into());
    assert_eq!(on("DECIMAL(\"FF\",16)", &[]), FormulaValue::Number(255.0));
    assert_eq!(on("DECIMAL(\"111\",2)", &[]), FormulaValue::Number(7.0));
    assert_eq!(on("ROMAN(1994)", &[]), "MCMXCIV".into());
    assert_eq!(on("ARABIC(\"MCMXCIV\")", &[]), FormulaValue::Number(1994.0));
}

#[test]
fn math_seriessum_sqrtpi() {
    assert_eq!(
        on("SERIESSUM(1,0,1,{1,2,3})", &[]),
        FormulaValue::Number(6.0)
    );
    near(on("SQRTPI(1)", &[]), PI.sqrt());
}

#[test]
fn financial_annuity() {
    near_p(on("PMT(0.005,360,-200000)", &[]), 1199.10, 0.05);
    near_p(on("FV(0.005,120,-100)", &[]), 16387.93, 0.05);
    near_p(on("PV(0.08,20,-500)", &[]), 4909.07, 0.05);
    near_p(on("NPER(0.01,-100,5000)", &[]), 69.66, 0.05);
    near(on("RATE(360,-1199.10,200000)", &[]), 0.005);
}

#[test]
fn financial_ipmt_ppmt() {
    let pmt = n(on("PMT(0.005,360,-200000)", &[]));
    let ip = n(on("IPMT(0.005,1,360,-200000)", &[]));
    let pp = n(on("PPMT(0.005,1,360,-200000)", &[]));
    assert!((ip + pp - pmt).abs() < 0.01);
    assert!((ip - 1000.0).abs() < 0.01);
}

#[test]
fn financial_cumulative() {
    let p1 = n(on("PPMT(0.005,1,360,200000)", &[]));
    let p2 = n(on("PPMT(0.005,2,360,200000)", &[]));
    assert!((n(on("CUMPRINC(0.005,360,200000,1,2,0)", &[])) - (p1 + p2)).abs() < 0.01);
    assert!(n(on("CUMIPMT(0.005,360,200000,1,12,0)", &[])) < 0.0);
}

#[test]
fn financial_investment() {
    near_p(on("NPV(0.1,100,200,300)", &[]), 481.59, 0.01);
    near_p(on("IRR({-100,50,60,70})", &[]), 0.3387, 0.001);
    near_p(
        on("MIRR({-1000,300,400,500,600},0.1,0.12)", &[]),
        0.2014,
        0.001,
    );
}

#[test]
fn financial_xnpv_xirr() {
    near_p(on("XNPV(0.1,{-1000,1100},{40000,40365})", &[]), 0.0, 0.05);
    near_p(on("XIRR({-1000,1100},{40000,40365})", &[]), 0.1, 0.001);
}

#[test]
fn financial_depreciation() {
    assert_eq!(on("SLN(10000,1000,5)", &[]), FormulaValue::Number(1800.0));
    assert_eq!(on("SYD(10000,1000,5,1)", &[]), FormulaValue::Number(3000.0));
    near_p(on("DDB(10000,1000,5,1)", &[]), 4000.0, 0.01);
    near_p(on("DB(10000,1000,5,1)", &[]), 3690.0, 0.5);
}

#[test]
fn financial_rate_conversion() {
    near(on("EFFECT(0.10,4)", &[]), 0.1038);
    near_p(on("NOMINAL(0.1038,4)", &[]), 0.10, 0.001);
    near_p(on("RRI(8,10000,20000)", &[]), 0.0905, 0.001);
    near_p(on("PDURATION(0.05,1000,2000)", &[]), 14.21, 0.01);
}

#[test]
fn stat_means() {
    near(on("GEOMEAN(4,9)", &[]), 6.0);
    near(on("HARMEAN(1,2,4)", &[]), 12.0 / 7.0);
    assert_eq!(
        on("TRIMMEAN({1,2,3,4,100},0.4)", &[]),
        FormulaValue::Number(3.0)
    );
    assert_eq!(on("AVERAGEA(2,4,\"x\")", &[]), FormulaValue::Number(2.0));
}

#[test]
fn stat_dispersion() {
    assert_eq!(on("DEVSQ(2,4,6)", &[]), FormulaValue::Number(8.0));
    near(on("AVEDEV(2,4,6)", &[]), 4.0 / 3.0);
    near_p(on("SKEW(1,2,3,4,5)", &[]), 0.0, 1e-6);
    near_p(on("KURT(1,2,3,4,5)", &[]), -1.2, 0.1);
}

#[test]
fn stat_bivariate() {
    let g = ab_grid();
    near(on("CORREL(A1:A5,B1:B5)", &g), 1.0);
    near(on("RSQ(B1:B5,A1:A5)", &g), 1.0);
    near(on("SLOPE(B1:B5,A1:A5)", &g), 2.0);
    near(on("INTERCEPT(B1:B5,A1:A5)", &g), 0.0);
    near(on("FORECAST(6,B1:B5,A1:A5)", &g), 12.0);
    near(on("COVAR(A1:A5,B1:B5)", &g), 4.0);
}

#[test]
fn stat_order() {
    let g = ab_grid();
    assert_eq!(on("QUARTILE(A1:A5,2)", &g), FormulaValue::Number(3.0));
    assert_eq!(on("QUARTILE(A1:A5,0)", &g), FormulaValue::Number(1.0));
    assert_eq!(on("QUARTILE.EXC(A1:A5,1)", &g), FormulaValue::Number(1.5));
    near(on("PERCENTRANK(A1:A5,3)", &g), 0.5);
    assert_eq!(on("RANK.AVG(3,{1,3,3,5})", &[]), FormulaValue::Number(2.5));
}

#[test]
fn stat_normal() {
    near(on("NORM.S.DIST(0,TRUE)", &[]), 0.5);
    near_p(on("NORM.S.DIST(1.96,TRUE)", &[]), 0.975, 0.001);
    near_p(on("NORM.S.INV(0.975)", &[]), 1.96, 0.01);
    near(on("NORM.DIST(40,40,5,TRUE)", &[]), 0.5);
    near(on("STANDARDIZE(50,40,5)", &[]), 2.0);
    near_p(on("CONFIDENCE(0.05,2.5,50)", &[]), 0.693, 0.01);
}

#[test]
fn database_functions() {
    let d = db_grid();
    assert_eq!(
        on("DSUM(A1:C4,\"Qty\",E1:E2)", &d),
        FormulaValue::Number(40.0)
    );
    assert_eq!(on("DSUM(A1:C4,3,E1:E2)", &d), FormulaValue::Number(40.0));
    assert_eq!(
        on("DCOUNT(A1:C4,\"Qty\",E1:E2)", &d),
        FormulaValue::Number(2.0)
    );
    assert_eq!(
        on("DAVERAGE(A1:C4,\"Qty\",E1:E2)", &d),
        FormulaValue::Number(20.0)
    );
    assert_eq!(
        on("DMAX(A1:C4,\"Qty\",E1:E2)", &d),
        FormulaValue::Number(30.0)
    );
    assert_eq!(
        on("DMIN(A1:C4,\"Qty\",E1:E2)", &d),
        FormulaValue::Number(10.0)
    );
}

#[test]
fn database_dget_dproduct() {
    let d = db_grid();
    assert_eq!(
        on("DGET(A1:C4,\"Qty\",G1:G2)", &d),
        err(FormulaError::Value)
    );
    assert_eq!(on("DGET(A1:C4,\"Qty\",E1:E2)", &d), err(FormulaError::Num));
    assert_eq!(
        on("DPRODUCT(A1:C4,\"Qty\",E1:E2)", &d),
        FormulaValue::Number(300.0)
    );
    near(on("DSTDEV(A1:C4,\"Qty\",E1:E2)", &d), (200.0f64).sqrt());
}

#[test]
fn textref_text() {
    assert_eq!(on("TEXTBEFORE(\"a-b-c\",\"-\")", &[]), "a".into());
    assert_eq!(on("TEXTAFTER(\"a-b-c\",\"-\")", &[]), "b-c".into());
    assert_eq!(on("TEXTAFTER(\"a-b-c\",\"-\",2)", &[]), "c".into());
    assert_eq!(on("TEXTBEFORE(\"a-b-c\",\"-\",-1)", &[]), "a-b".into());
    assert_eq!(on("TEXTBEFORE(\"abc\",\"-\")", &[]), err(FormulaError::Na));
    assert_eq!(
        on("TEXTBEFORE(\"abc\",\"-\",1,\"none\")", &[]),
        "none".into()
    );
}

#[test]
fn textref_fixed_dollar_clean() {
    assert_eq!(on("FIXED(1234.567,1)", &[]), "1,234.6".into());
    assert_eq!(on("FIXED(1234.567,1,TRUE)", &[]), "1234.6".into());
    assert_eq!(on("DOLLAR(1234.5)", &[]), "$1,234.50".into());
    assert_eq!(on("DOLLAR(-1234.5)", &[]), "($1,234.50)".into());
    assert_eq!(on("CLEAN(\"a\"&CHAR(9)&\"b\")", &[]), "ab".into());
}

#[test]
fn textref_address() {
    assert_eq!(on("ADDRESS(2,3)", &[]), "$C$2".into());
    assert_eq!(on("ADDRESS(2,3,2)", &[]), "C$2".into());
    assert_eq!(on("ADDRESS(2,3,4)", &[]), "C2".into());
    assert_eq!(on("ADDRESS(2,3,1,FALSE)", &[]), "R2C3".into());
    assert_eq!(
        on("ADDRESS(2,3,1,TRUE,\"Sheet1\")", &[]),
        "Sheet1!$C$2".into()
    );
}

#[test]
fn textref_indirect() {
    let c = [((0u32, 0u32), 111.into()), ((4, 2), 999.into())];
    assert_eq!(on("INDIRECT(\"A1\")", &c), FormulaValue::Number(111.0));
    assert_eq!(on("INDIRECT(\"C5\")", &c), FormulaValue::Number(999.0));
    assert_eq!(
        on("INDIRECT(\"R5C3\",FALSE)", &c),
        FormulaValue::Number(999.0)
    );
    assert_eq!(on("INDIRECT(\"A1:C5\")", &c), FormulaValue::Number(111.0));
}

#[test]
fn textref_info() {
    assert_eq!(on("XOR(TRUE,FALSE,FALSE)", &[]), FormulaValue::Bool(true));
    assert_eq!(on("XOR(TRUE,TRUE)", &[]), FormulaValue::Bool(false));
    assert_eq!(on("ERROR.TYPE(NA())", &[]), FormulaValue::Number(7.0));
    assert_eq!(on("ERROR.TYPE(1/0)", &[]), FormulaValue::Number(2.0));
    assert_eq!(on("ISREF(A1:B2)", &[]), FormulaValue::Bool(true));
    assert_eq!(on("ISREF(5)", &[]), FormulaValue::Bool(false));
}

#[test]
fn error_propagation() {
    assert_eq!(on("ASIN(2)", &[]), err(FormulaError::Num));
    assert_eq!(on("SQRTPI(-1)", &[]), err(FormulaError::Num));
    assert_eq!(on("FACT(-1)", &[]), err(FormulaError::Num));
    assert_eq!(on("COMBIN(2,5)", &[]), err(FormulaError::Num));
    assert_eq!(on("GEOMEAN(-1,2)", &[]), err(FormulaError::Num));
    assert_eq!(on("SIN(1/0)", &[]), err(FormulaError::Div0));
    assert_eq!(on("PMT(NA(),10,100)", &[]), err(FormulaError::Na));
    assert_eq!(on("DEGREES(SQRT(-1))", &[]), err(FormulaError::Num));
}

#[test]
fn base_conversion() {
    assert_eq!(pn("=BIN2DEC(\"1100100\")"), 100.0);
    assert_eq!(pn("=BIN2DEC(\"1111111111\")"), -1.0);
    assert_eq!(pt("=DEC2BIN(100)"), "1100100");
    assert_eq!(pt("=DEC2BIN(-1)"), "1111111111");
    assert_eq!(pt("=DEC2BIN(9,4)"), "1001");
    assert_eq!(pt("=DEC2HEX(255)"), "FF");
    assert_eq!(pn("=HEX2DEC(\"FF\")"), 255.0);
    assert_eq!(pn("=HEX2DEC(\"FFFFFFFFFF\")"), -1.0);
    assert_eq!(pt("=DEC2OCT(8)"), "10");
    assert_eq!(pn("=OCT2DEC(\"10\")"), 8.0);
    assert_eq!(pt("=BIN2HEX(\"11111011\")"), "FB");
    assert_eq!(pt("=HEX2BIN(\"F\",8)"), "00001111");
    assert_eq!(pt("=OCT2HEX(\"100\")"), "40");
    assert_eq!(plain("=DEC2BIN(600)"), FormulaValue::Error(FormulaError::Num));
}

#[test]
fn bitwise() {
    assert_eq!(pn("=BITAND(13,25)"), 9.0);
    assert_eq!(pn("=BITOR(23,10)"), 31.0);
    assert_eq!(pn("=BITXOR(5,3)"), 6.0);
    assert_eq!(pn("=BITLSHIFT(4,2)"), 16.0);
    assert_eq!(pn("=BITRSHIFT(13,2)"), 3.0);
    assert_eq!(pn("=BITLSHIFT(4,-2)"), 1.0);
    assert_eq!(plain("=BITAND(-1,1)"), FormulaValue::Error(FormulaError::Num));
}

#[test]
fn delta_gestep_erf() {
    assert_eq!(pn("=DELTA(5,4)"), 0.0);
    assert_eq!(pn("=DELTA(5,5)"), 1.0);
    assert_eq!(pn("=DELTA(0)"), 1.0);
    assert_eq!(pn("=GESTEP(5,4)"), 1.0);
    assert_eq!(pn("=GESTEP(3,4)"), 0.0);
    close(pn("=ERF(1)"), 0.842700793, 1e-6);
    close(pn("=ERFC(1)"), 0.157299207, 1e-6);
    close(pn("=ERF(0,1)"), 0.842700793, 1e-6);
    close(pn("=ERF.PRECISE(1)"), 0.842700793, 1e-6);
}

#[test]
fn bessel() {
    close(pn("=BESSELJ(1.9,2)"), 0.329925829, 1e-5);
    close(pn("=BESSELI(1.5,1)"), 0.981666428, 1e-5);
    close(pn("=BESSELK(1.5,1)"), 0.277387804, 1e-4);
    close(pn("=BESSELY(2.5,1)"), 0.145918138, 1e-4);
}

#[test]
fn convert_units() {
    close(pn("=CONVERT(1,\"lbm\",\"kg\")"), 0.45359237, 1e-8);
    close(pn("=CONVERT(1,\"mi\",\"km\")"), 1.609344, 1e-6);
    close(pn("=CONVERT(100,\"C\",\"F\")"), 212.0, 1e-9);
    close(pn("=CONVERT(32,\"F\",\"C\")"), 0.0, 1e-9);
    assert_eq!(pn("=CONVERT(1,\"hr\",\"sec\")"), 3600.0);
    assert_eq!(
        plain("=CONVERT(1,\"kg\",\"m\")"),
        FormulaValue::Error(FormulaError::Na)
    );
}

#[test]
fn complex_numbers() {
    assert_eq!(pt("=COMPLEX(3,4)"), "3+4i");
    assert_eq!(pt("=COMPLEX(0,1)"), "i");
    assert_eq!(pt("=COMPLEX(3,-4,\"j\")"), "3-4j");
    assert_eq!(pn("=IMREAL(\"3+4i\")"), 3.0);
    assert_eq!(pn("=IMAGINARY(\"3+4i\")"), 4.0);
    assert_eq!(pn("=IMAGINARY(\"i\")"), 1.0);
    assert_eq!(pn("=IMABS(\"3+4i\")"), 5.0);
    close(
        pn("=IMARGUMENT(\"1+1i\")"),
        std::f64::consts::FRAC_PI_4,
        1e-9,
    );
    assert_eq!(pt("=IMSUM(\"1+2i\",\"3+4i\")"), "4+6i");
    assert_eq!(pt("=IMSUB(\"5+6i\",\"1+2i\")"), "4+4i");
    assert_eq!(pt("=IMPRODUCT(\"1+2i\",\"3+4i\")"), "-5+10i");
    assert_eq!(pt("=IMDIV(\"-5+10i\",\"3+4i\")"), "1+2i");
    assert_eq!(pt("=IMCONJUGATE(\"3+4i\")"), "3-4i");
    assert_eq!(pt("=IMEXP(\"0+0i\")"), "1");
}

#[test]
fn dates() {
    // 2024-01-15 = 45306, 2024-03-15 = 45366
    assert_eq!(pn("=DAYS(45366,45306)"), 60.0);
    assert_eq!(pn("=DAYS360(45306,45366)"), 60.0);
    close(pn("=YEARFRAC(45306,45366,0)"), 60.0 / 360.0, 1e-6);
    close(pn("=YEARFRAC(45306,45366,3)"), 60.0 / 365.0, 1e-6);
    assert_eq!(pn("=ISOWEEKNUM(45306)"), 3.0);
    close(pn("=TIMEVALUE(\"12:00:00\")"), 0.5, 1e-9);
    close(pn("=TIMEVALUE(\"6:00 PM\")"), 0.75, 1e-9);
    assert_eq!(pn("=WORKDAY(45306,5)"), 45313.0);

    let _ = pn("=WEEKNUM(45306)");
    let _ = pn("=WORKDAY.INTL(45306,5,1)");
    let _ = pn("=NETWORKDAYS.INTL(45306,45366)");
}

#[test]
fn complex_numbers_and_their_errors() {
    let num_error = FormulaValue::Error(FormulaError::Num);
    assert_eq!(plain("=COMPLEX(1,2,\"k\")"), FormulaValue::Error(FormulaError::Value));
    assert_eq!(plain("=COMPLEX(\"x\",2)"), FormulaValue::Error(FormulaError::Value));
    assert_eq!(plain("=IMREAL(\"\")"), num_error);
    assert_eq!(plain("=IMREAL(\"1+2k\")"), num_error);
    assert_eq!(plain("=IMREAL(\"1+1e999i\")"), num_error);
    assert_eq!(pn("=IMAGINARY(\"2-i\")"), -1.0);
    assert_eq!(pn("=IMAGINARY(\"1e-2+3e+1j\")"), 30.0);
    assert_eq!(pn("=IMREAL(\"4i\")"), 0.0);
    assert_eq!(pn("=IMREAL(7)"), 7.0);
    assert_eq!(plain("=IMARGUMENT(\"0\")"), FormulaValue::Error(FormulaError::Div0));
    assert_eq!(plain("=IMDIV(\"1+i\",\"0\")"), num_error);
    assert_eq!(plain("=IMDIV(\"1\",\"1e-200\")"), num_error);
    for name in ["IMLN", "IMLOG10", "IMLOG2", "IMCSC", "IMCOT", "IMCSCH"] {
        assert_eq!(plain(&format!("={name}(\"0\")")), num_error);
    }
    assert_eq!(plain("=IMEXP(\"1000\")"), num_error);
    assert_eq!(plain("=IMPOWER(\"1000\",1000)"), num_error);
    assert_eq!(plain("=IMPRODUCT(\"1e200\",\"1e200i\")"), num_error);
    assert_eq!(plain("=IMSUM()"), FormulaValue::Error(FormulaError::Value));
    assert_eq!(pt("=IMSUM(\"1+2j\",\"3i\",4)"), "5+5j");
    assert_eq!(pt("=IMPRODUCT(\"i\",\"i\",\"i\")"), "-i");
    assert_eq!(plain("=IMSUM(\"1\",\"x\",1/0)"), num_error);
    assert_eq!(pt("=IMCONJUGATE(\"3\")"), "3");
    assert_eq!(pt("=IMSQRT(\"4\")"), "2");
    assert_eq!(pt("=IMCOS(\"0\")"), "1");
    assert_eq!(pt("=IMSECH(\"0\")"), "1");
    assert_eq!(pt("=IMTAN(\"0\")"), "0");
}

#[test]
fn numerals_of_a_base_are_whole() {
    assert_eq!(pn("=DECIMAL(\"0\",10)"), 0.0);
    assert_eq!(pn("=DECIMAL(\"FF\",16)"), 255.0);
    assert_eq!(pn("=DECIMAL(\"-zz\",36)"), -1295.0);
}

#[test]
fn count_is_335() {
    let mut names: Vec<String> = BuiltinRegistry::new().names();
    names.sort();
    assert_eq!(
        names.len(),
        335,
        "expected 335 functions after eng additions"
    );

    let uniq: HashMap<_, _> = names.iter().map(|s| (s.clone(), ())).collect();
    assert_eq!(uniq.len(), 335);
}

// ---- workbooks that are calculated

/// The functions that look their cell up among the report values.
const REPORT_FETCH_NAMES: [&str; 5] = ["QM", "QC", "JE", "FS", "REF"];

type SharedValueMap = Rc<RefCell<ReportValueMap>>;

/// Registers the fetch functions; all of them read the same values.
fn register_report_fetch_functions(registry: &mut BuiltinRegistry, values: SharedValueMap) {
    for name in REPORT_FETCH_NAMES {
        let vm = values.clone();
        let fetch = move |_: &[EvaluatedArg], ctx: &EvalContext| {
            let vm = vm.borrow();
            let parsed = match vm.find(ctx.sheet_name, ctx.row, ctx.col) {
                Some(Kept::Text(s)) => s.trim().parse::<f64>().ok().map(num),
                _ => None,
            };
            from_kept(&Kept::Number(vm.get_number(ctx.sheet_name, ctx.row, ctx.col, parsed)))
        };
        registry.register(name, Rc::new(fetch), true);
    }
}

/// A workbook that is calculated: its sheets, the sheet that is shown and its names.
#[derive(Default)]
struct CalcBook {
    sheets: Vec<BookSheet>,
    active: usize,
    names: Vec<DefinedNameSnapshot>,
}

impl CalcBook {
    fn cell_mut(&mut self, sheet: usize, row: u32, col: u32) -> &mut BookCell {
        let cells = &mut self.sheets[sheet].cells;
        let i = match cells.iter().position(|c| c.row == row && c.col == col) {
            Some(i) => i,
            None => {
                cells.push(BookCell { row, col, content: None, formula: None });
                cells.len() - 1
            }
        };
        &mut cells[i]
    }

    fn set_value(&mut self, sheet: usize, row: u32, col: u32, content: Option<CellContent>) {
        let cell = self.cell_mut(sheet, row, col);
        cell.content = content;
        cell.formula = None;
    }

    fn set_formula(&mut self, sheet: usize, row: u32, col: u32, formula: &str) {
        let text = formula.strip_prefix('=').unwrap_or(formula).to_string();
        self.cell_mut(sheet, row, col).formula = Some(text);
    }

    fn value(&self, sheet: usize, row: u32, col: u32) -> Option<&CellContent> {
        let cell = self.sheets.get(sheet)?.cells.iter().find(|c| c.row == row && c.col == col)?;
        cell.content.as_ref()
    }
}

/// What a name refers to: one of the sheet before one of the workbook.
fn resolve_name(names: &[DefinedNameSnapshot], name: &str, sheet: &str) -> Option<String> {
    let of = |scope: &str| {
        let found = names.iter().rev().find(|n| n.name == name && n.scope == scope)?;
        Some(found.refers_to.clone())
    };
    of(sheet).or_else(|| of("workbook"))
}

/// The cells of a workbook as a formula reads them, with what this round has computed so far.
struct BookAccessor<'a> {
    names: &'a [DefinedNameSnapshot],
    at: &'a At<'a>,
}

impl CellAccessor for BookAccessor<'_> {
    fn get_cell_value(&self, reference: &str) -> FormulaValue {
        let at = self.at;
        from_kept(&get_cell_value(at.sheets, at.writes, at.sheet_name, reference))
    }

    fn get_range_values(&self, start: &str, end: &str) -> Vec<Vec<FormulaValue>> {
        let at = self.at;
        get_range_values(at.sheets, at.writes, at.sheet_name, start, end)
            .iter()
            .map(|row| row.iter().map(from_kept).collect())
            .collect()
    }

    fn fetch(&self, reference: &str) -> FormulaValue {
        from_kept(&fetch(self.at, reference))
    }

    fn resolve_name_ref(&self, name: &str) -> Option<String> {
        resolve_name(self.names, name, self.at.sheet_name)
    }
}

/// The functions and the names that the formulas of a workbook use.
struct BookHost<'a> {
    registry: &'a BuiltinRegistry,
    names: &'a [DefinedNameSnapshot],
    seconds: u64,
}

impl<'a> BookHost<'a> {
    fn new(registry: &'a BuiltinRegistry, names: &'a [DefinedNameSnapshot]) -> Self {
        BookHost { registry, names, seconds: seconds_now() }
    }
}

impl FunctionRegistry for BookHost<'_> {
    fn answer(&self, q: Query, at: &At) -> Answer {
        let accessor = BookAccessor { names: self.names, at };
        let ctx = EvalContext {
            accessor: &accessor,
            row: at.row,
            col: at.col,
            sheet_name: at.sheet_name,
            seconds: self.seconds,
        };
        self.registry.answer(q, &ctx)
    }
}

/// Calculates workbooks.
struct FormulaEngine {
    registry: BuiltinRegistry,
    values: SharedValueMap,
    planner: Planner,
}

impl Default for FormulaEngine {
    fn default() -> Self {
        FormulaEngine::new()
    }
}

impl FormulaEngine {
    fn new() -> Self {
        let mut registry = BuiltinRegistry::new();
        let values: SharedValueMap = Rc::new(RefCell::new(ReportValueMap::new()));
        register_report_fetch_functions(&mut registry, values.clone());
        FormulaEngine { registry, values, planner: Planner::new() }
    }

    fn registry_mut(&mut self) -> &mut BuiltinRegistry {
        &mut self.registry
    }

    /// Takes report values and calculates everything.
    fn set_report_value_map(&mut self, book: &mut CalcBook, raw: &[(String, FormulaValue)]) {
        let active = book.sheets.get(book.active).map(|s| s.name.clone()).unwrap_or_default();
        let kept = raw.iter().map(|(k, v)| (k.clone(), to_kept(v))).collect();
        self.values.borrow_mut().set(&kept, &active);
        self.recalc_all(book);
    }

    /// Calculates every formula.
    fn recalc_all(&mut self, book: &mut CalcBook) {
        let host = BookHost::new(&self.registry, &book.names);
        self.planner.recalc_all(&mut book.sheets, &host);
    }

    /// Calculates what depends on the cells that changed.
    fn recalc_cells(&mut self, book: &mut CalcBook, changed: &[(String, u32, u32)]) {
        let seeds = changed
            .iter()
            .map(|(sheet, row, col)| Seed { sheet: sheet.clone(), row: *row, col: *col })
            .collect();
        let volatile = self.registry.volatile_names();
        let host = BookHost::new(&self.registry, &book.names);
        self.planner.recalc_cells(&mut book.sheets, &seeds, &volatile, &host);
    }

    /// The value of a formula that stands in no cell.
    fn evaluate_formula(
        &mut self,
        book: &CalcBook,
        sheet: &str,
        formula: &str,
        row: u32,
        col: u32,
    ) -> FormulaValue {
        let host = BookHost::new(&self.registry, &book.names);
        let value =
            self.planner.evaluate_formula(&book.sheets, sheet, formula, row, col, &host);
        from_kept(&value)
    }
}


struct EmptyAccessor;

impl CellAccessor for EmptyAccessor {
    fn get_cell_value(&self, _r: &str) -> FormulaValue {
        FormulaValue::Blank
    }
    fn get_range_values(&self, _s: &str, _e: &str) -> Vec<Vec<FormulaValue>> {
        vec![vec![FormulaValue::Blank]]
    }
}

fn setup(map: &[(&str, FormulaValue)], active: &str) -> (BuiltinRegistry, SharedValueMap) {
    let mut reg = BuiltinRegistry::new();
    let vm: SharedValueMap = Rc::new(RefCell::new(ReportValueMap::new()));
    let kept = map.iter().map(|(k, v)| (k.to_string(), to_kept(v))).collect();
    vm.borrow_mut().set(&kept, active);
    register_report_fetch_functions(&mut reg, vm.clone());
    (reg, vm)
}

fn eval_at(reg: &BuiltinRegistry, src: &str, sheet: &str, row: u32, col: u32) -> FormulaValue {
    let acc = EmptyAccessor;
    let ctx = EvalContext { accessor: &acc, row, col, sheet_name: sheet, seconds: seconds_now() };
    Evaluator::new(reg).evaluate(&parse_formula(src).unwrap(), &ctx)
}

#[test]
fn registers_all_five_volatile() {
    let (reg, _vm) = setup(&[], "Sheet1");
    for name in REPORT_FETCH_NAMES {
        assert!(reg.known(name));
        assert!(reg.is_volatile(name));
    }
}

#[test]
fn context_sensitive_fetch() {
    let (reg, _vm) = setup(&[("Sheet1!C3", FormulaValue::Number(885000.0))], "Sheet1");
    assert_eq!(
        eval_at(&reg, "QM(\"balance\",\"period\")", "Sheet1", 2, 2),
        FormulaValue::Number(885000.0)
    );
    assert_eq!(
        eval_at(&reg, "QM(\"balance\",\"period\")", "Sheet1", 5, 5),
        FormulaValue::Number(0.0)
    );
}

#[test]
fn all_five_read_same_cell() {
    let (reg, _vm) = setup(&[("Sheet1!B2", FormulaValue::Number(42.0))], "Sheet1");
    for name in REPORT_FETCH_NAMES {
        assert_eq!(
            eval_at(&reg, &format!("{name}()"), "Sheet1", 1, 1),
            FormulaValue::Number(42.0)
        );
    }
}

#[test]
fn participates_in_arithmetic() {
    let (reg, _vm) = setup(&[("Sheet1!C3", FormulaValue::Number(100.0))], "Sheet1");
    assert_eq!(
        eval_at(&reg, "QM()+QC()", "Sheet1", 2, 2),
        FormulaValue::Number(200.0)
    );
    assert_eq!(
        eval_at(&reg, "QM()+5", "Sheet1", 8, 8),
        FormulaValue::Number(5.0)
    );
}

#[test]
fn volatile_map_update_changes_result() {
    let (reg, vm) = setup(&[("Sheet1!C3", FormulaValue::Number(100.0))], "Sheet1");
    assert_eq!(
        eval_at(&reg, "QM()", "Sheet1", 2, 2),
        FormulaValue::Number(100.0)
    );
    vm.borrow_mut().set(&vec![("Sheet1!C3".to_string(), Kept::Number(num(999.0)))], "Sheet1");
    assert_eq!(
        eval_at(&reg, "QM()", "Sheet1", 2, 2),
        FormulaValue::Number(999.0)
    );
}

#[test]
fn fetch_feeds_arithmetic_aggregation() {
    let (reg, _vm) = setup(&[("Sheet1!C3", FormulaValue::Number(100.0))], "Sheet1");
    assert_eq!(
        eval_at(&reg, "ROUND(QM()*1.5, 0)", "Sheet1", 2, 2),
        FormulaValue::Number(150.0)
    );
}

fn sized(name: &str, rows: u32, cols: u32) -> BookSheet {
    BookSheet { name: name.to_string(), rows, cols, cells: Vec::new() }
}

fn fresh() -> (CalcBook, FormulaEngine) {
    let book = CalcBook { sheets: vec![sized("Sheet1", 30, 10)], ..Default::default() };
    (book, FormulaEngine::new())
}

fn whole(n: i64) -> Option<CellContent> {
    Some(CellContent::Number(num(n as f64)))
}

fn num_at(wb: &CalcBook, row: u32, col: u32) -> Option<f64> {
    match wb.value(0, row, col) {
        Some(CellContent::Number(n)) => Some(float(*n)),
        _ => None,
    }
}

fn text_in(wb: &CalcBook, row: u32, col: u32) -> Option<&str> {
    match wb.value(0, row, col) {
        Some(CellContent::Text(s)) => Some(s),
        _ => None,
    }
}

fn formula_in(wb: &CalcBook, row: u32, col: u32) -> &str {
    let cell = wb.sheets[0].cells.iter().find(|c| c.row == row && c.col == col);
    cell.and_then(|c| c.formula.as_deref()).unwrap_or("")
}

#[test]
fn sum_over_range_writes_back() {
    let (mut wb, mut engine) = fresh();
    {
        let ws = &mut wb;
        ws.set_value(0, 0, 2, whole(100));
        ws.set_value(0, 1, 2, whole(200));
        ws.set_value(0, 2, 2, whole(300));
        ws.set_formula(0, 3, 2, "SUM(C1:C3)");
    }
    engine.recalc_all(&mut wb);
    assert_eq!(num_at(&wb, 3, 2), Some(600.0));
    assert_eq!(formula_in(&wb, 3, 2), "SUM(C1:C3)");
}

#[test]
fn chained_formulas_recompute_transitively() {
    let (mut wb, mut engine) = fresh();
    {
        let ws = &mut wb;
        ws.set_value(0, 0, 0, whole(10));
        ws.set_formula(0, 1, 0, "A1*2");
        ws.set_formula(0, 2, 0, "A2+5");
    }
    engine.recalc_all(&mut wb);
    assert_eq!(num_at(&wb, 1, 0), Some(20.0));
    assert_eq!(num_at(&wb, 2, 0), Some(25.0));
}

#[test]
fn recalc_after_input_change_propagates() {
    let (mut wb, mut engine) = fresh();
    {
        let ws = &mut wb;
        ws.set_value(0, 0, 0, whole(10));
        ws.set_formula(0, 1, 0, "A1*2");
    }
    engine.recalc_all(&mut wb);
    assert_eq!(num_at(&wb, 1, 0), Some(20.0));
    wb.set_value(0, 0, 0, whole(50));
    engine.recalc_all(&mut wb);
    assert_eq!(num_at(&wb, 1, 0), Some(100.0));
}

#[test]
fn marks_2_cycle_circ() {
    let (mut wb, mut engine) = fresh();
    {
        let ws = &mut wb;
        ws.set_formula(0, 0, 0, "B1");
        ws.set_formula(0, 0, 1, "A1");
    }
    engine.recalc_all(&mut wb);
    assert_eq!(text_in(&wb, 0, 0), Some("#CIRC!"));
    assert_eq!(text_in(&wb, 0, 1), Some("#CIRC!"));
}

#[test]
fn marks_self_reference_circ() {
    let (mut wb, mut engine) = fresh();
    wb.set_formula(0, 0, 0, "A1+1");
    engine.recalc_all(&mut wb);
    assert_eq!(text_in(&wb, 0, 0), Some("#CIRC!"));
}

#[test]
fn if_nested_functions() {
    let (mut wb, mut engine) = fresh();
    {
        let ws = &mut wb;
        ws.set_value(0, 0, 0, whole(8));
        ws.set_formula(0, 1, 0, "IF(A1>5, ROUND(A1*1.5,0), 0)");
    }
    engine.recalc_all(&mut wb);
    assert_eq!(num_at(&wb, 1, 0), Some(12.0));
}

#[test]
fn div_by_zero() {
    let (mut wb, mut engine) = fresh();
    {
        let ws = &mut wb;
        ws.set_value(0, 0, 0, whole(5));
        ws.set_value(0, 1, 0, whole(0));
        ws.set_formula(0, 2, 0, "A1/A2");
    }
    engine.recalc_all(&mut wb);
    assert_eq!(text_in(&wb, 2, 0), Some("#DIV/0!"));
}

#[test]
fn qm_reads_per_cell_value() {
    let (mut wb, mut engine) = fresh();
    wb.set_formula(0, 2, 2, "QM()");
    engine.set_report_value_map(
        &mut wb,
        &[("Sheet1!C3".to_string(), FormulaValue::Number(885000.0))],
    );
    assert_eq!(num_at(&wb, 2, 2), Some(885000.0));
}

#[test]
fn qm_participates_in_sum() {
    let (mut wb, mut engine) = fresh();
    {
        let ws = &mut wb;
        ws.set_formula(0, 0, 2, "QM()");
        ws.set_formula(0, 1, 2, "QM()");
        ws.set_formula(0, 2, 2, "SUM(C1:C2)");
    }
    engine.set_report_value_map(
        &mut wb,
        &[
            ("Sheet1!C1".to_string(), FormulaValue::Number(100.0)),
            ("Sheet1!C2".to_string(), FormulaValue::Number(200.0)),
        ],
    );
    assert_eq!(num_at(&wb, 0, 2), Some(100.0));
    assert_eq!(num_at(&wb, 1, 2), Some(200.0));
    assert_eq!(num_at(&wb, 2, 2), Some(300.0));
}

#[test]
fn evaluate_formula_direct() {
    let (mut wb, mut engine) = fresh();
    {
        let ws = &mut wb;
        ws.set_value(0, 0, 0, whole(10));
        ws.set_value(0, 1, 0, whole(20));
    }
    assert_eq!(
        engine.evaluate_formula(&wb, "Sheet1", "SUM(A1:A2)", 0, 0),
        FormulaValue::Number(30.0)
    );
}

#[test]
fn cross_sheet_refs() {
    let (mut wb, mut engine) = fresh();
    wb.sheets.push(sized("Sheet2", 10, 5));
    wb.set_value(1, 0, 0, whole(42));
    wb.set_formula(0, 0, 0, "Sheet2!A1*2");
    engine.recalc_all(&mut wb);
    assert_eq!(num_at(&wb, 0, 0), Some(84.0));
}

#[test]
fn named_range_recalc() {
    let (mut wb, mut engine) = fresh();
    {
        let ws = &mut wb;
        ws.set_value(0, 0, 0, whole(10));
        ws.set_value(0, 1, 0, whole(20));
        ws.set_value(0, 2, 0, whole(30));
    }
    wb.names.push(DefinedNameSnapshot {
        name: "SALES".to_string(),
        refers_to: "A1:A3".to_string(),
        scope: "workbook".to_string(),
    });
    wb.set_formula(0, 0, 2, "SUM(SALES)");
    engine.recalc_all(&mut wb);
    assert_eq!(num_at(&wb, 0, 2), Some(60.0));
    wb.set_value(0, 1, 0, whole(200));
    engine.recalc_all(&mut wb);
    assert_eq!(num_at(&wb, 0, 2), Some(240.0));
}

#[test]
fn names_are_read_again_after_an_edit() {
    let (mut wb, mut engine) = fresh();
    for (row, x) in [(0, 10), (1, 20), (2, 30)] {
        wb.set_value(0, row, 0, whole(x));
    }
    wb.names.push(DefinedNameSnapshot {
        name: "SALES".to_string(),
        refers_to: "A1:A3".to_string(),
        scope: "workbook".to_string(),
    });
    wb.set_formula(0, 0, 2, "SUM(SALES)");
    engine.recalc_all(&mut wb);
    assert_eq!(num_at(&wb, 0, 2), Some(60.0));
    wb.set_value(0, 1, 0, whole(200));
    engine.recalc_cells(&mut wb, &[("Sheet1".to_string(), 1, 0)]);
    assert_eq!(num_at(&wb, 0, 2), Some(240.0));
}

#[test]
fn every_formula_holds_what_its_cells_give() {
    let (mut wb, mut engine) = fresh();
    wb.set_value(0, 0, 0, whole(3));
    wb.set_formula(0, 0, 1, "C1+A1");
    wb.set_formula(0, 0, 2, "A1*A1");
    wb.set_formula(0, 0, 3, "SUM(A1:C1)");
    engine.recalc_all(&mut wb);
    for (col, formula) in [(1, "C1+A1"), (2, "A1*A1"), (3, "SUM(A1:C1)")] {
        let again = n(engine.evaluate_formula(&wb, "Sheet1", formula, 0, col));
        assert_eq!(num_at(&wb, 0, col), Some(again));
    }
    assert_eq!(num_at(&wb, 0, 3), Some(24.0));
}

#[test]
fn edits_leave_every_formula_with_its_value() {
    let (mut wb, mut engine) = fresh();
    let formulas = [(1, "A1*2"), (2, "B1+1"), (3, "F1*10"), (4, "C1+D1")];
    wb.set_value(0, 0, 0, whole(3));
    wb.set_value(0, 0, 5, whole(4));
    for (col, formula) in formulas {
        wb.set_formula(0, 0, col, formula);
    }
    engine.recalc_all(&mut wb);
    assert_eq!(num_at(&wb, 0, 4), Some(47.0));
    wb.set_value(0, 0, 0, whole(5));
    wb.set_formula(0, 0, 2, "B1+2");
    engine.recalc_cells(
        &mut wb,
        &[("Sheet1".to_string(), 0, 0), ("Sheet1".to_string(), 0, 2)],
    );
    for (col, formula) in [(1, "A1*2"), (2, "B1+2"), (3, "F1*10"), (4, "C1+D1")] {
        let again = n(engine.evaluate_formula(&wb, "Sheet1", formula, 0, col));
        assert_eq!(num_at(&wb, 0, col), Some(again));
    }
    assert_eq!(num_at(&wb, 0, 4), Some(52.0));
    let kept: Vec<Option<f64>> = (0..6).map(|col| num_at(&wb, 0, col)).collect();
    engine.recalc_all(&mut wb);
    let again: Vec<Option<f64>> = (0..6).map(|col| num_at(&wb, 0, col)).collect();
    assert_eq!(kept, again);
}

#[test]
fn whole_column_clamped_aggregation() {
    let (mut wb, mut engine) = fresh();
    {
        let ws = &mut wb;
        ws.set_value(0, 0, 0, whole(5));
        ws.set_value(0, 3, 0, whole(7));
        ws.set_value(0, 29, 0, whole(3));
        ws.set_formula(0, 0, 2, "SUM(A:A)");
    }
    engine.recalc_all(&mut wb);
    assert_eq!(num_at(&wb, 0, 2), Some(15.0));
}

#[test]
fn array_literal_end_to_end() {
    let (mut wb, mut engine) = fresh();
    wb.set_formula(0, 0, 0, "SUM({1,2;3,4})");
    engine.recalc_all(&mut wb);
    assert_eq!(num_at(&wb, 0, 0), Some(10.0));
}

#[test]
fn incremental_recalc_after_edit() {
    let (mut wb, mut engine) = fresh();
    {
        let ws = &mut wb;
        ws.set_value(0, 0, 0, whole(10));
        ws.set_formula(0, 1, 0, "A1*2");
        ws.set_formula(0, 2, 0, "A2+5");
    }
    engine.recalc_all(&mut wb);
    assert_eq!(num_at(&wb, 2, 0), Some(25.0));
    wb.set_value(0, 0, 0, whole(100));
    engine.recalc_cells(&mut wb, &[("Sheet1".to_string(), 0, 0)]);
    assert_eq!(num_at(&wb, 1, 0), Some(200.0));
    assert_eq!(num_at(&wb, 2, 0), Some(205.0));
}

#[test]
fn values_are_read_for_functions() {
    let text = reading(&Kept::Text(" >= 12 ".to_string()));
    assert_eq!(text.parsed, None);
    assert_eq!(text.operand, Some(num(12.0)));
    let plain = reading(&Kept::Text(" 12 ".to_string()));
    assert_eq!((plain.parsed, plain.operand), (Some(num(12.0)), Some(num(12.0))));
    let complex = reading(&Kept::Text("3+4i".to_string()));
    assert_eq!((complex.re, complex.im), (Some(num(3.0)), Some(num(4.0))));
    let spaced = reading(&Kept::Text("3 +4i".to_string()));
    assert_eq!((spaced.re, spaced.im), (None, Some(num(4.0))));
    let number = reading(&Kept::Number(num(2.5)));
    assert_eq!((number.shown.as_str(), number.re, number.im), ("2.5", Some(num(2.5)), None));
    let error = reading(&Kept::Error(FormulaError::Ref));
    assert_eq!((error.re, error.im), (None, None));
}

#[test]
fn numerals_of_functions_are_finite() {
    assert_eq!(numeral_value(Some(num(2.5))), Kept::Number(num(2.5)));
    assert_eq!(numeral_value(Some(num(f64::INFINITY))), Kept::Error(FormulaError::Value));
    assert_eq!(numeral_value(None), Kept::Error(FormulaError::Value));
}

#[test]
fn functions_are_called_by_any_letters() {
    let place = Place { row: 4, col: 2, seconds: 0 };
    let none: Vec<EvaluatedArg> = Vec::new();
    match call_function("row", &none, place, &numeral, &shortest) {
        Some(Some(Reply::Int(n))) => assert_eq!(n, 5),
        other => panic!("{other:?}"),
    }
    assert!(call_function("NO.SUCH", &none, place, &numeral, &shortest).is_none());
}

#[test]
fn a_reply_that_does_not_fit_is_a_value_error() {
    let node = parse_formula("1+2").unwrap();
    let mut machine = Machine::new(&node);
    assert!(matches!(machine.start(), Step::Ask(Query::Literal(_))));
    match machine.resume(Answer::Truth(true)) {
        Step::Done(v) => assert_eq!(scalar_arg(Some(&v)), Kept::Error(FormulaError::Value)),
        Step::Ask(q) => panic!("{q:?}"),
    }
}

/// A registry that knows nothing and answers everything with a truth value.
struct Stubborn;

impl FunctionRegistry for Stubborn {
    fn answer(&self, _q: Query, _at: &At) -> Answer {
        Answer::Truth(false)
    }
}

#[test]
fn formulas_that_ask_nothing_go_by_cells_alone() {
    let (mut wb, _) = fresh();
    wb.set_value(0, 0, 0, whole(3));
    let planner = Planner::new();
    let given = |f: &str| planner.evaluate_formula(&wb.sheets, "Sheet1", f, 0, 1, &Stubborn);
    assert_eq!(given("\"x\""), Kept::Text("x".to_string()));
    assert_eq!(given("A1"), Kept::Number(num(3.0)));
    assert_eq!(given("A1=A1"), Kept::Bool(true));
    assert_eq!(given("TRUE"), Kept::Bool(true));
    assert_eq!(given("1"), Kept::Error(FormulaError::Value));
    assert_eq!(given("SUM(A1)"), Kept::Error(FormulaError::Name));
    assert_eq!(given("("), Kept::Error(FormulaError::Name));
}

#[test]
fn other_functions_of_a_registry_do_not_matter() {
    let (mut wb, mut engine) = fresh();
    wb.set_value(0, 0, 0, whole(3));
    wb.set_formula(0, 0, 1, "A1*2");
    wb.set_formula(0, 0, 2, "INDIRECT(\"B1\")");
    wb.set_formula(0, 0, 3, "B1+1");
    engine.recalc_all(&mut wb);
    for (col, formula) in [(1, "A1*2"), (3, "B1+1")] {
        let again = n(engine.evaluate_formula(&wb, "Sheet1", formula, 0, col));
        assert_eq!(num_at(&wb, 0, col), Some(again));
    }
    let far = n(engine.evaluate_formula(&wb, "Sheet1", "INDIRECT(\"A1:B1\")", 0, 5));
    assert_eq!(far, 3.0);
}

#[test]
fn bessel_functions_of_order_zero() {
    close(pn("=BESSELJ(0,0)"), 1.0, 1e-7);
    close(pn("=BESSELJ(1,0)"), 0.765197687, 1e-7);
}

#[test]
fn small_numbers_are_shown() {
    assert_eq!(number_to_text(1e-300), "1e-300");
    assert_eq!(number_to_text(0.1 + 0.2), "0.3");
}

fn area() -> EvaluatedArg {
    EvaluatedArg::Range(vec![
        vec![Kept::Number(num(1.0)), Kept::Text("2".to_string())],
        vec![Kept::Error(FormulaError::Ref), Kept::Blank],
    ])
}

#[test]
fn arguments_are_laid_flat() {
    let one = EvaluatedArg::Value(Kept::Bool(true));
    assert_eq!(flatten_arg(&one), vec![Kept::Bool(true)]);
    let all = flatten_args(&vec![one, area()]);
    assert_eq!(all.len(), 5);
    assert_eq!(all[1], Kept::Number(num(1.0)));
    assert_eq!(all[4], Kept::Blank);
    assert_eq!(first_error(&all), Some(FormulaError::Ref));
    assert_eq!(first_error(&vec![Kept::Blank]), None);
}

#[test]
fn arguments_are_matrices() {
    assert_eq!(as_matrix(None), vec![vec![Kept::Blank]]);
    let one = EvaluatedArg::Value(Kept::Bool(true));
    assert_eq!(as_matrix(Some(&one)), vec![vec![Kept::Bool(true)]]);
    let rows = as_matrix(Some(&area()));
    assert_eq!(rows.len(), 2);
    assert_eq!(rows[0][1], Kept::Text("2".to_string()));
}

#[test]
fn numbers_of_arguments_stop_at_an_error() {
    let fine = vec![
        argument(&EvaluatedArg::Value(Kept::Number(num(4.0)))),
        argument(&EvaluatedArg::Value(Kept::Bool(true))),
    ];
    assert_eq!(numeric_values(&fine), Ok(vec![num(4.0), num(1.0)]));
    assert_eq!(numeric_values(&vec![argument(&area())]), Err(FormulaError::Ref));
}

#[test]
fn numerals_of_bases() {
    assert_eq!(radix_string(0, 2), "0");
    assert_eq!(radix_string(10, 2), "1010");
    assert_eq!(radix_string(255, 16), "FF");
    assert_eq!(radix_string(-1, 8), "");
}

#[test]
fn operators_of_database_criteria() {
    let split = |s: &str| split_operator_db(s);
    assert_eq!(split(">=5"), (">=".to_string(), "5".to_string()));
    assert_eq!(split("<>"), ("<>".to_string(), String::new()));
    assert_eq!(split("pear"), (String::new(), "pear".to_string()));
}
