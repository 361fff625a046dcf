//! The names of the functions that every formula may call.
use crate::builtin::{
    builtin_named, date_named, logic_named, lookup_named, placed_named, series_named, text_named,
    total_named, whole_named,
};
use crate::complex_fn::complex_named;
use crate::number_fn::{annuity, arithmetic, normal, trigonometry};
use crate::text::{push_unique, texts};
use vstd::prelude::*;

verus! {

/// Adds a name to names, unless it is there.
fn add_name(out: &mut Vec<String>, name: &str)
    requires
        texts(old(out)@).no_duplicates(),
    ensures
        texts(final(out)@).no_duplicates(),
        forall|n: Seq<char>| #[trigger]
            texts(final(out)@).contains(n) <==> texts(old(out)@).contains(n) || n == name@,
{
    let ghost before = texts(out@);
    let added: bool = push_unique(out, name);
    proof {
        let after = texts(out@);
        assert forall|n: Seq<char>| #[trigger] after.contains(n) <==> before.contains(n) || n
            == name@ by {
            if added {
                if before.contains(n) {
                    assert(after[before.index_of(n)] == n);
                }
                if n == name@ {
                    assert(after[before.len() as int] == n);
                }
            }
        }
    }
}

/// Adds the names of the functions that total up or count.
fn add_total(out: &mut Vec<String>)
    requires
        texts(old(out)@).no_duplicates(),
    ensures
        texts(final(out)@).no_duplicates(),
        forall|n: Seq<char>| #[trigger]
            texts(final(out)@).contains(n) <==> texts(old(out)@).contains(n) || total_named(n) is Some,
{
    add_name(out, "SUM");
    add_name(out, "AVERAGE");
    add_name(out, "PRODUCT");
    add_name(out, "MAX");
    add_name(out, "MIN");
    add_name(out, "SUMSQ");
    add_name(out, "STDEV");
    add_name(out, "STDEV.S");
    add_name(out, "STDEVP");
    add_name(out, "STDEV.P");
    add_name(out, "VAR");
    add_name(out, "VAR.S");
    add_name(out, "VARP");
    add_name(out, "VAR.P");
    add_name(out, "MEDIAN");
    add_name(out, "MODE");
    add_name(out, "MODE.SNGL");
    add_name(out, "DEVSQ");
    add_name(out, "AVEDEV");
    add_name(out, "SKEW");
    add_name(out, "SKEW.P");
    add_name(out, "KURT");
    add_name(out, "GEOMEAN");
    add_name(out, "HARMEAN");
    add_name(out, "AVERAGEA");
    add_name(out, "MAXA");
    add_name(out, "MINA");
    add_name(out, "STDEVA");
    add_name(out, "STDEVPA");
    add_name(out, "VARA");
    add_name(out, "VARPA");
    add_name(out, "COUNT");
    add_name(out, "COUNTA");
    add_name(out, "COUNTBLANK");
    add_name(out, "SUBTOTAL");
    add_name(out, "SUMIF");
    add_name(out, "COUNTIF");
    add_name(out, "AVERAGEIF");
    add_name(out, "SUMIFS");
    add_name(out, "COUNTIFS");
    add_name(out, "AVERAGEIFS");
    add_name(out, "MAXIFS");
    add_name(out, "MINIFS");
    add_name(out, "DSUM");
    add_name(out, "DAVERAGE");
    add_name(out, "DMAX");
    add_name(out, "DMIN");
    add_name(out, "DPRODUCT");
    add_name(out, "DSTDEV");
    add_name(out, "DSTDEVP");
    add_name(out, "DVAR");
    add_name(out, "DVARP");
    add_name(out, "DCOUNT");
    add_name(out, "DCOUNTA");
    add_name(out, "DGET");
}

/// Adds the names of the functions that decide.
fn add_logic(out: &mut Vec<String>)
    requires
        texts(old(out)@).no_duplicates(),
    ensures
        texts(final(out)@).no_duplicates(),
        forall|n: Seq<char>| #[trigger]
            texts(final(out)@).contains(n) <==> texts(old(out)@).contains(n) || logic_named(n) is Some,
{
    add_name(out, "IF");
    add_name(out, "IFERROR");
    add_name(out, "IFNA");
    add_name(out, "AND");
    add_name(out, "OR");
    add_name(out, "XOR");
    add_name(out, "NOT");
    add_name(out, "IFS");
    add_name(out, "SWITCH");
    add_name(out, "CHOOSE");
    add_name(out, "COALESCE");
    add_name(out, "TRUE");
    add_name(out, "FALSE");
    add_name(out, "ISBLANK");
    add_name(out, "ISEMPTY");
    add_name(out, "ISERROR");
    add_name(out, "ISNUMBER");
    add_name(out, "ISTEXT");
    add_name(out, "ISLOGICAL");
    add_name(out, "ISNONTEXT");
    add_name(out, "ISNA");
    add_name(out, "ISERR");
    add_name(out, "ISODD");
    add_name(out, "ISEVEN");
    add_name(out, "N");
    add_name(out, "T");
    add_name(out, "TYPE");
    add_name(out, "ERROR.TYPE");
    add_name(out, "ISREF");
    add_name(out, "ROWS");
    add_name(out, "COLUMNS");
    add_name(out, "NA");
}

/// Adds the names of the functions that work on texts.
fn add_text(out: &mut Vec<String>)
    requires
        texts(old(out)@).no_duplicates(),
    ensures
        texts(final(out)@).no_duplicates(),
        forall|n: Seq<char>| #[trigger]
            texts(final(out)@).contains(n) <==> texts(old(out)@).contains(n) || text_named(n) is Some,
{
    add_name(out, "CONCATENATE");
    add_name(out, "CONCAT");
    add_name(out, "TEXTJOIN");
    add_name(out, "LEFT");
    add_name(out, "RIGHT");
    add_name(out, "MID");
    add_name(out, "REPLACE");
    add_name(out, "LEN");
    add_name(out, "TRIM");
    add_name(out, "UPPER");
    add_name(out, "LOWER");
    add_name(out, "PROPER");
    add_name(out, "CLEAN");
    add_name(out, "SUBSTITUTE");
    add_name(out, "FIND");
    add_name(out, "SEARCH");
    add_name(out, "REPT");
    add_name(out, "EXACT");
    add_name(out, "CHAR");
    add_name(out, "UNICHAR");
    add_name(out, "CODE");
    add_name(out, "UNICODE");
    add_name(out, "NUMBERVALUE");
    add_name(out, "TEXTBEFORE");
    add_name(out, "TEXTAFTER");
    add_name(out, "TEXT");
    add_name(out, "FIXED");
    add_name(out, "DOLLAR");
}

/// Adds the names of the functions that look up.
fn add_lookup(out: &mut Vec<String>)
    requires
        texts(old(out)@).no_duplicates(),
    ensures
        texts(final(out)@).no_duplicates(),
        forall|n: Seq<char>| #[trigger]
            texts(final(out)@).contains(n) <==> texts(old(out)@).contains(n) || lookup_named(n) is Some,
{
    add_name(out, "VLOOKUP");
    add_name(out, "HLOOKUP");
    add_name(out, "INDEX");
    add_name(out, "MATCH");
    add_name(out, "LOOKUP");
    add_name(out, "XLOOKUP");
    add_name(out, "ADDRESS");
    add_name(out, "INDIRECT");
}

/// Adds the names of the functions that work on whole numbers.
fn add_whole(out: &mut Vec<String>)
    requires
        texts(old(out)@).no_duplicates(),
    ensures
        texts(final(out)@).no_duplicates(),
        forall|n: Seq<char>| #[trigger]
            texts(final(out)@).contains(n) <==> texts(old(out)@).contains(n) || whole_named(n) is Some,
{
    add_name(out, "BIN2DEC");
    add_name(out, "OCT2DEC");
    add_name(out, "HEX2DEC");
    add_name(out, "BIN2OCT");
    add_name(out, "BIN2HEX");
    add_name(out, "OCT2BIN");
    add_name(out, "OCT2HEX");
    add_name(out, "HEX2BIN");
    add_name(out, "HEX2OCT");
    add_name(out, "DEC2BIN");
    add_name(out, "DEC2OCT");
    add_name(out, "DEC2HEX");
    add_name(out, "BASE");
    add_name(out, "DECIMAL");
    add_name(out, "ROMAN");
    add_name(out, "ARABIC");
    add_name(out, "GCD");
    add_name(out, "LCM");
    add_name(out, "BITAND");
    add_name(out, "BITOR");
    add_name(out, "BITXOR");
    add_name(out, "BITLSHIFT");
    add_name(out, "BITRSHIFT");
    add_name(out, "DELTA");
    add_name(out, "GESTEP");
    add_name(out, "SIGN");
}

/// Adds the names of the functions that work on dates.
fn add_date(out: &mut Vec<String>)
    requires
        texts(old(out)@).no_duplicates(),
    ensures
        texts(final(out)@).no_duplicates(),
        forall|n: Seq<char>| #[trigger]
            texts(final(out)@).contains(n) <==> texts(old(out)@).contains(n) || date_named(n) is Some,
{
    add_name(out, "DATE");
    add_name(out, "TIME");
    add_name(out, "YEAR");
    add_name(out, "MONTH");
    add_name(out, "DAY");
    add_name(out, "HOUR");
    add_name(out, "MINUTE");
    add_name(out, "SECOND");
    add_name(out, "WEEKDAY");
    add_name(out, "EDATE");
    add_name(out, "EOMONTH");
    add_name(out, "DATEDIF");
    add_name(out, "DAYS");
    add_name(out, "DAYS360");
    add_name(out, "YEARFRAC");
    add_name(out, "WEEKNUM");
    add_name(out, "ISOWEEKNUM");
    add_name(out, "TIMEVALUE");
    add_name(out, "DATEVALUE");
    add_name(out, "NETWORKDAYS");
    add_name(out, "NETWORKDAYS.INTL");
    add_name(out, "WORKDAY");
    add_name(out, "WORKDAY.INTL");
}

/// Adds the names of the functions that work on series of numbers.
fn add_series(out: &mut Vec<String>)
    requires
        texts(old(out)@).no_duplicates(),
    ensures
        texts(final(out)@).no_duplicates(),
        forall|n: Seq<char>| #[trigger]
            texts(final(out)@).contains(n) <==> texts(old(out)@).contains(n) || series_named(n) is Some,
{
    add_name(out, "LARGE");
    add_name(out, "SMALL");
    add_name(out, "RANK");
    add_name(out, "RANK.EQ");
    add_name(out, "RANK.AVG");
    add_name(out, "PERCENTILE");
    add_name(out, "PERCENTILE.INC");
    add_name(out, "QUARTILE");
    add_name(out, "QUARTILE.INC");
    add_name(out, "QUARTILE.EXC");
    add_name(out, "PERCENTILE.EXC");
    add_name(out, "PERCENTRANK");
    add_name(out, "PERCENTRANK.INC");
    add_name(out, "PERCENTRANK.EXC");
    add_name(out, "TRIMMEAN");
    add_name(out, "SUMPRODUCT");
    add_name(out, "CORREL");
    add_name(out, "PEARSON");
    add_name(out, "RSQ");
    add_name(out, "SLOPE");
    add_name(out, "INTERCEPT");
    add_name(out, "COVAR");
    add_name(out, "COVARIANCE.P");
    add_name(out, "COVARIANCE.S");
    add_name(out, "STEYX");
    add_name(out, "FORECAST");
    add_name(out, "FORECAST.LINEAR");
    add_name(out, "NPV");
    add_name(out, "IRR");
    add_name(out, "MIRR");
    add_name(out, "XNPV");
    add_name(out, "XIRR");
    add_name(out, "SERIESSUM");
    add_name(out, "MULTINOMIAL");
    add_name(out, "NORM.DIST");
    add_name(out, "NORMDIST");
    add_name(out, "NORM.S.DIST");
    add_name(out, "ERF");
    add_name(out, "CEILING");
    add_name(out, "FLOOR");
    add_name(out, "VALUE");
    add_name(out, "CONVERT");
}

/// Adds the names of the functions that work on complex numbers.
fn add_complex(out: &mut Vec<String>)
    requires
        texts(old(out)@).no_duplicates(),
    ensures
        texts(final(out)@).no_duplicates(),
        forall|n: Seq<char>| #[trigger]
            texts(final(out)@).contains(n) <==> texts(old(out)@).contains(n) || complex_named(n) is Some,
{
    add_name(out, "COMPLEX");
    add_name(out, "IMREAL");
    add_name(out, "IMAGINARY");
    add_name(out, "IMABS");
    add_name(out, "IMARGUMENT");
    add_name(out, "IMCONJUGATE");
    add_name(out, "IMSUM");
    add_name(out, "IMPRODUCT");
    add_name(out, "IMSUB");
    add_name(out, "IMDIV");
    add_name(out, "IMPOWER");
    add_name(out, "IMLN");
    add_name(out, "IMLOG10");
    add_name(out, "IMLOG2");
    add_name(out, "IMEXP");
    add_name(out, "IMSQRT");
    add_name(out, "IMSIN");
    add_name(out, "IMCOS");
    add_name(out, "IMTAN");
    add_name(out, "IMSINH");
    add_name(out, "IMCOSH");
    add_name(out, "IMSEC");
    add_name(out, "IMCSC");
    add_name(out, "IMCOT");
    add_name(out, "IMSECH");
    add_name(out, "IMCSCH");
}

/// Adds the names of the functions that are arithmetic.
fn add_arithmetic(out: &mut Vec<String>)
    requires
        texts(old(out)@).no_duplicates(),
    ensures
        texts(final(out)@).no_duplicates(),
        forall|n: Seq<char>| #[trigger]
            texts(final(out)@).contains(n) <==> texts(old(out)@).contains(n) || arithmetic(n) is Some,
{
    add_name(out, "ABS");
    add_name(out, "INT");
    add_name(out, "TRUNC");
    add_name(out, "SQRT");
    add_name(out, "ROUND");
    add_name(out, "ROUNDDOWN");
    add_name(out, "ROUNDUP");
    add_name(out, "MOD");
    add_name(out, "POWER");
    add_name(out, "MROUND");
    add_name(out, "EVEN");
    add_name(out, "ODD");
    add_name(out, "EXP");
    add_name(out, "LN");
    add_name(out, "LOG10");
    add_name(out, "LOG");
    add_name(out, "SQRTPI");
    add_name(out, "FACT");
    add_name(out, "FACTDOUBLE");
    add_name(out, "COMBIN");
    add_name(out, "COMBINA");
    add_name(out, "PERMUT");
    add_name(out, "PERMUTATIONA");
    add_name(out, "QUOTIENT");
    add_name(out, "CEILING.MATH");
    add_name(out, "FLOOR.MATH");
    add_name(out, "CEILING.PRECISE");
    add_name(out, "ISO.CEILING");
    add_name(out, "FLOOR.PRECISE");
    add_name(out, "RANDBETWEEN");
}

/// Adds the names of the functions that are trigonometric.
fn add_trigonometry(out: &mut Vec<String>)
    requires
        texts(old(out)@).no_duplicates(),
    ensures
        texts(final(out)@).no_duplicates(),
        forall|n: Seq<char>| #[trigger]
            texts(final(out)@).contains(n) <==> texts(old(out)@).contains(n) || trigonometry(n) is Some,
{
    add_name(out, "SIN");
    add_name(out, "COS");
    add_name(out, "TAN");
    add_name(out, "ATAN");
    add_name(out, "SINH");
    add_name(out, "COSH");
    add_name(out, "TANH");
    add_name(out, "ASINH");
    add_name(out, "SEC");
    add_name(out, "CSC");
    add_name(out, "COT");
    add_name(out, "SECH");
    add_name(out, "CSCH");
    add_name(out, "COTH");
    add_name(out, "ACOT");
    add_name(out, "DEGREES");
    add_name(out, "RADIANS");
    add_name(out, "ASIN");
    add_name(out, "ACOS");
    add_name(out, "ATAN2");
    add_name(out, "ACOSH");
    add_name(out, "ATANH");
    add_name(out, "ACOTH");
    add_name(out, "ERF.PRECISE");
    add_name(out, "ERFC");
    add_name(out, "ERFC.PRECISE");
    add_name(out, "BESSELJ");
    add_name(out, "BESSELY");
    add_name(out, "BESSELI");
    add_name(out, "BESSELK");
}

/// Adds the names of the functions that work on annuities.
fn add_annuity(out: &mut Vec<String>)
    requires
        texts(old(out)@).no_duplicates(),
    ensures
        texts(final(out)@).no_duplicates(),
        forall|n: Seq<char>| #[trigger]
            texts(final(out)@).contains(n) <==> texts(old(out)@).contains(n) || annuity(n) is Some,
{
    add_name(out, "PMT");
    add_name(out, "FV");
    add_name(out, "PV");
    add_name(out, "NPER");
    add_name(out, "RATE");
    add_name(out, "IPMT");
    add_name(out, "PPMT");
    add_name(out, "CUMIPMT");
    add_name(out, "CUMPRINC");
    add_name(out, "SLN");
    add_name(out, "SYD");
    add_name(out, "DDB");
    add_name(out, "DB");
    add_name(out, "EFFECT");
    add_name(out, "NOMINAL");
    add_name(out, "DOLLARDE");
    add_name(out, "DOLLARFR");
    add_name(out, "PDURATION");
    add_name(out, "RRI");
}

/// Adds the names of the functions that belong to the normal distribution.
fn add_normal(out: &mut Vec<String>)
    requires
        texts(old(out)@).no_duplicates(),
    ensures
        texts(final(out)@).no_duplicates(),
        forall|n: Seq<char>| #[trigger]
            texts(final(out)@).contains(n) <==> texts(old(out)@).contains(n) || normal(n) is Some,
{
    add_name(out, "NORMSDIST");
    add_name(out, "NORM.INV");
    add_name(out, "NORMINV");
    add_name(out, "NORM.S.INV");
    add_name(out, "NORMSINV");
    add_name(out, "STANDARDIZE");
    add_name(out, "CONFIDENCE.NORM");
    add_name(out, "CONFIDENCE");
    add_name(out, "GAUSS");
    add_name(out, "PHI");
}

/// Adds the names of the functions that look at the place, the clock or nothing at all.
fn add_placed(out: &mut Vec<String>)
    requires
        texts(old(out)@).no_duplicates(),
    ensures
        texts(final(out)@).no_duplicates(),
        forall|n: Seq<char>| #[trigger]
            texts(final(out)@).contains(n) <==> texts(old(out)@).contains(n) || placed_named(n) is Some,
{
    add_name(out, "ROW");
    add_name(out, "COLUMN");
    add_name(out, "TODAY");
    add_name(out, "NOW");
    add_name(out, "PI");
    add_name(out, "RAND");
}

/// The names of the functions that every formula may call, each once.
pub fn builtin_names() -> (r: Vec<String>)
    ensures
        forall|n: Seq<char>| #[trigger] texts(r@).contains(n) <==> builtin_named(n) is Some,
        texts(r@).no_duplicates(),
{
    let mut out: Vec<String> = Vec::new();
    assert(texts(out@) == Seq::<Seq<char>>::empty());
    add_total(&mut out);
    add_logic(&mut out);
    add_text(&mut out);
    add_lookup(&mut out);
    add_whole(&mut out);
    add_date(&mut out);
    add_series(&mut out);
    add_complex(&mut out);
    add_arithmetic(&mut out);
    add_trigonometry(&mut out);
    add_annuity(&mut out);
    add_normal(&mut out);
    add_placed(&mut out);
    out
}

} // verus!
