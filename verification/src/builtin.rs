//! The functions that formulas call by name.
use crate::complex_fn::{complex_by_name, complex_call, complex_named, complex_says, ComplexFn};
use crate::criteria::{
    averageif, averageif_of, averageifs, averageifs_of, countifs, countifs_of, extremum_ifs,
    extremum_ifs_of, f_countif, f_sumif, fitting, sumif_of, sumifs, sumifs_of,
};
use crate::database_fn::{dfn, dfn_of, Reduction};
use crate::date_fn::{
    date_fn, date_of, date_part, date_value, date_value_of, datedif, days360, days_fn, days_of,
    edate, is_date_part, is_datedif, is_days360, is_edate, is_week_num, is_workday_intl,
    is_workday_reply, is_year_frac, network_days, network_days_intl, network_days_intl_of,
    network_days_of, time_fn, time_of, time_value, time_value_of, week_num, weekday_fn,
    weekday_said, workday_fn, workday_intl, year_frac, DatePart,
};
use crate::engineering_fn::{convert_fn, convert_of};
use crate::kernel::Kernel;
use crate::logic_fn::{
    and_of, ask_kind, choose_of, coalesce, coalesce_of, error_type, error_type_of, extent,
    extent_fn, f_and, f_if, f_or, if_error, if_of, ifs, ifs_of, is_kind, is_ref, n_fn, n_of, not_fn,
    not_of, or_of, parity, parity_of, pick_arg, switch_fn, switch_or_blank, t_fn, t_of, type_fn,
    type_of, unless_error, xor_fn, xor_of, Kind,
};
use crate::lookup_fn::{
    address, address_of, index_fn, index_of, indirect, indirect_of, lookup_fn, lookup_list_of,
    lookup_of, match_fn, match_of, table_lookup, xlookup, xlookup_of,
};
use crate::number_fn::{find_plan, plan_of, planned, run_plan, sound, Plan};
use crate::radix_fn::{
    base_fn, base_of, bit2, bit2_of, bit_shift, bit_shift_of, conv_radix, conv_radix_of,
    conv_to_dec, conv_to_dec_of, dec_to, dec_to_of, decimal_fn, from_roman, gcd_fn, gcd_of,
    is_arabic_reply, is_decimal_reply, lcm_fn, lcm_of, roman_of, step_fn, step_of, to_roman, BitOp,
    Radix,
};
use crate::reading::{
    all_at, counted, everything, failed, figure, given, given_from, matrix, nth, reply_view, yes,
    Arg, Given, Reply, Said,
};
use crate::series_fn::{
    bivar, bivar_of, distribution_of, erf_fn, erf_plan, fixed_fn, fixed_of, forecast_fn,
    forecast_of, irr, irr_of, mirr, mirr_of, multinomial, multinomial_of, multiple_fn,
    multiple_plan, norm_dist, npv, npv_of, nth_order, nth_order_of, percent_rank, percent_rank_of,
    percentile, percentile_exc, percentile_exc_of, percentile_of, quartile, quartile_of, rank_avg,
    rank_avg_of, rank_fn, rank_of, seriessum, seriessum_of, sign_fn, sign_of, sum_product,
    sum_product_of, trimmean, trimmean_of, value_fn, value_of, xirr, xirr_of, xnpv, xnpv_of,
};
use crate::stat_fn::{
    count_args, count_in, f_subtotal, subtotal_of, total_args, total_from, Counted, Pick, Total,
};
use crate::text::same_text;
use crate::text_fn::{
    change_of, change_text, char_fn, char_of, code, code_of, concatenate_of, exact, exact_of,
    f_concatenate, f_left, f_len, f_mid, f_right, f_text, find_in, find_of, left_of, len_of, mid_of,
    number_value, number_value_of, replace_fn, replace_of, rept, rept_of, right_of, substitute,
    substitute_of, text_of_format, text_split, text_split_of, textjoin, textjoin_of, Change,
};
use crate::value::{FormulaError, FormulaValue, Num};
use vstd::prelude::*;

verus! {

/// The functions that decide.
#[derive(Debug, Clone, Copy)]
pub enum LogicFn {
    If,
    IfError,
    IfNa,
    And,
    Or,
    Xor,
    Not,
    Ifs,
    Switch,
    Choose,
    Coalesce,
    Truth(bool),
    Ask(Kind),
    Parity(bool),
    N,
    T,
    Type,
    ErrorType,
    IsRef,
    Extent(bool),
    Na,
}

/// What a function that is to decide says.
pub open spec fn logic_says(f: LogicFn, args: Seq<Given>, r: Option<Said>) -> bool {
    match f {
        LogicFn::If => r == Some(if_of(args)),
        LogicFn::IfError => r == Some(unless_error(args, None)),
        LogicFn::IfNa => r == Some(unless_error(args, Some(FormulaError::Na))),
        LogicFn::And => r == Some(and_of(args)),
        LogicFn::Or => r == Some(or_of(args)),
        LogicFn::Xor => r == Some(xor_of(args)),
        LogicFn::Not => r == Some(not_of(args)),
        LogicFn::Ifs => r == Some(ifs_of(args, 0)),
        LogicFn::Switch => r == Some(switch_or_blank(args)),
        LogicFn::Choose => r == Some(choose_of(args)),
        LogicFn::Coalesce => r == Some(coalesce_of(args, 0)),
        LogicFn::Truth(b) => r == Some(yes(b)),
        LogicFn::Ask(k) => r == Some(yes(is_kind(nth(args, 0).value, k))),
        LogicFn::Parity(odd) => r == Some(parity_of(args, odd)),
        LogicFn::N => r == Some(n_of(nth(args, 0).value)),
        LogicFn::T => r == Some(t_of(nth(args, 0).value)),
        LogicFn::Type => r == Some(Said::Int(type_of(nth(args, 0).value))),
        LogicFn::ErrorType => r == Some(error_type_of(args)),
        LogicFn::IsRef => r == Some(yes(args.len() > 0 && args[0] is Area)),
        LogicFn::Extent(rows) => r == Some(counted(extent(matrix(args, 0), rows) as int)),
        LogicFn::Na => r == Some(failed(FormulaError::Na)),
    }
}

fn logic_call(f: LogicFn, args: &Vec<Arg>) -> (r: Option<Reply>)
    ensures
        logic_says(f, given(args@), reply_view(r)),
{
    match f {
        LogicFn::If => Some(f_if(args)),
        LogicFn::IfError => Some(if_error(args, None)),
        LogicFn::IfNa => Some(if_error(args, Some(FormulaError::Na))),
        LogicFn::And => Some(f_and(args)),
        LogicFn::Or => Some(f_or(args)),
        LogicFn::Xor => Some(xor_fn(args)),
        LogicFn::Not => Some(not_fn(args)),
        LogicFn::Ifs => Some(ifs(args)),
        LogicFn::Switch => Some(
            if args.len() > 0 {
                switch_fn(args)
            } else {
                Reply::Value(FormulaValue::Blank)
            },
        ),
        LogicFn::Choose => Some(pick_arg(args)),
        LogicFn::Coalesce => Some(coalesce(args)),
        LogicFn::Truth(b) => Some(Reply::truth(b)),
        LogicFn::Ask(k) => Some(ask_kind(args, k)),
        LogicFn::Parity(odd) => Some(parity(args, odd)),
        LogicFn::N => Some(n_fn(args)),
        LogicFn::T => Some(t_fn(args)),
        LogicFn::Type => Some(type_fn(args)),
        LogicFn::ErrorType => Some(error_type(args)),
        LogicFn::IsRef => Some(is_ref(args)),
        LogicFn::Extent(rows) => Some(extent_fn(args, rows)),
        LogicFn::Na => Some(Reply::error(FormulaError::Na)),
    }
}

/// The function that is to decide under a name.
pub open spec fn logic_named(name: Seq<char>) -> Option<LogicFn> {
    if name == "IF"@ {
        Some(LogicFn::If)
    } else if name == "IFERROR"@ {
        Some(LogicFn::IfError)
    } else if name == "IFNA"@ {
        Some(LogicFn::IfNa)
    } else if name == "AND"@ {
        Some(LogicFn::And)
    } else if name == "OR"@ {
        Some(LogicFn::Or)
    } else if name == "XOR"@ {
        Some(LogicFn::Xor)
    } else if name == "NOT"@ {
        Some(LogicFn::Not)
    } else if name == "IFS"@ {
        Some(LogicFn::Ifs)
    } else if name == "SWITCH"@ {
        Some(LogicFn::Switch)
    } else if name == "CHOOSE"@ {
        Some(LogicFn::Choose)
    } else if name == "COALESCE"@ {
        Some(LogicFn::Coalesce)
    } else if name == "TRUE"@ {
        Some(LogicFn::Truth(true))
    } else if name == "FALSE"@ {
        Some(LogicFn::Truth(false))
    } else if name == "ISBLANK"@ || name == "ISEMPTY"@ {
        Some(LogicFn::Ask(Kind::Blank))
    } else if name == "ISERROR"@ {
        Some(LogicFn::Ask(Kind::Error))
    } else if name == "ISNUMBER"@ {
        Some(LogicFn::Ask(Kind::Number))
    } else if name == "ISTEXT"@ {
        Some(LogicFn::Ask(Kind::Text))
    } else if name == "ISLOGICAL"@ {
        Some(LogicFn::Ask(Kind::Logical))
    } else if name == "ISNONTEXT"@ {
        Some(LogicFn::Ask(Kind::NonText))
    } else if name == "ISNA"@ {
        Some(LogicFn::Ask(Kind::Na))
    } else if name == "ISERR"@ {
        Some(LogicFn::Ask(Kind::OtherError))
    } else if name == "ISODD"@ {
        Some(LogicFn::Parity(true))
    } else if name == "ISEVEN"@ {
        Some(LogicFn::Parity(false))
    } else if name == "N"@ {
        Some(LogicFn::N)
    } else if name == "T"@ {
        Some(LogicFn::T)
    } else if name == "TYPE"@ {
        Some(LogicFn::Type)
    } else if name == "ERROR.TYPE"@ {
        Some(LogicFn::ErrorType)
    } else if name == "ISREF"@ {
        Some(LogicFn::IsRef)
    } else if name == "ROWS"@ {
        Some(LogicFn::Extent(true))
    } else if name == "COLUMNS"@ {
        Some(LogicFn::Extent(false))
    } else if name == "NA"@ {
        Some(LogicFn::Na)
    } else {
        None
    }
}

fn logic_by_name(name: &str) -> (r: Option<LogicFn>)
    ensures
        r == logic_named(name@),
{
    if same_text(name, "IF") {
        Some(LogicFn::If)
    } else if same_text(name, "IFERROR") {
        Some(LogicFn::IfError)
    } else if same_text(name, "IFNA") {
        Some(LogicFn::IfNa)
    } else if same_text(name, "AND") {
        Some(LogicFn::And)
    } else if same_text(name, "OR") {
        Some(LogicFn::Or)
    } else if same_text(name, "XOR") {
        Some(LogicFn::Xor)
    } else if same_text(name, "NOT") {
        Some(LogicFn::Not)
    } else if same_text(name, "IFS") {
        Some(LogicFn::Ifs)
    } else if same_text(name, "SWITCH") {
        Some(LogicFn::Switch)
    } else if same_text(name, "CHOOSE") {
        Some(LogicFn::Choose)
    } else if same_text(name, "COALESCE") {
        Some(LogicFn::Coalesce)
    } else if same_text(name, "TRUE") {
        Some(LogicFn::Truth(true))
    } else if same_text(name, "FALSE") {
        Some(LogicFn::Truth(false))
    } else if same_text(name, "ISBLANK") || same_text(name, "ISEMPTY") {
        Some(LogicFn::Ask(Kind::Blank))
    } else if same_text(name, "ISERROR") {
        Some(LogicFn::Ask(Kind::Error))
    } else if same_text(name, "ISNUMBER") {
        Some(LogicFn::Ask(Kind::Number))
    } else if same_text(name, "ISTEXT") {
        Some(LogicFn::Ask(Kind::Text))
    } else if same_text(name, "ISLOGICAL") {
        Some(LogicFn::Ask(Kind::Logical))
    } else if same_text(name, "ISNONTEXT") {
        Some(LogicFn::Ask(Kind::NonText))
    } else if same_text(name, "ISNA") {
        Some(LogicFn::Ask(Kind::Na))
    } else if same_text(name, "ISERR") {
        Some(LogicFn::Ask(Kind::OtherError))
    } else if same_text(name, "ISODD") {
        Some(LogicFn::Parity(true))
    } else if same_text(name, "ISEVEN") {
        Some(LogicFn::Parity(false))
    } else if same_text(name, "N") {
        Some(LogicFn::N)
    } else if same_text(name, "T") {
        Some(LogicFn::T)
    } else if same_text(name, "TYPE") {
        Some(LogicFn::Type)
    } else if same_text(name, "ERROR.TYPE") {
        Some(LogicFn::ErrorType)
    } else if same_text(name, "ISREF") {
        Some(LogicFn::IsRef)
    } else if same_text(name, "ROWS") {
        Some(LogicFn::Extent(true))
    } else if same_text(name, "COLUMNS") {
        Some(LogicFn::Extent(false))
    } else if same_text(name, "NA") {
        Some(LogicFn::Na)
    } else {
        None
    }
}

/// The functions that work on texts.
#[derive(Debug, Clone, Copy)]
pub enum TextFn {
    Concatenate,
    TextJoin,
    Left,
    Right,
    Mid,
    Replace,
    Len,
    Change(Change),
    Substitute,
    Find(bool),
    Rept,
    Exact,
    Char(i64),
    Code,
    NumberValue,
    Split(bool),
    Text,
    Fixed(bool),
}

/// What a function that is to work on texts says.
pub open spec fn text_says(f: TextFn, args: Seq<Given>, r: Option<Said>) -> bool {
    match f {
        TextFn::Concatenate => r == Some(concatenate_of(args)),
        TextFn::TextJoin => r == Some(textjoin_of(args)),
        TextFn::Left => r == Some(left_of(args)),
        TextFn::Right => r == Some(right_of(args)),
        TextFn::Mid => r == Some(mid_of(args)),
        TextFn::Replace => r == Some(replace_of(args)),
        TextFn::Len => r == Some(len_of(args)),
        TextFn::Change(how) => r == Some(change_of(args, how)),
        TextFn::Substitute => r == Some(substitute_of(args)),
        TextFn::Find(exact) => r == Some(find_of(args, exact)),
        TextFn::Rept => r == Some(rept_of(args)),
        TextFn::Exact => r == Some(exact_of(args)),
        TextFn::Char(max) => r == Some(char_of(args, max as int)),
        TextFn::Code => r == Some(code_of(args)),
        TextFn::NumberValue => r == Some(number_value_of(args)),
        TextFn::Split(before) => r == Some(text_split_of(args, before)),
        TextFn::Text => r == Some(text_of_format(args)),
        TextFn::Fixed(dollar) => r == Some(fixed_of(args, dollar)),
    }
}

fn text_call(f: TextFn, args: &Vec<Arg>) -> (r: Option<Reply>)
    ensures
        text_says(f, given(args@), reply_view(r)),
{
    match f {
        TextFn::Concatenate => Some(f_concatenate(args)),
        TextFn::TextJoin => Some(textjoin(args)),
        TextFn::Left => Some(f_left(args)),
        TextFn::Right => Some(f_right(args)),
        TextFn::Mid => Some(f_mid(args)),
        TextFn::Replace => Some(replace_fn(args)),
        TextFn::Len => Some(f_len(args)),
        TextFn::Change(how) => Some(change_text(args, how)),
        TextFn::Substitute => Some(substitute(args)),
        TextFn::Find(exact) => Some(find_in(args, exact)),
        TextFn::Rept => Some(rept(args)),
        TextFn::Exact => Some(exact(args)),
        TextFn::Char(max) => Some(char_fn(args, max)),
        TextFn::Code => Some(code(args)),
        TextFn::NumberValue => Some(number_value(args)),
        TextFn::Split(before) => Some(text_split(args, before)),
        TextFn::Text => Some(f_text(args)),
        TextFn::Fixed(dollar) => Some(fixed_fn(args, dollar)),
    }
}

/// The function that is to work on texts under a name.
pub open spec fn text_named(name: Seq<char>) -> Option<TextFn> {
    if name == "CONCATENATE"@ || name == "CONCAT"@ {
        Some(TextFn::Concatenate)
    } else if name == "TEXTJOIN"@ {
        Some(TextFn::TextJoin)
    } else if name == "LEFT"@ {
        Some(TextFn::Left)
    } else if name == "RIGHT"@ {
        Some(TextFn::Right)
    } else if name == "MID"@ {
        Some(TextFn::Mid)
    } else if name == "REPLACE"@ {
        Some(TextFn::Replace)
    } else if name == "LEN"@ {
        Some(TextFn::Len)
    } else if name == "TRIM"@ {
        Some(TextFn::Change(Change::Trim))
    } else if name == "UPPER"@ {
        Some(TextFn::Change(Change::Upper))
    } else if name == "LOWER"@ {
        Some(TextFn::Change(Change::Lower))
    } else if name == "PROPER"@ {
        Some(TextFn::Change(Change::Proper))
    } else if name == "CLEAN"@ {
        Some(TextFn::Change(Change::Clean))
    } else if name == "SUBSTITUTE"@ {
        Some(TextFn::Substitute)
    } else if name == "FIND"@ {
        Some(TextFn::Find(true))
    } else if name == "SEARCH"@ {
        Some(TextFn::Find(false))
    } else if name == "REPT"@ {
        Some(TextFn::Rept)
    } else if name == "EXACT"@ {
        Some(TextFn::Exact)
    } else if name == "CHAR"@ {
        Some(TextFn::Char(65535))
    } else if name == "UNICHAR"@ {
        Some(TextFn::Char(i64::MAX))
    } else if name == "CODE"@ || name == "UNICODE"@ {
        Some(TextFn::Code)
    } else if name == "NUMBERVALUE"@ {
        Some(TextFn::NumberValue)
    } else if name == "TEXTBEFORE"@ {
        Some(TextFn::Split(true))
    } else if name == "TEXTAFTER"@ {
        Some(TextFn::Split(false))
    } else if name == "TEXT"@ {
        Some(TextFn::Text)
    } else if name == "FIXED"@ {
        Some(TextFn::Fixed(false))
    } else if name == "DOLLAR"@ {
        Some(TextFn::Fixed(true))
    } else {
        None
    }
}

fn text_by_name(name: &str) -> (r: Option<TextFn>)
    ensures
        r == text_named(name@),
{
    if same_text(name, "CONCATENATE") || same_text(name, "CONCAT") {
        Some(TextFn::Concatenate)
    } else if same_text(name, "TEXTJOIN") {
        Some(TextFn::TextJoin)
    } else if same_text(name, "LEFT") {
        Some(TextFn::Left)
    } else if same_text(name, "RIGHT") {
        Some(TextFn::Right)
    } else if same_text(name, "MID") {
        Some(TextFn::Mid)
    } else if same_text(name, "REPLACE") {
        Some(TextFn::Replace)
    } else if same_text(name, "LEN") {
        Some(TextFn::Len)
    } else if same_text(name, "TRIM") {
        Some(TextFn::Change(Change::Trim))
    } else if same_text(name, "UPPER") {
        Some(TextFn::Change(Change::Upper))
    } else if same_text(name, "LOWER") {
        Some(TextFn::Change(Change::Lower))
    } else if same_text(name, "PROPER") {
        Some(TextFn::Change(Change::Proper))
    } else if same_text(name, "CLEAN") {
        Some(TextFn::Change(Change::Clean))
    } else if same_text(name, "SUBSTITUTE") {
        Some(TextFn::Substitute)
    } else if same_text(name, "FIND") {
        Some(TextFn::Find(true))
    } else if same_text(name, "SEARCH") {
        Some(TextFn::Find(false))
    } else if same_text(name, "REPT") {
        Some(TextFn::Rept)
    } else if same_text(name, "EXACT") {
        Some(TextFn::Exact)
    } else if same_text(name, "CHAR") {
        Some(TextFn::Char(65535))
    } else if same_text(name, "UNICHAR") {
        Some(TextFn::Char(i64::MAX))
    } else if same_text(name, "CODE") || same_text(name, "UNICODE") {
        Some(TextFn::Code)
    } else if same_text(name, "NUMBERVALUE") {
        Some(TextFn::NumberValue)
    } else if same_text(name, "TEXTBEFORE") {
        Some(TextFn::Split(true))
    } else if same_text(name, "TEXTAFTER") {
        Some(TextFn::Split(false))
    } else if same_text(name, "TEXT") {
        Some(TextFn::Text)
    } else if same_text(name, "FIXED") {
        Some(TextFn::Fixed(false))
    } else if same_text(name, "DOLLAR") {
        Some(TextFn::Fixed(true))
    } else {
        None
    }
}

/// The functions that look values up.
#[derive(Debug, Clone, Copy)]
pub enum LookupFn {
    Table(bool),
    Index,
    Match,
    List,
    Exact,
    Address,
    Indirect,
}

/// What a function that is to look values up says.
pub open spec fn lookup_says(f: LookupFn, args: Seq<Given>, r: Option<Said>) -> bool {
    match f {
        LookupFn::Table(vertical) => r == Some(lookup_of(args, vertical)),
        LookupFn::Index => r == Some(index_of(args)),
        LookupFn::Match => r == Some(match_of(args)),
        LookupFn::List => r == Some(lookup_list_of(args)),
        LookupFn::Exact => r == Some(xlookup_of(args)),
        LookupFn::Address => r == Some(address_of(args)),
        LookupFn::Indirect => r == Some(indirect_of(args)),
    }
}

fn lookup_call(f: LookupFn, args: &Vec<Arg>) -> (r: Option<Reply>)
    ensures
        lookup_says(f, given(args@), reply_view(r)),
{
    match f {
        LookupFn::Table(vertical) => Some(table_lookup(args, vertical)),
        LookupFn::Index => Some(index_fn(args)),
        LookupFn::Match => Some(match_fn(args)),
        LookupFn::List => Some(lookup_fn(args)),
        LookupFn::Exact => Some(xlookup(args)),
        LookupFn::Address => Some(address(args)),
        LookupFn::Indirect => Some(indirect(args)),
    }
}

/// The function that is to look values up under a name.
pub open spec fn lookup_named(name: Seq<char>) -> Option<LookupFn> {
    if name == "VLOOKUP"@ {
        Some(LookupFn::Table(true))
    } else if name == "HLOOKUP"@ {
        Some(LookupFn::Table(false))
    } else if name == "INDEX"@ {
        Some(LookupFn::Index)
    } else if name == "MATCH"@ {
        Some(LookupFn::Match)
    } else if name == "LOOKUP"@ {
        Some(LookupFn::List)
    } else if name == "XLOOKUP"@ {
        Some(LookupFn::Exact)
    } else if name == "ADDRESS"@ {
        Some(LookupFn::Address)
    } else if name == "INDIRECT"@ {
        Some(LookupFn::Indirect)
    } else {
        None
    }
}

fn lookup_by_name(name: &str) -> (r: Option<LookupFn>)
    ensures
        r == lookup_named(name@),
{
    if same_text(name, "VLOOKUP") {
        Some(LookupFn::Table(true))
    } else if same_text(name, "HLOOKUP") {
        Some(LookupFn::Table(false))
    } else if same_text(name, "INDEX") {
        Some(LookupFn::Index)
    } else if same_text(name, "MATCH") {
        Some(LookupFn::Match)
    } else if same_text(name, "LOOKUP") {
        Some(LookupFn::List)
    } else if same_text(name, "XLOOKUP") {
        Some(LookupFn::Exact)
    } else if same_text(name, "ADDRESS") {
        Some(LookupFn::Address)
    } else if same_text(name, "INDIRECT") {
        Some(LookupFn::Indirect)
    } else {
        None
    }
}

/// The functions that work on whole numbers.
#[derive(Debug, Clone, Copy)]
pub enum WholeFn {
    ToDec(Radix),
    Between(Radix, Radix),
    FromDec(Radix),
    Base,
    Decimal,
    Roman,
    Arabic,
    Gcd,
    Lcm,
    Bits(BitOp),
    Shift(bool),
    Step(bool),
    Sign,
}

/// What a function that is to work on whole numbers says.
pub open spec fn whole_says(f: WholeFn, args: Seq<Given>, r: Option<Said>) -> bool {
    match f {
        WholeFn::ToDec(src) => r == Some(conv_to_dec_of(args, src)),
        WholeFn::Between(src, dst) => r == Some(conv_radix_of(args, src, dst)),
        WholeFn::FromDec(dst) => r == Some(dec_to_of(args, dst)),
        WholeFn::Base => r == Some(base_of(args)),
        WholeFn::Decimal => r matches Some(x) && is_decimal_reply(args, x),
        WholeFn::Roman => r == Some(roman_of(args)),
        WholeFn::Arabic => is_arabic_reply(args, r),
        WholeFn::Gcd => r == Some(gcd_of(args)),
        WholeFn::Lcm => r == lcm_of(args),
        WholeFn::Bits(op) => r == Some(bit2_of(args, op)),
        WholeFn::Shift(left) => r == Some(bit_shift_of(args, left)),
        WholeFn::Step(same) => r == Some(step_of(args, same)),
        WholeFn::Sign => r == Some(sign_of(args)),
    }
}

fn whole_call(f: WholeFn, args: &Vec<Arg>) -> (r: Option<Reply>)
    ensures
        whole_says(f, given(args@), reply_view(r)),
{
    match f {
        WholeFn::ToDec(src) => Some(conv_to_dec(args, src)),
        WholeFn::Between(src, dst) => Some(conv_radix(args, src, dst)),
        WholeFn::FromDec(dst) => Some(dec_to(args, dst)),
        WholeFn::Base => Some(base_fn(args)),
        WholeFn::Decimal => Some(decimal_fn(args)),
        WholeFn::Roman => Some(to_roman(args)),
        WholeFn::Arabic => from_roman(args),
        WholeFn::Gcd => Some(gcd_fn(args)),
        WholeFn::Lcm => lcm_fn(args),
        WholeFn::Bits(op) => Some(bit2(args, op)),
        WholeFn::Shift(left) => Some(bit_shift(args, left)),
        WholeFn::Step(same) => Some(step_fn(args, same)),
        WholeFn::Sign => Some(sign_fn(args)),
    }
}

/// The function that is to work on whole numbers under a name.
pub open spec fn whole_named(name: Seq<char>) -> Option<WholeFn> {
    if name == "BIN2DEC"@ {
        Some(WholeFn::ToDec(Radix::Bin))
    } else if name == "OCT2DEC"@ {
        Some(WholeFn::ToDec(Radix::Oct))
    } else if name == "HEX2DEC"@ {
        Some(WholeFn::ToDec(Radix::Hex))
    } else if name == "BIN2OCT"@ {
        Some(WholeFn::Between(Radix::Bin, Radix::Oct))
    } else if name == "BIN2HEX"@ {
        Some(WholeFn::Between(Radix::Bin, Radix::Hex))
    } else if name == "OCT2BIN"@ {
        Some(WholeFn::Between(Radix::Oct, Radix::Bin))
    } else if name == "OCT2HEX"@ {
        Some(WholeFn::Between(Radix::Oct, Radix::Hex))
    } else if name == "HEX2BIN"@ {
        Some(WholeFn::Between(Radix::Hex, Radix::Bin))
    } else if name == "HEX2OCT"@ {
        Some(WholeFn::Between(Radix::Hex, Radix::Oct))
    } else if name == "DEC2BIN"@ {
        Some(WholeFn::FromDec(Radix::Bin))
    } else if name == "DEC2OCT"@ {
        Some(WholeFn::FromDec(Radix::Oct))
    } else if name == "DEC2HEX"@ {
        Some(WholeFn::FromDec(Radix::Hex))
    } else if name == "BASE"@ {
        Some(WholeFn::Base)
    } else if name == "DECIMAL"@ {
        Some(WholeFn::Decimal)
    } else if name == "ROMAN"@ {
        Some(WholeFn::Roman)
    } else if name == "ARABIC"@ {
        Some(WholeFn::Arabic)
    } else if name == "GCD"@ {
        Some(WholeFn::Gcd)
    } else if name == "LCM"@ {
        Some(WholeFn::Lcm)
    } else if name == "BITAND"@ {
        Some(WholeFn::Bits(BitOp::And))
    } else if name == "BITOR"@ {
        Some(WholeFn::Bits(BitOp::Or))
    } else if name == "BITXOR"@ {
        Some(WholeFn::Bits(BitOp::Xor))
    } else if name == "BITLSHIFT"@ {
        Some(WholeFn::Shift(true))
    } else if name == "BITRSHIFT"@ {
        Some(WholeFn::Shift(false))
    } else if name == "DELTA"@ {
        Some(WholeFn::Step(true))
    } else if name == "GESTEP"@ {
        Some(WholeFn::Step(false))
    } else if name == "SIGN"@ {
        Some(WholeFn::Sign)
    } else {
        None
    }
}

fn whole_by_name(name: &str) -> (r: Option<WholeFn>)
    ensures
        r == whole_named(name@),
{
    if same_text(name, "BIN2DEC") {
        Some(WholeFn::ToDec(Radix::Bin))
    } else if same_text(name, "OCT2DEC") {
        Some(WholeFn::ToDec(Radix::Oct))
    } else if same_text(name, "HEX2DEC") {
        Some(WholeFn::ToDec(Radix::Hex))
    } else if same_text(name, "BIN2OCT") {
        Some(WholeFn::Between(Radix::Bin, Radix::Oct))
    } else if same_text(name, "BIN2HEX") {
        Some(WholeFn::Between(Radix::Bin, Radix::Hex))
    } else if same_text(name, "OCT2BIN") {
        Some(WholeFn::Between(Radix::Oct, Radix::Bin))
    } else if same_text(name, "OCT2HEX") {
        Some(WholeFn::Between(Radix::Oct, Radix::Hex))
    } else if same_text(name, "HEX2BIN") {
        Some(WholeFn::Between(Radix::Hex, Radix::Bin))
    } else if same_text(name, "HEX2OCT") {
        Some(WholeFn::Between(Radix::Hex, Radix::Oct))
    } else if same_text(name, "DEC2BIN") {
        Some(WholeFn::FromDec(Radix::Bin))
    } else if same_text(name, "DEC2OCT") {
        Some(WholeFn::FromDec(Radix::Oct))
    } else if same_text(name, "DEC2HEX") {
        Some(WholeFn::FromDec(Radix::Hex))
    } else if same_text(name, "BASE") {
        Some(WholeFn::Base)
    } else if same_text(name, "DECIMAL") {
        Some(WholeFn::Decimal)
    } else if same_text(name, "ROMAN") {
        Some(WholeFn::Roman)
    } else if same_text(name, "ARABIC") {
        Some(WholeFn::Arabic)
    } else if same_text(name, "GCD") {
        Some(WholeFn::Gcd)
    } else if same_text(name, "LCM") {
        Some(WholeFn::Lcm)
    } else if same_text(name, "BITAND") {
        Some(WholeFn::Bits(BitOp::And))
    } else if same_text(name, "BITOR") {
        Some(WholeFn::Bits(BitOp::Or))
    } else if same_text(name, "BITXOR") {
        Some(WholeFn::Bits(BitOp::Xor))
    } else if same_text(name, "BITLSHIFT") {
        Some(WholeFn::Shift(true))
    } else if same_text(name, "BITRSHIFT") {
        Some(WholeFn::Shift(false))
    } else if same_text(name, "DELTA") {
        Some(WholeFn::Step(true))
    } else if same_text(name, "GESTEP") {
        Some(WholeFn::Step(false))
    } else if same_text(name, "SIGN") {
        Some(WholeFn::Sign)
    } else {
        None
    }
}

/// The functions that work on dates and times.
#[derive(Debug, Clone, Copy)]
pub enum DateFn {
    Date,
    Time,
    Part(DatePart),
    Weekday,
    Months(bool),
    DateDif,
    Days,
    Days360,
    YearFrac,
    Week(bool),
    TimeValue,
    DateValue,
    NetworkDays,
    NetworkDaysIntl,
    Workday,
    WorkdayIntl,
}

/// What a function that is to work on dates and times says.
pub open spec fn date_says(f: DateFn, args: Seq<Given>, r: Option<Said>) -> bool {
    match f {
        DateFn::Date => r == date_of(args),
        DateFn::Time => r == Some(time_of(args)),
        DateFn::Part(which) => r matches Some(x) && is_date_part(args, which, x),
        DateFn::Weekday => r == Some(weekday_said(args)),
        DateFn::Months(end) => r matches Some(x) && is_edate(args, end, x),
        DateFn::DateDif => r matches Some(x) && is_datedif(args, x),
        DateFn::Days => r == Some(days_of(args)),
        DateFn::Days360 => r matches Some(x) && is_days360(args, x),
        DateFn::YearFrac => r matches Some(x) && is_year_frac(args, x),
        DateFn::Week(iso) => is_week_num(args, iso, r),
        DateFn::TimeValue => r == Some(time_value_of(args)),
        DateFn::DateValue => r == date_value_of(args),
        DateFn::NetworkDays => r == Some(network_days_of(args)),
        DateFn::NetworkDaysIntl => r == Some(network_days_intl_of(args)),
        DateFn::Workday => is_workday_reply(args, seq![0u32, 6u32], 2, r),
        DateFn::WorkdayIntl => is_workday_intl(args, r),
    }
}

fn date_call(f: DateFn, args: &Vec<Arg>) -> (r: Option<Reply>)
    ensures
        date_says(f, given(args@), reply_view(r)),
{
    match f {
        DateFn::Date => date_fn(args),
        DateFn::Time => Some(time_fn(args)),
        DateFn::Part(which) => Some(date_part(args, which)),
        DateFn::Weekday => Some(weekday_fn(args)),
        DateFn::Months(end) => Some(edate(args, end)),
        DateFn::DateDif => Some(datedif(args)),
        DateFn::Days => Some(days_fn(args)),
        DateFn::Days360 => Some(days360(args)),
        DateFn::YearFrac => Some(year_frac(args)),
        DateFn::Week(iso) => week_num(args, iso),
        DateFn::TimeValue => Some(time_value(args)),
        DateFn::DateValue => date_value(args),
        DateFn::NetworkDays => Some(network_days(args)),
        DateFn::NetworkDaysIntl => Some(network_days_intl(args)),
        DateFn::Workday => workday_fn(args),
        DateFn::WorkdayIntl => workday_intl(args),
    }
}

/// The function that is to work on dates and times under a name.
pub open spec fn date_named(name: Seq<char>) -> Option<DateFn> {
    if name == "DATE"@ {
        Some(DateFn::Date)
    } else if name == "TIME"@ {
        Some(DateFn::Time)
    } else if name == "YEAR"@ {
        Some(DateFn::Part(DatePart::Year))
    } else if name == "MONTH"@ {
        Some(DateFn::Part(DatePart::Month))
    } else if name == "DAY"@ {
        Some(DateFn::Part(DatePart::Day))
    } else if name == "HOUR"@ {
        Some(DateFn::Part(DatePart::Hours))
    } else if name == "MINUTE"@ {
        Some(DateFn::Part(DatePart::Minutes))
    } else if name == "SECOND"@ {
        Some(DateFn::Part(DatePart::Seconds))
    } else if name == "WEEKDAY"@ {
        Some(DateFn::Weekday)
    } else if name == "EDATE"@ {
        Some(DateFn::Months(false))
    } else if name == "EOMONTH"@ {
        Some(DateFn::Months(true))
    } else if name == "DATEDIF"@ {
        Some(DateFn::DateDif)
    } else if name == "DAYS"@ {
        Some(DateFn::Days)
    } else if name == "DAYS360"@ {
        Some(DateFn::Days360)
    } else if name == "YEARFRAC"@ {
        Some(DateFn::YearFrac)
    } else if name == "WEEKNUM"@ {
        Some(DateFn::Week(false))
    } else if name == "ISOWEEKNUM"@ {
        Some(DateFn::Week(true))
    } else if name == "TIMEVALUE"@ {
        Some(DateFn::TimeValue)
    } else if name == "DATEVALUE"@ {
        Some(DateFn::DateValue)
    } else if name == "NETWORKDAYS"@ {
        Some(DateFn::NetworkDays)
    } else if name == "NETWORKDAYS.INTL"@ {
        Some(DateFn::NetworkDaysIntl)
    } else if name == "WORKDAY"@ {
        Some(DateFn::Workday)
    } else if name == "WORKDAY.INTL"@ {
        Some(DateFn::WorkdayIntl)
    } else {
        None
    }
}

fn date_by_name(name: &str) -> (r: Option<DateFn>)
    ensures
        r == date_named(name@),
{
    if same_text(name, "DATE") {
        Some(DateFn::Date)
    } else if same_text(name, "TIME") {
        Some(DateFn::Time)
    } else if same_text(name, "YEAR") {
        Some(DateFn::Part(DatePart::Year))
    } else if same_text(name, "MONTH") {
        Some(DateFn::Part(DatePart::Month))
    } else if same_text(name, "DAY") {
        Some(DateFn::Part(DatePart::Day))
    } else if same_text(name, "HOUR") {
        Some(DateFn::Part(DatePart::Hours))
    } else if same_text(name, "MINUTE") {
        Some(DateFn::Part(DatePart::Minutes))
    } else if same_text(name, "SECOND") {
        Some(DateFn::Part(DatePart::Seconds))
    } else if same_text(name, "WEEKDAY") {
        Some(DateFn::Weekday)
    } else if same_text(name, "EDATE") {
        Some(DateFn::Months(false))
    } else if same_text(name, "EOMONTH") {
        Some(DateFn::Months(true))
    } else if same_text(name, "DATEDIF") {
        Some(DateFn::DateDif)
    } else if same_text(name, "DAYS") {
        Some(DateFn::Days)
    } else if same_text(name, "DAYS360") {
        Some(DateFn::Days360)
    } else if same_text(name, "YEARFRAC") {
        Some(DateFn::YearFrac)
    } else if same_text(name, "WEEKNUM") {
        Some(DateFn::Week(false))
    } else if same_text(name, "ISOWEEKNUM") {
        Some(DateFn::Week(true))
    } else if same_text(name, "TIMEVALUE") {
        Some(DateFn::TimeValue)
    } else if same_text(name, "DATEVALUE") {
        Some(DateFn::DateValue)
    } else if same_text(name, "NETWORKDAYS") {
        Some(DateFn::NetworkDays)
    } else if same_text(name, "NETWORKDAYS.INTL") {
        Some(DateFn::NetworkDaysIntl)
    } else if same_text(name, "WORKDAY") {
        Some(DateFn::Workday)
    } else if same_text(name, "WORKDAY.INTL") {
        Some(DateFn::WorkdayIntl)
    } else {
        None
    }
}

/// The functions that work on lists of numbers.
#[derive(Debug, Clone, Copy)]
pub enum SeriesFn {
    NthOrder(bool),
    Rank,
    RankAvg,
    Percentile,
    Quartile(bool),
    PercentileExc,
    PercentRank(bool),
    TrimMean,
    SumProduct,
    Pair(Kernel, usize),
    Forecast,
    Npv,
    Irr,
    Mirr,
    Xnpv,
    Xirr,
    SeriesSum,
    Multinomial,
    Distribution(bool),
    Erf,
    Multiple(bool),
    Value,
    Convert,
}

/// What a function that is to work on lists of numbers says.
pub open spec fn series_says(f: SeriesFn, args: Seq<Given>, r: Option<Said>) -> bool {
    match f {
        SeriesFn::NthOrder(large) => r == Some(nth_order_of(args, large)),
        SeriesFn::Rank => r == Some(rank_of(args)),
        SeriesFn::RankAvg => r == Some(rank_avg_of(args)),
        SeriesFn::Percentile => r == Some(percentile_of(args)),
        SeriesFn::Quartile(inc) => r == Some(quartile_of(args, inc)),
        SeriesFn::PercentileExc => r == Some(percentile_exc_of(args)),
        SeriesFn::PercentRank(inc) => r == Some(percent_rank_of(args, inc)),
        SeriesFn::TrimMean => r == Some(trimmean_of(args)),
        SeriesFn::SumProduct => r == Some(sum_product_of(args)),
        SeriesFn::Pair(k, least) => r == Some(bivar_of(args, k, least as int)),
        SeriesFn::Forecast => r == Some(forecast_of(args)),
        SeriesFn::Npv => r == Some(npv_of(args)),
        SeriesFn::Irr => r == Some(irr_of(args)),
        SeriesFn::Mirr => r == Some(mirr_of(args)),
        SeriesFn::Xnpv => r == Some(xnpv_of(args)),
        SeriesFn::Xirr => r == Some(xirr_of(args)),
        SeriesFn::SeriesSum => r == Some(seriessum_of(args)),
        SeriesFn::Multinomial => r == Some(multinomial_of(args)),
        SeriesFn::Distribution(standard) => r == Some(distribution_of(args, standard)),
        SeriesFn::Erf => r == Some(planned(erf_plan(args.len() > 1), args)),
        SeriesFn::Multiple(up) => r == Some(planned(multiple_plan(up, args.len() > 1), args)),
        SeriesFn::Value => r == Some(value_of(args)),
        SeriesFn::Convert => r == Some(convert_of(args)),
    }
}

fn series_call(f: SeriesFn, args: &Vec<Arg>) -> (r: Option<Reply>)
    ensures
        series_says(f, given(args@), reply_view(r)),
{
    match f {
        SeriesFn::NthOrder(large) => Some(nth_order(args, large)),
        SeriesFn::Rank => Some(rank_fn(args)),
        SeriesFn::RankAvg => Some(rank_avg(args)),
        SeriesFn::Percentile => Some(percentile(args)),
        SeriesFn::Quartile(inc) => Some(quartile(args, inc)),
        SeriesFn::PercentileExc => Some(percentile_exc(args)),
        SeriesFn::PercentRank(inc) => Some(percent_rank(args, inc)),
        SeriesFn::TrimMean => Some(trimmean(args)),
        SeriesFn::SumProduct => Some(sum_product(args)),
        SeriesFn::Pair(k, least) => Some(bivar(args, k, least)),
        SeriesFn::Forecast => Some(forecast_fn(args)),
        SeriesFn::Npv => Some(npv(args)),
        SeriesFn::Irr => Some(irr(args)),
        SeriesFn::Mirr => Some(mirr(args)),
        SeriesFn::Xnpv => Some(xnpv(args)),
        SeriesFn::Xirr => Some(xirr(args)),
        SeriesFn::SeriesSum => Some(seriessum(args)),
        SeriesFn::Multinomial => Some(multinomial(args)),
        SeriesFn::Distribution(standard) => Some(norm_dist(args, standard)),
        SeriesFn::Erf => Some(erf_fn(args)),
        SeriesFn::Multiple(up) => Some(multiple_fn(args, up)),
        SeriesFn::Value => Some(value_fn(args)),
        SeriesFn::Convert => Some(convert_fn(args)),
    }
}

/// The function that is to work on lists of numbers under a name.
pub open spec fn series_named(name: Seq<char>) -> Option<SeriesFn> {
    if name == "LARGE"@ {
        Some(SeriesFn::NthOrder(true))
    } else if name == "SMALL"@ {
        Some(SeriesFn::NthOrder(false))
    } else if name == "RANK"@ || name == "RANK.EQ"@ {
        Some(SeriesFn::Rank)
    } else if name == "RANK.AVG"@ {
        Some(SeriesFn::RankAvg)
    } else if name == "PERCENTILE"@ || name == "PERCENTILE.INC"@ {
        Some(SeriesFn::Percentile)
    } else if name == "QUARTILE"@ || name == "QUARTILE.INC"@ {
        Some(SeriesFn::Quartile(true))
    } else if name == "QUARTILE.EXC"@ {
        Some(SeriesFn::Quartile(false))
    } else if name == "PERCENTILE.EXC"@ {
        Some(SeriesFn::PercentileExc)
    } else if name == "PERCENTRANK"@ || name == "PERCENTRANK.INC"@ {
        Some(SeriesFn::PercentRank(true))
    } else if name == "PERCENTRANK.EXC"@ {
        Some(SeriesFn::PercentRank(false))
    } else if name == "TRIMMEAN"@ {
        Some(SeriesFn::TrimMean)
    } else if name == "SUMPRODUCT"@ {
        Some(SeriesFn::SumProduct)
    } else if name == "CORREL"@ || name == "PEARSON"@ {
        Some(SeriesFn::Pair(Kernel::Correl, 2))
    } else if name == "RSQ"@ {
        Some(SeriesFn::Pair(Kernel::RSq, 2))
    } else if name == "SLOPE"@ {
        Some(SeriesFn::Pair(Kernel::Slope, 2))
    } else if name == "INTERCEPT"@ {
        Some(SeriesFn::Pair(Kernel::Intercept, 2))
    } else if name == "COVAR"@ || name == "COVARIANCE.P"@ {
        Some(SeriesFn::Pair(Kernel::Covariance(false), 1))
    } else if name == "COVARIANCE.S"@ {
        Some(SeriesFn::Pair(Kernel::Covariance(true), 2))
    } else if name == "STEYX"@ {
        Some(SeriesFn::Pair(Kernel::Steyx, 3))
    } else if name == "FORECAST"@ || name == "FORECAST.LINEAR"@ {
        Some(SeriesFn::Forecast)
    } else if name == "NPV"@ {
        Some(SeriesFn::Npv)
    } else if name == "IRR"@ {
        Some(SeriesFn::Irr)
    } else if name == "MIRR"@ {
        Some(SeriesFn::Mirr)
    } else if name == "XNPV"@ {
        Some(SeriesFn::Xnpv)
    } else if name == "XIRR"@ {
        Some(SeriesFn::Xirr)
    } else if name == "SERIESSUM"@ {
        Some(SeriesFn::SeriesSum)
    } else if name == "MULTINOMIAL"@ {
        Some(SeriesFn::Multinomial)
    } else if name == "NORM.DIST"@ || name == "NORMDIST"@ {
        Some(SeriesFn::Distribution(false))
    } else if name == "NORM.S.DIST"@ {
        Some(SeriesFn::Distribution(true))
    } else if name == "ERF"@ {
        Some(SeriesFn::Erf)
    } else if name == "CEILING"@ {
        Some(SeriesFn::Multiple(true))
    } else if name == "FLOOR"@ {
        Some(SeriesFn::Multiple(false))
    } else if name == "VALUE"@ {
        Some(SeriesFn::Value)
    } else if name == "CONVERT"@ {
        Some(SeriesFn::Convert)
    } else {
        None
    }
}

fn series_by_name(name: &str) -> (r: Option<SeriesFn>)
    ensures
        r == series_named(name@),
{
    if same_text(name, "LARGE") {
        Some(SeriesFn::NthOrder(true))
    } else if same_text(name, "SMALL") {
        Some(SeriesFn::NthOrder(false))
    } else if same_text(name, "RANK") || same_text(name, "RANK.EQ") {
        Some(SeriesFn::Rank)
    } else if same_text(name, "RANK.AVG") {
        Some(SeriesFn::RankAvg)
    } else if same_text(name, "PERCENTILE") || same_text(name, "PERCENTILE.INC") {
        Some(SeriesFn::Percentile)
    } else if same_text(name, "QUARTILE") || same_text(name, "QUARTILE.INC") {
        Some(SeriesFn::Quartile(true))
    } else if same_text(name, "QUARTILE.EXC") {
        Some(SeriesFn::Quartile(false))
    } else if same_text(name, "PERCENTILE.EXC") {
        Some(SeriesFn::PercentileExc)
    } else if same_text(name, "PERCENTRANK") || same_text(name, "PERCENTRANK.INC") {
        Some(SeriesFn::PercentRank(true))
    } else if same_text(name, "PERCENTRANK.EXC") {
        Some(SeriesFn::PercentRank(false))
    } else if same_text(name, "TRIMMEAN") {
        Some(SeriesFn::TrimMean)
    } else if same_text(name, "SUMPRODUCT") {
        Some(SeriesFn::SumProduct)
    } else if same_text(name, "CORREL") || same_text(name, "PEARSON") {
        Some(SeriesFn::Pair(Kernel::Correl, 2))
    } else if same_text(name, "RSQ") {
        Some(SeriesFn::Pair(Kernel::RSq, 2))
    } else if same_text(name, "SLOPE") {
        Some(SeriesFn::Pair(Kernel::Slope, 2))
    } else if same_text(name, "INTERCEPT") {
        Some(SeriesFn::Pair(Kernel::Intercept, 2))
    } else if same_text(name, "COVAR") || same_text(name, "COVARIANCE.P") {
        Some(SeriesFn::Pair(Kernel::Covariance(false), 1))
    } else if same_text(name, "COVARIANCE.S") {
        Some(SeriesFn::Pair(Kernel::Covariance(true), 2))
    } else if same_text(name, "STEYX") {
        Some(SeriesFn::Pair(Kernel::Steyx, 3))
    } else if same_text(name, "FORECAST") || same_text(name, "FORECAST.LINEAR") {
        Some(SeriesFn::Forecast)
    } else if same_text(name, "NPV") {
        Some(SeriesFn::Npv)
    } else if same_text(name, "IRR") {
        Some(SeriesFn::Irr)
    } else if same_text(name, "MIRR") {
        Some(SeriesFn::Mirr)
    } else if same_text(name, "XNPV") {
        Some(SeriesFn::Xnpv)
    } else if same_text(name, "XIRR") {
        Some(SeriesFn::Xirr)
    } else if same_text(name, "SERIESSUM") {
        Some(SeriesFn::SeriesSum)
    } else if same_text(name, "MULTINOMIAL") {
        Some(SeriesFn::Multinomial)
    } else if same_text(name, "NORM.DIST") || same_text(name, "NORMDIST") {
        Some(SeriesFn::Distribution(false))
    } else if same_text(name, "NORM.S.DIST") {
        Some(SeriesFn::Distribution(true))
    } else if same_text(name, "ERF") {
        Some(SeriesFn::Erf)
    } else if same_text(name, "CEILING") {
        Some(SeriesFn::Multiple(true))
    } else if same_text(name, "FLOOR") {
        Some(SeriesFn::Multiple(false))
    } else if same_text(name, "VALUE") {
        Some(SeriesFn::Value)
    } else if same_text(name, "CONVERT") {
        Some(SeriesFn::Convert)
    } else {
        None
    }
}

/// The functions that make one value of many.
#[derive(Debug, Clone, Copy)]
pub enum TotalFn {
    Total(Pick, Total),
    Count(Counted),
    Subtotal,
    SumIf,
    CountIf,
    AverageIf,
    SumIfs,
    CountIfs,
    AverageIfs,
    ExtremeIfs(bool),
    Database(Reduction),
}

/// What a function that is to make one value of many says.
pub open spec fn total_says(f: TotalFn, args: Seq<Given>, r: Option<Said>) -> bool {
    match f {
        TotalFn::Total(p, t) => r == Some(total_from(args, 0, p, t)),
        TotalFn::Count(c) => r == Some(counted(count_in(everything(given_from(args, 0)), c) as int)),
        TotalFn::Subtotal => r == Some(subtotal_of(args)),
        TotalFn::SumIf => r == Some(sumif_of(args)),
        TotalFn::CountIf => r == Some(counted(fitting(all_at(args, 0, Seq::empty()), nth(args, 1)) as int)),
        TotalFn::AverageIf => r == Some(averageif_of(args)),
        TotalFn::SumIfs => r == Some(sumifs_of(args)),
        TotalFn::CountIfs => r == Some(countifs_of(args)),
        TotalFn::AverageIfs => r == Some(averageifs_of(args)),
        TotalFn::ExtremeIfs(max) => r == Some(extremum_ifs_of(args, max)),
        TotalFn::Database(how) => r == Some(dfn_of(args, how)),
    }
}

fn total_call(f: TotalFn, args: &Vec<Arg>) -> (r: Option<Reply>)
    ensures
        total_says(f, given(args@), reply_view(r)),
{
    match f {
        TotalFn::Total(p, t) => Some(total_args(args, 0, p, t)),
        TotalFn::Count(c) => Some(count_args(args, 0, c)),
        TotalFn::Subtotal => Some(f_subtotal(args)),
        TotalFn::SumIf => Some(f_sumif(args)),
        TotalFn::CountIf => Some(f_countif(args)),
        TotalFn::AverageIf => Some(averageif(args)),
        TotalFn::SumIfs => Some(sumifs(args)),
        TotalFn::CountIfs => Some(countifs(args)),
        TotalFn::AverageIfs => Some(averageifs(args)),
        TotalFn::ExtremeIfs(max) => Some(extremum_ifs(args, max)),
        TotalFn::Database(how) => Some(dfn(args, how)),
    }
}

/// The function that is to make one value of many under a name.
pub open spec fn total_named(name: Seq<char>) -> Option<TotalFn> {
    if name == "SUM"@ {
        Some(TotalFn::Total(Pick::Usual, Total::Sum))
    } else if name == "AVERAGE"@ {
        Some(TotalFn::Total(Pick::Usual, Total::Mean))
    } else if name == "PRODUCT"@ {
        Some(TotalFn::Total(Pick::Usual, Total::Product))
    } else if name == "MAX"@ {
        Some(TotalFn::Total(Pick::Usual, Total::Largest))
    } else if name == "MIN"@ {
        Some(TotalFn::Total(Pick::Usual, Total::Smallest))
    } else if name == "SUMSQ"@ {
        Some(TotalFn::Total(Pick::Usual, Total::SumSquares))
    } else if name == "STDEV"@ || name == "STDEV.S"@ {
        Some(TotalFn::Total(Pick::Usual, Total::Variance(true, true)))
    } else if name == "STDEVP"@ || name == "STDEV.P"@ {
        Some(TotalFn::Total(Pick::Usual, Total::Variance(false, true)))
    } else if name == "VAR"@ || name == "VAR.S"@ {
        Some(TotalFn::Total(Pick::Usual, Total::Variance(true, false)))
    } else if name == "VARP"@ || name == "VAR.P"@ {
        Some(TotalFn::Total(Pick::Usual, Total::Variance(false, false)))
    } else if name == "MEDIAN"@ {
        Some(TotalFn::Total(Pick::Usual, Total::Median))
    } else if name == "MODE"@ || name == "MODE.SNGL"@ {
        Some(TotalFn::Total(Pick::Usual, Total::Mode))
    } else if name == "DEVSQ"@ {
        Some(TotalFn::Total(Pick::Usual, Total::DevSq))
    } else if name == "AVEDEV"@ {
        Some(TotalFn::Total(Pick::Usual, Total::AveDev))
    } else if name == "SKEW"@ {
        Some(TotalFn::Total(Pick::Usual, Total::Skew(false)))
    } else if name == "SKEW.P"@ {
        Some(TotalFn::Total(Pick::Usual, Total::Skew(true)))
    } else if name == "KURT"@ {
        Some(TotalFn::Total(Pick::Usual, Total::Kurt))
    } else if name == "GEOMEAN"@ {
        Some(TotalFn::Total(Pick::Usual, Total::GeoMean))
    } else if name == "HARMEAN"@ {
        Some(TotalFn::Total(Pick::Usual, Total::HarMean))
    } else if name == "AVERAGEA"@ {
        Some(TotalFn::Total(Pick::WithTexts, Total::Mean))
    } else if name == "MAXA"@ {
        Some(TotalFn::Total(Pick::WithTexts, Total::Largest))
    } else if name == "MINA"@ {
        Some(TotalFn::Total(Pick::WithTexts, Total::Smallest))
    } else if name == "STDEVA"@ {
        Some(TotalFn::Total(Pick::WithTexts, Total::Variance(true, true)))
    } else if name == "STDEVPA"@ {
        Some(TotalFn::Total(Pick::WithTexts, Total::Variance(false, true)))
    } else if name == "VARA"@ {
        Some(TotalFn::Total(Pick::WithTexts, Total::Variance(true, false)))
    } else if name == "VARPA"@ {
        Some(TotalFn::Total(Pick::WithTexts, Total::Variance(false, false)))
    } else if name == "COUNT"@ {
        Some(TotalFn::Count(Counted::Numbers))
    } else if name == "COUNTA"@ {
        Some(TotalFn::Count(Counted::Filled))
    } else if name == "COUNTBLANK"@ {
        Some(TotalFn::Count(Counted::Blank))
    } else if name == "SUBTOTAL"@ {
        Some(TotalFn::Subtotal)
    } else if name == "SUMIF"@ {
        Some(TotalFn::SumIf)
    } else if name == "COUNTIF"@ {
        Some(TotalFn::CountIf)
    } else if name == "AVERAGEIF"@ {
        Some(TotalFn::AverageIf)
    } else if name == "SUMIFS"@ {
        Some(TotalFn::SumIfs)
    } else if name == "COUNTIFS"@ {
        Some(TotalFn::CountIfs)
    } else if name == "AVERAGEIFS"@ {
        Some(TotalFn::AverageIfs)
    } else if name == "MAXIFS"@ {
        Some(TotalFn::ExtremeIfs(true))
    } else if name == "MINIFS"@ {
        Some(TotalFn::ExtremeIfs(false))
    } else if name == "DSUM"@ {
        Some(TotalFn::Database(Reduction::Total(Total::Sum)))
    } else if name == "DAVERAGE"@ {
        Some(TotalFn::Database(Reduction::Total(Total::Mean)))
    } else if name == "DMAX"@ {
        Some(TotalFn::Database(Reduction::Total(Total::Largest)))
    } else if name == "DMIN"@ {
        Some(TotalFn::Database(Reduction::Total(Total::Smallest)))
    } else if name == "DPRODUCT"@ {
        Some(TotalFn::Database(Reduction::Total(Total::Product)))
    } else if name == "DSTDEV"@ {
        Some(TotalFn::Database(Reduction::Total(Total::Variance(true, true))))
    } else if name == "DSTDEVP"@ {
        Some(TotalFn::Database(Reduction::Total(Total::Variance(false, true))))
    } else if name == "DVAR"@ {
        Some(TotalFn::Database(Reduction::Total(Total::Variance(true, false))))
    } else if name == "DVARP"@ {
        Some(TotalFn::Database(Reduction::Total(Total::Variance(false, false))))
    } else if name == "DCOUNT"@ {
        Some(TotalFn::Database(Reduction::CountNumbers))
    } else if name == "DCOUNTA"@ {
        Some(TotalFn::Database(Reduction::CountFilled))
    } else if name == "DGET"@ {
        Some(TotalFn::Database(Reduction::Only))
    } else {
        None
    }
}

fn total_by_name(name: &str) -> (r: Option<TotalFn>)
    ensures
        r == total_named(name@),
{
    if same_text(name, "SUM") {
        Some(TotalFn::Total(Pick::Usual, Total::Sum))
    } else if same_text(name, "AVERAGE") {
        Some(TotalFn::Total(Pick::Usual, Total::Mean))
    } else if same_text(name, "PRODUCT") {
        Some(TotalFn::Total(Pick::Usual, Total::Product))
    } else if same_text(name, "MAX") {
        Some(TotalFn::Total(Pick::Usual, Total::Largest))
    } else if same_text(name, "MIN") {
        Some(TotalFn::Total(Pick::Usual, Total::Smallest))
    } else if same_text(name, "SUMSQ") {
        Some(TotalFn::Total(Pick::Usual, Total::SumSquares))
    } else if same_text(name, "STDEV") || same_text(name, "STDEV.S") {
        Some(TotalFn::Total(Pick::Usual, Total::Variance(true, true)))
    } else if same_text(name, "STDEVP") || same_text(name, "STDEV.P") {
        Some(TotalFn::Total(Pick::Usual, Total::Variance(false, true)))
    } else if same_text(name, "VAR") || same_text(name, "VAR.S") {
        Some(TotalFn::Total(Pick::Usual, Total::Variance(true, false)))
    } else if same_text(name, "VARP") || same_text(name, "VAR.P") {
        Some(TotalFn::Total(Pick::Usual, Total::Variance(false, false)))
    } else if same_text(name, "MEDIAN") {
        Some(TotalFn::Total(Pick::Usual, Total::Median))
    } else if same_text(name, "MODE") || same_text(name, "MODE.SNGL") {
        Some(TotalFn::Total(Pick::Usual, Total::Mode))
    } else if same_text(name, "DEVSQ") {
        Some(TotalFn::Total(Pick::Usual, Total::DevSq))
    } else if same_text(name, "AVEDEV") {
        Some(TotalFn::Total(Pick::Usual, Total::AveDev))
    } else if same_text(name, "SKEW") {
        Some(TotalFn::Total(Pick::Usual, Total::Skew(false)))
    } else if same_text(name, "SKEW.P") {
        Some(TotalFn::Total(Pick::Usual, Total::Skew(true)))
    } else if same_text(name, "KURT") {
        Some(TotalFn::Total(Pick::Usual, Total::Kurt))
    } else if same_text(name, "GEOMEAN") {
        Some(TotalFn::Total(Pick::Usual, Total::GeoMean))
    } else if same_text(name, "HARMEAN") {
        Some(TotalFn::Total(Pick::Usual, Total::HarMean))
    } else if same_text(name, "AVERAGEA") {
        Some(TotalFn::Total(Pick::WithTexts, Total::Mean))
    } else if same_text(name, "MAXA") {
        Some(TotalFn::Total(Pick::WithTexts, Total::Largest))
    } else if same_text(name, "MINA") {
        Some(TotalFn::Total(Pick::WithTexts, Total::Smallest))
    } else if same_text(name, "STDEVA") {
        Some(TotalFn::Total(Pick::WithTexts, Total::Variance(true, true)))
    } else if same_text(name, "STDEVPA") {
        Some(TotalFn::Total(Pick::WithTexts, Total::Variance(false, true)))
    } else if same_text(name, "VARA") {
        Some(TotalFn::Total(Pick::WithTexts, Total::Variance(true, false)))
    } else if same_text(name, "VARPA") {
        Some(TotalFn::Total(Pick::WithTexts, Total::Variance(false, false)))
    } else if same_text(name, "COUNT") {
        Some(TotalFn::Count(Counted::Numbers))
    } else if same_text(name, "COUNTA") {
        Some(TotalFn::Count(Counted::Filled))
    } else if same_text(name, "COUNTBLANK") {
        Some(TotalFn::Count(Counted::Blank))
    } else if same_text(name, "SUBTOTAL") {
        Some(TotalFn::Subtotal)
    } else if same_text(name, "SUMIF") {
        Some(TotalFn::SumIf)
    } else if same_text(name, "COUNTIF") {
        Some(TotalFn::CountIf)
    } else if same_text(name, "AVERAGEIF") {
        Some(TotalFn::AverageIf)
    } else if same_text(name, "SUMIFS") {
        Some(TotalFn::SumIfs)
    } else if same_text(name, "COUNTIFS") {
        Some(TotalFn::CountIfs)
    } else if same_text(name, "AVERAGEIFS") {
        Some(TotalFn::AverageIfs)
    } else if same_text(name, "MAXIFS") {
        Some(TotalFn::ExtremeIfs(true))
    } else if same_text(name, "MINIFS") {
        Some(TotalFn::ExtremeIfs(false))
    } else if same_text(name, "DSUM") {
        Some(TotalFn::Database(Reduction::Total(Total::Sum)))
    } else if same_text(name, "DAVERAGE") {
        Some(TotalFn::Database(Reduction::Total(Total::Mean)))
    } else if same_text(name, "DMAX") {
        Some(TotalFn::Database(Reduction::Total(Total::Largest)))
    } else if same_text(name, "DMIN") {
        Some(TotalFn::Database(Reduction::Total(Total::Smallest)))
    } else if same_text(name, "DPRODUCT") {
        Some(TotalFn::Database(Reduction::Total(Total::Product)))
    } else if same_text(name, "DSTDEV") {
        Some(TotalFn::Database(Reduction::Total(Total::Variance(true, true))))
    } else if same_text(name, "DSTDEVP") {
        Some(TotalFn::Database(Reduction::Total(Total::Variance(false, true))))
    } else if same_text(name, "DVAR") {
        Some(TotalFn::Database(Reduction::Total(Total::Variance(true, false))))
    } else if same_text(name, "DVARP") {
        Some(TotalFn::Database(Reduction::Total(Total::Variance(false, false))))
    } else if same_text(name, "DCOUNT") {
        Some(TotalFn::Database(Reduction::CountNumbers))
    } else if same_text(name, "DCOUNTA") {
        Some(TotalFn::Database(Reduction::CountFilled))
    } else if same_text(name, "DGET") {
        Some(TotalFn::Database(Reduction::Only))
    } else {
        None
    }
}

/// A function that every formula may call.
#[derive(Debug, Clone, Copy)]
pub enum Builtin {
    Plan(Plan),
    Total(TotalFn),
    Logic(LogicFn),
    Text(TextFn),
    Lookup(LookupFn),
    Whole(WholeFn),
    Date(DateFn),
    Series(SeriesFn),
    Complex(ComplexFn),
    /// The row or the column of the formula.
    Here(bool),
    /// The day, or the day and the time, of the clock.
    Clock(bool),
    Constant(Num),
}

/// Where and when a formula is worked out: its cell, counted from nothing, and the seconds
/// since the first of January 1970.
#[derive(Debug, Clone, Copy)]
pub struct Place {
    pub row: u32,
    pub col: u32,
    pub seconds: u64,
}

/// The ratio of a circle's circumference to its diameter.
pub const PI_BITS: u64 = 0x400921fb54442d18;

/// One half.
pub const HALF_BITS: u64 = 0x3fe0000000000000;

/// The longest time that can be counted.
pub const LAST_SECOND: u64 = 0x7000_0000_0000_0000;

/// The functions that look at the place, the clock or nothing at all.
pub open spec fn placed_named(name: Seq<char>) -> Option<Builtin> {
    if name == "ROW"@ {
        Some(Builtin::Here(true))
    } else if name == "COLUMN"@ {
        Some(Builtin::Here(false))
    } else if name == "TODAY"@ {
        Some(Builtin::Clock(false))
    } else if name == "NOW"@ {
        Some(Builtin::Clock(true))
    } else if name == "PI"@ {
        Some(Builtin::Constant(Num { bits: PI_BITS }))
    } else if name == "RAND"@ {
        Some(Builtin::Constant(Num { bits: HALF_BITS }))
    } else {
        None
    }
}

fn placed_by_name(name: &str) -> (r: Option<Builtin>)
    ensures
        r == placed_named(name@),
{
    if same_text(name, "ROW") {
        Some(Builtin::Here(true))
    } else if same_text(name, "COLUMN") {
        Some(Builtin::Here(false))
    } else if same_text(name, "TODAY") {
        Some(Builtin::Clock(false))
    } else if same_text(name, "NOW") {
        Some(Builtin::Clock(true))
    } else if same_text(name, "PI") {
        Some(Builtin::Constant(Num { bits: PI_BITS }))
    } else if same_text(name, "RAND") {
        Some(Builtin::Constant(Num { bits: HALF_BITS }))
    } else {
        None
    }
}

/// The function under a name, written in capitals.
pub open spec fn builtin_named(name: Seq<char>) -> Option<Builtin> {
    if let Some(f) = total_named(name) {
        Some(Builtin::Total(f))
    } else if let Some(f) = logic_named(name) {
        Some(Builtin::Logic(f))
    } else if let Some(f) = text_named(name) {
        Some(Builtin::Text(f))
    } else if let Some(f) = lookup_named(name) {
        Some(Builtin::Lookup(f))
    } else if let Some(f) = whole_named(name) {
        Some(Builtin::Whole(f))
    } else if let Some(f) = date_named(name) {
        Some(Builtin::Date(f))
    } else if let Some(f) = series_named(name) {
        Some(Builtin::Series(f))
    } else if let Some(f) = complex_named(name) {
        Some(Builtin::Complex(f))
    } else if let Some(f) = plan_of(name) {
        Some(Builtin::Plan(f))
    } else {
        placed_named(name)
    }
}

/// What a function says to its arguments, nothing where a count that it needs does not fit.
pub open spec fn builtin_says(
    f: Builtin,
    args: Seq<Given>,
    place: Place,
    r: Option<Said>,
) -> bool {
    match f {
        Builtin::Plan(p) => r == Some(planned(p, args)),
        Builtin::Total(f) => total_says(f, args, r),
        Builtin::Logic(f) => logic_says(f, args, r),
        Builtin::Text(f) => text_says(f, args, r),
        Builtin::Lookup(f) => lookup_says(f, args, r),
        Builtin::Whole(f) => whole_says(f, args, r),
        Builtin::Date(f) => date_says(f, args, r),
        Builtin::Series(f) => series_says(f, args, r),
        Builtin::Complex(f) => r == Some(complex_says(f, args)),
        Builtin::Here(row) => r == Some(
            if args.len() > 0 {
                failed(FormulaError::Value)
            } else if row {
                Said::Int(place.row + 1)
            } else {
                Said::Int(place.col + 1)
            },
        ),
        Builtin::Clock(time) => r == (if place.seconds > LAST_SECOND {
            None::<Said>
        } else if time {
            Some(Said::Ratio(25569 * 86400 + place.seconds, 86400, 1))
        } else {
            Some(Said::Int(25569 + place.seconds / 86400))
        }),
        Builtin::Constant(n) => r == Some(figure(n)),
    }
}

/// The function under a name, written in capitals.
pub fn find_builtin(name: &str) -> (r: Option<Builtin>)
    ensures
        r == builtin_named(name@),
        r matches Some(Builtin::Plan(p)) ==> sound(p),
{
    if let Some(f) = total_by_name(name) {
        Some(Builtin::Total(f))
    } else if let Some(f) = logic_by_name(name) {
        Some(Builtin::Logic(f))
    } else if let Some(f) = text_by_name(name) {
        Some(Builtin::Text(f))
    } else if let Some(f) = lookup_by_name(name) {
        Some(Builtin::Lookup(f))
    } else if let Some(f) = whole_by_name(name) {
        Some(Builtin::Whole(f))
    } else if let Some(f) = date_by_name(name) {
        Some(Builtin::Date(f))
    } else if let Some(f) = series_by_name(name) {
        Some(Builtin::Series(f))
    } else if let Some(f) = complex_by_name(name) {
        Some(Builtin::Complex(f))
    } else if let Some(f) = find_plan(name) {
        Some(Builtin::Plan(f))
    } else {
        placed_by_name(name)
    }
}

/// Calls a function with its arguments.
pub fn call_builtin(f: Builtin, args: &Vec<Arg>, place: Place) -> (r: Option<Reply>)
    requires
        f matches Builtin::Plan(p) ==> sound(p),
    ensures
        builtin_says(f, given(args@), place, reply_view(r)),
{
    match f {
        Builtin::Plan(p) => Some(run_plan(p, args)),
        Builtin::Total(f) => total_call(f, args),
        Builtin::Logic(f) => logic_call(f, args),
        Builtin::Text(f) => text_call(f, args),
        Builtin::Lookup(f) => lookup_call(f, args),
        Builtin::Whole(f) => whole_call(f, args),
        Builtin::Date(f) => date_call(f, args),
        Builtin::Series(f) => series_call(f, args),
        Builtin::Complex(f) => Some(complex_call(f, args)),
        Builtin::Here(row) => Some(
            if args.len() > 0 {
                Reply::error(FormulaError::Value)
            } else if row {
                Reply::Int(place.row as i64 + 1)
            } else {
                Reply::Int(place.col as i64 + 1)
            },
        ),
        Builtin::Clock(time) => {
            if place.seconds > LAST_SECOND {
                None
            } else if time {
                Some(Reply::Ratio(25569 * 86400 + place.seconds as i64, 86400, 1))
            } else {
                Some(Reply::Int(25569 + (place.seconds / 86400) as i64))
            }
        },
        Builtin::Constant(n) => Some(Reply::number(n)),
    }
}

/// Calls the function under a name, if there is one.
pub fn call_by_name(name: &str, args: &Vec<Arg>, place: Place) -> (r: Option<Option<Reply>>)
    ensures
        match builtin_named(name@) {
            None => r is None,
            Some(f) => r matches Some(x) && builtin_says(f, given(args@), place, reply_view(x)),
        },
{
    match find_builtin(name) {
        None => None,
        Some(f) => Some(call_builtin(f, args, place)),
    }
}

} // verus!
