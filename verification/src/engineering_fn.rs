//! Functions of engineering: units of measure and complex numbers as texts.
use crate::kernel::Kernel;
use crate::logic_fn::{equal, same_number};
use crate::reading::{
    failed, given, nth, num, number_at, text_at, txt, work, Arg, Given, Reply, Said,
};
use crate::text::{chars_of, same_text, slice_string, trim_text, trimmed};
use crate::value::{zero, FormulaError, Num};
use vstd::prelude::*;

verus! {

/// What a unit measures.
#[derive(Debug, Clone, Copy, PartialEq, Eq, Structural)]
pub enum Quantity {
    Weight,
    Distance,
    Time,
    Pressure,
    Force,
    Energy,
    Power,
    Volume,
}

/// How many base units a unit of weight has.
pub open spec fn weight(u: Seq<char>) -> Option<Num> {
    if u == "g"@ {
        Some(Num { bits: 0x3ff0_0000_0000_0000 })
    } else if u == "kg"@ {
        Some(Num { bits: 0x408f_4000_0000_0000 })
    } else if u == "mg"@ {
        Some(Num { bits: 0x3f50_624d_d2f1_a9fc })
    } else if u == "lbm"@ {
        Some(Num { bits: 0x407c_597a_58f7_121b })
    } else if u == "ozm"@ {
        Some(Num { bits: 0x403c_597a_58f7_121b })
    } else if u == "u"@ {
        Some(Num { bits: 0x3b00_0f4b_8a92_0627 })
    } else if u == "sg"@ {
        Some(Num { bits: 0x40cc_80f3_923a_29c7 })
    } else if u == "stone"@ {
        Some(Num { bits: 0x40b8_ce4b_0dd8_2fd7 })
    } else if u == "ton"@ {
        Some(Num { bits: 0x412b_af61_7ae1_47ae })
    } else {
        None
    }
}

fn weight_unit(u: &str) -> (r: Option<Num>)
    ensures
        r == weight(u@),
{
    if same_text(u, "g") {
        Some(Num { bits: 0x3ff0_0000_0000_0000 })
    } else if same_text(u, "kg") {
        Some(Num { bits: 0x408f_4000_0000_0000 })
    } else if same_text(u, "mg") {
        Some(Num { bits: 0x3f50_624d_d2f1_a9fc })
    } else if same_text(u, "lbm") {
        Some(Num { bits: 0x407c_597a_58f7_121b })
    } else if same_text(u, "ozm") {
        Some(Num { bits: 0x403c_597a_58f7_121b })
    } else if same_text(u, "u") {
        Some(Num { bits: 0x3b00_0f4b_8a92_0627 })
    } else if same_text(u, "sg") {
        Some(Num { bits: 0x40cc_80f3_923a_29c7 })
    } else if same_text(u, "stone") {
        Some(Num { bits: 0x40b8_ce4b_0dd8_2fd7 })
    } else if same_text(u, "ton") {
        Some(Num { bits: 0x412b_af61_7ae1_47ae })
    } else {
        None
    }
}

/// How many base units a unit of distance has.
pub open spec fn distance(u: Seq<char>) -> Option<Num> {
    if u == "m"@ {
        Some(Num { bits: 0x3ff0_0000_0000_0000 })
    } else if u == "km"@ {
        Some(Num { bits: 0x408f_4000_0000_0000 })
    } else if u == "cm"@ {
        Some(Num { bits: 0x3f84_7ae1_47ae_147b })
    } else if u == "mm"@ {
        Some(Num { bits: 0x3f50_624d_d2f1_a9fc })
    } else if u == "mi"@ {
        Some(Num { bits: 0x4099_2560_4189_374c })
    } else if u == "in"@ {
        Some(Num { bits: 0x3f9a_0275_2546_0aa6 })
    } else if u == "ft"@ {
        Some(Num { bits: 0x3fd3_81d7_dbf4_87fd })
    } else if u == "yd"@ {
        Some(Num { bits: 0x3fed_42c3_c9ee_cbfb })
    } else if u == "ang"@ {
        Some(Num { bits: 0x3ddb_7cdf_d9d7_bdbb })
    } else if u == "ly"@ {
        Some(Num { bits: 0x4340_ce3d_fb91_2360 })
    } else if u == "Nmi"@ {
        Some(Num { bits: 0x409c_f000_0000_0000 })
    } else if u == "pica"@ {
        Some(Num { bits: 0x3f71_56f8_c384_0719 })
    } else {
        None
    }
}

fn distance_unit(u: &str) -> (r: Option<Num>)
    ensures
        r == distance(u@),
{
    if same_text(u, "m") {
        Some(Num { bits: 0x3ff0_0000_0000_0000 })
    } else if same_text(u, "km") {
        Some(Num { bits: 0x408f_4000_0000_0000 })
    } else if same_text(u, "cm") {
        Some(Num { bits: 0x3f84_7ae1_47ae_147b })
    } else if same_text(u, "mm") {
        Some(Num { bits: 0x3f50_624d_d2f1_a9fc })
    } else if same_text(u, "mi") {
        Some(Num { bits: 0x4099_2560_4189_374c })
    } else if same_text(u, "in") {
        Some(Num { bits: 0x3f9a_0275_2546_0aa6 })
    } else if same_text(u, "ft") {
        Some(Num { bits: 0x3fd3_81d7_dbf4_87fd })
    } else if same_text(u, "yd") {
        Some(Num { bits: 0x3fed_42c3_c9ee_cbfb })
    } else if same_text(u, "ang") {
        Some(Num { bits: 0x3ddb_7cdf_d9d7_bdbb })
    } else if same_text(u, "ly") {
        Some(Num { bits: 0x4340_ce3d_fb91_2360 })
    } else if same_text(u, "Nmi") {
        Some(Num { bits: 0x409c_f000_0000_0000 })
    } else if same_text(u, "pica") {
        Some(Num { bits: 0x3f71_56f8_c384_0719 })
    } else {
        None
    }
}

/// How many base units a unit of time has.
pub open spec fn time(u: Seq<char>) -> Option<Num> {
    if u == "sec"@ || u == "s"@ {
        Some(Num { bits: 0x3ff0_0000_0000_0000 })
    } else if u == "min"@ {
        Some(Num { bits: 0x404e_0000_0000_0000 })
    } else if u == "hr"@ {
        Some(Num { bits: 0x40ac_2000_0000_0000 })
    } else if u == "day"@ {
        Some(Num { bits: 0x40f5_1800_0000_0000 })
    } else if u == "yr"@ {
        Some(Num { bits: 0x417e_187e_0000_0000 })
    } else {
        None
    }
}

fn time_unit(u: &str) -> (r: Option<Num>)
    ensures
        r == time(u@),
{
    if same_text(u, "sec") || same_text(u, "s") {
        Some(Num { bits: 0x3ff0_0000_0000_0000 })
    } else if same_text(u, "min") {
        Some(Num { bits: 0x404e_0000_0000_0000 })
    } else if same_text(u, "hr") {
        Some(Num { bits: 0x40ac_2000_0000_0000 })
    } else if same_text(u, "day") {
        Some(Num { bits: 0x40f5_1800_0000_0000 })
    } else if same_text(u, "yr") {
        Some(Num { bits: 0x417e_187e_0000_0000 })
    } else {
        None
    }
}

/// How many base units a unit of pressure has.
pub open spec fn pressure(u: Seq<char>) -> Option<Num> {
    if u == "Pa"@ {
        Some(Num { bits: 0x3ff0_0000_0000_0000 })
    } else if u == "atm"@ {
        Some(Num { bits: 0x40f8_bcd0_0000_0000 })
    } else if u == "mmHg"@ {
        Some(Num { bits: 0x4060_aa4d_d2f1_a9fc })
    } else if u == "psi"@ {
        Some(Num { bits: 0x40ba_eec1_ddc1_e796 })
    } else if u == "Torr"@ {
        Some(Num { bits: 0x4060_aa50_d6b2_28dd })
    } else {
        None
    }
}

fn pressure_unit(u: &str) -> (r: Option<Num>)
    ensures
        r == pressure(u@),
{
    if same_text(u, "Pa") {
        Some(Num { bits: 0x3ff0_0000_0000_0000 })
    } else if same_text(u, "atm") {
        Some(Num { bits: 0x40f8_bcd0_0000_0000 })
    } else if same_text(u, "mmHg") {
        Some(Num { bits: 0x4060_aa4d_d2f1_a9fc })
    } else if same_text(u, "psi") {
        Some(Num { bits: 0x40ba_eec1_ddc1_e796 })
    } else if same_text(u, "Torr") {
        Some(Num { bits: 0x4060_aa50_d6b2_28dd })
    } else {
        None
    }
}

/// How many base units a unit of force has.
pub open spec fn force(u: Seq<char>) -> Option<Num> {
    if u == "N"@ {
        Some(Num { bits: 0x3ff0_0000_0000_0000 })
    } else if u == "dyn"@ {
        Some(Num { bits: 0x3ee4_f8b5_88e3_68f1 })
    } else if u == "lbf"@ {
        Some(Num { bits: 0x4011_cafa_9b6b_9dd7 })
    } else if u == "pond"@ {
        Some(Num { bits: 0x3f84_1582_4844_3c70 })
    } else {
        None
    }
}

fn force_unit(u: &str) -> (r: Option<Num>)
    ensures
        r == force(u@),
{
    if same_text(u, "N") {
        Some(Num { bits: 0x3ff0_0000_0000_0000 })
    } else if same_text(u, "dyn") {
        Some(Num { bits: 0x3ee4_f8b5_88e3_68f1 })
    } else if same_text(u, "lbf") {
        Some(Num { bits: 0x4011_cafa_9b6b_9dd7 })
    } else if same_text(u, "pond") {
        Some(Num { bits: 0x3f84_1582_4844_3c70 })
    } else {
        None
    }
}

/// How many base units a unit of energy has.
pub open spec fn energy(u: Seq<char>) -> Option<Num> {
    if u == "J"@ {
        Some(Num { bits: 0x3ff0_0000_0000_0000 })
    } else if u == "e"@ {
        Some(Num { bits: 0x3e7a_d7f2_9abc_af48 })
    } else if u == "cal"@ {
        Some(Num { bits: 0x4010_bf48_7fcb_923a })
    } else if u == "c"@ {
        Some(Num { bits: 0x4010_bc6a_7ef9_db23 })
    } else if u == "eV"@ {
        Some(Num { bits: 0x3c07_a4da_290c_1653 })
    } else if u == "HPh"@ {
        Some(Num { bits: 0x4144_7b33_c4d3_3a6a })
    } else if u == "Wh"@ {
        Some(Num { bits: 0x40ac_2000_0000_0000 })
    } else if u == "flb"@ {
        Some(Num { bits: 0x3ff5_b16e_2936_9c65 })
    } else if u == "BTU"@ {
        Some(Num { bits: 0x4090_7c39_316d_e12f })
    } else {
        None
    }
}

fn energy_unit(u: &str) -> (r: Option<Num>)
    ensures
        r == energy(u@),
{
    if same_text(u, "J") {
        Some(Num { bits: 0x3ff0_0000_0000_0000 })
    } else if same_text(u, "e") {
        Some(Num { bits: 0x3e7a_d7f2_9abc_af48 })
    } else if same_text(u, "cal") {
        Some(Num { bits: 0x4010_bf48_7fcb_923a })
    } else if same_text(u, "c") {
        Some(Num { bits: 0x4010_bc6a_7ef9_db23 })
    } else if same_text(u, "eV") {
        Some(Num { bits: 0x3c07_a4da_290c_1653 })
    } else if same_text(u, "HPh") {
        Some(Num { bits: 0x4144_7b33_c4d3_3a6a })
    } else if same_text(u, "Wh") {
        Some(Num { bits: 0x40ac_2000_0000_0000 })
    } else if same_text(u, "flb") {
        Some(Num { bits: 0x3ff5_b16e_2936_9c65 })
    } else if same_text(u, "BTU") {
        Some(Num { bits: 0x4090_7c39_316d_e12f })
    } else {
        None
    }
}

/// How many base units a unit of power has.
pub open spec fn power(u: Seq<char>) -> Option<Num> {
    if u == "W"@ {
        Some(Num { bits: 0x3ff0_0000_0000_0000 })
    } else if u == "HP"@ {
        Some(Num { bits: 0x4087_4d99_5645_aa01 })
    } else if u == "PS"@ {
        Some(Num { bits: 0x4086_fbfd_70a3_d70a })
    } else {
        None
    }
}

fn power_unit(u: &str) -> (r: Option<Num>)
    ensures
        r == power(u@),
{
    if same_text(u, "W") {
        Some(Num { bits: 0x3ff0_0000_0000_0000 })
    } else if same_text(u, "HP") {
        Some(Num { bits: 0x4087_4d99_5645_aa01 })
    } else if same_text(u, "PS") {
        Some(Num { bits: 0x4086_fbfd_70a3_d70a })
    } else {
        None
    }
}

/// How many base units a unit of volume has.
pub open spec fn volume(u: Seq<char>) -> Option<Num> {
    if u == "L"@ || u == "l"@ {
        Some(Num { bits: 0x3ff0_0000_0000_0000 })
    } else if u == "tsp"@ {
        Some(Num { bits: 0x3f74_3059_50cb_96e4 })
    } else if u == "tbs"@ {
        Some(Num { bits: 0x3f8e_4885_f931_6256 })
    } else if u == "oz"@ {
        Some(Num { bits: 0x3f9e_4885_f931_6256 })
    } else if u == "cup"@ {
        Some(Num { bits: 0x3fce_4885_f931_6256 })
    } else if u == "pt"@ {
        Some(Num { bits: 0x3fde_4885_f931_6256 })
    } else if u == "qt"@ {
        Some(Num { bits: 0x3fee_4885_f931_6256 })
    } else if u == "gal"@ {
        Some(Num { bits: 0x400e_4885_f931_6256 })
    } else if u == "m3"@ {
        Some(Num { bits: 0x408f_4000_0000_0000 })
    } else {
        None
    }
}

fn volume_unit(u: &str) -> (r: Option<Num>)
    ensures
        r == volume(u@),
{
    if same_text(u, "L") || same_text(u, "l") {
        Some(Num { bits: 0x3ff0_0000_0000_0000 })
    } else if same_text(u, "tsp") {
        Some(Num { bits: 0x3f74_3059_50cb_96e4 })
    } else if same_text(u, "tbs") {
        Some(Num { bits: 0x3f8e_4885_f931_6256 })
    } else if same_text(u, "oz") {
        Some(Num { bits: 0x3f9e_4885_f931_6256 })
    } else if same_text(u, "cup") {
        Some(Num { bits: 0x3fce_4885_f931_6256 })
    } else if same_text(u, "pt") {
        Some(Num { bits: 0x3fde_4885_f931_6256 })
    } else if same_text(u, "qt") {
        Some(Num { bits: 0x3fee_4885_f931_6256 })
    } else if same_text(u, "gal") {
        Some(Num { bits: 0x400e_4885_f931_6256 })
    } else if same_text(u, "m3") {
        Some(Num { bits: 0x408f_4000_0000_0000 })
    } else {
        None
    }
}

/// What a unit measures, and how many base units it has.
pub open spec fn unit_of(u: Seq<char>) -> Option<(Quantity, Num)> {
    match weight(u) {
        Some(n) => Some((Quantity::Weight, n)),
        None => match distance(u) {
            Some(n) => Some((Quantity::Distance, n)),
            None => match time(u) {
                Some(n) => Some((Quantity::Time, n)),
                None => match pressure(u) {
                    Some(n) => Some((Quantity::Pressure, n)),
                    None => match force(u) {
                        Some(n) => Some((Quantity::Force, n)),
                        None => match energy(u) {
                            Some(n) => Some((Quantity::Energy, n)),
                            None => match power(u) {
                                Some(n) => Some((Quantity::Power, n)),
                                None => match volume(u) {
                                    Some(n) => Some((Quantity::Volume, n)),
                                    None => None,
                                },
                            },
                        },
                    },
                },
            },
        },
    }
}

/// What a unit measures, and how many base units it has.
pub fn unit_factor(u: &str) -> (r: Option<(Quantity, Num)>)
    ensures
        r == unit_of(u@),
{
    if let Some(n) = weight_unit(u) {
        return Some((Quantity::Weight, n));
    }
    if let Some(n) = distance_unit(u) {
        return Some((Quantity::Distance, n));
    }
    if let Some(n) = time_unit(u) {
        return Some((Quantity::Time, n));
    }
    if let Some(n) = pressure_unit(u) {
        return Some((Quantity::Pressure, n));
    }
    if let Some(n) = force_unit(u) {
        return Some((Quantity::Force, n));
    }
    if let Some(n) = energy_unit(u) {
        return Some((Quantity::Energy, n));
    }
    if let Some(n) = power_unit(u) {
        return Some((Quantity::Power, n));
    }
    if let Some(n) = volume_unit(u) {
        return Some((Quantity::Volume, n));
    }
    None
}

/// A scale of temperature.
#[derive(Debug, Clone, Copy, PartialEq, Eq, Structural)]
pub enum Scale {
    Celsius,
    Fahrenheit,
    Kelvin,
}

/// The scale of temperature that a unit names.
pub open spec fn scale_of(u: Seq<char>) -> Option<Scale> {
    if u == "C"@ || u == "cel"@ {
        Some(Scale::Celsius)
    } else if u == "F"@ || u == "fah"@ {
        Some(Scale::Fahrenheit)
    } else if u == "K"@ || u == "kel"@ {
        Some(Scale::Kelvin)
    } else {
        None
    }
}

fn scale(u: &str) -> (r: Option<Scale>)
    ensures
        r == scale_of(u@),
{
    if same_text(u, "C") || same_text(u, "cel") {
        Some(Scale::Celsius)
    } else if same_text(u, "F") || same_text(u, "fah") {
        Some(Scale::Fahrenheit)
    } else if same_text(u, "K") || same_text(u, "kel") {
        Some(Scale::Kelvin)
    } else {
        None
    }
}

/// What turning a measure from one unit into another takes; `#N/A` where the two do not measure
/// the same.
pub open spec fn converted(v: Num, from: Seq<char>, to: Seq<char>) -> Said {
    match (scale_of(from), scale_of(to)) {
        (Some(a), Some(b)) => work(Kernel::Temperature(a, b), seq![v]),
        (None, None) => match (unit_of(from), unit_of(to)) {
            (Some((qa, fa)), Some((qb, fb))) => if qa == qb {
                work(Kernel::Scaled, seq![v, fa, fb])
            } else {
                failed(FormulaError::Na)
            },
            _ => failed(FormulaError::Na),
        },
        _ => failed(FormulaError::Na),
    }
}

/// What turning a measure from one unit into another takes.
pub fn convert(v: Num, from: &str, to: &str) -> (r: Reply)
    ensures
        r@ == converted(v, from@, to@),
{
    let a: Option<Scale> = scale(from);
    let b: Option<Scale> = scale(to);
    let mut ns: Vec<Num> = Vec::new();
    ns.push(v);
    match (a, b) {
        (Some(x), Some(y)) => {
            assert(ns@ =~= seq![v]);
            Reply::compute(Kernel::Temperature(x, y), ns)
        },
        (None, None) => match (unit_factor(from), unit_factor(to)) {
            (Some((qa, fa)), Some((qb, fb))) => if qa == qb {
                ns.push(fa);
                ns.push(fb);
                assert(ns@ =~= seq![v, fa, fb]);
                Reply::compute(Kernel::Scaled, ns)
            } else {
                Reply::error(FormulaError::Na)
            },
            _ => Reply::error(FormulaError::Na),
        },
        _ => Reply::error(FormulaError::Na),
    }
}

/// `CONVERT`.
pub open spec fn convert_of(args: Seq<Given>) -> Said {
    match num(nth(args, 0)) {
        Err(e) => failed(e),
        Ok(v) => match txt(nth(args, 1)) {
            Err(e) => failed(e),
            Ok(from) => match txt(nth(args, 2)) {
                Err(e) => failed(e),
                Ok(to) => converted(v, trimmed(from), trimmed(to)),
            },
        },
    }
}

/// `CONVERT`.
pub fn convert_fn(args: &Vec<Arg>) -> (r: Reply)
    ensures
        r@ == convert_of(given(args@)),
{
    let v: Num = match number_at(args, 0) {
        Ok(n) => n,
        Err(e) => {
            return Reply::error(e);
        },
    };
    let from: String = match text_at(args, 1) {
        Ok(t) => trim_text(t.as_str()),
        Err(e) => {
            return Reply::error(e);
        },
    };
    match text_at(args, 2) {
        Err(e) => Reply::error(e),
        Ok(t) => {
            let to: String = trim_text(t.as_str());
            convert(v, from.as_str(), to.as_str())
        },
    }
}

/// The parts of a complex number's text: the numerals of its real and its imaginary part, and
/// the letter behind the latter. A real part that is not there is 0; an imaginary one of a sign
/// alone, or of nothing, is 1 with that sign.
#[derive(Debug)]
pub struct ComplexText {
    pub re: String,
    pub im: String,
    /// Whether the text has an imaginary part.
    pub has_imaginary: bool,
    pub letter: char,
}

/// Whether a text ends in the letter of an imaginary part.
pub open spec fn ends_imaginary(t: Seq<char>) -> bool {
    t.len() > 0 && (t.last() == 'i' || t.last() == 'j' || t.last() == 'I' || t.last() == 'J')
}

/// The last sign in front of `n`, but not at the start, that does not belong to an exponent; 0
/// where there is none.
pub open spec fn last_sign(s: Seq<char>, n: int) -> int
    decreases n,
{
    if n <= 1 {
        0
    } else if (s[n - 1] == '+' || s[n - 1] == '-') && s[n - 2] != 'e' && s[n - 2] != 'E' {
        n - 1
    } else {
        last_sign(s, n - 1)
    }
}

/// What the parts of a complex number's text are.
pub open spec fn is_split(c: ComplexText, text: Seq<char>) -> bool {
    let t = trimmed(text);
    if !ends_imaginary(t) {
        c.re@ == t && c.im@.len() == 0 && !c.has_imaginary && c.letter == 'i'
    } else {
        let body = t.drop_last();
        let k = last_sign(body, body.len() as int);
        &&& c.re@ == body.take(k)
        &&& c.im@ == body.skip(k)
        &&& c.has_imaginary
        &&& c.letter == (if t.last() == 'j' || t.last() == 'J' {
            'j'
        } else {
            'i'
        })
    }
}

/// The parts of a complex number's text; nothing for an empty one.
pub fn split_complex(text: &str) -> (r: Option<ComplexText>)
    ensures
        match r {
            Some(c) => trimmed(text@).len() > 0 && is_split(c, text@),
            None => trimmed(text@).len() == 0,
        },
{
    let t: String = trim_text(text);
    let chars: Vec<char> = chars_of(t.as_str());
    let n: usize = chars.len();
    if n == 0 {
        return None;
    }
    let last: char = chars[n - 1];
    assert(t@.last() == last);
    if last != 'i' && last != 'j' && last != 'I' && last != 'J' {
        return Some(
            ComplexText { re: t, im: String::new(), has_imaginary: false, letter: 'i' },
        );
    }
    let ghost body = t@.drop_last();
    let mut k: usize = n - 1;
    while k > 1 && !((chars[k - 1] == '+' || chars[k - 1] == '-') && chars[k - 2] != 'e' && chars[k
        - 2] != 'E')
        invariant
            k <= n - 1,
            n == chars.len(),
            n > 0,
            chars@ == t@,
            body == t@.drop_last(),
            last_sign(body, n - 1) == last_sign(body, k as int),
        decreases k,
    {
        assert(body[k - 1] == chars@[k - 1] && body[k - 2] == chars@[k - 2]);
        k = k - 1;
    }
    let at: usize = if k > 1 {
        k - 1
    } else {
        0
    };
    proof {
        if k > 1 {
            assert(body[k - 1] == chars@[k - 1] && body[k - 2] == chars@[k - 2]);
        }
    }
    let re: String = slice_string(&chars, 0, at);
    let im: String = slice_string(&chars, at, n - 1);
    assert(re@ =~= body.take(at as int));
    assert(im@ =~= body.skip(at as int));
    Some(
        ComplexText {
            re,
            im,
            has_imaginary: true,
            letter: if last == 'j' || last == 'J' {
                'j'
            } else {
                'i'
            },
        },
    )
}

/// The number 1.
pub open spec fn unit() -> Num {
    Num { bits: 0x3ff0_0000_0000_0000 }
}

/// The number -1.
pub open spec fn minus_unit() -> Num {
    Num { bits: 0xbff0_0000_0000_0000 }
}

/// A complex number's text, where `re_text` and `im_text` show its parts: a part that is zero is
/// left out, and so is a 1 in front of the letter.
pub open spec fn complex_shown(
    re: Num,
    im: Num,
    re_text: Seq<char>,
    im_text: Seq<char>,
    letter: char,
) -> Seq<char> {
    if equal(im, zero()) {
        re_text
    } else if equal(re, zero()) {
        if equal(im, unit()) {
            seq![letter]
        } else if equal(im, minus_unit()) {
            "-"@ + seq![letter]
        } else {
            im_text + seq![letter]
        }
    } else if equal(im, unit()) {
        re_text + "+"@ + seq![letter]
    } else if equal(im, minus_unit()) {
        re_text + "-"@ + seq![letter]
    } else if zero().lt(im) {
        re_text + "+"@ + im_text + seq![letter]
    } else {
        re_text + im_text + seq![letter]
    }
}

/// A complex number's text, made from how its parts are shown.
pub fn fmt_cx(re: Num, im: Num, re_text: &str, im_text: &str, letter: char) -> (r: String)
    ensures
        r@ == complex_shown(re, im, re_text@, im_text@, letter),
{
    let nil: Num = Num { bits: 0 };
    let one: Num = Num { bits: 0x3ff0_0000_0000_0000 };
    let minus: Num = Num { bits: 0xbff0_0000_0000_0000 };
    if same_number(im, nil) {
        return re_text.to_string();
    }
    let mut out: String = String::new();
    let alone: bool = same_number(re, nil);
    if !alone {
        out.append(re_text);
    }
    if same_number(im, one) {
        if !alone {
            out.append("+");
        }
    } else if same_number(im, minus) {
        out.append("-");
    } else {
        if !alone && nil.less(im) {
            out.append("+");
        }
        out.append(im_text);
    }
    out.push(letter);
    assert(out@ =~= complex_shown(re, im, re_text@, im_text@, letter));
    out
}

} // verus!
