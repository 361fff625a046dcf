//! Report values: numbers that were fetched beforehand and are looked up by the cell in which a
//! fetch function stands.
use crate::address::{addr, push_addr};
use crate::text::{chars_of, find_char, position_of, slice_string, upper};
use crate::value::{zero, FValue, FormulaValue, Num};
use vstd::hash_map::StringHashMap;
use vstd::prelude::*;

verus! {

/// The name of a function that looks its cell up among the report values.
pub fn is_report_fetch(name: &str) -> (r: bool)
    ensures
        r == (name@ == "QM"@ || name@ == "QC"@ || name@ == "JE"@ || name@ == "FS"@ || name@ == "REF"@),
{
    crate::text::same_text(name, "QM") || crate::text::same_text(name, "QC")
        || crate::text::same_text(name, "JE") || crate::text::same_text(name, "FS")
        || crate::text::same_text(name, "REF")
}

/// The key of a report value: `sheet!CELL`, the cell in capitals. A bare cell is one of the
/// active sheet.
pub open spec fn report_key(k: Seq<char>, active_sheet: Seq<char>) -> Seq<char> {
    match find_char(k, '!', 0) {
        Some(b) => k.take(b) + "!"@ + upper(k.skip(b + 1)),
        None => active_sheet + "!"@ + upper(k),
    }
}

/// The report values of a list, later ones in the place of earlier ones of the same key.
pub open spec fn report_values(raw: Seq<(String, FormulaValue)>, active_sheet: Seq<char>) -> Map<
    Seq<char>,
    FValue,
>
    decreases raw.len(),
{
    if raw.len() == 0 {
        Map::empty()
    } else {
        report_values(raw.drop_last(), active_sheet).insert(
            report_key(raw.last().0@, active_sheet),
            raw.last().1@,
        )
    }
}

/// The number that a report value counts as: texts by the number `parsed` that they read as,
/// anything else that is no finite number as 0.
pub open spec fn report_number(v: Option<FValue>, parsed: Option<Num>) -> Num {
    match v {
        Some(FValue::Number(n)) => if n.finite() {
            n
        } else {
            zero()
        },
        Some(FValue::Text(_)) => match parsed {
            Some(n) => if n.finite() {
                n
            } else {
                zero()
            },
            None => zero(),
        },
        _ => zero(),
    }
}

/// Report values by the cells they are for.
pub struct ReportValueMap {
    map: StringHashMap<FormulaValue>,
}

impl View for ReportValueMap {
    type V = Map<Seq<char>, FValue>;

    closed spec fn view(&self) -> Map<Seq<char>, FValue> {
        self.map@.map_values(|v: FormulaValue| v@)
    }
}

fn report_key_of(k: &str, active_sheet: &str) -> (r: String)
    ensures
        r@ == report_key(k@, active_sheet@),
{
    let chars: Vec<char> = chars_of(k);
    match position_of(&chars, '!', 0) {
        Some(b) => {
            let mut out: String = slice_string(&chars, 0, b);
            out.append("!");
            out.append(slice_string(&chars, b + 1, chars.len()).as_str().to_uppercase().as_str());
            out
        },
        None => {
            let mut out: String = active_sheet.to_string();
            out.append("!");
            out.append(k.to_uppercase().as_str());
            out
        },
    }
}

impl ReportValueMap {
    /// No values.
    pub fn new() -> (r: ReportValueMap)
        ensures
            r@ == Map::<Seq<char>, FValue>::empty(),
    {
        let r: ReportValueMap = ReportValueMap { map: StringHashMap::new() };
        assert(r@ =~= Map::<Seq<char>, FValue>::empty());
        r
    }

    /// Takes new values in the place of the old ones.
    pub fn set(&mut self, raw: &Vec<(String, FormulaValue)>, active_sheet: &str)
        ensures
            final(self)@ == report_values(raw@, active_sheet@),
    {
        let mut map: StringHashMap<FormulaValue> = StringHashMap::new();
        let mut i: usize = 0;
        assert(map@.map_values(|v: FormulaValue| v@) =~= report_values(raw@.take(0), active_sheet@));
        while i < raw.len()
            invariant
                i <= raw.len(),
                map@.map_values(|v: FormulaValue| v@) == report_values(
                    raw@.take(i as int),
                    active_sheet@,
                ),
            decreases raw.len() - i,
        {
            let ghost before = map@;
            let item: &(String, FormulaValue) = &raw[i];
            let key: String = report_key_of(item.0.as_str(), active_sheet);
            let value: FormulaValue = item.1.copied();
            let ghost (kv, vv) = (key@, value);
            map.insert(key, value);
            proof {
                assert(raw@.take(i + 1).drop_last() =~= raw@.take(i as int));
                assert(raw@.take(i + 1).last() == raw@[i as int]);
                assert(map@.map_values(|v: FormulaValue| v@) =~= before.map_values(
                    |v: FormulaValue| v@,
                ).insert(kv, vv@));
            }
            i = i + 1;
        }
        assert(raw@.take(i as int) =~= raw@);
        self.map = map;
    }

    /// The value for a cell.
    pub fn find(&self, sheet_name: &str, row: u32, col: u32) -> (r: Option<&FormulaValue>)
        ensures
            match r {
                Some(v) => self@.contains_key(sheet_name@ + "!"@ + addr(row as nat, col as nat))
                    && self@[sheet_name@ + "!"@ + addr(row as nat, col as nat)] == v@,
                None => !self@.contains_key(sheet_name@ + "!"@ + addr(row as nat, col as nat)),
            },
    {
        let mut key: String = sheet_name.to_string();
        key.append("!");
        push_addr(&mut key, row, col);
        self.map.get(key.as_str())
    }

    /// The number for a cell. `parsed` is the number that the value's trimmed text reads as, if
    /// it is a text and reads as one.
    pub fn get_number(&self, sheet_name: &str, row: u32, col: u32, parsed: Option<Num>) -> (r: Num)
        ensures
            r == ({
                let key = sheet_name@ + "!"@ + addr(row as nat, col as nat);
                report_number(
                    if self@.contains_key(key) {
                        Some(self@[key])
                    } else {
                        None
                    },
                    parsed,
                )
            }),
    {
        match self.find(sheet_name, row, col) {
            Some(FormulaValue::Number(n)) => if n.is_finite() {
                *n
            } else {
                Num { bits: 0 }
            },
            Some(FormulaValue::Text(_)) => match parsed {
                Some(n) => if n.is_finite() {
                    n
                } else {
                    Num { bits: 0 }
                },
                None => Num { bits: 0 },
            },
            _ => Num { bits: 0 },
        }
    }

    /// Drops all values.
    pub fn clear(&mut self)
        ensures
            final(self)@ == Map::<Seq<char>, FValue>::empty(),
    {
        self.map.clear();
        assert(self@ =~= Map::<Seq<char>, FValue>::empty());
    }
}

} // verus!
