//! Cell addresses: column labels `A`, `B`, … `AA`, and addresses such as `B3`.
//! Rows and columns count from 0, the numerals in addresses from 1.
use crate::decimal::{all_digits, dec, dec_round_trip, dec_value, push_dec, read_unsigned};
use crate::text::chars_of;
use crate::token::{spec_is_digit, spec_is_letter};
use vstd::prelude::*;

verus! {

/// A cell's row and column.
#[derive(Debug, Clone, Copy, PartialEq, Eq, Structural)]
pub struct CellCoord {
    pub row: u32,
    pub col: u32,
}

/// The capital letter for a value under 26.
pub open spec fn capital(d: int) -> char {
    ('A' as int + d) as char
}

/// The label of a column.
pub open spec fn label(col: nat) -> Seq<char>
    decreases col,
{
    if col < 26 {
        seq![capital(col as int)]
    } else {
        label((col / 26 - 1) as nat).push(capital((col % 26) as int))
    }
}

/// The value of a letter, `A` and `a` being 1.
pub open spec fn letter_value(c: char) -> int {
    if c >= 'a' {
        c as int - 'a' as int + 1
    } else {
        c as int - 'A' as int + 1
    }
}

/// The number that a row of letters stands for, `A` being 1 and `AA` 27.
pub open spec fn label_value(s: Seq<char>) -> int
    decreases s.len(),
{
    if s.len() == 0 {
        0
    } else {
        label_value(s.drop_last()) * 26 + letter_value(s.last())
    }
}

pub open spec fn all_letters(s: Seq<char>) -> bool {
    forall|i: int| 0 <= i < s.len() ==> spec_is_letter(#[trigger] s[i])
}

/// The column that a label names, in capitals or not.
pub open spec fn spec_label_to_col(s: Seq<char>) -> Option<int> {
    if s.len() > 0 && all_letters(s) && label_value(s) - 1 <= u32::MAX {
        Some(label_value(s) - 1)
    } else {
        None
    }
}

/// Where the letters at the start of a text end.
pub open spec fn letters_end(s: Seq<char>) -> int
    decreases s.len(),
{
    if s.len() > 0 && spec_is_letter(s[0]) {
        1 + letters_end(s.skip(1))
    } else {
        0
    }
}

/// The cell that an address names: letters, then the row's numeral, which is not 0.
pub open spec fn spec_parse_addr(s: Seq<char>) -> Option<(int, int)> {
    let k = letters_end(s);
    let digits = s.skip(k);
    match spec_label_to_col(s.take(k)) {
        Some(col) => if digits.len() > 0 && all_digits(digits) && 0 < dec_value(digits) <= u32::MAX {
            Some((dec_value(digits) - 1, col))
        } else {
            None
        },
        None => None,
    }
}

/// The address of a cell.
pub open spec fn addr(row: nat, col: nat) -> Seq<char> {
    label(col) + dec(row + 1)
}

pub(crate) proof fn label_value_nonneg(s: Seq<char>)
    requires
        all_letters(s),
    ensures
        label_value(s) >= s.len(),
    decreases s.len(),
{
    if s.len() > 0 {
        assert(spec_is_letter(s[s.len() - 1]));
        assert(all_letters(s.drop_last())) by {
            assert forall|i: int| 0 <= i < s.drop_last().len() implies spec_is_letter(
                #[trigger] s.drop_last()[i],
            ) by {
                assert(spec_is_letter(s[i]));
            }
        }
        label_value_nonneg(s.drop_last());
    }
}

/// A column's label names that column.
pub proof fn label_round_trip(col: nat)
    ensures
        label(col).len() > 0,
        all_letters(label(col)),
        label_value(label(col)) == col + 1,
    decreases col,
{
    reveal_with_fuel(label_value, 2);
    if col >= 26 {
        label_round_trip((col / 26 - 1) as nat);
        assert(label(col).drop_last() == label((col / 26 - 1) as nat));
    } else {
        assert(label(col).drop_last() == Seq::<char>::empty());
    }
}

pub proof fn letters_end_split(a: Seq<char>, b: Seq<char>)
    requires
        all_letters(a),
        b.len() > 0,
        !spec_is_letter(b[0]),
    ensures
        letters_end(a + b) == a.len(),
    decreases a.len(),
{
    if a.len() > 0 {
        assert(spec_is_letter(a[0]));
        assert((a + b).skip(1) == a.skip(1) + b);
        assert forall|i: int| 0 <= i < a.skip(1).len() implies spec_is_letter(
            #[trigger] a.skip(1)[i],
        ) by {
            assert(spec_is_letter(a[i + 1]));
        }
        letters_end_split(a.skip(1), b);
    }
}

/// A cell's address names that cell.
pub proof fn addr_round_trip(row: nat, col: nat)
    requires
        row < u32::MAX,
        col <= u32::MAX,
    ensures
        spec_parse_addr(addr(row, col)) == Some((row as int, col as int)),
{
    label_round_trip(col);
    dec_round_trip(row + 1);
    let s = addr(row, col);
    assert(spec_is_digit(dec(row + 1)[0]));
    letters_end_split(label(col), dec(row + 1));
    assert(s.take(letters_end(s)) == label(col));
    assert(s.skip(letters_end(s)) == dec(row + 1));
}

fn is_letter(c: char) -> (r: bool)
    ensures
        r == spec_is_letter(c),
{
    ('a' <= c && c <= 'z') || ('A' <= c && c <= 'Z')
}

fn capital_char(d: u32) -> (r: char)
    requires
        d < 26,
    ensures
        r == capital(d as int),
{
    let k: u8 = 65 + d as u8;
    k as char
}

/// Appends the label of a column.
pub fn push_label(out: &mut String, col: u32)
    ensures
        final(out)@ == old(out)@ + label(col as nat),
    decreases col,
{
    if col >= 26 {
        push_label(out, col / 26 - 1);
    }
    out.push(capital_char(col % 26));
    assert(out@ == old(out)@ + label(col as nat));
}

/// The label of a column.
pub fn col_to_label(col: u32) -> (r: String)
    ensures
        r@ == label(col as nat),
{
    let mut out: String = String::new();
    push_label(&mut out, col);
    out
}

/// Appends the address of a cell.
pub fn push_addr(out: &mut String, row: u32, col: u32)
    ensures
        final(out)@ == old(out)@ + addr(row as nat, col as nat),
{
    push_label(out, col);
    push_dec(out, row as u128 + 1);
    assert(out@ == old(out)@ + addr(row as nat, col as nat));
}

/// The address of a cell.
pub fn format_addr(row: u32, col: u32) -> (r: String)
    ensures
        r@ == addr(row as nat, col as nat),
{
    let mut out: String = String::new();
    push_addr(&mut out, row, col);
    out
}

proof fn label_value_mono(s: Seq<char>, k: int)
    requires
        0 <= k <= s.len(),
        all_letters(s),
    ensures
        label_value(s.take(k)) <= label_value(s),
    decreases s.len() - k,
{
    if k < s.len() {
        label_value_mono(s, k + 1);
        assert(s.take(k + 1).drop_last() == s.take(k));
        assert(spec_is_letter(s[k]));
        assert(all_letters(s.take(k)));
        label_value_nonneg(s.take(k));
    } else {
        assert(s.take(k) == s);
    }
}

/// Reads the label `s[..end]`.
fn read_label(s: &Vec<char>, end: usize) -> (r: Option<u32>)
    requires
        end <= s.len(),
        all_letters(s@.take(end as int)),
    ensures
        match spec_label_to_col(s@.take(end as int)) {
            Some(c) => r == Some(c as u32) && 0 <= c <= u32::MAX,
            None => r is None,
        },
{
    if end == 0 {
        return None;
    }
    let ghost t = s@.take(end as int);
    let mut n: u64 = 0;
    let mut i: usize = 0;
    while i < end
        invariant
            i <= end <= s.len(),
            t == s@.take(end as int),
            all_letters(t),
            n == label_value(t.take(i as int)),
            n <= 0x1_0000_0000,
            i > 0 ==> n > 0,
        decreases end - i,
    {
        let c = s[i];
        assert(t[i as int] == c);
        let d: u64 = if c >= 'a' {
            c as u64 - 'a' as u64 + 1
        } else {
            c as u64 - 'A' as u64 + 1
        };
        proof {
            assert(t.take(i + 1).drop_last() == t.take(i as int));
            label_value_mono(t, i + 1);
        }
        n = n * 26 + d;
        if n > 0x1_0000_0000 {
            return None;
        }
        i = i + 1;
    }
    assert(t.take(i as int) == t);
    Some((n - 1) as u32)
}

fn letters_end_of(s: &Vec<char>) -> (r: usize)
    ensures
        r == letters_end(s@),
        r <= s.len(),
        all_letters(s@.take(r as int)),
{
    let mut i: usize = 0;
    assert(s@.skip(0) == s@);
    while i < s.len() && is_letter(s[i])
        invariant
            i <= s.len(),
            letters_end(s@) == i + letters_end(s@.skip(i as int)),
            forall|k: int| 0 <= k < i ==> spec_is_letter(#[trigger] s@[k]),
        decreases s.len() - i,
    {
        assert(s@.skip(i as int).skip(1) == s@.skip(i + 1));
        i = i + 1;
    }
    i
}

/// The column that a label names.
pub fn label_to_col(s: &str) -> (r: Option<u32>)
    ensures
        match spec_label_to_col(s@) {
            Some(c) => r == Some(c as u32) && 0 <= c <= u32::MAX,
            None => r is None,
        },
{
    let chars: Vec<char> = chars_of(s);
    let end: usize = letters_end_of(&chars);
    if end < chars.len() {
        proof {
            letters_stop(s@);
        }
        return None;
    }
    assert(s@.take(end as int) == s@);
    read_label(&chars, end)
}

proof fn letters_stop(s: Seq<char>)
    ensures
        0 <= letters_end(s) <= s.len(),
        letters_end(s) < s.len() ==> !spec_is_letter(s[letters_end(s)]),
    decreases s.len(),
{
    if s.len() > 0 && spec_is_letter(s[0]) {
        letters_stop(s.skip(1));
    }
}

/// The cell that an address names.
pub fn parse_addr(s: &str) -> (r: Option<CellCoord>)
    ensures
        match spec_parse_addr(s@) {
            Some((row, col)) => r == Some(CellCoord { row: row as u32, col: col as u32 }) && 0 <= row
                <= u32::MAX && 0 <= col <= u32::MAX,
            None => r is None,
        },
{
    let chars: Vec<char> = chars_of(s);
    let end: usize = letters_end_of(&chars);
    let mut digits: Vec<char> = Vec::new();
    let mut i: usize = end;
    while i < chars.len()
        invariant
            end <= i <= chars.len(),
            digits@ == chars@.subrange(end as int, i as int),
        decreases chars.len() - i,
    {
        digits.push(chars[i]);
        i = i + 1;
    }
    assert(digits@ == s@.skip(end as int));
    let col: u32 = match read_label(&chars, end) {
        Some(c) => c,
        None => {
            return None;
        },
    };
    if digits.len() == 0 || digits[0] == '+' {
        return None;
    }
    match read_unsigned(&digits, 0xffff_ffff) {
        Some(n) => if n > 0 {
            Some(CellCoord { row: (n - 1) as u32, col })
        } else {
            None
        },
        None => None,
    }
}

} // verus!
