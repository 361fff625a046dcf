//! Values of formulas: their errors, their coercions, and the order between them.
use crate::sorting::{text_le, text_le_total, text_le_trans, text_not_after};
use crate::text::{same_text, trim_text, trimmed, upper};
use vstd::prelude::*;

verus! {

/// An error value.
#[derive(Debug, Clone, Copy, PartialEq, Eq, Structural)]
pub enum FormulaError {
    Div0,
    Value,
    Ref,
    Name,
    Num,
    Na,
    Spill,
    /// A circular reference.
    Circ,
}

/// How an error is shown.
pub open spec fn error_text(e: FormulaError) -> Seq<char> {
    match e {
        FormulaError::Div0 => "#DIV/0!"@,
        FormulaError::Value => "#VALUE!"@,
        FormulaError::Ref => "#REF!"@,
        FormulaError::Name => "#NAME?"@,
        FormulaError::Num => "#NUM!"@,
        FormulaError::Na => "#N/A"@,
        FormulaError::Spill => "#SPILL!"@,
        FormulaError::Circ => "#CIRC!"@,
    }
}

/// The error that a text shows, if it shows one.
pub open spec fn error_of(s: Seq<char>) -> Option<FormulaError> {
    if s == "#DIV/0!"@ {
        Some(FormulaError::Div0)
    } else if s == "#VALUE!"@ {
        Some(FormulaError::Value)
    } else if s == "#REF!"@ {
        Some(FormulaError::Ref)
    } else if s == "#NAME?"@ {
        Some(FormulaError::Name)
    } else if s == "#NUM!"@ {
        Some(FormulaError::Num)
    } else if s == "#N/A"@ {
        Some(FormulaError::Na)
    } else if s == "#SPILL!"@ {
        Some(FormulaError::Spill)
    } else if s == "#CIRC!"@ {
        Some(FormulaError::Circ)
    } else {
        None
    }
}

impl FormulaError {
    /// How the error is shown.
    pub fn as_str(&self) -> (r: &'static str)
        ensures
            r@ == error_text(*self),
    {
        match self {
            FormulaError::Div0 => "#DIV/0!",
            FormulaError::Value => "#VALUE!",
            FormulaError::Ref => "#REF!",
            FormulaError::Name => "#NAME?",
            FormulaError::Num => "#NUM!",
            FormulaError::Na => "#N/A",
            FormulaError::Spill => "#SPILL!",
            FormulaError::Circ => "#CIRC!",
        }
    }

    /// The error that a text shows, if it shows one.
    pub fn from_str(s: &str) -> (r: Option<FormulaError>)
        ensures
            r == error_of(s@),
    {
        if same_text(s, "#DIV/0!") {
            Some(FormulaError::Div0)
        } else if same_text(s, "#VALUE!") {
            Some(FormulaError::Value)
        } else if same_text(s, "#REF!") {
            Some(FormulaError::Ref)
        } else if same_text(s, "#NAME?") {
            Some(FormulaError::Name)
        } else if same_text(s, "#NUM!") {
            Some(FormulaError::Num)
        } else if same_text(s, "#N/A") {
            Some(FormulaError::Na)
        } else if same_text(s, "#SPILL!") {
            Some(FormulaError::Spill)
        } else if same_text(s, "#CIRC!") {
            Some(FormulaError::Circ)
        } else {
            None
        }
    }
}

/// An error is read back from the text that shows it, and no other text shows it.
pub proof fn error_text_round_trip(e: FormulaError, s: Seq<char>)
    ensures
        error_of(error_text(e)) == Some(e),
        error_of(s) == Some(e) ==> s == error_text(e),
{
    reveal_strlit("#DIV/0!");
    reveal_strlit("#VALUE!");
    reveal_strlit("#REF!");
    reveal_strlit("#NAME?");
    reveal_strlit("#NUM!");
    reveal_strlit("#N/A");
    reveal_strlit("#SPILL!");
    reveal_strlit("#CIRC!");
    assert("#DIV/0!"@[1] == 'D' && "#VALUE!"@[1] == 'V' && "#REF!"@[1] == 'R');
    assert("#NAME?"@[2] == 'A' && "#NUM!"@[2] == 'U' && "#N/A"@[2] == '/');
    assert("#SPILL!"@[1] == 'S' && "#CIRC!"@[1] == 'C');
    assert("#NAME?"@[1] == 'N' && "#NUM!"@[1] == 'N' && "#N/A"@[1] == 'N');
}

/// A number, by the 64 bits of its IEEE 754 double.
#[derive(Debug, Clone, Copy, PartialEq, Eq, Structural)]
pub struct Num {
    pub bits: u64,
}

/// The sign bit.
pub const SIGN: u64 = 0x8000_0000_0000_0000;

/// The bits of positive infinity.
pub const INFINITE: u64 = 0x7ff0_0000_0000_0000;

impl Num {
    /// The bits without the sign.
    pub open spec fn magnitude(self) -> int {
        if self.bits >= SIGN {
            self.bits - SIGN
        } else {
            self.bits as int
        }
    }

    /// An integer that orders numbers as their values do; both zeros have 0.
    pub open spec fn rank(self) -> int {
        if self.bits >= SIGN {
            -self.magnitude()
        } else {
            self.magnitude()
        }
    }

    pub open spec fn nan(self) -> bool {
        self.magnitude() > INFINITE
    }

    pub open spec fn finite(self) -> bool {
        self.magnitude() < INFINITE
    }

    /// Whether the value is smaller; never so where one of the two is not a number.
    pub open spec fn lt(self, other: Num) -> bool {
        !self.nan() && !other.nan() && self.rank() < other.rank()
    }

    pub fn is_finite(self) -> (r: bool)
        ensures
            r == self.finite(),
    {
        if self.bits >= SIGN {
            self.bits - SIGN < INFINITE
        } else {
            self.bits < INFINITE
        }
    }

    pub fn is_nan(self) -> (r: bool)
        ensures
            r == self.nan(),
    {
        if self.bits >= SIGN {
            self.bits - SIGN > INFINITE
        } else {
            self.bits > INFINITE
        }
    }

    pub fn is_zero(self) -> (r: bool)
        ensures
            r == (self.rank() == 0),
    {
        self.bits == 0 || self.bits == SIGN
    }

    /// Whether the value is smaller.
    pub fn less(self, other: Num) -> (r: bool)
        ensures
            r == self.lt(other),
    {
        if self.is_nan() || other.is_nan() {
            return false;
        }
        if self.bits >= SIGN {
            if other.bits >= SIGN {
                self.bits > other.bits
            } else {
                !(self.bits == SIGN && other.bits == 0)
            }
        } else {
            other.bits < SIGN && self.bits < other.bits
        }
    }
}

/// The number 0.
pub open spec fn zero() -> Num {
    Num { bits: 0 }
}

/// The number 1.
pub open spec fn one() -> Num {
    Num { bits: 0x3ff0_0000_0000_0000 }
}

/// A formula's value.
#[derive(Debug, Clone, PartialEq)]
pub enum FormulaValue {
    Number(Num),
    Text(String),
    Bool(bool),
    Error(FormulaError),
    Blank,
}

/// A formula's value as a mathematical value.
pub enum FValue {
    Number(Num),
    Text(Seq<char>),
    Bool(bool),
    Error(FormulaError),
    Blank,
}

impl View for FormulaValue {
    type V = FValue;

    open spec fn view(&self) -> FValue {
        match self {
            FormulaValue::Number(n) => FValue::Number(*n),
            FormulaValue::Text(s) => FValue::Text(s@),
            FormulaValue::Bool(b) => FValue::Bool(*b),
            FormulaValue::Error(e) => FValue::Error(*e),
            FormulaValue::Blank => FValue::Blank,
        }
    }
}

impl FormulaValue {
    pub fn is_error(&self) -> (r: bool)
        ensures
            r == self@ is Error,
    {
        match self {
            FormulaValue::Error(_) => true,
            _ => false,
        }
    }

    pub fn as_error(&self) -> (r: Option<FormulaError>)
        ensures
            r == (match self@ {
                FValue::Error(e) => Some(e),
                _ => None,
            }),
    {
        match self {
            FormulaValue::Error(e) => Some(*e),
            _ => None,
        }
    }

    /// Whether the value is blank: no value, or the empty text.
    pub fn is_blank(&self) -> (r: bool)
        ensures
            r == blank(self@),
    {
        match self {
            FormulaValue::Blank => true,
            FormulaValue::Text(s) => s.as_str().is_empty(),
            _ => false,
        }
    }

    /// The same value again.
    pub fn copied(&self) -> (r: FormulaValue)
        ensures
            r@ == self@,
    {
        match self {
            FormulaValue::Number(n) => FormulaValue::Number(*n),
            FormulaValue::Text(s) => FormulaValue::Text(s.clone()),
            FormulaValue::Bool(b) => FormulaValue::Bool(*b),
            FormulaValue::Error(e) => FormulaValue::Error(*e),
            FormulaValue::Blank => FormulaValue::Blank,
        }
    }
}

/// Whether a value is blank: no value, or the empty text.
pub open spec fn blank(v: FValue) -> bool {
    match v {
        FValue::Blank => true,
        FValue::Text(s) => s.len() == 0,
        _ => false,
    }
}

/// A value as a number, where `parsed` is what its trimmed text reads as.
pub open spec fn number_of(v: FValue, parsed: Option<Num>) -> Result<Num, FormulaError> {
    match v {
        FValue::Error(e) => Err(e),
        FValue::Blank => Ok(zero()),
        FValue::Number(n) => if n.finite() {
            Ok(n)
        } else {
            Err(FormulaError::Num)
        },
        FValue::Bool(b) => Ok(
            if b {
                one()
            } else {
                zero()
            },
        ),
        FValue::Text(s) => if trimmed(s).len() == 0 {
            Ok(zero())
        } else {
            match parsed {
                Some(n) => if n.finite() {
                    Ok(n)
                } else {
                    Err(FormulaError::Value)
                },
                None => Err(FormulaError::Value),
            }
        },
    }
}

/// A value as a number. `parsed` is the number that the value's trimmed text reads as, if it is
/// a text and reads as one. An error stays one, blank counts as 0, a truth value as 0 or 1.
pub fn to_number(v: &FormulaValue, parsed: Option<Num>) -> (r: Result<Num, FormulaError>)
    ensures
        r == number_of(v@, parsed),
{
    match v {
        FormulaValue::Error(e) => Err(*e),
        FormulaValue::Blank => Ok(Num { bits: 0 }),
        FormulaValue::Number(n) => if n.is_finite() {
            Ok(*n)
        } else {
            Err(FormulaError::Num)
        },
        FormulaValue::Bool(b) => if *b {
            Ok(Num { bits: 0x3ff0_0000_0000_0000 })
        } else {
            Ok(Num { bits: 0 })
        },
        FormulaValue::Text(s) => {
            let t: String = trim_text(s.as_str());
            if t.as_str().is_empty() {
                return Ok(Num { bits: 0 });
            }
            match parsed {
                Some(n) => if n.is_finite() {
                    Ok(n)
                } else {
                    Err(FormulaError::Value)
                },
                None => Err(FormulaError::Value),
            }
        },
    }
}

/// A value as text, where `shown` is how its number is shown.
pub open spec fn text_of(v: FValue, shown: Seq<char>) -> Result<Seq<char>, FormulaError> {
    match v {
        FValue::Error(e) => Err(e),
        FValue::Blank => Ok(Seq::empty()),
        FValue::Bool(b) => Ok(
            if b {
                "TRUE"@
            } else {
                "FALSE"@
            },
        ),
        FValue::Number(_) => Ok(shown),
        FValue::Text(s) => Ok(s),
    }
}

/// A value as text. `shown` is how the value's number is shown, if it is a number.
pub fn to_text(v: &FormulaValue, shown: &str) -> (r: Result<String, FormulaError>)
    ensures
        match text_of(v@, shown@) {
            Ok(t) => r matches Ok(s) && s@ == t,
            Err(e) => r == Err::<String, _>(e),
        },
{
    match v {
        FormulaValue::Error(e) => Err(*e),
        FormulaValue::Blank => Ok(String::new()),
        FormulaValue::Bool(b) => if *b {
            Ok("TRUE".to_string())
        } else {
            Ok("FALSE".to_string())
        },
        FormulaValue::Number(_) => Ok(shown.to_string()),
        FormulaValue::Text(s) => Ok(s.clone()),
    }
}

/// A value as a truth value, where `parsed` is what its trimmed text reads as.
pub open spec fn truth_of(v: FValue, parsed: Option<Num>) -> Result<bool, FormulaError> {
    match v {
        FValue::Error(e) => Err(e),
        FValue::Blank => Ok(false),
        FValue::Bool(b) => Ok(b),
        FValue::Number(n) => Ok(n.rank() != 0),
        FValue::Text(s) => {
            let t = trimmed(s);
            if t.len() == 0 {
                Ok(false)
            } else if upper(t) == "TRUE"@ {
                Ok(true)
            } else if upper(t) == "FALSE"@ {
                Ok(false)
            } else {
                match parsed {
                    Some(n) => if n.finite() {
                        Ok(n.rank() != 0)
                    } else {
                        Err(FormulaError::Value)
                    },
                    None => Err(FormulaError::Value),
                }
            }
        },
    }
}

/// A value as a truth value. `parsed` is the number that the value's trimmed text reads as, if
/// it is a text and reads as one.
pub fn to_boolean(v: &FormulaValue, parsed: Option<Num>) -> (r: Result<bool, FormulaError>)
    ensures
        r == truth_of(v@, parsed),
{
    match v {
        FormulaValue::Error(e) => Err(*e),
        FormulaValue::Blank => Ok(false),
        FormulaValue::Bool(b) => Ok(*b),
        FormulaValue::Number(n) => Ok(!n.is_zero()),
        FormulaValue::Text(s) => {
            let t: String = trim_text(s.as_str());
            if t.as_str().is_empty() {
                return Ok(false);
            }
            let up: String = t.as_str().to_uppercase();
            if same_text(up.as_str(), "TRUE") {
                return Ok(true);
            }
            if same_text(up.as_str(), "FALSE") {
                return Ok(false);
            }
            match parsed {
                Some(n) => if n.is_finite() {
                    Ok(!n.is_zero())
                } else {
                    Err(FormulaError::Value)
                },
                None => Err(FormulaError::Value),
            }
        },
    }
}

/// The place of a value's kind in the order: numbers and blanks, texts, truth values, errors.
pub open spec fn kind_rank(v: FValue) -> int {
    match v {
        FValue::Blank => 0,
        FValue::Number(_) => 0,
        FValue::Text(s) => if s.len() == 0 {
            0
        } else {
            1
        },
        FValue::Bool(_) => 2,
        FValue::Error(_) => 3,
    }
}

/// The number by which a value of the first kind is ordered; blanks count as 0.
pub open spec fn order_number(v: FValue) -> Num {
    match v {
        FValue::Number(n) => n,
        _ => zero(),
    }
}

/// The text by which a text is ordered: its upper case.
pub open spec fn order_text(v: FValue) -> Seq<char> {
    match v {
        FValue::Text(s) => upper(s),
        _ => upper(Seq::empty()),
    }
}

/// The order of two values: negative, zero or positive.
pub open spec fn order_of(a: FValue, b: FValue) -> int {
    if kind_rank(a) != kind_rank(b) {
        if kind_rank(a) < kind_rank(b) {
            -1
        } else {
            1
        }
    } else if kind_rank(a) == 0 {
        if order_number(a).lt(order_number(b)) {
            -1
        } else if order_number(b).lt(order_number(a)) {
            1
        } else {
            0
        }
    } else if kind_rank(a) == 1 {
        if order_text(a) == order_text(b) {
            0
        } else if text_le(order_text(a), order_text(b)) {
            -1
        } else {
            1
        }
    } else {
        (if a == FValue::Bool(true) {
            1int
        } else {
            0
        }) - (if b == FValue::Bool(true) {
            1int
        } else {
            0
        })
    }
}

/// What a comparison operator gives for an order.
pub open spec fn holds(op: Seq<char>, order: int) -> Option<bool> {
    if op == "="@ {
        Some(order == 0)
    } else if op == "<>"@ {
        Some(order != 0)
    } else if op == "<"@ {
        Some(order < 0)
    } else if op == ">"@ {
        Some(order > 0)
    } else if op == "<="@ {
        Some(order <= 0)
    } else if op == ">="@ {
        Some(order >= 0)
    } else {
        None
    }
}

/// What comparing two values gives. The first error of the two comes out.
pub open spec fn compared(a: FValue, b: FValue, op: Seq<char>) -> Result<bool, FormulaError> {
    match (a, b) {
        (FValue::Error(e), _) => Err(e),
        (_, FValue::Error(e)) => Err(e),
        _ => match holds(op, order_of(a, b)) {
            Some(r) => Ok(r),
            None => Err(FormulaError::Value),
        },
    }
}

fn type_rank(v: &FormulaValue) -> (r: u8)
    ensures
        r == kind_rank(v@),
{
    match v {
        FormulaValue::Blank => 0,
        FormulaValue::Number(_) => 0,
        FormulaValue::Text(s) => if s.as_str().is_empty() {
            0
        } else {
            1
        },
        FormulaValue::Bool(_) => 2,
        FormulaValue::Error(_) => 3,
    }
}

fn numeric_of(v: &FormulaValue) -> (r: Num)
    ensures
        r == order_number(v@),
{
    match v {
        FormulaValue::Number(n) => *n,
        _ => Num { bits: 0 },
    }
}

fn upper_text_of(v: &FormulaValue) -> (r: String)
    ensures
        r@ == order_text(v@),
{
    match v {
        FormulaValue::Text(s) => s.as_str().to_uppercase(),
        _ => {
            let none: String = String::new();
            none.as_str().to_uppercase()
        },
    }
}

/// The order of two values: negative, zero or positive.
pub fn raw_order(a: &FormulaValue, b: &FormulaValue) -> (r: i32)
    ensures
        r == order_of(a@, b@),
{
    let ra: u8 = type_rank(a);
    let rb: u8 = type_rank(b);
    if ra != rb {
        return if ra < rb {
            -1
        } else {
            1
        };
    }
    if ra == 0 {
        let na: Num = numeric_of(a);
        let nb: Num = numeric_of(b);
        if na.less(nb) {
            -1
        } else if nb.less(na) {
            1
        } else {
            0
        }
    } else if ra == 1 {
        let sa: String = upper_text_of(a);
        let sb: String = upper_text_of(b);
        if same_text(sa.as_str(), sb.as_str()) {
            0
        } else if text_not_after(sa.as_str(), sb.as_str()) {
            -1
        } else {
            1
        }
    } else {
        let ba: i32 = match a {
            FormulaValue::Bool(true) => 1,
            _ => 0,
        };
        let bb: i32 = match b {
            FormulaValue::Bool(true) => 1,
            _ => 0,
        };
        ba - bb
    }
}

/// Compares two values by an operator: numbers by value, texts without regard to case, a number
/// before a text before a truth value.
pub fn compare_values(a: &FormulaValue, b: &FormulaValue, op: &str) -> (r: Result<
    bool,
    FormulaError,
>)
    ensures
        r == compared(a@, b@, op@),
{
    if let FormulaValue::Error(e) = a {
        return Err(*e);
    }
    if let FormulaValue::Error(e) = b {
        return Err(*e);
    }
    let order: i32 = raw_order(a, b);
    if same_text(op, "=") {
        Ok(order == 0)
    } else if same_text(op, "<>") {
        Ok(order != 0)
    } else if same_text(op, "<") {
        Ok(order < 0)
    } else if same_text(op, ">") {
        Ok(order > 0)
    } else if same_text(op, "<=") {
        Ok(order <= 0)
    } else if same_text(op, ">=") {
        Ok(order >= 0)
    } else {
        Err(FormulaError::Value)
    }
}

/// Swapping two values turns their order round, and equal values have order 0.
pub proof fn order_antisymmetric(a: FValue, b: FValue)
    ensures
        order_of(a, b) == -order_of(b, a),
        order_of(a, a) == 0,
{
    if kind_rank(a) == 1 && kind_rank(b) == 1 {
        text_le_total(order_text(a), order_text(b));
        if text_le(order_text(a), order_text(b)) && text_le(order_text(b), order_text(a)) {
            crate::sorting::text_le_antisym(order_text(a), order_text(b));
        }
    }
}

/// The order of values without NaN is transitive.
pub proof fn order_transitive(a: FValue, b: FValue, c: FValue)
    requires
        order_of(a, b) <= 0,
        order_of(b, c) <= 0,
        !order_number(a).nan(),
        !order_number(b).nan(),
        !order_number(c).nan(),
    ensures
        order_of(a, c) <= 0,
{
    if kind_rank(a) == 1 && kind_rank(b) == 1 && kind_rank(c) == 1 {
        let (x, y, z) = (order_text(a), order_text(b), order_text(c));
        text_le_total(x, y);
        text_le_total(y, z);
        if x == y || y == z {
        } else {
            text_le_trans(x, y, z);
        }
    }
}

/// The comparison operators agree with each other on values that are not errors.
pub proof fn comparisons_agree(a: FValue, b: FValue)
    requires
        !(a is Error),
        !(b is Error),
    ensures
        compared(a, b, "="@) is Ok,
        compared(a, b, "<>"@) == Ok::<bool, FormulaError>(!compared(a, b, "="@)->Ok_0),
        compared(a, b, "<="@) == Ok::<bool, FormulaError>(!compared(a, b, ">"@)->Ok_0),
        compared(a, b, ">="@) == Ok::<bool, FormulaError>(!compared(a, b, "<"@)->Ok_0),
        compared(a, b, "<"@) == compared(b, a, ">"@),
        compared(a, b, "="@) == compared(b, a, "="@),
{
    order_antisymmetric(a, b);
    reveal_strlit("=");
    reveal_strlit("<>");
    reveal_strlit("<");
    reveal_strlit(">");
    reveal_strlit("<=");
    reveal_strlit(">=");
    assert("="@.len() == 1 && "<"@.len() == 1 && ">"@.len() == 1 && "<="@.len() == 2 && ">="@.len()
        == 2);
    assert("="@[0] == '=' && "<>"@.len() == 2 && "<"@[0] == '<' && ">"@[0] == '>');
    assert("<="@[1] == '=' && ">="@[1] == '=' && "<>"@[1] == '>' && "<="@[0] == '<' && ">="@[0] == '>');
}

} // verus!
