//! Values as stored after conversion, and the conversions from raw tokens.

use vstd::prelude::*;

verus! {

/// A value as the contracts see it.
pub enum ValueModel {
    Text(Seq<char>),
    Integer(i32),
    Flag(bool),
}

/// A value stored under an argument's name.
#[derive(Debug, PartialEq, Eq)]
pub enum Value {
    Text(String),
    Integer(i32),
    Flag(bool),
}

impl View for Value {
    type V = ValueModel;

    open spec fn view(&self) -> ValueModel {
        match self {
            Value::Text(s) => ValueModel::Text(s@),
            Value::Integer(i) => ValueModel::Integer(*i),
            Value::Flag(b) => ValueModel::Flag(*b),
        }
    }
}

/// How a raw token becomes a value.
#[derive(Debug, Clone, Copy, PartialEq, Eq, Structural)]
pub enum Conversion {
    /// The token itself, as text.
    Text,
    /// The token read as a decimal `i32`.
    Integer,
}

pub open spec fn is_digit(c: char) -> bool {
    '0' <= c && c <= '9'
}

pub open spec fn is_digits(s: Seq<char>) -> bool {
    s.len() > 0 && forall|i: int| 0 <= i < s.len() ==> is_digit(#[trigger] s[i])
}

pub open spec fn digits_value(s: Seq<char>) -> int
    decreases s.len(),
{
    if s.len() == 0 {
        0
    } else {
        10 * digits_value(s.drop_last()) + (s.last() as int - '0' as int)
    }
}

/// The integer that `s` writes in decimal: an optional `+` or `-`, then one or more digits.
pub open spec fn decimal_int(s: Seq<char>) -> Option<int> {
    if s.len() > 0 && s[0] == '-' && is_digits(s.drop_first()) {
        Some(-digits_value(s.drop_first()))
    } else if s.len() > 0 && s[0] == '+' && is_digits(s.drop_first()) {
        Some(digits_value(s.drop_first()))
    } else if is_digits(s) {
        Some(digits_value(s))
    } else {
        None
    }
}

/// The `i32` that `s` writes in decimal, if it is one and fits.
pub open spec fn decimal_i32(s: Seq<char>) -> Option<i32> {
    match decimal_int(s) {
        Some(v) => if i32::MIN <= v <= i32::MAX {
            Some(v as i32)
        } else {
            None
        },
        None => None,
    }
}

/// Relies on `str::parse::<i32>` (`FromStr for i32`): it accepts an optional sign
/// followed by ASCII decimal digits whose value fits, and fails on anything else.
#[verifier::external_body]
fn parse_i32(s: &str) -> (r: Option<i32>)
    ensures
        r == decimal_i32(s@),
{
    s.parse::<i32>().ok()
}

/// The value that `conversion` makes of the raw token `raw`, if it can.
pub open spec fn converted(conversion: Conversion, raw: Seq<char>) -> Option<ValueModel> {
    match conversion {
        Conversion::Text => Some(ValueModel::Text(raw)),
        Conversion::Integer => match decimal_i32(raw) {
            Some(v) => Some(ValueModel::Integer(v)),
            None => None,
        },
    }
}

/// The message given when the token `raw` meant for argument `name` cannot be converted.
pub open spec fn conversion_error(name: Seq<char>, raw: Seq<char>) -> Seq<char> {
    "cannot convert "@ + raw + " for "@ + name
}

impl Conversion {
    /// Converts the raw token, or gives `None` where the token does not fit the conversion.
    pub fn convert(&self, raw: &String) -> (r: Option<Value>)
        ensures
            match r {
                Some(v) => converted(*self, raw@) == Some(v@),
                None => converted(*self, raw@) is None,
            },
    {
        match self {
            Conversion::Text => Some(Value::Text(raw.clone())),
            Conversion::Integer => match parse_i32(raw.as_str()) {
                Some(v) => Some(Value::Integer(v)),
                None => None,
            },
        }
    }
}

/// Builds the message of `conversion_error`.
pub fn conversion_error_text(name: &String, raw: &String) -> (r: String)
    ensures
        r@ == conversion_error(name@, raw@),
{
    let mut msg = "cannot convert ".to_owned();
    msg.append(raw.as_str());
    msg.append(" for ");
    msg.append(name.as_str());
    msg
}

} // verus!
