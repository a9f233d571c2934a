//! The scalar value: a closed set of kinds, each with its payload.

use crate::binary64::{
    float_eq, float_equal, float_is_zero, is_zero, round_from_i64, round_spec, truncate_spec,
    truncate_to_i64,
};
use crate::decimal::{decimal_text, integer_text};
use vstd::prelude::*;
use vstd::string::*;

verus! {

pub const NULL_NOT_BOOLEAN: &'static str = "Cannot convert Null into a boolean";

pub const ERROR_NOT_BOOLEAN: &'static str = "Value is an error, not a boolean";

pub const NULL_NOT_INTEGER: &'static str = "Cannot convert Null into an integer";

pub const BOOLEAN_NOT_INTEGER: &'static str = "Value is a boolean, not an integer";

pub const PRECISION_LOSS: &'static str =
    "Value is a floating point that cannot be converted to an integer without loss of precision";

pub const STRING_NOT_INTEGER: &'static str = "Value is a string, not an integer";

pub const ERROR_NOT_INTEGER: &'static str = "Value is not an integer";

pub const NULL_NOT_FLOAT: &'static str = "Cannot convert Null into a floating point number";

pub const BOOLEAN_NOT_FLOAT: &'static str = "Value is a boolean, not a floating point number";

pub const STRING_NOT_FLOAT: &'static str = "Value is a string, not a floating point number";

pub const ERROR_NOT_FLOAT: &'static str = "Value is not a floating point number";

pub const ERROR_NOT_TEXT: &'static str = "Value is an error";

/// An atomic value of the language. A `Rational` holds the bit pattern of an
/// IEEE 754 binary64 number.
#[derive(Debug)]
pub enum ShyScalar {
    Null,
    Boolean(bool),
    Integer(i64),
    Rational(u64),
    String(String),
    Error(String),
}

/// The characters of a text result.
pub open spec fn text_view(r: Result<String, &'static str>) -> Result<Seq<char>, &'static str> {
    match r {
        Ok(t) => Ok(t@),
        Err(e) => Err(e),
    }
}

impl ShyScalar {
    /// Same kind and equal payloads; binary64 payloads compare as numbers.
    pub open spec fn equals(&self, other: &ShyScalar) -> bool {
        match self {
            ShyScalar::Null => other is Null,
            ShyScalar::Boolean(a) => other matches ShyScalar::Boolean(b) && a == b,
            ShyScalar::Integer(a) => other matches ShyScalar::Integer(b) && a == b,
            ShyScalar::Rational(a) => other matches ShyScalar::Rational(b) && float_equal(*a, *b),
            ShyScalar::String(a) => other matches ShyScalar::String(b) && a@ == b@,
            ShyScalar::Error(a) => other matches ShyScalar::Error(b) && a@ == b@,
        }
    }

    pub open spec fn same_kind(&self, other: &ShyScalar) -> bool {
        match self {
            ShyScalar::Null => other is Null,
            ShyScalar::Boolean(_) => other is Boolean,
            ShyScalar::Integer(_) => other is Integer,
            ShyScalar::Rational(_) => other is Rational,
            ShyScalar::String(_) => other is String,
            ShyScalar::Error(_) => other is Error,
        }
    }

    /// How the value behaves in a boolean context. Text is judged by
    /// `text_truthy`.
    pub fn is_truthy<F: Fn(&String) -> bool>(&self, text_truthy: F) -> (r: bool)
        requires
            forall|s: &String| text_truthy.requires((s,)),
        ensures
            !(self is String) ==> r == self.truthiness(),
            self matches ShyScalar::String(s) ==> text_truthy.ensures((&s,), r),
    {
        match self {
            ShyScalar::Boolean(value) => *value,
            ShyScalar::Integer(value) => *value != 0,
            ShyScalar::Rational(value) => !float_is_zero(*value),
            ShyScalar::String(value) => text_truthy(value),
            _ => false,
        }
    }

    pub fn is_null(&self) -> (r: bool)
        ensures
            r == (self is Null),
    {
        match self {
            ShyScalar::Null => true,
            _ => false,
        }
    }

    /// What converting to an integer gives. A binary64 number converts when
    /// truncating it to an integer and converting back gives its bits again.
    pub open spec fn integer_spec(&self) -> Result<i64, &'static str> {
        match self {
            ShyScalar::Null => Err(NULL_NOT_INTEGER),
            ShyScalar::Boolean(_) => Err(BOOLEAN_NOT_INTEGER),
            ShyScalar::Integer(i) => Ok(*i),
            ShyScalar::Rational(x) => if round_spec(truncate_spec(*x) as int) == *x {
                Ok(truncate_spec(*x))
            } else {
                Err(PRECISION_LOSS)
            },
            ShyScalar::String(_) => Err(STRING_NOT_INTEGER),
            ShyScalar::Error(_) => Err(ERROR_NOT_INTEGER),
        }
    }

    /// What converting to a binary64 number gives, as its bits.
    pub open spec fn rational_spec(&self) -> Result<u64, &'static str> {
        match self {
            ShyScalar::Null => Err(NULL_NOT_FLOAT),
            ShyScalar::Boolean(_) => Err(BOOLEAN_NOT_FLOAT),
            ShyScalar::Integer(i) => Ok(round_spec(*i as int)),
            ShyScalar::Rational(x) => Ok(*x),
            ShyScalar::String(_) => Err(STRING_NOT_FLOAT),
            ShyScalar::Error(_) => Err(ERROR_NOT_FLOAT),
        }
    }

    /// The truthiness of every kind but text, which an outside predicate
    /// judges.
    pub open spec fn truthiness(&self) -> bool {
        match self {
            ShyScalar::Boolean(b) => *b,
            ShyScalar::Integer(i) => *i != 0,
            ShyScalar::Rational(x) => !is_zero(*x),
            _ => false,
        }
    }

    /// What converting to a boolean gives, for every kind but text.
    pub open spec fn boolean_spec(&self) -> Result<bool, &'static str> {
        match self {
            ShyScalar::Null => Err(NULL_NOT_BOOLEAN),
            ShyScalar::Error(_) => Err(ERROR_NOT_BOOLEAN),
            _ => Ok(self.truthiness()),
        }
    }

    /// What converting to text gives, for every kind but binary64 numbers,
    /// which an outside renderer writes.
    pub open spec fn text_spec(&self) -> Result<Seq<char>, &'static str> {
        match self {
            ShyScalar::Null => Ok("null"@),
            ShyScalar::Boolean(b) => Ok(
                if *b {
                    "true"@
                } else {
                    "false"@
                },
            ),
            ShyScalar::Integer(i) => Ok(decimal_text(*i as int)),
            ShyScalar::String(s) => Ok(s@),
            _ => Err(ERROR_NOT_TEXT),
        }
    }

    /// Converts to a boolean: every kind but `Null` and `Error` converts, to
    /// its truthiness.
    pub fn try_into_boolean<F: Fn(&String) -> bool>(self, text_truthy: F) -> (r: Result<
        bool,
        &'static str,
    >)
        requires
            forall|s: &String| text_truthy.requires((s,)),
        ensures
            !(self is String) ==> r == self.boolean_spec(),
            self matches ShyScalar::String(s) ==> (r matches Ok(t) && text_truthy.ensures((&s,), t)),
    {
        match self {
            ShyScalar::Null => Err(NULL_NOT_BOOLEAN),
            ShyScalar::Error(_) => Err(ERROR_NOT_BOOLEAN),
            _ => Ok(self.is_truthy(text_truthy)),
        }
    }

    /// Converts to an integer. Booleans and text do not convert; a binary64
    /// number converts only where no precision is lost.
    pub fn try_into_integer(self) -> (r: Result<i64, &'static str>)
        ensures
            r == self.integer_spec(),
    {
        match self {
            ShyScalar::Null => Err(NULL_NOT_INTEGER),
            ShyScalar::Boolean(_) => Err(BOOLEAN_NOT_INTEGER),
            ShyScalar::Integer(i) => Ok(i),
            ShyScalar::Rational(x) => {
                let i = truncate_to_i64(x);
                let back = round_from_i64(i);
                if back == x {
                    Ok(i)
                } else {
                    Err(PRECISION_LOSS)
                }
            },
            ShyScalar::String(_) => Err(STRING_NOT_INTEGER),
            ShyScalar::Error(_) => Err(ERROR_NOT_INTEGER),
        }
    }

    /// Converts to a binary64 number, given as its bits. Integers round to
    /// the nearest binary64 number.
    pub fn try_into_rational(self) -> (r: Result<u64, &'static str>)
        ensures
            r == self.rational_spec(),
    {
        match self {
            ShyScalar::Null => Err(NULL_NOT_FLOAT),
            ShyScalar::Boolean(_) => Err(BOOLEAN_NOT_FLOAT),
            ShyScalar::Integer(i) => Ok(round_from_i64(i)),
            ShyScalar::Rational(x) => Ok(x),
            ShyScalar::String(_) => Err(STRING_NOT_FLOAT),
            ShyScalar::Error(_) => Err(ERROR_NOT_FLOAT),
        }
    }

    /// Converts to text. Every kind but `Error` converts; a binary64 number
    /// is rendered by `rational_text`.
    pub fn try_into_text<F: FnOnce(u64) -> String>(self, rational_text: F) -> (r: Result<
        String,
        &'static str,
    >)
        requires
            forall|x: u64| rational_text.requires((x,)),
        ensures
            !(self is Rational) ==> text_view(r) == self.text_spec(),
            self matches ShyScalar::Rational(x) ==> (r matches Ok(t) && rational_text.ensures((x,), t)),
    {
        match self {
            ShyScalar::Null => {
                proof {
                    reveal_strlit("null");
                }
                Ok(String::from_str("null"))
            },
            ShyScalar::Boolean(true) => {
                proof {
                    reveal_strlit("true");
                }
                Ok(String::from_str("true"))
            },
            ShyScalar::Boolean(false) => {
                proof {
                    reveal_strlit("false");
                }
                Ok(String::from_str("false"))
            },
            ShyScalar::Integer(i) => Ok(integer_text(i)),
            ShyScalar::Rational(x) => Ok(rational_text(x)),
            ShyScalar::String(s) => Ok(s),
            ShyScalar::Error(_) => Err(ERROR_NOT_TEXT),
        }
    }
}

impl PartialEq for ShyScalar {
    fn eq(&self, other: &ShyScalar) -> (r: bool) {
        match self {
            ShyScalar::Null => match other {
                ShyScalar::Null => true,
                _ => false,
            },
            ShyScalar::Boolean(a) => match other {
                ShyScalar::Boolean(b) => *a == *b,
                _ => false,
            },
            ShyScalar::Integer(a) => match other {
                ShyScalar::Integer(b) => *a == *b,
                _ => false,
            },
            ShyScalar::Rational(a) => match other {
                ShyScalar::Rational(b) => float_eq(*a, *b),
                _ => false,
            },
            ShyScalar::String(a) => match other {
                ShyScalar::String(b) => a.eq(b),
                _ => false,
            },
            ShyScalar::Error(a) => match other {
                ShyScalar::Error(b) => a.eq(b),
                _ => false,
            },
        }
    }
}

impl vstd::std_specs::cmp::PartialEqSpecImpl for ShyScalar {
    open spec fn obeys_eq_spec() -> bool {
        true
    }

    open spec fn eq_spec(&self, other: &ShyScalar) -> bool {
        self.equals(other)
    }
}

impl Clone for ShyScalar {
    fn clone(&self) -> (r: ShyScalar)
        ensures
            match self {
                ShyScalar::String(s) => r matches ShyScalar::String(t) && t@ == s@,
                ShyScalar::Error(s) => r matches ShyScalar::Error(t) && t@ == s@,
                _ => r == *self,
            },
    {
        match self {
            ShyScalar::Null => ShyScalar::Null,
            ShyScalar::Boolean(b) => ShyScalar::Boolean(*b),
            ShyScalar::Integer(i) => ShyScalar::Integer(*i),
            ShyScalar::Rational(x) => ShyScalar::Rational(*x),
            ShyScalar::String(s) => ShyScalar::String(s.clone()),
            ShyScalar::Error(s) => ShyScalar::Error(s.clone()),
        }
    }
}

impl From<bool> for ShyScalar {
    fn from(b: bool) -> (r: ShyScalar) {
        ShyScalar::Boolean(b)
    }
}

impl vstd::std_specs::convert::FromSpecImpl<bool> for ShyScalar {
    open spec fn obeys_from_spec() -> bool {
        true
    }

    open spec fn from_spec(b: bool) -> ShyScalar {
        ShyScalar::Boolean(b)
    }
}

impl From<i64> for ShyScalar {
    fn from(i: i64) -> (r: ShyScalar) {
        ShyScalar::Integer(i)
    }
}

impl vstd::std_specs::convert::FromSpecImpl<i64> for ShyScalar {
    open spec fn obeys_from_spec() -> bool {
        true
    }

    open spec fn from_spec(i: i64) -> ShyScalar {
        ShyScalar::Integer(i)
    }
}

impl From<i32> for ShyScalar {
    fn from(i: i32) -> (r: ShyScalar) {
        ShyScalar::Integer(i as i64)
    }
}

impl vstd::std_specs::convert::FromSpecImpl<i32> for ShyScalar {
    open spec fn obeys_from_spec() -> bool {
        true
    }

    open spec fn from_spec(i: i32) -> ShyScalar {
        ShyScalar::Integer(i as i64)
    }
}

impl From<String> for ShyScalar {
    fn from(s: String) -> (r: ShyScalar) {
        ShyScalar::String(s)
    }
}

impl vstd::std_specs::convert::FromSpecImpl<String> for ShyScalar {
    open spec fn obeys_from_spec() -> bool {
        true
    }

    open spec fn from_spec(s: String) -> ShyScalar {
        ShyScalar::String(s)
    }
}

impl<'a> From<&'a str> for ShyScalar {
    fn from(s: &'a str) -> (r: ShyScalar)
        ensures
            r matches ShyScalar::String(t) && t@ == s@,
    {
        ShyScalar::String(String::from_str(s))
    }
}

impl<'a> vstd::std_specs::convert::FromSpecImpl<&'a str> for ShyScalar {
    /// A `String` is not determined by its characters in this logic, so no
    /// single value is named here; the `ensures` of `from` above states that
    /// the result is `String` holding the slice's characters.
    open spec fn obeys_from_spec() -> bool {
        false
    }

    open spec fn from_spec(s: &'a str) -> ShyScalar {
        ShyScalar::Null
    }
}

} // verus!
