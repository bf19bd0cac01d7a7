use vstd::prelude::*;
use vstd::string::*;
use vstd::utf8::encode_utf8;
use crate::errors::{ErrorKind, LocItem, LocSeg, ValError};
use crate::input_json::{coerced, is_error_of, quote, quoted, str_as_bool, text_bool, text_int};
use crate::number::{parse_decimal, parse_decimal_text, Decimal, DecimalView};
use crate::temporal::{
    date_text, datetime_text, duration_text, parse_date, parse_datetime, parse_duration, parse_time,
    time_text, Date, DateTime, Duration, Time,
};
use crate::text::{parse_i64, parse_int};

verus! {

/// A mapping key that is validated as a value of its own: a bare text.
pub struct StringInput {
    pub value: String,
}

/// The decimal a key is read as, in lax mode.
pub open spec fn text_float(s: Seq<char>) -> Result<DecimalView, ErrorKind> {
    match parse_decimal_text(s) {
        Some(d) => Ok(d),
        None => Err(ErrorKind::FloatParsing),
    }
}

/// A value read from a key's text, or the parsing error where the text does not hold one.
pub open spec fn text_as<T>(v: Option<T>, kind: ErrorKind) -> Result<T, ErrorKind> {
    match v {
        Some(x) => Ok(x),
        None => Err(kind),
    }
}

/// What a key gives as a boolean: strict mode wants a native boolean, which a key is not.
pub open spec fn key_bool(s: Seq<char>, strict: bool) -> Result<bool, ErrorKind> {
    if strict { Err(ErrorKind::BoolType) } else { text_bool(s) }
}

/// What a key gives as an integer: strict mode wants a native integer, which a key is not.
pub open spec fn key_int(s: Seq<char>, strict: bool) -> Result<i64, ErrorKind> {
    if strict { Err(ErrorKind::IntType) } else { text_int(s) }
}

/// What a key gives as a number: strict mode wants a native number, which a key is not.
pub open spec fn key_float(s: Seq<char>, strict: bool) -> Result<DecimalView, ErrorKind> {
    if strict { Err(ErrorKind::FloatType) } else { text_float(s) }
}

/// For every key text, numeric or not, strict mode refuses it as a boolean, an integer
/// or a number with the type kind; lax mode fails only with the parsing kind, and reads an
/// integer exactly where the text is a base-10 `i64`.
pub proof fn lemma_key_strict_refuses(s: Seq<char>)
    ensures
        key_bool(s, true) == Err::<bool, ErrorKind>(ErrorKind::BoolType),
        key_int(s, true) == Err::<i64, ErrorKind>(ErrorKind::IntType),
        key_float(s, true) == Err::<DecimalView, ErrorKind>(ErrorKind::FloatType),
        key_bool(s, false) is Err ==> key_bool(s, false) == Err::<bool, ErrorKind>(ErrorKind::BoolParsing),
        key_int(s, false) is Err ==> key_int(s, false) == Err::<i64, ErrorKind>(ErrorKind::IntParsing),
        key_float(s, false) is Err ==> key_float(s, false) == Err::<DecimalView, ErrorKind>(
            ErrorKind::FloatParsing,
        ),
        forall|n: i64| key_int(s, false) == Ok::<i64, ErrorKind>(n) <==> parse_int(s) == Some(n),
{
}

impl StringInput {
    pub fn new(value: String) -> (r: StringInput)
        ensures
            r.value@ == value@,
    {
        StringInput { value }
    }

    pub fn as_loc_item(&self) -> (r: LocItem)
        ensures
            r@ == LocSeg::Key(self.value@),
    {
        LocItem::S(self.value.clone())
    }

    pub fn as_error_value(&self) -> (r: String)
        ensures
            r@ == quoted(self.value@),
    {
        quote(self.value.as_str())
    }

    fn error(&self, kind: ErrorKind) -> (r: ValError)
        ensures
            is_error_of(r, kind, quoted(self.value@)),
    {
        ValError::new(kind, self.as_error_value())
    }

    /// A key is never the null value.
    pub fn is_none(&self) -> (r: bool)
        ensures
            !r,
    {
        false
    }

    /// The key itself, in either mode.
    pub fn validate_str(&self, _strict: bool) -> (r: Result<String, ValError>)
        ensures
            r matches Ok(s) && s@ == self.value@,
    {
        Ok(self.value.clone())
    }

    pub fn validate_bytes(&self, _strict: bool) -> (r: Result<Vec<u8>, ValError>)
        ensures
            r matches Ok(b) && b@ == encode_utf8(self.value@),
    {
        Ok(self.value.as_str().as_bytes_vec())
    }

    /// Strict mode wants a native boolean, which a key is not; lax mode reads a token.
    pub fn validate_bool(&self, strict: bool) -> (r: Result<bool, ValError>)
        ensures
            coerced(
                r,
                key_bool(self.value@, strict),
                quoted(self.value@),
            ),
    {
        if strict {
            Err(self.error(ErrorKind::BoolType))
        } else {
            match str_as_bool(self.value.as_str()) {
                Some(b) => Ok(b),
                None => Err(self.error(ErrorKind::BoolParsing)),
            }
        }
    }

    /// Strict mode wants a native integer, which a key is not; lax mode parses base 10.
    pub fn validate_int(&self, strict: bool) -> (r: Result<i64, ValError>)
        ensures
            coerced(
                r,
                key_int(self.value@, strict),
                quoted(self.value@),
            ),
    {
        if strict {
            Err(self.error(ErrorKind::IntType))
        } else {
            match parse_i64(self.value.as_str()) {
                Some(i) => Ok(i),
                None => Err(self.error(ErrorKind::IntParsing)),
            }
        }
    }

    /// Strict mode wants a native number, which a key is not; lax mode reads a decimal.
    pub fn validate_float(&self, strict: bool) -> (r: Result<Decimal, ValError>)
        ensures
            coerced(
                r,
                key_float(self.value@, strict),
                quoted(self.value@),
            ),
    {
        if strict {
            Err(self.error(ErrorKind::FloatType))
        } else {
            match parse_decimal(self.value.as_str()) {
                Some(d) => Ok(d),
                None => Err(self.error(ErrorKind::FloatParsing)),
            }
        }
    }

    /// A key is no mapping.
    pub fn validate_dict(&self, _strict: bool) -> (r: Result<(), ValError>)
        ensures
            r matches Err(e) && is_error_of(e, ErrorKind::DictType, quoted(self.value@)),
    {
        Err(self.error(ErrorKind::DictType))
    }

    /// A key is no list.
    pub fn validate_list(&self, _strict: bool) -> (r: Result<(), ValError>)
        ensures
            r matches Err(e) && is_error_of(e, ErrorKind::ListType, quoted(self.value@)),
    {
        Err(self.error(ErrorKind::ListType))
    }

    /// A key is no tuple.
    pub fn validate_tuple(&self, _strict: bool) -> (r: Result<(), ValError>)
        ensures
            r matches Err(e) && is_error_of(e, ErrorKind::TupleType, quoted(self.value@)),
    {
        Err(self.error(ErrorKind::TupleType))
    }

    /// A key is no set.
    pub fn validate_set(&self, _strict: bool) -> (r: Result<(), ValError>)
        ensures
            r matches Err(e) && is_error_of(e, ErrorKind::SetType, quoted(self.value@)),
    {
        Err(self.error(ErrorKind::SetType))
    }

    /// A key is no frozenset.
    pub fn validate_frozenset(&self, _strict: bool) -> (r: Result<(), ValError>)
        ensures
            r matches Err(e) && is_error_of(e, ErrorKind::FrozenSetType, quoted(self.value@)),
    {
        Err(self.error(ErrorKind::FrozenSetType))
    }

    /// A date in the layout `YYYY-MM-DD`, in either mode.
    pub fn validate_date(&self, _strict: bool) -> (r: Result<Date, ValError>)
        ensures
            coerced(r, text_as(date_text(self.value@), ErrorKind::DateParsing), quoted(self.value@)),
    {
        match parse_date(self.value.as_str()) {
            Some(d) => Ok(d),
            None => Err(self.error(ErrorKind::DateParsing)),
        }
    }

    /// A time of day in the layout `HH:MM:SS`, in either mode.
    pub fn validate_time(&self, _strict: bool) -> (r: Result<Time, ValError>)
        ensures
            coerced(r, text_as(time_text(self.value@), ErrorKind::TimeParsing), quoted(self.value@)),
    {
        match parse_time(self.value.as_str()) {
            Some(t) => Ok(t),
            None => Err(self.error(ErrorKind::TimeParsing)),
        }
    }

    /// A date and time in the layout `YYYY-MM-DDTHH:MM:SS`, in either mode.
    pub fn validate_datetime(&self, _strict: bool) -> (r: Result<DateTime, ValError>)
        ensures
            coerced(
                r,
                text_as(datetime_text(self.value@), ErrorKind::DateTimeParsing),
                quoted(self.value@),
            ),
    {
        match parse_datetime(self.value.as_str()) {
            Some(dt) => Ok(dt),
            None => Err(self.error(ErrorKind::DateTimeParsing)),
        }
    }

    /// A length of time in the layout `HH:MM:SS` or `-HH:MM:SS`, in either mode.
    pub fn validate_timedelta(&self, _strict: bool) -> (r: Result<Duration, ValError>)
        ensures
            coerced(
                r,
                text_as(duration_text(self.value@), ErrorKind::TimeDeltaParsing),
                quoted(self.value@),
            ),
    {
        match parse_duration(self.value.as_str()) {
            Some(d) => Ok(d),
            None => Err(self.error(ErrorKind::TimeDeltaParsing)),
        }
    }
}

} // verus!
