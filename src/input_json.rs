use vstd::prelude::*;
use vstd::string::*;
use vstd::utf8::encode_utf8;
use crate::errors::{line_errors_view, ErrorKind, LineErrorView, LocItem, LocSeg, ValError};
use crate::number::{lemma_canonical_int_fits, decimal_micros, int_decimal, decimal_int, decimal_text, parse_decimal, parse_decimal_text, Decimal, DecimalView};
use crate::temporal::{
    date_text, date_valid, datetime_from_micros, datetime_text, duration_from_micros, duration_text,
    epoch_micros, lemma_epoch_unique, micros_duration, micros_in_range, micros_time, parse_date,
    parse_datetime, parse_duration, parse_time, time_from_micros, time_text, time_valid, Date,
    DateTime, Duration, Time,
};
use crate::text::{
    int_text, lower_equals, lowered_is, parse_i64, parse_int, push_int,
};

verus! {

/// A value of a parsed document tree.
pub enum JsonValue {
    Null,
    Bool(bool),
    Int(i64),
    Float(Decimal),
    Str(String),
    Array(Vec<JsonValue>),
    Object(Vec<(String, JsonValue)>),
}

/// Whether `e` is one line error of kind `kind` at the root, for the input shown as `input`.
pub open spec fn is_error_of(e: ValError, kind: ErrorKind, input: Seq<char>) -> bool {
    e matches ValError::LineErrors(v) && line_errors_view(v@) == seq![
        LineErrorView { kind, location: Seq::<LocSeg>::empty(), input_value: input },
    ]
}

/// Whether an outcome `r` is the one that `s` describes, for the input shown as `input`.
pub open spec fn coerced<T: View>(
    r: Result<T, ValError>,
    s: Result<T::V, ErrorKind>,
    input: Seq<char>,
) -> bool {
    match s {
        Ok(x) => r matches Ok(y) && y@ == x,
        Err(k) => r matches Err(e) && is_error_of(e, k, input),
    }
}

/// How a text input is shown in an error.
pub open spec fn quoted(s: Seq<char>) -> Seq<char> {
    "'"@ + s + "'"@
}

/// How a document value is shown in an error.
pub open spec fn json_repr(v: JsonValue) -> Seq<char>
    decreases v,
{
    match v {
        JsonValue::Null => "None"@,
        JsonValue::Bool(b) => if b { "True"@ } else { "False"@ },
        JsonValue::Int(i) => int_text(i as int),
        JsonValue::Float(d) => decimal_text(d@),
        JsonValue::Str(s) => quoted(s@),
        JsonValue::Array(a) => "["@ + items_repr(a@) + "]"@,
        JsonValue::Object(o) => "{"@ + entries_repr(o@) + "}"@,
    }
}

/// How the items of an array are shown: each shown, separated by commas.
pub open spec fn items_repr(s: Seq<JsonValue>) -> Seq<char>
    decreases s,
{
    if s.len() == 0 {
        Seq::empty()
    } else if s.len() == 1 {
        json_repr(s[0])
    } else {
        items_repr(s.subrange(0, s.len() - 1)) + ", "@ + json_repr(s[s.len() - 1])
    }
}

/// How the entries of an object are shown: each key quoted, a colon and the value,
/// separated by commas.
pub open spec fn entries_repr(s: Seq<(String, JsonValue)>) -> Seq<char>
    decreases s,
{
    if s.len() == 0 {
        Seq::empty()
    } else if s.len() == 1 {
        quoted(s[0].0@) + ": "@ + json_repr(s[0].1)
    } else {
        entries_repr(s.subrange(0, s.len() - 1)) + ", "@ + quoted(s[s.len() - 1].0@) + ": "@
            + json_repr(s[s.len() - 1].1)
    }
}

/// The boolean that a text token stands for, ASCII case ignored.
pub open spec fn bool_token(s: Seq<char>) -> Option<bool> {
    if lowered_is(s, "0"@) || lowered_is(s, "off"@) || lowered_is(s, "f"@) || lowered_is(
        s,
        "false"@,
    ) || lowered_is(s, "n"@) || lowered_is(s, "no"@) {
        Some(false)
    } else if lowered_is(s, "1"@) || lowered_is(s, "on"@) || lowered_is(s, "t"@) || lowered_is(
        s,
        "true"@,
    ) || lowered_is(s, "y"@) || lowered_is(s, "yes"@) {
        Some(true)
    } else {
        None
    }
}

/// The boolean that a number stands for: only 0 and 1 do; any other number is no boolean.
pub open spec fn int_bool(i: int) -> Result<bool, ErrorKind> {
    if i == 0 {
        Ok(false)
    } else if i == 1 {
        Ok(true)
    } else {
        Err(ErrorKind::BoolType)
    }
}

/// The boolean a text is read as, in lax mode.
pub open spec fn text_bool(s: Seq<char>) -> Result<bool, ErrorKind> {
    match bool_token(s) {
        Some(b) => Ok(b),
        None => Err(ErrorKind::BoolParsing),
    }
}

/// The integer a text is read as, in lax mode.
pub open spec fn text_int(s: Seq<char>) -> Result<i64, ErrorKind> {
    match parse_int(s) {
        Some(i) => Ok(i),
        None => Err(ErrorKind::IntParsing),
    }
}

pub open spec fn json_str(v: JsonValue, strict: bool) -> Result<Seq<char>, ErrorKind> {
    match v {
        JsonValue::Str(s) => Ok(s@),
        JsonValue::Int(i) if !strict => Ok(int_text(i as int)),
        JsonValue::Float(d) if !strict => Ok(decimal_text(d@)),
        _ => Err(ErrorKind::StrType),
    }
}

pub open spec fn json_bytes(v: JsonValue) -> Result<Seq<u8>, ErrorKind> {
    match v {
        JsonValue::Str(s) => Ok(encode_utf8(s@)),
        _ => Err(ErrorKind::BytesType),
    }
}

pub open spec fn json_bool(v: JsonValue, strict: bool) -> Result<bool, ErrorKind> {
    match v {
        JsonValue::Bool(b) => Ok(b),
        JsonValue::Str(s) if !strict => text_bool(s@),
        JsonValue::Int(i) if !strict => int_bool(i as int),
        JsonValue::Float(d) if !strict => match decimal_int(d@) {
            Some(i) => int_bool(i),
            None => Err(ErrorKind::BoolType),
        },
        _ => Err(ErrorKind::BoolType),
    }
}

pub open spec fn json_int(v: JsonValue, strict: bool) -> Result<i64, ErrorKind> {
    match v {
        JsonValue::Int(i) => Ok(i),
        JsonValue::Bool(b) if !strict => Ok(if b { 1i64 } else { 0i64 }),
        JsonValue::Float(d) if !strict => match decimal_int(d@) {
            Some(i) => Ok(i as i64),
            None => Err(ErrorKind::IntFromFloat),
        },
        JsonValue::Str(s) if !strict => text_int(s@),
        _ => Err(ErrorKind::IntType),
    }
}

pub open spec fn json_float(v: JsonValue, strict: bool) -> Result<DecimalView, ErrorKind> {
    match v {
        JsonValue::Float(d) => Ok(d@),
        JsonValue::Int(i) => Ok(int_decimal(i as int)),
        JsonValue::Bool(b) if !strict => Ok(int_decimal(if b { 1 } else { 0 })),
        JsonValue::Str(s) if !strict => match parse_decimal_text(s@) {
            Some(d) => Ok(d),
            None => Err(ErrorKind::FloatParsing),
        },
        _ => Err(ErrorKind::FloatType),
    }
}

pub open spec fn json_date(v: JsonValue) -> Result<Date, ErrorKind> {
    match v {
        JsonValue::Str(s) => match date_text(s@) {
            Some(d) => Ok(d),
            None => Err(ErrorKind::DateParsing),
        },
        _ => Err(ErrorKind::DateType),
    }
}

/// A number read as microseconds: an integer counts whole seconds, a decimal is rounded
/// down to the microsecond; `None` for a value that is no number.
pub open spec fn number_micros(v: JsonValue) -> Option<int> {
    match v {
        JsonValue::Int(i) => Some(i * 1_000_000),
        JsonValue::Float(d) => Some(decimal_micros(d@)),
        _ => None,
    }
}

/// The time of day `t` microseconds after midnight, or a range error.
pub open spec fn micros_time_result(t: int) -> Result<Time, ErrorKind> {
    match micros_time(t) {
        Some(x) => Ok(x),
        None => Err(ErrorKind::TimestampRange),
    }
}

pub open spec fn json_time(v: JsonValue, strict: bool) -> Result<Time, ErrorKind> {
    match v {
        JsonValue::Str(s) => match time_text(s@) {
            Some(t) => Ok(t),
            None => Err(ErrorKind::TimeParsing),
        },
        _ => if !strict && number_micros(v) is Some {
            micros_time_result(number_micros(v)->0)
        } else {
            Err(ErrorKind::TimeType)
        },
    }
}

/// The valid date and time `t` microseconds after 1970-01-01T00:00:00, of which there is
/// exactly one where `t` lies within years 1 to 9999; a range error otherwise.
pub open spec fn micros_datetime(t: int) -> Result<DateTime, ErrorKind> {
    if micros_in_range(t) {
        Ok(choose|dt: DateTime| date_valid(dt.date) && time_valid(dt.time) && epoch_micros(dt) == t)
    } else {
        Err(ErrorKind::TimestampRange)
    }
}

pub open spec fn json_datetime(v: JsonValue, strict: bool) -> Result<DateTime, ErrorKind> {
    match v {
        JsonValue::Str(s) => match datetime_text(s@) {
            Some(dt) => Ok(dt),
            None => Err(ErrorKind::DateTimeParsing),
        },
        _ => if !strict && number_micros(v) is Some {
            micros_datetime(number_micros(v)->0)
        } else {
            Err(ErrorKind::DateTimeType)
        },
    }
}

/// The length of time of `t` microseconds, or a range error.
pub open spec fn micros_duration_result(t: int) -> Result<Duration, ErrorKind> {
    match micros_duration(t) {
        Some(x) => Ok(x),
        None => Err(ErrorKind::TimestampRange),
    }
}

pub open spec fn json_timedelta(v: JsonValue, strict: bool) -> Result<Duration, ErrorKind> {
    match v {
        JsonValue::Str(s) => match duration_text(s@) {
            Some(d) => Ok(d),
            None => Err(ErrorKind::TimeDeltaParsing),
        },
        _ => if !strict && number_micros(v) is Some {
            micros_duration_result(number_micros(v)->0)
        } else {
            Err(ErrorKind::TimeDeltaType)
        },
    }
}

/// Reads a boolean token.
pub fn str_as_bool(s: &str) -> (r: Option<bool>)
    ensures
        r == bool_token(s@),
{
    if lower_equals(s, "0") || lower_equals(s, "off") || lower_equals(s, "f") || lower_equals(
        s,
        "false",
    ) || lower_equals(s, "n") || lower_equals(s, "no") {
        Some(false)
    } else if lower_equals(s, "1") || lower_equals(s, "on") || lower_equals(s, "t")
        || lower_equals(s, "true") || lower_equals(s, "y") || lower_equals(s, "yes") {
        Some(true)
    } else {
        None
    }
}

/// The text of `s` in quotes.
pub fn quote(s: &str) -> (r: String)
    ensures
        r@ == quoted(s@),
{
    let mut out = String::new();
    out.append("'");
    out.append(s);
    out.append("'");
    out
}

impl JsonValue {
    /// The location segment naming this value: a key for a text, an index for a
    /// non-negative integer, and the shown value otherwise.
    pub fn as_loc_item(&self) -> (r: LocItem)
        ensures
            r@ == match *self {
                JsonValue::Int(i) if 0 <= i <= usize::MAX => LocSeg::Index(i as nat),
                JsonValue::Str(s) => LocSeg::Key(s@),
                _ => LocSeg::Key(json_repr(*self)),
            },
    {
        match self {
            JsonValue::Int(i) => {
                if *i >= 0 && (*i as u64) <= (usize::MAX as u64) {
                    LocItem::I(*i as usize)
                } else {
                    LocItem::S(self.as_error_value())
                }
            },
            JsonValue::Str(s) => LocItem::S(s.clone()),
            _ => LocItem::S(self.as_error_value()),
        }
    }

    /// How this value is shown in an error.
    pub fn as_error_value(&self) -> (r: String)
        ensures
            r@ == json_repr(*self),
    {
        let mut out = String::new();
        self.push_repr(&mut out);
        assert(out@ =~= json_repr(*self));
        out
    }

    /// Appends how this value is shown in an error to `out`.
    pub fn push_repr(&self, out: &mut String)
        ensures
            final(out)@ == old(out)@ + json_repr(*self),
        decreases self,
    {
        match self {
            JsonValue::Array(a) => {
                out.append("[");
                let ghost start = out@;
                let mut i: usize = 0;
                while i < a.len()
                    invariant
                        i <= a@.len(),
                        out@ == start + items_repr(a@.subrange(0, i as int)),
                        *self == JsonValue::Array(*a),
                    decreases a@.len() - i,
                {
                    if i > 0 {
                        out.append(", ");
                    }
                    proof {
                        assert(decreases_to!(*self => a@[i as int])) by {
                            assert(decreases_to!(*self => (*self)->Array_0));
                            assert(decreases_to!(*a => a@));
                            assert(decreases_to!(a@ => a@[i as int]));
                        }
                    }
                    a[i].push_repr(out);
                    proof {
                        let sub = a@.subrange(0, i + 1);
                        assert(sub.subrange(0, i as int) =~= a@.subrange(0, i as int));
                        assert(sub[i as int] == a@[i as int]);
                        if i == 0 {
                            assert(a@.subrange(0, 0) =~= Seq::<JsonValue>::empty());
                        }
                    }
                    i = i + 1;
                }
                assert(a@.subrange(0, a@.len() as int) =~= a@);
                out.append("]");
            },
            JsonValue::Object(o) => {
                out.append("{");
                let ghost start = out@;
                let mut i: usize = 0;
                while i < o.len()
                    invariant
                        i <= o@.len(),
                        out@ == start + entries_repr(o@.subrange(0, i as int)),
                        *self == JsonValue::Object(*o),
                    decreases o@.len() - i,
                {
                    if i > 0 {
                        out.append(", ");
                    }
                    out.append("'");
                    out.append(o[i].0.as_str());
                    out.append("'");
                    out.append(": ");
                    proof {
                        assert(decreases_to!(*self => o@[i as int].1)) by {
                            assert(decreases_to!(*self => (*self)->Object_0));
                            assert(decreases_to!(*o => o@));
                            assert(decreases_to!(o@ => o@[i as int]));
                            assert(decreases_to!(o@[i as int] => o@[i as int].1));
                        }
                    }
                    o[i].1.push_repr(out);
                    proof {
                        let sub = o@.subrange(0, i + 1);
                        assert(sub.subrange(0, i as int) =~= o@.subrange(0, i as int));
                        assert(sub[i as int] == o@[i as int]);
                        if i == 0 {
                            assert(o@.subrange(0, 0) =~= Seq::<(String, JsonValue)>::empty());
                        }
                    }
                    i = i + 1;
                }
                assert(o@.subrange(0, o@.len() as int) =~= o@);
                out.append("}");
            },
            _ => {
                let s = self.scalar_repr();
                out.append(s.as_str());
            },
        }
    }

    fn scalar_repr(&self) -> (r: String)
        requires
            !(*self is Array) && !(*self is Object),
        ensures
            r@ == json_repr(*self),
    {
        match self {
            JsonValue::Null => String::from_str("None"),
            JsonValue::Bool(b) => if *b { String::from_str("True") } else { String::from_str("False") },
            JsonValue::Int(i) => {
                let mut out = String::new();
                push_int(&mut out, *i);
                out
            },
            JsonValue::Float(d) => {
                let mut out = String::new();
                d.push_text(&mut out);
                out
            },
            JsonValue::Str(s) => quote(s.as_str()),
            _ => String::new(),
        }
    }

    fn error(&self, kind: ErrorKind) -> (r: ValError)
        ensures
            is_error_of(r, kind, json_repr(*self)),
    {
        ValError::new(kind, self.as_error_value())
    }

    pub fn is_none(&self) -> (r: bool)
        ensures
            r == (*self is Null),
    {
        matches!(self, JsonValue::Null)
    }

    pub fn validate_str(&self, strict: bool) -> (r: Result<String, ValError>)
        ensures
            coerced(r, json_str(*self, strict), json_repr(*self)),
    {
        if strict {
            self.strict_str()
        } else {
            self.lax_str()
        }
    }

    pub fn strict_str(&self) -> (r: Result<String, ValError>)
        ensures
            coerced(r, json_str(*self, true), json_repr(*self)),
    {
        match self {
            JsonValue::Str(s) => Ok(s.clone()),
            _ => Err(self.error(ErrorKind::StrType)),
        }
    }

    pub fn lax_str(&self) -> (r: Result<String, ValError>)
        ensures
            coerced(r, json_str(*self, false), json_repr(*self)),
    {
        match self {
            JsonValue::Str(s) => Ok(s.clone()),
            JsonValue::Int(_) | JsonValue::Float(_) => Ok(self.as_error_value()),
            _ => Err(self.error(ErrorKind::StrType)),
        }
    }

    pub fn validate_bytes(&self, _strict: bool) -> (r: Result<Vec<u8>, ValError>)
        ensures
            coerced(r, json_bytes(*self), json_repr(*self)),
    {
        match self {
            JsonValue::Str(s) => Ok(s.as_str().as_bytes_vec()),
            _ => Err(self.error(ErrorKind::BytesType)),
        }
    }

    pub fn validate_bool(&self, strict: bool) -> (r: Result<bool, ValError>)
        ensures
            coerced(r, json_bool(*self, strict), json_repr(*self)),
    {
        if strict {
            self.strict_bool()
        } else {
            self.lax_bool()
        }
    }

    pub fn strict_bool(&self) -> (r: Result<bool, ValError>)
        ensures
            coerced(r, json_bool(*self, true), json_repr(*self)),
    {
        match self {
            JsonValue::Bool(b) => Ok(*b),
            _ => Err(self.error(ErrorKind::BoolType)),
        }
    }

    fn int_as_bool(&self, i: i64) -> (r: Result<bool, ValError>)
        ensures
            coerced(r, int_bool(i as int), json_repr(*self)),
    {
        if i == 0 {
            Ok(false)
        } else if i == 1 {
            Ok(true)
        } else {
            Err(self.error(ErrorKind::BoolType))
        }
    }

    pub fn lax_bool(&self) -> (r: Result<bool, ValError>)
        ensures
            coerced(r, json_bool(*self, false), json_repr(*self)),
    {
        match self {
            JsonValue::Bool(b) => Ok(*b),
            JsonValue::Str(s) => match str_as_bool(s.as_str()) {
                Some(b) => Ok(b),
                None => Err(self.error(ErrorKind::BoolParsing)),
            },
            JsonValue::Int(i) => self.int_as_bool(*i),
            JsonValue::Float(d) => match d.to_int() {
                Some(i) => self.int_as_bool(i),
                None => Err(self.error(ErrorKind::BoolType)),
            },
            _ => Err(self.error(ErrorKind::BoolType)),
        }
    }

    pub fn validate_int(&self, strict: bool) -> (r: Result<i64, ValError>)
        ensures
            coerced(r, json_int(*self, strict), json_repr(*self)),
    {
        if strict {
            self.strict_int()
        } else {
            self.lax_int()
        }
    }

    pub fn strict_int(&self) -> (r: Result<i64, ValError>)
        ensures
            coerced(r, json_int(*self, true), json_repr(*self)),
    {
        match self {
            JsonValue::Int(i) => Ok(*i),
            _ => Err(self.error(ErrorKind::IntType)),
        }
    }

    pub fn lax_int(&self) -> (r: Result<i64, ValError>)
        ensures
            coerced(r, json_int(*self, false), json_repr(*self)),
    {
        match self {
            JsonValue::Bool(b) => if *b { Ok(1) } else { Ok(0) },
            JsonValue::Int(i) => Ok(*i),
            JsonValue::Float(d) => {
                proof {
                    use_type_invariant(d);
                    lemma_canonical_int_fits(d@);
                }
                match d.to_int() {
                    Some(i) => Ok(i),
                    None => Err(self.error(ErrorKind::IntFromFloat)),
                }
            },
            JsonValue::Str(s) => match parse_i64(s.as_str()) {
                Some(i) => Ok(i),
                None => Err(self.error(ErrorKind::IntParsing)),
            },
            _ => Err(self.error(ErrorKind::IntType)),
        }
    }

    pub fn validate_float(&self, strict: bool) -> (r: Result<Decimal, ValError>)
        ensures
            coerced(r, json_float(*self, strict), json_repr(*self)),
    {
        if strict {
            self.strict_float()
        } else {
            self.lax_float()
        }
    }

    pub fn strict_float(&self) -> (r: Result<Decimal, ValError>)
        ensures
            coerced(r, json_float(*self, true), json_repr(*self)),
    {
        match self {
            JsonValue::Float(d) => Ok(*d),
            JsonValue::Int(i) => Ok(Decimal::from_int(*i)),
            _ => Err(self.error(ErrorKind::FloatType)),
        }
    }

    pub fn lax_float(&self) -> (r: Result<Decimal, ValError>)
        ensures
            coerced(r, json_float(*self, false), json_repr(*self)),
    {
        match self {
            JsonValue::Bool(b) => if *b { Ok(Decimal::from_int(1)) } else { Ok(Decimal::from_int(0)) },
            JsonValue::Float(d) => Ok(*d),
            JsonValue::Int(i) => Ok(Decimal::from_int(*i)),
            JsonValue::Str(s) => match parse_decimal(s.as_str()) {
                Some(d) => Ok(d),
                None => Err(self.error(ErrorKind::FloatParsing)),
            },
            _ => Err(self.error(ErrorKind::FloatType)),
        }
    }

    /// The entries of an object; a document has one mapping shape, so strict and lax agree.
    pub fn validate_dict(&self, _strict: bool) -> (r: Result<&Vec<(String, JsonValue)>, ValError>)
        ensures
            match *self {
                JsonValue::Object(o) => r == Ok::<&Vec<(String, JsonValue)>, ValError>(&o),
                _ => r matches Err(e) && is_error_of(e, ErrorKind::DictType, json_repr(*self)),
            },
    {
        match self {
            JsonValue::Object(o) => Ok(o),
            _ => Err(self.error(ErrorKind::DictType)),
        }
    }

    fn array_as(&self, kind: ErrorKind) -> (r: Result<&Vec<JsonValue>, ValError>)
        ensures
            match *self {
                JsonValue::Array(a) => r == Ok::<&Vec<JsonValue>, ValError>(&a),
                _ => r matches Err(e) && is_error_of(e, kind, json_repr(*self)),
            },
    {
        match self {
            JsonValue::Array(a) => Ok(a),
            _ => Err(self.error(kind)),
        }
    }

    /// The items of an array, as a list.
    pub fn validate_list(&self, _strict: bool) -> (r: Result<&Vec<JsonValue>, ValError>)
        ensures
            match *self {
                JsonValue::Array(a) => r == Ok::<&Vec<JsonValue>, ValError>(&a),
                _ => r matches Err(e) && is_error_of(e, ErrorKind::ListType, json_repr(*self)),
            },
    {
        self.array_as(ErrorKind::ListType)
    }

    /// The items of an array, as a tuple: a document has no tuple shape of its own.
    pub fn validate_tuple(&self, _strict: bool) -> (r: Result<&Vec<JsonValue>, ValError>)
        ensures
            match *self {
                JsonValue::Array(a) => r == Ok::<&Vec<JsonValue>, ValError>(&a),
                _ => r matches Err(e) && is_error_of(e, ErrorKind::TupleType, json_repr(*self)),
            },
    {
        self.array_as(ErrorKind::TupleType)
    }

    /// The items of an array, as a set: a document has no set shape of its own.
    pub fn validate_set(&self, _strict: bool) -> (r: Result<&Vec<JsonValue>, ValError>)
        ensures
            match *self {
                JsonValue::Array(a) => r == Ok::<&Vec<JsonValue>, ValError>(&a),
                _ => r matches Err(e) && is_error_of(e, ErrorKind::SetType, json_repr(*self)),
            },
    {
        self.array_as(ErrorKind::SetType)
    }

    /// The items of an array, as a frozenset: a document has no such shape of its own.
    pub fn validate_frozenset(&self, _strict: bool) -> (r: Result<&Vec<JsonValue>, ValError>)
        ensures
            match *self {
                JsonValue::Array(a) => r == Ok::<&Vec<JsonValue>, ValError>(&a),
                _ => r matches Err(e) && is_error_of(e, ErrorKind::FrozenSetType, json_repr(*self)),
            },
    {
        self.array_as(ErrorKind::FrozenSetType)
    }

    /// A date: a text in the layout `YYYY-MM-DD`, in either mode.
    pub fn validate_date(&self, _strict: bool) -> (r: Result<Date, ValError>)
        ensures
            coerced(r, json_date(*self), json_repr(*self)),
    {
        match self {
            JsonValue::Str(s) => match parse_date(s.as_str()) {
                Some(d) => Ok(d),
                None => Err(self.error(ErrorKind::DateParsing)),
            },
            _ => Err(self.error(ErrorKind::DateType)),
        }
    }

    /// A date read through the lax datetime rules, accepted only where the time of day
    /// is midnight: the optional fallback for a date that strict reading refused.
    pub fn date_via_datetime(&self) -> (r: Result<Date, ValError>)
        ensures
            match json_datetime(*self, false) {
                Ok(dt) => if dt.time == (Time { hour: 0, minute: 0, second: 0, microsecond: 0 }) {
                    r == Ok::<Date, ValError>(dt.date)
                } else {
                    r matches Err(e) && is_error_of(e, ErrorKind::DateParsing, json_repr(*self))
                },
                Err(k) => r matches Err(e) && is_error_of(e, k, json_repr(*self)),
            },
    {
        match self.lax_datetime() {
            Ok(dt) => {
                if dt.time.hour == 0 && dt.time.minute == 0 && dt.time.second == 0
                    && dt.time.microsecond == 0 {
                    Ok(dt.date)
                } else {
                    Err(self.error(ErrorKind::DateParsing))
                }
            },
            Err(e) => Err(e),
        }
    }

    pub fn strict_time(&self) -> (r: Result<Time, ValError>)
        ensures
            coerced(r, json_time(*self, true), json_repr(*self)),
    {
        match self {
            JsonValue::Str(s) => match parse_time(s.as_str()) {
                Some(t) => Ok(t),
                None => Err(self.error(ErrorKind::TimeParsing)),
            },
            _ => Err(self.error(ErrorKind::TimeType)),
        }
    }

    /// A time of day; lax mode also reads a number as seconds after midnight, to the
    /// microsecond, rounding down.
    pub fn lax_time(&self) -> (r: Result<Time, ValError>)
        ensures
            coerced(r, json_time(*self, false), json_repr(*self)),
    {
        match self {
            JsonValue::Str(s) => match parse_time(s.as_str()) {
                Some(t) => Ok(t),
                None => Err(self.error(ErrorKind::TimeParsing)),
            },
            _ => match self.number_micros() {
                Some(t) => match time_from_micros(t) {
                    Some(x) => Ok(x),
                    None => Err(self.error(ErrorKind::TimestampRange)),
                },
                None => Err(self.error(ErrorKind::TimeType)),
            },
        }
    }

    /// This value read as microseconds, if it is a number.
    fn number_micros(&self) -> (r: Option<i128>)
        ensures
            match number_micros(*self) {
                Some(t) => r matches Some(x) && x == t,
                None => r is None,
            },
    {
        match self {
            JsonValue::Int(i) => Some(*i as i128 * 1_000_000),
            JsonValue::Float(d) => Some(d.to_micros()),
            _ => None,
        }
    }

    pub fn strict_datetime(&self) -> (r: Result<DateTime, ValError>)
        ensures
            coerced(r, json_datetime(*self, true), json_repr(*self)),
    {
        match self {
            JsonValue::Str(s) => match parse_datetime(s.as_str()) {
                Some(dt) => Ok(dt),
                None => Err(self.error(ErrorKind::DateTimeParsing)),
            },
            _ => Err(self.error(ErrorKind::DateTimeType)),
        }
    }

    /// A date and time; lax mode also reads a number as seconds after
    /// 1970-01-01T00:00:00, to the microsecond, rounding down.
    pub fn lax_datetime(&self) -> (r: Result<DateTime, ValError>)
        ensures
            coerced(r, json_datetime(*self, false), json_repr(*self)),
    {
        match self {
            JsonValue::Str(s) => match parse_datetime(s.as_str()) {
                Some(dt) => Ok(dt),
                None => Err(self.error(ErrorKind::DateTimeParsing)),
            },
            _ => match self.number_micros() {
                Some(t) => match datetime_from_micros(t) {
                    Some(dt) => {
                        proof {
                            let c = choose|x: DateTime|
                                date_valid(x.date) && time_valid(x.time) && epoch_micros(x) == t;
                            lemma_epoch_unique(c, dt);
                        }
                        Ok(dt)
                    },
                    None => Err(self.error(ErrorKind::TimestampRange)),
                },
                None => Err(self.error(ErrorKind::DateTimeType)),
            },
        }
    }

    pub fn strict_timedelta(&self) -> (r: Result<Duration, ValError>)
        ensures
            coerced(r, json_timedelta(*self, true), json_repr(*self)),
    {
        match self {
            JsonValue::Str(s) => match parse_duration(s.as_str()) {
                Some(d) => Ok(d),
                None => Err(self.error(ErrorKind::TimeDeltaParsing)),
            },
            _ => Err(self.error(ErrorKind::TimeDeltaType)),
        }
    }

    /// A length of time; lax mode also reads a number as seconds, to the microsecond,
    /// rounding down.
    pub fn lax_timedelta(&self) -> (r: Result<Duration, ValError>)
        ensures
            coerced(r, json_timedelta(*self, false), json_repr(*self)),
    {
        match self {
            JsonValue::Str(s) => match parse_duration(s.as_str()) {
                Some(d) => Ok(d),
                None => Err(self.error(ErrorKind::TimeDeltaParsing)),
            },
            _ => match self.number_micros() {
                Some(t) => match duration_from_micros(t) {
                    Some(d) => Ok(d),
                    None => Err(self.error(ErrorKind::TimestampRange)),
                },
                None => Err(self.error(ErrorKind::TimeDeltaType)),
            },
        }
    }
}

/// Strict mode accepts exactly a value's native shape (a number of either kind for a
/// float), and lax mode accepts all that strict mode does, with the same result.
pub proof fn lemma_strict_is_native(v: JsonValue)
    ensures
        json_str(v, true) is Ok <==> v is Str,
        json_bool(v, true) is Ok <==> v is Bool,
        json_int(v, true) is Ok <==> v is Int,
        json_float(v, true) is Ok <==> (v is Float || v is Int),
        json_str(v, true) is Ok ==> json_str(v, false) == json_str(v, true),
        json_bool(v, true) is Ok ==> json_bool(v, false) == json_bool(v, true),
        json_int(v, true) is Ok ==> json_int(v, false) == json_int(v, true),
        json_float(v, true) is Ok ==> json_float(v, false) == json_float(v, true),
{
}

} // verus!
