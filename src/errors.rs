use vstd::prelude::*;
use vstd::string::*;
use crate::text::{decimal, push_decimal};

verus! {

/// The closed catalogue of reasons for which a coercion can fail.
#[derive(PartialEq, Eq, Structural, Clone, Copy, Debug)]
pub enum ErrorKind {
    StrType,
    BytesType,
    BoolType,
    BoolParsing,
    IntType,
    IntParsing,
    IntFromFloat,
    FloatType,
    FloatParsing,
    DictType,
    ListType,
    TupleType,
    SetType,
    FrozenSetType,
    Missing,
    DateType,
    DateParsing,
    TimeType,
    TimeParsing,
    DateTimeType,
    DateTimeParsing,
    TimeDeltaType,
    TimeDeltaParsing,
    TimestampRange,
}

/// The machine-readable tag of an error kind.
pub open spec fn kind_name(k: ErrorKind) -> Seq<char> {
    match k {
        ErrorKind::StrType => "str_type"@,
        ErrorKind::BytesType => "bytes_type"@,
        ErrorKind::BoolType => "bool_type"@,
        ErrorKind::BoolParsing => "bool_parsing"@,
        ErrorKind::IntType => "int_type"@,
        ErrorKind::IntParsing => "int_parsing"@,
        ErrorKind::IntFromFloat => "int_from_float"@,
        ErrorKind::FloatType => "float_type"@,
        ErrorKind::FloatParsing => "float_parsing"@,
        ErrorKind::DictType => "dict_type"@,
        ErrorKind::ListType => "list_type"@,
        ErrorKind::TupleType => "tuple_type"@,
        ErrorKind::SetType => "set_type"@,
        ErrorKind::FrozenSetType => "frozen_set_type"@,
        ErrorKind::Missing => "missing"@,
        ErrorKind::DateType => "date_type"@,
        ErrorKind::DateParsing => "date_parsing"@,
        ErrorKind::TimeType => "time_type"@,
        ErrorKind::TimeParsing => "time_parsing"@,
        ErrorKind::DateTimeType => "datetime_type"@,
        ErrorKind::DateTimeParsing => "datetime_parsing"@,
        ErrorKind::TimeDeltaType => "time_delta_type"@,
        ErrorKind::TimeDeltaParsing => "time_delta_parsing"@,
        ErrorKind::TimestampRange => "timestamp_range"@,
    }
}

/// The human-readable message of an error kind.
pub open spec fn kind_message(k: ErrorKind) -> Seq<char> {
    match k {
        ErrorKind::StrType => "Input should be a valid string"@,
        ErrorKind::BytesType => "Input should be a valid bytes"@,
        ErrorKind::BoolType => "Input should be a valid boolean"@,
        ErrorKind::BoolParsing => "Input should be a valid boolean, unable to interpret input"@,
        ErrorKind::IntType => "Input should be a valid integer"@,
        ErrorKind::IntParsing => "Input should be a valid integer, unable to parse string as an integer"@,
        ErrorKind::IntFromFloat => "Input should be a valid integer, got a number with a fractional part"@,
        ErrorKind::FloatType => "Input should be a valid number"@,
        ErrorKind::FloatParsing => "Input should be a valid number, unable to parse string as a number"@,
        ErrorKind::DictType => "Input should be a valid dictionary"@,
        ErrorKind::ListType => "Input should be a valid list"@,
        ErrorKind::TupleType => "Input should be a valid tuple"@,
        ErrorKind::SetType => "Input should be a valid set"@,
        ErrorKind::FrozenSetType => "Input should be a valid frozenset"@,
        ErrorKind::Missing => "Field required"@,
        ErrorKind::DateType => "Input should be a valid date"@,
        ErrorKind::DateParsing => "Input should be a valid date in the format YYYY-MM-DD"@,
        ErrorKind::TimeType => "Input should be a valid time"@,
        ErrorKind::TimeParsing => "Input should be a valid time in the format HH:MM:SS"@,
        ErrorKind::DateTimeType => "Input should be a valid datetime"@,
        ErrorKind::DateTimeParsing => "Input should be a valid datetime in the format YYYY-MM-DDTHH:MM:SS"@,
        ErrorKind::TimeDeltaType => "Input should be a valid timedelta"@,
        ErrorKind::TimeDeltaParsing => "Input should be a valid timedelta in the format HH:MM:SS"@,
        ErrorKind::TimestampRange => "Input should be a number of seconds within the supported range"@,
    }
}

impl ErrorKind {
    pub fn name(&self) -> (r: &'static str)
        ensures
            r@ == kind_name(*self),
    {
        match self {
            ErrorKind::StrType => "str_type",
            ErrorKind::BytesType => "bytes_type",
            ErrorKind::BoolType => "bool_type",
            ErrorKind::BoolParsing => "bool_parsing",
            ErrorKind::IntType => "int_type",
            ErrorKind::IntParsing => "int_parsing",
            ErrorKind::IntFromFloat => "int_from_float",
            ErrorKind::FloatType => "float_type",
            ErrorKind::FloatParsing => "float_parsing",
            ErrorKind::DictType => "dict_type",
            ErrorKind::ListType => "list_type",
            ErrorKind::TupleType => "tuple_type",
            ErrorKind::SetType => "set_type",
            ErrorKind::FrozenSetType => "frozen_set_type",
            ErrorKind::Missing => "missing",
            ErrorKind::DateType => "date_type",
            ErrorKind::DateParsing => "date_parsing",
            ErrorKind::TimeType => "time_type",
            ErrorKind::TimeParsing => "time_parsing",
            ErrorKind::DateTimeType => "datetime_type",
            ErrorKind::DateTimeParsing => "datetime_parsing",
            ErrorKind::TimeDeltaType => "time_delta_type",
            ErrorKind::TimeDeltaParsing => "time_delta_parsing",
            ErrorKind::TimestampRange => "timestamp_range",
        }
    }

    pub fn render(&self) -> (r: &'static str)
        ensures
            r@ == kind_message(*self),
    {
        match self {
            ErrorKind::StrType => "Input should be a valid string",
            ErrorKind::BytesType => "Input should be a valid bytes",
            ErrorKind::BoolType => "Input should be a valid boolean",
            ErrorKind::BoolParsing => "Input should be a valid boolean, unable to interpret input",
            ErrorKind::IntType => "Input should be a valid integer",
            ErrorKind::IntParsing => "Input should be a valid integer, unable to parse string as an integer",
            ErrorKind::IntFromFloat => "Input should be a valid integer, got a number with a fractional part",
            ErrorKind::FloatType => "Input should be a valid number",
            ErrorKind::FloatParsing => "Input should be a valid number, unable to parse string as a number",
            ErrorKind::DictType => "Input should be a valid dictionary",
            ErrorKind::ListType => "Input should be a valid list",
            ErrorKind::TupleType => "Input should be a valid tuple",
            ErrorKind::SetType => "Input should be a valid set",
            ErrorKind::FrozenSetType => "Input should be a valid frozenset",
            ErrorKind::Missing => "Field required",
            ErrorKind::DateType => "Input should be a valid date",
            ErrorKind::DateParsing => "Input should be a valid date in the format YYYY-MM-DD",
            ErrorKind::TimeType => "Input should be a valid time",
            ErrorKind::TimeParsing => "Input should be a valid time in the format HH:MM:SS",
            ErrorKind::DateTimeType => "Input should be a valid datetime",
            ErrorKind::DateTimeParsing => "Input should be a valid datetime in the format YYYY-MM-DDTHH:MM:SS",
            ErrorKind::TimeDeltaType => "Input should be a valid timedelta",
            ErrorKind::TimeDeltaParsing => "Input should be a valid timedelta in the format HH:MM:SS",
            ErrorKind::TimestampRange => "Input should be a number of seconds within the supported range",
        }
    }
}

/// One segment of a location: a mapping key or a sequence index.
pub enum LocItem {
    S(String),
    I(usize),
}

/// The mathematical form of a location segment.
pub enum LocSeg {
    Key(Seq<char>),
    Index(nat),
}

impl View for LocItem {
    type V = LocSeg;

    open spec fn view(&self) -> LocSeg {
        match self {
            LocItem::S(s) => LocSeg::Key(s@),
            LocItem::I(i) => LocSeg::Index(*i as nat),
        }
    }
}

impl LocItem {
    pub fn duplicate(&self) -> (r: LocItem)
        ensures
            r@ == self@,
    {
        match self {
            LocItem::S(s) => LocItem::S(s.clone()),
            LocItem::I(i) => LocItem::I(*i),
        }
    }
}

pub open spec fn locs_view(v: Seq<LocItem>) -> Seq<LocSeg> {
    v.map_values(|l: LocItem| l@)
}

pub open spec fn is_name_char(c: char) -> bool {
    ('a' <= c && c <= 'z') || ('A' <= c && c <= 'Z') || ('0' <= c && c <= '9') || c == '_'
}

/// A key written bare: letters, digits and underscores, at least one.
pub open spec fn is_plain_key(k: Seq<char>) -> bool {
    k.len() > 0 && forall|i: int| 0 <= i < k.len() ==> is_name_char(#[trigger] k[i])
}

/// A character inside a quoted key: a quote or a backslash gets a backslash before it.
pub open spec fn escaped_char(c: char) -> Seq<char> {
    if c == '\'' || c == '\\' { seq!['\\', c] } else { seq![c] }
}

/// A key's characters, escaped for quoting.
pub open spec fn escaped(k: Seq<char>) -> Seq<char>
    decreases k.len(),
{
    if k.len() == 0 {
        Seq::empty()
    } else {
        escaped(k.drop_last()) + escaped_char(k.last())
    }
}

/// How one segment is written: a plain key is preceded by a dot unless it comes first,
/// any other key is written quoted and escaped in square brackets, and an index is written
/// in square brackets; so no two locations read alike.
pub open spec fn seg_text(s: LocSeg, first: bool) -> Seq<char> {
    match s {
        LocSeg::Key(k) => if !is_plain_key(k) {
            "['"@ + escaped(k) + "']"@
        } else if first {
            k
        } else {
            "."@ + k
        },
        LocSeg::Index(i) => "["@ + decimal(i) + "]"@,
    }
}

fn plain_key(k: &str) -> (r: bool)
    ensures
        r == is_plain_key(k@),
{
    let n = k.unicode_len();
    if n == 0 {
        return false;
    }
    let mut i: usize = 0;
    while i < n
        invariant
            i <= n,
            n == k@.len(),
            forall|j: int| 0 <= j < i ==> is_name_char(#[trigger] k@[j]),
        decreases n - i,
    {
        let c = k.get_char(i);
        if !(('a' <= c && c <= 'z') || ('A' <= c && c <= 'Z') || ('0' <= c && c <= '9') || c == '_') {
            return false;
        }
        i = i + 1;
    }
    true
}

/// Appends a key's characters, escaped for quoting, to `out`.
fn push_escaped(out: &mut String, k: &str)
    ensures
        final(out)@ == old(out)@ + escaped(k@),
{
    let ghost start = out@;
    let n = k.unicode_len();
    let mut i: usize = 0;
    while i < n
        invariant
            i <= n,
            n == k@.len(),
            out@ == start + escaped(k@.subrange(0, i as int)),
        decreases n - i,
    {
        let c = k.get_char(i);
        if c == '\'' || c == '\\' {
            out.append("\\");
        }
        out.append(k.substring_char(i, i + 1));
        proof {
            reveal_strlit("\\");
            let p = k@.subrange(0, i + 1);
            assert(p.drop_last() =~= k@.subrange(0, i as int));
            assert(p.last() == c);
            assert(k@.subrange(i as int, i + 1) =~= seq![c]);
        }
        assert(out@ =~= start + escaped(k@.subrange(0, i + 1)));
        i = i + 1;
    }
    assert(k@.subrange(0, n as int) =~= k@);
}

/// The text of a location, root first.
pub open spec fn loc_text(loc: Seq<LocSeg>) -> Seq<char>
    decreases loc.len(),
{
    if loc.len() == 0 {
        Seq::empty()
    } else {
        loc_text(loc.drop_last()) + seg_text(loc.last(), loc.len() == 1)
    }
}

/// Appends the text of a location to `out`.
pub fn push_location(out: &mut String, loc: &Vec<LocItem>)
    ensures
        final(out)@ == old(out)@ + loc_text(locs_view(loc@)),
{
    let ghost start = out@;
    let mut i: usize = 0;
    while i < loc.len()
        invariant
            i <= loc@.len(),
            out@ == start + loc_text(locs_view(loc@).subrange(0, i as int)),
        decreases loc@.len() - i,
    {
        let ghost before = out@;
        match &loc[i] {
            LocItem::S(s) => {
                if !plain_key(s.as_str()) {
                    out.append("['");
                    push_escaped(out, s.as_str());
                    out.append("']");
                } else {
                    if i > 0 {
                        out.append(".");
                    }
                    out.append(s.as_str());
                }
            },
            LocItem::I(n) => {
                out.append("[");
                push_decimal(out, *n as u64);
                out.append("]");
            },
        }
        proof {
            reveal_strlit(".");
            reveal_strlit("[");
            reveal_strlit("]");
            let lv = locs_view(loc@);
            assert(lv.subrange(0, i + 1).drop_last() =~= lv.subrange(0, i as int));
            assert(lv.subrange(0, i + 1).last() == lv[i as int]);
        }
        i = i + 1;
    }
    assert(locs_view(loc@).subrange(0, loc@.len() as int) =~= locs_view(loc@));
}

/// One failure found during a validation walk.
pub struct ValLineError {
    pub kind: ErrorKind,
    pub location: Vec<LocItem>,
    pub input_value: String,
}

/// The mathematical form of a line error.
pub struct LineErrorView {
    pub kind: ErrorKind,
    pub location: Seq<LocSeg>,
    pub input_value: Seq<char>,
}

impl View for ValLineError {
    type V = LineErrorView;

    open spec fn view(&self) -> LineErrorView {
        LineErrorView {
            kind: self.kind,
            location: locs_view(self.location@),
            input_value: self.input_value@,
        }
    }
}

pub open spec fn line_errors_view(v: Seq<ValLineError>) -> Seq<LineErrorView> {
    v.map_values(|e: ValLineError| e@)
}

/// A line error moved one level down: `seg` is put in front of its location.
pub open spec fn prefixed(e: LineErrorView, seg: LocSeg) -> LineErrorView {
    LineErrorView { location: seq![seg] + e.location, ..e }
}

impl ValLineError {
    /// A line error at the root location.
    pub fn new(kind: ErrorKind, input_value: String) -> (r: ValLineError)
        ensures
            r@ == (LineErrorView { kind, location: Seq::empty(), input_value: input_value@ }),
    {
        let r = ValLineError { kind, location: Vec::new(), input_value };
        assert(r@.location =~= Seq::<LocSeg>::empty());
        r
    }

    /// Puts `item` in front of the location.
    pub fn with_outer_location(&mut self, item: LocItem)
        ensures
            final(self)@ == prefixed(old(self)@, item@),
    {
        let ghost seg = item@;
        self.location.insert(0, item);
        assert(self@.location =~= seq![seg] + old(self)@.location);
    }
}

/// A condition under which validation cannot go on.
#[derive(PartialEq, Eq, Structural, Clone, Copy, Debug)]
pub enum FatalError {
    RecursionLimit,
    DanglingReference,
}

/// What a failed validation step hands back: collected line errors, or a fatal error.
pub enum ValError {
    LineErrors(Vec<ValLineError>),
    InternalErr(FatalError),
}

impl ValError {
    /// A single line error at the root location.
    pub fn new(kind: ErrorKind, input_value: String) -> (r: ValError)
        ensures
            r matches ValError::LineErrors(v) && line_errors_view(v@) == seq![
                LineErrorView { kind, location: Seq::<LocSeg>::empty(), input_value: input_value@ },
            ],
    {
        let e = ValLineError::new(kind, input_value);
        let v = vec![e];
        assert(line_errors_view(v@) =~= seq![e@]);
        ValError::LineErrors(v)
    }
}

/// Moves every line error in `errors` one level down, under `item`.
pub fn prefix_all(errors: Vec<ValLineError>, item: &LocItem) -> (r: Vec<ValLineError>)
    ensures
        r@.len() == errors@.len(),
        forall|j: int| 0 <= j < r@.len() ==> #[trigger] r@[j]@ == prefixed(errors@[j]@, item@),
{
    let mut errors = errors;
    let ghost orig = errors@;
    let mut out: Vec<ValLineError> = Vec::new();
    while errors.len() > 0
        invariant
            out@.len() + errors@.len() == orig.len(),
            errors@ == orig.subrange(out@.len() as int, orig.len() as int),
            forall|j: int| 0 <= j < out@.len() ==> #[trigger] out@[j]@ == prefixed(orig[j]@, item@),
        decreases errors@.len(),
    {
        let mut e = errors.remove(0);
        e.with_outer_location(item.duplicate());
        out.push(e);
    }
    out
}

} // verus!
