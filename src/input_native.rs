use vstd::prelude::*;
use vstd::string::*;
use crate::errors::{
    line_errors_view, ErrorKind, FatalError, LineErrorView, LocItem, LocSeg, ValError,
    ValLineError,
};
use crate::input_json::{coerced, int_bool, is_error_of, quote, quoted, str_as_bool, text_bool, text_int};
use crate::input_json::{micros_datetime, micros_duration_result, micros_time_result};
use crate::temporal::{
    date_valid, datetime_from_micros, datetime_text, duration_from_micros, duration_text,
    epoch_micros, lemma_epoch_unique, parse_datetime, parse_duration, parse_time, time_from_micros,
    time_text, time_valid, DateTime, Duration, Time,
};
use crate::text::{int_text, parse_i64, push_int};
use crate::validators::{collect_under, fails_with, prefix_seq};

verus! {

/// Deepest nesting that a walk over an object graph enters.
pub const MAX_DEPTH: usize = 200;

/// A native object; containers refer to other objects by their index in the graph, so a
/// container may hold itself.
pub enum PyNode {
    NoneValue,
    Bool(bool),
    Int(i64),
    Str(String),
    List(Vec<usize>),
    Tuple(Vec<usize>),
    PySet(Vec<usize>),
    FrozenSet(Vec<usize>),
    Dict(Vec<(String, usize)>),
}

/// The native sequence shapes.
#[derive(PartialEq, Eq, Structural, Clone, Copy, Debug)]
pub enum SeqShape {
    List,
    Tuple,
    SetShape,
    FrozenSet,
}

/// The sequence shape of a native object, if it is a sequence.
pub open spec fn shape_of(n: PyNode) -> Option<SeqShape> {
    match n {
        PyNode::List(_) => Some(SeqShape::List),
        PyNode::Tuple(_) => Some(SeqShape::Tuple),
        PyNode::PySet(_) => Some(SeqShape::SetShape),
        PyNode::FrozenSet(_) => Some(SeqShape::FrozenSet),
        _ => None,
    }
}

/// Whether a native object is read as a sequence of shape `want`: strict mode takes that
/// shape only, lax mode any sequence.
pub open spec fn accepts_shape(n: PyNode, want: SeqShape, strict: bool) -> bool {
    shape_of(n) matches Some(s) && (s == want || !strict)
}

/// A graph of native objects.
pub struct ObjectGraph {
    pub nodes: Vec<PyNode>,
}

/// The children of a container; none for a scalar.
pub open spec fn children(n: PyNode) -> Seq<usize> {
    match n {
        PyNode::List(c) => c@,
        PyNode::Tuple(c) => c@,
        PyNode::PySet(c) => c@,
        PyNode::FrozenSet(c) => c@,
        _ => Seq::empty(),
    }
}

/// How a native object is shown in an error; a container is shown by its shape alone,
/// since it may hold itself.
pub open spec fn node_repr(n: PyNode) -> Seq<char> {
    match n {
        PyNode::NoneValue => "None"@,
        PyNode::Bool(b) => if b { "True"@ } else { "False"@ },
        PyNode::Int(i) => int_text(i as int),
        PyNode::Str(s) => quoted(s@),
        PyNode::List(_) => "[...]"@,
        PyNode::Tuple(_) => "(...)"@,
        PyNode::PySet(_) => "{...}"@,
        PyNode::FrozenSet(_) => "frozenset({...})"@,
        PyNode::Dict(_) => "{...: ...}"@,
    }
}

/// What coercing a native object to an integer gives: strict mode takes an integer only.
pub open spec fn native_int(n: PyNode, strict: bool) -> Result<i64, ErrorKind> {
    match n {
        PyNode::Int(i) => Ok(i),
        PyNode::Bool(b) if !strict => Ok(if b { 1i64 } else { 0i64 }),
        PyNode::Str(s) if !strict => text_int(s@),
        _ => Err(ErrorKind::IntType),
    }
}

/// What coercing a native object to a boolean gives: strict mode takes a boolean only.
pub open spec fn native_bool(n: PyNode, strict: bool) -> Result<bool, ErrorKind> {
    match n {
        PyNode::Bool(b) => Ok(b),
        PyNode::Int(i) if !strict => int_bool(i as int),
        PyNode::Str(s) if !strict => text_bool(s@),
        _ => Err(ErrorKind::BoolType),
    }
}

/// What coercing a native object to a text gives: strict mode takes a text only.
pub open spec fn native_str(n: PyNode, strict: bool) -> Result<Seq<char>, ErrorKind> {
    match n {
        PyNode::Str(s) => Ok(s@),
        PyNode::Int(i) if !strict => Ok(int_text(i as int)),
        _ => Err(ErrorKind::StrType),
    }
}

/// What a native object gives as a time of day: a text in its layout, or in lax mode an
/// integer of seconds after midnight.
pub open spec fn native_time(n: PyNode, strict: bool) -> Result<Time, ErrorKind> {
    match n {
        PyNode::Str(s) => match time_text(s@) {
            Some(t) => Ok(t),
            None => Err(ErrorKind::TimeParsing),
        },
        PyNode::Int(i) if !strict => micros_time_result(i * 1_000_000),
        _ => Err(ErrorKind::TimeType),
    }
}

/// What a native object gives as a date and time: a text in its layout, or in lax mode an
/// integer of seconds after 1970-01-01T00:00:00.
pub open spec fn native_datetime(n: PyNode, strict: bool) -> Result<DateTime, ErrorKind> {
    match n {
        PyNode::Str(s) => match datetime_text(s@) {
            Some(dt) => Ok(dt),
            None => Err(ErrorKind::DateTimeParsing),
        },
        PyNode::Int(i) if !strict => micros_datetime(i * 1_000_000),
        _ => Err(ErrorKind::DateTimeType),
    }
}

/// What a native object gives as a length of time: a text in its layout, or in lax mode an
/// integer of seconds.
pub open spec fn native_timedelta(n: PyNode, strict: bool) -> Result<Duration, ErrorKind> {
    match n {
        PyNode::Str(s) => match duration_text(s@) {
            Some(d) => Ok(d),
            None => Err(ErrorKind::TimeDeltaParsing),
        },
        PyNode::Int(i) if !strict => micros_duration_result(i * 1_000_000),
        _ => Err(ErrorKind::TimeDeltaType),
    }
}

/// Strict mode accepts exactly a native object's own shape, and lax mode accepts all that
/// strict mode does, with the same result.
pub proof fn lemma_native_strict_is_native(n: PyNode)
    ensures
        native_int(n, true) is Ok <==> n is Int,
        native_bool(n, true) is Ok <==> n is Bool,
        native_str(n, true) is Ok <==> n is Str,
        is_list_like(n, true) <==> n is List,
        is_tuple_like(n, true) <==> n is Tuple,
        accepts_shape(n, SeqShape::SetShape, true) <==> n is PySet,
        accepts_shape(n, SeqShape::FrozenSet, true) <==> n is FrozenSet,
        native_int(n, true) is Ok ==> native_int(n, false) == native_int(n, true),
        native_bool(n, true) is Ok ==> native_bool(n, false) == native_bool(n, true),
        native_str(n, true) is Ok ==> native_str(n, false) == native_str(n, true),
        is_list_like(n, true) ==> is_list_like(n, false),
        is_tuple_like(n, true) ==> is_tuple_like(n, false),
{
}

/// The error kind of a sequence shape that was not met.
pub open spec fn shape_error(want: SeqShape) -> ErrorKind {
    match want {
        SeqShape::List => ErrorKind::ListType,
        SeqShape::Tuple => ErrorKind::TupleType,
        SeqShape::SetShape => ErrorKind::SetType,
        SeqShape::FrozenSet => ErrorKind::FrozenSetType,
    }
}

/// Whether a native object is read as a list.
pub open spec fn is_list_like(n: PyNode, strict: bool) -> bool {
    accepts_shape(n, SeqShape::List, strict)
}

/// Whether a native object is read as a tuple.
pub open spec fn is_tuple_like(n: PyNode, strict: bool) -> bool {
    accepts_shape(n, SeqShape::Tuple, strict)
}

/// A validated nested integer structure.
pub enum IntTree {
    Leaf(i64),
    Branch(Vec<IntTree>),
}

/// The outcome of walking an object as a nested integer structure at a given depth:
/// `None` where the walk cannot go on, else the line errors it collects.
pub open spec fn walk(g: Seq<PyNode>, n: int, depth: nat, strict: bool) -> Option<Seq<LineErrorView>>
    decreases (MAX_DEPTH - depth), 1nat, 0nat,
{
    if depth >= MAX_DEPTH || !(0 <= n < g.len()) {
        None
    } else if is_list_like(g[n], strict) {
        walk_items(g, children(g[n]), children(g[n]).len(), depth, strict)
    } else {
        match native_int(g[n], strict) {
            Ok(_) => Some(Seq::empty()),
            Err(k) => Some(seq![
                LineErrorView { kind: k, location: Seq::empty(), input_value: node_repr(g[n]) },
            ]),
        }
    }
}

/// The outcome of walking the first `k` items of a container at `depth`.
pub open spec fn walk_items(
    g: Seq<PyNode>,
    items: Seq<usize>,
    k: nat,
    depth: nat,
    strict: bool,
) -> Option<Seq<LineErrorView>>
    decreases (MAX_DEPTH - depth), 0nat, k,
{
    if k == 0 || depth >= MAX_DEPTH {
        if k == 0 { Some(Seq::empty()) } else { None }
    } else {
        match walk_items(g, items, (k - 1) as nat, depth, strict) {
            None => None,
            Some(before) => match walk(g, items[k - 1] as int, depth + 1, strict) {
                None => None,
                Some(errs) => Some(before + prefix_seq(errs, LocSeg::Index((k - 1) as nat))),
            },
        }
    }
}

/// Whether `t` is what validating object `n` at `depth` as a nested integer structure
/// gives, where the walk finds no error.
pub open spec fn tree_is(g: Seq<PyNode>, n: int, depth: nat, strict: bool, t: IntTree) -> bool
    decreases MAX_DEPTH - depth,
{
    if depth >= MAX_DEPTH || !(0 <= n < g.len()) {
        false
    } else if is_list_like(g[n], strict) {
        match t {
            IntTree::Branch(ts) => ts@.len() == children(g[n]).len() && forall|j: int|
                0 <= j < ts@.len() ==> tree_is(g, children(g[n])[j] as int, depth + 1, strict, #[trigger] ts@[j]),
            IntTree::Leaf(_) => false,
        }
    } else {
        match native_int(g[n], strict) {
            Ok(i) => t == IntTree::Leaf(i),
            Err(_) => false,
        }
    }
}

/// Whether a walk's result agrees with its outcome: a fatal error where it cannot go on,
/// the collected line errors where there are any, and a value otherwise.
pub open spec fn walk_matches(w: Option<Seq<LineErrorView>>, r: Result<IntTree, ValError>) -> bool {
    match w {
        None => r matches Err(ValError::InternalErr(_)),
        Some(errs) => if errs.len() == 0 { r is Ok } else { fails_with(r, errs) },
    }
}

impl ObjectGraph {
    /// How object `n` is shown in an error.
    fn node_error_value(&self, n: usize) -> (r: String)
        requires
            n < self.nodes@.len(),
        ensures
            r@ == node_repr(self.nodes@[n as int]),
    {
        match &self.nodes[n] {
            PyNode::NoneValue => String::from_str("None"),
            PyNode::Bool(b) => if *b { String::from_str("True") } else { String::from_str("False") },
            PyNode::Int(i) => {
                let mut out = String::new();
                push_int(&mut out, *i);
                out
            },
            PyNode::Str(s) => quote(s.as_str()),
            PyNode::List(_) => String::from_str("[...]"),
            PyNode::Tuple(_) => String::from_str("(...)"),
            PyNode::PySet(_) => String::from_str("{...}"),
            PyNode::FrozenSet(_) => String::from_str("frozenset({...})"),
            PyNode::Dict(_) => String::from_str("{...: ...}"),
        }
    }

    /// Whether object `n` is the null object.
    pub fn is_none(&self, n: usize) -> (r: bool)
        ensures
            r == (n < self.nodes@.len() && self.nodes@[n as int] is NoneValue),
    {
        n < self.nodes.len() && matches!(self.nodes[n], PyNode::NoneValue)
    }

    /// Reads object `n` as a time of day.
    pub fn validate_time(&self, n: usize, strict: bool) -> (r: Result<Time, ValError>)
        ensures
            n >= self.nodes@.len() ==> r == Err::<Time, ValError>(
                ValError::InternalErr(FatalError::DanglingReference),
            ),
            n < self.nodes@.len() ==> coerced(
                r,
                native_time(self.nodes@[n as int], strict),
                node_repr(self.nodes@[n as int]),
            ),
    {
        if n >= self.nodes.len() {
            return Err(ValError::InternalErr(FatalError::DanglingReference));
        }
        match &self.nodes[n] {
            PyNode::Str(s) => match parse_time(s.as_str()) {
                Some(t) => Ok(t),
                None => Err(ValError::new(ErrorKind::TimeParsing, self.node_error_value(n))),
            },
            PyNode::Int(i) if !strict => match time_from_micros(*i as i128 * 1_000_000) {
                Some(t) => Ok(t),
                None => Err(ValError::new(ErrorKind::TimestampRange, self.node_error_value(n))),
            },
            _ => Err(ValError::new(ErrorKind::TimeType, self.node_error_value(n))),
        }
    }

    /// Reads object `n` as a date and time.
    pub fn validate_datetime(&self, n: usize, strict: bool) -> (r: Result<DateTime, ValError>)
        ensures
            n >= self.nodes@.len() ==> r == Err::<DateTime, ValError>(
                ValError::InternalErr(FatalError::DanglingReference),
            ),
            n < self.nodes@.len() ==> coerced(
                r,
                native_datetime(self.nodes@[n as int], strict),
                node_repr(self.nodes@[n as int]),
            ),
    {
        if n >= self.nodes.len() {
            return Err(ValError::InternalErr(FatalError::DanglingReference));
        }
        match &self.nodes[n] {
            PyNode::Str(s) => match parse_datetime(s.as_str()) {
                Some(dt) => Ok(dt),
                None => Err(ValError::new(ErrorKind::DateTimeParsing, self.node_error_value(n))),
            },
            PyNode::Int(i) if !strict => {
                let t: i128 = *i as i128 * 1_000_000;
                match datetime_from_micros(t) {
                    Some(dt) => {
                        proof {
                            let c = choose|x: DateTime|
                                date_valid(x.date) && time_valid(x.time) && epoch_micros(x) == t;
                            lemma_epoch_unique(c, dt);
                        }
                        Ok(dt)
                    },
                    None => Err(ValError::new(ErrorKind::TimestampRange, self.node_error_value(n))),
                }
            },
            _ => Err(ValError::new(ErrorKind::DateTimeType, self.node_error_value(n))),
        }
    }

    /// Reads object `n` as a length of time.
    pub fn validate_timedelta(&self, n: usize, strict: bool) -> (r: Result<Duration, ValError>)
        ensures
            n >= self.nodes@.len() ==> r == Err::<Duration, ValError>(
                ValError::InternalErr(FatalError::DanglingReference),
            ),
            n < self.nodes@.len() ==> coerced(
                r,
                native_timedelta(self.nodes@[n as int], strict),
                node_repr(self.nodes@[n as int]),
            ),
    {
        if n >= self.nodes.len() {
            return Err(ValError::InternalErr(FatalError::DanglingReference));
        }
        match &self.nodes[n] {
            PyNode::Str(s) => match parse_duration(s.as_str()) {
                Some(d) => Ok(d),
                None => Err(ValError::new(ErrorKind::TimeDeltaParsing, self.node_error_value(n))),
            },
            PyNode::Int(i) if !strict => match duration_from_micros(*i as i128 * 1_000_000) {
                Some(d) => Ok(d),
                None => Err(ValError::new(ErrorKind::TimestampRange, self.node_error_value(n))),
            },
            _ => Err(ValError::new(ErrorKind::TimeDeltaType, self.node_error_value(n))),
        }
    }

    /// Coerces object `n` to an integer.
    pub fn validate_int(&self, n: usize, strict: bool) -> (r: Result<i64, ValError>)
        ensures
            n >= self.nodes@.len() ==> r == Err::<i64, ValError>(
                ValError::InternalErr(FatalError::DanglingReference),
            ),
            n < self.nodes@.len() ==> coerced(
                r,
                native_int(self.nodes@[n as int], strict),
                node_repr(self.nodes@[n as int]),
            ),
    {
        if n >= self.nodes.len() {
            return Err(ValError::InternalErr(FatalError::DanglingReference));
        }
        match &self.nodes[n] {
            PyNode::Int(i) => Ok(*i),
            PyNode::Bool(b) if !strict => if *b { Ok(1) } else { Ok(0) },
            PyNode::Str(s) if !strict => match parse_i64(s.as_str()) {
                Some(i) => Ok(i),
                None => Err(ValError::new(ErrorKind::IntParsing, self.node_error_value(n))),
            },
            _ => Err(ValError::new(ErrorKind::IntType, self.node_error_value(n))),
        }
    }

    /// Coerces object `n` to a boolean.
    pub fn validate_bool(&self, n: usize, strict: bool) -> (r: Result<bool, ValError>)
        ensures
            n >= self.nodes@.len() ==> r == Err::<bool, ValError>(
                ValError::InternalErr(FatalError::DanglingReference),
            ),
            n < self.nodes@.len() ==> coerced(
                r,
                native_bool(self.nodes@[n as int], strict),
                node_repr(self.nodes@[n as int]),
            ),
    {
        if n >= self.nodes.len() {
            return Err(ValError::InternalErr(FatalError::DanglingReference));
        }
        match &self.nodes[n] {
            PyNode::Bool(b) => Ok(*b),
            PyNode::Int(i) if !strict => {
                if *i == 0 {
                    Ok(false)
                } else if *i == 1 {
                    Ok(true)
                } else {
                    Err(ValError::new(ErrorKind::BoolType, self.node_error_value(n)))
                }
            },
            PyNode::Str(s) if !strict => match str_as_bool(s.as_str()) {
                Some(b) => Ok(b),
                None => Err(ValError::new(ErrorKind::BoolParsing, self.node_error_value(n))),
            },
            _ => Err(ValError::new(ErrorKind::BoolType, self.node_error_value(n))),
        }
    }

    /// Coerces object `n` to a text.
    pub fn validate_str(&self, n: usize, strict: bool) -> (r: Result<String, ValError>)
        ensures
            n >= self.nodes@.len() ==> r == Err::<String, ValError>(
                ValError::InternalErr(FatalError::DanglingReference),
            ),
            n < self.nodes@.len() ==> coerced(
                r,
                native_str(self.nodes@[n as int], strict),
                node_repr(self.nodes@[n as int]),
            ),
    {
        if n >= self.nodes.len() {
            return Err(ValError::InternalErr(FatalError::DanglingReference));
        }
        match &self.nodes[n] {
            PyNode::Str(s) => Ok(s.clone()),
            PyNode::Int(_) if !strict => Ok(self.node_error_value(n)),
            _ => Err(ValError::new(ErrorKind::StrType, self.node_error_value(n))),
        }
    }

    /// The items of object `n`, read as a sequence of shape `want`.
    pub fn validate_sequence(&self, n: usize, want: SeqShape, strict: bool) -> (r: Result<&Vec<usize>, ValError>)
        ensures
            n >= self.nodes@.len() ==> r == Err::<&Vec<usize>, ValError>(
                ValError::InternalErr(FatalError::DanglingReference),
            ),
            n < self.nodes@.len() ==> match r {
                Ok(c) => accepts_shape(self.nodes@[n as int], want, strict) && c@ == children(
                    self.nodes@[n as int],
                ),
                Err(e) => !accepts_shape(self.nodes@[n as int], want, strict) && is_error_of(
                    e,
                    shape_error(want),
                    node_repr(self.nodes@[n as int]),
                ),
            },
    {
        if n >= self.nodes.len() {
            return Err(ValError::InternalErr(FatalError::DanglingReference));
        }
        let kind = match want {
            SeqShape::List => ErrorKind::ListType,
            SeqShape::Tuple => ErrorKind::TupleType,
            SeqShape::SetShape => ErrorKind::SetType,
            SeqShape::FrozenSet => ErrorKind::FrozenSetType,
        };
        match &self.nodes[n] {
            PyNode::List(c) if want == SeqShape::List || !strict => Ok(c),
            PyNode::Tuple(c) if want == SeqShape::Tuple || !strict => Ok(c),
            PyNode::PySet(c) if want == SeqShape::SetShape || !strict => Ok(c),
            PyNode::FrozenSet(c) if want == SeqShape::FrozenSet || !strict => Ok(c),
            _ => Err(ValError::new(kind, self.node_error_value(n))),
        }
    }

    /// The items of object `n`, read as a list: strict mode takes a list only.
    pub fn validate_list(&self, n: usize, strict: bool) -> (r: Result<&Vec<usize>, ValError>)
        ensures
            n >= self.nodes@.len() ==> r == Err::<&Vec<usize>, ValError>(
                ValError::InternalErr(FatalError::DanglingReference),
            ),
            n < self.nodes@.len() ==> match r {
                Ok(c) => is_list_like(self.nodes@[n as int], strict) && c@ == children(self.nodes@[n as int]),
                Err(e) => !is_list_like(self.nodes@[n as int], strict) && is_error_of(
                    e,
                    ErrorKind::ListType,
                    node_repr(self.nodes@[n as int]),
                ),
            },
    {
        self.validate_sequence(n, SeqShape::List, strict)
    }

    /// The items of object `n`, read as a tuple: strict mode takes a tuple only.
    pub fn validate_tuple(&self, n: usize, strict: bool) -> (r: Result<&Vec<usize>, ValError>)
        ensures
            n >= self.nodes@.len() ==> r == Err::<&Vec<usize>, ValError>(
                ValError::InternalErr(FatalError::DanglingReference),
            ),
            n < self.nodes@.len() ==> match r {
                Ok(c) => is_tuple_like(self.nodes@[n as int], strict) && c@ == children(self.nodes@[n as int]),
                Err(e) => !is_tuple_like(self.nodes@[n as int], strict) && is_error_of(
                    e,
                    ErrorKind::TupleType,
                    node_repr(self.nodes@[n as int]),
                ),
            },
    {
        self.validate_sequence(n, SeqShape::Tuple, strict)
    }

    /// The entries of object `n`, read as a mapping: only a mapping is, in either mode.
    pub fn validate_dict(&self, n: usize, _strict: bool) -> (r: Result<&Vec<(String, usize)>, ValError>)
        ensures
            n >= self.nodes@.len() ==> r == Err::<&Vec<(String, usize)>, ValError>(
                ValError::InternalErr(FatalError::DanglingReference),
            ),
            n < self.nodes@.len() ==> match self.nodes@[n as int] {
                PyNode::Dict(d) => r == Ok::<&Vec<(String, usize)>, ValError>(&d),
                _ => r matches Err(e) && is_error_of(e, ErrorKind::DictType, node_repr(self.nodes@[n as int])),
            },
    {
        if n >= self.nodes.len() {
            return Err(ValError::InternalErr(FatalError::DanglingReference));
        }
        match &self.nodes[n] {
            PyNode::Dict(d) => Ok(d),
            _ => Err(ValError::new(ErrorKind::DictType, self.node_error_value(n))),
        }
    }

    /// Validates object `n`, reached at `depth`, as a nested integer structure: a sequence
    /// is walked item by item and collects the line errors of all items, each under its
    /// index; anything else is coerced to an integer. Nesting past `MAX_DEPTH`, as a
    /// container that holds itself reaches, or a reference to no object, ends the walk at
    /// once with a fatal error.
    pub fn validate_tree(&self, n: usize, depth: usize, strict: bool) -> (r: Result<IntTree, ValError>)
        ensures
            walk_matches(walk(self.nodes@, n as int, depth as nat, strict), r),
            r matches Ok(t) ==> tree_is(self.nodes@, n as int, depth as nat, strict, t),
        decreases MAX_DEPTH - depth, 1nat, 0nat,
    {
        if depth >= MAX_DEPTH {
            return Err(ValError::InternalErr(FatalError::RecursionLimit));
        }
        if n >= self.nodes.len() {
            return Err(ValError::InternalErr(FatalError::DanglingReference));
        }
        let sequence = match &self.nodes[n] {
            PyNode::List(_) => true,
            PyNode::Tuple(_) | PyNode::PySet(_) | PyNode::FrozenSet(_) => !strict,
            _ => false,
        };
        if !sequence {
            return match self.validate_int(n, strict) {
                Ok(i) => Ok(IntTree::Leaf(i)),
                Err(e) => Err(e),
            };
        }
        let items = match self.validate_list(n, strict) {
            Ok(c) => c,
            Err(e) => {
                return Err(e);
            },
        };
        self.validate_items(items, n, depth, strict)
    }

    fn validate_items(&self, items: &Vec<usize>, n: usize, depth: usize, strict: bool) -> (r: Result<IntTree, ValError>)
        requires
            n < self.nodes@.len(),
            items@ == children(self.nodes@[n as int]),
            depth < MAX_DEPTH,
        ensures
            walk_matches(walk_items(self.nodes@, items@, items@.len(), depth as nat, strict), r),
            r matches Ok(t) ==> t matches IntTree::Branch(ts) && ts@.len() == items@.len() && forall|j: int|
                0 <= j < ts@.len() ==> tree_is(self.nodes@, items@[j] as int, (depth + 1) as nat, strict, #[trigger] ts@[j]),
        decreases MAX_DEPTH - depth, 0nat, 1nat,
    {
        let mut out: Vec<IntTree> = Vec::new();
        let mut errors: Vec<ValLineError> = Vec::new();
        let mut i: usize = 0;
        while i < items.len()
            invariant
                i <= items@.len(),
                n < self.nodes@.len(),
                items@ == children(self.nodes@[n as int]),
                depth < MAX_DEPTH,
                walk_items(self.nodes@, items@, i as nat, depth as nat, strict) == Some(
                    line_errors_view(errors@),
                ),
                errors@.len() == 0 ==> out@.len() == i && forall|j: int| 0 <= j < i ==> tree_is(
                    self.nodes@,
                    items@[j] as int,
                    (depth + 1) as nat,
                    strict,
                    #[trigger] out@[j],
                ),
            decreases items@.len() - i,
        {
            let c = items[i];
            let ghost before = errors@;
            match self.validate_tree(c, depth + 1, strict) {
                Ok(t) => {
                    if errors.len() == 0 {
                        out.push(t);
                    }
                    assert(prefix_seq(Seq::<LineErrorView>::empty(), LocSeg::Index(i as nat)) =~= Seq::<LineErrorView>::empty());
                    assert(line_errors_view(errors@) =~= line_errors_view(before) + Seq::<LineErrorView>::empty());
                },
                Err(ValError::LineErrors(found)) => {
                    collect_under(&mut errors, found, LocItem::I(i));
                    assert(errors@.len() > 0) by {
                        assert(line_errors_view(errors@).len() > 0);
                    }
                },
                Err(e) => {
                    proof {
                        lemma_items_fatal_after(self.nodes@, items@, i as nat, items@.len(), depth as nat, strict);
                    }
                    return Err(e);
                },
            }
            i = i + 1;
        }
        if errors.len() == 0 {
            Ok(IntTree::Branch(out))
        } else {
            Err(ValError::LineErrors(errors))
        }
    }
}

/// Once an item's walk cannot go on, neither can the walk of any longer run of items.
proof fn lemma_items_fatal_after(g: Seq<PyNode>, items: Seq<usize>, j: nat, k: nat, depth: nat, strict: bool)
    requires
        j < k,
        k <= items.len(),
        depth < MAX_DEPTH,
        walk(g, items[j as int] as int, depth + 1, strict) is None,
    ensures
        walk_items(g, items, k, depth, strict) is None,
    decreases k,
{
    if k > j + 1 {
        lemma_items_fatal_after(g, items, j, (k - 1) as nat, depth, strict);
    }
}

/// A path through the graph that comes back to where it started, each step going from a
/// container read as a list to one of its items.
pub open spec fn is_cycle(g: Seq<PyNode>, path: Seq<usize>, strict: bool) -> bool {
    &&& path.len() > 0
    &&& forall|i: int| 0 <= i < path.len() ==> #[trigger] path[i] < g.len()
    &&& forall|i: int| 0 <= i < path.len() ==> is_list_like(g[#[trigger] path[i] as int], strict)
    &&& forall|i: int| 0 <= i < path.len() ==> children(g[path[i] as int]).contains(
        #[trigger] path[(i + 1) % (path.len() as int)],
    )
}

/// Walking any object on a cycle, from any depth, ends in a fatal error and never in
/// collected line errors.
pub proof fn lemma_cycle_is_fatal(g: Seq<PyNode>, path: Seq<usize>, i: int, depth: nat, strict: bool)
    requires
        is_cycle(g, path, strict),
        0 <= i < path.len(),
    ensures
        walk(g, path[i] as int, depth, strict) is None,
    decreases MAX_DEPTH - depth,
{
    if depth < MAX_DEPTH {
        let n = path[i] as int;
        let next = (i + 1) % (path.len() as int);
        let ch = children(g[n]);
        assert(ch.contains(path[next]));
        let j = choose|j: int| 0 <= j < ch.len() && ch[j] == path[next];
        lemma_cycle_is_fatal(g, path, next, depth + 1, strict);
        lemma_items_fatal_after(g, ch, j as nat, ch.len(), depth, strict);
    }
}

} // verus!
