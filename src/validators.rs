use vstd::prelude::*;
use vstd::string::*;
use crate::errors::{
    line_errors_view, prefix_all, prefixed, ErrorKind, LineErrorView, LocItem, LocSeg, ValError,
    ValLineError,
};
use crate::input_json::{json_bool, json_float, json_int, json_repr, json_str, JsonValue};
use crate::number::{Decimal, DecimalView};

verus! {

/// A primitive target type.
#[derive(PartialEq, Eq, Structural, Clone, Copy, Debug)]
pub enum Scalar {
    Int,
    Bool,
    Float,
    Str,
}

/// A validated primitive value.
pub enum Value {
    Int(i64),
    Bool(bool),
    Float(Decimal),
    Str(String),
}

/// The mathematical form of a validated primitive value.
pub enum ValueView {
    Int(int),
    Bool(bool),
    Float(DecimalView),
    Str(Seq<char>),
}

impl View for Value {
    type V = ValueView;

    open spec fn view(&self) -> ValueView {
        match self {
            Value::Int(i) => ValueView::Int(*i as int),
            Value::Bool(b) => ValueView::Bool(*b),
            Value::Float(d) => ValueView::Float(d@),
            Value::Str(s) => ValueView::Str(s@),
        }
    }
}

/// What coercing a document value to a primitive type gives.
pub open spec fn scalar_outcome(sc: Scalar, v: JsonValue, strict: bool) -> Result<ValueView, ErrorKind> {
    match sc {
        Scalar::Int => match json_int(v, strict) {
            Ok(i) => Ok(ValueView::Int(i as int)),
            Err(k) => Err(k),
        },
        Scalar::Bool => match json_bool(v, strict) {
            Ok(b) => Ok(ValueView::Bool(b)),
            Err(k) => Err(k),
        },
        Scalar::Float => match json_float(v, strict) {
            Ok(d) => Ok(ValueView::Float(d)),
            Err(k) => Err(k),
        },
        Scalar::Str => match json_str(v, strict) {
            Ok(s) => Ok(ValueView::Str(s)),
            Err(k) => Err(k),
        },
    }
}

/// The line errors of coercing one value to a primitive type: none, or one at the root.
pub open spec fn scalar_errors(sc: Scalar, v: JsonValue, strict: bool) -> Seq<LineErrorView> {
    match scalar_outcome(sc, v, strict) {
        Ok(_) => Seq::empty(),
        Err(k) => seq![LineErrorView { kind: k, location: Seq::empty(), input_value: json_repr(v) }],
    }
}

/// Line errors moved one level down, under `seg`.
pub open spec fn prefix_seq(s: Seq<LineErrorView>, seg: LocSeg) -> Seq<LineErrorView> {
    s.map_values(|e: LineErrorView| prefixed(e, seg))
}

/// The line errors of the items of an array, each under its index, in index order.
pub open spec fn items_errors(sc: Scalar, items: Seq<JsonValue>, strict: bool) -> Seq<LineErrorView>
    decreases items.len(),
{
    if items.len() == 0 {
        Seq::empty()
    } else {
        items_errors(sc, items.drop_last(), strict) + prefix_seq(
            scalar_errors(sc, items.last(), strict),
            LocSeg::Index((items.len() - 1) as nat),
        )
    }
}

/// The line errors of validating a value as a list of a primitive type.
pub open spec fn list_errors(sc: Scalar, v: JsonValue, strict: bool) -> Seq<LineErrorView> {
    match v {
        JsonValue::Array(a) => items_errors(sc, a@, strict),
        _ => seq![
            LineErrorView { kind: ErrorKind::ListType, location: Seq::empty(), input_value: json_repr(v) },
        ],
    }
}

/// Whether an outcome holds the given line errors.
pub open spec fn fails_with<T>(r: Result<T, ValError>, errs: Seq<LineErrorView>) -> bool {
    r matches Err(ValError::LineErrors(v)) && line_errors_view(v@) == errs
}

/// Coerces one document value to a primitive type.
pub fn validate_scalar(sc: Scalar, input: &JsonValue, strict: bool) -> (r: Result<Value, ValError>)
    ensures
        match scalar_outcome(sc, *input, strict) {
            Ok(x) => r matches Ok(y) && y@ == x,
            Err(_) => fails_with(r, scalar_errors(sc, *input, strict)),
        },
{
    match sc {
        Scalar::Int => match input.validate_int(strict) {
            Ok(i) => Ok(Value::Int(i)),
            Err(e) => Err(e),
        },
        Scalar::Bool => match input.validate_bool(strict) {
            Ok(b) => Ok(Value::Bool(b)),
            Err(e) => Err(e),
        },
        Scalar::Float => match input.validate_float(strict) {
            Ok(d) => Ok(Value::Float(d)),
            Err(e) => Err(e),
        },
        Scalar::Str => match input.validate_str(strict) {
            Ok(s) => Ok(Value::Str(s)),
            Err(e) => Err(e),
        },
    }
}

/// Validates every item of an array as a primitive type. A failing item does not stop the
/// walk: the line errors of all items come back together, each under its index.
pub fn validate_list_of(sc: Scalar, input: &JsonValue, strict: bool) -> (r: Result<Vec<Value>, ValError>)
    ensures
        list_errors(sc, *input, strict).len() == 0 ==> (r matches Ok(out) && input matches JsonValue::Array(a)
            && out@.len() == a@.len() && forall|i: int| 0 <= i < a@.len() ==>
                scalar_outcome(sc, #[trigger] a@[i], strict) == Ok::<ValueView, ErrorKind>(out@[i]@)),
        list_errors(sc, *input, strict).len() > 0 ==> fails_with(r, list_errors(sc, *input, strict)),
{
    let items = match input.validate_list(strict) {
        Ok(a) => a,
        Err(e) => {
            return Err(e);
        },
    };
    let mut out: Vec<Value> = Vec::new();
    let mut errors: Vec<ValLineError> = Vec::new();
    let mut i: usize = 0;
    while i < items.len()
        invariant
            i <= items@.len(),
            *input == JsonValue::Array(*items),
            line_errors_view(errors@) == items_errors(sc, items@.subrange(0, i as int), strict),
            errors@.len() == 0 ==> out@.len() == i && forall|j: int| 0 <= j < i ==>
                scalar_outcome(sc, #[trigger] items@[j], strict) == Ok::<ValueView, ErrorKind>(out@[j]@),
        decreases items@.len() - i,
    {
        let ghost before = errors@;
        let ghost sub = items@.subrange(0, i + 1);
        assert(sub.drop_last() =~= items@.subrange(0, i as int));
        assert(sub.last() == items@[i as int]);
        match validate_scalar(sc, &items[i], strict) {
            Ok(v) => {
                if errors.len() == 0 {
                    out.push(v);
                }
                assert(scalar_errors(sc, items@[i as int], strict) =~= Seq::<LineErrorView>::empty());
                assert(prefix_seq(Seq::<LineErrorView>::empty(), LocSeg::Index(i as nat)) =~= Seq::<LineErrorView>::empty());
                assert(items_errors(sc, sub, strict) =~= items_errors(sc, items@.subrange(0, i as int), strict));
            },
            Err(ValError::LineErrors(v)) => {
                let ghost ev = v@;
                let mut moved = prefix_all(v, &LocItem::I(i));
                let ghost mv = moved@;
                errors.append(&mut moved);
                proof {
                    let p = prefix_seq(scalar_errors(sc, items@[i as int], strict), LocSeg::Index(i as nat));
                    let se = scalar_errors(sc, items@[i as int], strict);
                    assert(line_errors_view(ev) == se);
                    assert(line_errors_view(mv) == p) by {
                        assert forall|j: int| 0 <= j < p.len() implies #[trigger] line_errors_view(mv)[j] == p[j] by {
                            assert(mv[j]@ == prefixed(ev[j]@, LocSeg::Index(i as nat)));
                            assert(ev[j]@ == line_errors_view(ev)[j]);
                        }
                        assert(line_errors_view(mv) =~= p);
                    }
                    assert(line_errors_view(errors@) =~= line_errors_view(before) + p);
                }
            },
            Err(e) => {
                return Err(e);
            },
        }
        i = i + 1;
    }
    assert(items@.subrange(0, items@.len() as int) =~= items@);
    if errors.len() == 0 {
        Ok(out)
    } else {
        Err(ValError::LineErrors(errors))
    }
}

/// Adds line errors, moved one level down under `item`, to those collected so far.
pub fn collect_under(errors: &mut Vec<ValLineError>, found: Vec<ValLineError>, item: LocItem)
    ensures
        line_errors_view(final(errors)@) == line_errors_view(old(errors)@) + prefix_seq(
            line_errors_view(found@),
            item@,
        ),
{
    let ghost seg = item@;
    let ghost ev = found@;
    let mut moved = prefix_all(found, &item);
    let ghost mv = moved@;
    errors.append(&mut moved);
    let ghost p = prefix_seq(line_errors_view(ev), seg);
    assert(line_errors_view(mv) == p) by {
        assert forall|j: int| 0 <= j < p.len() implies #[trigger] line_errors_view(mv)[j] == p[j] by {
            assert(mv[j]@ == prefixed(ev[j]@, seg));
            assert(ev[j]@ == line_errors_view(ev)[j]);
        }
        assert(line_errors_view(mv) =~= p);
    }
    assert(line_errors_view(final(errors)@) =~= line_errors_view(old(errors)@) + p);
}

/// The declared type of a record field.
#[derive(PartialEq, Eq, Structural, Clone, Copy, Debug)]
pub enum FieldType {
    One(Scalar),
    ListOf(Scalar),
}

/// A named, typed field of a record.
pub struct Field {
    pub name: String,
    pub field_type: FieldType,
}

/// The validated value of a record field.
pub enum FieldValue {
    One(Value),
    Many(Vec<Value>),
}

/// The value an object holds under `name`; of repeated keys the last counts.
pub open spec fn lookup(entries: Seq<(String, JsonValue)>, name: Seq<char>) -> Option<JsonValue>
    decreases entries.len(),
{
    if entries.len() == 0 {
        None
    } else if entries.last().0@ == name {
        Some(entries.last().1)
    } else {
        lookup(entries.drop_last(), name)
    }
}

/// The line errors of one field of a record, under the field's name.
pub open spec fn field_errors(
    f: Field,
    obj: JsonValue,
    entries: Seq<(String, JsonValue)>,
    strict: bool,
) -> Seq<LineErrorView> {
    match lookup(entries, f.name@) {
        None => seq![
            LineErrorView {
                kind: ErrorKind::Missing,
                location: seq![LocSeg::Key(f.name@)],
                input_value: json_repr(obj),
            },
        ],
        Some(v) => prefix_seq(
            match f.field_type {
                FieldType::One(sc) => scalar_errors(sc, v, strict),
                FieldType::ListOf(sc) => list_errors(sc, v, strict),
            },
            LocSeg::Key(f.name@),
        ),
    }
}

/// The line errors of the fields of a record, in field order.
pub open spec fn fields_errors(
    fields: Seq<Field>,
    obj: JsonValue,
    entries: Seq<(String, JsonValue)>,
    strict: bool,
) -> Seq<LineErrorView>
    decreases fields.len(),
{
    if fields.len() == 0 {
        Seq::empty()
    } else {
        fields_errors(fields.drop_last(), obj, entries, strict) + field_errors(
            fields.last(),
            obj,
            entries,
            strict,
        )
    }
}

/// The line errors of validating a value as a record with the given fields.
pub open spec fn record_errors(fields: Seq<Field>, v: JsonValue, strict: bool) -> Seq<LineErrorView> {
    match v {
        JsonValue::Object(o) => fields_errors(fields, v, o@, strict),
        _ => seq![
            LineErrorView { kind: ErrorKind::DictType, location: Seq::empty(), input_value: json_repr(v) },
        ],
    }
}

/// Whether `out` is the validated form of the items `a`.
pub open spec fn list_values(sc: Scalar, a: Seq<JsonValue>, out: Seq<Value>, strict: bool) -> bool {
    out.len() == a.len() && forall|i: int| 0 <= i < a.len() ==>
        scalar_outcome(sc, #[trigger] a[i], strict) == Ok::<ValueView, ErrorKind>(out[i]@)
}

/// Whether `out` is the validated form of the value `v` of a field.
pub open spec fn field_value(ty: FieldType, v: JsonValue, out: FieldValue, strict: bool) -> bool {
    match ty {
        FieldType::One(sc) => out matches FieldValue::One(x)
            && scalar_outcome(sc, v, strict) == Ok::<ValueView, ErrorKind>(x@),
        FieldType::ListOf(sc) => out matches FieldValue::Many(xs) && v matches JsonValue::Array(a)
            && list_values(sc, a@, xs@, strict),
    }
}

/// Whether the object holds field `f` and `out` is its validated value.
pub open spec fn field_ok(f: Field, entries: Seq<(String, JsonValue)>, out: FieldValue, strict: bool) -> bool {
    match lookup(entries, f.name@) {
        Some(v) => field_value(f.field_type, v, out, strict),
        None => false,
    }
}

/// Finds the value an object holds under `name`.
pub fn get_item<'a>(entries: &'a Vec<(String, JsonValue)>, name: &String) -> (r: Option<&'a JsonValue>)
    ensures
        match lookup(entries@, name@) {
            None => r is None,
            Some(v) => r matches Some(x) && *x == v,
        },
{
    let mut i: usize = entries.len();
    assert(entries@.take(i as int) =~= entries@);
    while i > 0
        invariant
            i <= entries@.len(),
            lookup(entries@, name@) == lookup(entries@.take(i as int), name@),
        decreases i,
    {
        assert(entries@.take(i as int).drop_last() =~= entries@.take(i - 1));
        if entries[i - 1].0 == *name {
            return Some(&entries[i - 1].1);
        }
        i = i - 1;
    }
    None
}

/// Validates an object as a record with the given fields. A failing field does not stop
/// the walk: the line errors of all fields come back together, each under its field's name,
/// and a field the object lacks is reported as missing.
pub fn validate_record(fields: &Vec<Field>, input: &JsonValue, strict: bool) -> (r: Result<
    Vec<FieldValue>,
    ValError,
>)
    ensures
        record_errors(fields@, *input, strict).len() == 0 ==> (r matches Ok(out)
            && input matches JsonValue::Object(o) && out@.len() == fields@.len() && forall|i: int|
            0 <= i < fields@.len() ==> field_ok(#[trigger] fields@[i], o@, out@[i], strict)),
        record_errors(fields@, *input, strict).len() > 0 ==> fails_with(
            r,
            record_errors(fields@, *input, strict),
        ),
{
    let entries = match input.validate_dict(strict) {
        Ok(o) => o,
        Err(e) => {
            return Err(e);
        },
    };
    let mut out: Vec<FieldValue> = Vec::new();
    let mut errors: Vec<ValLineError> = Vec::new();
    let mut i: usize = 0;
    while i < fields.len()
        invariant
            i <= fields@.len(),
            *input == JsonValue::Object(*entries),
            line_errors_view(errors@) == fields_errors(fields@.subrange(0, i as int), *input, entries@, strict),
            errors@.len() == 0 ==> out@.len() == i && forall|j: int| 0 <= j < i ==>
                field_ok(#[trigger] fields@[j], entries@, out@[j], strict),
        decreases fields@.len() - i,
    {
        let ghost before = errors@;
        let ghost sub = fields@.subrange(0, i + 1);
        assert(sub.drop_last() =~= fields@.subrange(0, i as int));
        assert(sub.last() == fields@[i as int]);
        let field = &fields[i];
        match get_item(entries, &field.name) {
            None => {
                let mut e = ValLineError::new(ErrorKind::Missing, input.as_error_value());
                e.with_outer_location(LocItem::S(field.name.clone()));
                errors.push(e);
                proof {
                    assert(e@.location =~= seq![LocSeg::Key(field.name@)]);
                    assert(line_errors_view(errors@) =~= line_errors_view(before) + seq![e@]);
                }
            },
            Some(v) => {
                match field.field_type {
                    FieldType::One(sc) => {
                        match validate_scalar(sc, v, strict) {
                            Ok(x) => {
                                if errors.len() == 0 {
                                    out.push(FieldValue::One(x));
                                    assert(field_ok(fields@[i as int], entries@, out@[i as int], strict));
                                }
                                assert(prefix_seq(Seq::<LineErrorView>::empty(), LocSeg::Key(field.name@)) =~= Seq::<LineErrorView>::empty());
                                assert(line_errors_view(errors@) =~= line_errors_view(before) + Seq::<LineErrorView>::empty());
                            },
                            Err(ValError::LineErrors(found)) => {
                                collect_under(&mut errors, found, LocItem::S(field.name.clone()));
                                assert(errors@.len() > 0) by {
                                    assert(line_errors_view(errors@).len() > 0);
                                }
                            },
                            Err(e) => {
                                return Err(e);
                            },
                        }
                    },
                    FieldType::ListOf(sc) => {
                        match validate_list_of(sc, v, strict) {
                            Ok(xs) => {
                                if errors.len() == 0 {
                                    out.push(FieldValue::Many(xs));
                                    assert(field_ok(fields@[i as int], entries@, out@[i as int], strict));
                                }
                                assert(list_errors(sc, *v, strict).len() == 0);
                                assert(list_errors(sc, *v, strict) =~= Seq::<LineErrorView>::empty());
                                assert(prefix_seq(Seq::<LineErrorView>::empty(), LocSeg::Key(field.name@)) =~= Seq::<LineErrorView>::empty());
                                assert(line_errors_view(errors@) =~= line_errors_view(before) + Seq::<LineErrorView>::empty());
                            },
                            Err(ValError::LineErrors(found)) => {
                                collect_under(&mut errors, found, LocItem::S(field.name.clone()));
                                assert(errors@.len() > 0) by {
                                    assert(line_errors_view(errors@).len() > 0);
                                }
                            },
                            Err(e) => {
                                return Err(e);
                            },
                        }
                    },
                }
            },
        }
        i = i + 1;
    }
    assert(fields@.subrange(0, fields@.len() as int) =~= fields@);
    if errors.len() == 0 {
        Ok(out)
    } else {
        Err(ValError::LineErrors(errors))
    }
}

/// Every line error of a record lies under the name of one of its fields: each field's
/// failures are reported at that field's own path.
pub proof fn lemma_record_errors_located(
    fields: Seq<Field>,
    obj: JsonValue,
    entries: Seq<(String, JsonValue)>,
    strict: bool,
    k: int,
)
    requires
        0 <= k < fields_errors(fields, obj, entries, strict).len(),
    ensures
        exists|i: int|
            0 <= i < fields.len() && fields_errors(fields, obj, entries, strict)[k].location.len() > 0
                && fields_errors(fields, obj, entries, strict)[k].location[0] == LocSeg::Key(
                #[trigger] fields[i].name@,
            ),
    decreases fields.len(),
{
    let before = fields_errors(fields.drop_last(), obj, entries, strict);
    let last = fields.last();
    if k < before.len() {
        lemma_record_errors_located(fields.drop_last(), obj, entries, strict, k);
        let i = choose|i: int|
            0 <= i < fields.drop_last().len() && before[k].location.len() > 0
                && before[k].location[0] == LocSeg::Key(#[trigger] fields.drop_last()[i].name@);
        assert(fields.drop_last()[i] == fields[i]);
    } else {
        let e = field_errors(last, obj, entries, strict)[k - before.len()];
        assert(e.location.len() > 0 && e.location[0] == LocSeg::Key(last.name@));
        assert(fields[fields.len() - 1] == last);
    }
}

/// Every line error of an array's items lies under the index of an item that fails, and
/// nothing is reported for the items that pass.
pub proof fn lemma_items_errors_located(sc: Scalar, items: Seq<JsonValue>, strict: bool, k: int)
    requires
        0 <= k < items_errors(sc, items, strict).len(),
    ensures
        exists|i: int|
            0 <= i < items.len() && scalar_outcome(sc, #[trigger] items[i], strict) is Err
                && items_errors(sc, items, strict)[k] == prefixed(
                scalar_errors(sc, items[i], strict)[0],
                LocSeg::Index(i as nat),
            ),
    decreases items.len(),
{
    let before = items_errors(sc, items.drop_last(), strict);
    if k < before.len() {
        lemma_items_errors_located(sc, items.drop_last(), strict, k);
        let i = choose|i: int|
            0 <= i < items.drop_last().len() && scalar_outcome(sc, #[trigger] items.drop_last()[i], strict) is Err
                && before[k] == prefixed(
                scalar_errors(sc, items.drop_last()[i], strict)[0],
                LocSeg::Index(i as nat),
            );
        assert(items.drop_last()[i] == items[i]);
    } else {
        let last = items.len() - 1;
        assert(items[last] == items.last());
    }
}

} // verus!
