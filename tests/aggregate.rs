use pydantic_core::errors::{ErrorKind, FatalError, LocItem, ValError, ValLineError};
use pydantic_core::input_json::JsonValue;
use pydantic_core::validation_exception::{
    pretty_py_line_errors, PyLineError, RaisedError, ValidationError,
};
use pydantic_core::validators::{
    validate_list_of, validate_record, Field, FieldType, FieldValue, Scalar, Value,
};

fn text(s: &str) -> JsonValue {
    JsonValue::Str(s.to_string())
}

fn raise(title: &str, e: ValError) -> ValidationError {
    match ValidationError::from_val_error(title.to_string(), e) {
        RaisedError::Validation(ve) => ve,
        RaisedError::Fatal(_) => panic!("fatal error"),
    }
}

fn loc_text(loc: &[LocItem]) -> String {
    let mut out = Vec::new();
    for item in loc {
        match item {
            LocItem::S(s) => out.push(s.clone()),
            LocItem::I(i) => out.push(i.to_string()),
        }
    }
    out.join("/")
}

fn field(name: &str, field_type: FieldType) -> Field {
    Field { name: name.to_string(), field_type }
}

#[test]
fn record_collects_every_field_error() {
    let fields = vec![
        field("a", FieldType::One(Scalar::Int)),
        field("b", FieldType::One(Scalar::Bool)),
        field("c", FieldType::One(Scalar::Str)),
    ];
    let input = JsonValue::Object(vec![
        ("a".to_string(), text("x")),
        ("b".to_string(), text("maybe")),
        ("c".to_string(), text("fine")),
    ]);
    let ve = raise("Model", validate_record(&fields, &input, false).err().unwrap());
    assert_eq!(ve.error_count(), 2);
    let records = ve.errors();
    assert_eq!(records[0].kind, ErrorKind::IntParsing);
    assert_eq!(loc_text(&records[0].loc), "a");
    assert_eq!(records[1].kind, ErrorKind::BoolParsing);
    assert_eq!(loc_text(&records[1].loc), "b");
    assert_eq!(records[1].input_value, "'maybe'");
    assert_eq!(records[1].message, "Input should be a valid boolean, unable to interpret input");
}

#[test]
fn record_reports_missing_field() {
    let fields = vec![field("a", FieldType::One(Scalar::Int)), field("b", FieldType::One(Scalar::Int))];
    let input = JsonValue::Object(vec![("a".to_string(), JsonValue::Int(1))]);
    let ve = raise("Model", validate_record(&fields, &input, true).err().unwrap());
    let records = ve.errors();
    assert_eq!(records.len(), 1);
    assert_eq!(records[0].kind, ErrorKind::Missing);
    assert_eq!(loc_text(&records[0].loc), "b");
}

#[test]
fn record_valid_values() {
    let fields = vec![field("a", FieldType::One(Scalar::Int)), field("xs", FieldType::ListOf(Scalar::Int))];
    let input = JsonValue::Object(vec![
        ("a".to_string(), JsonValue::Int(1)),
        ("xs".to_string(), JsonValue::Array(vec![text("2"), JsonValue::Bool(true)])),
        ("a".to_string(), JsonValue::Int(5)),
    ]);
    let out = validate_record(&fields, &input, false).ok().unwrap();
    assert!(matches!(out[0], FieldValue::One(Value::Int(5))));
    match &out[1] {
        FieldValue::Many(xs) => {
            assert!(matches!(xs[..], [Value::Int(2), Value::Int(1)]));
        }
        FieldValue::One(_) => panic!("expected a list"),
    }
}

#[test]
fn record_needs_mapping() {
    let fields = vec![field("a", FieldType::One(Scalar::Int))];
    let ve = raise("Model", validate_record(&fields, &JsonValue::Int(3), false).err().unwrap());
    let records = ve.errors();
    assert_eq!(records.len(), 1);
    assert_eq!(records[0].kind, ErrorKind::DictType);
    assert!(records[0].loc.is_empty());
}

#[test]
fn list_error_located_at_index() {
    let input = JsonValue::Array(vec![JsonValue::Int(1), text("x")]);
    let ve = raise("List", validate_list_of(Scalar::Int, &input, true).err().unwrap());
    let records = ve.errors();
    assert_eq!(records.len(), 1);
    assert_eq!(loc_text(&records[0].loc), "1");
    assert!(matches!(records[0].loc[0], LocItem::I(1)));
}

#[test]
fn nested_list_error_located_under_key() {
    let fields = vec![field("items", FieldType::ListOf(Scalar::Int))];
    let input = JsonValue::Object(vec![(
        "items".to_string(),
        JsonValue::Array(vec![JsonValue::Int(1), text("x")]),
    )]);
    let ve = raise("Model", validate_record(&fields, &input, true).err().unwrap());
    let records = ve.errors();
    assert_eq!(records.len(), 1);
    assert_eq!(loc_text(&records[0].loc), "items/1");
    assert!(ve.display().contains("\nitems[1] Input should be a valid integer [kind=int_type"));
}

#[test]
fn list_of_floats_valid() {
    let input = JsonValue::Array(vec![JsonValue::Int(1), text("2.5")]);
    let out = validate_list_of(Scalar::Float, &input, false).ok().unwrap();
    assert_eq!(out.len(), 2);
    let input = JsonValue::Array(vec![JsonValue::Int(1), text("2.5")]);
    let ve = raise("List", validate_list_of(Scalar::Float, &input, true).err().unwrap());
    assert_eq!(ve.errors()[0].kind, ErrorKind::FloatType);
}

#[test]
fn long_input_value_is_cut() {
    let long: String = "abcdefghij".repeat(6);
    let mut e = ValLineError::new(ErrorKind::IntType, long.clone());
    e.with_outer_location(LocItem::S("f".to_string()));
    let line = PyLineError::from_val_line_error(e).pretty();
    let shown = format!("{}...{}", &long[0..25], &long[long.len() - 24..]);
    assert_eq!(
        line,
        format!("f Input should be a valid integer [kind=int_type, input_value={}]", shown)
    );
}

#[test]
fn short_input_value_is_whole() {
    let v: String = "x".repeat(50);
    let e = ValLineError::new(ErrorKind::StrType, v.clone());
    let line = PyLineError::from_val_line_error(e).pretty();
    assert_eq!(line, format!(" Input should be a valid string [kind=str_type, input_value={}]", v));
}

#[test]
fn display_header_and_lines() {
    let mut a = ValLineError::new(ErrorKind::IntType, "'x'".to_string());
    a.with_outer_location(LocItem::I(3));
    a.with_outer_location(LocItem::S("items".to_string()));
    let b = ValLineError::new(ErrorKind::Missing, "{...}".to_string());
    let ve = raise("Model", ValError::LineErrors(vec![a, b]));
    assert_eq!(
        ve.display(),
        "2 validation errors for Model\n\
         items[3] Input should be a valid integer [kind=int_type, input_value='x']\n \
         Field required [kind=missing, input_value={...}]"
    );
    let one = raise("M", ValError::new(ErrorKind::BoolType, "None".to_string()));
    assert_eq!(
        one.display(),
        "1 validation error for M\n Input should be a valid boolean [kind=bool_type, input_value=None]"
    );
    assert_eq!(one.title(), "M");
}

#[test]
fn export_round_trip_renders_the_same() {
    let fields = vec![field("a", FieldType::One(Scalar::Int)), field("b", FieldType::ListOf(Scalar::Bool))];
    let input = JsonValue::Object(vec![
        ("a".to_string(), text("x")),
        ("b".to_string(), JsonValue::Array(vec![text("yes"), JsonValue::Int(7)])),
    ]);
    let ve = raise("Model", validate_record(&fields, &input, false).err().unwrap());
    let again = ValidationError::from_records(ve.errors(), "Model".to_string());
    assert_eq!(again.error_count(), ve.error_count());
    assert_eq!(again.display(), ve.display());
    let back = raise("Model", again.into_val_error());
    assert_eq!(back.display(), ve.display());
}

#[test]
fn fatal_error_is_not_aggregated() {
    match ValidationError::from_val_error("Model".to_string(), ValError::InternalErr(FatalError::RecursionLimit)) {
        RaisedError::Fatal(f) => assert_eq!(f, FatalError::RecursionLimit),
        RaisedError::Validation(_) => panic!("aggregated a fatal error"),
    }
}

#[test]
fn lines_joined_in_order() {
    let a = PyLineError::from_val_line_error(ValLineError::new(ErrorKind::IntType, "1".to_string()));
    let b = PyLineError::from_val_line_error(ValLineError::new(ErrorKind::StrType, "2".to_string()));
    let s = pretty_py_line_errors(&vec![a, b]);
    assert_eq!(s.lines().count(), 2);
    assert!(s.starts_with(" Input should be a valid integer"));
}

#[test]
fn awkward_keys_are_quoted_in_locations() {
    let mut a = ValLineError::new(ErrorKind::IntType, "1".to_string());
    a.with_outer_location(LocItem::S("x[1]".to_string()));
    a.with_outer_location(LocItem::S("a.b".to_string()));
    let line = PyLineError::from_val_line_error(a).pretty();
    assert!(line.starts_with("['a.b']['x[1]'] Input"));
    let mut b = ValLineError::new(ErrorKind::IntType, "1".to_string());
    b.with_outer_location(LocItem::S("it's".to_string()));
    b.with_outer_location(LocItem::I(0));
    b.with_outer_location(LocItem::S("k_1".to_string()));
    let line = PyLineError::from_val_line_error(b).pretty();
    assert!(line.starts_with("k_1[0]['it\\'s'] Input"));
    let mut c = ValLineError::new(ErrorKind::IntType, "1".to_string());
    c.with_outer_location(LocItem::S("".to_string()));
    assert!(PyLineError::from_val_line_error(c).pretty().starts_with("[''] Input"));
}
