use pydantic_core::errors::{ErrorKind, ValError};
use pydantic_core::input_json::JsonValue;
use pydantic_core::input_string::StringInput;
use pydantic_core::number::Decimal;

fn dec(negative: bool, magnitude: u64, scale: u32) -> Decimal {
    Decimal::new(negative, magnitude, scale).unwrap()
}

fn text(s: &str) -> JsonValue {
    JsonValue::Str(s.to_string())
}

fn only_kind(e: ValError) -> ErrorKind {
    match e {
        ValError::LineErrors(v) => {
            assert_eq!(v.len(), 1);
            assert!(v[0].location.is_empty());
            v[0].kind
        }
        ValError::InternalErr(_) => panic!("fatal error"),
    }
}

fn error_value(e: ValError) -> String {
    match e {
        ValError::LineErrors(v) => v[0].input_value.clone(),
        ValError::InternalErr(_) => panic!("fatal error"),
    }
}

#[test]
fn float_to_int_lax_whole_number() {
    assert_eq!(JsonValue::Float(dec(false, 4, 0)).lax_int().ok(), Some(4));
}

#[test]
fn float_to_int_lax_fraction_rejected() {
    let r = JsonValue::Float(dec(false, 45, 1)).lax_int();
    assert_eq!(only_kind(r.err().unwrap()), ErrorKind::IntFromFloat);
}

#[test]
fn float_to_int_strict_rejected() {
    let r = JsonValue::Float(dec(false, 4, 0)).strict_int();
    assert_eq!(only_kind(r.err().unwrap()), ErrorKind::IntType);
}

#[test]
fn bool_tokens_lax() {
    assert_eq!(text("yes").lax_bool().ok(), Some(true));
    assert_eq!(text("0").lax_bool().ok(), Some(false));
    assert_eq!(text("YES").lax_bool().ok(), Some(true));
    assert_eq!(text("Off").lax_bool().ok(), Some(false));
    let r = text("maybe").lax_bool();
    assert_eq!(only_kind(r.err().unwrap()), ErrorKind::BoolParsing);
}

#[test]
fn bool_from_numbers_lax() {
    assert_eq!(JsonValue::Int(1).lax_bool().ok(), Some(true));
    assert_eq!(JsonValue::Int(0).lax_bool().ok(), Some(false));
    assert_eq!(only_kind(JsonValue::Int(2).lax_bool().err().unwrap()), ErrorKind::BoolType);
    assert_eq!(
        only_kind(JsonValue::Float(dec(false, 2, 0)).lax_bool().err().unwrap()),
        ErrorKind::BoolType
    );
    assert_eq!(JsonValue::Float(dec(false, 1, 0)).lax_bool().ok(), Some(true));
    assert_eq!(
        only_kind(JsonValue::Float(dec(false, 5, 1)).lax_bool().err().unwrap()),
        ErrorKind::BoolType
    );
    assert_eq!(only_kind(JsonValue::Null.lax_bool().err().unwrap()), ErrorKind::BoolType);
}

#[test]
fn bool_strict_only_native() {
    assert_eq!(JsonValue::Bool(true).strict_bool().ok(), Some(true));
    assert_eq!(only_kind(text("true").strict_bool().err().unwrap()), ErrorKind::BoolType);
    assert_eq!(only_kind(JsonValue::Int(1).validate_bool(true).err().unwrap()), ErrorKind::BoolType);
}

#[test]
fn int_lax_widening() {
    assert_eq!(JsonValue::Bool(true).lax_int().ok(), Some(1));
    assert_eq!(JsonValue::Bool(false).lax_int().ok(), Some(0));
    assert_eq!(text("-12").lax_int().ok(), Some(-12));
    assert_eq!(text("+7").lax_int().ok(), Some(7));
    assert_eq!(text("-9223372036854775808").lax_int().ok(), Some(i64::MIN));
    assert_eq!(text("9223372036854775807").lax_int().ok(), Some(i64::MAX));
    assert_eq!(only_kind(text("9223372036854775808").lax_int().err().unwrap()), ErrorKind::IntParsing);
    assert_eq!(only_kind(text("12a").lax_int().err().unwrap()), ErrorKind::IntParsing);
    assert_eq!(only_kind(text("").lax_int().err().unwrap()), ErrorKind::IntParsing);
    assert_eq!(only_kind(text("-").lax_int().err().unwrap()), ErrorKind::IntParsing);
    assert_eq!(only_kind(JsonValue::Null.lax_int().err().unwrap()), ErrorKind::IntType);
}

#[test]
fn int_strict_only_native() {
    assert_eq!(JsonValue::Int(5).strict_int().ok(), Some(5));
    assert_eq!(only_kind(text("5").strict_int().err().unwrap()), ErrorKind::IntType);
    assert_eq!(only_kind(JsonValue::Bool(true).validate_int(true).err().unwrap()), ErrorKind::IntType);
}

#[test]
fn float_coercions() {
    assert_eq!(JsonValue::Int(3).strict_float().ok(), Some(dec(false, 3, 0)));
    assert_eq!(JsonValue::Int(-3).strict_float().ok(), Some(dec(true, 3, 0)));
    assert_eq!(only_kind(JsonValue::Bool(true).strict_float().err().unwrap()), ErrorKind::FloatType);
    assert_eq!(JsonValue::Bool(true).lax_float().ok(), Some(dec(false, 1, 0)));
    assert_eq!(text("3.50").lax_float().ok(), Some(dec(false, 35, 1)));
    assert_eq!(text("-0.25").lax_float().ok(), Some(dec(true, 25, 2)));
    assert_eq!(text("-0.0").lax_float().ok(), Some(dec(false, 0, 0)));
    assert_eq!(text("12").lax_float().ok(), Some(dec(false, 12, 0)));
    assert_eq!(only_kind(text("abc").lax_float().err().unwrap()), ErrorKind::FloatParsing);
    assert_eq!(text("1.").lax_float().ok(), Some(dec(false, 1, 0)));
    assert_eq!(text(".5").lax_float().ok(), Some(dec(false, 5, 1)));
    assert_eq!(text("+.5").lax_float().ok(), Some(dec(false, 5, 1)));
    assert_eq!(only_kind(text(".").lax_float().err().unwrap()), ErrorKind::FloatParsing);
    assert_eq!(only_kind(text("1.2.3").lax_float().err().unwrap()), ErrorKind::FloatParsing);
    assert_eq!(only_kind(text("1.5").strict_float().err().unwrap()), ErrorKind::FloatType);
}

#[test]
fn float_text_with_exponent() {
    assert_eq!(text("1e5").lax_float().ok(), Some(dec(false, 100000, 0)));
    assert_eq!(text("1E+2").lax_float().ok(), Some(dec(false, 100, 0)));
    assert_eq!(text("2.5E-3").lax_float().ok(), Some(dec(false, 25, 4)));
    assert_eq!(text("1.50e1").lax_float().ok(), Some(dec(false, 15, 0)));
    assert_eq!(text("100e-2").lax_float().ok(), Some(dec(false, 1, 0)));
    assert_eq!(text("-1200e-5").lax_float().ok(), Some(dec(true, 12, 3)));
    assert_eq!(text("0e99999999999999999999999999999999").lax_float().ok(), Some(dec(false, 0, 0)));
    assert_eq!(text("-0.0e5").lax_float().ok(), Some(dec(false, 0, 0)));
    assert_eq!(text("9.223372036854775807e18").lax_float().ok(), Some(dec(false, 9223372036854775807, 0)));
    assert_eq!(text("-9.223372036854775808e18").lax_float().ok(), Some(dec(true, 9223372036854775808, 0)));
    assert_eq!(only_kind(text("9.223372036854775808e18").lax_float().err().unwrap()), ErrorKind::FloatParsing);
    assert_eq!(only_kind(text("1e19").lax_float().err().unwrap()), ErrorKind::FloatParsing);
    assert_eq!(only_kind(text("1e-19").lax_float().err().unwrap()), ErrorKind::FloatParsing);
    assert_eq!(text("1e-18").lax_float().ok(), Some(dec(false, 1, 18)));
    assert_eq!(only_kind(text("1e999999999999999999999999999999").lax_float().err().unwrap()), ErrorKind::FloatParsing);
    assert_eq!(only_kind(text("1e").lax_float().err().unwrap()), ErrorKind::FloatParsing);
    assert_eq!(only_kind(text("1e+").lax_float().err().unwrap()), ErrorKind::FloatParsing);
    assert_eq!(only_kind(text("e5").lax_float().err().unwrap()), ErrorKind::FloatParsing);
    assert_eq!(only_kind(text("1e5x").lax_float().err().unwrap()), ErrorKind::FloatParsing);
    assert_eq!(only_kind(text("inf").lax_float().err().unwrap()), ErrorKind::FloatParsing);
    assert_eq!(only_kind(text("nan").lax_float().err().unwrap()), ErrorKind::FloatParsing);
    let key = StringInput::new("1e3".to_string());
    assert_eq!(key.validate_float(false).ok(), Some(dec(false, 1000, 0)));
}

#[test]
fn decimal_canonical_form() {
    assert!(Decimal::new(false, 40, 1).is_none());
    assert!(Decimal::new(true, 0, 0).is_none());
    assert!(Decimal::new(false, 1, 19).is_none());
    assert!(Decimal::new(false, 9223372036854775808, 0).is_none());
    assert!(Decimal::new(true, 9223372036854775808, 0).is_some());
    assert_eq!(JsonValue::Float(dec(true, 9223372036854775808, 0)).lax_int().ok(), Some(i64::MIN));
}

#[test]
fn str_coercions() {
    assert_eq!(text("abc").strict_str().ok(), Some("abc".to_string()));
    assert_eq!(only_kind(JsonValue::Int(42).strict_str().err().unwrap()), ErrorKind::StrType);
    assert_eq!(JsonValue::Int(42).lax_str().ok(), Some("42".to_string()));
    assert_eq!(JsonValue::Int(-7).lax_str().ok(), Some("-7".to_string()));
    assert_eq!(JsonValue::Float(dec(false, 45, 1)).lax_str().ok(), Some("4.5".to_string()));
    assert_eq!(JsonValue::Float(dec(true, 5, 2)).lax_str().ok(), Some("-0.05".to_string()));
    assert_eq!(JsonValue::Float(dec(false, 4, 0)).lax_str().ok(), Some("4".to_string()));
    assert_eq!(only_kind(JsonValue::Bool(true).lax_str().err().unwrap()), ErrorKind::StrType);
}

#[test]
fn bytes_of_text() {
    assert_eq!(text("hé").validate_bytes(true).ok(), Some(vec![0x68, 0xc3, 0xa9]));
    assert_eq!(only_kind(JsonValue::Int(1).validate_bytes(false).err().unwrap()), ErrorKind::BytesType);
}

#[test]
fn arrays_serve_every_sequence_type() {
    let a = JsonValue::Array(vec![JsonValue::Int(1), JsonValue::Int(2)]);
    assert_eq!(a.validate_list(true).ok().map(|v| v.len()), Some(2));
    assert_eq!(a.validate_tuple(true).ok().map(|v| v.len()), Some(2));
    assert_eq!(a.validate_set(true).ok().map(|v| v.len()), Some(2));
    assert_eq!(a.validate_frozenset(true).ok().map(|v| v.len()), Some(2));
    let s = text("x");
    assert_eq!(only_kind(s.validate_list(false).err().unwrap()), ErrorKind::ListType);
    assert_eq!(only_kind(s.validate_tuple(false).err().unwrap()), ErrorKind::TupleType);
    assert_eq!(only_kind(s.validate_set(false).err().unwrap()), ErrorKind::SetType);
    assert_eq!(only_kind(s.validate_frozenset(false).err().unwrap()), ErrorKind::FrozenSetType);
    assert_eq!(only_kind(a.validate_dict(false).err().unwrap()), ErrorKind::DictType);
    let o = JsonValue::Object(vec![("k".to_string(), JsonValue::Null)]);
    assert_eq!(o.validate_dict(true).ok().map(|v| v.len()), Some(1));
}

#[test]
fn error_values_are_shown() {
    assert_eq!(error_value(text("abc").strict_int().err().unwrap()), "'abc'");
    assert_eq!(error_value(JsonValue::Null.strict_int().err().unwrap()), "None");
    assert_eq!(error_value(JsonValue::Bool(false).strict_int().err().unwrap()), "False");
    assert_eq!(error_value(JsonValue::Float(dec(false, 45, 1)).strict_int().err().unwrap()), "4.5");
    assert_eq!(error_value(JsonValue::Int(-3).strict_str().err().unwrap()), "-3");
    let nested = JsonValue::Array(vec![
        JsonValue::Int(1),
        text("a"),
        JsonValue::Array(vec![JsonValue::Bool(true)]),
        JsonValue::Array(vec![]),
    ]);
    assert_eq!(error_value(nested.strict_int().err().unwrap()), "[1, 'a', [True], []]");
    let obj = JsonValue::Object(vec![
        ("k".to_string(), JsonValue::Null),
        ("n".to_string(), JsonValue::Float(dec(true, 15, 1))),
    ]);
    assert_eq!(error_value(obj.strict_str().err().unwrap()), "{'k': None, 'n': -1.5}");
    assert_eq!(error_value(JsonValue::Object(vec![]).strict_str().err().unwrap()), "{}");
    assert!(JsonValue::Null.is_none());
    assert!(!JsonValue::Int(0).is_none());
}

#[test]
fn key_input_strict_and_lax() {
    let k = StringInput::new("12".to_string());
    assert_eq!(only_kind(k.validate_int(true).err().unwrap()), ErrorKind::IntType);
    assert_eq!(k.validate_int(false).ok(), Some(12));
    assert_eq!(k.validate_float(false).ok(), Some(dec(false, 12, 0)));
    assert_eq!(only_kind(k.validate_float(true).err().unwrap()), ErrorKind::FloatType);
    assert_eq!(k.validate_str(true).ok(), Some("12".to_string()));
    assert!(!k.is_none());
    let y = StringInput::new("on".to_string());
    assert_eq!(y.validate_bool(false).ok(), Some(true));
    assert_eq!(only_kind(y.validate_bool(true).err().unwrap()), ErrorKind::BoolType);
    let n = StringInput::new("nope".to_string());
    assert_eq!(only_kind(n.validate_bool(false).err().unwrap()), ErrorKind::BoolParsing);
    assert_eq!(only_kind(n.validate_int(false).err().unwrap()), ErrorKind::IntParsing);
    assert_eq!(only_kind(n.validate_dict(false).err().unwrap()), ErrorKind::DictType);
    assert_eq!(only_kind(n.validate_list(false).err().unwrap()), ErrorKind::ListType);
    assert_eq!(error_value(n.validate_list(false).err().unwrap()), "'nope'");
}
