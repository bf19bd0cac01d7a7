use pydantic_core::errors::{ErrorKind, ValError};
use pydantic_core::input_json::JsonValue;
use pydantic_core::input_string::StringInput;
use pydantic_core::number::Decimal;
use pydantic_core::temporal::{
    datetime_from_timestamp, parse_date, parse_duration, parse_time, time_from_seconds, Date,
    DateTime, Duration, Time,
};

fn text(s: &str) -> JsonValue {
    JsonValue::Str(s.to_string())
}

fn kind(e: ValError) -> ErrorKind {
    match e {
        ValError::LineErrors(v) => v[0].kind,
        ValError::InternalErr(_) => panic!("fatal error"),
    }
}

fn date(year: u16, month: u8, day: u8) -> Date {
    Date { year, month, day }
}

fn time(hour: u8, minute: u8, second: u8) -> Time {
    Time { hour, minute, second, microsecond: 0 }
}

#[test]
fn date_text_layout() {
    assert_eq!(parse_date("2024-02-29"), Some(date(2024, 2, 29)));
    assert_eq!(parse_date("2023-02-29"), None);
    assert_eq!(parse_date("1900-02-29"), None);
    assert_eq!(parse_date("2000-02-29"), Some(date(2000, 2, 29)));
    assert_eq!(parse_date("2024-13-01"), None);
    assert_eq!(parse_date("0000-01-01"), None);
    assert_eq!(parse_date("2024-1-01"), None);
    assert_eq!(parse_date("2024-01-01T00:00:00"), None);
}

#[test]
fn json_date_strict_and_errors() {
    assert_eq!(text("2022-06-08").validate_date(true).ok(), Some(date(2022, 6, 8)));
    assert_eq!(kind(text("2022-06-08x").validate_date(false).err().unwrap()), ErrorKind::DateParsing);
    assert_eq!(kind(JsonValue::Int(5).validate_date(false).err().unwrap()), ErrorKind::DateType);
}

#[test]
fn date_fallback_through_datetime() {
    assert_eq!(JsonValue::Int(86400).date_via_datetime().ok(), Some(date(1970, 1, 2)));
    assert_eq!(text("2022-06-08T00:00:00").date_via_datetime().ok(), Some(date(2022, 6, 8)));
    assert_eq!(
        kind(text("2022-06-08T10:00:00").date_via_datetime().err().unwrap()),
        ErrorKind::DateParsing
    );
    assert_eq!(kind(JsonValue::Int(1).date_via_datetime().err().unwrap()), ErrorKind::DateParsing);
}

#[test]
fn time_text_and_seconds() {
    assert_eq!(parse_time("23:59:59"), Some(time(23, 59, 59)));
    assert_eq!(parse_time("24:00:00"), None);
    assert_eq!(time_from_seconds(3725), Some(time(1, 2, 5)));
    assert_eq!(time_from_seconds(86400), None);
    assert_eq!(time_from_seconds(-1), None);
    assert_eq!(text("12:30:00").strict_time().ok(), Some(time(12, 30, 0)));
    assert_eq!(kind(JsonValue::Int(3725).strict_time().err().unwrap()), ErrorKind::TimeType);
    assert_eq!(JsonValue::Int(3725).lax_time().ok(), Some(time(1, 2, 5)));
    assert_eq!(kind(JsonValue::Int(90000).lax_time().err().unwrap()), ErrorKind::TimestampRange);
    let f = JsonValue::Float(Decimal::new(false, 37255, 1).unwrap());
    assert_eq!(f.lax_time().ok(), Some(Time { hour: 1, minute: 2, second: 5, microsecond: 500000 }));
    let g = JsonValue::Float(Decimal::new(false, 1234567, 7).unwrap());
    assert_eq!(g.lax_time().ok(), Some(Time { hour: 0, minute: 0, second: 0, microsecond: 123456 }));
    let neg = JsonValue::Float(Decimal::new(true, 5, 1).unwrap());
    assert_eq!(kind(neg.lax_time().err().unwrap()), ErrorKind::TimestampRange);
    assert_eq!(kind(f.strict_time().err().unwrap()), ErrorKind::TimeType);
    assert_eq!(kind(text("1:2:3").lax_time().err().unwrap()), ErrorKind::TimeParsing);
}

#[test]
fn datetime_from_epoch_seconds() {
    assert_eq!(
        datetime_from_timestamp(0),
        Some(DateTime { date: date(1970, 1, 1), time: time(0, 0, 0) })
    );
    assert_eq!(
        datetime_from_timestamp(1_000_000_000),
        Some(DateTime { date: date(2001, 9, 9), time: time(1, 46, 40) })
    );
    assert_eq!(
        datetime_from_timestamp(-1),
        Some(DateTime { date: date(1969, 12, 31), time: time(23, 59, 59) })
    );
    assert_eq!(
        datetime_from_timestamp(951782400),
        Some(DateTime { date: date(2000, 2, 29), time: time(0, 0, 0) })
    );
    assert_eq!(
        datetime_from_timestamp(-62135596800),
        Some(DateTime { date: date(1, 1, 1), time: time(0, 0, 0) })
    );
    assert_eq!(
        datetime_from_timestamp(253402300799),
        Some(DateTime { date: date(9999, 12, 31), time: time(23, 59, 59) })
    );
    assert_eq!(datetime_from_timestamp(253402300800), None);
    assert_eq!(datetime_from_timestamp(-62135596801), None);
}

#[test]
fn json_datetime_strict_and_lax() {
    let dt = DateTime { date: date(2020, 1, 2), time: time(3, 4, 5) };
    assert_eq!(text("2020-01-02T03:04:05").strict_datetime().ok(), Some(dt));
    assert_eq!(kind(text("2020-01-02 03:04:05").strict_datetime().err().unwrap()), ErrorKind::DateTimeParsing);
    assert_eq!(kind(JsonValue::Int(0).strict_datetime().err().unwrap()), ErrorKind::DateTimeType);
    assert_eq!(
        JsonValue::Int(0).lax_datetime().ok(),
        Some(DateTime { date: date(1970, 1, 1), time: time(0, 0, 0) })
    );
    assert_eq!(
        kind(JsonValue::Int(i64::MAX).lax_datetime().err().unwrap()),
        ErrorKind::TimestampRange
    );
    assert_eq!(kind(JsonValue::Null.lax_datetime().err().unwrap()), ErrorKind::DateTimeType);
    let half = JsonValue::Float(Decimal::new(true, 15, 1).unwrap());
    assert_eq!(
        half.lax_datetime().ok(),
        Some(DateTime {
            date: date(1969, 12, 31),
            time: Time { hour: 23, minute: 59, second: 58, microsecond: 500000 },
        })
    );
    let late = JsonValue::Float(Decimal::new(false, 2534023007995, 1).unwrap());
    assert_eq!(
        late.lax_datetime().ok(),
        Some(DateTime {
            date: date(9999, 12, 31),
            time: Time { hour: 23, minute: 59, second: 59, microsecond: 500000 },
        })
    );
    let too_late = JsonValue::Float(Decimal::new(false, 253402300800, 0).unwrap());
    assert_eq!(kind(too_late.lax_datetime().err().unwrap()), ErrorKind::TimestampRange);
}

#[test]
fn timedelta_text_and_seconds() {
    assert_eq!(parse_duration("01:02:03"), Some(Duration { seconds: 3723, microseconds: 0 }));
    assert_eq!(parse_duration("-99:00:00"), Some(Duration { seconds: -356400, microseconds: 0 }));
    assert_eq!(parse_duration("01:60:00"), None);
    assert_eq!(text("00:00:10").strict_timedelta().ok(), Some(Duration { seconds: 10, microseconds: 0 }));
    assert_eq!(kind(JsonValue::Int(10).strict_timedelta().err().unwrap()), ErrorKind::TimeDeltaType);
    assert_eq!(JsonValue::Int(-10).lax_timedelta().ok(), Some(Duration { seconds: -10, microseconds: 0 }));
    assert_eq!(kind(text("10").lax_timedelta().err().unwrap()), ErrorKind::TimeDeltaParsing);
    let f = JsonValue::Float(Decimal::new(true, 15, 1).unwrap());
    assert_eq!(f.lax_timedelta().ok(), Some(Duration { seconds: -2, microseconds: 500000 }));
    let g = JsonValue::Float(Decimal::new(false, 25, 1).unwrap());
    assert_eq!(g.lax_timedelta().ok(), Some(Duration { seconds: 2, microseconds: 500000 }));
    assert_eq!(kind(g.strict_timedelta().err().unwrap()), ErrorKind::TimeDeltaType);
}

#[test]
fn key_input_temporal() {
    let k = StringInput::new("2021-12-31".to_string());
    assert_eq!(k.validate_date(true).ok(), Some(date(2021, 12, 31)));
    assert_eq!(kind(k.validate_time(false).err().unwrap()), ErrorKind::TimeParsing);
    let t = StringInput::new("2021-12-31T23:00:00".to_string());
    assert_eq!(
        t.validate_datetime(true).ok(),
        Some(DateTime { date: date(2021, 12, 31), time: time(23, 0, 0) })
    );
    assert_eq!(kind(t.validate_date(false).err().unwrap()), ErrorKind::DateParsing);
    let d = StringInput::new("-00:01:00".to_string());
    assert_eq!(d.validate_timedelta(true).ok(), Some(Duration { seconds: -60, microseconds: 0 }));
    assert_eq!(StringInput::new("10:11:12".to_string()).validate_time(true).ok(), Some(time(10, 11, 12)));
}
