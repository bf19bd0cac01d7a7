use vstd::prelude::*;
use vstd::string::*;
use vstd::arithmetic::div_mod::{lemma_fundamental_div_mod, lemma_fundamental_div_mod_converse};

verus! {

pub open spec fn is_leap(y: int) -> bool {
    y % 4 == 0 && (y % 100 != 0 || y % 400 == 0)
}

pub open spec fn year_len(y: int) -> int {
    if is_leap(y) { 366 } else { 365 }
}

pub open spec fn month_len(y: int, m: int) -> int {
    if m == 2 {
        if is_leap(y) { 29 } else { 28 }
    } else if m == 4 || m == 6 || m == 9 || m == 11 {
        30
    } else {
        31
    }
}

/// Leap years from year 1 up to, not including, `y`.
pub open spec fn leaps_before(y: int) -> int {
    (y - 1) / 4 - (y - 1) / 100 + (y - 1) / 400
}

/// Days from 1970-01-01 to the first day of year `y`.
pub open spec fn days_before_year(y: int) -> int {
    365 * (y - 1970) + leaps_before(y) - leaps_before(1970)
}

/// Days from the first day of year `y` to the first day of month `m`.
pub open spec fn days_before_month(y: int, m: int) -> int
    decreases m,
{
    if m <= 1 { 0 } else { days_before_month(y, m - 1) + month_len(y, m - 1) }
}

/// A calendar date in years 1 to 9999.
#[derive(PartialEq, Eq, Structural, Clone, Copy, Debug)]
pub struct Date {
    pub year: u16,
    pub month: u8,
    pub day: u8,
}

/// A time of day, to the microsecond.
#[derive(PartialEq, Eq, Structural, Clone, Copy, Debug)]
pub struct Time {
    pub hour: u8,
    pub minute: u8,
    pub second: u8,
    pub microsecond: u32,
}

/// A date and a time of day.
#[derive(PartialEq, Eq, Structural, Clone, Copy, Debug)]
pub struct DateTime {
    pub date: Date,
    pub time: Time,
}

/// A signed length of time, to the microsecond: `seconds` plus `microseconds` millionths
/// of a second, with `microseconds` below a million (so -1.5 s is -2 s and 500000 us).
#[derive(PartialEq, Eq, Structural, Clone, Copy, Debug)]
pub struct Duration {
    pub seconds: i64,
    pub microseconds: u32,
}

impl View for Date {
    type V = Date;

    open spec fn view(&self) -> Date {
        *self
    }
}

impl View for Time {
    type V = Time;

    open spec fn view(&self) -> Time {
        *self
    }
}

impl View for DateTime {
    type V = DateTime;

    open spec fn view(&self) -> DateTime {
        *self
    }
}

impl View for Duration {
    type V = Duration;

    open spec fn view(&self) -> Duration {
        *self
    }
}

pub open spec fn date_valid(d: Date) -> bool {
    1 <= d.year <= 9999 && 1 <= d.month <= 12 && 1 <= d.day <= month_len(d.year as int, d.month as int)
}

pub open spec fn time_valid(t: Time) -> bool {
    t.hour < 24 && t.minute < 60 && t.second < 60 && t.microsecond < 1_000_000
}

pub open spec fn time_seconds(t: Time) -> int {
    t.hour * 3600 + t.minute * 60 + t.second
}

/// Seconds from 1970-01-01T00:00:00 to a date and time.
pub open spec fn epoch_seconds(dt: DateTime) -> int {
    (days_before_year(dt.date.year as int) + days_before_month(dt.date.year as int, dt.date.month as int)
        + dt.date.day - 1) * 86400 + time_seconds(dt.time)
}

/// Microseconds from 1970-01-01T00:00:00 to a date and time.
pub open spec fn epoch_micros(dt: DateTime) -> int {
    epoch_seconds(dt) * 1_000_000 + dt.time.microsecond
}

/// Microseconds in a length of time.
pub open spec fn duration_micros(d: Duration) -> int {
    d.seconds * 1_000_000 + d.microseconds
}

/// The time of day `t` microseconds after midnight, where `t` lies within one day.
pub open spec fn micros_time(t: int) -> Option<Time> {
    if 0 <= t < 86_400_000_000 {
        let s = t / 1_000_000;
        Some(Time {
            hour: (s / 3600) as u8,
            minute: ((s % 3600) / 60) as u8,
            second: (s % 60) as u8,
            microsecond: (t % 1_000_000) as u32,
        })
    } else {
        None
    }
}

/// Whether `t` microseconds after 1970-01-01T00:00:00 fall within years 1 to 9999.
pub open spec fn micros_in_range(t: int) -> bool {
    MIN_TIMESTAMP <= t / 1_000_000 <= MAX_TIMESTAMP
}

/// The length of time of `t` microseconds, where its whole seconds fit an `i64`.
pub open spec fn micros_duration(t: int) -> Option<Duration> {
    if i64::MIN <= t / 1_000_000 <= i64::MAX {
        Some(Duration { seconds: (t / 1_000_000) as i64, microseconds: (t % 1_000_000) as u32 })
    } else {
        None
    }
}

pub open spec fn dig(s: Seq<char>, i: int) -> int {
    (s[i] as int) - ('0' as int)
}

pub open spec fn digits_at(s: Seq<char>, from: int, to: int) -> bool {
    forall|i: int| from <= i < to ==> '0' <= #[trigger] s[i] <= '9'
}

/// The number written by the two digits at `i`.
pub open spec fn num2(s: Seq<char>, i: int) -> int {
    dig(s, i) * 10 + dig(s, i + 1)
}

/// The number written by the four digits at `i`.
pub open spec fn num4(s: Seq<char>, i: int) -> int {
    num2(s, i) * 100 + num2(s, i + 2)
}

/// The date `YYYY-MM-DD` at `i`, whatever its validity.
pub open spec fn date_at(s: Seq<char>, i: int) -> Date {
    Date { year: num4(s, i) as u16, month: num2(s, i + 5) as u8, day: num2(s, i + 8) as u8 }
}

/// Whether the text at `i` has the layout `YYYY-MM-DD` and names a real date.
pub open spec fn date_layout_at(s: Seq<char>, i: int) -> bool {
    &&& i + 10 <= s.len()
    &&& digits_at(s, i, i + 4) && s[i + 4] == '-' && digits_at(s, i + 5, i + 7) && s[i + 7] == '-'
        && digits_at(s, i + 8, i + 10)
    &&& date_valid(date_at(s, i))
}

/// The time `HH:MM:SS` at `i`, whatever its validity.
pub open spec fn time_at(s: Seq<char>, i: int) -> Time {
    Time {
        hour: num2(s, i) as u8,
        minute: num2(s, i + 3) as u8,
        second: num2(s, i + 6) as u8,
        microsecond: 0,
    }
}

/// Whether the text at `i` has the layout `HH:MM:SS` and names a real time of day.
pub open spec fn time_layout_at(s: Seq<char>, i: int) -> bool {
    &&& i + 8 <= s.len()
    &&& digits_at(s, i, i + 2) && s[i + 2] == ':' && digits_at(s, i + 3, i + 5) && s[i + 5] == ':'
        && digits_at(s, i + 6, i + 8)
    &&& time_valid(time_at(s, i))
}

/// The date a text writes as `YYYY-MM-DD`, and nothing else.
pub open spec fn date_text(s: Seq<char>) -> Option<Date> {
    if s.len() == 10 && date_layout_at(s, 0) { Some(date_at(s, 0)) } else { None }
}

/// The time a text writes as `HH:MM:SS`, and nothing else.
pub open spec fn time_text(s: Seq<char>) -> Option<Time> {
    if s.len() == 8 && time_layout_at(s, 0) { Some(time_at(s, 0)) } else { None }
}

/// The date and time a text writes as `YYYY-MM-DDTHH:MM:SS`, and nothing else.
pub open spec fn datetime_text(s: Seq<char>) -> Option<DateTime> {
    if s.len() == 19 && date_layout_at(s, 0) && s[10] == 'T' && time_layout_at(s, 11) {
        Some(DateTime { date: date_at(s, 0), time: time_at(s, 11) })
    } else {
        None
    }
}

/// The length of time a text writes as `HH:MM:SS`, or `-HH:MM:SS` for a negative one,
/// with any two-digit count of hours.
pub open spec fn duration_text(s: Seq<char>) -> Option<Duration> {
    let neg = s.len() > 0 && s[0] == '-';
    let i: int = if neg { 1 } else { 0 };
    if s.len() == i + 8 && digits_at(s, i, i + 2) && s[i + 2] == ':' && digits_at(s, i + 3, i + 5)
        && s[i + 5] == ':' && digits_at(s, i + 6, i + 8) && num2(s, i + 3) < 60 && num2(s, i + 6) < 60 {
        let secs = num2(s, i) * 3600 + num2(s, i + 3) * 60 + num2(s, i + 6);
        Some(Duration { seconds: (if neg { -secs } else { secs }) as i64, microseconds: 0 })
    } else {
        None
    }
}

fn month_days(y: u16, m: u8) -> (r: u8)
    ensures
        r == month_len(y as int, m as int),
{
    if m == 2 {
        if y % 4 == 0 && (y % 100 != 0 || y % 400 == 0) { 29 } else { 28 }
    } else if m == 4 || m == 6 || m == 9 || m == 11 {
        30
    } else {
        31
    }
}

/// The two digits at `i`, if both are digits.
fn two_digits(s: &str, i: usize) -> (r: Option<u8>)
    requires
        i + 2 <= s@.len(),
        i <= 32,
    ensures
        r is Some <==> digits_at(s@, i as int, i + 2),
        r matches Some(v) ==> v == num2(s@, i as int),
{
    let a = s.get_char(i);
    let b = s.get_char(i + 1);
    if '0' <= a && a <= '9' && '0' <= b && b <= '9' {
        Some(((a as u32 - '0' as u32) * 10 + (b as u32 - '0' as u32)) as u8)
    } else {
        assert(!digits_at(s@, i as int, i + 2)) by {
            if '0' <= a && a <= '9' {
                assert(!('0' <= s@[i + 1] <= '9'));
            } else {
                assert(!('0' <= s@[i as int] <= '9'));
            }
        }
        None
    }
}

/// Reads `YYYY-MM-DD` at `i`.
fn date_at_pos(s: &str, i: usize) -> (r: Option<Date>)
    requires
        i + 10 <= s@.len(),
        i <= 16,
    ensures
        r is Some <==> date_layout_at(s@, i as int),
        r matches Some(d) ==> d == date_at(s@, i as int),
{
    let hi = two_digits(s, i);
    let lo = two_digits(s, i + 2);
    let m = two_digits(s, i + 5);
    let d = two_digits(s, i + 8);
    if s.get_char(i + 4) != '-' || s.get_char(i + 7) != '-' {
        return None;
    }
    match (hi, lo, m, d) {
        (Some(hi), Some(lo), Some(m), Some(d)) => {
            assert(digits_at(s@, i as int, i + 4)) by {
                assert(digits_at(s@, i as int, i + 2));
                assert(digits_at(s@, i + 2, i + 4));
            }
            let year: u16 = hi as u16 * 100 + lo as u16;
            if year >= 1 && 1 <= m && m <= 12 && d >= 1 && d <= month_days(year, m) {
                Some(Date { year, month: m, day: d })
            } else {
                None
            }
        },
        _ => {
            assert(!date_layout_at(s@, i as int)) by {
                if hi is None {
                    assert(!digits_at(s@, i as int, i + 2));
                } else if lo is None {
                    assert(!digits_at(s@, i + 2, i + 4));
                }
            }
            None
        },
    }
}

/// Reads `HH:MM:SS` at `i`.
fn time_at_pos(s: &str, i: usize) -> (r: Option<Time>)
    requires
        i + 8 <= s@.len(),
        i <= 16,
    ensures
        r is Some <==> time_layout_at(s@, i as int),
        r matches Some(t) ==> t == time_at(s@, i as int),
{
    let h = two_digits(s, i);
    let m = two_digits(s, i + 3);
    let sec = two_digits(s, i + 6);
    if s.get_char(i + 2) != ':' || s.get_char(i + 5) != ':' {
        return None;
    }
    match (h, m, sec) {
        (Some(h), Some(m), Some(sec)) => {
            if h < 24 && m < 60 && sec < 60 {
                Some(Time { hour: h, minute: m, second: sec, microsecond: 0 })
            } else {
                None
            }
        },
        _ => None,
    }
}

/// Reads a date written as `YYYY-MM-DD`.
pub fn parse_date(s: &str) -> (r: Option<Date>)
    ensures
        r == date_text(s@),
{
    if s.unicode_len() != 10 {
        return None;
    }
    date_at_pos(s, 0)
}

/// Reads a time of day written as `HH:MM:SS`.
pub fn parse_time(s: &str) -> (r: Option<Time>)
    ensures
        r == time_text(s@),
{
    if s.unicode_len() != 8 {
        return None;
    }
    time_at_pos(s, 0)
}

/// Reads a date and time written as `YYYY-MM-DDTHH:MM:SS`.
pub fn parse_datetime(s: &str) -> (r: Option<DateTime>)
    ensures
        r == datetime_text(s@),
{
    if s.unicode_len() != 19 {
        return None;
    }
    let d = date_at_pos(s, 0);
    let t = time_at_pos(s, 11);
    if s.get_char(10) != 'T' {
        return None;
    }
    match (d, t) {
        (Some(date), Some(time)) => Some(DateTime { date, time }),
        _ => None,
    }
}

/// Reads a length of time written as `HH:MM:SS` or `-HH:MM:SS`.
pub fn parse_duration(s: &str) -> (r: Option<Duration>)
    ensures
        r == duration_text(s@),
{
    let n = s.unicode_len();
    if n == 0 {
        return None;
    }
    let neg = s.get_char(0) == '-';
    let i: usize = if neg { 1 } else { 0 };
    if n != i + 8 {
        return None;
    }
    let h = two_digits(s, i);
    let m = two_digits(s, i + 3);
    let sec = two_digits(s, i + 6);
    if s.get_char(i + 2) != ':' || s.get_char(i + 5) != ':' {
        return None;
    }
    match (h, m, sec) {
        (Some(h), Some(m), Some(sec)) => {
            if m < 60 && sec < 60 {
                let secs: i64 = h as i64 * 3600 + m as i64 * 60 + sec as i64;
                Some(Duration { seconds: if neg { -secs } else { secs }, microseconds: 0 })
            } else {
                None
            }
        },
        _ => None,
    }
}

/// Seconds from 1970 to 0001-01-01T00:00:00, the earliest moment a `DateTime` holds.
pub const MIN_TIMESTAMP: i64 = -62135596800;

/// Seconds from 1970 to 9999-12-31T23:59:59, the latest moment a `DateTime` holds.
pub const MAX_TIMESTAMP: i64 = 253402300799;

proof fn lemma_div_step(y: int, k: int)
    requires
        y >= 1,
        k > 0,
    ensures
        y / k - (y - 1) / k == (if y % k == 0 { 1int } else { 0int }),
{
    lemma_fundamental_div_mod(y, k);
    lemma_fundamental_div_mod(y - 1, k);
    assert(y / k - (y - 1) / k == (if y % k == 0 { 1int } else { 0int })) by (nonlinear_arith)
        requires
            y >= 1,
            k > 0,
            y == k * (y / k) + y % k,
            y - 1 == k * ((y - 1) / k) + (y - 1) % k,
            0 <= y % k < k,
            0 <= (y - 1) % k < k,
    ;
}

proof fn lemma_year_step(y: int)
    requires
        y >= 1,
    ensures
        days_before_year(y + 1) == days_before_year(y) + year_len(y),
{
    lemma_div_step(y, 4);
    lemma_div_step(y, 100);
    lemma_div_step(y, 400);
}

proof fn lemma_months_fill_year(y: int)
    ensures
        days_before_month(y, 12) + month_len(y, 12) == year_len(y),
{
    reveal_with_fuel(days_before_month, 13);
}

fn year_days_of(y: i64) -> (r: i64)
    ensures
        r == year_len(y as int),
{
    if y % 4 == 0 && (y % 100 != 0 || y % 400 == 0) { 366 } else { 365 }
}

/// The time of day `v` seconds after midnight, for `v` within one day.
pub fn time_from_seconds(v: i64) -> (r: Option<Time>)
    ensures
        (0 <= v < 86400) <==> r is Some,
        r matches Some(t) ==> time_valid(t) && time_seconds(t) == v && t.microsecond == 0,
{
    if v < 0 || v >= 86400 {
        return None;
    }
    let h = v / 3600;
    let m = (v % 3600) / 60;
    let sec = v % 60;
    let t = Time { hour: h as u8, minute: m as u8, second: sec as u8, microsecond: 0 };
    assert(time_seconds(t) == v) by (nonlinear_arith)
        requires
            0 <= v < 86400,
            t.hour == v / 3600,
            t.minute == (v % 3600) / 60,
            t.second == v % 60,
    ;
    Some(t)
}

/// The date and time `v` seconds after 1970-01-01T00:00:00, for `v` within years 1
/// to 9999.
pub fn datetime_from_timestamp(v: i64) -> (r: Option<DateTime>)
    ensures
        (MIN_TIMESTAMP <= v <= MAX_TIMESTAMP) <==> r is Some,
        r matches Some(dt) ==> date_valid(dt.date) && time_valid(dt.time) && epoch_seconds(dt) == v
            && dt.time.microsecond == 0,
{
    if v < MIN_TIMESTAMP || v > MAX_TIMESTAMP {
        return None;
    }
    let w: i64 = v - MIN_TIMESTAMP;
    let total: i64 = w / 86400;
    let rem: i64 = w % 86400;
    assert(total <= 3652058);
    assert(days_before_year(1) == -719162);
    assert(days_before_year(10000) == 2932897);
    let mut y: i64 = 1;
    let mut d: i64 = total;
    while d >= year_days_of(y)
        invariant
            1 <= y <= 9999,
            0 <= d,
            0 <= total <= 3652058,
            days_before_year(y as int) - days_before_year(1) + d == total,
            days_before_year(10000) == 2932897,
            days_before_year(1) == -719162,
        decreases d,
    {
        proof {
            lemma_year_step(y as int);
            if y == 9999 {
                assert(days_before_year(10000) - days_before_year(1) <= total);
            }
        }
        d = d - year_days_of(y);
        y = y + 1;
    }
    let ghost year_days = d;
    let year: u16 = y as u16;
    let mut m: u8 = 1;
    while d >= month_days(year, m) as i64
        invariant
            1 <= m <= 12,
            0 <= d,
            1 <= year <= 9999,
            year_days < year_len(year as int),
            days_before_month(year as int, m as int) + d == year_days,
        decreases 12 - m,
    {
        proof {
            if m == 12 {
                lemma_months_fill_year(year as int);
            }
        }
        d = d - month_days(year, m) as i64;
        m = m + 1;
    }
    let date = Date { year, month: m, day: (d + 1) as u8 };
    let time = match time_from_seconds(rem) {
        Some(t) => t,
        None => {
            return None;
        },
    };
    let dt = DateTime { date, time };
    assert(epoch_seconds(dt) == v) by (nonlinear_arith)
        requires
            epoch_seconds(dt) == (days_before_year(year as int) + days_before_month(year as int, m as int)
                + d) * 86400 + rem,
            days_before_year(year as int) + days_before_month(year as int, m as int) + d == total - 719162,
            w == total * 86400 + rem,
            w == v + 62135596800,
    ;
    Some(dt)
}

proof fn lemma_years_grow(a: int, b: int)
    requires
        1 <= a < b,
    ensures
        days_before_year(b) >= days_before_year(a) + year_len(a),
    decreases b - a,
{
    lemma_year_step(a);
    if b > a + 1 {
        lemma_years_grow(a, b - 1);
        lemma_year_step(b - 1);
    }
}

proof fn lemma_months_grow(y: int, a: int, b: int)
    requires
        1 <= a < b,
    ensures
        days_before_month(y, b) >= days_before_month(y, a) + month_len(y, a),
    decreases b - a,
{
    if b > a + 1 {
        lemma_months_grow(y, a, b - 1);
    }
}

/// Days from 1970-01-01 to a date.
pub open spec fn day_number(d: Date) -> int {
    days_before_year(d.year as int) + days_before_month(d.year as int, d.month as int) + d.day - 1
}

proof fn lemma_day_in_year(d: Date)
    requires
        date_valid(d),
    ensures
        days_before_year(d.year as int) <= day_number(d) < days_before_year(d.year as int) + year_len(
            d.year as int,
        ),
{
    let y = d.year as int;
    lemma_months_fill_year(y);
    if d.month < 12 {
        lemma_months_grow(y, d.month as int, 12);
    }
    if d.month > 1 {
        lemma_months_grow(y, 1, d.month as int);
    }
}

proof fn lemma_day_number_unique(a: Date, b: Date)
    requires
        date_valid(a),
        date_valid(b),
        day_number(a) == day_number(b),
    ensures
        a == b,
{
    lemma_day_in_year(a);
    lemma_day_in_year(b);
    if a.year < b.year {
        lemma_years_grow(a.year as int, b.year as int);
    } else if b.year < a.year {
        lemma_years_grow(b.year as int, a.year as int);
    }
    assert(a.year == b.year);
    let y = a.year as int;
    if a.month < b.month {
        lemma_months_grow(y, a.month as int, b.month as int);
    } else if b.month < a.month {
        lemma_months_grow(y, b.month as int, a.month as int);
    }
}

/// Two valid moments with the same count of microseconds since 1970 are the same moment.
pub proof fn lemma_epoch_unique(a: DateTime, b: DateTime)
    requires
        date_valid(a.date) && time_valid(a.time),
        date_valid(b.date) && time_valid(b.time),
        epoch_micros(a) == epoch_micros(b),
    ensures
        a == b,
{
    let sa = epoch_seconds(a);
    let sb = epoch_seconds(b);
    let ma = a.time.microsecond as int;
    let mb = b.time.microsecond as int;
    assert(sa == sb && ma == mb) by (nonlinear_arith)
        requires
            sa * 1_000_000 + ma == sb * 1_000_000 + mb,
            0 <= ma < 1_000_000,
            0 <= mb < 1_000_000,
    ;
    let da = day_number(a.date);
    let db = day_number(b.date);
    let ta = time_seconds(a.time);
    let tb = time_seconds(b.time);
    assert(epoch_seconds(a) == da * 86400 + ta);
    assert(epoch_seconds(b) == db * 86400 + tb);
    assert(da == db && ta == tb) by (nonlinear_arith)
        requires
            da * 86400 + ta == db * 86400 + tb,
            0 <= ta < 86400,
            0 <= tb < 86400,
    ;
    lemma_day_number_unique(a.date, b.date);
    assert(a.time.hour == b.time.hour && a.time.minute == b.time.minute && a.time.second
        == b.time.second) by (nonlinear_arith)
        requires
            a.time.hour < 24 && a.time.minute < 60 && a.time.second < 60,
            b.time.hour < 24 && b.time.minute < 60 && b.time.second < 60,
            a.time.hour * 3600 + a.time.minute * 60 + a.time.second == b.time.hour * 3600
                + b.time.minute * 60 + b.time.second,
    ;
}

/// Whole seconds and remaining microseconds of `t` microseconds, rounding down.
fn split_micros(t: i128) -> (r: (i128, u32))
    requires
        t > i128::MIN,
    ensures
        r.0 == t / 1_000_000,
        r.1 == t % 1_000_000,
{
    if t >= 0 {
        let u = t as u128;
        let q = u / 1_000_000;
        let m = u % 1_000_000;
        proof {
            lemma_fundamental_div_mod(u as int, 1_000_000);
        }
        (q as i128, m as u32)
    } else {
        let u = (-t) as u128;
        let q = u / 1_000_000;
        let m = u % 1_000_000;
        proof {
            lemma_fundamental_div_mod(u as int, 1_000_000);
        }
        if m == 0 {
            proof {
                assert(t as int == (-(q as int)) * 1_000_000 + 0) by (nonlinear_arith)
                    requires
                        u == 1_000_000 * q + m,
                        m == 0,
                        u == -t,
                ;
                lemma_fundamental_div_mod_converse(t as int, 1_000_000, -(q as int), 0);
            }
            (-(q as i128), 0)
        } else {
            proof {
                assert(t as int == (-(q as int) - 1) * 1_000_000 + (1_000_000 - m as int))
                    by (nonlinear_arith)
                    requires
                        u == 1_000_000 * q + m,
                        u == -t,
                ;
                lemma_fundamental_div_mod_converse(
                    t as int,
                    1_000_000,
                    -(q as int) - 1,
                    1_000_000 - m as int,
                );
            }
            (-(q as i128) - 1, (1_000_000 - m) as u32)
        }
    }
}

/// The time of day `t` microseconds after midnight, for `t` within one day.
pub fn time_from_micros(t: i128) -> (r: Option<Time>)
    ensures
        r == micros_time(t as int),
{
    if t < 0 || t >= 86_400_000_000 {
        return None;
    }
    let (s, m) = split_micros(t);
    let sec = s as i64;
    let t2 = Time {
        hour: (sec / 3600) as u8,
        minute: ((sec % 3600) / 60) as u8,
        second: (sec % 60) as u8,
        microsecond: m,
    };
    Some(t2)
}

/// The date and time `t` microseconds after 1970-01-01T00:00:00, for `t` within years 1
/// to 9999.
pub fn datetime_from_micros(t: i128) -> (r: Option<DateTime>)
    ensures
        micros_in_range(t as int) <==> r is Some,
        r matches Some(dt) ==> date_valid(dt.date) && time_valid(dt.time) && epoch_micros(dt) == t,
{
    if t == i128::MIN {
        return None;
    }
    let (s, m) = split_micros(t);
    if s < MIN_TIMESTAMP as i128 || s > MAX_TIMESTAMP as i128 {
        return None;
    }
    match datetime_from_timestamp(s as i64) {
        Some(dt) => {
            proof {
                lemma_fundamental_div_mod(t as int, 1_000_000);
            }
            let time = Time { microsecond: m, ..dt.time };
            Some(DateTime { date: dt.date, time })
        },
        None => None,
    }
}

/// The length of time of `t` microseconds, where its whole seconds fit an `i64`.
pub fn duration_from_micros(t: i128) -> (r: Option<Duration>)
    ensures
        r == micros_duration(t as int),
{
    if t == i128::MIN {
        return None;
    }
    let (s, m) = split_micros(t);
    if s < i64::MIN as i128 || s > i64::MAX as i128 {
        return None;
    }
    Some(Duration { seconds: s as i64, microseconds: m })
}

} // verus!
