use vstd::prelude::*;
use chrono::Datelike;
use crate::decimal::{decimal_text, digit_char};
use crate::text::text_lt;

verus! {

/// A calendar day of the proleptic Gregorian calendar.
#[derive(Debug, Clone, Copy, PartialEq, Eq, Structural)]
pub struct Date {
    pub year: i32,
    pub month: u32,
    pub day: u32,
}

/// The first and last year that a calendar day may have.
pub const MIN_YEAR: i32 = -262143;
pub const MAX_YEAR: i32 = 262142;

pub open spec fn is_leap_year(y: int) -> bool {
    y % 4 == 0 && (y % 100 != 0 || y % 400 == 0)
}

pub open spec fn days_in_month(y: int, m: int) -> int {
    if m == 2 {
        if is_leap_year(y) { 29 } else { 28 }
    } else if m == 4 || m == 6 || m == 9 || m == 11 {
        30
    } else {
        31
    }
}

/// Whether `(y, m, d)` names a day in the calendar's range.
pub open spec fn valid_ymd(y: int, m: int, d: int) -> bool {
    &&& MIN_YEAR <= y <= MAX_YEAR
    &&& 1 <= m <= 12
    &&& 1 <= d <= days_in_month(y, m)
}

pub open spec fn valid_date(d: Date) -> bool {
    valid_ymd(d.year as int, d.month as int, d.day as int)
}

/// The day before `d`, if it is still in range.
pub open spec fn prev_day(d: Date) -> Option<Date> {
    if d.day > 1 {
        Some(Date { year: d.year, month: d.month, day: (d.day - 1) as u32 })
    } else if d.month > 1 {
        Some(
            Date {
                year: d.year,
                month: (d.month - 1) as u32,
                day: days_in_month(d.year as int, d.month - 1) as u32,
            },
        )
    } else if d.year > MIN_YEAR {
        Some(Date { year: (d.year - 1) as i32, month: 12, day: 31 })
    } else {
        None
    }
}

/// `NaiveDate::from_ymd_opt`: the day `(y, m, d)`, when it exists in the
/// calendar's range.
#[verifier::external_body]
pub(crate) fn date_from_ymd(y: i32, m: u32, d: u32) -> (r: Option<Date>)
    ensures
        r is Some <==> valid_ymd(y as int, m as int, d as int),
        r matches Some(x) ==> x == (Date { year: y, month: m, day: d }),
{
    match chrono::NaiveDate::from_ymd_opt(y, m, d) {
        Some(_) => Some(Date { year: y, month: m, day: d }),
        None => None,
    }
}

/// `NaiveDate::pred_opt`: the day before `d`, `None` before the first day.
#[verifier::external_body]
pub(crate) fn date_pred(d: Date) -> (r: Option<Date>)
    requires
        valid_date(d),
    ensures
        r == prev_day(d),
{
    let day = chrono::NaiveDate::from_ymd_opt(d.year, d.month, d.day).unwrap();
    match day.pred_opt() {
        Some(p) => Some(Date { year: p.year(), month: p.month(), day: p.day() }),
        None => None,
    }
}

/// `n` in decimal with zeros in front up to four digits.
pub open spec fn padded4(n: nat) -> Seq<char> {
    let t = decimal_text(n);
    if t.len() < 4 { Seq::new((4 - t.len()) as nat, |i: int| '0') + t } else { t }
}

/// How `%Y` writes a year: four digits at least, zero-padded; a year
/// before 0 or after 9999 carries its sign.
pub open spec fn year_text(y: int) -> Seq<char> {
    if 0 <= y <= 9999 {
        padded4(y as nat)
    } else if y < 0 {
        seq!['-'] + padded4((-y) as nat)
    } else {
        seq!['+'] + padded4(y as nat)
    }
}

/// How `%m` and `%d` write a number below 100: two digits.
pub open spec fn two_digit_text(v: int) -> Seq<char> {
    seq![digit_char(v / 10), digit_char(v % 10)]
}

/// What `format("%Y-%m")` writes for a month.
#[verifier::opaque]
pub open spec fn month_text(year: i32, month: u32) -> Seq<char> {
    year_text(year as int) + seq!['-'] + two_digit_text(month as int)
}

/// What `NaiveDate::format("%Y-%m-%d")` writes for a day.
#[verifier::opaque]
pub open spec fn date_text(d: Date) -> Seq<char> {
    month_text(d.year, d.month) + seq!['-'] + two_digit_text(d.day as int)
}

/// A day's text starts with its month's text.
pub proof fn lemma_day_text_starts_with_month(d: Date)
    ensures
        month_text(d.year, d.month).is_prefix_of(date_text(d)),
{
    reveal(date_text);
    let m = month_text(d.year, d.month);
    assert((m + seq!['-'] + two_digit_text(d.day as int)).take(m.len() as int) =~= m);
}

/// Comparing two texts that start with pieces of the same length compares
/// those pieces first, and the rest only when they are equal.
proof fn lemma_text_lt_concat(p: Seq<char>, q: Seq<char>, x: Seq<char>, y: Seq<char>)
    requires
        p.len() == q.len(),
    ensures
        text_lt(p + x, q + y) == if p == q { text_lt(x, y) } else { text_lt(p, q) },
    decreases p.len(),
{
    if p.len() == 0 {
        assert(p + x =~= x);
        assert(q + y =~= y);
        assert(p =~= q);
    } else {
        assert((p + x).drop_first() =~= p.drop_first() + x);
        assert((q + y).drop_first() =~= q.drop_first() + y);
        lemma_text_lt_concat(p.drop_first(), q.drop_first(), x, y);
        if p[0] == q[0] {
            if p.drop_first() == q.drop_first() {
                assert forall|i: int| 0 <= i < p.len() implies p[i] == q[i] by {
                    if i > 0 {
                        assert(p[i] == p.drop_first()[i - 1]);
                        assert(q[i] == q.drop_first()[i - 1]);
                    }
                }
                assert(p =~= q);
            } else {
                assert(p != q) by {
                    if p == q {
                        assert(p.drop_first() == q.drop_first());
                    }
                }
            }
        }
    }
}

proof fn lemma_digit_char(d: int)
    requires
        0 <= d <= 9,
    ensures
        digit_char(d) as u32 == 48 + d,
{
}

/// Two-digit texts compare as their numbers.
proof fn lemma_two_digit_order(v: int, w: int)
    requires
        0 <= v < 100,
        0 <= w < 100,
    ensures
        text_lt(two_digit_text(v), two_digit_text(w)) <==> v < w,
        two_digit_text(v) == two_digit_text(w) <==> v == w,
{
    lemma_digit_char(v / 10);
    lemma_digit_char(v % 10);
    lemma_digit_char(w / 10);
    lemma_digit_char(w % 10);
    reveal_with_fuel(text_lt, 3);
    let a = two_digit_text(v);
    let b = two_digit_text(w);
    assert(v == 10 * (v / 10) + v % 10);
    assert(w == 10 * (w / 10) + w % 10);
    assert(v < w <==> (v / 10 < w / 10 || (v / 10 == w / 10 && v % 10 < w % 10))) by (nonlinear_arith)
        requires
            v == 10 * (v / 10) + v % 10,
            w == 10 * (w / 10) + w % 10,
            0 <= v % 10 < 10,
            0 <= w % 10 < 10,
    ;
    assert(a.drop_first() =~= seq![digit_char(v % 10)]);
    assert(b.drop_first() =~= seq![digit_char(w % 10)]);
    assert(a.drop_first().drop_first().len() == 0);
    assert(b.drop_first().drop_first().len() == 0);
    if two_digit_text(v) == two_digit_text(w) {
        assert(a[0] == b[0] && a[1] == b[1]);
    }
    if v == w {
        assert(a =~= b);
    }
}

/// A year from 0 to 9999 is written as its hundreds and its rest, each in
/// two digits.
proof fn lemma_year_text_halves(y: int)
    requires
        0 <= y <= 9999,
    ensures
        year_text(y) == two_digit_text(y / 100) + two_digit_text(y % 100),
{
    reveal_with_fuel(decimal_text, 5);
    let t = decimal_text(y as nat);
    let want = two_digit_text(y / 100) + two_digit_text(y % 100);
    if y < 10 {
        assert(t =~= seq![digit_char(y)]);
    } else if y < 100 {
        assert(t =~= seq![digit_char(y / 10), digit_char(y % 10)]);
    } else if y < 1000 {
        assert(t =~= seq![digit_char(y / 100), digit_char((y / 10) % 10), digit_char(y % 10)]);
    } else {
        assert(t =~= seq![digit_char(y / 1000), digit_char((y / 100) % 10), digit_char((y / 10) % 10), digit_char(y % 10)]);
    }
    assert(padded4(y as nat) =~= want);
}

/// Whether day `a` comes before day `b` in the calendar.
pub open spec fn day_before(a: Date, b: Date) -> bool {
    ||| a.year < b.year
    ||| a.year == b.year && a.month < b.month
    ||| a.year == b.year && a.month == b.month && a.day < b.day
}

/// For years written with four digits, comparing two days' `YYYY-MM-DD`
/// texts compares the days in the calendar, and two days have the same
/// text only when they are the same day. (This is why stored days can be
/// selected and ordered by their texts.)
pub proof fn lemma_date_text_order(a: Date, b: Date)
    requires
        valid_date(a),
        valid_date(b),
        0 <= a.year <= 9999,
        0 <= b.year <= 9999,
    ensures
        text_lt(date_text(a), date_text(b)) <==> day_before(a, b),
        date_text(a) == date_text(b) <==> a == b,
{
    lemma_date_text_lt(a, b);
    lemma_date_text_lt(b, a);
    crate::text::lemma_text_lt_irreflexive(date_text(a));
    if date_text(a) == date_text(b) {
        assert(!day_before(a, b) && !day_before(b, a));
    }
}

proof fn lemma_date_text_lt(a: Date, b: Date)
    requires
        valid_date(a),
        valid_date(b),
        0 <= a.year <= 9999,
        0 <= b.year <= 9999,
    ensures
        text_lt(date_text(a), date_text(b)) <==> day_before(a, b),
{
    reveal(date_text);
    reveal(month_text);
    let ya = a.year as int;
    let yb = b.year as int;
    lemma_year_text_halves(ya);
    lemma_year_text_halves(yb);
    let dash = seq!['-'];
    let (y1a, y2a, ma, da) = (two_digit_text(ya / 100), two_digit_text(ya % 100), two_digit_text(a.month as int), two_digit_text(a.day as int));
    let (y1b, y2b, mb, db) = (two_digit_text(yb / 100), two_digit_text(yb % 100), two_digit_text(b.month as int), two_digit_text(b.day as int));
    let r4a = dash + da;
    let r4b = dash + db;
    let r3a = ma + r4a;
    let r3b = mb + r4b;
    let r2a = dash + r3a;
    let r2b = dash + r3b;
    let r1a = y2a + r2a;
    let r1b = y2b + r2b;
    assert(date_text(a) =~= y1a + r1a);
    assert(date_text(b) =~= y1b + r1b);
    lemma_text_lt_concat(y1a, y1b, r1a, r1b);
    lemma_text_lt_concat(y2a, y2b, r2a, r2b);
    lemma_text_lt_concat(dash, dash, r3a, r3b);
    lemma_text_lt_concat(ma, mb, r4a, r4b);
    lemma_text_lt_concat(dash, dash, da, db);
    lemma_two_digit_order(ya / 100, yb / 100);
    lemma_two_digit_order(ya % 100, yb % 100);
    lemma_two_digit_order(a.month as int, b.month as int);
    lemma_two_digit_order(a.day as int, b.day as int);
    assert(ya == 100 * (ya / 100) + ya % 100);
    assert(yb == 100 * (yb / 100) + yb % 100);
    assert(ya < yb <==> (ya / 100 < yb / 100 || (ya / 100 == yb / 100 && ya % 100 < yb % 100))) by (nonlinear_arith)
        requires
            ya == 100 * (ya / 100) + ya % 100,
            yb == 100 * (yb / 100) + yb % 100,
            0 <= ya % 100 < 100,
            0 <= yb % 100 < 100,
    ;
    assert(ya == yb <==> (ya / 100 == yb / 100 && ya % 100 == yb % 100)) by (nonlinear_arith)
        requires
            ya == 100 * (ya / 100) + ya % 100,
            yb == 100 * (yb / 100) + yb % 100,
            0 <= ya % 100 < 100,
            0 <= yb % 100 < 100,
    ;
}

/// What `NaiveDate::parse_from_str(_, "%Y-%m-%d")` reads from a text: the
/// day, or the message of the parse error.
pub uninterp spec fn date_parse(s: Seq<char>) -> Result<Date, Seq<char>>;


/// The day written as `YYYY-MM-DD` (`NaiveDate::format("%Y-%m-%d")`). For
/// years with four digits, reading the text back gives the day.
#[verifier::external_body]
pub(crate) fn format_date(d: Date) -> (r: String)
    requires
        valid_date(d),
    ensures
        r@ == date_text(d),
        (0 <= d.year <= 9999 ==> date_parse(r@) == Ok::<Date, Seq<char>>(d)),
{
    chrono::NaiveDate::from_ymd_opt(d.year, d.month, d.day).unwrap().format("%Y-%m-%d").to_string()
}

/// The month of a day written as `YYYY-MM` (`NaiveDate::format("%Y-%m")`).
#[verifier::external_body]
pub(crate) fn format_month(d: Date) -> (r: String)
    requires
        valid_date(d),
    ensures
        r@ == month_text(d.year, d.month),
{
    chrono::NaiveDate::from_ymd_opt(d.year, d.month, d.day).unwrap().format("%Y-%m").to_string()
}

/// `NaiveDate::parse_from_str(s, "%Y-%m-%d")`: the day that `s` writes,
/// or the parse error's message.
#[verifier::external_body]
pub(crate) fn parse_ymd(s: &str) -> (r: Result<Date, String>)
    ensures
        match r {
            Ok(d) => date_parse(s@) == Ok::<Date, Seq<char>>(d) && valid_date(d),
            Err(m) => date_parse(s@) == Err::<Date, Seq<char>>(m@),
        },
{
    match chrono::NaiveDate::parse_from_str(s, "%Y-%m-%d") {
        Ok(p) => Ok(Date { year: p.year(), month: p.month(), day: p.day() }),
        Err(e) => Err(e.to_string()),
    }
}

/// Reads a `YYYY-MM-DD` date given by the user.
pub fn parse_date(s: &str) -> (r: Result<Date, String>)
    ensures
        (r matches Ok(d) ==> date_parse(s@) == Ok::<Date, Seq<char>>(d) && valid_date(d)),
        r is Err <==> date_parse(s@) is Err,
        r matches Err(msg) ==> msg@ == "Invalid date format. Use YYYY-MM-DD."@,
{
    match parse_ymd(s) {
        Ok(d) => Ok(d),
        Err(_) => Err("Invalid date format. Use YYYY-MM-DD.".to_string()),
    }
}

/// Reads an optional date filter: a missing or empty text means no filter.
pub fn parse_optional_date(value: &Option<String>) -> (r: Result<Option<Date>, String>)
    ensures
        match value {
            Some(s) if s@.len() > 0 => match r {
                Ok(Some(d)) => date_parse(s@) == Ok::<Date, Seq<char>>(d),
                Ok(None) => false,
                Err(msg) => date_parse(s@) is Err && msg@ == "Invalid date format. Use YYYY-MM-DD."@,
            },
            _ => r == Ok::<Option<Date>, String>(None),
        },
{
    match value {
        Some(d) => {
            if d.as_str().is_empty() {
                Ok(None)
            } else {
                match parse_date(d.as_str()) {
                    Ok(day) => Ok(Some(day)),
                    Err(msg) => Err(msg),
                }
            }
        },
        None => Ok(None),
    }
}

/// Whether the calendar can give the first and the last day of a month
/// (the last needs the first day of the next month).
pub open spec fn month_ok(year: i32, month: u32) -> bool {
    MIN_YEAR <= year <= MAX_YEAR && 1 <= month <= 12 && !(year == MAX_YEAR && month == 12)
}

pub open spec fn month_first(year: i32, month: u32) -> Date {
    Date { year, month, day: 1 }
}

pub open spec fn month_last(year: i32, month: u32) -> Date {
    Date { year, month, day: days_in_month(year as int, month as int) as u32 }
}

/// The first and the last day of a month.
pub fn month_range(year: i32, month: u32) -> (r: Result<(Date, Date), String>)
    ensures
        r is Ok <==> month_ok(year, month),
        r matches Ok((first, last)) ==> first == month_first(year, month) && last == month_last(year, month),
        r matches Err(msg) ==> msg@ == "Invalid month"@,
{
    let first = match date_from_ymd(year, month, 1) {
        Some(d) => d,
        None => { return Err("Invalid month".to_string()); },
    };
    let next = if month == 12 {
        date_from_ymd(year + 1, 1, 1)
    } else {
        date_from_ymd(year, month + 1, 1)
    };
    let last = match next {
        Some(n) => date_pred(n),
        None => None,
    };
    match last {
        Some(l) => Ok((first, l)),
        None => Err("Invalid month".to_string()),
    }
}

/// An instant, as nanoseconds since 1970-01-01 00:00:00 UTC.
pub type Timestamp = i64;

/// What `DateTime::<Utc>::to_rfc3339` writes for an instant.
pub uninterp spec fn rfc3339_text(t: Timestamp) -> Seq<char>;

/// The instant written as RFC 3339 (`DateTime::<Utc>::to_rfc3339`).
#[verifier::external_body]
pub(crate) fn format_rfc3339(t: Timestamp) -> (r: String)
    ensures
        r@ == rfc3339_text(t),
{
    chrono::DateTime::from_timestamp_nanos(t).to_rfc3339()
}

/// What `DateTime::parse_from_rfc3339` reads from a text, taken to UTC as
/// nanoseconds since the epoch (`timestamp_nanos_opt`, `None` when the
/// instant lies outside what a `Timestamp` holds), or the parse error's
/// message.
pub uninterp spec fn rfc3339_parse(s: Seq<char>) -> Result<Option<Timestamp>, Seq<char>>;

/// `DateTime::parse_from_rfc3339(s)` taken to UTC, as nanoseconds since the
/// epoch when a `Timestamp` holds them; on failure the parse error's message.
#[verifier::external_body]
pub(crate) fn parse_rfc3339(s: &str) -> (r: Result<Option<Timestamp>, String>)
    ensures
        match r {
            Ok(t) => rfc3339_parse(s@) == Ok::<Option<Timestamp>, Seq<char>>(t),
            Err(m) => rfc3339_parse(s@) == Err::<Option<Timestamp>, Seq<char>>(m@),
        },
{
    match chrono::DateTime::parse_from_rfc3339(s) {
        Ok(dt) => Ok(dt.with_timezone(&chrono::Utc).timestamp_nanos_opt()),
        Err(e) => Err(e.to_string()),
    }
}

/// The current instant (`Utc::now`) in nanoseconds since the epoch
/// (`timestamp_nanos_opt`): `None` once the clock is past what a
/// `Timestamp` holds (2262-04-11). Nothing is stated of its value: it is
/// the time.
#[verifier::external_body]
fn clock_nanos() -> (r: Option<Timestamp>) {
    chrono::Utc::now().timestamp_nanos_opt()
}

/// The current instant; a clock past the last instant that a `Timestamp`
/// holds gives that last instant.
pub(crate) fn now() -> (r: Timestamp) {
    match clock_nanos() {
        Some(t) => t,
        None => i64::MAX,
    }
}

/// Today's date in the local time zone (`Local::now().date_naive()`).
#[verifier::external_body]
pub(crate) fn today() -> (r: Date)
    ensures
        valid_date(r),
{
    let d = chrono::Local::now().date_naive();
    Date { year: d.year(), month: d.month(), day: d.day() }
}

} // verus!
