//! The clock and the local time zone, read through std and chrono. What they
//! read depends on the machine, so only the shape of chrono's text is claimed.
use vstd::prelude::*;
use crate::analyzer::stale_tasks::iso_day;

verus! {

/// The value of the two decimal digits at `i` and `i + 1` of `s`.
pub open spec fn two_digit_value(s: Seq<char>, i: int) -> int {
    (s[i] as int - '0' as int) * 10 + (s[i + 1] as int - '0' as int)
}

pub open spec fn is_decimal_digit(c: char) -> bool {
    '0' <= c <= '9'
}

/// Two decimal digits at `i`, their value at least `lo` and at most `hi`.
pub open spec fn two_digits_within(s: Seq<char>, i: int, lo: int, hi: int) -> bool {
    &&& is_decimal_digit(s[i])
    &&& is_decimal_digit(s[i + 1])
    &&& lo <= two_digit_value(s, i) <= hi
}

/// A date written `YYYY-MM-DD`: a four-digit year, a month from 01 to 12 and
/// a day from 01 to 31.
pub open spec fn is_date_text(s: Seq<char>) -> bool {
    &&& s.len() == 10
    &&& is_decimal_digit(s[0]) && is_decimal_digit(s[1]) && is_decimal_digit(s[2]) && is_decimal_digit(s[3])
    &&& s[4] == '-'
    &&& two_digits_within(s, 5, 1, 12)
    &&& s[7] == '-'
    &&& two_digits_within(s, 8, 1, 31)
}

/// A date and time written `YYYY-MM-DD HH:MM:SS`, the hour from 00 to 23 and
/// the minute and second from 00 to 59.
pub open spec fn is_timestamp_text(s: Seq<char>) -> bool {
    &&& s.len() == 19
    &&& is_date_text(s.take(10))
    &&& s[10] == ' '
    &&& two_digits_within(s, 11, 0, 23)
    &&& s[13] == ':'
    &&& two_digits_within(s, 14, 0, 59)
    &&& s[16] == ':'
    &&& two_digits_within(s, 17, 0, 59)
}

/// Whether the date text `s` reads back (as `NaiveDate::parse_from_str(s,
/// "%Y-%m-%d")` does) as a day within a day of the UTC day of the instant
/// `secs` seconds after the epoch: the local date of that instant.
pub open spec fn date_near(s: Seq<char>, secs: int) -> bool {
    exists|d: i32| #[trigger] iso_day(s) == Some(d) && utc_day(secs) - 1 <= d <= utc_day(secs) + 1
}

/// A clock reading in nanoseconds from the epoch (`Ok` at or after it, `Err`
/// with the distance before it) held to the range of `i64`.
pub open spec fn clamped_nanos(offset: Result<u128, u128>) -> int {
    match offset {
        Ok(n) => if n <= i64::MAX { n as int } else { i64::MAX as int },
        Err(n) => if n <= 0x8000_0000_0000_0000 { 0 - n } else { i64::MIN as int },
    }
}

/// `SystemTime::now()` measured from the Unix epoch, in nanoseconds: `Ok`
/// at or after the epoch, `Err` with the distance when the clock reads
/// earlier. It depends on the clock, so nothing is claimed of it.
#[verifier::external_body]
fn clock_offset() -> (r: Result<u128, u128>) {
    match std::time::SystemTime::now().duration_since(std::time::UNIX_EPOCH) {
        Ok(d) => Ok(d.as_nanos()),
        Err(e) => Err(e.duration().as_nanos()),
    }
}

/// chrono's rendering of the instant `secs` seconds and `nanos` nanoseconds
/// after the epoch, in the local time zone, with the `format` pattern
/// `pattern` (`DateTime::from_timestamp`, `with_timezone(&Local)`,
/// `format`); `None` where `from_timestamp` refuses the instant.
/// Claimed besides: the date it writes, read back by
/// `NaiveDate::parse_from_str` with `%Y-%m-%d`, is the local date, which is
/// the instant's UTC date (day `secs.div_euclid(86_400) + 719_163`) or the
/// day before or after, as a local offset is less than a day.
/// Claimed: within some 294 years of the epoch and below a whole second of
/// nanoseconds, `from_timestamp` accepts the instant (its day number stays
/// far inside `NaiveDate`'s range), the local date's year then has four
/// digits, which `%Y` writes as they are, and `%m`, `%d`, `%H`, `%M`, `%S`
/// write two zero-padded digits each, the second below 60 as no leap second
/// is asked for. Not claimed: which date and time it is, as that depends on
/// the machine's time zone.
#[verifier::external_body]
fn local_text(secs: i64, nanos: u32, pattern: &str) -> (r: Option<String>)
    requires
        pattern@ == "%Y-%m-%d"@ || pattern@ == "%Y-%m-%d %H:%M:%S"@,
        -9_300_000_000 <= secs <= 9_300_000_000,
        nanos < 1_000_000_000,
    ensures
        r is Some,
        pattern@ == "%Y-%m-%d"@ ==> is_date_text(r->Some_0@) && date_near(r->Some_0@, secs as int),
        pattern@ == "%Y-%m-%d %H:%M:%S"@ ==> is_timestamp_text(r->Some_0@) && date_near(r->Some_0@.take(10), secs as int),
{
    match chrono::DateTime::from_timestamp(secs, nanos) {
        Some(t) => Some(t.with_timezone(&chrono::Local).format(pattern).to_string()),
        None => None,
    }
}

/// The day number (`Datelike::num_days_from_ce`, 1 January of year 1 being
/// day 1) of the UTC date of the instant `secs` seconds after the epoch.
pub open spec fn utc_day(secs: int) -> int {
    secs / 86_400 + 719_163
}

/// The UTC day number of an instant `t` nanoseconds after the epoch.
pub open spec fn utc_day_of_nanos(t: i64) -> int {
    utc_day(t as int / 1_000_000_000)
}

/// chrono's day number of the local date of the instant `secs` seconds and
/// `nanos` nanoseconds after the epoch (`DateTime::from_timestamp`,
/// `with_timezone(&Local)`, `date_naive`, `num_days_from_ce`). Claimed:
/// within some 294 years of the epoch `from_timestamp` accepts the instant,
/// whose UTC date is day `secs.div_euclid(86_400) + 719_163`; a local offset
/// is less than a day either way (`FixedOffset::east_opt`), so the local
/// date is that day, the one before or the one after. Not claimed: which of
/// them, as that depends on the machine's time zone.
#[verifier::external_body]
fn local_day(secs: i64, nanos: u32) -> (r: Option<i32>)
    requires
        -9_300_000_000 <= secs <= 9_300_000_000,
        nanos < 1_000_000_000,
    ensures
        r is Some,
        utc_day(secs as int) - 1 <= r->Some_0 <= utc_day(secs as int) + 1,
{
    match chrono::DateTime::from_timestamp(secs, nanos) {
        Some(t) => Some(chrono::Datelike::num_days_from_ce(&t.with_timezone(&chrono::Local).date_naive())),
        None => None,
    }
}

/// The current time in nanoseconds since the Unix epoch, held to the range
/// of `i64`. Any reading of the clock may come back, so any `i64` may.
pub fn now_nanos() -> i64 {
    nanos_from_offset(clock_offset())
}

/// A clock reading in nanoseconds from the epoch held to the range of `i64`.
pub fn nanos_from_offset(offset: Result<u128, u128>) -> (r: i64)
    ensures
        r as int == clamped_nanos(offset),
{
    match offset {
        Ok(n) => {
            if n <= 9_223_372_036_854_775_807u128 {
                n as i64
            } else {
                i64::MAX
            }
        },
        Err(n) => {
            if n <= 9_223_372_036_854_775_808u128 {
                (0i128 - n as i128) as i64
            } else {
                i64::MIN
            }
        },
    }
}

/// A time in nanoseconds since the epoch as whole seconds, rounded down,
/// and the nanoseconds left over.
pub fn split_nanos(t: i64) -> (r: (i64, u32))
    ensures
        r.0 == t as int / 1_000_000_000,
        r.1 == t as int % 1_000_000_000,
{
    if t >= 0 {
        let q: i64 = t / 1_000_000_000;
        let m: i64 = t % 1_000_000_000;
        proof {
            assert(t as int == 1_000_000_000 * q + m) by (nonlinear_arith)
                requires
                    t >= 0,
                    q == t / 1_000_000_000,
                    m == t % 1_000_000_000,
            ;
        }
        (q, m as u32)
    } else {
        let a: u64 = (0i128 - t as i128) as u64;
        let q: u64 = a / 1_000_000_000;
        let m: u64 = a % 1_000_000_000;
        proof {
            assert(a as int == 1_000_000_000 * q + m) by (nonlinear_arith)
                requires
                    q == a / 1_000_000_000,
                    m == a % 1_000_000_000,
            ;
        }
        if m == 0 {
            proof {
                vstd::arithmetic::div_mod::lemma_fundamental_div_mod_converse(
                    t as int, 1_000_000_000, 0 - q, 0);
            }
            (0 - q as i64, 0)
        } else {
            proof {
                vstd::arithmetic::div_mod::lemma_fundamental_div_mod_converse(
                    t as int, 1_000_000_000, 0 - q - 1, 1_000_000_000 - m);
            }
            (0 - q as i64 - 1, (1_000_000_000 - m) as u32)
        }
    }
}

/// The local date (`%Y-%m-%d`) of a time in nanoseconds since the epoch.
pub(crate) fn local_date_label(t: i64) -> (r: String)
    ensures
        is_date_text(r@),
        date_near(r@, t as int / 1_000_000_000),
{
    let (secs, nanos) = split_nanos(t);
    match local_text(secs, nanos, "%Y-%m-%d") {
        Some(s) => s,
        None => String::new(),
    }
}

/// The local date and time (`%Y-%m-%d %H:%M:%S`) of a time in nanoseconds
/// since the epoch.
pub(crate) fn local_timestamp(t: i64) -> (r: String)
    ensures
        is_timestamp_text(r@),
        date_near(r@.take(10), t as int / 1_000_000_000),
{
    let (secs, nanos) = split_nanos(t);
    match local_text(secs, nanos, "%Y-%m-%d %H:%M:%S") {
        Some(s) => s,
        None => String::new(),
    }
}

} // verus!

verus! {

/// Today's day number in the local time zone, read from the clock: the
/// local date of some instant a signed 64-bit count of nanoseconds from the
/// epoch can hold.
pub fn today_day() -> (d: i32)
    ensures
        exists|t: i64| #[trigger] utc_day_of_nanos(t) - 1 <= d <= utc_day_of_nanos(t) + 1,
{
    let t = now_nanos();
    let (secs, nanos) = split_nanos(t);
    assert(utc_day_of_nanos(t) == utc_day(secs as int));
    match local_day(secs, nanos) {
        Some(d) => d,
        None => 0,
    }
}

} // verus!
