//! Instants of hook events, as the UNIX timestamp and nanosecond parts that
//! `chrono::DateTime<Utc>` exposes, and the differences between them.

use vstd::prelude::*;

verus! {

/// Whether `chrono::DateTime::<Utc>::from_timestamp(secs, nanos)` gives an
/// instant: the second lies in chrono's dates (from January 1 of year
/// -262143 to December 31 of year 262142, UTC), the nanosecond part is below
/// two seconds, and it reaches one second only in the last second of a
/// minute (a leap second).
pub open spec fn utc_instant_exists(secs: i64, nanos: u32) -> bool {
    &&& -8_334_601_228_800 <= secs <= 8_210_266_876_799
    &&& nanos < 2_000_000_000
    &&& nanos >= 1_000_000_000 ==> secs as int % 60 == 59
}

/// Number of whole seconds of the day (UTC) of a UNIX timestamp.
pub open spec fn second_of_day(secs: int) -> int {
    secs % 86_400
}

/// Signed difference `end - start` in nanoseconds, as chrono computes it for
/// `DateTime<Utc>` values: a leap second (a nanosecond part of at least one
/// second) counts as an extra second when the other instant lies in a later
/// (or earlier) second of the day.
pub open spec fn delta_nanos(end_secs: int, end_nanos: int, start_secs: int, start_nanos: int) -> int {
    let adjust: int = if second_of_day(end_secs) > second_of_day(start_secs) && start_nanos >= 1_000_000_000 {
        1
    } else if second_of_day(end_secs) < second_of_day(start_secs) && end_nanos >= 1_000_000_000 {
        -1
    } else {
        0
    };
    (end_secs - start_secs + adjust) * 1_000_000_000 + (end_nanos - start_nanos)
}

/// Integer division rounding toward zero.
pub open spec fn div_toward_zero(a: int, b: int) -> int
    recommends
        b > 0,
{
    if a >= 0 {
        a / b
    } else {
        -((-a) / b)
    }
}

/// Asks chrono whether `DateTime::<Utc>::from_timestamp(secs, nanos)` exists.
/// Claimed: it does exactly as `utc_instant_exists` says, as chrono's
/// `NaiveDate::from_num_days_from_ce_opt` (years `MIN_YEAR` to `MAX_YEAR`) and
/// `NaiveTime::from_num_seconds_from_midnight_opt` decide it.
#[verifier::external_body]
fn chrono_utc_instant_exists(secs: i64, nanos: u32) -> (r: bool)
    ensures
        r == utc_instant_exists(secs, nanos),
{
    chrono::DateTime::<chrono::Utc>::from_timestamp(secs, nanos).is_some()
}

/// Builds both instants with `chrono::DateTime::<Utc>::from_timestamp`,
/// subtracts them and calls `TimeDelta::num_milliseconds`. Claimed: the result
/// is the nanosecond difference of `delta_nanos` truncated toward zero to
/// milliseconds, as chrono's `NaiveTime::signed_duration_since` and
/// `TimeDelta::num_milliseconds` compute it.
#[verifier::external_body]
fn chrono_millis_between(end_secs: i64, end_nanos: u32, start_secs: i64, start_nanos: u32) -> (r: i64)
    requires
        utc_instant_exists(end_secs, end_nanos),
        utc_instant_exists(start_secs, start_nanos),
    ensures
        r == div_toward_zero(delta_nanos(end_secs as int, end_nanos as int, start_secs as int, start_nanos as int), 1_000_000),
{
    let end = chrono::DateTime::<chrono::Utc>::from_timestamp(end_secs, end_nanos).unwrap();
    let start = chrono::DateTime::<chrono::Utc>::from_timestamp(start_secs, start_nanos).unwrap();
    (end - start).num_milliseconds()
}

/// As `chrono_millis_between`, with `TimeDelta::num_seconds`. Claimed: the
/// result is the nanosecond difference truncated toward zero to seconds.
#[verifier::external_body]
fn chrono_seconds_between(end_secs: i64, end_nanos: u32, start_secs: i64, start_nanos: u32) -> (r: i64)
    requires
        utc_instant_exists(end_secs, end_nanos),
        utc_instant_exists(start_secs, start_nanos),
    ensures
        r == div_toward_zero(delta_nanos(end_secs as int, end_nanos as int, start_secs as int, start_nanos as int), 1_000_000_000),
{
    let end = chrono::DateTime::<chrono::Utc>::from_timestamp(end_secs, end_nanos).unwrap();
    let start = chrono::DateTime::<chrono::Utc>::from_timestamp(start_secs, start_nanos).unwrap();
    (end - start).num_seconds()
}

/// The decimal digit `d` (0 to 9) as a character.
pub open spec fn digit_char(d: int) -> char {
    ('0' as int + d) as char
}

/// A number below 100 as two decimal digits.
pub open spec fn two_digits(n: int) -> Seq<char> {
    seq![digit_char(n / 10), digit_char(n % 10)]
}

/// The UTC time of day of an instant as `HH:MM:SS`; the seconds read `60`
/// during a leap second (a nanosecond part of at least one second).
pub open spec fn time_of_day_text(secs: int, nanos: int) -> Seq<char> {
    let day_secs = second_of_day(secs);
    two_digits(day_secs / 3600) + seq![':'] + two_digits(day_secs % 3600 / 60) + seq![':'] + two_digits(
        day_secs % 60 + nanos / 1_000_000_000,
    )
}

/// Builds the instant with `chrono::DateTime::<Utc>::from_timestamp` and
/// formats it with `"%H:%M:%S"`. Claimed: the text is `time_of_day_text`, as
/// chrono's `NaiveTime::hms` and the `write_two` of its formatter (zero
/// padding, the second plus `nanosecond / 1_000_000_000`) give it.
#[verifier::external_body]
fn chrono_time_of_day(secs: i64, nanos: u32) -> (r: String)
    requires
        utc_instant_exists(secs, nanos),
    ensures
        r@ == time_of_day_text(secs as int, nanos as int),
{
    chrono::DateTime::<chrono::Utc>::from_timestamp(secs, nanos).unwrap().format("%H:%M:%S").to_string()
}

/// An instant in UTC: seconds since the UNIX epoch (leap seconds not counted)
/// and the nanoseconds within that second, at least one second during a leap
/// second.
#[derive(Clone, Copy, Debug, PartialEq, Eq)]
pub struct Timestamp {
    secs: i64,
    nanos: u32,
}

impl Timestamp {
    #[verifier::type_invariant]
    spec fn valid(self) -> bool {
        utc_instant_exists(self.secs, self.nanos)
    }

    pub closed spec fn spec_secs(self) -> i64 {
        self.secs
    }

    pub closed spec fn spec_nanos(self) -> u32 {
        self.nanos
    }

    /// The instant with these parts, if chrono has one.
    pub fn new(secs: i64, nanos: u32) -> (r: Option<Timestamp>)
        ensures
            r is Some <==> utc_instant_exists(secs, nanos),
            r matches Some(t) ==> t.spec_secs() == secs && t.spec_nanos() == nanos,
    {
        if chrono_utc_instant_exists(secs, nanos) {
            Some(Timestamp { secs, nanos })
        } else {
            None
        }
    }

    /// Seconds since the UNIX epoch.
    pub fn secs(&self) -> (r: i64)
        ensures
            r == self.spec_secs(),
    {
        self.secs
    }

    /// Nanoseconds within the second.
    pub fn nanos(&self) -> (r: u32)
        ensures
            r == self.spec_nanos(),
    {
        self.nanos
    }
}

/// Nanoseconds from `start` to `end` (negative when `end` is earlier).
pub open spec fn nanos_between(end: Timestamp, start: Timestamp) -> int {
    delta_nanos(end.spec_secs() as int, end.spec_nanos() as int, start.spec_secs() as int, start.spec_nanos() as int)
}

/// Whole milliseconds from `start` to `end`, truncated toward zero.
pub open spec fn spec_millis_between(end: Timestamp, start: Timestamp) -> int {
    div_toward_zero(nanos_between(end, start), 1_000_000)
}

/// Whole seconds from `start` to `end`, truncated toward zero.
pub open spec fn spec_seconds_between(end: Timestamp, start: Timestamp) -> int {
    div_toward_zero(nanos_between(end, start), 1_000_000_000)
}

/// Milliseconds from `start` to `end`, truncated toward zero.
pub fn millis_between(end: &Timestamp, start: &Timestamp) -> (r: i64)
    ensures
        r == spec_millis_between(*end, *start),
{
    proof {
        use_type_invariant(end);
        use_type_invariant(start);
    }
    chrono_millis_between(end.secs, end.nanos, start.secs, start.nanos)
}

/// Seconds from `start` to `end`, truncated toward zero.
pub fn seconds_between(end: &Timestamp, start: &Timestamp) -> (r: i64)
    ensures
        r == spec_seconds_between(*end, *start),
{
    proof {
        use_type_invariant(end);
        use_type_invariant(start);
    }
    chrono_seconds_between(end.secs, end.nanos, start.secs, start.nanos)
}

/// The UTC time of day of an instant as `HH:MM:SS`.
pub fn format_time_short(ts: &Timestamp) -> (r: String)
    ensures
        r@ == time_of_day_text(ts.spec_secs() as int, ts.spec_nanos() as int),
{
    proof {
        use_type_invariant(ts);
    }
    chrono_time_of_day(ts.secs, ts.nanos)
}

/// The difference of two instants changes sign when they are swapped.
pub proof fn lemma_millis_antisymmetric(a: Timestamp, b: Timestamp)
    ensures
        spec_millis_between(a, b) == -spec_millis_between(b, a),
        spec_seconds_between(a, b) == -spec_seconds_between(b, a),
{
    assert(nanos_between(a, b) == -nanos_between(b, a));
}

/// An instant is zero milliseconds from itself.
pub proof fn lemma_millis_reflexive(a: Timestamp)
    ensures
        spec_millis_between(a, a) == 0,
        spec_seconds_between(a, a) == 0,
{
}

} // verus!
