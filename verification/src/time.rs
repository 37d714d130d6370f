use vstd::prelude::*;

verus! {

/// A point in time (UTC): whole seconds since the Unix epoch and the
/// nanoseconds past that second (above 999,999,999 only within a leap second).
#[derive(Debug, Clone, Copy, PartialEq, Eq, Hash, Structural)]
pub struct Timestamp {
    pub secs: i64,
    pub nanos: u32,
}

/// Strict chronological order.
pub open spec fn time_lt(a: Timestamp, b: Timestamp) -> bool {
    a.secs < b.secs || (a.secs == b.secs && a.nanos < b.nanos)
}

/// The day number (1 for January 1 of year 1) of the Unix epoch, 1970-01-01.
pub const UNIX_EPOCH_DAY: i64 = 719_163;

/// Seconds in a day.
pub const SECONDS_PER_DAY: i64 = 86_400;

/// What `chrono`'s `FromStr` for `DateTime<Utc>` makes of a text (RFC 3339
/// with a relaxed separator, any offset converted to UTC): seconds and
/// nanoseconds, or nothing where it reports an error.
pub uninterp spec fn utc_datetime_parse(s: Seq<char>) -> Option<(i64, u32)>;

/// What `chrono::NaiveDate::parse_from_str` makes of a text under a format:
/// the date's day number counted from January 1 of year 1 as day 1, or
/// nothing where it reports an error.
pub uninterp spec fn naive_date_parse(s: Seq<char>, fmt: Seq<char>) -> Option<i32>;

/// Calls `chrono::Utc::now`. Of the result only chrono's bound on the
/// nanoseconds is claimed; the time itself depends on the clock.
#[verifier::external_body]
fn clock_now() -> (t: (i64, u32))
    ensures
        t.1 < 2_000_000_000,
{
    let now = chrono::Utc::now();
    (now.timestamp(), now.timestamp_subsec_nanos())
}

/// Calls `str::parse::<chrono::DateTime<chrono::Utc>>`.
#[verifier::external_body]
fn parse_utc_datetime(s: &str) -> (r: Option<(i64, u32)>)
    ensures
        r == utc_datetime_parse(s@),
{
    s.parse::<chrono::DateTime<chrono::Utc>>().ok().map(|d| (d.timestamp(), d.timestamp_subsec_nanos()))
}

/// Calls `chrono::NaiveDate::parse_from_str` and returns the date's day number.
#[verifier::external_body]
fn parse_naive_date(s: &str, fmt: &str) -> (r: Option<i32>)
    ensures
        r == naive_date_parse(s@, fmt@),
{
    chrono::NaiveDate::parse_from_str(s, fmt).ok().map(|d| chrono::Datelike::num_days_from_ce(&d))
}

/// The time at which a date given by its day number begins (UTC midnight).
pub open spec fn midnight_of_day(day: i32) -> Timestamp {
    Timestamp { secs: ((day - UNIX_EPOCH_DAY) * SECONDS_PER_DAY) as i64, nanos: 0 }
}

impl Timestamp {
    /// The current time.
    pub fn now() -> (t: Timestamp)
        ensures
            t.nanos < 2_000_000_000,
    {
        let (secs, nanos) = clock_now();
        Timestamp { secs, nanos }
    }

    /// Whether this time comes strictly before `other`.
    pub fn is_before(&self, other: &Timestamp) -> (b: bool)
        ensures
            b == time_lt(*self, *other),
    {
        self.secs < other.secs || (self.secs == other.secs && self.nanos < other.nanos)
    }

    /// Reads a full RFC 3339 date-time (converted to UTC).
    pub fn parse_rfc3339(s: &str) -> (r: Option<Timestamp>)
        ensures
            r == (match utc_datetime_parse(s@) {
                Some(p) => Some(Timestamp { secs: p.0, nanos: p.1 }),
                None => None::<Timestamp>,
            }),
    {
        match parse_utc_datetime(s) {
            Some((secs, nanos)) => Some(Timestamp { secs, nanos }),
            None => None,
        }
    }

    /// Reads a date in the given `chrono` format and yields its UTC midnight.
    pub fn parse_date_midnight(s: &str, fmt: &str) -> (r: Option<Timestamp>)
        ensures
            r == (match naive_date_parse(s@, fmt@) {
                Some(day) => Some(midnight_of_day(day)),
                None => None::<Timestamp>,
            }),
    {
        match parse_naive_date(s, fmt) {
            Some(day) => {
                let d = day as i64;
                assert((d - UNIX_EPOCH_DAY) * SECONDS_PER_DAY <= i64::MAX) by (nonlinear_arith)
                    requires
                        i32::MIN <= d <= i32::MAX,
                ;
                assert((d - UNIX_EPOCH_DAY) * SECONDS_PER_DAY >= i64::MIN) by (nonlinear_arith)
                    requires
                        i32::MIN <= d <= i32::MAX,
                ;
                Some(Timestamp { secs: (d - UNIX_EPOCH_DAY) * SECONDS_PER_DAY, nanos: 0 })
            },
            None => None,
        }
    }
}

} // verus!
