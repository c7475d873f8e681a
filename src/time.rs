//! Instants in UTC, held as whole seconds since the Unix epoch.

use vstd::prelude::*;

verus! {

/// How far, in seconds, a [`Timestamp`] may lie on either side of the epoch.
///
/// chrono represents years -262144 to 262143, which is within about
/// 8.4e12 seconds of the epoch, so every instant it can hold fits.
pub const TIME_LIMIT: i64 = 10_000_000_000_000;

/// An instant in UTC, in whole seconds since 1970-01-01T00:00:00Z.
#[derive(Clone, Copy, Debug, PartialEq, Eq, Structural)]
pub struct Timestamp {
    secs: i64,
}

impl Timestamp {
    #[verifier::type_invariant]
    spec fn in_range(self) -> bool {
        -TIME_LIMIT <= self.secs <= TIME_LIMIT
    }

    /// Seconds since the epoch.
    pub closed spec fn seconds(self) -> int {
        self.secs as int
    }

    /// The instant `secs` seconds after the epoch, if it is within
    /// [`TIME_LIMIT`] of it.
    pub fn from_seconds(secs: i64) -> (r: Option<Timestamp>)
        ensures
            r is Some <==> -TIME_LIMIT <= secs <= TIME_LIMIT,
            r matches Some(t) ==> t.seconds() == secs,
    {
        if -TIME_LIMIT <= secs && secs <= TIME_LIMIT {
            Some(Timestamp { secs })
        } else {
            None
        }
    }

    /// Seconds since the epoch.
    pub fn seconds_since_epoch(&self) -> (r: i64)
        ensures
            r == self.seconds(),
            -TIME_LIMIT <= r <= TIME_LIMIT,
    {
        proof {
            use_type_invariant(self);
        }
        self.secs
    }
}

/// The second at which the UTC day named by a `YYYY-MM-DD` date begins, as
/// chrono reads that format; `None` where chrono rejects the text.
pub uninterp spec fn day_start_of(date: Seq<char>) -> Option<int>;

/// Relies on chrono's `NaiveDate::parse_from_str` with the format
/// `%Y-%m-%d`; the date found is taken at midnight UTC and counted in
/// seconds since the epoch.
#[verifier::external_body]
fn parse_day_start(date: &str) -> (r: Option<i64>)
    ensures
        r is Some <==> day_start_of(date@) is Some,
        r matches Some(t) ==> day_start_of(date@) == Some(t as int),
{
    chrono::NaiveDate::parse_from_str(date, "%Y-%m-%d")
        .ok()
        .and_then(|d| d.and_hms_opt(0, 0, 0))
        .map(|dt| dt.and_utc().timestamp())
}

/// Reads a `YYYY-MM-DD` date as the instant its UTC day begins.
///
/// `None` where the text is not such a date, or where the instant lies
/// beyond [`TIME_LIMIT`].
pub fn datetime(date: &str) -> (r: Option<Timestamp>)
    ensures
        r is Some <==> (day_start_of(date@) matches Some(t) && -TIME_LIMIT <= t <= TIME_LIMIT),
        r matches Some(ts) ==> day_start_of(date@) == Some(ts.seconds()),
{
    match parse_day_start(date) {
        Some(t) => Timestamp::from_seconds(t),
        None => None,
    }
}

} // verus!
