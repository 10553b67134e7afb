//! Instants and spans, counted in nanoseconds.

use vstd::prelude::*;

verus! {

/// Nanoseconds in one second.
pub const NANOS_PER_SECOND: i128 = 1_000_000_000;

/// Nanoseconds in one minute.
pub const NANOS_PER_MINUTE: i128 = 60_000_000_000;

/// Nanoseconds in one hour.
pub const NANOS_PER_HOUR: i128 = 3_600_000_000_000;

/// Nanoseconds in one day.
pub const NANOS_PER_DAY: i128 = 86_400_000_000_000;

/// A UTC instant: whole seconds since 1970-01-01T00:00:00Z and the
/// nanoseconds that follow them.
///
/// `nanos` is below one second for every ordinary instant. A leap second is
/// written with `nanos` of one second or more and reads as running into the
/// second after it.
#[derive(Clone, Copy, Debug, PartialEq, Eq, Structural)]
pub struct Timestamp {
    pub secs: i64,
    pub nanos: u32,
}

impl View for Timestamp {
    type V = int;

    /// Nanoseconds since the epoch.
    open spec fn view(&self) -> int {
        self.secs * 1_000_000_000 + self.nanos
    }
}

impl Timestamp {
    /// The instant `secs` seconds and `nanos` nanoseconds after the epoch.
    pub fn new(secs: i64, nanos: u32) -> (t: Timestamp)
        ensures
            t.secs == secs,
            t.nanos == nanos,
            t@ == secs * 1_000_000_000 + nanos,
    {
        Timestamp { secs, nanos }
    }

    /// Nanoseconds since the epoch.
    pub fn total_nanos(&self) -> (n: i128)
        ensures
            n == self@,
    {
        let secs: i128 = self.secs as i128;
        let nanos: i128 = self.nanos as i128;
        secs * NANOS_PER_SECOND + nanos
    }

    /// Nanoseconds from `earlier` to `self`; negative where `self` comes first.
    pub fn nanos_since(&self, earlier: &Timestamp) -> (n: i128)
        ensures
            n == self@ - earlier@,
    {
        self.total_nanos() - earlier.total_nanos()
    }
}


/// What `chrono` makes of `text` when it reads it as a date and time in
/// RFC 3339 form and brings the result to UTC: the instant read, or `None`
/// where `chrono` refuses the text.
pub uninterp spec fn rfc3339_instant(text: Seq<char>) -> Option<Timestamp>;

/// Reads `text` as an RFC 3339 date and time.
///
/// Calls `chrono`'s `FromStr` for `DateTime<Utc>` and takes the result apart
/// with `DateTime::timestamp` and `DateTime::timestamp_subsec_nanos`. The
/// parser is long, and its result depends on the text alone, so the contract
/// only gives that result its name.
#[verifier::external_body]
pub(crate) fn parse_rfc3339(text: &str) -> (r: Option<Timestamp>)
    ensures
        r == rfc3339_instant(text@),
{
    match text.parse::<chrono::DateTime<chrono::Utc>>() {
        Ok(at) => Some(Timestamp { secs: at.timestamp(), nanos: at.timestamp_subsec_nanos() }),
        Err(_) => None,
    }
}

/// The current time as RFC 3339 text.
///
/// Calls `chrono::Utc::now` and `DateTime::to_rfc3339`. The result changes
/// from call to call, so the contract claims nothing of it.
#[verifier::external_body]
pub(crate) fn clock_rfc3339() -> String {
    chrono::Utc::now().to_rfc3339()
}

} // verus!
