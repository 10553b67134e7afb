//! When a dismissed entry comes back, and how the time until then and the
//! time since the last visit are put into words.

use crate::models::{Entry, Interval};
use crate::text::{decimal, decimal_string, has_prefix, optional_text};
use crate::time::{
    parse_rfc3339, rfc3339_instant, Timestamp, NANOS_PER_DAY, NANOS_PER_HOUR, NANOS_PER_MINUTE,
};
use vstd::prelude::*;

verus! {

/// The length of one unit in nanoseconds. A month counts as 30 days and a
/// year as 365 days, whatever the calendar says.
pub open spec fn unit_nanos(interval: Interval) -> int {
    match interval {
        Interval::Hours => NANOS_PER_HOUR as int,
        Interval::Days => NANOS_PER_DAY as int,
        Interval::Weeks => 7 * NANOS_PER_DAY,
        Interval::Months => 30 * NANOS_PER_DAY,
        Interval::Years => 365 * NANOS_PER_DAY,
    }
}

/// The span for which an entry stays hidden after a visit, in nanoseconds.
pub open spec fn allowance_nanos(duration: int, interval: Interval) -> int {
    duration * unit_nanos(interval)
}

/// The span for which an entry stays hidden after a visit, in nanoseconds.
pub fn allowance(duration: i64, interval: Interval) -> (n: i128)
    ensures
        n == allowance_nanos(duration as int, interval),
        -0x8000_0000_0000_0000 * 31_536_000_000_000_000 <= n <= 0x8000_0000_0000_0000
            * 31_536_000_000_000_000,
{
    let d: i128 = duration as i128;
    match interval {
        Interval::Hours => d * 3_600_000_000_000,
        Interval::Days => d * 86_400_000_000_000,
        Interval::Weeks => d * 604_800_000_000_000,
        Interval::Months => d * 2_592_000_000_000_000,
        Interval::Years => d * 31_536_000_000_000_000,
    }
}

/// The ending of a unit's name after the count `n`.
pub open spec fn plural_suffix(n: nat) -> Seq<char> {
    if n == 1 {
        Seq::empty()
    } else {
        "s"@
    }
}

/// A count with its unit: "1 day", "2 days", "0 minutes".
pub open spec fn counted(n: nat, unit: Seq<char>) -> Seq<char> {
    decimal(n) + " "@ + unit + plural_suffix(n)
}

/// The unit stands in the singular behind a count of one, and in the plural
/// behind every other count, zero included.
pub proof fn lemma_singular_only_for_one(n: nat, unit: Seq<char>)
    ensures
        n == 1 ==> counted(n, unit) == "1 "@ + unit,
        n != 1 ==> counted(n, unit) == decimal(n) + " "@ + unit + "s"@,
{
    reveal_strlit("1 ");
    reveal_strlit(" ");
    if n == 1 {
        assert(counted(n, unit) =~= "1 "@ + unit);
    }
}

/// A count with its unit.
pub fn counted_string(n: u128, unit: &str) -> (s: String)
    ensures
        s@ == counted(n as nat, unit@),
{
    let mut s = decimal_string(n);
    s.append(" ");
    s.append(unit);
    if n != 1 {
        s.append("s");
    }
    assert(s@ =~= counted(n as nat, unit@));
    s
}

/// The words for a positive span of `diff` nanoseconds that is still to
/// pass: the whole days if there is at least one, else the whole hours if
/// there is at least one, else the whole minutes, which may be none.
pub open spec fn remaining_text(diff: int) -> Seq<char> {
    let days = diff / (NANOS_PER_DAY as int);
    let hours = diff / (NANOS_PER_HOUR as int);
    let minutes = diff / (NANOS_PER_MINUTE as int);
    if days > 0 {
        "in "@ + counted(days as nat, "day"@)
    } else if hours > 0 {
        "in "@ + counted(hours as nat, "hour"@)
    } else {
        "in "@ + counted(minutes as nat, "minute"@)
    }
}

/// The words for a span of `diff` nanoseconds that has passed, in the
/// largest unit that applies: years above 365 whole days, months above 30,
/// weeks above 7, then days, hours and minutes where at least one is whole.
/// A span under a minute, and one that is negative, is "just now".
pub open spec fn elapsed_text(diff: int) -> Seq<char> {
    let days = diff / (NANOS_PER_DAY as int);
    let hours = diff / (NANOS_PER_HOUR as int);
    let minutes = diff / (NANOS_PER_MINUTE as int);
    if days > 365 {
        counted((days / 365) as nat, "year"@) + " ago"@
    } else if days > 30 {
        counted((days / 30) as nat, "month"@) + " ago"@
    } else if days > 7 {
        counted((days / 7) as nat, "week"@) + " ago"@
    } else if days > 0 {
        counted(days as nat, "day"@) + " ago"@
    } else if hours > 0 {
        counted(hours as nat, "hour"@) + " ago"@
    } else if minutes > 0 {
        counted(minutes as nat, "minute"@) + " ago"@
    } else {
        "just now"@
    }
}

/// Whether an entry is to be shown at `now`, and if not, the words for the
/// time until it is.
///
/// An entry that was never dismissed is available. One dismissed at `at` is
/// available from `at` plus its allowance on, that instant included.
pub open spec fn availability(
    duration: int,
    interval: Interval,
    dismissed: Option<Timestamp>,
    now: Timestamp,
) -> (bool, Option<Seq<char>>) {
    match dismissed {
        None => (true, None),
        Some(at) => {
            let available_at = at@ + allowance_nanos(duration, interval);
            if now@ >= available_at {
                (true, None)
            } else {
                (false, Some(remaining_text(available_at - now@)))
            }
        },
    }
}

/// The words for the time since the last visit, if there was one.
pub open spec fn last_seen(dismissed: Option<Timestamp>, now: Timestamp) -> Option<Seq<char>> {
    match dismissed {
        None => None,
        Some(at) => Some(elapsed_text(now@ - at@)),
    }
}

/// The instant that a stored `dismissed_at` stands for. A text that cannot
/// be read as a date and time stands for `now`: the entry counts as
/// dismissed this moment.
pub open spec fn dismissed_instant(dismissed_at: Option<String>, now: Timestamp) -> Option<
    Timestamp,
> {
    match dismissed_at {
        None => None,
        Some(text) => match rfc3339_instant(text@) {
            Some(at) => Some(at),
            None => Some(now),
        },
    }
}

/// Reads a stored `dismissed_at`, with `now` in place of a text that cannot
/// be read.
pub fn read_dismissed(dismissed_at: &Option<String>, now: Timestamp) -> (at: Option<Timestamp>)
    ensures
        at == dismissed_instant(*dismissed_at, now),
{
    match dismissed_at {
        None => None,
        Some(text) => match parse_rfc3339(text.as_str()) {
            Some(at) => Some(at),
            None => Some(now),
        },
    }
}

/// The words for a positive span that is still to pass.
fn remaining_string(diff: u128) -> (s: String)
    requires
        diff > 0,
    ensures
        s@ == remaining_text(diff as int),
{
    let days: u128 = diff / 86_400_000_000_000;
    let hours: u128 = diff / 3_600_000_000_000;
    let minutes: u128 = diff / 60_000_000_000;
    let mut s = String::from_str("in ");
    let count = if days > 0 {
        counted_string(days, "day")
    } else if hours > 0 {
        counted_string(hours, "hour")
    } else {
        counted_string(minutes, "minute")
    };
    s.append(count.as_str());
    s
}

/// Whether an entry with the given schedule, dismissed at `dismissed`, is
/// to be shown at `now`, and if not, the words for the time until it is.
pub fn availability_at(
    duration: i64,
    interval: Interval,
    dismissed: Option<Timestamp>,
    now: Timestamp,
) -> (r: (bool, Option<String>))
    ensures
        (r.0, optional_text(r.1)) == availability(duration as int, interval, dismissed, now),
        r.0 <==> r.1 is None,
        dismissed is None ==> r.0,
        dismissed matches Some(at) ==> (r.0 <==> now@ >= at@ + allowance_nanos(
            duration as int,
            interval,
        )),
        r.1 matches Some(words) ==> words@.len() > 3 && has_prefix(words@, "in "@),
{
    match dismissed {
        None => (true, None),
        Some(at) => {
            let available_at: i128 = at.total_nanos() + allowance(duration, interval);
            let current: i128 = now.total_nanos();
            if current >= available_at {
                (true, None)
            } else {
                let diff: i128 = available_at - current;
                let words = remaining_string(diff as u128);
                proof {
                    lemma_remaining_text_shape(diff as int);
                }
                (false, Some(words))
            }
        },
    }
}

/// An entry that was never dismissed is available, whatever its schedule
/// and whatever the time, and has no time to wait.
pub proof fn lemma_never_dismissed_is_available(duration: int, interval: Interval, now: Timestamp)
    ensures
        availability(duration, interval, None, now) == (true, None::<Seq<char>>),
{
}

/// An entry is available at the very instant at which its allowance runs
/// out, and from then on.
pub proof fn lemma_available_from_the_boundary(
    duration: int,
    interval: Interval,
    at: Timestamp,
    now: Timestamp,
)
    requires
        now@ >= at@ + allowance_nanos(duration, interval),
    ensures
        availability(duration, interval, Some(at), now) == (true, None::<Seq<char>>),
{
}

/// Before its allowance runs out an entry is not available, and the time
/// to wait is put into words that begin with "in ".
pub proof fn lemma_waiting_before_the_boundary(
    duration: int,
    interval: Interval,
    at: Timestamp,
    now: Timestamp,
)
    requires
        now@ < at@ + allowance_nanos(duration, interval),
    ensures
        !availability(duration, interval, Some(at), now).0,
        availability(duration, interval, Some(at), now).1 matches Some(words) && words.len() > 3
            && has_prefix(words, "in "@),
{
    lemma_remaining_text_shape(at@ + allowance_nanos(duration, interval) - now@);
}

/// Every text for a span still to pass begins with "in " and goes on.
pub proof fn lemma_remaining_text_shape(diff: int)
    ensures
        remaining_text(diff).len() > 3,
        has_prefix(remaining_text(diff), "in "@),
{
    reveal_strlit("in ");
    reveal_strlit(" ");
    let t = remaining_text(diff);
    assert(t.take(3) =~= "in "@);
}

/// The words for a span that has passed.
fn elapsed_string(diff: i128) -> (s: String)
    ensures
        s@ == elapsed_text(diff as int),
{
    if diff <= 0 {
        return String::from_str("just now");
    }
    let span: u128 = diff as u128;
    let days: u128 = span / 86_400_000_000_000;
    let hours: u128 = span / 3_600_000_000_000;
    let minutes: u128 = span / 60_000_000_000;
    let mut s = if days > 365 {
        counted_string(days / 365, "year")
    } else if days > 30 {
        counted_string(days / 30, "month")
    } else if days > 7 {
        counted_string(days / 7, "week")
    } else if days > 0 {
        counted_string(days, "day")
    } else if hours > 0 {
        counted_string(hours, "hour")
    } else if minutes > 0 {
        counted_string(minutes, "minute")
    } else {
        return String::from_str("just now");
    };
    s.append(" ago");
    s
}

/// The words for the time from `dismissed` to `now`, if the entry was ever
/// dismissed.
pub fn last_viewed_at(dismissed: Option<Timestamp>, now: Timestamp) -> (words: Option<String>)
    ensures
        optional_text(words) == last_seen(dismissed, now),
        words is None <==> dismissed is None,
{
    match dismissed {
        None => None,
        Some(at) => Some(elapsed_string(now.nanos_since(&at))),
    }
}

/// Whether `entry` is to be shown at `now`, and if not, the words for the
/// time until it is.
///
/// The entry's `dismissed_at` is read as RFC 3339 text; a text that cannot
/// be read counts as `now`.
pub fn calculate_availability(entry: &Entry, now: Timestamp) -> (r: (bool, Option<String>))
    ensures
        (r.0, optional_text(r.1)) == availability(
            entry.duration as int,
            entry.interval,
            dismissed_instant(entry.dismissed_at, now),
            now,
        ),
        r.0 <==> r.1 is None,
        entry.dismissed_at is None ==> r.0 && r.1 is None,
        dismissed_instant(entry.dismissed_at, now) matches Some(at) ==> (r.0 <==> now@ >= at@
            + allowance_nanos(entry.duration as int, entry.interval)),
        r.1 matches Some(words) ==> words@.len() > 3 && has_prefix(words@, "in "@),
{
    let dismissed = read_dismissed(&entry.dismissed_at, now);
    availability_at(entry.duration, entry.interval, dismissed, now)
}

/// The words for the time since `dismissed_at`, if there is one.
///
/// The text is read as RFC 3339; one that cannot be read counts as `now`,
/// which gives "just now".
pub fn format_last_viewed(dismissed_at: &Option<String>, now: Timestamp) -> (words: Option<
    String,
>)
    ensures
        optional_text(words) == last_seen(dismissed_instant(*dismissed_at, now), now),
        words is None <==> *dismissed_at is None,
{
    let dismissed = read_dismissed(dismissed_at, now);
    last_viewed_at(dismissed, now)
}

/// What a list shows of one entry.
#[derive(Debug)]
pub struct EntryView {
    pub id: String,
    pub url: String,
    pub title: String,
    pub description: Option<String>,
    /// The words for the time since the last visit.
    pub last_viewed: Option<String>,
    /// The words for the time until the entry comes back; present exactly
    /// where `is_available` is false.
    pub available_in: Option<String>,
    pub is_available: bool,
    /// How many visits of the entry are on record.
    pub visit_count: i64,
}

impl EntryView {
    /// Whether this is what a list shows at `now` of `entry` with
    /// `visit_count` visits.
    pub open spec fn shows(self, entry: Entry, visit_count: i64, now: Timestamp) -> bool {
        let dismissed = dismissed_instant(entry.dismissed_at, now);
        &&& self.id == entry.id
        &&& self.url == entry.url
        &&& self.title == entry.title
        &&& self.description == entry.description
        &&& self.visit_count == visit_count
        &&& (self.is_available, optional_text(self.available_in)) == availability(
            entry.duration as int,
            entry.interval,
            dismissed,
            now,
        )
        &&& optional_text(self.last_viewed) == last_seen(dismissed, now)
    }
}

/// What a list shows at `now` of `entry` with `visit_count` visits.
pub fn build_entry_view(entry: Entry, visit_count: i64, now: Timestamp) -> (view: EntryView)
    ensures
        view.shows(entry, visit_count, now),
        view.is_available <==> view.available_in is None,
{
    let (is_available, available_in) = calculate_availability(&entry, now);
    let last_viewed = format_last_viewed(&entry.dismissed_at, now);
    EntryView {
        id: entry.id,
        url: entry.url,
        title: entry.title,
        description: entry.description,
        last_viewed,
        available_in,
        is_available,
        visit_count,
    }
}

} // verus!
