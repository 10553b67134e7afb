use chrono::{DateTime, Duration, Utc};
use interne::models::{Entry, Interval};
use interne::schedule::{
    availability_at, build_entry_view, calculate_availability, format_last_viewed, last_viewed_at,
};
use interne::time::Timestamp;

fn instant(at: DateTime<Utc>) -> Timestamp {
    Timestamp::new(at.timestamp(), at.timestamp_subsec_nanos())
}

fn make_entry(duration: i64, interval: Interval, dismissed_at: Option<String>) -> Entry {
    Entry {
        id: "test-id".to_string(),
        user_id: "test-user".to_string(),
        collection_id: None,
        url: "https://example.com".to_string(),
        title: "Test".to_string(),
        description: None,
        duration,
        interval,
        dismissed_at,
        created_at: "2025-01-01T00:00:00+00:00".to_string(),
        updated_at: "2025-01-01T00:00:00+00:00".to_string(),
    }
}

// --- calculate_availability ---

#[test]
fn availability_never_dismissed_is_available() {
    let entry = make_entry(3, Interval::Days, None);
    let now = Utc::now();
    let (available, remaining) = calculate_availability(&entry, instant(now));
    assert!(available);
    assert!(remaining.is_none());
}

#[test]
fn availability_just_dismissed_not_available() {
    let now = Utc::now();
    let dismissed = (now - Duration::seconds(1)).to_rfc3339();
    let entry = make_entry(3, Interval::Days, Some(dismissed));
    let (available, remaining) = calculate_availability(&entry, instant(now));
    assert!(!available);
    assert!(remaining.is_some());
    assert!(remaining.unwrap().starts_with("in "));
}

#[test]
fn availability_past_boundary_is_available() {
    let now = Utc::now();
    let dismissed = (now - Duration::days(4)).to_rfc3339();
    let entry = make_entry(3, Interval::Days, Some(dismissed));
    let (available, remaining) = calculate_availability(&entry, instant(now));
    assert!(available);
    assert!(remaining.is_none());
}

#[test]
fn availability_exactly_at_boundary_is_available() {
    let now = Utc::now();
    let dismissed = (now - Duration::days(3)).to_rfc3339();
    let entry = make_entry(3, Interval::Days, Some(dismissed));
    let (available, remaining) = calculate_availability(&entry, instant(now));
    assert!(available);
    assert!(remaining.is_none());
}

#[test]
fn availability_hours_interval() {
    let now = Utc::now();
    let dismissed = (now - Duration::hours(1)).to_rfc3339();
    let entry = make_entry(2, Interval::Hours, Some(dismissed));
    let (available, remaining) = calculate_availability(&entry, instant(now));
    assert!(!available);
    assert_eq!(remaining.unwrap(), "in 1 hour");
}

#[test]
fn availability_weeks_interval() {
    let now = Utc::now();
    let dismissed = (now - Duration::weeks(1)).to_rfc3339();
    let entry = make_entry(2, Interval::Weeks, Some(dismissed));
    let (available, remaining) = calculate_availability(&entry, instant(now));
    assert!(!available);
    assert_eq!(remaining.unwrap(), "in 7 days");
}

#[test]
fn availability_months_interval() {
    let now = Utc::now();
    let dismissed = (now - Duration::days(1)).to_rfc3339();
    let entry = make_entry(1, Interval::Months, Some(dismissed));
    let (available, remaining) = calculate_availability(&entry, instant(now));
    assert!(!available);
    assert_eq!(remaining.unwrap(), "in 29 days");
}

#[test]
fn availability_years_interval() {
    let now = Utc::now();
    let dismissed = (now - Duration::days(1)).to_rfc3339();
    let entry = make_entry(1, Interval::Years, Some(dismissed));
    let (available, remaining) = calculate_availability(&entry, instant(now));
    assert!(!available);
    assert!(remaining.unwrap().contains("days"));
}

#[test]
fn availability_singular_day() {
    let now = Utc::now();
    let dismissed = (now - Duration::days(2)).to_rfc3339();
    let entry = make_entry(3, Interval::Days, Some(dismissed));
    let (available, remaining) = calculate_availability(&entry, instant(now));
    assert!(!available);
    assert_eq!(remaining.unwrap(), "in 1 day");
}

#[test]
fn availability_plural_days() {
    let now = Utc::now();
    let dismissed = now.to_rfc3339();
    let entry = make_entry(3, Interval::Days, Some(dismissed));
    let (available, remaining) = calculate_availability(&entry, instant(now));
    assert!(!available);
    assert_eq!(remaining.unwrap(), "in 3 days");
}

// --- format_last_viewed ---

#[test]
fn last_viewed_none_returns_none() {
    let now = Utc::now();
    assert!(format_last_viewed(&None, instant(now)).is_none());
}

#[test]
fn last_viewed_just_now() {
    let now = Utc::now();
    let dismissed = Some(now.to_rfc3339());
    assert_eq!(format_last_viewed(&dismissed, instant(now)).unwrap(), "just now");
}

#[test]
fn last_viewed_singular_minute() {
    let now = Utc::now();
    let dismissed = Some((now - Duration::minutes(1)).to_rfc3339());
    assert_eq!(format_last_viewed(&dismissed, instant(now)).unwrap(), "1 minute ago");
}

#[test]
fn last_viewed_plural_minutes() {
    let now = Utc::now();
    let dismissed = Some((now - Duration::minutes(45)).to_rfc3339());
    assert_eq!(format_last_viewed(&dismissed, instant(now)).unwrap(), "45 minutes ago");
}

#[test]
fn last_viewed_singular_hour() {
    let now = Utc::now();
    let dismissed = Some((now - Duration::hours(1)).to_rfc3339());
    assert_eq!(format_last_viewed(&dismissed, instant(now)).unwrap(), "1 hour ago");
}

#[test]
fn last_viewed_plural_hours() {
    let now = Utc::now();
    let dismissed = Some((now - Duration::hours(5)).to_rfc3339());
    assert_eq!(format_last_viewed(&dismissed, instant(now)).unwrap(), "5 hours ago");
}

#[test]
fn last_viewed_singular_day() {
    let now = Utc::now();
    let dismissed = Some((now - Duration::days(1)).to_rfc3339());
    assert_eq!(format_last_viewed(&dismissed, instant(now)).unwrap(), "1 day ago");
}

#[test]
fn last_viewed_plural_days() {
    let now = Utc::now();
    let dismissed = Some((now - Duration::days(5)).to_rfc3339());
    assert_eq!(format_last_viewed(&dismissed, instant(now)).unwrap(), "5 days ago");
}

#[test]
fn last_viewed_singular_week() {
    let now = Utc::now();
    let dismissed = Some((now - Duration::days(8)).to_rfc3339());
    assert_eq!(format_last_viewed(&dismissed, instant(now)).unwrap(), "1 week ago");
}

#[test]
fn last_viewed_plural_weeks() {
    let now = Utc::now();
    let dismissed = Some((now - Duration::weeks(3)).to_rfc3339());
    assert_eq!(format_last_viewed(&dismissed, instant(now)).unwrap(), "3 weeks ago");
}

#[test]
fn last_viewed_singular_month() {
    let now = Utc::now();
    let dismissed = Some((now - Duration::days(31)).to_rfc3339());
    assert_eq!(format_last_viewed(&dismissed, instant(now)).unwrap(), "1 month ago");
}

#[test]
fn last_viewed_plural_months() {
    let now = Utc::now();
    let dismissed = Some((now - Duration::days(90)).to_rfc3339());
    assert_eq!(format_last_viewed(&dismissed, instant(now)).unwrap(), "3 months ago");
}

#[test]
fn last_viewed_singular_year() {
    let now = Utc::now();
    let dismissed = Some((now - Duration::days(400)).to_rfc3339());
    assert_eq!(format_last_viewed(&dismissed, instant(now)).unwrap(), "1 year ago");
}

#[test]
fn last_viewed_plural_years() {
    let now = Utc::now();
    let dismissed = Some((now - Duration::days(800)).to_rfc3339());
    assert_eq!(format_last_viewed(&dismissed, instant(now)).unwrap(), "2 years ago");
}

// --- fixed instants ---

const DAY: i64 = 86_400;

fn at(secs: i64) -> Timestamp {
    Timestamp::new(secs, 0)
}

#[test]
fn three_day_entry_dismissed_two_days_ago_is_waiting_one_day() {
    let now = at(1_700_000_000);
    let (available, remaining) =
        availability_at(3, Interval::Days, Some(at(1_700_000_000 - 2 * DAY)), now);
    assert!(!available);
    assert_eq!(remaining.unwrap(), "in 1 day");
}

#[test]
fn three_day_entry_dismissed_three_days_ago_is_available() {
    let now = at(1_700_000_000);
    let (available, remaining) =
        availability_at(3, Interval::Days, Some(at(1_700_000_000 - 3 * DAY)), now);
    assert!(available);
    assert!(remaining.is_none());
}

#[test]
fn one_nanosecond_before_the_boundary_is_zero_minutes() {
    let now = Timestamp::new(1_700_000_000 + 3600 - 1, 999_999_999);
    let (available, remaining) = availability_at(1, Interval::Hours, Some(at(1_700_000_000)), now);
    assert!(!available);
    assert_eq!(remaining.unwrap(), "in 0 minutes");
}

#[test]
fn remaining_hours_and_minutes_in_singular_and_plural() {
    let dismissed = Some(at(1_700_000_000));
    let cases: Vec<(i64, &str)> = vec![
        (0, "in 2 days"),
        (DAY, "in 1 day"),
        (DAY + 1, "in 23 hours"),
        (2 * DAY - 7200, "in 2 hours"),
        (2 * DAY - 3600, "in 1 hour"),
        (2 * DAY - 3599, "in 59 minutes"),
        (2 * DAY - 120, "in 2 minutes"),
        (2 * DAY - 60, "in 1 minute"),
        (2 * DAY - 59, "in 0 minutes"),
    ];
    for (elapsed, expected) in cases {
        let (available, remaining) =
            availability_at(2, Interval::Days, dismissed, at(1_700_000_000 + elapsed));
        assert!(!available);
        assert_eq!(remaining.unwrap(), expected);
    }
}

#[test]
fn months_count_thirty_days_and_years_three_hundred_sixty_five() {
    let dismissed = Some(at(0));
    let (_, one_month) = availability_at(1, Interval::Months, dismissed, at(0));
    assert_eq!(one_month.unwrap(), "in 30 days");
    let (_, two_years) = availability_at(2, Interval::Years, dismissed, at(0));
    assert_eq!(two_years.unwrap(), "in 730 days");
    let (_, three_weeks) = availability_at(3, Interval::Weeks, dismissed, at(0));
    assert_eq!(three_weeks.unwrap(), "in 21 days");
    let (available, _) = availability_at(1, Interval::Months, dismissed, at(30 * DAY));
    assert!(available);
    let (available, _) = availability_at(1, Interval::Years, dismissed, at(365 * DAY - 1));
    assert!(!available);
}

#[test]
fn a_huge_duration_does_not_overflow() {
    let (available, remaining) =
        availability_at(i64::MAX, Interval::Years, Some(at(i64::MAX)), at(i64::MIN));
    assert!(!available);
    assert_eq!(remaining.unwrap(), "in 3366531006955975504156 days");
}

#[test]
fn a_duration_of_zero_or_less_is_available_at_once() {
    let (available, _) = availability_at(0, Interval::Days, Some(at(100)), at(100));
    assert!(available);
    let (available, _) = availability_at(-1, Interval::Days, Some(at(100)), at(100 - DAY));
    assert!(available);
}

#[test]
fn last_viewed_thresholds_at_fixed_instants() {
    let now = at(1_700_000_000);
    let cases: Vec<(i64, &str)> = vec![
        (0, "just now"),
        (59, "just now"),
        (60, "1 minute ago"),
        (45 * 60, "45 minutes ago"),
        (3600, "1 hour ago"),
        (5 * 3600, "5 hours ago"),
        (DAY, "1 day ago"),
        (7 * DAY, "7 days ago"),
        (8 * DAY, "1 week ago"),
        (21 * DAY, "3 weeks ago"),
        (30 * DAY, "4 weeks ago"),
        (31 * DAY, "1 month ago"),
        (90 * DAY, "3 months ago"),
        (365 * DAY, "12 months ago"),
        (366 * DAY, "1 year ago"),
        (400 * DAY, "1 year ago"),
        (800 * DAY, "2 years ago"),
    ];
    for (elapsed, expected) in cases {
        let words = last_viewed_at(Some(at(1_700_000_000 - elapsed)), now);
        assert_eq!(words.unwrap(), expected);
    }
}

#[test]
fn last_viewed_in_the_future_is_just_now() {
    let words = last_viewed_at(Some(at(2_000_000_000)), at(1_000_000_000));
    assert_eq!(words.unwrap(), "just now");
    assert!(last_viewed_at(None, at(0)).is_none());
}

#[test]
fn unreadable_dismissed_at_counts_as_now() {
    let now = at(1_700_000_000);
    let entry = make_entry(3, Interval::Days, Some("not a date".to_string()));
    let (available, remaining) = calculate_availability(&entry, now);
    assert!(!available);
    assert_eq!(remaining.unwrap(), "in 3 days");
    assert_eq!(format_last_viewed(&entry.dismissed_at, now).unwrap(), "just now");
}

#[test]
fn dismissed_at_is_read_with_its_offset_and_fraction() {
    // 2023-11-14T22:13:20Z is 1_700_000_000 seconds after the epoch.
    let entry = make_entry(1, Interval::Hours, Some("2023-11-15T00:13:20.5+02:00".to_string()));
    let (available, remaining) =
        calculate_availability(&entry, Timestamp::new(1_700_000_000 + 1800, 500_000_000));
    assert!(!available);
    assert_eq!(remaining.unwrap(), "in 30 minutes");
    let (available, _) =
        calculate_availability(&entry, Timestamp::new(1_700_000_000 + 3600, 500_000_000));
    assert!(available);
    let (available, remaining) =
        calculate_availability(&entry, Timestamp::new(1_700_000_000 + 3600, 499_999_999));
    assert!(!available);
    assert_eq!(remaining.unwrap(), "in 0 minutes");
}

#[test]
fn entry_view_carries_the_entry_and_its_schedule() {
    let now = at(1_700_000_000);
    let mut entry = make_entry(3, Interval::Days, Some("2023-11-12T22:13:20Z".to_string()));
    entry.description = Some("notes".to_string());
    let view = build_entry_view(entry, 4, now);
    assert_eq!(view.id, "test-id");
    assert_eq!(view.url, "https://example.com");
    assert_eq!(view.title, "Test");
    assert_eq!(view.description.as_deref(), Some("notes"));
    assert_eq!(view.visit_count, 4);
    assert!(!view.is_available);
    assert_eq!(view.available_in.as_deref(), Some("in 1 day"));
    assert_eq!(view.last_viewed.as_deref(), Some("2 days ago"));

    let fresh = build_entry_view(make_entry(3, Interval::Days, None), 0, now);
    assert!(fresh.is_available);
    assert!(fresh.available_in.is_none());
    assert!(fresh.last_viewed.is_none());
}
