use interne::models::{Collection, CollectionMember, Interval, Tag, User, Visit};

#[test]
fn interval_display() {
    assert_eq!(Interval::Hours.to_string(), "hours");
    assert_eq!(Interval::Days.to_string(), "days");
    assert_eq!(Interval::Weeks.to_string(), "weeks");
    assert_eq!(Interval::Months.to_string(), "months");
    assert_eq!(Interval::Years.to_string(), "years");
}

#[test]
fn interval_serde_roundtrip() {
    let variants = vec![
        (Interval::Hours, "\"hours\""),
        (Interval::Days, "\"days\""),
        (Interval::Weeks, "\"weeks\""),
        (Interval::Months, "\"months\""),
        (Interval::Years, "\"years\""),
    ];
    for (variant, expected_json) in variants {
        let json = serde_json::to_string(variant.as_str()).unwrap();
        assert_eq!(json, expected_json);
        let name: String = serde_json::from_str(&json).unwrap();
        let deserialized = Interval::parse(&name).unwrap();
        assert_eq!(deserialized, variant);
    }
}

#[test]
fn interval_parse_refuses_other_names() {
    for name in ["", "Days", "day", "days ", " days", "fortnights", "hour"] {
        assert_eq!(Interval::parse(name), None);
    }
}

#[test]
fn interval_parse_legacy_defaults_to_days() {
    assert_eq!(Interval::parse_legacy("weeks"), (Interval::Weeks, true));
    assert_eq!(Interval::parse_legacy("days"), (Interval::Days, true));
    assert_eq!(Interval::parse_legacy("fortnights"), (Interval::Days, false));
    assert_eq!(Interval::parse_legacy(""), (Interval::Days, false));
}

#[test]
fn new_user_has_fresh_identity() {
    let a = User::new("Ann".to_string(), Some("ann@example.com".to_string()));
    let b = User::new("Ann".to_string(), None);
    assert_eq!(a.name, "Ann");
    assert_eq!(a.email.as_deref(), Some("ann@example.com"));
    assert_eq!(b.email, None);
    assert_eq!(a.id.len(), 36);
    assert_eq!(a.invite_code.len(), 36);
    assert_ne!(a.id, b.id);
    assert_ne!(a.id, a.invite_code);
    assert_eq!(a.created_at, a.updated_at);
    assert!(chrono::DateTime::parse_from_rfc3339(&a.created_at).is_ok());
}

#[test]
fn user_with_identity_is_exact() {
    let u = User::with_identity(
        "u1".to_string(),
        "Ann".to_string(),
        None,
        "code".to_string(),
        "2025-01-01T00:00:00+00:00".to_string(),
    );
    assert_eq!(u.id, "u1");
    assert_eq!(u.invite_code, "code");
    assert_eq!(u.created_at, "2025-01-01T00:00:00+00:00");
    assert_eq!(u.updated_at, "2025-01-01T00:00:00+00:00");
}

#[test]
fn new_collection_has_fresh_identity() {
    let c = Collection::new("owner".to_string(), "Reading".to_string());
    assert_eq!(c.owner_id, "owner");
    assert_eq!(c.name, "Reading");
    assert_eq!(c.id.len(), 36);
    assert_eq!(c.invite_code.len(), 36);
    assert_ne!(c.id, c.invite_code);
    assert_eq!(c.created_at, c.updated_at);
}

#[test]
fn new_member_and_visit() {
    let m = CollectionMember::new("c1".to_string(), "u1".to_string());
    assert_eq!(m.collection_id, "c1");
    assert_eq!(m.user_id, "u1");
    assert!(chrono::DateTime::parse_from_rfc3339(&m.joined_at).is_ok());
    let v = Visit::new("e1".to_string(), "u1".to_string());
    assert_eq!(v.entry_id, "e1");
    assert_eq!(v.user_id, "u1");
    assert_eq!(v.id.len(), 36);
    assert!(chrono::DateTime::parse_from_rfc3339(&v.visited_at).is_ok());
}

#[test]
fn new_tag_is_lower_case_and_trimmed() {
    let t = Tag::new("  Rust Lang \n".to_string());
    assert_eq!(t.name, "rust lang");
    assert_eq!(t.id.len(), 36);
    let u = Tag::with_identity("t1".to_string(), "ÉCOLE".to_string(), "now".to_string());
    assert_eq!(u.name, "école");
    assert_eq!(u.id, "t1");
    assert_eq!(u.created_at, "now");
}
