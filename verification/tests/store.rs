use interne::access::{
    can_mutate_collection, can_mutate_entry, can_view_collection, can_view_entry, check_member,
    check_owner,
};
use interne::entries::SaveOutcome;
use interne::forms::EntryForm;
use interne::listing::{may_stand_before, sort_by_date, DatedRow};
use interne::models::{Collection, CollectionMember, Entry, EntryTag, Interval, Tag, User, Visit};
use interne::store::{JoinOutcome, Store};
use interne::time::Timestamp;

const NOW: &str = "2023-11-14T22:13:20+00:00";
const NOW_SECS: i64 = 1_700_000_000;

fn s(text: &str) -> String {
    text.to_string()
}

fn user(id: &str, code: &str) -> User {
    User::with_identity(s(id), format!("name of {}", id), None, s(code), s(NOW))
}

fn entry(id: &str, user_id: &str, collection_id: Option<&str>, dismissed_at: Option<&str>) -> Entry {
    Entry {
        id: s(id),
        user_id: s(user_id),
        collection_id: collection_id.map(s),
        url: format!("https://example.com/{}", id),
        title: format!("title of {}", id),
        description: None,
        duration: 3,
        interval: Interval::Days,
        dismissed_at: dismissed_at.map(s),
        created_at: s(NOW),
        updated_at: s(NOW),
    }
}

fn collection(id: &str, owner_id: &str, code: &str) -> Collection {
    Collection::with_identity(s(id), s(owner_id), format!("name of {}", id), s(code), s(NOW))
}

/// Owner `owner` with the collection `col` (code `join-code`), a member
/// `member`, an outsider `other`; one private entry and one shared entry of
/// the owner, and one shared entry of the member.
fn shared_store() -> Store {
    let mut store = Store::new();
    store.users.push(user("owner", "code-owner"));
    store.users.push(user("member", "code-member"));
    store.users.push(user("other", "code-other"));
    store.collections.push(collection("col", "owner", "join-code"));
    store.members.push(CollectionMember {
        collection_id: s("col"),
        user_id: s("member"),
        joined_at: s(NOW),
    });
    store.entries.push(entry("private", "owner", None, None));
    store.entries.push(entry("shared", "owner", Some("col"), None));
    store.entries.push(entry("by-member", "member", Some("col"), None));
    store
}

fn titles(store: &Store, user_id: &str, filter: &str) -> Vec<String> {
    let now = Timestamp::new(NOW_SECS, 0);
    let rows = store.entries_visible_to(user_id, now);
    interne::listing::list_filtered_entries(&rows, filter, now)
        .into_iter()
        .map(|view| view.id)
        .collect()
}

fn valid_form(title: &str) -> EntryForm {
    EntryForm {
        url: s("https://example.com"),
        title: s(title),
        description: Some(s("about")),
        duration: 2,
        interval: Interval::Weeks,
        tags: None,
        collection_id: Some(String::new()),
    }
}

// --- access ---

#[test]
fn stranger_cannot_view_private_entry_or_unshared_collection() {
    let store = shared_store();
    let other = s("other");
    for e in &store.entries {
        assert!(!can_view_entry(&other, e, &store.collections, &store.members));
        assert!(!can_mutate_entry(&other, e));
    }
    assert!(!can_view_collection(&other, &store.collections[0], &store.members));
    assert!(!can_mutate_collection(&other, &store.collections[0]));
    assert!(store.find_entry("other", "private").is_none());
    assert!(store.find_entry("other", "shared").is_none());
    assert!(store.find_own_entry("other", "shared").is_none());
    assert!(store.show_collection("other", "col").is_none());
    assert!(store.collections_visible_to("other").is_empty());
    assert!(titles(&store, "other", "all").is_empty());
}

#[test]
fn member_can_view_but_not_mutate_anothers_entry() {
    let store = shared_store();
    let member = s("member");
    let shared = &store.entries[1];
    assert!(can_view_entry(&member, shared, &store.collections, &store.members));
    assert!(!can_mutate_entry(&member, shared));
    assert!(!can_view_entry(&member, &store.entries[0], &store.collections, &store.members));
    assert!(can_view_collection(&member, &store.collections[0], &store.members));
    assert!(!can_mutate_collection(&member, &store.collections[0]));
    assert_eq!(store.find_entry("member", "shared").unwrap().id, "shared");
    assert!(store.find_own_entry("member", "shared").is_none());
}

#[test]
fn owner_can_always_mutate_own_entries_and_collection() {
    let mut store = shared_store();
    let owner = s("owner");
    assert!(can_mutate_entry(&owner, &store.entries[0]));
    assert!(can_mutate_entry(&owner, &store.entries[1]));
    assert!(can_mutate_collection(&owner, &store.collections[0]));
    assert!(can_view_collection(&owner, &store.collections[0], &store.members));
    // the owner of the collection sees what a member placed in it, and cannot change it
    assert!(can_view_entry(&owner, &store.entries[2], &store.collections, &store.members));
    assert!(!can_mutate_entry(&owner, &store.entries[2]));
    // with no memberships at all the owner's rights stand
    store.members.clear();
    assert!(can_mutate_entry(&owner, &store.entries[1]));
    assert!(can_view_entry(&owner, &store.entries[1], &store.collections, &store.members));
    assert!(can_mutate_collection(&owner, &store.collections[0]));
}

#[test]
fn membership_and_ownership_lookups() {
    let store = shared_store();
    assert!(check_member(&store.members, &s("col"), &s("member")));
    assert!(!check_member(&store.members, &s("col"), &s("owner")));
    assert!(!check_member(&store.members, &s("member"), &s("col")));
    assert!(check_owner(&store.collections, &s("col"), &s("owner")));
    assert!(!check_owner(&store.collections, &s("col"), &s("member")));
    assert!(!check_owner(&store.collections, &s("nope"), &s("owner")));
}

// --- joining and leaving ---

#[test]
fn join_collection_via_invite_code() {
    let mut store = shared_store();
    let outcome = store.join_collection("join-code", s("other"), s(NOW));
    assert_eq!(outcome, JoinOutcome::Joined);
    assert_eq!(store.members.len(), 2);
    assert_eq!(store.members[1].collection_id, "col");
    assert_eq!(store.members[1].user_id, "other");
    assert_eq!(store.members[1].joined_at, NOW);
}

#[test]
fn joining_twice_leaves_one_membership() {
    let mut store = shared_store();
    assert_eq!(store.join_collection("join-code", s("other"), s(NOW)), JoinOutcome::Joined);
    assert_eq!(
        store.join_collection("join-code", s("other"), s("2024-01-01T00:00:00+00:00")),
        JoinOutcome::AlreadyMember
    );
    let rows = store
        .members
        .iter()
        .filter(|m| m.collection_id == "col" && m.user_id == "other")
        .count();
    assert_eq!(rows, 1);
    assert_eq!(store.members.len(), 2);
    assert_eq!(store.members[1].joined_at, NOW);
}

#[test]
fn owner_joining_own_collection_gets_no_membership() {
    let mut store = shared_store();
    assert_eq!(store.join_collection("join-code", s("owner"), s(NOW)), JoinOutcome::OwnCollection);
    assert_eq!(store.members.len(), 1);
}

#[test]
fn joining_with_unknown_code_changes_nothing() {
    let mut store = shared_store();
    assert_eq!(store.join_collection("wrong", s("other"), s(NOW)), JoinOutcome::UnknownCode);
    assert_eq!(store.join_collection("", s("other"), s(NOW)), JoinOutcome::UnknownCode);
    assert_eq!(store.members.len(), 1);
}

#[test]
fn member_leaves_collection() {
    let mut store = shared_store();
    store.join_collection("join-code", s("other"), s(NOW));
    store.leave_collection("col", "member");
    assert_eq!(store.members.len(), 1);
    assert_eq!(store.members[0].user_id, "other");
    // leaving again, or leaving as the owner, changes nothing
    store.leave_collection("col", "member");
    store.leave_collection("col", "owner");
    assert_eq!(store.members.len(), 1);
    assert_eq!(store.collections.len(), 1);
    assert_eq!(store.collections[0].owner_id, "owner");
}

#[test]
fn owner_removes_member() {
    let mut store = shared_store();
    store.remove_member("owner", "col", "member");
    assert!(store.members.is_empty());
}

#[test]
fn member_cannot_remove_member() {
    let mut store = shared_store();
    store.join_collection("join-code", s("other"), s(NOW));
    store.remove_member("member", "col", "other");
    store.remove_member("other", "col", "other");
    store.remove_member("owner", "nope", "other");
    assert_eq!(store.members.len(), 2);
}

// --- lists ---

#[test]
fn collection_member_sees_shared_entries() {
    let store = shared_store();
    assert_eq!(titles(&store, "member", "all"), vec!["shared", "by-member"]);
    assert_eq!(titles(&store, "owner", "all"), vec!["private", "shared", "by-member"]);
}

#[test]
fn leaving_collection_hides_shared_entries() {
    let mut store = shared_store();
    store.leave_collection("col", "member");
    assert_eq!(titles(&store, "member", "all"), vec!["by-member"]);
}

#[test]
fn home_shows_only_available_entries() {
    let mut store = Store::new();
    // dismissed 30 days before NOW, and at NOW
    store.entries.push(entry("available", "u", None, Some("2023-10-15T22:13:20+00:00")));
    store.entries.push(entry("not-yet-due", "u", None, Some(NOW)));
    assert_eq!(titles(&store, "u", "ready"), vec!["available"]);
    assert_eq!(titles(&store, "u", "waiting"), vec!["not-yet-due"]);
    assert_eq!(titles(&store, "u", "all"), vec!["not-yet-due", "available"]);
    assert_eq!(titles(&store, "u", "anything else"), vec!["not-yet-due", "available"]);
}

#[test]
fn lists_put_never_dismissed_first_then_latest_dismissal_first() {
    let mut store = Store::new();
    store.entries.push(entry("old", "u", None, Some("2020-01-01T00:00:00Z")));
    store.entries.push(entry("never-1", "u", None, None));
    store.entries.push(entry("new", "u", None, Some("2023-11-01T00:00:00Z")));
    store.entries.push(entry("tie-a", "u", None, Some("2022-06-01T12:00:00Z")));
    store.entries.push(entry("never-2", "u", None, None));
    // the same instant as tie-a, written with another offset
    store.entries.push(entry("tie-b", "u", None, Some("2022-06-01T14:00:00+02:00")));
    // cannot be read: counts as dismissed at NOW
    store.entries.push(entry("unreadable", "u", None, Some("yesterday")));
    assert_eq!(
        titles(&store, "u", "all"),
        vec!["never-1", "never-2", "unreadable", "new", "tie-a", "tie-b", "old"]
    );
}

#[test]
fn unseen_lists_entries_without_visits_available_or_not() {
    let mut store = Store::new();
    store.entries.push(entry("a", "u", None, None));
    store.entries.push(entry("b", "u", None, Some(NOW)));
    store.entries.push(entry("c", "u", None, None));
    let now = Timestamp::new(NOW_SECS, 0);
    assert!(store
        .visit_entry(s("u"), s("c"), s("v1"), s("2023-11-14T20:00:00+00:00"), now)
        .is_some());
    assert_eq!(titles(&store, "u", "unseen"), vec!["a", "b"]);
    let rows = store.entries_visible_to("u", now);
    let counts: Vec<(String, i64)> = rows.into_iter().map(|(e, n)| (e.id, n)).collect();
    assert_eq!(counts, vec![(s("a"), 0), (s("b"), 0), (s("c"), 1)]);
}

// --- entries ---

#[test]
fn visit_entry_updates_availability() {
    let mut store = Store::new();
    store.entries.push(entry("e", "u", None, None));
    let now = Timestamp::new(NOW_SECS, 0);
    assert_eq!(titles(&store, "u", "ready"), vec!["e"]);

    let view = store.visit_entry(s("u"), s("e"), s("v1"), s(NOW), now).unwrap();
    assert_eq!(view.id, "e");
    assert!(!view.is_available);
    assert_eq!(view.available_in.as_deref(), Some("in 3 days"));
    assert_eq!(view.last_viewed.as_deref(), Some("just now"));
    assert_eq!(view.visit_count, 1);

    assert_eq!(store.visits.len(), 1);
    assert_eq!(store.visits[0].id, "v1");
    assert_eq!(store.visits[0].entry_id, "e");
    assert_eq!(store.visits[0].user_id, "u");
    assert_eq!(store.visits[0].visited_at, NOW);
    assert_eq!(store.entries[0].dismissed_at.as_deref(), Some(NOW));
    assert_eq!(store.entries[0].updated_at, NOW);

    assert!(titles(&store, "u", "ready").is_empty());
    assert_eq!(titles(&store, "u", "all"), vec!["e"]);
}

#[test]
fn visit_by_anyone_but_the_creator_does_nothing() {
    let mut store = shared_store();
    let now = Timestamp::new(NOW_SECS, 0);
    assert!(store.visit_entry(s("member"), s("shared"), s("v1"), s(NOW), now).is_none());
    assert!(store.visit_entry(s("other"), s("shared"), s("v2"), s(NOW), now).is_none());
    assert!(store.visit_entry(s("owner"), s("missing"), s("v3"), s(NOW), now).is_none());
    assert!(store.visits.is_empty());
    assert_eq!(store.entries[1].dismissed_at, None);
}

#[test]
fn create_entry_with_valid_form() {
    let mut store = Store::new();
    let mut form = valid_form("Test Entry");
    form.collection_id = Some(s("col"));
    let outcome = store.create_entry(s("u"), &form, s("e1"), s(NOW));
    assert!(matches!(outcome, SaveOutcome::Saved));
    assert_eq!(store.entries.len(), 1);
    let e = &store.entries[0];
    assert_eq!(e.id, "e1");
    assert_eq!(e.user_id, "u");
    assert_eq!(e.collection_id.as_deref(), Some("col"));
    assert_eq!(e.url, "https://example.com");
    assert_eq!(e.title, "Test Entry");
    assert_eq!(e.description.as_deref(), Some("about"));
    assert_eq!(e.duration, 2);
    assert_eq!(e.interval, Interval::Weeks);
    assert_eq!(e.dismissed_at, None);
    assert_eq!(e.created_at, NOW);
    assert_eq!(e.updated_at, NOW);
}

#[test]
fn create_entry_with_empty_title_shows_error() {
    let mut store = Store::new();
    match store.create_entry(s("u"), &valid_form(""), s("e1"), s(NOW)) {
        SaveOutcome::Invalid(errors) => {
            assert_eq!(errors.get("title").unwrap(), "Title is required")
        }
        _ => panic!("an empty title must be refused"),
    }
    assert!(store.entries.is_empty());
}

#[test]
fn create_entry_with_bad_url_shows_error() {
    let mut store = Store::new();
    let mut form = valid_form("t");
    form.url = s("not-a-url");
    match store.create_entry(s("u"), &form, s("e1"), s(NOW)) {
        SaveOutcome::Invalid(errors) => {
            assert!(errors.get("url").unwrap().contains("URL must start with http"))
        }
        _ => panic!("a bad url must be refused"),
    }
    assert!(store.entries.is_empty());
}

#[test]
fn create_entry_with_zero_duration_shows_error() {
    let mut store = Store::new();
    let mut form = valid_form("t");
    form.duration = 0;
    match store.create_entry(s("u"), &form, s("e1"), s(NOW)) {
        SaveOutcome::Invalid(errors) => {
            assert_eq!(errors.get("duration").unwrap(), "Duration must be at least 1")
        }
        _ => panic!("a duration of zero must be refused"),
    }
    assert!(store.entries.is_empty());
}

#[test]
fn edit_entry_as_owner() {
    let mut store = shared_store();
    store.entries[1].dismissed_at = Some(s("2023-01-01T00:00:00Z"));
    let later = "2024-02-02T00:00:00+00:00";
    let outcome = store.update_entry("owner", &s("shared"), &valid_form("Updated Title"), s(later));
    assert!(matches!(outcome, SaveOutcome::Saved));
    let e = &store.entries[1];
    assert_eq!(e.title, "Updated Title");
    assert_eq!(e.url, "https://example.com");
    assert_eq!(e.duration, 2);
    assert_eq!(e.interval, Interval::Weeks);
    assert_eq!(e.collection_id, None);
    assert_eq!(e.updated_at, later);
    assert_eq!(e.created_at, NOW);
    assert_eq!(e.user_id, "owner");
    assert_eq!(e.dismissed_at.as_deref(), Some("2023-01-01T00:00:00Z"));
    assert_eq!(store.entries[0].title, "title of private");
    assert_eq!(store.entries[2].title, "title of by-member");
}

#[test]
fn edit_entry_as_non_owner_redirects() {
    let mut store = shared_store();
    for actor in ["member", "other"] {
        let outcome = store.update_entry(actor, &s("shared"), &valid_form("Hacked"), s(NOW));
        assert!(matches!(outcome, SaveOutcome::NotFound));
        // a form at fault tells a stranger nothing either
        let outcome = store.update_entry(actor, &s("shared"), &valid_form(""), s(NOW));
        assert!(matches!(outcome, SaveOutcome::NotFound));
    }
    assert_eq!(store.entries[1].title, "title of shared");
}

#[test]
fn edit_entry_with_invalid_form_changes_nothing() {
    let mut store = shared_store();
    let outcome = store.update_entry("owner", &s("shared"), &valid_form("  "), s(NOW));
    assert!(matches!(outcome, SaveOutcome::Invalid(_)));
    assert_eq!(store.entries[1].title, "title of shared");
}

#[test]
fn delete_entry_as_owner() {
    let mut store = shared_store();
    store.delete_entry("owner", "shared");
    let ids: Vec<&str> = store.entries.iter().map(|e| e.id.as_str()).collect();
    assert_eq!(ids, vec!["private", "by-member"]);
}

#[test]
fn delete_entry_as_non_owner() {
    let mut store = shared_store();
    store.delete_entry("member", "shared");
    store.delete_entry("other", "shared");
    store.delete_entry("owner", "by-member");
    store.delete_entry("owner", "missing");
    assert_eq!(store.entries.len(), 3);
}

#[test]
fn creating_and_updating_an_entry_links_the_tags_of_its_form() {
    let mut store = Store::new();
    let mut form = valid_form("Tagged");
    form.tags = Some(s("Rust, web"));
    assert!(matches!(store.create_entry(s("u"), &form, s("e1"), s(NOW)), SaveOutcome::Saved));
    assert_eq!(store.entry_tag_names("e1"), vec!["rust", "web"]);

    form.tags = Some(s("python, api, rust"));
    assert!(matches!(store.update_entry("u", &s("e1"), &form, s(NOW)), SaveOutcome::Saved));
    let mut names = store.entry_tag_names("e1");
    names.sort();
    assert_eq!(names, vec!["api", "python", "rust"]);
    assert_eq!(store.entry_tags.len(), 3);

    // a form at fault, or a stranger, leaves the tags alone
    form.title = String::new();
    form.tags = Some(s("nothing"));
    assert!(matches!(store.update_entry("u", &s("e1"), &form, s(NOW)), SaveOutcome::Invalid(_)));
    form.title = s("ok");
    assert!(matches!(store.update_entry("v", &s("e1"), &form, s(NOW)), SaveOutcome::NotFound));
    assert_eq!(store.entry_tags.len(), 3);
    assert_eq!(store.tags.len(), 4);

    // a form without tags takes every tag off
    form.tags = None;
    assert!(matches!(store.update_entry("u", &s("e1"), &form, s(NOW)), SaveOutcome::Saved));
    assert!(store.entry_tags.is_empty());
}

#[test]
fn edit_form_starts_from_the_entry_its_collections_and_its_tags() {
    let mut store = shared_store();
    store.collections.push(collection("foreign", "other", "k"));
    store.tag_entry(&s("shared"), &vec![s("rust"), s("web")], &s(NOW));
    let data = store.edit_entry_form("owner", "shared").unwrap();
    assert_eq!(data.entry.id, "shared");
    assert_eq!(data.tags_string, "rust, web");
    let ids: Vec<&str> = data.collections.iter().map(|c| c.id.as_str()).collect();
    assert_eq!(ids, vec!["col"]);
    assert!(store.edit_entry_form("member", "shared").is_none());
    assert!(store.edit_entry_form("owner", "missing").is_none());
}

#[test]
fn create_user_adds_a_user_with_a_fresh_identity() {
    let mut store = Store::new();
    let user = store.create_user(s("Ann"), Some(s("ann@example.com")));
    assert_eq!(store.users.len(), 1);
    assert_eq!(store.users[0].id, user.id);
    assert_eq!(store.users[0].invite_code, user.invite_code);
    assert_eq!(user.name, "Ann");
    assert_eq!(user.id.len(), 36);
    assert_eq!(user.invite_code.len(), 36);
    assert_eq!(user.created_at, user.updated_at);
    assert!(!user.created_at.is_empty());
    assert_eq!(store.user_for_invite_code(&user.invite_code).unwrap().id, user.id);
}

#[test]
fn sort_by_date_on_given_instants() {
    let row = |id: &str, dismissed: Option<i64>| DatedRow {
        dismissed: dismissed.map(|secs| Timestamp::new(secs, 0)),
        entry: entry(id, "u", None, None),
        visit_count: 0,
    };
    let rows = vec![
        row("early", Some(10)),
        row("never-1", None),
        row("late", Some(30)),
        row("tie-1", Some(20)),
        row("never-2", None),
        row("tie-2", Some(20)),
        row("before-epoch", Some(-5)),
    ];
    let ids: Vec<String> = sort_by_date(&rows).into_iter().map(|r| r.entry.id).collect();
    assert_eq!(ids, vec!["never-1", "never-2", "late", "tie-1", "tie-2", "early", "before-epoch"]);
    assert!(sort_by_date(&Vec::new()).is_empty());

    let a = Some(Timestamp::new(5, 1));
    let b = Some(Timestamp::new(5, 0));
    assert!(may_stand_before(&a, &b));
    assert!(!may_stand_before(&b, &a));
    assert!(may_stand_before(&a, &a));
    assert!(may_stand_before(&None, &a));
    assert!(!may_stand_before(&a, &None));
    assert!(may_stand_before(&None, &None));
}

#[test]
fn a_list_holds_each_visible_entry_exactly_once() {
    let mut store = shared_store();
    // the member is also recorded in a second collection that holds the same entry's owner
    store.collections.push(collection("second", "member", "k2"));
    store.entries.push(entry("own-and-shared", "member", Some("second"), None));
    let now = Timestamp::new(NOW_SECS, 0);
    assert!(store.visit_entry(s("owner"), s("shared"), s("v1"), s(NOW), now).is_some());
    assert!(store.visit_entry(s("owner"), s("shared"), s("v2"), s(NOW), now).is_some());
    let rows = store.entries_visible_to("member", now);
    for id in ["shared", "by-member", "own-and-shared"] {
        assert_eq!(rows.iter().filter(|(e, _)| e.id == id).count(), 1, "{}", id);
    }
    assert_eq!(rows.len(), 3);
    let shared = rows.iter().find(|(e, _)| e.id == "shared").unwrap();
    assert_eq!(shared.0.user_id, "owner");
    assert_eq!(shared.0.title, "title of shared");
    assert_eq!(shared.0.collection_id.as_deref(), Some("col"));
    assert_eq!(shared.1, 2);
}

#[test]
fn operations_keep_the_store_well_formed() {
    let mut store = shared_store();
    let now = Timestamp::new(NOW_SECS, 0);
    assert!(store.is_well_formed());
    store.join_collection("join-code", s("other"), s(NOW));
    store.join_collection("join-code", s("other"), s(NOW));
    store.join_collection("join-code", s("owner"), s(NOW));
    assert!(store.is_well_formed());
    let mut form = valid_form("Tagged");
    form.tags = Some(s("rust, web, rust"));
    store.create_entry(s("other"), &form, s("e-new"), s(NOW));
    store.update_entry("other", &s("e-new"), &form, s(NOW));
    store.update_entry("other", &s("e-new"), &form, s(NOW));
    assert!(store.is_well_formed());
    store.visit_entry(s("other"), s("e-new"), s("v1"), s(NOW), now);
    store.visit_entry(s("other"), s("e-new"), s("v2"), s(NOW), now);
    store.create_user(s("New"), None);
    assert!(store.is_well_formed());
    store.leave_collection("col", "member");
    store.remove_member("owner", "col", "other");
    store.delete_entry("owner", "private");
    store.regenerate_invite("owner", "col", s("fresh"), s(NOW));
    store.delete_collection("owner", "col");
    assert!(store.is_well_formed());
    assert!(Store::new().is_well_formed());
}

#[test]
fn a_store_with_a_row_twice_is_not_well_formed() {
    let mut twice = shared_store();
    twice.users.push(user("owner", "another-code"));
    assert!(!twice.is_well_formed());
    assert!(!twice.users_have_one_row_each());
    assert!(twice.entries_have_one_row_each());

    let mut twice = shared_store();
    twice.entries.push(entry("shared", "member", None, None));
    assert!(!twice.is_well_formed());
    assert!(!twice.entries_have_one_row_each());

    let mut twice = shared_store();
    twice.collections.push(collection("col", "member", "k"));
    assert!(!twice.collections_have_one_row_each());
    assert!(!twice.is_well_formed());

    let mut twice = shared_store();
    twice.members.push(CollectionMember {
        collection_id: s("col"),
        user_id: s("member"),
        joined_at: s("later"),
    });
    assert!(!twice.memberships_have_one_row_each());
    assert!(!twice.is_well_formed());
    twice.members.pop();
    twice.members.push(CollectionMember {
        collection_id: s("col"),
        user_id: s("other"),
        joined_at: s(NOW),
    });
    assert!(twice.is_well_formed());

    let mut twice = Store::new();
    for id in ["v", "v"] {
        twice.visits.push(Visit { id: s(id), entry_id: s("e"), user_id: s("u"), visited_at: s(NOW) });
    }
    assert!(!twice.visits_have_one_row_each());
    assert!(!twice.is_well_formed());

    let mut twice = Store::new();
    twice.tags.push(Tag { id: s("t1"), name: s("rust"), created_at: s(NOW) });
    twice.tags.push(Tag { id: s("t2"), name: s("rust"), created_at: s(NOW) });
    assert!(twice.tags_have_one_row_each());
    assert!(!twice.tag_names_have_one_row_each());
    assert!(!twice.is_well_formed());
    twice.tags[1].name = s("web");
    twice.tags[1].id = s("t1");
    assert!(!twice.tags_have_one_row_each());
    assert!(twice.tag_names_have_one_row_each());

    let mut twice = Store::new();
    twice.entry_tags.push(EntryTag { entry_id: s("e"), tag_id: s("t") });
    twice.entry_tags.push(EntryTag { entry_id: s("e"), tag_id: s("u") });
    twice.entry_tags.push(EntryTag { entry_id: s("f"), tag_id: s("t") });
    assert!(twice.is_well_formed());
    twice.entry_tags.push(EntryTag { entry_id: s("e"), tag_id: s("t") });
    assert!(!twice.links_have_one_row_each());
    assert!(!twice.is_well_formed());
}
