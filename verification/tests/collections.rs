use interne::collections::{collection_views, member_count, CollectionWithCount};
use interne::entries::SaveOutcome;
use interne::forms::CollectionForm;
use interne::models::{Collection, CollectionMember, Entry, Interval, User};
use interne::store::Store;
use interne::time::Timestamp;

const NOW: &str = "2023-11-14T22:13:20+00:00";

fn s(text: &str) -> String {
    text.to_string()
}

fn member(collection_id: &str, user_id: &str) -> CollectionMember {
    CollectionMember { collection_id: s(collection_id), user_id: s(user_id), joined_at: s(NOW) }
}

fn store_with_collection() -> Store {
    let mut store = Store::new();
    for id in ["owner", "member", "other"] {
        store.users.push(User::with_identity(s(id), s(id), None, format!("code-{}", id), s(NOW)));
    }
    store.collections.push(Collection::with_identity(
        s("col"),
        s("owner"),
        s("Original"),
        s("invite-789"),
        s(NOW),
    ));
    store.members.push(member("col", "member"));
    store
}

fn form(name: &str) -> CollectionForm {
    CollectionForm { name: s(name) }
}

#[test]
fn create_collection() {
    let mut store = Store::new();
    let outcome =
        store.create_collection(s("u"), &form("My Collection"), s("c1"), s("code-1"), s(NOW));
    assert!(matches!(outcome, SaveOutcome::Saved));
    assert_eq!(store.collections.len(), 1);
    let c = &store.collections[0];
    assert_eq!(c.id, "c1");
    assert_eq!(c.owner_id, "u");
    assert_eq!(c.name, "My Collection");
    assert_eq!(c.invite_code, "code-1");
    assert_eq!(c.created_at, NOW);
    assert_eq!(c.updated_at, NOW);
}

#[test]
fn create_collection_empty_name_shows_error() {
    let mut store = Store::new();
    match store.create_collection(s("u"), &form(""), s("c1"), s("code-1"), s(NOW)) {
        SaveOutcome::Invalid(errors) => assert_eq!(errors.get("name").unwrap(), "Name is required"),
        _ => panic!("an empty name must be refused"),
    }
    assert!(store.collections.is_empty());
}

#[test]
fn show_collection_as_owner() {
    let store = store_with_collection();
    let detail = store.show_collection("owner", "col").unwrap();
    assert_eq!(detail.collection.name, "Original");
    assert_eq!(detail.collection.invite_code, "invite-789");
    assert!(detail.is_owner);
    let ids: Vec<&str> = detail.members.iter().map(|u| u.id.as_str()).collect();
    assert_eq!(ids, vec!["member"]);
}

#[test]
fn show_collection_as_member() {
    let store = store_with_collection();
    let detail = store.show_collection("member", "col").unwrap();
    assert!(!detail.is_owner);
    assert_eq!(detail.members.len(), 1);
}

#[test]
fn show_collection_as_non_member_redirects() {
    let store = store_with_collection();
    assert!(store.show_collection("other", "col").is_none());
    assert!(store.show_collection("owner", "missing").is_none());
}

#[test]
fn update_collection_as_owner() {
    let mut store = store_with_collection();
    let later = "2024-01-01T00:00:00+00:00";
    let outcome = store.update_collection("owner", "col", &form("New Name"), s(later));
    assert!(matches!(outcome, SaveOutcome::Saved));
    assert_eq!(store.collections[0].name, "New Name");
    assert_eq!(store.collections[0].updated_at, later);
    assert_eq!(store.collections[0].created_at, NOW);
    assert_eq!(store.collections[0].invite_code, "invite-789");
}

#[test]
fn update_collection_as_member_does_nothing() {
    let mut store = store_with_collection();
    let outcome = store.update_collection("member", "col", &form("Hacked"), s(NOW));
    assert!(matches!(outcome, SaveOutcome::NotFound));
    assert_eq!(store.collections[0].name, "Original");
}

#[test]
fn update_collection_with_invalid_name_changes_nothing() {
    let mut store = store_with_collection();
    let outcome = store.update_collection("owner", "col", &form(" "), s(NOW));
    assert!(matches!(outcome, SaveOutcome::Invalid(_)));
    let outcome = store.update_collection("other", "col", &form(&"n".repeat(101)), s(NOW));
    assert!(matches!(outcome, SaveOutcome::Invalid(_)));
    assert_eq!(store.collections[0].name, "Original");
}

#[test]
fn delete_collection_as_owner() {
    let mut store = store_with_collection();
    store.collections.push(Collection::with_identity(s("c2"), s("owner"), s("x"), s("k"), s(NOW)));
    store.members.push(member("c2", "other"));
    store.delete_collection("owner", "col");
    assert_eq!(store.collections.len(), 1);
    assert_eq!(store.collections[0].id, "c2");
    // the memberships of the deleted collection go with it
    assert_eq!(store.members.len(), 1);
    assert_eq!(store.members[0].collection_id, "c2");
}

#[test]
fn delete_collection_as_member_does_nothing() {
    let mut store = store_with_collection();
    store.delete_collection("member", "col");
    store.delete_collection("other", "col");
    assert_eq!(store.collections.len(), 1);
    assert_eq!(store.members.len(), 1);
}

#[test]
fn deleting_a_collection_hides_its_entries_from_former_members() {
    let mut store = store_with_collection();
    store.entries.push(Entry {
        id: s("e"),
        user_id: s("owner"),
        collection_id: Some(s("col")),
        url: s("https://example.com"),
        title: s("Shared Entry"),
        description: None,
        duration: 3,
        interval: Interval::Days,
        dismissed_at: None,
        created_at: s(NOW),
        updated_at: s(NOW),
    });
    let now = Timestamp::new(1_700_000_000, 0);
    assert_eq!(store.entries_visible_to("member", now).len(), 1);
    store.delete_collection("owner", "col");
    assert!(store.entries_visible_to("member", now).is_empty());
    assert_eq!(store.entries_visible_to("owner", now).len(), 1);
}

#[test]
fn regenerate_invite_as_owner() {
    let mut store = store_with_collection();
    let later = "2024-01-01T00:00:00+00:00";
    store.regenerate_invite("owner", "col", s("new-code"), s(later));
    assert_eq!(store.collections[0].invite_code, "new-code");
    assert_eq!(store.collections[0].updated_at, later);
    assert_eq!(store.collections[0].name, "Original");
    // the old code lets nobody in
    let outcome = store.join_collection("invite-789", s("other"), s(NOW));
    assert_eq!(outcome, interne::store::JoinOutcome::UnknownCode);
    let outcome = store.join_collection("new-code", s("other"), s(NOW));
    assert_eq!(outcome, interne::store::JoinOutcome::Joined);
}

#[test]
fn regenerate_invite_as_member_does_nothing() {
    let mut store = store_with_collection();
    store.regenerate_invite("member", "col", s("new-code"), s(NOW));
    assert_eq!(store.collections[0].invite_code, "invite-789");
}

#[test]
fn collections_list_counts_the_owner_and_each_member_once() {
    let mut store = store_with_collection();
    store.members.push(member("col", "other"));
    store.members.push(member("col", "member"));
    store.members.push(member("elsewhere", "someone"));
    store.collections.push(Collection::with_identity(s("solo"), s("other"), s("Solo"), s("k"), s(NOW)));
    assert_eq!(member_count(&store.members, &s("col")), 3);
    assert_eq!(member_count(&store.members, &s("solo")), 1);

    let rows = store.collections_visible_to("other");
    let views = collection_views(rows, "other");
    assert_eq!(views.len(), 2);
    assert_eq!(views[0].id, "col");
    assert_eq!(views[0].name, "Original");
    assert!(!views[0].is_owner);
    assert_eq!(views[0].member_count, 3);
    assert_eq!(views[1].id, "solo");
    assert!(views[1].is_owner);
    assert_eq!(views[1].member_count, 1);

    let rows = store.collections_visible_to("owner");
    assert_eq!(rows.len(), 1);
    assert_eq!(rows[0].0.id, "col");
    assert!(store.collections_visible_to("nobody").is_empty());
}

#[test]
fn collection_row_parts_into_collection_and_count() {
    let row = CollectionWithCount {
        id: s("c"),
        owner_id: s("o"),
        name: s("n"),
        invite_code: s("k"),
        created_at: s("t1"),
        updated_at: s("t2"),
        member_count: 4,
    };
    let (c, count) = row.into_collection_and_count();
    assert_eq!(
        (c.id, c.owner_id, c.name, c.invite_code, c.created_at, c.updated_at, count),
        (s("c"), s("o"), s("n"), s("k"), s("t1"), s("t2"), 4)
    );
}
