use interne::listing::EntryWithCount;
use interne::models::{Entry, EntryTag, Interval, Tag};
use interne::store::Store;
use interne::tags::{
    build_tag_cloud, count_range, drop_empty_names, join_texts, parse_tag_list, split_commas,
    stored_names, TagWeight, TagWithCount,
};

const NOW: &str = "2023-11-14T22:13:20+00:00";

fn s(text: &str) -> String {
    text.to_string()
}

fn texts(list: &[&str]) -> Vec<String> {
    list.iter().map(|t| t.to_string()).collect()
}

fn entry(id: &str, user_id: &str) -> Entry {
    Entry {
        id: s(id),
        user_id: s(user_id),
        collection_id: None,
        url: s("https://example.com"),
        title: s(id),
        description: None,
        duration: 3,
        interval: Interval::Days,
        dismissed_at: None,
        created_at: s(NOW),
        updated_at: s(NOW),
    }
}

fn tags_with_counts(counts: &[i64]) -> Vec<TagWithCount> {
    counts
        .iter()
        .enumerate()
        .map(|(i, count)| TagWithCount { name: format!("tag{}", i), count: *count })
        .collect()
}

/// Where a weight stands between 0 and 1 on the logarithmic scale.
fn ratio(weight: TagWeight) -> f64 {
    match weight {
        TagWeight::Midpoint => 0.5,
        TagWeight::Between { count, min_count, max_count } => {
            ((count as f64).ln() - (min_count as f64).ln())
                / ((max_count as f64).ln() - (min_count as f64).ln())
        }
    }
}

#[test]
fn tag_cloud_of_nothing_is_empty() {
    assert!(build_tag_cloud(Vec::new()).is_empty());
}

#[test]
fn tag_cloud_weights_increase_with_count() {
    let cloud = build_tag_cloud(tags_with_counts(&[1, 5, 50]));
    assert_eq!(cloud.len(), 3);
    for (item, count) in cloud.iter().zip([1, 5, 50]) {
        assert_eq!(item.count, count);
        assert_eq!(item.weight, TagWeight::Between { count, min_count: 1, max_count: 50 });
    }
    let sizes: Vec<f64> = cloud.iter().map(|i| 0.75 + ratio(i.weight) * (2.5 - 0.75)).collect();
    let lightness: Vec<f64> = cloud.iter().map(|i| 70.0 - ratio(i.weight) * (70.0 - 35.0)).collect();
    assert!(sizes[0] < sizes[1] && sizes[1] < sizes[2]);
    assert!(lightness[0] > lightness[1] && lightness[1] > lightness[2]);
    assert_eq!(sizes[0], 0.75);
    assert_eq!(sizes[2], 2.5);
}

#[test]
fn tag_cloud_of_equal_counts_is_all_midpoint() {
    let cloud = build_tag_cloud(tags_with_counts(&[7, 7, 7]));
    assert_eq!(cloud.len(), 3);
    for item in &cloud {
        assert_eq!(item.weight, TagWeight::Midpoint);
        assert_eq!(item.count, 7);
    }
    let one = build_tag_cloud(tags_with_counts(&[3]));
    assert_eq!(one[0].weight, TagWeight::Midpoint);
    assert_eq!(one[0].name, "tag0");
}

#[test]
fn tag_cloud_keeps_names_and_order() {
    let cloud = build_tag_cloud(vec![
        TagWithCount { name: s("web"), count: 9 },
        TagWithCount { name: s("rust"), count: 2 },
        TagWithCount { name: s("music"), count: 4 },
    ]);
    let names: Vec<&str> = cloud.iter().map(|i| i.name.as_str()).collect();
    assert_eq!(names, vec!["web", "rust", "music"]);
    assert_eq!(cloud[1].weight, TagWeight::Between { count: 2, min_count: 2, max_count: 9 });
    assert_eq!(cloud[0].weight, TagWeight::Between { count: 9, min_count: 2, max_count: 9 });
}

#[test]
fn count_range_finds_least_and_greatest() {
    assert_eq!(count_range(&tags_with_counts(&[4])), (4, 4));
    assert_eq!(count_range(&tags_with_counts(&[4, 1, 9, 1, 9, 3])), (1, 9));
    assert_eq!(count_range(&tags_with_counts(&[-2, 0])), (-2, 0));
}

#[test]
fn split_commas_keeps_every_piece() {
    assert_eq!(split_commas(""), texts(&[""]));
    assert_eq!(split_commas("rust"), texts(&["rust"]));
    assert_eq!(split_commas("rust,web"), texts(&["rust", "web"]));
    assert_eq!(split_commas(",a,, b ,"), texts(&["", "a", "", " b ", ""]));
    assert_eq!(split_commas(","), texts(&["", ""]));
    assert_eq!(split_commas("é,ü"), texts(&["é", "ü"]));
}

#[test]
fn parse_tag_list_trims_lowers_and_drops_empty_names() {
    assert_eq!(parse_tag_list("rust, web"), texts(&["rust", "web"]));
    assert_eq!(parse_tag_list("  Rust ,WEB,, ,\tMusic\n"), texts(&["rust", "web", "music"]));
    assert_eq!(parse_tag_list(""), Vec::<String>::new());
    assert_eq!(parse_tag_list(" , ,"), Vec::<String>::new());
    assert_eq!(parse_tag_list("Two Words,ÉCOLE"), texts(&["two words", "école"]));
    assert_eq!(parse_tag_list("rust,rust"), texts(&["rust", "rust"]));
}

#[test]
fn join_texts_puts_the_separator_between() {
    assert_eq!(join_texts(&Vec::new(), ", "), "");
    assert_eq!(join_texts(&texts(&["rust"]), ", "), "rust");
    assert_eq!(join_texts(&texts(&["rust", "web", "api"]), ", "), "rust, web, api");
    assert_eq!(join_texts(&texts(&["", ""]), "-"), "-");
}

#[test]
fn create_entry_with_tags() {
    let mut store = Store::new();
    store.entries.push(entry("e", "u"));
    store.tag_entry(&s("e"), &parse_tag_list("rust, web"), &s(NOW));
    let mut names: Vec<&str> = store.tags.iter().map(|t| t.name.as_str()).collect();
    names.sort();
    assert_eq!(names, vec!["rust", "web"]);
    assert_eq!(store.entry_tags.len(), 2);
    for tag in &store.tags {
        assert_eq!(tag.id.len(), 36);
        assert_eq!(tag.created_at, NOW);
    }
    assert_eq!(store.entry_tag_names("e"), texts(&["rust", "web"]));
}

#[test]
fn update_entry_replaces_tags() {
    let mut store = Store::new();
    store.entries.push(entry("e", "u"));
    store.tag_entry(&s("e"), &parse_tag_list("rust, web"), &s(NOW));
    store.tag_entry(&s("e"), &parse_tag_list("python, api"), &s(NOW));
    let mut names = store.entry_tag_names("e");
    names.sort();
    assert_eq!(names, texts(&["api", "python"]));
    // the tags themselves stay
    assert_eq!(store.tags.len(), 4);
    assert_eq!(store.entry_tags.len(), 2);
}

#[test]
fn tagging_twice_with_the_same_tags_links_once() {
    let mut store = Store::new();
    store.entries.push(entry("e", "u"));
    store.entries.push(entry("f", "u"));
    store.tag_entry(&s("f"), &parse_tag_list("web"), &s(NOW));
    store.tag_entry(&s("e"), &parse_tag_list("rust, web, Rust"), &s(NOW));
    let tags_after_first: Vec<(String, String)> =
        store.tags.iter().map(|t| (t.id.clone(), t.name.clone())).collect();
    let mut links_after_first: Vec<(String, String)> =
        store.entry_tags.iter().map(|l| (l.entry_id.clone(), l.tag_id.clone())).collect();
    assert_eq!(store.tags.len(), 2);
    assert_eq!(store.entry_tags.len(), 3);

    store.tag_entry(&s("e"), &parse_tag_list("rust, web, Rust"), &s("2024-01-01T00:00:00Z"));
    let tags_after_second: Vec<(String, String)> =
        store.tags.iter().map(|t| (t.id.clone(), t.name.clone())).collect();
    let mut links_after_second: Vec<(String, String)> =
        store.entry_tags.iter().map(|l| (l.entry_id.clone(), l.tag_id.clone())).collect();
    assert_eq!(tags_after_first, tags_after_second);
    links_after_first.sort();
    links_after_second.sort();
    assert_eq!(links_after_first, links_after_second);
    for tag in &store.tags {
        let links = store
            .entry_tags
            .iter()
            .filter(|l| l.entry_id == "e" && l.tag_id == tag.id)
            .count();
        assert_eq!(links, 1);
    }
}

#[test]
fn link_tag_looks_up_or_creates() {
    let mut store = Store::new();
    store.link_tag(s("e"), s("rust"), s("t1"), s(NOW));
    store.link_tag(s("f"), s("rust"), s("t2"), s(NOW));
    store.link_tag(s("e"), s("rust"), s("t3"), s(NOW));
    assert_eq!(store.tags.len(), 1);
    assert_eq!(store.tags[0].id, "t1");
    assert_eq!(store.tags[0].name, "rust");
    let links: Vec<(&str, &str)> =
        store.entry_tags.iter().map(|l| (l.entry_id.as_str(), l.tag_id.as_str())).collect();
    assert_eq!(links, vec![("e", "t1"), ("f", "t1")]);
}

#[test]
fn untag_entry_leaves_other_entries_alone() {
    let mut store = Store::new();
    store.link_tag(s("e"), s("rust"), s("t1"), s(NOW));
    store.link_tag(s("f"), s("rust"), s("t2"), s(NOW));
    store.link_tag(s("e"), s("web"), s("t3"), s(NOW));
    store.untag_entry("e");
    let links: Vec<(&str, &str)> =
        store.entry_tags.iter().map(|l| (l.entry_id.as_str(), l.tag_id.as_str())).collect();
    assert_eq!(links, vec![("f", "t1")]);
    assert_eq!(store.tags.len(), 2);
}

#[test]
fn tags_page_shows_user_tags() {
    let mut store = Store::new();
    store.entries.push(entry("a", "u"));
    store.entries.push(entry("b", "u"));
    store.tag_entry(&s("a"), &parse_tag_list("rust, music"), &s(NOW));
    store.tag_entry(&s("b"), &parse_tag_list("rust"), &s(NOW));
    let tags = store.tags_for_user("u");
    let found: Vec<(&str, i64)> = tags.iter().map(|t| (t.name.as_str(), t.count)).collect();
    assert_eq!(found, vec![("rust", 2), ("music", 1)]);
}

#[test]
fn tags_page_empty_state() {
    let mut store = Store::new();
    store.entries.push(entry("a", "u"));
    store.tags.push(Tag { id: s("t"), name: s("unused"), created_at: s(NOW) });
    assert!(store.tags_for_user("u").is_empty());
}

#[test]
fn tags_page_does_not_show_other_users_tags() {
    let mut store = Store::new();
    store.entries.push(entry("a", "user1"));
    store.entries.push(Entry { collection_id: Some(s("col")), ..entry("shared", "user1") });
    store.members.push(interne::models::CollectionMember {
        collection_id: s("col"),
        user_id: s("user2"),
        joined_at: s(NOW),
    });
    store.tag_entry(&s("a"), &parse_tag_list("secret"), &s(NOW));
    store.tag_entry(&s("shared"), &parse_tag_list("secret, open"), &s(NOW));
    assert!(store.tags_for_user("user2").is_empty());
    assert_eq!(store.tags_for_user("user1").len(), 2);
}

#[test]
fn tag_usage_counts_an_entry_once() {
    let mut store = Store::new();
    store.entries.push(entry("a", "u"));
    store.tags.push(Tag { id: s("t"), name: s("rust"), created_at: s(NOW) });
    store.entry_tags.push(EntryTag { entry_id: s("a"), tag_id: s("t") });
    store.entry_tags.push(EntryTag { entry_id: s("a"), tag_id: s("t") });
    store.entry_tags.push(EntryTag { entry_id: s("gone"), tag_id: s("t") });
    assert_eq!(store.tag_usage(&s("u"), &s("t")), 1);
    assert_eq!(store.tag_usage(&s("v"), &s("t")), 0);
}

#[test]
fn entry_row_parts_into_entry_and_count() {
    let row = EntryWithCount {
        id: s("e"),
        user_id: s("u"),
        collection_id: Some(s("c")),
        url: s("https://example.com"),
        title: s("t"),
        description: Some(s("d")),
        duration: 5,
        interval: Interval::Months,
        dismissed_at: Some(s(NOW)),
        created_at: s("t1"),
        updated_at: s("t2"),
        visit_count: 12,
    };
    let (e, count) = row.into_entry_and_count();
    assert_eq!(count, 12);
    assert_eq!((e.id, e.user_id, e.collection_id), (s("e"), s("u"), Some(s("c"))));
    assert_eq!((e.url, e.title, e.description), (s("https://example.com"), s("t"), Some(s("d"))));
    assert_eq!((e.duration, e.interval), (5, Interval::Months));
    assert_eq!((e.dismissed_at, e.created_at, e.updated_at), (Some(s(NOW)), s("t1"), s("t2")));
}

#[test]
fn stored_names_and_drop_empty_names() {
    assert_eq!(
        stored_names(&texts(&[" Rust ", "", "WEB", " "])),
        texts(&["rust", "", "web", ""])
    );
    assert_eq!(drop_empty_names(texts(&["a", "", "b", "", ""])), texts(&["a", "b"]));
    assert_eq!(drop_empty_names(texts(&["", ""])), Vec::<String>::new());
    assert_eq!(drop_empty_names(texts(&[" "])), texts(&[" "]));
}

#[test]
fn saving_the_same_tags_again_leaves_tags_and_links_row_for_row() {
    let mut store = Store::new();
    store.entries.push(entry("e", "u"));
    store.entries.push(entry("f", "u"));
    store.tag_entry(&s("f"), &parse_tag_list("web, old"), &s(NOW));
    store.tag_entry(&s("e"), &parse_tag_list("old"), &s(NOW));
    store.tag_entry(&s("e"), &parse_tag_list("rust, web, Rust, new"), &s(NOW));
    let tags: Vec<(String, String, String)> =
        store.tags.iter().map(|t| (t.id.clone(), t.name.clone(), t.created_at.clone())).collect();
    let links: Vec<(String, String)> =
        store.entry_tags.iter().map(|l| (l.entry_id.clone(), l.tag_id.clone())).collect();
    assert_eq!(store.tags.len(), 4);
    assert_eq!(links.len(), 5);

    store.tag_entry(&s("e"), &parse_tag_list("rust, web, Rust, new"), &s("2030-01-01T00:00:00Z"));
    let tags_again: Vec<(String, String, String)> =
        store.tags.iter().map(|t| (t.id.clone(), t.name.clone(), t.created_at.clone())).collect();
    let links_again: Vec<(String, String)> =
        store.entry_tags.iter().map(|l| (l.entry_id.clone(), l.tag_id.clone())).collect();
    assert_eq!(tags, tags_again);
    assert_eq!(links, links_again);

    let mut names: Vec<String> = store.tags.iter().map(|t| t.name.clone()).collect();
    names.sort();
    names.dedup();
    assert_eq!(names.len(), store.tags.len());
}
