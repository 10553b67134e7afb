//! Tag names and the weights of a tag cloud.

use crate::access::same_text;
use crate::listing::count_shown;
use crate::models::{fresh_id, Entry, EntryTag, Tag};
use crate::store::{
    distinct_by, lemma_filter_keeps_distinct, lemma_filter_next, same_link, same_tag_id,
    same_tag_name, Store,
};
use crate::text::{chars_of, lowercase, lowercase_of, trim, trimmed};
use vstd::prelude::*;

verus! {

/// A tag with the number of entries that carry it.
#[derive(Debug)]
pub struct TagWithCount {
    pub name: String,
    pub count: i64,
}

/// Where a tag stands between the least used and the most used tag.
#[derive(Clone, Copy, Debug, PartialEq, Eq, Structural)]
pub enum TagWeight {
    /// Every tag of the cloud is used equally often: each stands in the
    /// middle of the scale.
    Midpoint,
    /// The tag's count between the least and the greatest count of the
    /// cloud, to be placed on a logarithmic scale between the two.
    Between { count: i64, min_count: i64, max_count: i64 },
}

/// A tag as a cloud shows it.
#[derive(Debug)]
pub struct TagCloudItem {
    pub name: String,
    pub count: i64,
    pub weight: TagWeight,
}

/// The least count among `tags`, which must not be empty.
pub open spec fn least_count(tags: Seq<TagWithCount>) -> int
    recommends
        tags.len() > 0,
    decreases tags.len(),
{
    if tags.len() <= 1 {
        tags[0].count as int
    } else {
        let rest = least_count(tags.drop_last());
        if tags.last().count < rest {
            tags.last().count as int
        } else {
            rest
        }
    }
}

/// The greatest count among `tags`, which must not be empty.
pub open spec fn greatest_count(tags: Seq<TagWithCount>) -> int
    recommends
        tags.len() > 0,
    decreases tags.len(),
{
    if tags.len() <= 1 {
        tags[0].count as int
    } else {
        let rest = greatest_count(tags.drop_last());
        if tags.last().count > rest {
            tags.last().count as int
        } else {
            rest
        }
    }
}

/// The least count is the count of some tag, and no tag has a smaller one;
/// likewise the greatest.
pub proof fn lemma_count_range(tags: Seq<TagWithCount>)
    requires
        tags.len() > 0,
    ensures
        exists|i: int| 0 <= i < tags.len() && (#[trigger] tags[i]).count == least_count(tags),
        exists|i: int| 0 <= i < tags.len() && (#[trigger] tags[i]).count == greatest_count(tags),
        forall|i: int|
            0 <= i < tags.len() ==> least_count(tags) <= (#[trigger] tags[i]).count
                <= greatest_count(tags),
    decreases tags.len(),
{
    if tags.len() <= 1 {
        assert(tags[0].count == least_count(tags));
    } else {
        let rest = tags.drop_last();
        lemma_count_range(rest);
        let a = choose|i: int| 0 <= i < rest.len() && (#[trigger] rest[i]).count == least_count(rest);
        let b = choose|i: int|
            0 <= i < rest.len() && (#[trigger] rest[i]).count == greatest_count(rest);
        let last = tags.len() - 1;
        assert(tags[a] == rest[a] && tags[b] == rest[b]);
        if tags.last().count < least_count(rest) {
            assert(tags[last].count == least_count(tags));
        } else {
            assert(tags[a].count == least_count(tags));
        }
        if tags.last().count > greatest_count(rest) {
            assert(tags[last].count == greatest_count(tags));
        } else {
            assert(tags[b].count == greatest_count(tags));
        }
        assert forall|i: int| 0 <= i < tags.len() implies least_count(tags) <= (
        #[trigger] tags[i]).count <= greatest_count(tags) by {
            if i < rest.len() {
                assert(tags[i] == rest[i]);
            }
        }
    }
}

/// The weight of a tag used `count` times in a cloud whose counts run from
/// `min_count` to `max_count`.
pub open spec fn weight_of(count: i64, min_count: int, max_count: int) -> TagWeight {
    if min_count == max_count {
        TagWeight::Midpoint
    } else {
        TagWeight::Between { count, min_count: min_count as i64, max_count: max_count as i64 }
    }
}

/// The least and the greatest count of a list of tags that is not empty.
pub fn count_range(tags: &Vec<TagWithCount>) -> (range: (i64, i64))
    requires
        tags@.len() > 0,
    ensures
        range.0 == least_count(tags@),
        range.1 == greatest_count(tags@),
{
    let mut min_count: i64 = tags[0].count;
    let mut max_count: i64 = tags[0].count;
    let mut i: usize = 1;
    while i < tags.len()
        invariant
            1 <= i <= tags.len(),
            min_count == least_count(tags@.take(i as int)),
            max_count == greatest_count(tags@.take(i as int)),
        decreases tags.len() - i,
    {
        assert(tags@.take(i + 1).drop_last() =~= tags@.take(i as int));
        if tags[i].count < min_count {
            min_count = tags[i].count;
        }
        if tags[i].count > max_count {
            max_count = tags[i].count;
        }
        i += 1;
    }
    assert(tags@.take(tags@.len() as int) =~= tags@);
    (min_count, max_count)
}

/// The cloud for a list of tags: one item for each tag, in the same order,
/// with the tag's name and count and its weight within the list.
///
/// An empty list gives an empty cloud. Where all counts are equal, every
/// item stands at the midpoint; otherwise every item lies between the least
/// and the greatest count, which differ.
pub fn build_tag_cloud(tags: Vec<TagWithCount>) -> (cloud: Vec<TagCloudItem>)
    ensures
        cloud@.len() == tags@.len(),
        forall|i: int|
            0 <= i < tags@.len() ==> (#[trigger] cloud@[i]).name == tags@[i].name && cloud@[i].count
                == tags@[i].count && cloud@[i].weight == weight_of(
                tags@[i].count,
                least_count(tags@),
                greatest_count(tags@),
            ),
        (forall|i: int, j: int|
            0 <= i < tags@.len() && 0 <= j < tags@.len() ==> tags@[i].count == tags@[j].count)
            ==> forall|i: int|
            0 <= i < cloud@.len() ==> (#[trigger] cloud@[i]).weight == TagWeight::Midpoint,
        forall|i: int|
            0 <= i < cloud@.len() ==> match (#[trigger] cloud@[i]).weight {
                TagWeight::Midpoint => true,
                TagWeight::Between { count, min_count, max_count } => min_count <= count
                    <= max_count && min_count < max_count,
            },
{
    let mut cloud: Vec<TagCloudItem> = Vec::new();
    if tags.len() == 0 {
        return cloud;
    }
    let (min_count, max_count) = count_range(&tags);
    proof {
        lemma_count_range(tags@);
        if forall|i: int, j: int|
            0 <= i < tags@.len() && 0 <= j < tags@.len() ==> tags@[i].count == tags@[j].count {
            let a = choose|i: int|
                0 <= i < tags@.len() && (#[trigger] tags@[i]).count == least_count(tags@);
            let b = choose|i: int|
                0 <= i < tags@.len() && (#[trigger] tags@[i]).count == greatest_count(tags@);
            assert(tags@[a].count == tags@[b].count);
        }
    }
    let mut i: usize = 0;
    while i < tags.len()
        invariant
            i <= tags.len(),
            cloud@.len() == i,
            min_count == least_count(tags@),
            max_count == greatest_count(tags@),
            forall|j: int|
                0 <= j < tags@.len() ==> min_count <= (#[trigger] tags@[j]).count <= max_count,
            forall|j: int|
                0 <= j < i ==> (#[trigger] cloud@[j]).name == tags@[j].name && cloud@[j].count
                    == tags@[j].count && cloud@[j].weight == weight_of(
                    tags@[j].count,
                    min_count as int,
                    max_count as int,
                ),
        decreases tags.len() - i,
    {
        let count: i64 = tags[i].count;
        let weight = if min_count == max_count {
            TagWeight::Midpoint
        } else {
            TagWeight::Between { count, min_count, max_count }
        };
        cloud.push(TagCloudItem { name: tags[i].name.clone(), count, weight });
        i += 1;
    }
    cloud
}


/// The characters of each text of a list.
pub open spec fn texts_of(texts: Seq<String>) -> Seq<Seq<char>> {
    texts.map_values(|t: String| t@)
}

/// The pieces of `s` between its commas. A text without a comma is one
/// piece, and a comma at either end has an empty piece beside it.
pub open spec fn split_on_commas(s: Seq<char>) -> Seq<Seq<char>>
    decreases s.len(),
{
    if s.len() == 0 {
        seq![Seq::empty()]
    } else if s.last() == ',' {
        split_on_commas(s.drop_last()).push(Seq::empty())
    } else {
        let pieces = split_on_commas(s.drop_last());
        pieces.drop_last().push(pieces.last().push(s.last()))
    }
}

/// The pieces of `text` between its commas.
pub fn split_commas(text: &str) -> (pieces: Vec<String>)
    ensures
        texts_of(pieces@) == split_on_commas(text@),
{
    let chars = chars_of(text);
    let mut pieces: Vec<String> = Vec::new();
    let mut start: usize = 0;
    let mut i: usize = 0;
    assert(split_on_commas(text@.take(0)) =~~= texts_of(pieces@).push(text@.subrange(0, 0)));
    while i < chars.len()
        invariant
            start <= i <= chars.len(),
            chars@ == text@,
            split_on_commas(text@.take(i as int)) == texts_of(pieces@).push(
                text@.subrange(start as int, i as int),
            ),
        decreases chars.len() - i,
    {
        let ghost done = texts_of(pieces@);
        let ghost open = text@.subrange(start as int, i as int);
        assert(text@.take(i + 1).drop_last() =~= text@.take(i as int));
        assert(done.push(open).drop_last() =~= done);
        if chars[i] == ',' {
            pieces.push(String::from_str(text.substring_char(start, i)));
            start = i + 1;
            assert(texts_of(pieces@) =~= done.push(open));
            assert(text@.subrange(start as int, i + 1) =~= Seq::<char>::empty());
        } else {
            assert(text@.subrange(start as int, i + 1) =~= open.push(text@[i as int]));
        }
        i += 1;
    }
    assert(text@.take(text@.len() as int) =~= text@);
    let ghost done = texts_of(pieces@);
    pieces.push(String::from_str(text.substring_char(start, chars.len())));
    assert(texts_of(pieces@) =~= done.push(text@.subrange(start as int, text@.len() as int)));
    pieces
}

/// The form in which a tag name is stored: trimmed and in lower case.
pub open spec fn stored_form() -> spec_fn(Seq<char>) -> Seq<char> {
    |piece: Seq<char>| lowercase_of(trimmed(piece))
}

/// The test that keeps the names that are not empty.
pub open spec fn is_named() -> spec_fn(Seq<char>) -> bool {
    |name: Seq<char>| name.len() > 0
}

/// The tag names among `pieces`: each piece trimmed and in lower case, the
/// empty ones left out.
pub open spec fn tag_names_among(pieces: Seq<Seq<char>>) -> Seq<Seq<char>> {
    pieces.map_values(stored_form()).filter(is_named())
}

/// The tag names that a text of names with commas between them holds.
pub open spec fn tag_names(text: Seq<char>) -> Seq<Seq<char>> {
    tag_names_among(split_on_commas(text))
}

/// Each piece in the form in which a tag name is stored: trimmed and in
/// lower case.
pub fn stored_names(pieces: &Vec<String>) -> (names: Vec<String>)
    ensures
        texts_of(names@) == texts_of(pieces@).map_values(stored_form()),
{
    let mut names: Vec<String> = Vec::new();
    let mut i: usize = 0;
    while i < pieces.len()
        invariant
            i <= pieces.len(),
            texts_of(names@) == texts_of(pieces@).take(i as int).map_values(stored_form()),
        decreases pieces.len() - i,
    {
        let ghost done = texts_of(names@);
        let piece = trim(pieces[i].as_str());
        let name = lowercase(piece.as_str());
        names.push(name);
        assert(texts_of(names@) =~= done.push(name@));
        assert(texts_of(names@) =~= texts_of(pieces@).take(i + 1).map_values(stored_form()));
        i += 1;
    }
    assert(texts_of(pieces@).take(pieces@.len() as int) =~= texts_of(pieces@));
    names
}

/// The names that are not empty, in the order given.
pub fn drop_empty_names(names: Vec<String>) -> (kept: Vec<String>)
    ensures
        texts_of(kept@) == texts_of(names@).filter(is_named()),
        forall|i: int| 0 <= i < kept@.len() ==> (#[trigger] kept@[i])@.len() > 0,
{
    let mut kept: Vec<String> = Vec::new();
    let mut i: usize = 0;
    assert(texts_of(names@).take(0).filter(is_named()) =~= Seq::<Seq<char>>::empty()) by {
        reveal(Seq::filter);
    }
    while i < names.len()
        invariant
            i <= names.len(),
            texts_of(kept@) == texts_of(names@).take(i as int).filter(is_named()),
            forall|j: int| 0 <= j < kept@.len() ==> (#[trigger] kept@[j])@.len() > 0,
        decreases names.len() - i,
    {
        let ghost done = texts_of(kept@);
        proof {
            lemma_filter_next(texts_of(names@), is_named(), i as int);
        }
        if !names[i].as_str().is_empty() {
            kept.push(names[i].clone());
            assert(texts_of(kept@) =~= done.push(names@[i as int]@));
        }
        i += 1;
    }
    assert(texts_of(names@).take(names@.len() as int) =~= texts_of(names@));
    kept
}

/// Reads tag names out of a text that has commas between them. Each name
/// is trimmed and put in lower case, and empty names are left out.
pub fn parse_tag_list(text: &str) -> (names: Vec<String>)
    ensures
        texts_of(names@) == tag_names(text@),
        forall|i: int| 0 <= i < names@.len() ==> (#[trigger] names@[i])@.len() > 0,
{
    let pieces = split_commas(text);
    drop_empty_names(stored_names(&pieces))
}

/// The first tag named `name`.
pub open spec fn tag_named(tags: Seq<Tag>, name: Seq<char>) -> Option<Tag>
    decreases tags.len(),
{
    if tags.len() == 0 {
        None
    } else if tags[0].name@ == name {
        Some(tags[0])
    } else {
        tag_named(tags.drop_first(), name)
    }
}

/// Whether the row links the entry `entry_id` to the tag `tag_id`.
pub open spec fn links_tag(row: EntryTag, entry_id: Seq<char>, tag_id: Seq<char>) -> bool {
    row.entry_id@ == entry_id && row.tag_id@ == tag_id
}

/// Whether some row links the entry `entry_id` to the tag `tag_id`.
pub open spec fn has_link(links: Seq<EntryTag>, entry_id: Seq<char>, tag_id: Seq<char>) -> bool {
    exists|i: int| 0 <= i < links.len() && links_tag(#[trigger] links[i], entry_id, tag_id)
}

/// The number of rows that link the entry `entry_id` to the tag `tag_id`.
pub open spec fn count_links(links: Seq<EntryTag>, entry_id: Seq<char>, tag_id: Seq<char>) -> nat
    decreases links.len(),
{
    if links.len() == 0 {
        0
    } else {
        count_links(links.drop_last(), entry_id, tag_id) + (if links_tag(
            links.last(),
            entry_id,
            tag_id,
        ) {
            1nat
        } else {
            0nat
        })
    }
}

/// An entry carries a tag exactly where at least one row links the two.
pub proof fn lemma_link_has_rows(links: Seq<EntryTag>, entry_id: Seq<char>, tag_id: Seq<char>)
    ensures
        has_link(links, entry_id, tag_id) <==> count_links(links, entry_id, tag_id) > 0,
    decreases links.len(),
{
    if links.len() > 0 {
        let rest = links.drop_last();
        lemma_link_has_rows(rest, entry_id, tag_id);
        if has_link(links, entry_id, tag_id) {
            let i = choose|i: int|
                0 <= i < links.len() && links_tag(#[trigger] links[i], entry_id, tag_id);
            if i < rest.len() {
                assert(links_tag(rest[i], entry_id, tag_id));
            }
        }
        if count_links(links, entry_id, tag_id) > 0 {
            if links_tag(links.last(), entry_id, tag_id) {
                assert(links_tag(links[links.len() - 1], entry_id, tag_id));
            } else {
                let i = choose|i: int|
                    0 <= i < rest.len() && links_tag(#[trigger] rest[i], entry_id, tag_id);
                assert(links_tag(links[i], entry_id, tag_id));
            }
        }
    }
}

/// The tags after the tag `name` was looked up and, where there was none,
/// created under the identifier `new_id` at `now`.
pub open spec fn tags_with(tags: Seq<Tag>, name: String, new_id: String, now: String) -> Seq<Tag> {
    if tag_named(tags, name@) is Some {
        tags
    } else {
        tags.push(Tag { id: new_id, name, created_at: now })
    }
}

/// The identifier of the tag `name` once it was looked up or created.
pub open spec fn tag_id_for(tags: Seq<Tag>, name: String, new_id: String) -> String {
    match tag_named(tags, name@) {
        Some(tag) => tag.id,
        None => new_id,
    }
}

/// The links after the entry `entry_id` was linked to the tag `tag_id`: one
/// row more, unless a row linked the two already.
pub open spec fn links_with(links: Seq<EntryTag>, entry_id: String, tag_id: String) -> Seq<
    EntryTag,
> {
    if has_link(links, entry_id@, tag_id@) {
        links
    } else {
        links.push(EntryTag { entry_id, tag_id })
    }
}

/// The tags and links after the entry `entry_id` was given the tags
/// `names`, one after the other, a tag that had to be created taking its
/// identifier from `new_ids` at the place of its name.
pub open spec fn after_tagging(
    tags: Seq<Tag>,
    links: Seq<EntryTag>,
    entry_id: String,
    names: Seq<String>,
    new_ids: Seq<String>,
    now: String,
) -> (Seq<Tag>, Seq<EntryTag>)
    decreases names.len(),
{
    if names.len() == 0 {
        (tags, links)
    } else {
        let (t, l) = after_tagging(
            tags,
            links,
            entry_id,
            names.drop_last(),
            new_ids.drop_last(),
            now,
        );
        (
            tags_with(t, names.last(), new_ids.last(), now),
            links_with(l, entry_id, tag_id_for(t, names.last(), new_ids.last())),
        )
    }
}

/// Whether no tag has the identifier `id`.
pub open spec fn tag_id_unused(tags: Seq<Tag>, id: Seq<char>) -> bool {
    forall|i: int| 0 <= i < tags.len() ==> (#[trigger] tags[i]).id@ != id
}

/// Whether the identifiers differ from one another and no tag has one of
/// them.
pub open spec fn tag_ids_unused(tags: Seq<Tag>, ids: Seq<String>) -> bool {
    &&& forall|i: int, j: int| 0 <= i < j < ids.len() ==> (#[trigger] ids[i])@ != (#[trigger] ids[j])@
    &&& forall|k: int| 0 <= k < ids.len() ==> tag_id_unused(tags, (#[trigger] ids[k])@)
}

/// The tag that a lookup by name finds is a tag of that name, and where it
/// finds none, no tag has the name.
pub proof fn lemma_tag_named(tags: Seq<Tag>, name: Seq<char>)
    ensures
        tag_named(tags, name) matches Some(tag) ==> tag.name@ == name && tags.contains(tag),
        tag_named(tags, name) is None ==> forall|i: int|
            0 <= i < tags.len() ==> (#[trigger] tags[i]).name@ != name,
    decreases tags.len(),
{
    if tags.len() > 0 {
        if tags[0].name@ == name {
            assert(tags.contains(tags[0]));
        } else {
            let rest = tags.drop_first();
            lemma_tag_named(rest, name);
            match tag_named(rest, name) {
                Some(tag) => {
                    let k = choose|k: int| 0 <= k < rest.len() && rest[k] == tag;
                    assert(tags[k + 1] == tag);
                },
                None => {
                    assert forall|i: int| 0 <= i < tags.len() implies (#[trigger] tags[i]).name@
                        != name by {
                        if i > 0 {
                            assert(rest[i - 1].name@ != name);
                        }
                    }
                },
            }
        }
    }
}

/// Giving an entry a tag keeps one tag for each name and one link for each
/// pair of entry and tag, whatever the identifier of a new tag is. It keeps
/// one tag for each identifier where the new identifier is not in use.
pub proof fn lemma_link_keeps_unique(
    tags: Seq<Tag>,
    links: Seq<EntryTag>,
    entry_id: String,
    name: String,
    new_id: String,
    now: String,
)
    ensures
        distinct_by(tags, same_tag_name()) ==> distinct_by(
            tags_with(tags, name, new_id, now),
            same_tag_name(),
        ),
        distinct_by(links, same_link()) ==> distinct_by(
            links_with(links, entry_id, tag_id_for(tags, name, new_id)),
            same_link(),
        ),
        distinct_by(tags, same_tag_id()) && tag_id_unused(tags, new_id@) ==> distinct_by(
            tags_with(tags, name, new_id, now),
            same_tag_id(),
        ),
{
    lemma_tag_named(tags, name@);
    let after = tags_with(tags, name, new_id, now);
    if distinct_by(tags, same_tag_name()) {
        assert forall|i: int, j: int| 0 <= i < j < after.len() implies !same_tag_name()(
            #[trigger] after[i],
            #[trigger] after[j],
        ) by {
            if j < tags.len() {
                assert(!same_tag_name()(tags[i], tags[j]));
            } else {
                assert(tags[i].name@ != name@);
            }
        }
    }
    if distinct_by(tags, same_tag_id()) && tag_id_unused(tags, new_id@) {
        assert forall|i: int, j: int| 0 <= i < j < after.len() implies !same_tag_id()(
            #[trigger] after[i],
            #[trigger] after[j],
        ) by {
            if j < tags.len() {
                assert(!same_tag_id()(tags[i], tags[j]));
            } else {
                assert(tags[i].id@ != new_id@);
            }
        }
    }
    let tag_id = tag_id_for(tags, name, new_id);
    let linked = links_with(links, entry_id, tag_id);
    if distinct_by(links, same_link()) {
        assert forall|i: int, j: int| 0 <= i < j < linked.len() implies !same_link()(
            #[trigger] linked[i],
            #[trigger] linked[j],
        ) by {
            if j < links.len() {
                assert(!same_link()(links[i], links[j]));
            } else {
                assert(!links_tag(links[i], entry_id@, tag_id@));
            }
        }
    }
}

/// Every tag after tagging was there before or stands under one of the new
/// identifiers.
pub proof fn lemma_tagging_ids(
    tags: Seq<Tag>,
    links: Seq<EntryTag>,
    entry_id: String,
    names: Seq<String>,
    new_ids: Seq<String>,
    now: String,
)
    requires
        new_ids.len() == names.len(),
    ensures
        forall|i: int|
            0 <= i < after_tagging(tags, links, entry_id, names, new_ids, now).0.len() ==> {
                let tag = #[trigger] after_tagging(tags, links, entry_id, names, new_ids, now).0[i];
                tags.contains(tag) || exists|k: int|
                    0 <= k < new_ids.len() && (#[trigger] new_ids[k])@ == tag.id@
            },
    decreases names.len(),
{
    let after = after_tagging(tags, links, entry_id, names, new_ids, now).0;
    if names.len() == 0 {
        assert forall|i: int| 0 <= i < after.len() implies tags.contains(#[trigger] after[i]) by {
            assert(tags[i] == after[i]);
        }
    } else {
        lemma_tagging_ids(tags, links, entry_id, names.drop_last(), new_ids.drop_last(), now);
        let (t, l) = after_tagging(
            tags,
            links,
            entry_id,
            names.drop_last(),
            new_ids.drop_last(),
            now,
        );
        assert forall|i: int| 0 <= i < after.len() implies {
            let tag = #[trigger] after[i];
            tags.contains(tag) || exists|k: int|
                0 <= k < new_ids.len() && (#[trigger] new_ids[k])@ == tag.id@
        } by {
            let tag = after[i];
            if i < t.len() {
                assert(tag == t[i]);
                if !tags.contains(tag) {
                    let k = choose|k: int|
                        0 <= k < new_ids.len() - 1 && (#[trigger] new_ids.drop_last()[k])@
                            == tag.id@;
                    assert(new_ids[k]@ == tag.id@);
                }
            } else {
                assert(new_ids[new_ids.len() - 1]@ == tag.id@);
            }
        }
    }
}

/// Tagging keeps one tag for each name and one link for each pair of entry
/// and tag, whatever the identifiers of new tags are. It keeps one tag for
/// each identifier where the new identifiers differ from one another and
/// are not in use.
pub proof fn lemma_tagging_keeps_unique(
    tags: Seq<Tag>,
    links: Seq<EntryTag>,
    entry_id: String,
    names: Seq<String>,
    new_ids: Seq<String>,
    now: String,
)
    requires
        new_ids.len() == names.len(),
    ensures
        distinct_by(tags, same_tag_name()) ==> distinct_by(
            after_tagging(tags, links, entry_id, names, new_ids, now).0,
            same_tag_name(),
        ),
        distinct_by(links, same_link()) ==> distinct_by(
            after_tagging(tags, links, entry_id, names, new_ids, now).1,
            same_link(),
        ),
        distinct_by(tags, same_tag_id()) && tag_ids_unused(tags, new_ids) ==> distinct_by(
            after_tagging(tags, links, entry_id, names, new_ids, now).0,
            same_tag_id(),
        ),
    decreases names.len(),
{
    if names.len() > 0 {
        let rest_ids = new_ids.drop_last();
        lemma_tagging_keeps_unique(tags, links, entry_id, names.drop_last(), rest_ids, now);
        lemma_tagging_ids(tags, links, entry_id, names.drop_last(), rest_ids, now);
        let (t, l) = after_tagging(tags, links, entry_id, names.drop_last(), rest_ids, now);
        lemma_link_keeps_unique(t, l, entry_id, names.last(), new_ids.last(), now);
        if distinct_by(tags, same_tag_id()) && tag_ids_unused(tags, new_ids) {
            let last = new_ids.len() - 1;
            assert(tag_ids_unused(tags, rest_ids)) by {
                assert forall|i: int, j: int| 0 <= i < j < rest_ids.len() implies (
                #[trigger] rest_ids[i])@ != (#[trigger] rest_ids[j])@ by {
                    assert(new_ids[i]@ != new_ids[j]@);
                }
                assert forall|k: int| 0 <= k < rest_ids.len() implies tag_id_unused(
                    tags,
                    (#[trigger] rest_ids[k])@,
                ) by {
                    assert(tag_id_unused(tags, new_ids[k]@));
                }
            }
            assert(tag_id_unused(t, new_ids.last()@)) by {
                assert forall|i: int| 0 <= i < t.len() implies (#[trigger] t[i]).id@
                    != new_ids.last()@ by {
                    if tags.contains(t[i]) {
                        let m = choose|m: int| 0 <= m < tags.len() && tags[m] == t[i];
                        assert(tag_id_unused(tags, new_ids[last]@));
                        assert(tags[m].id@ != new_ids[last]@);
                    } else {
                        let k = choose|k: int|
                            0 <= k < rest_ids.len() && (#[trigger] rest_ids[k])@ == t[i].id@;
                        assert(new_ids[k]@ != new_ids[last]@);
                    }
                }
            }
        }
    }
}

/// Filtering what was filtered leaves it as it is.
pub proof fn lemma_filter_twice<A>(rows: Seq<A>, keep: spec_fn(A) -> bool)
    ensures
        rows.filter(keep).filter(keep) == rows.filter(keep),
    decreases rows.len(),
{
    reveal(Seq::filter);
    if rows.len() > 0 {
        let rest = rows.drop_last();
        lemma_filter_twice(rest, keep);
        if keep(rows.last()) {
            let kept = rest.filter(keep);
            assert(kept.push(rows.last()).drop_last() =~= kept);
        }
    }
}

/// A lookup by name finds in a longer list of tags what it finds in its
/// beginning.
pub proof fn lemma_tag_named_in_longer(short: Seq<Tag>, long: Seq<Tag>, name: Seq<char>)
    requires
        short.len() <= long.len(),
        long.take(short.len() as int) == short,
        tag_named(short, name) is Some,
    ensures
        tag_named(long, name) == tag_named(short, name),
    decreases short.len(),
{
    if short.len() > 0 {
        assert(long[0] == long.take(short.len() as int)[0]);
        if short[0].name@ != name {
            assert(long.drop_first().take(short.len() - 1) =~= short.drop_first());
            lemma_tag_named_in_longer(short.drop_first(), long.drop_first(), name);
        }
    }
}

/// Once a tag was looked up or created, a lookup by its name finds it.
pub proof fn lemma_tag_named_after(tags: Seq<Tag>, name: String, new_id: String, now: String)
    ensures
        tag_named(tags_with(tags, name, new_id, now), name@) matches Some(tag) && tag.id
            == tag_id_for(tags, name, new_id),
    decreases tags.len(),
{
    if tags.len() == 0 {
        let made = tags_with(tags, name, new_id, now);
        assert(made[0].name@ == name@);
    } else if tags[0].name@ == name@ {
    } else {
        let rest = tags.drop_first();
        lemma_tag_named_after(rest, name, new_id, now);
        let made = tags_with(tags, name, new_id, now);
        assert(made[0] == tags[0]);
        assert(made.drop_first() =~= tags_with(rest, name, new_id, now));
    }
}

/// Tagging an entry touches the links of no other entry.
pub proof fn lemma_tagging_keeps_other_links(
    tags: Seq<Tag>,
    links: Seq<EntryTag>,
    entry_id: String,
    names: Seq<String>,
    new_ids: Seq<String>,
    now: String,
)
    ensures
        after_tagging(tags, links, entry_id, names, new_ids, now).1.filter(
            not_of_entry(entry_id@),
        ) == links.filter(not_of_entry(entry_id@)),
    decreases names.len(),
{
    if names.len() > 0 {
        lemma_tagging_keeps_other_links(
            tags,
            links,
            entry_id,
            names.drop_last(),
            new_ids.drop_last(),
            now,
        );
        let (t, l) = after_tagging(
            tags,
            links,
            entry_id,
            names.drop_last(),
            new_ids.drop_last(),
            now,
        );
        let tag_id = tag_id_for(t, names.last(), new_ids.last());
        if !has_link(l, entry_id@, tag_id@) {
            let row = EntryTag { entry_id, tag_id };
            assert(l.push(row).drop_last() =~= l);
            assert(l.push(row).filter(not_of_entry(entry_id@)) == l.filter(
                not_of_entry(entry_id@),
            )) by {
                reveal(Seq::filter);
            }
        }
    }
}

/// Tagging with the tags that an earlier tagging with the same names left
/// adds no tag, and links what the earlier tagging linked.
pub proof fn lemma_tagging_with_known_names(
    tags: Seq<Tag>,
    links: Seq<EntryTag>,
    entry_id: String,
    names: Seq<String>,
    first_ids: Seq<String>,
    first_now: String,
    known: Seq<Tag>,
    second_ids: Seq<String>,
    second_now: String,
)
    requires
        after_tagging(tags, links, entry_id, names, first_ids, first_now).0.len() <= known.len(),
        known.take(
            after_tagging(tags, links, entry_id, names, first_ids, first_now).0.len() as int,
        ) == after_tagging(tags, links, entry_id, names, first_ids, first_now).0,
    ensures
        after_tagging(known, links, entry_id, names, second_ids, second_now) == (
            known,
            after_tagging(tags, links, entry_id, names, first_ids, first_now).1,
        ),
    decreases names.len(),
{
    if names.len() > 0 {
        let (t, l) = after_tagging(
            tags,
            links,
            entry_id,
            names.drop_last(),
            first_ids.drop_last(),
            first_now,
        );
        let first = after_tagging(tags, links, entry_id, names, first_ids, first_now);
        let name = names.last();
        assert(first.0 == tags_with(t, name, first_ids.last(), first_now));
        assert(known.take(t.len() as int) =~= t) by {
            assert(first.0.take(t.len() as int) =~= t);
            assert(known.take(t.len() as int) =~= known.take(first.0.len() as int).take(
                t.len() as int,
            ));
        }
        lemma_tagging_with_known_names(
            tags,
            links,
            entry_id,
            names.drop_last(),
            first_ids.drop_last(),
            first_now,
            known,
            second_ids.drop_last(),
            second_now,
        );
        lemma_tag_named_after(t, name, first_ids.last(), first_now);
        lemma_tag_named_in_longer(first.0, known, name@);
    }
}

/// Tagging an entry a second time with the same names changes nothing: no
/// tag is added, and the links are those that the first tagging left, row
/// for row. This holds whatever identifiers the two taggings had at hand
/// for new tags.
pub proof fn lemma_tagging_twice_is_tagging_once(
    tags: Seq<Tag>,
    links: Seq<EntryTag>,
    entry_id: String,
    names: Seq<String>,
    first_ids: Seq<String>,
    first_now: String,
    second_ids: Seq<String>,
    second_now: String,
)
    ensures
        ({
            let once = after_tagging(
                tags,
                links.filter(not_of_entry(entry_id@)),
                entry_id,
                names,
                first_ids,
                first_now,
            );
            let twice = after_tagging(
                once.0,
                once.1.filter(not_of_entry(entry_id@)),
                entry_id,
                names,
                second_ids,
                second_now,
            );
            twice == once
        }),
{
    let cleared = links.filter(not_of_entry(entry_id@));
    let once = after_tagging(tags, cleared, entry_id, names, first_ids, first_now);
    lemma_tagging_keeps_other_links(tags, cleared, entry_id, names, first_ids, first_now);
    lemma_filter_twice(links, not_of_entry(entry_id@));
    assert(once.1.filter(not_of_entry(entry_id@)) == cleared);
    assert(once.0.take(once.0.len() as int) =~= once.0);
    lemma_tagging_with_known_names(
        tags,
        cleared,
        entry_id,
        names,
        first_ids,
        first_now,
        once.0,
        second_ids,
        second_now,
    );
}

/// Where no link is recorded twice, no pair of entry and tag has more than
/// one row.
pub proof fn lemma_unique_links_count_once(
    links: Seq<EntryTag>,
    entry_id: Seq<char>,
    tag_id: Seq<char>,
)
    requires
        distinct_by(links, same_link()),
    ensures
        count_links(links, entry_id, tag_id) <= 1,
    decreases links.len(),
{
    if links.len() > 0 {
        let rest = links.drop_last();
        assert forall|i: int, j: int| 0 <= i < j < rest.len() implies !same_link()(
            #[trigger] rest[i],
            #[trigger] rest[j],
        ) by {
            assert(!same_link()(links[i], links[j]));
        }
        lemma_unique_links_count_once(rest, entry_id, tag_id);
        if links_tag(links.last(), entry_id, tag_id) {
            lemma_link_has_rows(rest, entry_id, tag_id);
            if has_link(rest, entry_id, tag_id) {
                let i = choose|i: int|
                    0 <= i < rest.len() && links_tag(#[trigger] rest[i], entry_id, tag_id);
                assert(!same_link()(links[i], links[links.len() - 1]));
            }
        }
    }
}

/// Tagging only adds: the tags and the links that were there stand where
/// they stood, and new ones stand behind them.
pub proof fn lemma_tagging_only_adds(
    tags: Seq<Tag>,
    links: Seq<EntryTag>,
    entry_id: String,
    names: Seq<String>,
    new_ids: Seq<String>,
    now: String,
)
    ensures
        after_tagging(tags, links, entry_id, names, new_ids, now).0.len() >= tags.len(),
        after_tagging(tags, links, entry_id, names, new_ids, now).0.take(tags.len() as int)
            == tags,
        after_tagging(tags, links, entry_id, names, new_ids, now).1.len() >= links.len(),
        after_tagging(tags, links, entry_id, names, new_ids, now).1.take(links.len() as int)
            == links,
    decreases names.len(),
{
    if names.len() == 0 {
        assert(tags.take(tags.len() as int) =~= tags);
        assert(links.take(links.len() as int) =~= links);
    } else {
        lemma_tagging_only_adds(tags, links, entry_id, names.drop_last(), new_ids.drop_last(), now);
        let (t, l) = after_tagging(tags, links, entry_id, names.drop_last(), new_ids.drop_last(), now);
        let (t2, l2) = after_tagging(tags, links, entry_id, names, new_ids, now);
        assert(t2.take(tags.len() as int) =~= t.take(tags.len() as int));
        assert(l2.take(links.len() as int) =~= l.take(links.len() as int));
    }
}

/// Whether every identifier of the list is in the form in which fresh ones
/// are made: 36 characters long.
pub open spec fn fresh_ids(ids: Seq<String>) -> bool {
    forall|k: int| 0 <= k < ids.len() ==> (#[trigger] ids[k])@.len() == 36
}

/// The test that keeps the links of every entry but `entry_id`.
pub open spec fn not_of_entry(entry_id: Seq<char>) -> spec_fn(EntryTag) -> bool {
    |row: EntryTag| row.entry_id@ != entry_id
}

/// Linking never links twice: where no pair of entry and tag had more than
/// one row, none has afterwards.
pub proof fn lemma_links_with_stays_single(
    links: Seq<EntryTag>,
    entry_id: String,
    tag_id: String,
    e: Seq<char>,
    t: Seq<char>,
)
    requires
        count_links(links, e, t) <= 1,
    ensures
        count_links(links_with(links, entry_id, tag_id), e, t) <= 1,
        has_link(links_with(links, entry_id, tag_id), entry_id@, tag_id@),
        links_with(links_with(links, entry_id, tag_id), entry_id, tag_id) == links_with(
            links,
            entry_id,
            tag_id,
        ),
{
    let after = links_with(links, entry_id, tag_id);
    lemma_link_has_rows(links, entry_id@, tag_id@);
    if has_link(links, entry_id@, tag_id@) {
    } else {
        assert(after.drop_last() =~= links);
        assert(links_tag(after[after.len() - 1], entry_id@, tag_id@));
    }
}

/// Tagging an entry afresh leaves no pair of the entry and a tag with more
/// than one link, however often a name occurs in `names` and whatever the
/// identifiers of new tags are.
pub proof fn lemma_tagging_afresh_links_once(
    tags: Seq<Tag>,
    links: Seq<EntryTag>,
    entry_id: String,
    names: Seq<String>,
    new_ids: Seq<String>,
    now: String,
    tag_id: Seq<char>,
)
    ensures
        count_links(
            after_tagging(
                tags,
                links.filter(not_of_entry(entry_id@)),
                entry_id,
                names,
                new_ids,
                now,
            ).1,
            entry_id@,
            tag_id,
        ) <= 1,
    decreases names.len(),
{
    let cleared = links.filter(not_of_entry(entry_id@));
    if names.len() == 0 {
        lemma_link_has_rows(cleared, entry_id@, tag_id);
        if has_link(cleared, entry_id@, tag_id) {
            let i = choose|i: int|
                0 <= i < cleared.len() && links_tag(#[trigger] cleared[i], entry_id@, tag_id);
            links.lemma_filter_pred(not_of_entry(entry_id@), i);
        }
    } else {
        lemma_tagging_afresh_links_once(
            tags,
            links,
            entry_id,
            names.drop_last(),
            new_ids.drop_last(),
            now,
            tag_id,
        );
        let (t, l) = after_tagging(
            tags,
            cleared,
            entry_id,
            names.drop_last(),
            new_ids.drop_last(),
            now,
        );
        lemma_links_with_stays_single(
            l,
            entry_id,
            tag_id_for(t, names.last(), new_ids.last()),
            entry_id@,
            tag_id,
        );
    }
}

/// The first tag named `name`.
pub fn find_tag<'a>(tags: &'a Vec<Tag>, name: &String) -> (found: Option<&'a Tag>)
    ensures
        match found {
            Some(tag) => tag_named(tags@, name@) == Some(*tag),
            None => tag_named(tags@, name@).is_none(),
        },
{
    let mut i: usize = 0;
    assert(tags@.skip(0) =~= tags@);
    while i < tags.len()
        invariant
            i <= tags.len(),
            tag_named(tags@, name@) == tag_named(tags@.skip(i as int), name@),
        decreases tags.len() - i,
    {
        if same_text(&tags[i].name, name) {
            return Some(&tags[i]);
        }
        assert(tags@.skip(i as int).drop_first() =~= tags@.skip(i + 1));
        i += 1;
    }
    None
}

/// Whether some row links the entry `entry_id` to the tag `tag_id`.
pub fn check_link(links: &Vec<EntryTag>, entry_id: &String, tag_id: &String) -> (found: bool)
    ensures
        found == has_link(links@, entry_id@, tag_id@),
{
    let mut i: usize = 0;
    while i < links.len()
        invariant
            i <= links.len(),
            forall|j: int| 0 <= j < i ==> !links_tag(#[trigger] links@[j], entry_id@, tag_id@),
        decreases links.len() - i,
    {
        if same_text(&links[i].entry_id, entry_id) && same_text(&links[i].tag_id, tag_id) {
            return true;
        }
        i += 1;
    }
    false
}

impl Store {
    /// Gives the entry `entry_id` the tag `name`.
    ///
    /// The tag is looked up by its name and, where there is none, created
    /// under the identifier `new_id` at `now`. The entry is then linked to
    /// it, unless it is already.
    pub fn link_tag(&mut self, entry_id: String, name: String, new_id: String, now: String)
        ensures
            final(self).tags@ == tags_with(old(self).tags@, name, new_id, now),
            final(self).entry_tags@ == links_with(
                old(self).entry_tags@,
                entry_id,
                tag_id_for(old(self).tags@, name, new_id),
            ),
            final(self).users == old(self).users,
            final(self).entries == old(self).entries,
            final(self).visits == old(self).visits,
            final(self).collections == old(self).collections,
            final(self).members == old(self).members,
            old(self).rows_unique() ==> final(self).rows_unique(),
            old(self).ids_unique() && tag_id_unused(old(self).tags@, new_id@)
                ==> final(self).ids_unique(),
            old(self).rows_unique() ==> count_links(
                final(self).entry_tags@,
                entry_id@,
                tag_id_for(old(self).tags@, name, new_id)@,
            ) == 1,
    {
        proof {
            let linked = links_with(
                old(self).entry_tags@,
                entry_id,
                tag_id_for(old(self).tags@, name, new_id),
            );
            if old(self).rows_unique() {
                lemma_unique_links_count_once(
                    old(self).entry_tags@,
                    entry_id@,
                    tag_id_for(old(self).tags@, name, new_id)@,
                );
                lemma_links_with_stays_single(
                    old(self).entry_tags@,
                    entry_id,
                    tag_id_for(old(self).tags@, name, new_id),
                    entry_id@,
                    tag_id_for(old(self).tags@, name, new_id)@,
                );
                lemma_link_has_rows(
                    linked,
                    entry_id@,
                    tag_id_for(old(self).tags@, name, new_id)@,
                );
            }
            lemma_link_keeps_unique(
                old(self).tags@,
                old(self).entry_tags@,
                entry_id,
                name,
                new_id,
                now,
            );
        }
        let tag_id = match find_tag(&self.tags, &name) {
            Some(tag) => tag.id.clone(),
            None => {
                let id = new_id.clone();
                self.tags.push(Tag { id: new_id, name, created_at: now });
                id
            },
        };
        if !check_link(&self.entry_tags, &entry_id, &tag_id) {
            self.entry_tags.push(EntryTag { entry_id, tag_id });
        }
    }

    /// Takes every tag off the entry `entry_id`. The tags themselves stay.
    pub fn untag_entry(&mut self, entry_id: &str)
        ensures
            final(self).entry_tags@ == old(self).entry_tags@.filter(not_of_entry(entry_id@)),
            final(self).users == old(self).users,
            final(self).entries == old(self).entries,
            final(self).visits == old(self).visits,
            final(self).collections == old(self).collections,
            final(self).members == old(self).members,
            final(self).tags == old(self).tags,
            old(self).ids_unique() ==> final(self).ids_unique(),
            old(self).rows_unique() ==> final(self).rows_unique(),
    {
        let id = String::from_str(entry_id);
        let ghost keep = not_of_entry(entry_id@);
        proof {
            if old(self).rows_unique() {
                lemma_filter_keeps_distinct(old(self).entry_tags@, keep, same_link());
            }
        }
        let mut left: Vec<EntryTag> = Vec::new();
        let mut i: usize = 0;
        assert(self.entry_tags@.take(0).filter(keep) =~= Seq::<EntryTag>::empty()) by {
            reveal(Seq::filter);
        }
        while i < self.entry_tags.len()
            invariant
                i <= self.entry_tags.len(),
                id@ == entry_id@,
                keep == not_of_entry(entry_id@),
                left@ == self.entry_tags@.take(i as int).filter(keep),
            decreases self.entry_tags.len() - i,
        {
            proof {
                lemma_filter_next(self.entry_tags@, keep, i as int);
            }
            if !same_text(&self.entry_tags[i].entry_id, &id) {
                left.push(self.entry_tags[i].clone());
            }
            i += 1;
        }
        assert(self.entry_tags@.take(self.entry_tags@.len() as int) =~= self.entry_tags@);
        self.entry_tags = left;
    }

    /// Gives the entry `entry_id` the tags `names`, beside those it has.
    ///
    /// Each name is looked up or created, with a fresh identifier and `now`
    /// as its time of creation, and linked. Whatever identifiers the new
    /// tags get, the result is that of `after_tagging`. Names and links
    /// stay unique; the identifiers of tags stay unique where the fresh
    /// ones came out unused (see `lemma_tagging_keeps_unique`).
    pub fn link_tags(&mut self, entry_id: &String, names: &Vec<String>, now: &String)
        ensures
            exists|new_ids: Seq<String>|
                new_ids.len() == names@.len() && fresh_ids(new_ids) && (#[trigger] after_tagging(
                    old(self).tags@,
                    old(self).entry_tags@,
                    *entry_id,
                    names@,
                    new_ids,
                    *now,
                )) == (final(self).tags@, final(self).entry_tags@),
            final(self).users == old(self).users,
            final(self).entries == old(self).entries,
            final(self).visits == old(self).visits,
            final(self).collections == old(self).collections,
            final(self).members == old(self).members,
            old(self).rows_unique() ==> final(self).rows_unique(),
            old(self).ids_unique() && distinct_by(final(self).tags@, same_tag_id())
                ==> final(self).ids_unique(),
    {
        let ghost mut new_ids: Seq<String> = Seq::empty();
        let mut i: usize = 0;
        assert(names@.take(0) =~= Seq::<String>::empty());
        while i < names.len()
            invariant
                i <= names.len(),
                new_ids.len() == i,
                fresh_ids(new_ids),
                after_tagging(
                    old(self).tags@,
                    old(self).entry_tags@,
                    *entry_id,
                    names@.take(i as int),
                    new_ids,
                    *now,
                ) == (self.tags@, self.entry_tags@),
                self.users == old(self).users,
                self.entries == old(self).entries,
                self.visits == old(self).visits,
                self.collections == old(self).collections,
                self.members == old(self).members,
                old(self).rows_unique() ==> self.rows_unique(),
            decreases names.len() - i,
        {
            let new_id = fresh_id();
            proof {
                assert(names@.take(i + 1).drop_last() =~= names@.take(i as int));
                assert(new_ids.push(new_id).drop_last() =~= new_ids);
                new_ids = new_ids.push(new_id);
            }
            self.link_tag(entry_id.clone(), names[i].clone(), new_id, now.clone());
            i += 1;
        }
        assert(names@.take(names@.len() as int) =~= names@);
    }

    /// Gives the entry `entry_id` the tags `names` in place of those it
    /// has.
    ///
    /// The entry's links are taken away, then each name is looked up or
    /// created and linked. Whatever identifiers the new tags get, the
    /// result is that of `after_tagging`, and the entry is linked to no tag
    /// twice.
    pub fn tag_entry(&mut self, entry_id: &String, names: &Vec<String>, now: &String)
        ensures
            exists|new_ids: Seq<String>|
                new_ids.len() == names@.len() && fresh_ids(new_ids) && (#[trigger] after_tagging(
                    old(self).tags@,
                    old(self).entry_tags@.filter(not_of_entry(entry_id@)),
                    *entry_id,
                    names@,
                    new_ids,
                    *now,
                )) == (final(self).tags@, final(self).entry_tags@),
            forall|tag_id: Seq<char>|
                count_links(final(self).entry_tags@, entry_id@, tag_id) <= 1,
            final(self).users == old(self).users,
            final(self).entries == old(self).entries,
            final(self).visits == old(self).visits,
            final(self).collections == old(self).collections,
            final(self).members == old(self).members,
            old(self).rows_unique() ==> final(self).rows_unique(),
            old(self).ids_unique() && distinct_by(final(self).tags@, same_tag_id())
                ==> final(self).ids_unique(),
    {
        self.untag_entry(entry_id.as_str());
        self.link_tags(entry_id, names, now);
        proof {
            let new_ids = choose|new_ids: Seq<String>|
                new_ids.len() == names@.len() && fresh_ids(new_ids) && (#[trigger] after_tagging(
                    old(self).tags@,
                    old(self).entry_tags@.filter(not_of_entry(entry_id@)),
                    *entry_id,
                    names@,
                    new_ids,
                    *now,
                )) == (self.tags@, self.entry_tags@);
            assert forall|tag_id: Seq<char>|
                count_links(self.entry_tags@, entry_id@, tag_id) <= 1 by {
                lemma_tagging_afresh_links_once(
                    old(self).tags@,
                    old(self).entry_tags@,
                    *entry_id,
                    names@,
                    new_ids,
                    *now,
                    tag_id,
                );
            }
        }
    }
}

/// The tag names that a form's text of tags holds; none where the form has
/// no such text.
pub open spec fn form_tag_names(tags: Option<String>) -> Seq<Seq<char>> {
    match tags {
        Some(text) => tag_names(text@),
        None => Seq::empty(),
    }
}

/// Reads the tag names out of a form's text of tags.
pub fn parse_form_tags(tags: &Option<String>) -> (names: Vec<String>)
    ensures
        texts_of(names@) == form_tag_names(*tags),
{
    match tags {
        Some(text) => parse_tag_list(text.as_str()),
        None => {
            let names: Vec<String> = Vec::new();
            assert(texts_of(names@) =~= Seq::<Seq<char>>::empty());
            names
        },
    }
}

/// The number of entries of `user_id` that carry the tag `tag_id`.
pub open spec fn count_tagged(
    entries: Seq<Entry>,
    links: Seq<EntryTag>,
    user_id: Seq<char>,
    tag_id: Seq<char>,
) -> nat
    decreases entries.len(),
{
    if entries.len() == 0 {
        0
    } else {
        count_tagged(entries.drop_last(), links, user_id, tag_id) + (if entries.last().user_id@
            == user_id && has_link(links, entries.last().id@, tag_id) {
            1nat
        } else {
            0nat
        })
    }
}

/// The test that keeps the tags that some entry of `user_id` carries.
pub open spec fn used_by(entries: Seq<Entry>, links: Seq<EntryTag>, user_id: Seq<char>) -> spec_fn(
    Tag,
) -> bool {
    |tag: Tag| count_tagged(entries, links, user_id, tag.id@) > 0
}

/// A tag's name with the number of entries of `user_id` that carry it.
pub open spec fn with_usage(entries: Seq<Entry>, links: Seq<EntryTag>, user_id: Seq<char>) -> spec_fn(
    Tag,
) -> TagWithCount {
    |tag: Tag|
        TagWithCount {
            name: tag.name,
            count: count_shown(count_tagged(entries, links, user_id, tag.id@)),
        }
}

/// The test that keeps the tags that the entry `entry_id` carries.
pub open spec fn carried_by(links: Seq<EntryTag>, entry_id: Seq<char>) -> spec_fn(Tag) -> bool {
    |tag: Tag| has_link(links, entry_id, tag.id@)
}

/// The name of a tag.
pub open spec fn name_of() -> spec_fn(Tag) -> String {
    |tag: Tag| tag.name
}

/// The texts of a list put together, with `separator` between each two.
pub open spec fn joined(texts: Seq<String>, separator: Seq<char>) -> Seq<char>
    decreases texts.len(),
{
    if texts.len() == 0 {
        Seq::empty()
    } else if texts.len() == 1 {
        texts[0]@
    } else {
        joined(texts.drop_last(), separator) + separator + texts.last()@
    }
}

/// The texts of a list put together, with `separator` between each two.
pub fn join_texts(texts: &Vec<String>, separator: &str) -> (text: String)
    ensures
        text@ == joined(texts@, separator@),
{
    let mut text = String::new();
    let mut i: usize = 0;
    assert(texts@.take(0) =~= Seq::<String>::empty());
    while i < texts.len()
        invariant
            i <= texts.len(),
            text@ == joined(texts@.take(i as int), separator@),
        decreases texts.len() - i,
    {
        assert(texts@.take(i + 1).drop_last() =~= texts@.take(i as int));
        if i > 0 {
            text.append(separator);
        }
        text.append(texts[i].as_str());
        proof {
            if i == 0 {
                assert(text@ =~= texts@[0]@);
            }
        }
        i += 1;
    }
    assert(texts@.take(texts@.len() as int) =~= texts@);
    text
}

impl Store {
    /// The number of entries of `user_id` that carry the tag `tag_id`.
    pub fn tag_usage(&self, user_id: &String, tag_id: &String) -> (n: i64)
        ensures
            n == count_shown(count_tagged(self.entries@, self.entry_tags@, user_id@, tag_id@)),
    {
        let mut n: i64 = 0;
        let mut i: usize = 0;
        while i < self.entries.len()
            invariant
                i <= self.entries.len(),
                n == count_shown(
                    count_tagged(
                        self.entries@.take(i as int),
                        self.entry_tags@,
                        user_id@,
                        tag_id@,
                    ),
                ),
            decreases self.entries.len() - i,
        {
            assert(self.entries@.take(i + 1).drop_last() =~= self.entries@.take(i as int));
            if same_text(&self.entries[i].user_id, user_id) && check_link(
                &self.entry_tags,
                &self.entries[i].id,
                tag_id,
            ) && n < i64::MAX {
                n += 1;
            }
            i += 1;
        }
        assert(self.entries@.take(self.entries@.len() as int) =~= self.entries@);
        n
    }

    /// The tags that the entries of `user_id` carry, each with the number
    /// of those entries that carry it, in the order of the store. Entries
    /// that others share with the user do not count.
    pub fn tags_for_user(&self, user_id: &str) -> (tags: Vec<TagWithCount>)
        ensures
            tags@ == self.tags@.filter(used_by(self.entries@, self.entry_tags@, user_id@)).map_values(
                with_usage(self.entries@, self.entry_tags@, user_id@),
            ),
    {
        let actor = String::from_str(user_id);
        let ghost keep = used_by(self.entries@, self.entry_tags@, user_id@);
        let ghost pair = with_usage(self.entries@, self.entry_tags@, user_id@);
        let mut found: Vec<TagWithCount> = Vec::new();
        let mut i: usize = 0;
        assert(self.tags@.take(0).filter(keep) =~= Seq::<Tag>::empty()) by {
            reveal(Seq::filter);
        }
        while i < self.tags.len()
            invariant
                i <= self.tags.len(),
                actor@ == user_id@,
                keep == used_by(self.entries@, self.entry_tags@, user_id@),
                pair == with_usage(self.entries@, self.entry_tags@, user_id@),
                found@ == self.tags@.take(i as int).filter(keep).map_values(pair),
            decreases self.tags.len() - i,
        {
            proof {
                lemma_filter_next(self.tags@, keep, i as int);
            }
            let count = self.tag_usage(&actor, &self.tags[i].id);
            if count > 0 {
                found.push(TagWithCount { name: self.tags[i].name.clone(), count });
                assert(found@ =~= self.tags@.take(i + 1).filter(keep).map_values(pair));
            }
            i += 1;
        }
        assert(self.tags@.take(self.tags@.len() as int) =~= self.tags@);
        found
    }

    /// The names of the tags that the entry `entry_id` carries, in the
    /// order of the store's tags.
    pub fn entry_tag_names(&self, entry_id: &str) -> (names: Vec<String>)
        ensures
            names@ == self.tags@.filter(carried_by(self.entry_tags@, entry_id@)).map_values(
                name_of(),
            ),
    {
        let id = String::from_str(entry_id);
        let ghost keep = carried_by(self.entry_tags@, entry_id@);
        let mut names: Vec<String> = Vec::new();
        let mut i: usize = 0;
        assert(self.tags@.take(0).filter(keep) =~= Seq::<Tag>::empty()) by {
            reveal(Seq::filter);
        }
        while i < self.tags.len()
            invariant
                i <= self.tags.len(),
                id@ == entry_id@,
                keep == carried_by(self.entry_tags@, entry_id@),
                names@ == self.tags@.take(i as int).filter(keep).map_values(name_of()),
            decreases self.tags.len() - i,
        {
            proof {
                lemma_filter_next(self.tags@, keep, i as int);
            }
            if check_link(&self.entry_tags, &id, &self.tags[i].id) {
                names.push(self.tags[i].name.clone());
                assert(names@ =~= self.tags@.take(i + 1).filter(keep).map_values(name_of()));
            }
            i += 1;
        }
        assert(self.tags@.take(self.tags@.len() as int) =~= self.tags@);
        names
    }
}

} // verus!
