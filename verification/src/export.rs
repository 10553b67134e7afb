//! What a user takes along: the user's own entries with their tags.

use crate::access::same_text;
use crate::models::{clone_optional_text, Entry, Interval};
use crate::store::{lemma_filter_next, Store};
use crate::tags::{carried_by, name_of, split_commas, split_on_commas, texts_of};
use vstd::prelude::*;

verus! {

/// A stored entry together with the names of its tags, written with commas
/// between them, as one row.
#[derive(Debug)]
pub struct EntryWithTags {
    pub id: String,
    pub user_id: String,
    pub collection_id: Option<String>,
    pub url: String,
    pub title: String,
    pub description: Option<String>,
    pub duration: i64,
    pub interval: Interval,
    pub dismissed_at: Option<String>,
    pub created_at: String,
    pub updated_at: String,
    pub tags: Option<String>,
}

/// An entry as an export holds it: with its schedule and timestamps as
/// stored, and the names of its tags.
#[derive(Debug)]
pub struct ExportEntry {
    pub id: String,
    pub url: String,
    pub title: String,
    pub description: Option<String>,
    pub duration: i64,
    pub interval: Interval,
    pub dismissed_at: Option<String>,
    pub created_at: String,
    pub updated_at: String,
    pub tags: Vec<String>,
}

impl ExportEntry {
    /// Whether this is the export of `entry`, apart from the tags.
    pub open spec fn holds(self, entry: Entry) -> bool {
        &&& self.id == entry.id
        &&& self.url == entry.url
        &&& self.title == entry.title
        &&& self.description == entry.description
        &&& self.duration == entry.duration
        &&& self.interval == entry.interval
        &&& self.dismissed_at == entry.dismissed_at
        &&& self.created_at == entry.created_at
        &&& self.updated_at == entry.updated_at
    }
}

impl EntryWithTags {
    /// The entry that the row holds.
    pub open spec fn entry(self) -> Entry {
        Entry {
            id: self.id,
            user_id: self.user_id,
            collection_id: self.collection_id,
            url: self.url,
            title: self.title,
            description: self.description,
            duration: self.duration,
            interval: self.interval,
            dismissed_at: self.dismissed_at,
            created_at: self.created_at,
            updated_at: self.updated_at,
        }
    }

    /// The row as an export holds it. The tag names are the pieces between
    /// the commas of `tags`, as they stand; a row without `tags` has none.
    pub fn into_export(self) -> (export: ExportEntry)
        ensures
            export.holds(self.entry()),
            texts_of(export.tags@) == match self.tags {
                Some(text) => split_on_commas(text@),
                None => Seq::<Seq<char>>::empty(),
            },
    {
        let tags = match &self.tags {
            Some(text) => split_commas(text.as_str()),
            None => {
                let none: Vec<String> = Vec::new();
                assert(texts_of(none@) =~= Seq::<Seq<char>>::empty());
                none
            },
        };
        ExportEntry {
            id: self.id,
            url: self.url,
            title: self.title,
            description: self.description,
            duration: self.duration,
            interval: self.interval,
            dismissed_at: self.dismissed_at,
            created_at: self.created_at,
            updated_at: self.updated_at,
            tags,
        }
    }
}

/// The test that keeps the entries that `user_id` created.
pub open spec fn created_by(user_id: Seq<char>) -> spec_fn(Entry) -> bool {
    |entry: Entry| entry.user_id@ == user_id
}

impl Store {
    /// The export of `user_id`: every entry that the user created, in the
    /// order of the store, each with the names of the tags it carries.
    /// Entries that others share with the user are not part of it.
    pub fn export_entries(&self, user_id: &str) -> (exports: Vec<ExportEntry>)
        ensures
            exports@.len() == self.entries@.filter(created_by(user_id@)).len(),
            forall|k: int|
                0 <= k < exports@.len() ==> {
                    let entry = self.entries@.filter(created_by(user_id@))[k];
                    &&& (#[trigger] exports@[k]).holds(entry)
                    &&& exports@[k].tags@ == self.tags@.filter(
                        carried_by(self.entry_tags@, entry.id@),
                    ).map_values(name_of())
                },
    {
        let actor = String::from_str(user_id);
        let ghost keep = created_by(user_id@);
        let mut exports: Vec<ExportEntry> = Vec::new();
        let mut i: usize = 0;
        assert(self.entries@.take(0).filter(keep) =~= Seq::<Entry>::empty()) by {
            reveal(Seq::filter);
        }
        while i < self.entries.len()
            invariant
                i <= self.entries.len(),
                actor@ == user_id@,
                keep == created_by(user_id@),
                exports@.len() == self.entries@.take(i as int).filter(keep).len(),
                forall|k: int|
                    0 <= k < exports@.len() ==> {
                        let entry = self.entries@.take(i as int).filter(keep)[k];
                        &&& (#[trigger] exports@[k]).holds(entry)
                        &&& exports@[k].tags@ == self.tags@.filter(
                            carried_by(self.entry_tags@, entry.id@),
                        ).map_values(name_of())
                    },
            decreases self.entries.len() - i,
        {
            proof {
                lemma_filter_next(self.entries@, keep, i as int);
            }
            let entry = &self.entries[i];
            if same_text(&entry.user_id, &actor) {
                let tags = self.entry_tag_names(entry.id.as_str());
                let ghost before = exports@;
                exports.push(
                    ExportEntry {
                        id: entry.id.clone(),
                        url: entry.url.clone(),
                        title: entry.title.clone(),
                        description: clone_optional_text(&entry.description),
                        duration: entry.duration,
                        interval: entry.interval,
                        dismissed_at: clone_optional_text(&entry.dismissed_at),
                        created_at: entry.created_at.clone(),
                        updated_at: entry.updated_at.clone(),
                        tags,
                    },
                );
                proof {
                    let kept = self.entries@.take(i + 1).filter(keep);
                    assert forall|k: int| 0 <= k < exports@.len() implies {
                        let e = kept[k];
                        &&& (#[trigger] exports@[k]).holds(e)
                        &&& exports@[k].tags@ == self.tags@.filter(
                            carried_by(self.entry_tags@, e.id@),
                        ).map_values(name_of())
                    } by {
                        if k < before.len() {
                            assert(exports@[k] == before[k]);
                        }
                    }
                }
            }
            i += 1;
        }
        assert(self.entries@.take(self.entries@.len() as int) =~= self.entries@);
        exports
    }
}

} // verus!
