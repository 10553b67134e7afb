//! Saving, changing, visiting and deleting entries.
//!
//! Only the user who created an entry may change, visit or delete it. To
//! everyone else the attempt looks as if there were no such entry.

use crate::access::{can_view_entry, may_mutate_entry, may_view_entry, same_text};
use crate::forms::{validate_entry_form, EntryForm, FormErrors};
use crate::listing::{count_shown, count_visits, visit_count};
use crate::collections::collection_visible_to;
use crate::models::{clone_optional_text, Collection, Entry, Visit};
use crate::schedule::{build_entry_view, EntryView};
use crate::store::{
    distinct_by, entry_id_unused, lemma_filter_keeps_distinct, lemma_filter_next,
    lemma_map_keeps_distinct, lemma_push_keeps_distinct, same_entry_id, same_tag_id,
    same_visit_id, visit_id_unused, Store,
};
use crate::tags::{
    after_tagging, carried_by, form_tag_names, fresh_ids, join_texts, joined, name_of,
    not_of_entry,
    parse_form_tags, texts_of,
};
use crate::time::Timestamp;
use vstd::prelude::*;

verus! {

/// Whether the row is the entry `entry_id` and was created by `actor`.
pub open spec fn is_own_entry(entry: Entry, actor: Seq<char>, entry_id: Seq<char>) -> bool {
    entry.id@ == entry_id && may_mutate_entry(actor, entry)
}

/// Whether `actor` has created an entry `entry_id`.
pub open spec fn owns_entry(entries: Seq<Entry>, actor: Seq<char>, entry_id: Seq<char>) -> bool {
    exists|i: int| 0 <= i < entries.len() && is_own_entry(#[trigger] entries[i], actor, entry_id)
}

/// The first entry `entry_id` that `actor` has created.
pub open spec fn first_own_entry(entries: Seq<Entry>, actor: Seq<char>, entry_id: Seq<char>) -> Option<
    Entry,
>
    decreases entries.len(),
{
    if entries.len() == 0 {
        None
    } else if is_own_entry(entries[0], actor, entry_id) {
        Some(entries[0])
    } else {
        first_own_entry(entries.drop_first(), actor, entry_id)
    }
}

/// The first entry `entry_id` that `actor` may see.
pub open spec fn first_visible_entry(store: Store, actor: Seq<char>, entry_id: Seq<char>) -> Option<
    Entry,
> {
    first_visible_in(store.entries@, store, actor, entry_id)
}

/// The first entry `entry_id` among `entries` that `actor` may see in
/// `store`.
pub open spec fn first_visible_in(
    entries: Seq<Entry>,
    store: Store,
    actor: Seq<char>,
    entry_id: Seq<char>,
) -> Option<Entry>
    decreases entries.len(),
{
    if entries.len() == 0 {
        None
    } else if entries[0].id@ == entry_id && may_view_entry(
        actor,
        entries[0],
        store.collections@,
        store.members@,
    ) {
        Some(entries[0])
    } else {
        first_visible_in(entries.drop_first(), store, actor, entry_id)
    }
}

/// There is a first own entry exactly where there is an own entry.
pub proof fn lemma_first_own_entry(entries: Seq<Entry>, actor: Seq<char>, entry_id: Seq<char>)
    ensures
        first_own_entry(entries, actor, entry_id).is_some() <==> owns_entry(
            entries,
            actor,
            entry_id,
        ),
        first_own_entry(entries, actor, entry_id) matches Some(e) ==> is_own_entry(
            e,
            actor,
            entry_id,
        ),
    decreases entries.len(),
{
    if entries.len() > 0 {
        let rest = entries.drop_first();
        lemma_first_own_entry(rest, actor, entry_id);
        if is_own_entry(entries[0], actor, entry_id) {
        } else {
            if owns_entry(entries, actor, entry_id) {
                let i = choose|i: int|
                    0 <= i < entries.len() && is_own_entry(#[trigger] entries[i], actor, entry_id);
                assert(is_own_entry(rest[i - 1], actor, entry_id));
            }
            if owns_entry(rest, actor, entry_id) {
                let i = choose|i: int|
                    0 <= i < rest.len() && is_own_entry(#[trigger] rest[i], actor, entry_id);
                assert(is_own_entry(entries[i + 1], actor, entry_id));
            }
        }
    }
}

/// The entry that a valid form of `actor` makes under the identifier `id`
/// at `now`: never dismissed, and in the collection that the form names.
pub open spec fn entry_from_form(form: EntryForm, actor: String, id: String, now: String) -> Entry {
    Entry {
        id,
        user_id: actor,
        collection_id: form.collection_choice(),
        url: form.url,
        title: form.title,
        description: form.description,
        duration: form.duration,
        interval: form.interval,
        dismissed_at: None,
        created_at: now,
        updated_at: now,
    }
}

/// The row after `form` was saved over it at `now`.
pub open spec fn entry_with_form(entry: Entry, form: EntryForm, now: String) -> Entry {
    Entry {
        collection_id: form.collection_choice(),
        url: form.url,
        title: form.title,
        description: form.description,
        duration: form.duration,
        interval: form.interval,
        updated_at: now,
        ..entry
    }
}

/// The change that saves `form` over the entries `entry_id` of `actor` and
/// leaves every other row alone.
pub open spec fn saving(actor: Seq<char>, entry_id: Seq<char>, form: EntryForm, now: String) -> spec_fn(
    Entry,
) -> Entry {
    |entry: Entry|
        if is_own_entry(entry, actor, entry_id) {
            entry_with_form(entry, form, now)
        } else {
            entry
        }
}

/// The change that marks the entries `entry_id` of `actor` as dismissed at
/// `now` and leaves every other row alone.
pub open spec fn dismissing(actor: Seq<char>, entry_id: Seq<char>, now: String) -> spec_fn(
    Entry,
) -> Entry {
    |entry: Entry|
        if is_own_entry(entry, actor, entry_id) {
            Entry { dismissed_at: Some(now), updated_at: now, ..entry }
        } else {
            entry
        }
}

/// The test that keeps every row but the entries `entry_id` of `actor`.
pub open spec fn not_own_entry(actor: Seq<char>, entry_id: Seq<char>) -> spec_fn(Entry) -> bool {
    |entry: Entry| !is_own_entry(entry, actor, entry_id)
}

/// What the form for changing an entry starts from.
#[derive(Debug)]
pub struct EntryFormData {
    pub entry: Entry,
    /// The collections into which the user may place the entry.
    pub collections: Vec<Collection>,
    /// The names of the entry's tags, with a comma and a blank between
    /// each two.
    pub tags_string: String,
}

/// How an attempt to save a form ended.
#[derive(Debug)]
pub enum SaveOutcome {
    /// The acting user has no such entry or collection.
    NotFound,
    /// The form is at fault; nothing was saved.
    Invalid(FormErrors),
    /// The form was saved.
    Saved,
}

impl Store {
    /// The entry `entry_id` as `actor` may see it: the first such entry
    /// that the user created or that stands in a collection which the user
    /// owns or belongs to. To anyone else there is no such entry.
    pub fn find_entry(&self, actor: &str, entry_id: &str) -> (found: Option<Entry>)
        ensures
            found == first_visible_entry(*self, actor@, entry_id@),
            found matches Some(e) ==> e.id@ == entry_id@ && may_view_entry(
                actor@,
                e,
                self.collections@,
                self.members@,
            ),
    {
        let a = String::from_str(actor);
        let id = String::from_str(entry_id);
        let mut i: usize = 0;
        assert(self.entries@.skip(0) =~= self.entries@);
        while i < self.entries.len()
            invariant
                i <= self.entries.len(),
                a@ == actor@,
                id@ == entry_id@,
                first_visible_entry(*self, actor@, entry_id@) == first_visible_in(
                    self.entries@.skip(i as int),
                    *self,
                    actor@,
                    entry_id@,
                ),
            decreases self.entries.len() - i,
        {
            let entry = &self.entries[i];
            if same_text(&entry.id, &id) && can_view_entry(
                &a,
                entry,
                &self.collections,
                &self.members,
            ) {
                return Some(entry.clone());
            }
            assert(self.entries@.skip(i as int).drop_first() =~= self.entries@.skip(i + 1));
            i += 1;
        }
        None
    }

    /// The entry `entry_id` as its creator `actor` may change it. To anyone
    /// else there is no such entry.
    pub fn find_own_entry(&self, actor: &str, entry_id: &str) -> (found: Option<Entry>)
        ensures
            found == first_own_entry(self.entries@, actor@, entry_id@),
            found.is_some() <==> owns_entry(self.entries@, actor@, entry_id@),
    {
        let a = String::from_str(actor);
        let id = String::from_str(entry_id);
        let mut i: usize = 0;
        assert(self.entries@.skip(0) =~= self.entries@);
        proof {
            lemma_first_own_entry(self.entries@, actor@, entry_id@);
        }
        while i < self.entries.len()
            invariant
                i <= self.entries.len(),
                a@ == actor@,
                id@ == entry_id@,
                first_own_entry(self.entries@, actor@, entry_id@) == first_own_entry(
                    self.entries@.skip(i as int),
                    actor@,
                    entry_id@,
                ),
            decreases self.entries.len() - i,
        {
            let entry = &self.entries[i];
            if same_text(&entry.id, &id) && same_text(&entry.user_id, &a) {
                return Some(entry.clone());
            }
            assert(self.entries@.skip(i as int).drop_first() =~= self.entries@.skip(i + 1));
            i += 1;
        }
        None
    }

    /// What the form for changing the entry `entry_id` starts from, for its
    /// creator `actor`: the entry, the collections to choose from, and the
    /// names of its tags. To anyone else there is no such entry.
    pub fn edit_entry_form(&self, actor: &str, entry_id: &str) -> (data: Option<EntryFormData>)
        ensures
            match data {
                None => first_own_entry(self.entries@, actor@, entry_id@) is None,
                Some(d) => {
                    &&& first_own_entry(self.entries@, actor@, entry_id@) == Some(d.entry)
                    &&& d.collections@ == self.collections@.filter(
                        collection_visible_to(actor@, self.members@),
                    )
                    &&& d.tags_string@ == joined(
                        self.tags@.filter(carried_by(self.entry_tags@, entry_id@)).map_values(
                            name_of(),
                        ),
                        ", "@,
                    )
                },
            },
    {
        match self.find_own_entry(actor, entry_id) {
            None => None,
            Some(entry) => {
                let collections = self.collections_for(actor);
                let names = self.entry_tag_names(entry_id);
                Some(EntryFormData { entry, collections, tags_string: join_texts(&names, ", ") })
            },
        }
    }

    /// Saves a new entry of `actor` under the identifier `id`, created at
    /// `now`, and gives it the tags that the form names. A form at fault
    /// saves nothing and gets its messages back.
    ///
    /// Identifiers stay unique where `id` is not in use and the fresh
    /// identifiers of new tags came out unused.
    pub fn create_entry(&mut self, actor: String, form: &EntryForm, id: String, now: String) -> (outcome:
        SaveOutcome)
        ensures
            outcome is Saved <==> crate::forms::entry_form_is_valid(*form),
            !(outcome is NotFound),
            outcome matches SaveOutcome::Invalid(errors) ==> !errors@.dom().is_empty(),
            !(outcome is Saved) ==> final(self).entries@ == old(self).entries@ && final(self).tags@
                == old(self).tags@ && final(self).entry_tags@ == old(self).entry_tags@,
            outcome is Saved ==> final(self).entries@ == old(self).entries@.push(
                entry_from_form(*form, actor, id, now),
            ),
            outcome is Saved ==> exists|names: Seq<String>, new_ids: Seq<String>|
                texts_of(names) == form_tag_names(form.tags) && new_ids.len() == names.len()
                    && fresh_ids(new_ids) && (
                #[trigger] after_tagging(
                    old(self).tags@,
                    old(self).entry_tags@,
                    id,
                    names,
                    new_ids,
                    now,
                )) == (final(self).tags@, final(self).entry_tags@),
            final(self).users == old(self).users,
            final(self).visits == old(self).visits,
            final(self).collections == old(self).collections,
            final(self).members == old(self).members,
            old(self).rows_unique() ==> final(self).rows_unique(),
            old(self).ids_unique() && entry_id_unused(old(self).entries@, id@) && distinct_by(
                final(self).tags@,
                same_tag_id(),
            ) ==> final(self).ids_unique(),
    {
        proof {
            if distinct_by(old(self).entries@, same_entry_id()) && entry_id_unused(
                old(self).entries@,
                id@,
            ) {
                lemma_push_keeps_distinct(
                    old(self).entries@,
                    entry_from_form(*form, actor, id, now),
                    same_entry_id(),
                );
            }
        }
        let errors = validate_entry_form(form);
        if !errors.is_empty() {
            return SaveOutcome::Invalid(errors);
        }
        let names = parse_form_tags(&form.tags);
        self.link_tags(&id, &names, &now);
        proof {
            let new_ids = choose|new_ids: Seq<String>|
                new_ids.len() == names@.len() && fresh_ids(new_ids) && (#[trigger] after_tagging(
                    old(self).tags@,
                    old(self).entry_tags@,
                    id,
                    names@,
                    new_ids,
                    now,
                )) == (self.tags@, self.entry_tags@);
            assert(after_tagging(old(self).tags@, old(self).entry_tags@, id, names@, new_ids, now)
                == (self.tags@, self.entry_tags@));
        }
        let updated_at = now.clone();
        self.entries.push(
            Entry {
                id,
                user_id: actor,
                collection_id: form.chosen_collection(),
                url: form.url.clone(),
                title: form.title.clone(),
                description: clone_optional_text(&form.description),
                duration: form.duration,
                interval: form.interval,
                dismissed_at: None,
                created_at: now,
                updated_at,
            },
        );
        SaveOutcome::Saved
    }

    /// Saves `form` over the entry `entry_id` of `actor` at `now`, and gives
    /// the entry the tags that the form names in place of those it has.
    ///
    /// Where `actor` has no such entry nothing happens, whatever the form
    /// holds. A form at fault saves nothing and gets its messages back.
    pub fn update_entry(&mut self, actor: &str, entry_id: &String, form: &EntryForm, now: String) -> (outcome:
        SaveOutcome)
        ensures
            outcome is NotFound <==> !owns_entry(old(self).entries@, actor@, entry_id@),
            outcome is Saved <==> owns_entry(old(self).entries@, actor@, entry_id@)
                && crate::forms::entry_form_is_valid(*form),
            outcome matches SaveOutcome::Invalid(errors) ==> !errors@.dom().is_empty(),
            final(self).entries@ == (if outcome is Saved {
                old(self).entries@.map_values(saving(actor@, entry_id@, *form, now))
            } else {
                old(self).entries@
            }),
            !(outcome is Saved) ==> final(self).tags@ == old(self).tags@ && final(self).entry_tags@
                == old(self).entry_tags@,
            outcome is Saved ==> exists|names: Seq<String>, new_ids: Seq<String>|
                texts_of(names) == form_tag_names(form.tags) && new_ids.len() == names.len()
                    && fresh_ids(new_ids) && (
                #[trigger] after_tagging(
                    old(self).tags@,
                    old(self).entry_tags@.filter(not_of_entry(entry_id@)),
                    *entry_id,
                    names,
                    new_ids,
                    now,
                )) == (final(self).tags@, final(self).entry_tags@),
            final(self).users == old(self).users,
            final(self).visits == old(self).visits,
            final(self).collections == old(self).collections,
            final(self).members == old(self).members,
            old(self).rows_unique() ==> final(self).rows_unique(),
            old(self).ids_unique() && distinct_by(final(self).tags@, same_tag_id())
                ==> final(self).ids_unique(),
    {
        proof {
            if distinct_by(old(self).entries@, same_entry_id()) {
                lemma_map_keeps_distinct(
                    old(self).entries@,
                    saving(actor@, entry_id@, *form, now),
                    same_entry_id(),
                );
            }
        }
        if self.find_own_entry(actor, entry_id.as_str()).is_none() {
            return SaveOutcome::NotFound;
        }
        let errors = validate_entry_form(form);
        if !errors.is_empty() {
            return SaveOutcome::Invalid(errors);
        }
        let names = parse_form_tags(&form.tags);
        self.tag_entry(entry_id, &names, &now);
        proof {
            let new_ids = choose|new_ids: Seq<String>|
                new_ids.len() == names@.len() && fresh_ids(new_ids) && (#[trigger] after_tagging(
                    old(self).tags@,
                    old(self).entry_tags@.filter(not_of_entry(entry_id@)),
                    *entry_id,
                    names@,
                    new_ids,
                    now,
                )) == (self.tags@, self.entry_tags@);
            assert(after_tagging(
                old(self).tags@,
                old(self).entry_tags@.filter(not_of_entry(entry_id@)),
                *entry_id,
                names@,
                new_ids,
                now,
            ) == (self.tags@, self.entry_tags@));
        }
        let ghost tagged = (self.tags@, self.entry_tags@);
        let a = String::from_str(actor);
        let id = entry_id.clone();
        let ghost change = saving(actor@, entry_id@, *form, now);
        let ghost before = self.entries@;
        let mut i: usize = 0;
        while i < self.entries.len()
            invariant
                i <= self.entries.len(),
                a@ == actor@,
                id@ == entry_id@,
                change == saving(actor@, entry_id@, *form, now),
                self.entries@.len() == before.len(),
                forall|j: int| 0 <= j < i ==> self.entries@[j] == change(before[j]),
                forall|j: int| i <= j < before.len() ==> self.entries@[j] == before[j],
                self.users == old(self).users,
                self.visits == old(self).visits,
                self.collections == old(self).collections,
                self.members == old(self).members,
                (self.tags@, self.entry_tags@) == tagged,
                old(self).rows_unique() ==> self.rows_unique(),
            decreases self.entries.len() - i,
        {
            if same_text(&self.entries[i].id, &id) && same_text(&self.entries[i].user_id, &a) {
                let entry = &self.entries[i];
                let saved = Entry {
                    id: entry.id.clone(),
                    user_id: entry.user_id.clone(),
                    collection_id: form.chosen_collection(),
                    url: form.url.clone(),
                    title: form.title.clone(),
                    description: clone_optional_text(&form.description),
                    duration: form.duration,
                    interval: form.interval,
                    dismissed_at: clone_optional_text(&entry.dismissed_at),
                    created_at: entry.created_at.clone(),
                    updated_at: now.clone(),
                };
                self.entries.set(i, saved);
            }
            i += 1;
        }
        assert(self.entries@ =~= before.map_values(change));
        SaveOutcome::Saved
    }

    /// Deletes the entry `entry_id` of `actor`. Where `actor` has no such
    /// entry nothing happens.
    pub fn delete_entry(&mut self, actor: &str, entry_id: &str)
        ensures
            final(self).entries@ == old(self).entries@.filter(not_own_entry(actor@, entry_id@)),
            !owns_entry(old(self).entries@, actor@, entry_id@) ==> final(self).entries@ == old(
                self,
            ).entries@,
            final(self).users == old(self).users,
            final(self).visits == old(self).visits,
            final(self).collections == old(self).collections,
            final(self).members == old(self).members,
            final(self).tags == old(self).tags,
            final(self).entry_tags == old(self).entry_tags,
            old(self).ids_unique() ==> final(self).ids_unique(),
            old(self).rows_unique() ==> final(self).rows_unique(),
    {
        let a = String::from_str(actor);
        let id = String::from_str(entry_id);
        let ghost keep = not_own_entry(actor@, entry_id@);
        proof {
            if old(self).ids_unique() {
                lemma_filter_keeps_distinct(old(self).entries@, keep, same_entry_id());
            }
        }
        let mut left: Vec<Entry> = Vec::new();
        let mut i: usize = 0;
        assert(self.entries@.take(0).filter(keep) =~= Seq::<Entry>::empty()) by {
            reveal(Seq::filter);
        }
        while i < self.entries.len()
            invariant
                i <= self.entries.len(),
                a@ == actor@,
                id@ == entry_id@,
                keep == not_own_entry(actor@, entry_id@),
                left@ == self.entries@.take(i as int).filter(keep),
                (forall|j: int|
                    0 <= j < i ==> !is_own_entry(#[trigger] self.entries@[j], actor@, entry_id@))
                    ==> left@ == self.entries@.take(i as int),
            decreases self.entries.len() - i,
        {
            proof {
                lemma_filter_next(self.entries@, keep, i as int);
                assert(self.entries@.take(i + 1) =~= self.entries@.take(i as int).push(
                    self.entries@[i as int],
                ));
            }
            if !(same_text(&self.entries[i].id, &id) && same_text(&self.entries[i].user_id, &a)) {
                left.push(self.entries[i].clone());
            }
            i += 1;
        }
        assert(self.entries@.take(self.entries@.len() as int) =~= self.entries@);
        self.entries = left;
    }

    /// Records a visit of the entry `entry_id` by its creator `actor` at
    /// `now`, whose text is `now_text`, and shows the entry as it stands
    /// after the visit.
    ///
    /// The visit is added under the identifier `visit_id` and the entry is
    /// marked as dismissed at `now_text`, both or neither. Where `actor`
    /// has no such entry nothing happens and nothing is shown.
    pub fn visit_entry(
        &mut self,
        actor: String,
        entry_id: String,
        visit_id: String,
        now_text: String,
        now: Timestamp,
    ) -> (shown: Option<EntryView>)
        ensures
            shown.is_some() <==> owns_entry(old(self).entries@, actor@, entry_id@),
            shown is None ==> final(self).entries@ == old(self).entries@ && final(self).visits@
                == old(self).visits@,
            shown matches Some(view) ==> {
                &&& final(self).visits@ == old(self).visits@.push(
                    Visit { id: visit_id, entry_id, user_id: actor, visited_at: now_text },
                )
                &&& final(self).entries@ == old(self).entries@.map_values(
                    dismissing(actor@, entry_id@, now_text),
                )
                &&& first_own_entry(final(self).entries@, actor@, entry_id@) matches Some(e)
                    && view.shows(
                    e,
                    count_shown(count_visits(final(self).visits@, entry_id@)),
                    now,
                )
            },
            final(self).users == old(self).users,
            final(self).collections == old(self).collections,
            final(self).members == old(self).members,
            final(self).tags == old(self).tags,
            final(self).entry_tags == old(self).entry_tags,
            old(self).ids_unique() && visit_id_unused(old(self).visits@, visit_id@)
                ==> final(self).ids_unique(),
            old(self).rows_unique() ==> final(self).rows_unique(),
    {
        proof {
            if old(self).ids_unique() && visit_id_unused(old(self).visits@, visit_id@) {
                lemma_map_keeps_distinct(
                    old(self).entries@,
                    dismissing(actor@, entry_id@, now_text),
                    same_entry_id(),
                );
                lemma_push_keeps_distinct(
                    old(self).visits@,
                    Visit { id: visit_id, entry_id, user_id: actor, visited_at: now_text },
                    same_visit_id(),
                );
            }
        }
        if self.find_own_entry(actor.as_str(), entry_id.as_str()).is_none() {
            return None;
        }
        let ghost change = dismissing(actor@, entry_id@, now_text);
        let ghost before = self.entries@;
        let mut i: usize = 0;
        while i < self.entries.len()
            invariant
                i <= self.entries.len(),
                change == dismissing(actor@, entry_id@, now_text),
                self.entries@.len() == before.len(),
                forall|j: int| 0 <= j < i ==> self.entries@[j] == change(before[j]),
                forall|j: int| i <= j < before.len() ==> self.entries@[j] == before[j],
                self.users == old(self).users,
                self.visits == old(self).visits,
                self.collections == old(self).collections,
                self.members == old(self).members,
                self.tags == old(self).tags,
                self.entry_tags == old(self).entry_tags,
            decreases self.entries.len() - i,
        {
            if same_text(&self.entries[i].id, &entry_id) && same_text(
                &self.entries[i].user_id,
                &actor,
            ) {
                let entry = &self.entries[i];
                let dismissed = Entry {
                    id: entry.id.clone(),
                    user_id: entry.user_id.clone(),
                    collection_id: clone_optional_text(&entry.collection_id),
                    url: entry.url.clone(),
                    title: entry.title.clone(),
                    description: clone_optional_text(&entry.description),
                    duration: entry.duration,
                    interval: entry.interval,
                    dismissed_at: Some(now_text.clone()),
                    created_at: entry.created_at.clone(),
                    updated_at: now_text.clone(),
                };
                self.entries.set(i, dismissed);
            }
            i += 1;
        }
        assert(self.entries@ =~= before.map_values(change));
        let count_of = entry_id.clone();
        let of_actor = actor.clone();
        self.visits.push(Visit { id: visit_id, entry_id, user_id: actor, visited_at: now_text });
        let count = visit_count(&self.visits, &count_of);
        match self.find_own_entry(of_actor.as_str(), count_of.as_str()) {
            Some(entry) => Some(build_entry_view(entry, count, now)),
            None => {
                proof {
                    lemma_dismissing_keeps_owner(before, actor@, entry_id@, now_text);
                }
                None
            },
        }
    }
}

/// Dismissing an entry changes neither its identifier nor its creator: the
/// user has the entry afterwards as before.
pub proof fn lemma_dismissing_keeps_owner(
    entries: Seq<Entry>,
    actor: Seq<char>,
    entry_id: Seq<char>,
    now: String,
)
    ensures
        owns_entry(entries.map_values(dismissing(actor, entry_id, now)), actor, entry_id)
            <==> owns_entry(entries, actor, entry_id),
{
    let change = dismissing(actor, entry_id, now);
    let after = entries.map_values(change);
    if owns_entry(entries, actor, entry_id) {
        let i = choose|i: int|
            0 <= i < entries.len() && is_own_entry(#[trigger] entries[i], actor, entry_id);
        assert(is_own_entry(after[i], actor, entry_id));
    }
    if owns_entry(after, actor, entry_id) {
        let i = choose|i: int|
            0 <= i < after.len() && is_own_entry(#[trigger] after[i], actor, entry_id);
        assert(after[i] == change(entries[i]));
        assert(is_own_entry(entries[i], actor, entry_id));
    }
}

} // verus!
