//! Taking in entries from a legacy export.

use crate::auth::user_with_id;
use crate::models::{clone_optional_text, fresh_id, Entry, Interval, Visit};
use crate::store::{distinct_by, same_entry_id, same_tag_id, same_visit_id, Store};
use crate::tags::{
    after_tagging, drop_empty_names, fresh_ids, lemma_tagging_only_adds, stored_names,
    tag_names_among, texts_of,
};
use crate::text::{integer_of, parse_i64};
use vstd::prelude::*;

verus! {

/// An entry as a legacy export holds it. The duration and the interval
/// come as text, and the visits as a count.
#[derive(Debug)]
pub struct LegacyEntry {
    pub url: String,
    pub title: String,
    pub description: Option<String>,
    pub duration: String,
    pub interval: String,
    pub visited: Option<i64>,
    pub created_at: Option<String>,
    pub updated_at: Option<String>,
    pub dismissed_at: Option<String>,
    pub tags: Vec<String>,
}

/// The duration that a legacy text stands for: the integer it writes where
/// that is at least 1, and 1 where the text writes no integer or one below
/// 1. An entry's duration is never below 1.
pub open spec fn legacy_duration(text: Seq<char>) -> i64 {
    match integer_of(text) {
        Some(n) if n >= 1 => n as i64,
        _ => 1,
    }
}

/// The unit that a legacy name stands for: days, where the name is unknown.
pub open spec fn legacy_interval(name: Seq<char>) -> Interval {
    match Interval::of_name(name) {
        Some(unit) => unit,
        None => Interval::Days,
    }
}

/// The number of visits to record for a legacy count: none for a count
/// that is missing or below one.
pub open spec fn legacy_visits(visited: Option<i64>) -> nat {
    match visited {
        Some(n) if n > 0 => n as nat,
        _ => 0,
    }
}

/// A timestamp of a legacy entry, or `now` where it has none.
pub open spec fn or_now(stamp: Option<String>, now: String) -> String {
    match stamp {
        Some(text) => text,
        None => now,
    }
}

impl LegacyEntry {
    /// The entry that `user_id` gets for this legacy entry under the
    /// identifier `id`, taken in at `now`. It stands in no collection.
    pub open spec fn entry(self, id: String, user_id: String, now: String) -> Entry {
        Entry {
            id,
            user_id,
            collection_id: None,
            url: self.url,
            title: self.title,
            description: self.description,
            duration: legacy_duration(self.duration@),
            interval: legacy_interval(self.interval@),
            dismissed_at: self.dismissed_at,
            created_at: or_now(self.created_at, now),
            updated_at: or_now(self.updated_at, now),
        }
    }

    /// The entry that `user_id` gets for this legacy entry under the
    /// identifier `id`, taken in at `now`, and whether the name of its
    /// interval was known.
    ///
    /// A duration that is no integer, or one below 1, counts as 1, and an
    /// interval of an unknown name as days.
    pub fn to_entry(&self, id: String, user_id: String, now: &String) -> (r: (Entry, bool))
        ensures
            r.0 == self.entry(id, user_id, *now),
            r.0.duration >= 1,
            r.1 == Interval::of_name(self.interval@).is_some(),
    {
        let duration: i64 = match parse_i64(self.duration.as_str()) {
            Some(n) => if n >= 1 {
                n
            } else {
                1
            },
            None => 1,
        };
        let (interval, known) = Interval::parse_legacy(self.interval.as_str());
        let created_at = match &self.created_at {
            Some(text) => text.clone(),
            None => now.clone(),
        };
        let updated_at = match &self.updated_at {
            Some(text) => text.clone(),
            None => now.clone(),
        };
        let entry = Entry {
            id,
            user_id,
            collection_id: None,
            url: self.url.clone(),
            title: self.title.clone(),
            description: clone_optional_text(&self.description),
            duration,
            interval,
            dismissed_at: clone_optional_text(&self.dismissed_at),
            created_at,
            updated_at,
        };
        (entry, known)
    }

    /// The names under which the legacy entry's tags are stored: each
    /// trimmed and in lower case, the empty ones left out.
    pub fn tag_names(&self) -> (names: Vec<String>)
        ensures
            texts_of(names@) == tag_names_among(texts_of(self.tags@)),
    {
        drop_empty_names(stored_names(&self.tags))
    }
}

/// Why nothing was imported.
#[derive(Clone, Copy, Debug, PartialEq, Eq, Structural)]
pub enum ImportError {
    /// The user who is to get the entries does not exist.
    UnknownUser,
}

/// Whether `visits` is `before` with `count` visits of `entry_id` by
/// `user_id` at `now` behind it, each under an identifier of 36 characters.
pub open spec fn visits_added(
    visits: Seq<Visit>,
    before: Seq<Visit>,
    count: nat,
    entry_id: String,
    user_id: String,
    now: String,
) -> bool {
    &&& visits.len() == before.len() + count
    &&& visits.take(before.len() as int) == before
    &&& forall|k: int|
        before.len() <= k < visits.len() ==> (#[trigger] visits[k]).entry_id == entry_id
            && visits[k].user_id == user_id && visits[k].visited_at == now
            && visits[k].id@.len() == 36
}

/// Whether `after` is `before` with one legacy entry taken in for
/// `user_id` at `now`: the entry added under an identifier of 36
/// characters, its tags looked up or created and linked, and as many visits
/// recorded as its count says. Users, collections and memberships are as
/// before.
pub open spec fn took_in(
    before: Store,
    after: Store,
    user_id: String,
    legacy: LegacyEntry,
    now: String,
) -> bool {
    &&& after.entries@.len() == before.entries@.len() + 1
    &&& after.entries@.drop_last() == before.entries@
    &&& after.entries@.last() == legacy.entry(after.entries@.last().id, user_id, now)
    &&& after.entries@.last().id@.len() == 36
    &&& exists|names: Seq<String>, new_ids: Seq<String>|
        texts_of(names) == tag_names_among(texts_of(legacy.tags@)) && new_ids.len()
            == names.len() && fresh_ids(new_ids) && (#[trigger] after_tagging(
            before.tags@,
            before.entry_tags@,
            after.entries@.last().id,
            names,
            new_ids,
            now,
        )) == (after.tags@, after.entry_tags@)
    &&& visits_added(
        after.visits@,
        before.visits@,
        legacy_visits(legacy.visited),
        after.entries@.last().id,
        user_id,
        now,
    )
    &&& after.users == before.users
    &&& after.collections == before.collections
    &&& after.members == before.members
}

/// Whether `after` is `before` with the legacy entries taken in one after
/// the other, each as `took_in` says.
pub open spec fn took_in_all(
    before: Store,
    after: Store,
    user_id: String,
    entries: Seq<LegacyEntry>,
    now: String,
) -> bool
    decreases entries.len(),
{
    if entries.len() == 0 {
        after == before
    } else {
        exists|mid: Store|
            took_in_all(before, mid, user_id, entries.drop_last(), now) && #[trigger] took_in(
                mid,
                after,
                user_id,
                entries.last(),
                now,
            )
    }
}

/// The number of visits that the legacy entries count together.
pub open spec fn legacy_visits_total(entries: Seq<LegacyEntry>) -> nat
    decreases entries.len(),
{
    if entries.len() == 0 {
        0
    } else {
        legacy_visits_total(entries.drop_last()) + legacy_visits(entries.last().visited)
    }
}

/// Whether every visit of `visits` from the place `from` on was made by
/// `user_id` at `now` and stands under an identifier of 36 characters.
pub open spec fn visits_by(visits: Seq<Visit>, from: int, user_id: String, now: String) -> bool {
    forall|k: int|
        from <= k < visits.len() ==> (#[trigger] visits[k]).user_id == user_id
            && visits[k].visited_at == now && visits[k].id@.len() == 36
}

/// What taking in legacy entries adds up to. The store has one entry more
/// for each legacy entry, in their order behind those it had, each of
/// `user_id`, in no collection and with a duration of at least 1. It has as
/// many visits more as the legacy entries count together, all by `user_id`
/// at `now`. Tags and links are only added. Users, collections and
/// memberships are as before.
pub proof fn lemma_took_in_all(
    before: Store,
    after: Store,
    user_id: String,
    entries: Seq<LegacyEntry>,
    now: String,
)
    requires
        took_in_all(before, after, user_id, entries, now),
    ensures
        after.entries@.len() == before.entries@.len() + entries.len(),
        after.entries@.take(before.entries@.len() as int) == before.entries@,
        forall|k: int|
            0 <= k < entries.len() ==> {
                let taken = #[trigger] after.entries@[before.entries@.len() + k];
                &&& taken == entries[k].entry(taken.id, user_id, now)
                &&& taken.id@.len() == 36
                &&& taken.user_id == user_id
                &&& taken.collection_id is None
                &&& taken.duration >= 1
            },
        after.visits@.len() == before.visits@.len() + legacy_visits_total(entries),
        after.visits@.take(before.visits@.len() as int) == before.visits@,
        visits_by(after.visits@, before.visits@.len() as int, user_id, now),
        after.tags@.len() >= before.tags@.len(),
        after.tags@.take(before.tags@.len() as int) == before.tags@,
        after.entry_tags@.len() >= before.entry_tags@.len(),
        after.entry_tags@.take(before.entry_tags@.len() as int) == before.entry_tags@,
        after.users == before.users,
        after.collections == before.collections,
        after.members == before.members,
    decreases entries.len(),
{
    if entries.len() == 0 {
        assert(after.entries@.take(before.entries@.len() as int) =~= before.entries@);
        assert(after.visits@.take(before.visits@.len() as int) =~= before.visits@);
        assert(after.tags@.take(before.tags@.len() as int) =~= before.tags@);
        assert(after.entry_tags@.take(before.entry_tags@.len() as int) =~= before.entry_tags@);
    } else {
        let mid = choose|mid: Store|
            took_in_all(before, mid, user_id, entries.drop_last(), now) && #[trigger] took_in(
                mid,
                after,
                user_id,
                entries.last(),
                now,
            );
        lemma_took_in_all(before, mid, user_id, entries.drop_last(), now);
        let start = before.entries@.len() as int;
        assert(after.entries@.take(start) =~= mid.entries@.take(start)) by {
            assert(after.entries@.drop_last() == mid.entries@);
        }
        assert forall|k: int| 0 <= k < entries.len() implies {
            let taken = #[trigger] after.entries@[start + k];
            &&& taken == entries[k].entry(taken.id, user_id, now)
            &&& taken.id@.len() == 36
            &&& taken.user_id == user_id
            &&& taken.collection_id is None
            &&& taken.duration >= 1
        } by {
            if k < entries.len() - 1 {
                assert(after.entries@[start + k] == after.entries@.drop_last()[start + k]);
                assert(entries[k] == entries.drop_last()[k]);
            }
        }
        let seen = before.visits@.len() as int;
        assert(after.visits@.take(seen) =~= mid.visits@.take(seen)) by {
            assert(after.visits@.take(mid.visits@.len() as int) == mid.visits@);
        }
        assert forall|k: int| seen <= k < after.visits@.len() implies (
        #[trigger] after.visits@[k]).user_id == user_id && after.visits@[k].visited_at == now
            && after.visits@[k].id@.len() == 36 by {
            if k < mid.visits@.len() {
                assert(after.visits@[k] == after.visits@.take(mid.visits@.len() as int)[k]);
            }
        }
        let (names, new_ids) = choose|names: Seq<String>, new_ids: Seq<String>|
            texts_of(names) == tag_names_among(texts_of(entries.last().tags@)) && new_ids.len()
                == names.len() && fresh_ids(new_ids) && (#[trigger] after_tagging(
                mid.tags@,
                mid.entry_tags@,
                after.entries@.last().id,
                names,
                new_ids,
                now,
            )) == (after.tags@, after.entry_tags@);
        lemma_tagging_only_adds(
            mid.tags@,
            mid.entry_tags@,
            after.entries@.last().id,
            names,
            new_ids,
            now,
        );
        let tags = before.tags@.len() as int;
        let links = before.entry_tags@.len() as int;
        assert(after.tags@.take(tags) =~= mid.tags@.take(tags)) by {
            assert(after.tags@.take(mid.tags@.len() as int) == mid.tags@);
        }
        assert(after.entry_tags@.take(links) =~= mid.entry_tags@.take(links)) by {
            assert(after.entry_tags@.take(mid.entry_tags@.len() as int) == mid.entry_tags@);
        }
    }
}

impl Store {
    /// Takes in one legacy entry for `user_id` at `now`, and tells whether
    /// the name of its interval was known.
    ///
    /// The entry is added under a fresh identifier. Its tags are looked up
    /// or created and linked, and as many visits as the legacy count says
    /// are recorded, each under a fresh identifier and at `now`. Names,
    /// links and memberships stay unique; identifiers stay unique where
    /// the fresh ones came out unused.
    pub fn import_entry(&mut self, user_id: &String, legacy: &LegacyEntry, now: &String) -> (known:
        bool)
        ensures
            known == Interval::of_name(legacy.interval@).is_some(),
            took_in(*old(self), *final(self), *user_id, *legacy, *now),
            final(self).entries@.last().duration >= 1,
            final(self).entries@.len() == old(self).entries@.len() + 1,
            final(self).entries@.drop_last() == old(self).entries@,
            final(self).entries@.last() == legacy.entry(
                final(self).entries@.last().id,
                *user_id,
                *now,
            ),
            final(self).entries@.last().id@.len() == 36,
            exists|names: Seq<String>, new_ids: Seq<String>|
                texts_of(names) == tag_names_among(texts_of(legacy.tags@)) && new_ids.len()
                    == names.len() && fresh_ids(new_ids) && (#[trigger] after_tagging(
                    old(self).tags@,
                    old(self).entry_tags@,
                    final(self).entries@.last().id,
                    names,
                    new_ids,
                    *now,
                )) == (final(self).tags@, final(self).entry_tags@),
            visits_added(
                final(self).visits@,
                old(self).visits@,
                legacy_visits(legacy.visited),
                final(self).entries@.last().id,
                *user_id,
                *now,
            ),
            final(self).users == old(self).users,
            final(self).collections == old(self).collections,
            final(self).members == old(self).members,
            old(self).rows_unique() ==> final(self).rows_unique(),
            old(self).ids_unique() && distinct_by(final(self).entries@, same_entry_id())
                && distinct_by(final(self).visits@, same_visit_id()) && distinct_by(
                final(self).tags@,
                same_tag_id(),
            ) ==> final(self).ids_unique(),
    {
        let id = fresh_id();
        let (entry, known) = legacy.to_entry(id.clone(), user_id.clone(), now);
        self.entries.push(entry);
        assert(self.entries@.drop_last() =~= old(self).entries@);

        let names = legacy.tag_names();
        self.link_tags(&id, &names, now);
        let ghost new_ids = choose|new_ids: Seq<String>|
            new_ids.len() == names@.len() && fresh_ids(new_ids) && (#[trigger] after_tagging(
                old(self).tags@,
                old(self).entry_tags@,
                id,
                names@,
                new_ids,
                *now,
            )) == (self.tags@, self.entry_tags@);

        let total: u64 = match legacy.visited {
            Some(n) => if n > 0 {
                n as u64
            } else {
                0
            },
            None => 0,
        };
        let mut done: u64 = 0;
        assert(self.visits@.take(old(self).visits@.len() as int) =~= old(self).visits@);
        while done < total
            invariant
                done <= total,
                total == legacy_visits(legacy.visited),
                visits_added(self.visits@, old(self).visits@, done as nat, id, *user_id, *now),
                self.users == old(self).users,
                self.entries@.len() == old(self).entries@.len() + 1,
                self.entries@.drop_last() == old(self).entries@,
                self.entries@.last() == legacy.entry(id, *user_id, *now),
                fresh_ids(new_ids),
                after_tagging(old(self).tags@, old(self).entry_tags@, id, names@, new_ids, *now)
                    == (self.tags@, self.entry_tags@),
                self.collections == old(self).collections,
                self.members == old(self).members,
                old(self).rows_unique() ==> self.rows_unique(),
            decreases total - done,
        {
            let ghost before = self.visits@;
            self.visits.push(
                Visit::with_identity(fresh_id(), id.clone(), user_id.clone(), now.clone()),
            );
            assert(self.visits@.take(old(self).visits@.len() as int) =~= before.take(
                old(self).visits@.len() as int,
            ));
            done += 1;
        }
        known
    }

    /// Takes in legacy entries for `user_id` at `now`, one after the other,
    /// and tells how many were taken in. Where no user has the identifier
    /// `user_id`, nothing is taken in.
    ///
    /// Each entry is added under a fresh identifier, for `user_id`, in no
    /// collection and with a duration of at least 1. Its tags are looked up
    /// or created and linked, and as many visits as its count says are
    /// recorded.
    pub fn import_data(&mut self, user_id: &String, entries: &Vec<LegacyEntry>, now: &String) -> (imported:
        Result<usize, ImportError>)
        ensures
            match imported {
                Err(_) => user_with_id(old(self).users@, user_id@) is None && *final(self) == *old(
                    self,
                ),
                Ok(count) => {
                    &&& user_with_id(old(self).users@, user_id@) is Some
                    &&& count == entries@.len()
                    &&& took_in_all(*old(self), *final(self), *user_id, entries@, *now)
                    &&& final(self).entries@.len() == old(self).entries@.len() + entries@.len()
                    &&& final(self).entries@.take(old(self).entries@.len() as int) == old(
                        self,
                    ).entries@
                    &&& forall|k: int|
                        0 <= k < entries@.len() ==> {
                            let taken = #[trigger] final(self).entries@[old(self).entries@.len()
                                + k];
                            &&& taken == entries@[k].entry(taken.id, *user_id, *now)
                            &&& taken.id@.len() == 36
                            &&& taken.user_id == *user_id
                            &&& taken.collection_id is None
                            &&& taken.duration >= 1
                        }
                    &&& final(self).visits@.len() == old(self).visits@.len() + legacy_visits_total(
                        entries@,
                    )
                    &&& final(self).visits@.take(old(self).visits@.len() as int) == old(
                        self,
                    ).visits@
                    &&& visits_by(
                        final(self).visits@,
                        old(self).visits@.len() as int,
                        *user_id,
                        *now,
                    )
                    &&& final(self).tags@.len() >= old(self).tags@.len()
                    &&& final(self).tags@.take(old(self).tags@.len() as int) == old(self).tags@
                    &&& final(self).entry_tags@.len() >= old(self).entry_tags@.len()
                    &&& final(self).entry_tags@.take(old(self).entry_tags@.len() as int) == old(
                        self,
                    ).entry_tags@
                },
            },
            final(self).users == old(self).users,
            final(self).collections == old(self).collections,
            final(self).members == old(self).members,
            old(self).rows_unique() ==> final(self).rows_unique(),
            old(self).ids_unique() && distinct_by(final(self).entries@, same_entry_id())
                && distinct_by(final(self).visits@, same_visit_id()) && distinct_by(
                final(self).tags@,
                same_tag_id(),
            ) ==> final(self).ids_unique(),
    {
        if self.authenticate(&Some(user_id.clone())).is_err() {
            return Err(ImportError::UnknownUser);
        }
        let mut i: usize = 0;
        assert(entries@.take(0) =~= Seq::<LegacyEntry>::empty());
        while i < entries.len()
            invariant
                i <= entries.len(),
                took_in_all(*old(self), *self, *user_id, entries@.take(i as int), *now),
                old(self).rows_unique() ==> self.rows_unique(),
            decreases entries.len() - i,
        {
            let ghost mid = *self;
            self.import_entry(user_id, &entries[i], now);
            proof {
                assert(entries@.take(i + 1).drop_last() =~= entries@.take(i as int));
                assert(entries@.take(i + 1).last() == entries@[i as int]);
                assert(took_in(mid, *self, *user_id, entries@.take(i + 1).last(), *now));
            }
            i += 1;
        }
        proof {
            assert(entries@.take(entries@.len() as int) =~= entries@);
            lemma_took_in_all(*old(self), *self, *user_id, entries@, *now);
        }
        Ok(entries.len())
    }
}

} // verus!
