//! Collections: creating, renaming and deleting them, renewing their
//! invite codes, and the lists of collections that a user sees.
//!
//! Only the owner of a collection may change it. An attempt by anyone else
//! leaves the store as it was.

use crate::access::{
    can_view_collection, check_member, check_owner, is_member, is_owner, may_mutate_collection,
    may_view_collection, same_text,
};
use crate::entries::SaveOutcome;
use crate::forms::{name_error, validate_collection_form, CollectionForm};
use crate::listing::count_shown;
use crate::models::{Collection, CollectionMember, User};
use crate::store::{
    collection_id_unused, lemma_filter_keeps_distinct, lemma_filter_next,
    lemma_map_keeps_distinct, lemma_push_keeps_distinct, same_collection_id, same_membership,
    Store,
};
use vstd::prelude::*;

verus! {

/// A stored collection together with the number of people in it, the owner
/// included, as one row.
#[derive(Debug)]
pub struct CollectionWithCount {
    pub id: String,
    pub owner_id: String,
    pub name: String,
    pub invite_code: String,
    pub created_at: String,
    pub updated_at: String,
    pub member_count: i64,
}

impl CollectionWithCount {
    /// The collection that the row holds.
    pub open spec fn collection(self) -> Collection {
        Collection {
            id: self.id,
            owner_id: self.owner_id,
            name: self.name,
            invite_code: self.invite_code,
            created_at: self.created_at,
            updated_at: self.updated_at,
        }
    }

    /// Parts the row into the collection and its member count.
    pub fn into_collection_and_count(self) -> (r: (Collection, i64))
        ensures
            r.0 == self.collection(),
            r.1 == self.member_count,
    {
        let collection = Collection {
            id: self.id,
            owner_id: self.owner_id,
            name: self.name,
            invite_code: self.invite_code,
            created_at: self.created_at,
            updated_at: self.updated_at,
        };
        (collection, self.member_count)
    }
}


/// Whether the row is the collection `collection_id` and belongs to
/// `actor`.
pub open spec fn is_own_collection(
    collection: Collection,
    actor: Seq<char>,
    collection_id: Seq<char>,
) -> bool {
    collection.id@ == collection_id && may_mutate_collection(actor, collection)
}

/// The change that gives the collections `collection_id` of `actor` the
/// name `name` at `now` and leaves every other row alone.
pub open spec fn renaming(actor: Seq<char>, collection_id: Seq<char>, name: String, now: String) -> spec_fn(
    Collection,
) -> Collection {
    |collection: Collection|
        if is_own_collection(collection, actor, collection_id) {
            Collection { name, updated_at: now, ..collection }
        } else {
            collection
        }
}

/// The change that gives the collections `collection_id` of `actor` the
/// invite code `code` at `now` and leaves every other row alone.
pub open spec fn recoding(actor: Seq<char>, collection_id: Seq<char>, code: String, now: String) -> spec_fn(
    Collection,
) -> Collection {
    |collection: Collection|
        if is_own_collection(collection, actor, collection_id) {
            Collection { invite_code: code, updated_at: now, ..collection }
        } else {
            collection
        }
}

/// The test that keeps every row but the collections `collection_id` of
/// `actor`.
pub open spec fn not_own_collection(actor: Seq<char>, collection_id: Seq<char>) -> spec_fn(
    Collection,
) -> bool {
    |collection: Collection| !is_own_collection(collection, actor, collection_id)
}

/// The test that keeps the memberships of every collection but
/// `collection_id`.
pub open spec fn not_of_collection(collection_id: Seq<char>) -> spec_fn(CollectionMember) -> bool {
    |row: CollectionMember| row.collection_id@ != collection_id
}

/// The test that keeps the collections that `actor` may see.
pub open spec fn collection_visible_to(actor: Seq<char>, members: Seq<CollectionMember>) -> spec_fn(
    Collection,
) -> bool {
    |collection: Collection| may_view_collection(actor, collection, members)
}

/// The number of different users whom `members` records as members of
/// `collection_id`.
pub open spec fn count_distinct_members(members: Seq<CollectionMember>, collection_id: Seq<char>) -> nat
    decreases members.len(),
{
    if members.len() == 0 {
        0
    } else {
        let rest = members.drop_last();
        let last = members.last();
        count_distinct_members(rest, collection_id) + (if last.collection_id@ == collection_id
            && !is_member(rest, collection_id, last.user_id@) {
            1nat
        } else {
            0nat
        })
    }
}

/// A collection with the number of people in it: its members and its
/// owner.
pub open spec fn counted_collection(members: Seq<CollectionMember>) -> spec_fn(Collection) -> (
    Collection,
    i64,
) {
    |collection: Collection|
        (collection, count_shown(count_distinct_members(members, collection.id@) + 1))
}

/// The first collection `collection_id` that `actor` may see.
pub open spec fn first_visible_collection(
    collections: Seq<Collection>,
    members: Seq<CollectionMember>,
    actor: Seq<char>,
    collection_id: Seq<char>,
) -> Option<Collection>
    decreases collections.len(),
{
    if collections.len() == 0 {
        None
    } else if collections[0].id@ == collection_id && may_view_collection(
        actor,
        collections[0],
        members,
    ) {
        Some(collections[0])
    } else {
        first_visible_collection(collections.drop_first(), members, actor, collection_id)
    }
}

/// The test that keeps the users whom `members` records as members of
/// `collection_id`.
pub open spec fn member_of(members: Seq<CollectionMember>, collection_id: Seq<char>) -> spec_fn(
    User,
) -> bool {
    |user: User| is_member(members, collection_id, user.id@)
}

/// What a list shows of one collection.
#[derive(Debug)]
pub struct CollectionView {
    pub id: String,
    pub name: String,
    /// Whether the user who looks at the list owns the collection.
    pub is_owner: bool,
    /// The number of people in the collection, the owner included.
    pub member_count: i64,
}

/// What one collection looks like to a user who may see it.
#[derive(Debug)]
pub struct CollectionDetail {
    pub collection: Collection,
    /// The users who are members of the collection.
    pub members: Vec<User>,
    /// Whether the user who looks at the collection owns it.
    pub is_owner: bool,
}

/// The number of different users whom `members` records as members of
/// `collection_id`, and one more for the owner.
pub fn member_count(members: &Vec<CollectionMember>, collection_id: &String) -> (n: i64)
    ensures
        n == count_shown(count_distinct_members(members@, collection_id@) + 1),
{
    let mut n: i64 = 1;
    let mut seen: Vec<CollectionMember> = Vec::new();
    let mut i: usize = 0;
    assert(members@.take(0) =~= seen@);
    while i < members.len()
        invariant
            i <= members.len(),
            seen@ == members@.take(i as int),
            n == count_shown(count_distinct_members(members@.take(i as int), collection_id@) + 1),
        decreases members.len() - i,
    {
        assert(members@.take(i + 1).drop_last() =~= members@.take(i as int));
        if same_text(&members[i].collection_id, collection_id) && !check_member(
            &seen,
            collection_id,
            &members[i].user_id,
        ) && n < i64::MAX {
            n += 1;
        }
        seen.push(members[i].clone());
        assert(seen@ =~= members@.take(i + 1));
        i += 1;
    }
    assert(members@.take(members@.len() as int) =~= members@);
    n
}

impl Store {
    /// Saves a new collection of `owner` under the identifier `id`, with
    /// the invite code `invite_code`, created at `now`. A form at fault
    /// saves nothing and gets its messages back.
    pub fn create_collection(
        &mut self,
        owner: String,
        form: &CollectionForm,
        id: String,
        invite_code: String,
        now: String,
    ) -> (outcome: SaveOutcome)
        ensures
            outcome is Saved <==> name_error(form.name@) is None,
            !(outcome is NotFound),
            outcome matches SaveOutcome::Invalid(errors) ==> !errors@.dom().is_empty(),
            final(self).collections@ == (if outcome is Saved {
                old(self).collections@.push(
                    Collection {
                        id,
                        owner_id: owner,
                        name: form.name,
                        invite_code,
                        created_at: now,
                        updated_at: now,
                    },
                )
            } else {
                old(self).collections@
            }),
            final(self).users == old(self).users,
            final(self).entries == old(self).entries,
            final(self).visits == old(self).visits,
            final(self).members == old(self).members,
            final(self).tags == old(self).tags,
            final(self).entry_tags == old(self).entry_tags,
            old(self).ids_unique() && collection_id_unused(old(self).collections@, id@)
                ==> final(self).ids_unique(),
            old(self).rows_unique() ==> final(self).rows_unique(),
    {
        proof {
            if old(self).ids_unique() && collection_id_unused(old(self).collections@, id@) {
                lemma_push_keeps_distinct(
                    old(self).collections@,
                    Collection {
                        id,
                        owner_id: owner,
                        name: form.name,
                        invite_code,
                        created_at: now,
                        updated_at: now,
                    },
                    same_collection_id(),
                );
            }
        }
        let errors = validate_collection_form(form);
        if !errors.is_empty() {
            return SaveOutcome::Invalid(errors);
        }
        self.collections.push(
            Collection::with_identity(id, owner, form.name.clone(), invite_code, now),
        );
        SaveOutcome::Saved
    }

    /// Gives the collection `collection_id` of `actor` the name that `form`
    /// holds, at `now`.
    ///
    /// A form at fault changes nothing and gets its messages back. A valid
    /// form changes the collection where `actor` owns it, and nothing
    /// where `actor` does not.
    pub fn update_collection(
        &mut self,
        actor: &str,
        collection_id: &str,
        form: &CollectionForm,
        now: String,
    ) -> (outcome: SaveOutcome)
        ensures
            outcome is Invalid <==> name_error(form.name@) is Some,
            outcome matches SaveOutcome::Invalid(errors) ==> !errors@.dom().is_empty(),
            outcome is Saved <==> name_error(form.name@) is None && is_owner(
                old(self).collections@,
                collection_id@,
                actor@,
            ),
            final(self).collections@ == (if outcome is Saved {
                old(self).collections@.map_values(
                    renaming(actor@, collection_id@, form.name, now),
                )
            } else {
                old(self).collections@
            }),
            final(self).users == old(self).users,
            final(self).entries == old(self).entries,
            final(self).visits == old(self).visits,
            final(self).members == old(self).members,
            final(self).tags == old(self).tags,
            final(self).entry_tags == old(self).entry_tags,
            old(self).ids_unique() ==> final(self).ids_unique(),
            old(self).rows_unique() ==> final(self).rows_unique(),
    {
        proof {
            if old(self).ids_unique() {
                lemma_map_keeps_distinct(
                    old(self).collections@,
                    renaming(actor@, collection_id@, form.name, now),
                    same_collection_id(),
                );
            }
        }
        let errors = validate_collection_form(form);
        if !errors.is_empty() {
            return SaveOutcome::Invalid(errors);
        }
        let a = String::from_str(actor);
        let id = String::from_str(collection_id);
        if !check_owner(&self.collections, &id, &a) {
            return SaveOutcome::NotFound;
        }
        let ghost change = renaming(actor@, collection_id@, form.name, now);
        let ghost before = self.collections@;
        let mut i: usize = 0;
        while i < self.collections.len()
            invariant
                i <= self.collections.len(),
                a@ == actor@,
                id@ == collection_id@,
                change == renaming(actor@, collection_id@, form.name, now),
                self.collections@.len() == before.len(),
                forall|j: int| 0 <= j < i ==> self.collections@[j] == change(before[j]),
                forall|j: int| i <= j < before.len() ==> self.collections@[j] == before[j],
                self.users == old(self).users,
                self.entries == old(self).entries,
                self.visits == old(self).visits,
                self.members == old(self).members,
                self.tags == old(self).tags,
                self.entry_tags == old(self).entry_tags,
            decreases self.collections.len() - i,
        {
            if same_text(&self.collections[i].id, &id) && same_text(
                &self.collections[i].owner_id,
                &a,
            ) {
                let c = &self.collections[i];
                let renamed = Collection {
                    id: c.id.clone(),
                    owner_id: c.owner_id.clone(),
                    name: form.name.clone(),
                    invite_code: c.invite_code.clone(),
                    created_at: c.created_at.clone(),
                    updated_at: now.clone(),
                };
                self.collections.set(i, renamed);
            }
            i += 1;
        }
        assert(self.collections@ =~= before.map_values(change));
        SaveOutcome::Saved
    }

    /// Gives the collection `collection_id` of `actor` the invite code
    /// `code` at `now`, so that the old code lets nobody in any more.
    /// Nothing happens unless `actor` owns the collection.
    pub fn regenerate_invite(&mut self, actor: &str, collection_id: &str, code: String, now: String)
        ensures
            final(self).collections@ == old(self).collections@.map_values(
                recoding(actor@, collection_id@, code, now),
            ),
            !is_owner(old(self).collections@, collection_id@, actor@) ==> final(self).collections@
                == old(self).collections@,
            final(self).users == old(self).users,
            final(self).entries == old(self).entries,
            final(self).visits == old(self).visits,
            final(self).members == old(self).members,
            final(self).tags == old(self).tags,
            final(self).entry_tags == old(self).entry_tags,
            old(self).ids_unique() ==> final(self).ids_unique(),
            old(self).rows_unique() ==> final(self).rows_unique(),
    {
        proof {
            if old(self).ids_unique() {
                lemma_map_keeps_distinct(
                    old(self).collections@,
                    recoding(actor@, collection_id@, code, now),
                    same_collection_id(),
                );
            }
        }
        let a = String::from_str(actor);
        let id = String::from_str(collection_id);
        let ghost change = recoding(actor@, collection_id@, code, now);
        let ghost before = self.collections@;
        let mut i: usize = 0;
        while i < self.collections.len()
            invariant
                i <= self.collections.len(),
                a@ == actor@,
                id@ == collection_id@,
                change == recoding(actor@, collection_id@, code, now),
                self.collections@.len() == before.len(),
                forall|j: int| 0 <= j < i ==> self.collections@[j] == change(before[j]),
                forall|j: int| i <= j < before.len() ==> self.collections@[j] == before[j],
                self.users == old(self).users,
                self.entries == old(self).entries,
                self.visits == old(self).visits,
                self.members == old(self).members,
                self.tags == old(self).tags,
                self.entry_tags == old(self).entry_tags,
            decreases self.collections.len() - i,
        {
            if same_text(&self.collections[i].id, &id) && same_text(
                &self.collections[i].owner_id,
                &a,
            ) {
                let c = &self.collections[i];
                let recoded = Collection {
                    id: c.id.clone(),
                    owner_id: c.owner_id.clone(),
                    name: c.name.clone(),
                    invite_code: code.clone(),
                    created_at: c.created_at.clone(),
                    updated_at: now.clone(),
                };
                self.collections.set(i, recoded);
            }
            i += 1;
        }
        assert(self.collections@ =~= before.map_values(change));
        proof {
            if !is_owner(before, collection_id@, actor@) {
                assert forall|j: int| 0 <= j < before.len() implies change(before[j])
                    == before[j] by {
                    assert(!is_own_collection(before[j], actor@, collection_id@));
                }
                assert(self.collections@ =~= before);
            }
        }
    }

    /// Deletes the collection `collection_id` of `actor`, and with it the
    /// memberships in it. Nothing happens unless `actor` owns the
    /// collection. Entries that stood in the collection stay with their
    /// creators.
    pub fn delete_collection(&mut self, actor: &str, collection_id: &str)
        ensures
            final(self).collections@ == old(self).collections@.filter(
                not_own_collection(actor@, collection_id@),
            ),
            final(self).members@ == (if is_owner(old(self).collections@, collection_id@, actor@) {
                old(self).members@.filter(not_of_collection(collection_id@))
            } else {
                old(self).members@
            }),
            !is_owner(old(self).collections@, collection_id@, actor@) ==> final(self).collections@
                == old(self).collections@,
            final(self).users == old(self).users,
            final(self).entries == old(self).entries,
            final(self).visits == old(self).visits,
            final(self).tags == old(self).tags,
            final(self).entry_tags == old(self).entry_tags,
            old(self).ids_unique() ==> final(self).ids_unique(),
            old(self).rows_unique() ==> final(self).rows_unique(),
    {
        proof {
            if old(self).ids_unique() {
                lemma_filter_keeps_distinct(
                    old(self).collections@,
                    not_own_collection(actor@, collection_id@),
                    same_collection_id(),
                );
            }
            if old(self).rows_unique() {
                lemma_filter_keeps_distinct(
                    old(self).members@,
                    not_of_collection(collection_id@),
                    same_membership(),
                );
            }
        }
        let a = String::from_str(actor);
        let id = String::from_str(collection_id);
        let owned = check_owner(&self.collections, &id, &a);
        let ghost keep = not_own_collection(actor@, collection_id@);
        let mut left: Vec<Collection> = Vec::new();
        let mut i: usize = 0;
        assert(self.collections@.take(0).filter(keep) =~= Seq::<Collection>::empty()) by {
            reveal(Seq::filter);
        }
        while i < self.collections.len()
            invariant
                i <= self.collections.len(),
                a@ == actor@,
                id@ == collection_id@,
                keep == not_own_collection(actor@, collection_id@),
                left@ == self.collections@.take(i as int).filter(keep),
                (forall|j: int|
                    0 <= j < i ==> !is_own_collection(
                        #[trigger] self.collections@[j],
                        actor@,
                        collection_id@,
                    )) ==> left@ == self.collections@.take(i as int),
            decreases self.collections.len() - i,
        {
            proof {
                lemma_filter_next(self.collections@, keep, i as int);
                assert(self.collections@.take(i + 1) =~= self.collections@.take(i as int).push(
                    self.collections@[i as int],
                ));
            }
            if !(same_text(&self.collections[i].id, &id) && same_text(
                &self.collections[i].owner_id,
                &a,
            )) {
                left.push(self.collections[i].clone());
            }
            i += 1;
        }
        assert(self.collections@.take(self.collections@.len() as int) =~= self.collections@);
        self.collections = left;
        if owned {
            let ghost keep_row = not_of_collection(collection_id@);
            let mut rows: Vec<CollectionMember> = Vec::new();
            let mut k: usize = 0;
            assert(self.members@.take(0).filter(keep_row) =~= Seq::<CollectionMember>::empty()) by {
                reveal(Seq::filter);
            }
            while k < self.members.len()
                invariant
                    k <= self.members.len(),
                    id@ == collection_id@,
                    keep_row == not_of_collection(collection_id@),
                    rows@ == self.members@.take(k as int).filter(keep_row),
                decreases self.members.len() - k,
            {
                proof {
                    lemma_filter_next(self.members@, keep_row, k as int);
                }
                if !same_text(&self.members[k].collection_id, &id) {
                    rows.push(self.members[k].clone());
                }
                k += 1;
            }
            assert(self.members@.take(self.members@.len() as int) =~= self.members@);
            self.members = rows;
        }
    }

    /// The collections into which `user_id` may place an entry: those that
    /// the user owns or belongs to, in the order of the store.
    pub fn collections_for(&self, user_id: &str) -> (found: Vec<Collection>)
        ensures
            found@ == self.collections@.filter(collection_visible_to(user_id@, self.members@)),
    {
        let actor = String::from_str(user_id);
        let ghost keep = collection_visible_to(user_id@, self.members@);
        let mut found: Vec<Collection> = Vec::new();
        let mut i: usize = 0;
        assert(self.collections@.take(0).filter(keep) =~= Seq::<Collection>::empty()) by {
            reveal(Seq::filter);
        }
        while i < self.collections.len()
            invariant
                i <= self.collections.len(),
                actor@ == user_id@,
                keep == collection_visible_to(user_id@, self.members@),
                found@ == self.collections@.take(i as int).filter(keep),
            decreases self.collections.len() - i,
        {
            proof {
                lemma_filter_next(self.collections@, keep, i as int);
            }
            if can_view_collection(&actor, &self.collections[i], &self.members) {
                found.push(self.collections[i].clone());
            }
            i += 1;
        }
        assert(self.collections@.take(self.collections@.len() as int) =~= self.collections@);
        found
    }

    /// The collections that `user_id` may see, each with the number of
    /// people in it, in the order of the store.
    pub fn collections_visible_to(&self, user_id: &str) -> (rows: Vec<(Collection, i64)>)
        ensures
            rows@ == self.collections@.filter(
                collection_visible_to(user_id@, self.members@),
            ).map_values(counted_collection(self.members@)),
    {
        let actor = String::from_str(user_id);
        let ghost keep = collection_visible_to(user_id@, self.members@);
        let ghost pair = counted_collection(self.members@);
        let mut rows: Vec<(Collection, i64)> = Vec::new();
        let mut i: usize = 0;
        assert(self.collections@.take(0).filter(keep) =~= Seq::<Collection>::empty()) by {
            reveal(Seq::filter);
        }
        while i < self.collections.len()
            invariant
                i <= self.collections.len(),
                actor@ == user_id@,
                keep == collection_visible_to(user_id@, self.members@),
                pair == counted_collection(self.members@),
                rows@ == self.collections@.take(i as int).filter(keep).map_values(pair),
            decreases self.collections.len() - i,
        {
            proof {
                lemma_filter_next(self.collections@, keep, i as int);
            }
            let collection = &self.collections[i];
            if can_view_collection(&actor, collection, &self.members) {
                let count = member_count(&self.members, &collection.id);
                rows.push((collection.clone(), count));
                assert(rows@ =~= self.collections@.take(i + 1).filter(keep).map_values(pair));
            }
            i += 1;
        }
        assert(self.collections@.take(self.collections@.len() as int) =~= self.collections@);
        rows
    }

    /// The collection `collection_id` as `actor` may see it, with the
    /// users who are its members. To a user who neither owns the
    /// collection nor belongs to it there is no such collection.
    pub fn show_collection(&self, actor: &str, collection_id: &str) -> (shown: Option<
        CollectionDetail,
    >)
        ensures
            match shown {
                None => first_visible_collection(
                    self.collections@,
                    self.members@,
                    actor@,
                    collection_id@,
                ) is None,
                Some(detail) => {
                    &&& first_visible_collection(
                        self.collections@,
                        self.members@,
                        actor@,
                        collection_id@,
                    ) == Some(detail.collection)
                    &&& detail.members@ == self.users@.filter(
                        member_of(self.members@, collection_id@),
                    )
                    &&& detail.is_owner == may_mutate_collection(actor@, detail.collection)
                },
            },
    {
        let a = String::from_str(actor);
        let id = String::from_str(collection_id);
        let mut i: usize = 0;
        assert(self.collections@.skip(0) =~= self.collections@);
        while i < self.collections.len()
            invariant
                i <= self.collections.len(),
                a@ == actor@,
                id@ == collection_id@,
                first_visible_collection(self.collections@, self.members@, actor@, collection_id@)
                    == first_visible_collection(
                    self.collections@.skip(i as int),
                    self.members@,
                    actor@,
                    collection_id@,
                ),
            decreases self.collections.len() - i,
        {
            let collection = &self.collections[i];
            if same_text(&collection.id, &id) && can_view_collection(
                &a,
                collection,
                &self.members,
            ) {
                let ghost keep = member_of(self.members@, collection_id@);
                let mut members: Vec<User> = Vec::new();
                let mut k: usize = 0;
                assert(self.users@.take(0).filter(keep) =~= Seq::<User>::empty()) by {
                    reveal(Seq::filter);
                }
                while k < self.users.len()
                    invariant
                        k <= self.users.len(),
                        id@ == collection_id@,
                        keep == member_of(self.members@, collection_id@),
                        members@ == self.users@.take(k as int).filter(keep),
                    decreases self.users.len() - k,
                {
                    proof {
                        lemma_filter_next(self.users@, keep, k as int);
                    }
                    if check_member(&self.members, &id, &self.users[k].id) {
                        members.push(self.users[k].clone());
                    }
                    k += 1;
                }
                assert(self.users@.take(self.users@.len() as int) =~= self.users@);
                let is_owner = same_text(&collection.owner_id, &a);
                return Some(CollectionDetail { collection: collection.clone(), members, is_owner });
            }
            assert(self.collections@.skip(i as int).drop_first() =~= self.collections@.skip(
                i + 1,
            ));
            i += 1;
        }
        None
    }
}

/// What a list shows of `rows` to `user_id`: each collection with its
/// name, its number of people, and whether the user owns it.
pub fn collection_views(rows: Vec<(Collection, i64)>, user_id: &str) -> (views: Vec<CollectionView>)
    ensures
        views@.len() == rows@.len(),
        forall|i: int|
            0 <= i < rows@.len() ==> {
                &&& (#[trigger] views@[i]).id == rows@[i].0.id
                &&& views@[i].name == rows@[i].0.name
                &&& views@[i].is_owner == may_mutate_collection(user_id@, rows@[i].0)
                &&& views@[i].member_count == rows@[i].1
            },
{
    let actor = String::from_str(user_id);
    let mut views: Vec<CollectionView> = Vec::new();
    let mut i: usize = 0;
    while i < rows.len()
        invariant
            i <= rows.len(),
            actor@ == user_id@,
            views@.len() == i,
            forall|j: int|
                0 <= j < i ==> {
                    &&& (#[trigger] views@[j]).id == rows@[j].0.id
                    &&& views@[j].name == rows@[j].0.name
                    &&& views@[j].is_owner == may_mutate_collection(user_id@, rows@[j].0)
                    &&& views@[j].member_count == rows@[j].1
                },
        decreases rows.len() - i,
    {
        let collection = &rows[i].0;
        views.push(
            CollectionView {
                id: collection.id.clone(),
                name: collection.name.clone(),
                is_owner: same_text(&collection.owner_id, &actor),
                member_count: rows[i].1,
            },
        );
        i += 1;
    }
    views
}

} // verus!
