//! Who may see or change an entry or a collection.
//!
//! An entry belongs to the user who created it, and only that user may
//! change it. Placing it in a collection lets the collection's owner and
//! members see it, and nothing more. A collection belongs to its owner, who
//! alone may change it; its members may see it.

use crate::models::{Collection, CollectionMember, Entry};
use vstd::prelude::*;

verus! {

/// Whether two texts hold the same characters.
pub fn same_text(a: &String, b: &String) -> (same: bool)
    ensures
        same == (a@ == b@),
{
    *a == *b
}

/// Whether the row records `user_id` as a member of `collection_id`.
pub open spec fn links_member(
    row: CollectionMember,
    collection_id: Seq<char>,
    user_id: Seq<char>,
) -> bool {
    row.collection_id@ == collection_id && row.user_id@ == user_id
}

/// Whether some row records `user_id` as a member of `collection_id`.
pub open spec fn is_member(
    members: Seq<CollectionMember>,
    collection_id: Seq<char>,
    user_id: Seq<char>,
) -> bool {
    exists|i: int|
        0 <= i < members.len() && links_member(#[trigger] members[i], collection_id, user_id)
}

/// Whether `user_id` owns the collection `collection_id`.
pub open spec fn is_owner(
    collections: Seq<Collection>,
    collection_id: Seq<char>,
    user_id: Seq<char>,
) -> bool {
    exists|i: int|
        0 <= i < collections.len() && (#[trigger] collections[i]).id@ == collection_id
            && collections[i].owner_id@ == user_id
}

/// Whether `actor` may see `entry`: its creator may, and where it stands in
/// a collection, so may the members and the owner of that collection.
pub open spec fn may_view_entry(
    actor: Seq<char>,
    entry: Entry,
    collections: Seq<Collection>,
    members: Seq<CollectionMember>,
) -> bool {
    ||| entry.user_id@ == actor
    ||| (entry.collection_id matches Some(c) && (is_member(members, c@, actor) || is_owner(
        collections,
        c@,
        actor,
    )))
}

/// Whether `actor` may edit, delete or visit `entry`: only its creator may.
pub open spec fn may_mutate_entry(actor: Seq<char>, entry: Entry) -> bool {
    entry.user_id@ == actor
}

/// Whether `actor` may see `collection`: its owner and its members may.
pub open spec fn may_view_collection(
    actor: Seq<char>,
    collection: Collection,
    members: Seq<CollectionMember>,
) -> bool {
    collection.owner_id@ == actor || is_member(members, collection.id@, actor)
}

/// Whether `actor` may rename or delete `collection`, renew its invite code
/// or remove a member: only its owner may.
pub open spec fn may_mutate_collection(actor: Seq<char>, collection: Collection) -> bool {
    collection.owner_id@ == actor
}

/// Whether some row records `user_id` as a member of `collection_id`.
pub fn check_member(members: &Vec<CollectionMember>, collection_id: &String, user_id: &String) -> (found:
    bool)
    ensures
        found == is_member(members@, collection_id@, user_id@),
{
    let mut i: usize = 0;
    while i < members.len()
        invariant
            i <= members.len(),
            forall|j: int|
                0 <= j < i ==> !links_member(#[trigger] members@[j], collection_id@, user_id@),
        decreases members.len() - i,
    {
        if same_text(&members[i].collection_id, collection_id) && same_text(
            &members[i].user_id,
            user_id,
        ) {
            return true;
        }
        i += 1;
    }
    false
}

/// Whether `user_id` owns the collection `collection_id`.
pub fn check_owner(collections: &Vec<Collection>, collection_id: &String, user_id: &String) -> (found:
    bool)
    ensures
        found == is_owner(collections@, collection_id@, user_id@),
{
    let mut i: usize = 0;
    while i < collections.len()
        invariant
            i <= collections.len(),
            forall|j: int|
                0 <= j < i ==> !((#[trigger] collections@[j]).id@ == collection_id@
                    && collections@[j].owner_id@ == user_id@),
        decreases collections.len() - i,
    {
        if same_text(&collections[i].id, collection_id) && same_text(
            &collections[i].owner_id,
            user_id,
        ) {
            return true;
        }
        i += 1;
    }
    false
}

/// Whether `actor` may see `entry`.
pub fn can_view_entry(
    actor: &String,
    entry: &Entry,
    collections: &Vec<Collection>,
    members: &Vec<CollectionMember>,
) -> (allowed: bool)
    ensures
        allowed == may_view_entry(actor@, *entry, collections@, members@),
{
    if same_text(&entry.user_id, actor) {
        return true;
    }
    match &entry.collection_id {
        Some(c) => check_member(members, c, actor) || check_owner(collections, c, actor),
        None => false,
    }
}

/// Whether `actor` may edit, delete or visit `entry`.
pub fn can_mutate_entry(actor: &String, entry: &Entry) -> (allowed: bool)
    ensures
        allowed == may_mutate_entry(actor@, *entry),
{
    same_text(&entry.user_id, actor)
}

/// Whether `actor` may see `collection`.
pub fn can_view_collection(
    actor: &String,
    collection: &Collection,
    members: &Vec<CollectionMember>,
) -> (allowed: bool)
    ensures
        allowed == may_view_collection(actor@, *collection, members@),
{
    same_text(&collection.owner_id, actor) || check_member(members, &collection.id, actor)
}

/// Whether `actor` may change `collection`.
pub fn can_mutate_collection(actor: &String, collection: &Collection) -> (allowed: bool)
    ensures
        allowed == may_mutate_collection(actor@, *collection),
{
    same_text(&collection.owner_id, actor)
}

/// A user who neither created an entry nor belongs to or owns the
/// collection it stands in can neither see nor change it. An entry outside
/// every collection is seen by its creator alone.
pub proof fn lemma_stranger_is_shut_out_of_entry(
    actor: Seq<char>,
    entry: Entry,
    collections: Seq<Collection>,
    members: Seq<CollectionMember>,
)
    requires
        entry.user_id@ != actor,
        entry.collection_id matches Some(c) ==> !is_member(members, c@, actor) && !is_owner(
            collections,
            c@,
            actor,
        ),
    ensures
        !may_view_entry(actor, entry, collections, members),
        !may_mutate_entry(actor, entry),
{
}

/// A user who neither owns a collection nor belongs to it can neither see
/// nor change it.
pub proof fn lemma_stranger_is_shut_out_of_collection(
    actor: Seq<char>,
    collection: Collection,
    members: Seq<CollectionMember>,
)
    requires
        collection.owner_id@ != actor,
        !is_member(members, collection.id@, actor),
    ensures
        !may_view_collection(actor, collection, members),
        !may_mutate_collection(actor, collection),
{
}

/// A member of a collection sees an entry that another user placed in it,
/// and cannot change it; nor can the member change the collection, unless
/// the member owns it.
pub proof fn lemma_member_sees_but_cannot_change(
    actor: Seq<char>,
    entry: Entry,
    collection: Collection,
    collections: Seq<Collection>,
    members: Seq<CollectionMember>,
)
    requires
        entry.collection_id matches Some(c) && c@ == collection.id@,
        is_member(members, collection.id@, actor),
        entry.user_id@ != actor,
    ensures
        may_view_entry(actor, entry, collections, members),
        !may_mutate_entry(actor, entry),
        may_view_collection(actor, collection, members),
        may_mutate_collection(actor, collection) <==> collection.owner_id@ == actor,
{
}

/// The creator of an entry may always see and change it, and the owner of a
/// collection may always see and change the collection, whatever the
/// memberships are.
pub proof fn lemma_owner_is_never_shut_out(
    actor: Seq<char>,
    entry: Entry,
    collection: Collection,
    collections: Seq<Collection>,
    members: Seq<CollectionMember>,
)
    ensures
        entry.user_id@ == actor ==> may_view_entry(actor, entry, collections, members)
            && may_mutate_entry(actor, entry),
        collection.owner_id@ == actor ==> may_view_collection(actor, collection, members)
            && may_mutate_collection(actor, collection),
{
}

} // verus!
