//! The bookmark store held in memory: its tables, and the operations on
//! them with the rules of access built in.
//!
//! A change that the acting user is not allowed to make leaves the store as
//! it was and reports nothing.

use crate::access::{
    check_member, check_owner, is_member, is_owner, links_member, same_text,
};
use crate::models::{Collection, CollectionMember, Entry, EntryTag, Tag, User, Visit};
use vstd::prelude::*;

verus! {

/// Filtering one element more: the element is appended where it is kept.
pub proof fn lemma_filter_next<A>(s: Seq<A>, keep: spec_fn(A) -> bool, i: int)
    requires
        0 <= i < s.len(),
    ensures
        s.take(i + 1).filter(keep) == if keep(s[i]) {
            s.take(i).filter(keep).push(s[i])
        } else {
            s.take(i).filter(keep)
        },
{
    reveal(Seq::filter);
    assert(s.take(i + 1).drop_last() =~= s.take(i));
}

/// The tables of the store. Rows stand in the order in which they were
/// added.
///
/// A store is well formed (see `Store::well_formed`) where every
/// identifier, every membership, every link and every tag name stands for
/// one row. Every operation keeps memberships, links and tag names unique.
/// It keeps identifiers unique where the identifiers handed to it are not
/// in use; of an identifier that it makes itself it is only known that it
/// has 36 characters, so the identifiers stay unique where such a one came
/// out unused.
#[derive(Debug)]
pub struct Store {
    pub users: Vec<User>,
    pub entries: Vec<Entry>,
    pub visits: Vec<Visit>,
    pub collections: Vec<Collection>,
    pub members: Vec<CollectionMember>,
    pub tags: Vec<Tag>,
    pub entry_tags: Vec<EntryTag>,
}

/// Whether no two rows are the same by the test `same`.
pub open spec fn distinct_by<A>(rows: Seq<A>, same: spec_fn(A, A) -> bool) -> bool {
    forall|i: int, j: int|
        0 <= i < j < rows.len() ==> !same(#[trigger] rows[i], #[trigger] rows[j])
}

/// Whether two users have the same identifier.
pub open spec fn same_user_id() -> spec_fn(User, User) -> bool {
    |a: User, b: User| a.id@ == b.id@
}

/// Whether two entries have the same identifier.
pub open spec fn same_entry_id() -> spec_fn(Entry, Entry) -> bool {
    |a: Entry, b: Entry| a.id@ == b.id@
}

/// Whether two visits have the same identifier.
pub open spec fn same_visit_id() -> spec_fn(Visit, Visit) -> bool {
    |a: Visit, b: Visit| a.id@ == b.id@
}

/// Whether two collections have the same identifier.
pub open spec fn same_collection_id() -> spec_fn(Collection, Collection) -> bool {
    |a: Collection, b: Collection| a.id@ == b.id@
}

/// Whether two tags have the same identifier.
pub open spec fn same_tag_id() -> spec_fn(Tag, Tag) -> bool {
    |a: Tag, b: Tag| a.id@ == b.id@
}

/// Whether two tags have the same name.
pub open spec fn same_tag_name() -> spec_fn(Tag, Tag) -> bool {
    |a: Tag, b: Tag| a.name@ == b.name@
}

/// Whether two rows record the same user as a member of the same
/// collection.
pub open spec fn same_membership() -> spec_fn(CollectionMember, CollectionMember) -> bool {
    |a: CollectionMember, b: CollectionMember|
        a.collection_id@ == b.collection_id@ && a.user_id@ == b.user_id@
}

/// Whether two rows link the same entry to the same tag.
pub open spec fn same_link() -> spec_fn(EntryTag, EntryTag) -> bool {
    |a: EntryTag, b: EntryTag| a.entry_id@ == b.entry_id@ && a.tag_id@ == b.tag_id@
}

/// Whether no user has the identifier `id`.
pub open spec fn user_id_unused(users: Seq<User>, id: Seq<char>) -> bool {
    forall|i: int| 0 <= i < users.len() ==> (#[trigger] users[i]).id@ != id
}

/// Whether no entry has the identifier `id`.
pub open spec fn entry_id_unused(entries: Seq<Entry>, id: Seq<char>) -> bool {
    forall|i: int| 0 <= i < entries.len() ==> (#[trigger] entries[i]).id@ != id
}

/// Whether no visit has the identifier `id`.
pub open spec fn visit_id_unused(visits: Seq<Visit>, id: Seq<char>) -> bool {
    forall|i: int| 0 <= i < visits.len() ==> (#[trigger] visits[i]).id@ != id
}

/// Whether no collection has the identifier `id`.
pub open spec fn collection_id_unused(collections: Seq<Collection>, id: Seq<char>) -> bool {
    forall|i: int| 0 <= i < collections.len() ==> (#[trigger] collections[i]).id@ != id
}

/// A row that is the same as none of the rows can be added to them.
pub proof fn lemma_push_keeps_distinct<A>(rows: Seq<A>, row: A, same: spec_fn(A, A) -> bool)
    requires
        distinct_by(rows, same),
        forall|i: int| 0 <= i < rows.len() ==> !same(#[trigger] rows[i], row),
    ensures
        distinct_by(rows.push(row), same),
{
    let out = rows.push(row);
    assert forall|i: int, j: int| 0 <= i < j < out.len() implies !same(
        #[trigger] out[i],
        #[trigger] out[j],
    ) by {
        if j < rows.len() {
            assert(!same(rows[i], rows[j]));
        } else {
            assert(!same(rows[i], row));
        }
    }
}

/// A change of the rows that leaves alone what the test `same` looks at
/// keeps them distinct.
pub proof fn lemma_map_keeps_distinct<A>(
    rows: Seq<A>,
    change: spec_fn(A) -> A,
    same: spec_fn(A, A) -> bool,
)
    requires
        distinct_by(rows, same),
        forall|i: int, j: int|
            0 <= i < j < rows.len() ==> same(change(rows[i]), change(rows[j])) == same(
                #[trigger] rows[i],
                #[trigger] rows[j],
            ),
    ensures
        distinct_by(rows.map_values(change), same),
{
    let out = rows.map_values(change);
    assert forall|i: int, j: int| 0 <= i < j < out.len() implies !same(
        #[trigger] out[i],
        #[trigger] out[j],
    ) by {
        assert(!same(rows[i], rows[j]));
    }
}

/// Putting distinct rows in another order keeps them distinct, where the
/// test `same` holds of a row and itself and does not mind the order of
/// its two rows.
pub proof fn lemma_permutation_keeps_distinct<A>(
    given: Seq<A>,
    arranged: Seq<A>,
    same: spec_fn(A, A) -> bool,
)
    requires
        given.to_multiset() == arranged.to_multiset(),
        distinct_by(given, same),
        forall|i: int| 0 <= i < given.len() ==> same(#[trigger] given[i], given[i]),
        forall|i: int, j: int|
            0 <= i < given.len() && 0 <= j < given.len() ==> same(
                #[trigger] given[i],
                #[trigger] given[j],
            ) == same(given[j], given[i]),
    ensures
        distinct_by(arranged, same),
{
    broadcast use vstd::seq_lib::group_to_multiset_ensures;

    assert(given.no_duplicates()) by {
        assert forall|i: int, j: int|
            0 <= i < given.len() && 0 <= j < given.len() && i != j implies given[i]
            != given[j] by {
            if given[i] == given[j] {
                assert(same(given[i], given[i]));
                if i < j {
                    assert(!same(given[i], given[j]));
                } else {
                    assert(!same(given[j], given[i]));
                }
            }
        }
    }
    given.lemma_multiset_has_no_duplicates();
    arranged.lemma_multiset_has_no_duplicates_conv();
    assert forall|i: int, j: int| 0 <= i < j < arranged.len() implies !same(
        #[trigger] arranged[i],
        #[trigger] arranged[j],
    ) by {
        assert(arranged.contains(arranged[i]) && arranged.contains(arranged[j]));
        assert(given.to_multiset().count(arranged[i]) > 0);
        assert(given.to_multiset().count(arranged[j]) > 0);
        assert(given.contains(arranged[i]) && given.contains(arranged[j]));
        let a = choose|a: int| 0 <= a < given.len() && given[a] == arranged[i];
        let b = choose|b: int| 0 <= b < given.len() && given[b] == arranged[j];
        assert(arranged[i] != arranged[j]);
        if a < b {
            assert(!same(given[a], given[b]));
        } else {
            assert(!same(given[b], given[a]));
            assert(same(given[a], given[b]) == same(given[b], given[a]));
        }
    }
}

/// Leaving rows out keeps the rest distinct.
pub proof fn lemma_filter_keeps_distinct<A>(
    rows: Seq<A>,
    keep: spec_fn(A) -> bool,
    same: spec_fn(A, A) -> bool,
)
    requires
        distinct_by(rows, same),
    ensures
        distinct_by(rows.filter(keep), same),
    decreases rows.len(),
{
    reveal(Seq::filter);
    if rows.len() > 0 {
        let rest = rows.drop_last();
        let last = rows.last();
        assert forall|i: int, j: int| 0 <= i < j < rest.len() implies !same(
            #[trigger] rest[i],
            #[trigger] rest[j],
        ) by {
            assert(!same(rows[i], rows[j]));
        }
        lemma_filter_keeps_distinct(rest, keep, same);
        let kept = rest.filter(keep);
        if keep(last) {
            let out = rows.filter(keep);
            assert(out == kept.push(last));
            assert forall|i: int, j: int| 0 <= i < j < out.len() implies !same(
                #[trigger] out[i],
                #[trigger] out[j],
            ) by {
                if j == kept.len() {
                    assert(kept.contains(kept[i]));
                    rest.lemma_filter_contains_rev(keep, kept[i]);
                    let k = choose|k: int| 0 <= k < rest.len() && rest[k] == kept[i];
                    assert(!same(rows[k], rows[rows.len() - 1]));
                } else {
                    assert(!same(kept[i], kept[j]));
                }
            }
        }
    }
}

/// Whether no two texts of the list hold the same characters.
pub open spec fn distinct_texts(keys: Seq<String>) -> bool {
    forall|i: int, j: int| 0 <= i < j < keys.len() ==> (#[trigger] keys[i])@ != (#[trigger] keys[j])@
}

/// Whether no two pairs of the list hold the same two texts.
pub open spec fn distinct_pairs(keys: Seq<(String, String)>) -> bool {
    forall|i: int, j: int|
        0 <= i < j < keys.len() ==> !((#[trigger] keys[i]).0@ == (#[trigger] keys[j]).0@
            && keys[i].1@ == keys[j].1@)
}

/// Whether no two texts of the list hold the same characters.
pub fn all_distinct(keys: &Vec<String>) -> (ok: bool)
    ensures
        ok == distinct_texts(keys@),
{
    let mut j: usize = 0;
    while j < keys.len()
        invariant
            j <= keys.len(),
            forall|a: int, b: int| 0 <= a < b < j ==> (#[trigger] keys@[a])@ != (#[trigger] keys@[b])@,
        decreases keys.len() - j,
    {
        let mut i: usize = 0;
        while i < j
            invariant
                i <= j < keys.len(),
                forall|a: int| 0 <= a < i ==> (#[trigger] keys@[a])@ != keys@[j as int]@,
            decreases j - i,
        {
            if same_text(&keys[i], &keys[j]) {
                return false;
            }
            i += 1;
        }
        j += 1;
    }
    true
}

/// Whether no two pairs of the list hold the same two texts.
pub fn all_distinct_pairs(keys: &Vec<(String, String)>) -> (ok: bool)
    ensures
        ok == distinct_pairs(keys@),
{
    let mut j: usize = 0;
    while j < keys.len()
        invariant
            j <= keys.len(),
            forall|a: int, b: int|
                0 <= a < b < j ==> !((#[trigger] keys@[a]).0@ == (#[trigger] keys@[b]).0@
                    && keys@[a].1@ == keys@[b].1@),
        decreases keys.len() - j,
    {
        let mut i: usize = 0;
        while i < j
            invariant
                i <= j < keys.len(),
                forall|a: int|
                    0 <= a < i ==> !((#[trigger] keys@[a]).0@ == keys@[j as int].0@ && keys@[a].1@
                        == keys@[j as int].1@),
            decreases j - i,
        {
            if same_text(&keys[i].0, &keys[j].0) && same_text(&keys[i].1, &keys[j].1) {
                return false;
            }
            i += 1;
        }
        j += 1;
    }
    true
}

/// How an attempt to join a collection ended.
#[derive(Clone, Copy, Debug, PartialEq, Eq, Structural)]
pub enum JoinOutcome {
    /// No collection has the invite code.
    UnknownCode,
    /// The user owns the collection and needs no membership.
    OwnCollection,
    /// The user was a member already.
    AlreadyMember,
    /// The user has become a member.
    Joined,
}

/// The first collection that has the invite code `code`.
pub open spec fn first_with_code(collections: Seq<Collection>, code: Seq<char>) -> Option<
    Collection,
>
    decreases collections.len(),
{
    if collections.len() == 0 {
        None
    } else if collections[0].invite_code@ == code {
        Some(collections[0])
    } else {
        first_with_code(collections.drop_first(), code)
    }
}

/// How an attempt of `user_id` to join with `code` ends.
pub open spec fn join_outcome(
    collections: Seq<Collection>,
    members: Seq<CollectionMember>,
    code: Seq<char>,
    user_id: Seq<char>,
) -> JoinOutcome {
    match first_with_code(collections, code) {
        None => JoinOutcome::UnknownCode,
        Some(c) => if c.owner_id@ == user_id {
            JoinOutcome::OwnCollection
        } else if is_member(members, c.id@, user_id) {
            JoinOutcome::AlreadyMember
        } else {
            JoinOutcome::Joined
        },
    }
}

/// The memberships after `user_id` has tried to join with `code` at
/// `joined_at`: one row more where the user has become a member, and the
/// same rows otherwise.
pub open spec fn members_after_join(
    collections: Seq<Collection>,
    members: Seq<CollectionMember>,
    code: Seq<char>,
    user_id: String,
    joined_at: String,
) -> Seq<CollectionMember> {
    match first_with_code(collections, code) {
        Some(c) if join_outcome(collections, members, code, user_id@) == JoinOutcome::Joined => {
            members.push(CollectionMember { collection_id: c.id, user_id, joined_at })
        },
        _ => members,
    }
}

/// The number of rows that record `user_id` as a member of `collection_id`.
pub open spec fn count_members(
    members: Seq<CollectionMember>,
    collection_id: Seq<char>,
    user_id: Seq<char>,
) -> nat
    decreases members.len(),
{
    if members.len() == 0 {
        0
    } else {
        count_members(members.drop_last(), collection_id, user_id) + (if links_member(
            members.last(),
            collection_id,
            user_id,
        ) {
            1nat
        } else {
            0nat
        })
    }
}

/// A user is a member exactly where at least one row says so.
pub proof fn lemma_member_has_rows(
    members: Seq<CollectionMember>,
    collection_id: Seq<char>,
    user_id: Seq<char>,
)
    ensures
        is_member(members, collection_id, user_id) <==> count_members(
            members,
            collection_id,
            user_id,
        ) > 0,
    decreases members.len(),
{
    if members.len() > 0 {
        let rest = members.drop_last();
        lemma_member_has_rows(rest, collection_id, user_id);
        if is_member(members, collection_id, user_id) {
            let i = choose|i: int|
                0 <= i < members.len() && links_member(
                    #[trigger] members[i],
                    collection_id,
                    user_id,
                );
            if i < rest.len() {
                assert(links_member(rest[i], collection_id, user_id));
            }
        }
        if count_members(members, collection_id, user_id) > 0 {
            if links_member(members.last(), collection_id, user_id) {
                assert(links_member(members[members.len() - 1], collection_id, user_id));
            } else {
                let i = choose|i: int|
                    0 <= i < rest.len() && links_member(#[trigger] rest[i], collection_id, user_id);
                assert(links_member(members[i], collection_id, user_id));
            }
        }
    }
}

/// Where no membership is recorded twice, no pair of collection and user
/// has more than one row.
pub proof fn lemma_unique_memberships_count_once(
    members: Seq<CollectionMember>,
    collection_id: Seq<char>,
    user_id: Seq<char>,
)
    requires
        distinct_by(members, same_membership()),
    ensures
        count_members(members, collection_id, user_id) <= 1,
    decreases members.len(),
{
    if members.len() > 0 {
        let rest = members.drop_last();
        assert forall|i: int, j: int| 0 <= i < j < rest.len() implies !same_membership()(
            #[trigger] rest[i],
            #[trigger] rest[j],
        ) by {
            assert(!same_membership()(members[i], members[j]));
        }
        lemma_unique_memberships_count_once(rest, collection_id, user_id);
        if links_member(members.last(), collection_id, user_id) {
            lemma_member_has_rows(rest, collection_id, user_id);
            if is_member(rest, collection_id, user_id) {
                let i = choose|i: int|
                    0 <= i < rest.len() && links_member(#[trigger] rest[i], collection_id, user_id);
                assert(!same_membership()(members[i], members[members.len() - 1]));
            }
        }
    }
}

/// In a well-formed store a user who has joined a collection, now or
/// before, is recorded as its member in exactly one row, and the store
/// stays well formed.
pub proof fn lemma_join_leaves_one_row(
    collections: Seq<Collection>,
    members: Seq<CollectionMember>,
    code: Seq<char>,
    user_id: String,
    joined_at: String,
)
    requires
        distinct_by(members, same_membership()),
    ensures
        distinct_by(
            members_after_join(collections, members, code, user_id, joined_at),
            same_membership(),
        ),
        first_with_code(collections, code) matches Some(c) ==> (c.owner_id@ != user_id@
            ==> count_members(
            members_after_join(collections, members, code, user_id, joined_at),
            c.id@,
            user_id@,
        ) == 1),
{
    let after = members_after_join(collections, members, code, user_id, joined_at);
    match first_with_code(collections, code) {
        Some(c) => {
            if join_outcome(collections, members, code, user_id@) == JoinOutcome::Joined {
                let row = CollectionMember { collection_id: c.id, user_id, joined_at };
                assert forall|i: int| 0 <= i < members.len() implies !same_membership()(
                    #[trigger] members[i],
                    row,
                ) by {
                    assert(!links_member(members[i], c.id@, user_id@));
                }
                lemma_push_keeps_distinct(members, row, same_membership());
                assert(links_member(after[after.len() - 1], c.id@, user_id@));
            }
            if c.owner_id@ != user_id@ {
                assert(is_member(after, c.id@, user_id@));
                lemma_member_has_rows(after, c.id@, user_id@);
                lemma_unique_memberships_count_once(after, c.id@, user_id@);
            }
        },
        None => {},
    }
}

/// Joining is idempotent: a user who joins a collection twice with the same
/// invite code is recorded as its member once. The second attempt changes
/// nothing, and where no row recorded the user before the first, exactly one
/// does after the second. The owner of the collection never gets a row.
pub proof fn lemma_join_twice_is_join_once(
    collections: Seq<Collection>,
    members: Seq<CollectionMember>,
    code: Seq<char>,
    user_id: String,
    first_at: String,
    second_at: String,
)
    ensures
        ({
            let once = members_after_join(collections, members, code, user_id, first_at);
            let twice = members_after_join(collections, once, code, user_id, second_at);
            &&& twice == once
            &&& join_outcome(collections, once, code, user_id@) != JoinOutcome::Joined
            &&& first_with_code(collections, code) matches Some(c) ==> {
                &&& c.owner_id@ == user_id@ ==> once == members
                &&& c.owner_id@ != user_id@ ==> is_member(twice, c.id@, user_id@)
                &&& c.owner_id@ != user_id@ && !is_member(members, c.id@, user_id@)
                    ==> count_members(twice, c.id@, user_id@) == 1
            }
        }),
{
    let once = members_after_join(collections, members, code, user_id, first_at);
    match first_with_code(collections, code) {
        Some(c) => {
            if join_outcome(collections, members, code, user_id@) == JoinOutcome::Joined {
                let row = CollectionMember { collection_id: c.id, user_id, joined_at: first_at };
                assert(once == members.push(row));
                assert(links_member(once[once.len() - 1], c.id@, user_id@));
                assert(once.drop_last() =~= members);
                lemma_member_has_rows(members, c.id@, user_id@);
            }
        },
        None => {},
    }
}

/// The test that keeps every row but those that record `user_id` as a
/// member of `collection_id`.
pub open spec fn not_membership(collection_id: Seq<char>, user_id: Seq<char>) -> spec_fn(
    CollectionMember,
) -> bool {
    |row: CollectionMember| !links_member(row, collection_id, user_id)
}

/// The memberships without those of `user_id` in `collection_id`.
pub open spec fn members_without(
    members: Seq<CollectionMember>,
    collection_id: Seq<char>,
    user_id: Seq<char>,
) -> Seq<CollectionMember> {
    members.filter(not_membership(collection_id, user_id))
}

/// Once the rows of a membership are gone, the user is no member, and every
/// other membership stands as before.
pub proof fn lemma_members_without(
    members: Seq<CollectionMember>,
    collection_id: Seq<char>,
    user_id: Seq<char>,
)
    ensures
        !is_member(members_without(members, collection_id, user_id), collection_id, user_id),
        forall|c: Seq<char>, u: Seq<char>|
            !(c == collection_id && u == user_id) ==> (#[trigger] is_member(
                members_without(members, collection_id, user_id),
                c,
                u,
            ) <==> is_member(members, c, u)),
{
    let keep = not_membership(collection_id, user_id);
    let left = members_without(members, collection_id, user_id);
    assert forall|i: int| 0 <= i < left.len() implies !links_member(
        #[trigger] left[i],
        collection_id,
        user_id,
    ) by {
        members.lemma_filter_pred(keep, i);
    }
    assert forall|c: Seq<char>, u: Seq<char>| !(c == collection_id && u == user_id) implies (
    #[trigger] is_member(left, c, u) <==> is_member(members, c, u)) by {
        if is_member(left, c, u) {
            let i = choose|i: int| 0 <= i < left.len() && links_member(#[trigger] left[i], c, u);
            assert(left.contains(left[i]));
            members.lemma_filter_contains_rev(keep, left[i]);
            let j = choose|j: int| 0 <= j < members.len() && members[j] == left[i];
            assert(links_member(members[j], c, u));
        }
        if is_member(members, c, u) {
            let j = choose|j: int|
                0 <= j < members.len() && links_member(#[trigger] members[j], c, u);
            assert(keep(members[j]));
            members.lemma_filter_contains(keep, j);
            let i = choose|i: int| 0 <= i < left.len() && left[i] == members[j];
            assert(links_member(left[i], c, u));
        }
    }
}

/// The rows of `members` but those that record `user_id` as a member of
/// `collection_id`.
pub fn drop_membership(
    members: &Vec<CollectionMember>,
    collection_id: &String,
    user_id: &String,
) -> (left: Vec<CollectionMember>)
    ensures
        left@ == members_without(members@, collection_id@, user_id@),
{
    let ghost keep = not_membership(collection_id@, user_id@);
    let mut left: Vec<CollectionMember> = Vec::new();
    let mut i: usize = 0;
    assert(members@.take(0).filter(keep) =~= Seq::<CollectionMember>::empty()) by {
        reveal(Seq::filter);
    }
    while i < members.len()
        invariant
            i <= members.len(),
            keep == not_membership(collection_id@, user_id@),
            left@ == members@.take(i as int).filter(keep),
        decreases members.len() - i,
    {
        proof {
            lemma_filter_next(members@, keep, i as int);
        }
        if !(same_text(&members[i].collection_id, collection_id) && same_text(
            &members[i].user_id,
            user_id,
        )) {
            left.push(members[i].clone());
        }
        i += 1;
    }
    assert(members@.take(members@.len() as int) =~= members@);
    left
}

/// The first collection that has the invite code `code`.
pub fn find_by_code<'a>(collections: &'a Vec<Collection>, code: &String) -> (found: Option<
    &'a Collection,
>)
    ensures
        match found {
            Some(c) => first_with_code(collections@, code@) == Some(*c),
            None => first_with_code(collections@, code@).is_none(),
        },
{
    let mut i: usize = 0;
    assert(collections@.skip(0) =~= collections@);
    while i < collections.len()
        invariant
            i <= collections.len(),
            first_with_code(collections@, code@) == first_with_code(
                collections@.skip(i as int),
                code@,
            ),
        decreases collections.len() - i,
    {
        if same_text(&collections[i].invite_code, code) {
            return Some(&collections[i]);
        }
        assert(collections@.skip(i as int).drop_first() =~= collections@.skip(i + 1));
        i += 1;
    }
    None
}

impl Store {
    /// Whether every identifier stands for one row: no two users, entries,
    /// visits, collections or tags have the same identifier.
    pub open spec fn ids_unique(self) -> bool {
        &&& distinct_by(self.users@, same_user_id())
        &&& distinct_by(self.entries@, same_entry_id())
        &&& distinct_by(self.visits@, same_visit_id())
        &&& distinct_by(self.collections@, same_collection_id())
        &&& distinct_by(self.tags@, same_tag_id())
    }

    /// Whether every pair and every name stands for one row: no user is
    /// recorded twice as a member of one collection, no entry is linked
    /// twice to one tag, and no two tags have the same name.
    pub open spec fn rows_unique(self) -> bool {
        &&& distinct_by(self.members@, same_membership())
        &&& distinct_by(self.entry_tags@, same_link())
        &&& distinct_by(self.tags@, same_tag_name())
    }

    /// Whether the store is well formed: one row for each identifier, one
    /// membership for each pair of collection and user, one link for each
    /// pair of entry and tag, and one tag for each name.
    pub open spec fn well_formed(self) -> bool {
        self.ids_unique() && self.rows_unique()
    }

    /// Whether no two of the user identifiers are the same.
    pub fn users_have_one_row_each(&self) -> (ok: bool)
        ensures
            ok == distinct_by(self.users@, same_user_id()),
    {
        let mut keys: Vec<String> = Vec::new();
        let mut i: usize = 0;
        while i < self.users.len()
            invariant
                i <= self.users.len(),
                keys@.len() == i,
                forall|k: int| 0 <= k < i ==> (#[trigger] keys@[k]) == self.users@[k].id,
            decreases self.users.len() - i,
        {
            keys.push(self.users[i].id.clone());
            i += 1;
        }
        let ok = all_distinct(&keys);
        proof {
            if ok {
                assert forall|a: int, b: int| 0 <= a < b < self.users@.len() implies !same_user_id()(
                    #[trigger] self.users@[a],
                    #[trigger] self.users@[b],
                ) by {
                    assert(keys@[a]@ != keys@[b]@);
                }
            }
            if distinct_by(self.users@, same_user_id()) {
                assert forall|a: int, b: int| 0 <= a < b < keys@.len() implies (#[trigger] keys@[a])@
                    != (#[trigger] keys@[b])@ by {
                    assert(!same_user_id()(self.users@[a], self.users@[b]));
                }
            }
        }
        ok
    }

    /// Whether no two of the entry identifiers are the same.
    pub fn entries_have_one_row_each(&self) -> (ok: bool)
        ensures
            ok == distinct_by(self.entries@, same_entry_id()),
    {
        let mut keys: Vec<String> = Vec::new();
        let mut i: usize = 0;
        while i < self.entries.len()
            invariant
                i <= self.entries.len(),
                keys@.len() == i,
                forall|k: int| 0 <= k < i ==> (#[trigger] keys@[k]) == self.entries@[k].id,
            decreases self.entries.len() - i,
        {
            keys.push(self.entries[i].id.clone());
            i += 1;
        }
        let ok = all_distinct(&keys);
        proof {
            if ok {
                assert forall|a: int, b: int| 0 <= a < b < self.entries@.len() implies !same_entry_id()(
                    #[trigger] self.entries@[a],
                    #[trigger] self.entries@[b],
                ) by {
                    assert(keys@[a]@ != keys@[b]@);
                }
            }
            if distinct_by(self.entries@, same_entry_id()) {
                assert forall|a: int, b: int| 0 <= a < b < keys@.len() implies (#[trigger] keys@[a])@
                    != (#[trigger] keys@[b])@ by {
                    assert(!same_entry_id()(self.entries@[a], self.entries@[b]));
                }
            }
        }
        ok
    }

    /// Whether no two of the visit identifiers are the same.
    pub fn visits_have_one_row_each(&self) -> (ok: bool)
        ensures
            ok == distinct_by(self.visits@, same_visit_id()),
    {
        let mut keys: Vec<String> = Vec::new();
        let mut i: usize = 0;
        while i < self.visits.len()
            invariant
                i <= self.visits.len(),
                keys@.len() == i,
                forall|k: int| 0 <= k < i ==> (#[trigger] keys@[k]) == self.visits@[k].id,
            decreases self.visits.len() - i,
        {
            keys.push(self.visits[i].id.clone());
            i += 1;
        }
        let ok = all_distinct(&keys);
        proof {
            if ok {
                assert forall|a: int, b: int| 0 <= a < b < self.visits@.len() implies !same_visit_id()(
                    #[trigger] self.visits@[a],
                    #[trigger] self.visits@[b],
                ) by {
                    assert(keys@[a]@ != keys@[b]@);
                }
            }
            if distinct_by(self.visits@, same_visit_id()) {
                assert forall|a: int, b: int| 0 <= a < b < keys@.len() implies (#[trigger] keys@[a])@
                    != (#[trigger] keys@[b])@ by {
                    assert(!same_visit_id()(self.visits@[a], self.visits@[b]));
                }
            }
        }
        ok
    }

    /// Whether no two of the collection identifiers are the same.
    pub fn collections_have_one_row_each(&self) -> (ok: bool)
        ensures
            ok == distinct_by(self.collections@, same_collection_id()),
    {
        let mut keys: Vec<String> = Vec::new();
        let mut i: usize = 0;
        while i < self.collections.len()
            invariant
                i <= self.collections.len(),
                keys@.len() == i,
                forall|k: int| 0 <= k < i ==> (#[trigger] keys@[k]) == self.collections@[k].id,
            decreases self.collections.len() - i,
        {
            keys.push(self.collections[i].id.clone());
            i += 1;
        }
        let ok = all_distinct(&keys);
        proof {
            if ok {
                assert forall|a: int, b: int| 0 <= a < b < self.collections@.len() implies !same_collection_id()(
                    #[trigger] self.collections@[a],
                    #[trigger] self.collections@[b],
                ) by {
                    assert(keys@[a]@ != keys@[b]@);
                }
            }
            if distinct_by(self.collections@, same_collection_id()) {
                assert forall|a: int, b: int| 0 <= a < b < keys@.len() implies (#[trigger] keys@[a])@
                    != (#[trigger] keys@[b])@ by {
                    assert(!same_collection_id()(self.collections@[a], self.collections@[b]));
                }
            }
        }
        ok
    }

    /// Whether no two of the tag identifiers are the same.
    pub fn tags_have_one_row_each(&self) -> (ok: bool)
        ensures
            ok == distinct_by(self.tags@, same_tag_id()),
    {
        let mut keys: Vec<String> = Vec::new();
        let mut i: usize = 0;
        while i < self.tags.len()
            invariant
                i <= self.tags.len(),
                keys@.len() == i,
                forall|k: int| 0 <= k < i ==> (#[trigger] keys@[k]) == self.tags@[k].id,
            decreases self.tags.len() - i,
        {
            keys.push(self.tags[i].id.clone());
            i += 1;
        }
        let ok = all_distinct(&keys);
        proof {
            if ok {
                assert forall|a: int, b: int| 0 <= a < b < self.tags@.len() implies !same_tag_id()(
                    #[trigger] self.tags@[a],
                    #[trigger] self.tags@[b],
                ) by {
                    assert(keys@[a]@ != keys@[b]@);
                }
            }
            if distinct_by(self.tags@, same_tag_id()) {
                assert forall|a: int, b: int| 0 <= a < b < keys@.len() implies (#[trigger] keys@[a])@
                    != (#[trigger] keys@[b])@ by {
                    assert(!same_tag_id()(self.tags@[a], self.tags@[b]));
                }
            }
        }
        ok
    }

    /// Whether no two of the tag names are the same.
    pub fn tag_names_have_one_row_each(&self) -> (ok: bool)
        ensures
            ok == distinct_by(self.tags@, same_tag_name()),
    {
        let mut keys: Vec<String> = Vec::new();
        let mut i: usize = 0;
        while i < self.tags.len()
            invariant
                i <= self.tags.len(),
                keys@.len() == i,
                forall|k: int| 0 <= k < i ==> (#[trigger] keys@[k]) == self.tags@[k].name,
            decreases self.tags.len() - i,
        {
            keys.push(self.tags[i].name.clone());
            i += 1;
        }
        let ok = all_distinct(&keys);
        proof {
            if ok {
                assert forall|a: int, b: int| 0 <= a < b < self.tags@.len() implies !same_tag_name()(
                    #[trigger] self.tags@[a],
                    #[trigger] self.tags@[b],
                ) by {
                    assert(keys@[a]@ != keys@[b]@);
                }
            }
            if distinct_by(self.tags@, same_tag_name()) {
                assert forall|a: int, b: int| 0 <= a < b < keys@.len() implies (#[trigger] keys@[a])@
                    != (#[trigger] keys@[b])@ by {
                    assert(!same_tag_name()(self.tags@[a], self.tags@[b]));
                }
            }
        }
        ok
    }

    /// Whether no two of the memberships are the same.
    pub fn memberships_have_one_row_each(&self) -> (ok: bool)
        ensures
            ok == distinct_by(self.members@, same_membership()),
    {
        let mut keys: Vec<(String, String)> = Vec::new();
        let mut i: usize = 0;
        while i < self.members.len()
            invariant
                i <= self.members.len(),
                keys@.len() == i,
                forall|k: int|
                    0 <= k < i ==> (#[trigger] keys@[k]).0 == self.members@[k].collection_id && keys@[k].1
                        == self.members@[k].user_id,
            decreases self.members.len() - i,
        {
            keys.push((self.members[i].collection_id.clone(), self.members[i].user_id.clone()));
            i += 1;
        }
        let ok = all_distinct_pairs(&keys);
        proof {
            if ok {
                assert forall|a: int, b: int| 0 <= a < b < self.members@.len() implies !same_membership()(
                    #[trigger] self.members@[a],
                    #[trigger] self.members@[b],
                ) by {
                    assert(!(keys@[a].0@ == keys@[b].0@ && keys@[a].1@ == keys@[b].1@));
                }
            }
            if distinct_by(self.members@, same_membership()) {
                assert forall|a: int, b: int| 0 <= a < b < keys@.len() implies !((
                #[trigger] keys@[a]).0@ == (#[trigger] keys@[b]).0@ && keys@[a].1@ == keys@[b].1@) by {
                    assert(!same_membership()(self.members@[a], self.members@[b]));
                }
            }
        }
        ok
    }

    /// Whether no two of the links are the same.
    pub fn links_have_one_row_each(&self) -> (ok: bool)
        ensures
            ok == distinct_by(self.entry_tags@, same_link()),
    {
        let mut keys: Vec<(String, String)> = Vec::new();
        let mut i: usize = 0;
        while i < self.entry_tags.len()
            invariant
                i <= self.entry_tags.len(),
                keys@.len() == i,
                forall|k: int|
                    0 <= k < i ==> (#[trigger] keys@[k]).0 == self.entry_tags@[k].entry_id && keys@[k].1
                        == self.entry_tags@[k].tag_id,
            decreases self.entry_tags.len() - i,
        {
            keys.push((self.entry_tags[i].entry_id.clone(), self.entry_tags[i].tag_id.clone()));
            i += 1;
        }
        let ok = all_distinct_pairs(&keys);
        proof {
            if ok {
                assert forall|a: int, b: int| 0 <= a < b < self.entry_tags@.len() implies !same_link()(
                    #[trigger] self.entry_tags@[a],
                    #[trigger] self.entry_tags@[b],
                ) by {
                    assert(!(keys@[a].0@ == keys@[b].0@ && keys@[a].1@ == keys@[b].1@));
                }
            }
            if distinct_by(self.entry_tags@, same_link()) {
                assert forall|a: int, b: int| 0 <= a < b < keys@.len() implies !((
                #[trigger] keys@[a]).0@ == (#[trigger] keys@[b]).0@ && keys@[a].1@ == keys@[b].1@) by {
                    assert(!same_link()(self.entry_tags@[a], self.entry_tags@[b]));
                }
            }
        }
        ok
    }

    /// Whether the store is well formed: one row for each identifier, each
    /// membership, each link and each tag name.
    pub fn is_well_formed(&self) -> (ok: bool)
        ensures
            ok == self.well_formed(),
    {
        self.users_have_one_row_each() && self.entries_have_one_row_each()
            && self.visits_have_one_row_each() && self.collections_have_one_row_each()
            && self.tags_have_one_row_each() && self.tag_names_have_one_row_each()
            && self.memberships_have_one_row_each() && self.links_have_one_row_each()
    }

    /// A store without rows.
    pub fn new() -> (store: Store)
        ensures
            store.well_formed(),
            store.users@.len() == 0,
            store.entries@.len() == 0,
            store.visits@.len() == 0,
            store.collections@.len() == 0,
            store.members@.len() == 0,
            store.tags@.len() == 0,
            store.entry_tags@.len() == 0,
    {
        Store {
            users: Vec::new(),
            entries: Vec::new(),
            visits: Vec::new(),
            collections: Vec::new(),
            members: Vec::new(),
            tags: Vec::new(),
            entry_tags: Vec::new(),
        }
    }

    /// Lets `user_id` join the collection whose invite code is
    /// `invite_code`, as of `joined_at`.
    ///
    /// Any user may join with the current code. The owner of the collection
    /// needs no membership and gets none, and a user who is a member stays
    /// one without a second row.
    pub fn join_collection(&mut self, invite_code: &str, user_id: String, joined_at: String) -> (outcome:
        JoinOutcome)
        ensures
            outcome == join_outcome(
                old(self).collections@,
                old(self).members@,
                invite_code@,
                user_id@,
            ),
            final(self).members@ == members_after_join(
                old(self).collections@,
                old(self).members@,
                invite_code@,
                user_id,
                joined_at,
            ),
            final(self).users == old(self).users,
            final(self).entries == old(self).entries,
            final(self).visits == old(self).visits,
            final(self).collections == old(self).collections,
            final(self).tags == old(self).tags,
            final(self).entry_tags == old(self).entry_tags,
            old(self).ids_unique() ==> final(self).ids_unique(),
            old(self).rows_unique() ==> final(self).rows_unique(),
            old(self).rows_unique() && (outcome == JoinOutcome::Joined || outcome
                == JoinOutcome::AlreadyMember) ==> (first_with_code(
                old(self).collections@,
                invite_code@,
            ) matches Some(c) && count_members(final(self).members@, c.id@, user_id@) == 1),
    {
        proof {
            if old(self).rows_unique() {
                lemma_join_leaves_one_row(
                    old(self).collections@,
                    old(self).members@,
                    invite_code@,
                    user_id,
                    joined_at,
                );
            }
        }
        let code = String::from_str(invite_code);
        let collection_id = match find_by_code(&self.collections, &code) {
            None => {
                return JoinOutcome::UnknownCode;
            },
            Some(c) => {
                if same_text(&c.owner_id, &user_id) {
                    return JoinOutcome::OwnCollection;
                }
                if check_member(&self.members, &c.id, &user_id) {
                    return JoinOutcome::AlreadyMember;
                }
                c.id.clone()
            },
        };
        self.members.push(CollectionMember { collection_id, user_id, joined_at });
        JoinOutcome::Joined
    }

    /// Takes `user_id` out of the collection `collection_id`.
    ///
    /// Only memberships are touched: the collection stays, and so does its
    /// owner, who has no membership to give up.
    pub fn leave_collection(&mut self, collection_id: &str, user_id: &str)
        ensures
            final(self).members@ == members_without(
                old(self).members@,
                collection_id@,
                user_id@,
            ),
            final(self).users == old(self).users,
            final(self).entries == old(self).entries,
            final(self).visits == old(self).visits,
            final(self).collections == old(self).collections,
            final(self).tags == old(self).tags,
            final(self).entry_tags == old(self).entry_tags,
            old(self).ids_unique() ==> final(self).ids_unique(),
            old(self).rows_unique() ==> final(self).rows_unique(),
    {
        let c = String::from_str(collection_id);
        let u = String::from_str(user_id);
        proof {
            if old(self).rows_unique() {
                lemma_filter_keeps_distinct(
                    old(self).members@,
                    not_membership(collection_id@, user_id@),
                    same_membership(),
                );
            }
        }
        self.members = drop_membership(&self.members, &c, &u);
    }

    /// Takes `member_id` out of the collection `collection_id` at the
    /// request of `actor`. Nothing happens unless `actor` owns the
    /// collection.
    pub fn remove_member(&mut self, actor: &str, collection_id: &str, member_id: &str)
        ensures
            final(self).members@ == (if is_owner(
                old(self).collections@,
                collection_id@,
                actor@,
            ) {
                members_without(old(self).members@, collection_id@, member_id@)
            } else {
                old(self).members@
            }),
            final(self).users == old(self).users,
            final(self).entries == old(self).entries,
            final(self).visits == old(self).visits,
            final(self).collections == old(self).collections,
            final(self).tags == old(self).tags,
            final(self).entry_tags == old(self).entry_tags,
            old(self).ids_unique() ==> final(self).ids_unique(),
            old(self).rows_unique() ==> final(self).rows_unique(),
    {
        let a = String::from_str(actor);
        let c = String::from_str(collection_id);
        let m = String::from_str(member_id);
        proof {
            if old(self).rows_unique() {
                lemma_filter_keeps_distinct(
                    old(self).members@,
                    not_membership(collection_id@, member_id@),
                    same_membership(),
                );
            }
        }
        if check_owner(&self.collections, &c, &a) {
            self.members = drop_membership(&self.members, &c, &m);
        }
    }
}

} // verus!
