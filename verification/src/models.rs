//! The records of the bookmark store: users, entries, visits, collections,
//! memberships and tags.

use crate::text::{lowercase, lowercase_of, trim, trimmed};
use crate::time::clock_rfc3339;
use vstd::prelude::*;

verus! {

/// The unit in which the time that an entry stays hidden is counted.
#[derive(Clone, Copy, Debug, PartialEq, Eq, Structural)]
pub enum Interval {
    Hours,
    Days,
    Weeks,
    Months,
    Years,
}

impl Interval {
    /// The name under which the unit is stored.
    pub open spec fn name(self) -> Seq<char> {
        match self {
            Interval::Hours => "hours"@,
            Interval::Days => "days"@,
            Interval::Weeks => "weeks"@,
            Interval::Months => "months"@,
            Interval::Years => "years"@,
        }
    }

    /// The unit that `name` stands for, if it is the name of one.
    pub open spec fn of_name(name: Seq<char>) -> Option<Interval> {
        if name == "hours"@ {
            Some(Interval::Hours)
        } else if name == "days"@ {
            Some(Interval::Days)
        } else if name == "weeks"@ {
            Some(Interval::Weeks)
        } else if name == "months"@ {
            Some(Interval::Months)
        } else if name == "years"@ {
            Some(Interval::Years)
        } else {
            None
        }
    }

    /// The name under which the unit is stored.
    pub fn as_str(&self) -> (s: &'static str)
        ensures
            s@ == self.name(),
    {
        match self {
            Interval::Hours => "hours",
            Interval::Days => "days",
            Interval::Weeks => "weeks",
            Interval::Months => "months",
            Interval::Years => "years",
        }
    }

    /// The name under which the unit is stored, as an owned text.
    pub fn to_string(&self) -> (s: String)
        ensures
            s@ == self.name(),
    {
        String::from_str(self.as_str())
    }

    /// Reads a stored name. Any text that is not exactly one of the five
    /// names is refused.
    pub fn parse(name: &str) -> (r: Option<Interval>)
        ensures
            r == Interval::of_name(name@),
    {
        if crate::text::str_eq(name, "hours") {
            Some(Interval::Hours)
        } else if crate::text::str_eq(name, "days") {
            Some(Interval::Days)
        } else if crate::text::str_eq(name, "weeks") {
            Some(Interval::Weeks)
        } else if crate::text::str_eq(name, "months") {
            Some(Interval::Months)
        } else if crate::text::str_eq(name, "years") {
            Some(Interval::Years)
        } else {
            None
        }
    }

    /// Reads a name out of a legacy export, where an unknown name counts as
    /// days. The second part of the result tells whether the name was known.
    pub fn parse_legacy(name: &str) -> (r: (Interval, bool))
        ensures
            r.1 == Interval::of_name(name@).is_some(),
            r.0 == match Interval::of_name(name@) {
                Some(unit) => unit,
                None => Interval::Days,
            },
    {
        match Interval::parse(name) {
            Some(unit) => (unit, true),
            None => (Interval::Days, false),
        }
    }
}

/// A stored name reads back as the unit it was written from.
pub proof fn lemma_interval_name_round_trip(unit: Interval)
    ensures
        Interval::of_name(unit.name()) == Some(unit),
{
    reveal_strlit("hours");
    reveal_strlit("days");
    reveal_strlit("weeks");
    reveal_strlit("months");
    reveal_strlit("years");
    assert("hours"@.len() == 5 && "days"@.len() == 4 && "weeks"@.len() == 5 && "months"@.len() == 6
        && "years"@.len() == 5);
    assert("hours"@[0] == 'h' && "weeks"@[0] == 'w' && "years"@[0] == 'y');
}

/// A fresh identifier: a random UUID in its hyphenated form.
///
/// Calls `uuid::Uuid::new_v4` and writes the result with its `Display`, which
/// gives 32 hexadecimal digits in five groups with four hyphens between them.
/// The contract claims the length of that text and nothing about the digits.
#[verifier::external_body]
pub(crate) fn fresh_id() -> (id: String)
    ensures
        id@.len() == 36,
{
    uuid::Uuid::new_v4().to_string()
}

/// A copy of an optional text.
pub fn clone_optional_text(text: &Option<String>) -> (copy: Option<String>)
    ensures
        copy == *text,
{
    match text {
        Some(t) => Some(t.clone()),
        None => None,
    }
}

/// A person who can log in with an invite code.
#[derive(Debug)]
pub struct User {
    pub id: String,
    pub name: String,
    pub email: Option<String>,
    pub invite_code: String,
    pub created_at: String,
    pub updated_at: String,
}

impl Clone for User {
    fn clone(&self) -> (copy: Self)
        ensures
            copy == *self,
    {
        User {
            id: self.id.clone(),
            name: self.name.clone(),
            email: clone_optional_text(&self.email),
            invite_code: self.invite_code.clone(),
            created_at: self.created_at.clone(),
            updated_at: self.updated_at.clone(),
        }
    }
}

impl User {
    /// The user with the given identifier and invite code, created at `now`.
    pub fn with_identity(
        id: String,
        name: String,
        email: Option<String>,
        invite_code: String,
        now: String,
    ) -> (user: User)
        ensures
            user == (User {
                id,
                name,
                email,
                invite_code,
                created_at: now,
                updated_at: now,
            }),
    {
        let updated_at = now.clone();
        User { id, name, email, invite_code, created_at: now, updated_at }
    }

    /// A new user with a fresh identifier and a fresh invite code, created
    /// at the current time.
    pub fn new(name: String, email: Option<String>) -> (user: User)
        ensures
            user.name == name,
            user.email == email,
            user.id@.len() == 36,
            user.invite_code@.len() == 36,
            user.created_at == user.updated_at,
    {
        let id = fresh_id();
        let invite_code = fresh_id();
        User::with_identity(id, name, email, invite_code, clock_rfc3339())
    }
}

/// A saved link with the schedule on which it comes back.
#[derive(Debug)]
pub struct Entry {
    pub id: String,
    /// The user who created the entry and alone may change it.
    pub user_id: String,
    /// The collection through which the entry is shared, if any.
    pub collection_id: Option<String>,
    pub url: String,
    pub title: String,
    pub description: Option<String>,
    /// How many units of `interval` the entry stays hidden after a visit.
    pub duration: i64,
    pub interval: Interval,
    /// When the entry was last visited, as RFC 3339 text.
    pub dismissed_at: Option<String>,
    pub created_at: String,
    pub updated_at: String,
}

impl Clone for Entry {
    fn clone(&self) -> (copy: Self)
        ensures
            copy == *self,
    {
        Entry {
            id: self.id.clone(),
            user_id: self.user_id.clone(),
            collection_id: clone_optional_text(&self.collection_id),
            url: self.url.clone(),
            title: self.title.clone(),
            description: clone_optional_text(&self.description),
            duration: self.duration,
            interval: self.interval,
            dismissed_at: clone_optional_text(&self.dismissed_at),
            created_at: self.created_at.clone(),
            updated_at: self.updated_at.clone(),
        }
    }
}

/// One visit of an entry by a user. Visits are only ever added.
#[derive(Debug)]
pub struct Visit {
    pub id: String,
    pub entry_id: String,
    pub user_id: String,
    pub visited_at: String,
}

impl Clone for Visit {
    fn clone(&self) -> (copy: Self)
        ensures
            copy == *self,
    {
        Visit {
            id: self.id.clone(),
            entry_id: self.entry_id.clone(),
            user_id: self.user_id.clone(),
            visited_at: self.visited_at.clone(),
        }
    }
}

impl Visit {
    /// The visit with the given identifier, made at `now`.
    pub fn with_identity(id: String, entry_id: String, user_id: String, now: String) -> (visit:
        Visit)
        ensures
            visit == (Visit { id, entry_id, user_id, visited_at: now }),
    {
        Visit { id, entry_id, user_id, visited_at: now }
    }

    /// A visit of `entry_id` by `user_id` at the current time, under a fresh
    /// identifier.
    pub fn new(entry_id: String, user_id: String) -> (visit: Visit)
        ensures
            visit.entry_id == entry_id,
            visit.user_id == user_id,
            visit.id@.len() == 36,
    {
        Visit::with_identity(fresh_id(), entry_id, user_id, clock_rfc3339())
    }
}

/// A shared set of entries with one owner.
#[derive(Debug)]
pub struct Collection {
    pub id: String,
    pub owner_id: String,
    pub name: String,
    /// The secret that lets another user join.
    pub invite_code: String,
    pub created_at: String,
    pub updated_at: String,
}

impl Clone for Collection {
    fn clone(&self) -> (copy: Self)
        ensures
            copy == *self,
    {
        Collection {
            id: self.id.clone(),
            owner_id: self.owner_id.clone(),
            name: self.name.clone(),
            invite_code: self.invite_code.clone(),
            created_at: self.created_at.clone(),
            updated_at: self.updated_at.clone(),
        }
    }
}

impl Collection {
    /// The collection with the given identifier and invite code, created at
    /// `now`.
    pub fn with_identity(
        id: String,
        owner_id: String,
        name: String,
        invite_code: String,
        now: String,
    ) -> (collection: Collection)
        ensures
            collection == (Collection {
                id,
                owner_id,
                name,
                invite_code,
                created_at: now,
                updated_at: now,
            }),
    {
        let updated_at = now.clone();
        Collection { id, owner_id, name, invite_code, created_at: now, updated_at }
    }

    /// A new collection of `owner_id` with a fresh identifier and a fresh
    /// invite code, created at the current time.
    pub fn new(owner_id: String, name: String) -> (collection: Collection)
        ensures
            collection.owner_id == owner_id,
            collection.name == name,
            collection.id@.len() == 36,
            collection.invite_code@.len() == 36,
            collection.created_at == collection.updated_at,
    {
        let id = fresh_id();
        let invite_code = fresh_id();
        Collection::with_identity(id, owner_id, name, invite_code, clock_rfc3339())
    }
}

/// The membership of a user who is not the owner in a collection.
#[derive(Debug)]
pub struct CollectionMember {
    pub collection_id: String,
    pub user_id: String,
    pub joined_at: String,
}

impl Clone for CollectionMember {
    fn clone(&self) -> (copy: Self)
        ensures
            copy == *self,
    {
        CollectionMember {
            collection_id: self.collection_id.clone(),
            user_id: self.user_id.clone(),
            joined_at: self.joined_at.clone(),
        }
    }
}

impl CollectionMember {
    /// The membership of `user_id` in `collection_id`, begun at the current
    /// time.
    pub fn new(collection_id: String, user_id: String) -> (member: CollectionMember)
        ensures
            member.collection_id == collection_id,
            member.user_id == user_id,
    {
        CollectionMember { collection_id, user_id, joined_at: clock_rfc3339() }
    }
}

/// A label that entries can carry. Its name is trimmed and in lower case.
#[derive(Debug)]
pub struct Tag {
    pub id: String,
    pub name: String,
    pub created_at: String,
}

impl Clone for Tag {
    fn clone(&self) -> (copy: Self)
        ensures
            copy == *self,
    {
        Tag { id: self.id.clone(), name: self.name.clone(), created_at: self.created_at.clone() }
    }
}

impl Tag {
    /// The name under which a tag is stored: `name` in lower case, without
    /// the white space at either end.
    pub open spec fn stored_name(name: Seq<char>) -> Seq<char> {
        trimmed(lowercase_of(name))
    }

    /// The tag with the given identifier, created at `now`. The name is
    /// stored in lower case and trimmed.
    pub fn with_identity(id: String, name: String, now: String) -> (tag: Tag)
        ensures
            tag.id == id,
            tag.name@ == Tag::stored_name(name@),
            tag.created_at == now,
    {
        let lower = lowercase(name.as_str());
        Tag { id, name: trim(lower.as_str()), created_at: now }
    }

    /// A new tag with a fresh identifier, created at the current time.
    pub fn new(name: String) -> (tag: Tag)
        ensures
            tag.name@ == Tag::stored_name(name@),
            tag.id@.len() == 36,
    {
        Tag::with_identity(fresh_id(), name, clock_rfc3339())
    }
}

/// The link between an entry and one of its tags.
#[derive(Debug)]
pub struct EntryTag {
    pub entry_id: String,
    pub tag_id: String,
}

impl Clone for EntryTag {
    fn clone(&self) -> (copy: Self)
        ensures
            copy == *self,
    {
        EntryTag { entry_id: self.entry_id.clone(), tag_id: self.tag_id.clone() }
    }
}

} // verus!
