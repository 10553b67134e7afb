//! Who is acting: the user behind a session, and the user behind an invite
//! code.

use crate::access::same_text;
use crate::models::User;
use crate::store::{lemma_push_keeps_distinct, same_user_id, user_id_unused, Store};
use vstd::prelude::*;

verus! {

/// The user on whose behalf a request is made.
#[derive(Debug)]
pub struct AuthUser(pub User);

/// The answer to a request that no user stands behind: go and log in.
#[derive(Debug)]
pub struct AuthRedirect;

/// The first user whose identifier is `id`.
pub open spec fn user_with_id(users: Seq<User>, id: Seq<char>) -> Option<User>
    decreases users.len(),
{
    if users.len() == 0 {
        None
    } else if users[0].id@ == id {
        Some(users[0])
    } else {
        user_with_id(users.drop_first(), id)
    }
}

/// The first user whose invite code is `code`.
pub open spec fn user_with_code(users: Seq<User>, code: Seq<char>) -> Option<User>
    decreases users.len(),
{
    if users.len() == 0 {
        None
    } else if users[0].invite_code@ == code {
        Some(users[0])
    } else {
        user_with_code(users.drop_first(), code)
    }
}

/// The user whom a session stands for, if it stands for one.
pub open spec fn session_user(users: Seq<User>, session_user_id: Option<String>) -> Option<User> {
    match session_user_id {
        Some(id) => user_with_id(users, id@),
        None => None,
    }
}

impl Store {
    /// The user behind a session that holds `session_user_id`. A session
    /// that holds no identifier, or one that no user has, is sent to log
    /// in.
    pub fn authenticate(&self, session_user_id: &Option<String>) -> (who: Result<
        AuthUser,
        AuthRedirect,
    >)
        ensures
            match who {
                Ok(user) => session_user(self.users@, *session_user_id) == Some(user.0),
                Err(_) => session_user(self.users@, *session_user_id) is None,
            },
    {
        let id = match session_user_id {
            Some(id) => id,
            None => {
                return Err(AuthRedirect);
            },
        };
        let mut i: usize = 0;
        assert(self.users@.skip(0) =~= self.users@);
        while i < self.users.len()
            invariant
                i <= self.users.len(),
                *session_user_id == Some(*id),
                user_with_id(self.users@, id@) == user_with_id(self.users@.skip(i as int), id@),
            decreases self.users.len() - i,
        {
            if same_text(&self.users[i].id, id) {
                return Ok(AuthUser(self.users[i].clone()));
            }
            assert(self.users@.skip(i as int).drop_first() =~= self.users@.skip(i + 1));
            i += 1;
        }
        Err(AuthRedirect)
    }

    /// Adds a user with a fresh identifier and a fresh invite code, and
    /// hands back what was added.
    pub fn create_user(&mut self, name: String, email: Option<String>) -> (user: User)
        ensures
            user.name == name,
            user.email == email,
            user.id@.len() == 36,
            user.invite_code@.len() == 36,
            user.created_at == user.updated_at,
            final(self).users@ == old(self).users@.push(user),
            final(self).entries == old(self).entries,
            final(self).visits == old(self).visits,
            final(self).collections == old(self).collections,
            final(self).members == old(self).members,
            final(self).tags == old(self).tags,
            final(self).entry_tags == old(self).entry_tags,
            old(self).ids_unique() && user_id_unused(old(self).users@, user.id@)
                ==> final(self).ids_unique(),
            old(self).rows_unique() ==> final(self).rows_unique(),
    {
        let user = User::new(name, email);
        self.users.push(user.clone());
        proof {
            if old(self).ids_unique() && user_id_unused(old(self).users@, user.id@) {
                lemma_push_keeps_distinct(old(self).users@, user, same_user_id());
            }
        }
        user
    }

    /// The user who logs in with `invite_code`, if the code is some user's.
    pub fn user_for_invite_code(&self, invite_code: &str) -> (found: Option<User>)
        ensures
            found == user_with_code(self.users@, invite_code@),
    {
        let code = String::from_str(invite_code);
        let mut i: usize = 0;
        assert(self.users@.skip(0) =~= self.users@);
        while i < self.users.len()
            invariant
                i <= self.users.len(),
                code@ == invite_code@,
                user_with_code(self.users@, invite_code@) == user_with_code(
                    self.users@.skip(i as int),
                    invite_code@,
                ),
            decreases self.users.len() - i,
        {
            if same_text(&self.users[i].invite_code, &code) {
                return Some(self.users[i].clone());
            }
            assert(self.users@.skip(i as int).drop_first() =~= self.users@.skip(i + 1));
            i += 1;
        }
        None
    }
}

} // verus!
