//! Identity and session records.
//!
//! `User` is the identity snapshot the ephemeral token store holds by value,
//! so a stored token stays usable whatever happens to the persistence
//! collaborator meanwhile. `Session` is the long-lived record created when a
//! token is consumed; its creation instant is carried as a plain signed
//! timestamp (seconds), so the record itself stays a value the contracts can
//! speak about.

use vstd::prelude::*;

verus! {

/// An identity record: one user account, as the gateway sees it.
pub struct User {
    pub id: i32,
    pub email: String,
    pub name: String,
}

/// The mathematical value of a `User`: plain sequences of characters.
pub ghost struct UserView {
    pub id: int,
    pub email: Seq<char>,
    pub name: Seq<char>,
}

impl View for User {
    type V = UserView;

    open spec fn view(&self) -> UserView {
        UserView { id: self.id as int, email: self.email@, name: self.name@ }
    }
}

impl Clone for User {
    fn clone(&self) -> (r: User)
        ensures
            r@ == self@,
    {
        User { id: self.id, email: self.email.clone(), name: self.name.clone() }
    }
}

/// The fields needed to create a new user record.
pub struct NewUser<'a> {
    pub email: &'a str,
    pub name: &'a str,
}

/// A persisted session: one long-lived credential for one user.
pub struct Session {
    pub id: i32,
    pub user_id: i32,
    pub token: String,
    /// Creation instant, in seconds since an epoch the caller chooses.
    pub created: i64,
}

/// The fields needed to create a new session record.
pub struct NewSession<'a> {
    pub user_id: i32,
    pub token: &'a str,
}

} // verus!
