//! Accounts and the privileges they may hold.

use vstd::prelude::*;

verus! {

/// A coarse capability that an account may hold.
#[derive(Clone, Copy, PartialEq, Eq, Structural, Debug)]
pub enum DbPrivilege {
    CanRead,
    CanWrite,
}

/// What an account is, mathematically: the characters of its name and of its
/// password, and its privileges in the order they were given.
pub struct UserView {
    pub username: Seq<char>,
    pub password: Seq<char>,
    pub privileges: Seq<DbPrivilege>,
}

/// An account. The password is kept and compared as plain text.
#[derive(Debug, PartialEq, Eq)]
pub struct User {
    pub username: String,
    pub password: String,
    pub privileges: Vec<DbPrivilege>,
}

impl View for User {
    type V = UserView;

    open spec fn view(&self) -> UserView {
        UserView {
            username: self.username@,
            password: self.password@,
            privileges: self.privileges@,
        }
    }
}

impl DeepView for User {
    type V = UserView;

    open spec fn deep_view(&self) -> UserView {
        self@
    }
}

impl User {
    /// An account with copies of the given name and password, and the given
    /// privileges.
    pub fn new(username: &str, password: &str, privileges: Vec<DbPrivilege>) -> (user: User)
        ensures
            user@ == (UserView {
                username: username@,
                password: password@,
                privileges: privileges@,
            }),
    {
        User { username: username.to_owned(), password: password.to_owned(), privileges }
    }
}

/// Whether `privilege` is among `privileges`.
pub fn holds(privileges: &Vec<DbPrivilege>, privilege: DbPrivilege) -> (held: bool)
    ensures
        held == privileges@.contains(privilege),
{
    let mut i: usize = 0;
    while i < privileges.len()
        invariant
            i <= privileges.len(),
            forall|j: int| 0 <= j < i ==> privileges@[j] != privilege,
        decreases privileges.len() - i,
    {
        if privileges[i] == privilege {
            return true;
        }
        i += 1;
    }
    false
}

impl Clone for User {
    fn clone(&self) -> (copy: User)
        ensures
            copy@ == self@,
    {
        User {
            username: self.username.clone(),
            password: self.password.clone(),
            privileges: self.privileges.clone(),
        }
    }
}

} // verus!
