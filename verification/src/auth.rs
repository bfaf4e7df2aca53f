//! The credential gate: a fixed table of accounts and the decision whether a
//! name and password may use a privilege.

use vstd::prelude::*;
use crate::text::str_eq;
use crate::user::{holds, DbPrivilege, User, UserView};

verus! {

/// Why a request was not authorized.
#[derive(Clone, Copy, PartialEq, Eq, Structural, Debug)]
pub enum AuthError {
    /// No account has the given name.
    UserNotFound,
    /// No password was given, or it is not the account's password.
    InvalidPassword,
    /// The account does not hold the required privilege.
    Forbidden,
}

impl AuthError {
    /// What the error reads as.
    pub open spec fn text(self) -> Seq<char> {
        match self {
            AuthError::UserNotFound => "User not found"@,
            AuthError::InvalidPassword => "Invalid password"@,
            AuthError::Forbidden => "Forbidden"@,
        }
    }

    /// The reason shown to whoever made the request.
    pub fn message(&self) -> (message: String)
        ensures
            message@ == self.text(),
    {
        match self {
            AuthError::UserNotFound => "User not found".to_owned(),
            AuthError::InvalidPassword => "Invalid password".to_owned(),
            AuthError::Forbidden => "Forbidden".to_owned(),
        }
    }
}

/// The first account of `users` with exactly this name, if there is one.
pub open spec fn user_named(users: Seq<UserView>, username: Seq<char>) -> Option<UserView>
    decreases users.len(),
{
    if users.len() == 0 {
        None
    } else if users.first().username == username {
        Some(users.first())
    } else {
        user_named(users.drop_first(), username)
    }
}

/// Some account of `users` has this name.
pub open spec fn has_user(users: Seq<UserView>, username: Seq<char>) -> bool {
    exists|i: int| 0 <= i < users.len() && (#[trigger] users[i]).username == username
}

/// `i` is the position of the first account of `users` with this name.
pub open spec fn is_first_named(users: Seq<UserView>, username: Seq<char>, i: int) -> bool {
    &&& 0 <= i < users.len()
    &&& users[i].username == username
    &&& forall|j: int| 0 <= j < i ==> (#[trigger] users[j]).username != username
}

/// No two accounts of `users` share a name.
pub open spec fn usernames_unique(users: Seq<UserView>) -> bool {
    forall|i: int, j: int|
        0 <= i < j < users.len() ==> (#[trigger] users[i]).username != (
        #[trigger] users[j]).username
}

/// `user_named` gives the first account with the name, and gives one
/// whenever some account has the name.
pub proof fn lemma_user_named(users: Seq<UserView>, username: Seq<char>)
    ensures
        match user_named(users, username) {
            Some(user) => exists|i: int|
                #[trigger] is_first_named(users, username, i) && users[i] == user,
            None => !has_user(users, username),
        },
    decreases users.len(),
{
    if users.len() > 0 {
        if users.first().username == username {
            assert(is_first_named(users, username, 0));
        } else {
            let rest = users.drop_first();
            lemma_user_named(rest, username);
            match user_named(rest, username) {
                Some(user) => {
                    let i = choose|i: int|
                        #[trigger] is_first_named(rest, username, i) && rest[i] == user;
                    assert forall|j: int| 0 <= j < i + 1 implies
                        (#[trigger] users[j]).username != username by {
                        if j > 0 {
                            assert(rest[j - 1] == users[j]);
                        }
                    }
                    assert(users[i + 1] == rest[i]);
                    assert(is_first_named(users, username, i + 1));
                },
                None => {
                    assert forall|i: int| 0 <= i < users.len() implies
                        (#[trigger] users[i]).username != username by {
                        if i > 0 {
                            assert(rest[i - 1] == users[i]);
                        }
                    }
                },
            }
        }
    }
}

/// In a table without repeated names, every account is the one found under
/// its own name.
pub proof fn lemma_unique_names_find_each(users: Seq<UserView>, i: int)
    requires
        usernames_unique(users),
        0 <= i < users.len(),
    ensures
        user_named(users, users[i].username) == Some(users[i]),
{
    let username = users[i].username;
    lemma_user_named(users, username);
    match user_named(users, username) {
        Some(user) => {
            let k = choose|k: int|
                #[trigger] is_first_named(users, username, k) && users[k] == user;
            if k < i {
                assert(users[k].username != users[i].username);
            } else if i < k {
                assert(users[i].username != username);
            }
        },
        None => {
            assert(users[i].username == username);
        },
    }
}

/// The characters of a password that may be absent.
pub open spec fn password_chars(password: Option<&str>) -> Option<Seq<char>> {
    match password {
        Some(p) => Some(p@),
        None => None,
    }
}

/// Whether a name and password may use a privilege. The tests come in this order: the account
/// exists, the password was given and is the account's, the account holds
/// the required privilege. On success the result is every privilege of the
/// account.
pub open spec fn authorization(
    users: Seq<UserView>,
    username: Seq<char>,
    password: Option<Seq<char>>,
    required: DbPrivilege,
) -> Result<Seq<DbPrivilege>, AuthError> {
    match user_named(users, username) {
        None => Err(AuthError::UserNotFound),
        Some(user) => {
            if password != Some(user.password) {
                Err(AuthError::InvalidPassword)
            } else if !user.privileges.contains(required) {
                Err(AuthError::Forbidden)
            } else {
                Ok(user.privileges)
            }
        },
    }
}

/// The table of accounts. It is set up once and never changes.
pub struct CredentialGate {
    users: Vec<User>,
}

impl View for CredentialGate {
    type V = Seq<UserView>;

    closed spec fn view(&self) -> Seq<UserView> {
        self.users.deep_view()
    }
}

impl CredentialGate {
    /// A gate over the given accounts. Where two accounts share a name, the
    /// earlier one is the one that counts.
    pub fn new(users: Vec<User>) -> (gate: CredentialGate)
        ensures
            gate@ == users.deep_view(),
    {
        CredentialGate { users }
    }

    /// The first account with exactly this name.
    pub fn get_user_by_username(&self, username: &str) -> (found: Option<&User>)
        ensures
            match found {
                Some(user) => user_named(self@, username@) == Some(user@),
                None => user_named(self@, username@) is None,
            },
    {
        let mut i: usize = 0;
        assert(self@.skip(0) =~= self@);
        while i < self.users.len()
            invariant
                i <= self.users.len(),
                user_named(self@, username@) == user_named(self@.skip(i as int), username@),
            decreases self.users.len() - i,
        {
            let user = &self.users[i];
            assert(self@.skip(i as int).first() == user@);
            assert(self@.skip(i as int).drop_first() =~= self@.skip(i + 1));
            if str_eq(user.username.as_str(), username) {
                return Some(user);
            }
            i += 1;
        }
        None
    }

    /// Decides whether `username` with `password` may use `required`, and
    /// returns the account's privileges if so.
    pub fn authorize(
        &self,
        username: &str,
        password: Option<&str>,
        required: DbPrivilege,
    ) -> (decision: Result<Vec<DbPrivilege>, AuthError>)
        ensures
            match decision {
                Ok(privileges) => authorization(
                    self@,
                    username@,
                    password_chars(password),
                    required,
                ) == Ok::<Seq<DbPrivilege>, AuthError>(privileges@),
                Err(reason) => authorization(self@, username@, password_chars(password), required)
                    == Err::<Seq<DbPrivilege>, AuthError>(reason),
            },
    {
        match self.get_user_by_username(username) {
            None => Err(AuthError::UserNotFound),
            Some(user) => {
                let password_ok = match password {
                    Some(given) => str_eq(user.password.as_str(), given),
                    None => false,
                };
                if !password_ok {
                    Err(AuthError::InvalidPassword)
                } else if !holds(&user.privileges, required) {
                    Err(AuthError::Forbidden)
                } else {
                    Ok(user.privileges.clone())
                }
            },
        }
    }
}

} // verus!
