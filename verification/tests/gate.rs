use person_registry::auth::{AuthError, CredentialGate};
use person_registry::user::{holds, DbPrivilege, User};

fn gate() -> CredentialGate {
    CredentialGate::new(vec![
        User::new("alice", "pw1", vec![DbPrivilege::CanRead]),
        User::new("bob", "pw2", vec![DbPrivilege::CanRead, DbPrivilege::CanWrite]),
    ])
}

#[test]
fn user_new_copies_its_arguments() {
    let user = User::new("alice", "pw1", vec![DbPrivilege::CanRead]);
    assert_eq!(user.username, "alice");
    assert_eq!(user.password, "pw1");
    assert_eq!(user.privileges, vec![DbPrivilege::CanRead]);
    assert_eq!(user.clone(), user);
}

#[test]
fn holds_tells_whether_a_privilege_is_listed() {
    assert!(holds(&vec![DbPrivilege::CanRead, DbPrivilege::CanWrite], DbPrivilege::CanWrite));
    assert!(holds(&vec![DbPrivilege::CanRead], DbPrivilege::CanRead));
    assert!(!holds(&vec![DbPrivilege::CanRead], DbPrivilege::CanWrite));
    assert!(!holds(&vec![], DbPrivilege::CanRead));
}

#[test]
fn authorize_alice_to_read_is_ok() {
    assert_eq!(
        gate().authorize("alice", Some("pw1"), DbPrivilege::CanRead),
        Ok(vec![DbPrivilege::CanRead])
    );
}

#[test]
fn authorize_alice_to_write_is_forbidden() {
    assert_eq!(
        gate().authorize("alice", Some("pw1"), DbPrivilege::CanWrite),
        Err(AuthError::Forbidden)
    );
}

#[test]
fn authorize_alice_with_a_wrong_password_is_invalid_password() {
    assert_eq!(
        gate().authorize("alice", Some("wrong"), DbPrivilege::CanRead),
        Err(AuthError::InvalidPassword)
    );
}

#[test]
fn authorize_carol_is_user_not_found() {
    assert_eq!(
        gate().authorize("carol", Some("x"), DbPrivilege::CanRead),
        Err(AuthError::UserNotFound)
    );
}

#[test]
fn authorize_returns_the_full_privilege_set() {
    assert_eq!(
        gate().authorize("bob", Some("pw2"), DbPrivilege::CanRead),
        Ok(vec![DbPrivilege::CanRead, DbPrivilege::CanWrite])
    );
    assert_eq!(
        gate().authorize("bob", Some("pw2"), DbPrivilege::CanWrite),
        Ok(vec![DbPrivilege::CanRead, DbPrivilege::CanWrite])
    );
}

#[test]
fn authorize_without_a_password_is_invalid_password() {
    assert_eq!(
        gate().authorize("alice", None, DbPrivilege::CanRead),
        Err(AuthError::InvalidPassword)
    );
}

#[test]
fn authorize_with_an_empty_password_is_invalid_password() {
    assert_eq!(
        gate().authorize("alice", Some(""), DbPrivilege::CanRead),
        Err(AuthError::InvalidPassword)
    );
}

#[test]
fn authorize_checks_the_password_before_the_privilege() {
    assert_eq!(
        gate().authorize("alice", Some("wrong"), DbPrivilege::CanWrite),
        Err(AuthError::InvalidPassword)
    );
}

#[test]
fn authorize_checks_the_user_before_the_password() {
    assert_eq!(
        gate().authorize("carol", None, DbPrivilege::CanWrite),
        Err(AuthError::UserNotFound)
    );
}

#[test]
fn authorize_matches_names_and_passwords_exactly() {
    assert_eq!(
        gate().authorize("Alice", Some("pw1"), DbPrivilege::CanRead),
        Err(AuthError::UserNotFound)
    );
    assert_eq!(
        gate().authorize("alice ", Some("pw1"), DbPrivilege::CanRead),
        Err(AuthError::UserNotFound)
    );
    assert_eq!(
        gate().authorize("alic", Some("pw1"), DbPrivilege::CanRead),
        Err(AuthError::UserNotFound)
    );
    assert_eq!(
        gate().authorize("alice", Some("PW1"), DbPrivilege::CanRead),
        Err(AuthError::InvalidPassword)
    );
    assert_eq!(
        gate().authorize("alice", Some("pw12"), DbPrivilege::CanRead),
        Err(AuthError::InvalidPassword)
    );
}

#[test]
fn authorize_a_user_without_privileges_is_forbidden() {
    let gate = CredentialGate::new(vec![User::new("dave", "pw", vec![])]);
    assert_eq!(gate.authorize("dave", Some("pw"), DbPrivilege::CanRead), Err(AuthError::Forbidden));
}

#[test]
fn authorize_on_an_empty_table_is_user_not_found() {
    let gate = CredentialGate::new(vec![]);
    assert_eq!(gate.authorize("", Some(""), DbPrivilege::CanRead), Err(AuthError::UserNotFound));
}

#[test]
fn the_earlier_of_two_accounts_with_one_name_counts() {
    let gate = CredentialGate::new(vec![
        User::new("eve", "first", vec![DbPrivilege::CanRead]),
        User::new("eve", "second", vec![DbPrivilege::CanWrite]),
    ]);
    assert_eq!(
        gate.authorize("eve", Some("first"), DbPrivilege::CanRead),
        Ok(vec![DbPrivilege::CanRead])
    );
    assert_eq!(
        gate.authorize("eve", Some("second"), DbPrivilege::CanWrite),
        Err(AuthError::InvalidPassword)
    );
}

#[test]
fn get_user_by_username_finds_the_account() {
    let gate = gate();
    assert_eq!(
        gate.get_user_by_username("bob"),
        Some(&User::new("bob", "pw2", vec![DbPrivilege::CanRead, DbPrivilege::CanWrite]))
    );
    assert_eq!(gate.get_user_by_username("carol"), None);
}

#[test]
fn names_beyond_ascii_are_compared_character_by_character() {
    let gate = CredentialGate::new(vec![User::new("zoë", "pässword", vec![DbPrivilege::CanRead])]);
    assert_eq!(
        gate.authorize("zoë", Some("pässword"), DbPrivilege::CanRead),
        Ok(vec![DbPrivilege::CanRead])
    );
    assert_eq!(
        gate.authorize("zoe", Some("pässword"), DbPrivilege::CanRead),
        Err(AuthError::UserNotFound)
    );
    assert_eq!(
        gate.authorize("zoë", Some("password"), DbPrivilege::CanRead),
        Err(AuthError::InvalidPassword)
    );
}

#[test]
fn messages_of_the_errors() {
    assert_eq!(AuthError::UserNotFound.message(), "User not found");
    assert_eq!(AuthError::InvalidPassword.message(), "Invalid password");
    assert_eq!(AuthError::Forbidden.message(), "Forbidden");
}
