//! What each request does, from the state and the request's plain values to
//! the new state and the content of the reply. Checking the credentials
//! always comes first; a request that is not authorized changes nothing.
//! Turning a reply into markup, and a connection into a request, is left to
//! the caller.

use vstd::prelude::*;
use vstd::string::StringExecFns;
use crate::auth::{authorization, AuthError, CredentialGate};
use crate::fake_db::{
    has_id, name_contains, next_id, record_with_id, with_name, without_each, FakeDb,
};
use crate::person::{Person, PersonView};
use crate::store_laws::lemma_empty_partial_matches_all;
use crate::text::{
    chars_of, decimal_digits, parse_number, parse_u32, parsed_u32, push_decimal,
    split_terminator, split_terminator_chars,
};
use crate::user::{holds, DbPrivilege};

verus! {

/// Everything the requests work on: the person store and the account table.
pub struct AppState {
    pub db: FakeDb,
    pub gate: CredentialGate,
}

/// The name and the password that a request presents.
pub struct Credentials {
    pub user_id: String,
    pub password: Option<String>,
}

/// Query parameters to filter persons.
pub struct Filter {
    pub partial_name: Option<String>,
}

/// Query parameters of a removal: ids in decimal, each followed by a comma;
/// the comma after the last one may be left out.
pub struct ToDelete {
    pub id_list: Option<String>,
}

/// Query parameters of an insert.
pub struct ToInsert {
    pub name: Option<String>,
}

/// Query parameters of an update.
pub struct ToUpdate {
    pub id: Option<u32>,
    pub name: Option<String>,
}

/// The content of the page that lists persons.
#[derive(Debug, PartialEq, Eq)]
pub struct PersonsPage {
    pub id_error: String,
    pub partial_name: String,
    pub persons: Vec<Person>,
}

/// A persons page, mathematically.
pub struct PersonsPageView {
    pub id_error: Seq<char>,
    pub partial_name: Seq<char>,
    pub persons: Seq<PersonView>,
}

impl View for PersonsPage {
    type V = PersonsPageView;

    open spec fn view(&self) -> PersonsPageView {
        PersonsPageView {
            id_error: self.id_error@,
            partial_name: self.partial_name@,
            persons: self.persons.deep_view(),
        }
    }
}

/// The content of the form for one person: empty to insert one, filled in
/// to edit one.
#[derive(Debug, PartialEq, Eq)]
pub struct PersonForm {
    pub can_write: bool,
    pub person_id: Option<u32>,
    pub person_name: String,
    pub inserting: bool,
}

/// A person form, mathematically.
pub struct PersonFormView {
    pub can_write: bool,
    pub person_id: Option<u32>,
    pub person_name: Seq<char>,
    pub inserting: bool,
}

impl View for PersonForm {
    type V = PersonFormView;

    open spec fn view(&self) -> PersonFormView {
        PersonFormView {
            can_write: self.can_write,
            person_id: self.person_id,
            person_name: self.person_name@,
            inserting: self.inserting,
        }
    }
}

/// The reply to a request for the edit form.
#[derive(Debug, PartialEq, Eq)]
pub enum EditReply {
    /// The form, filled in with the person.
    Form(PersonForm),
    /// The list of persons, with a message that names the id asked for.
    NotFound(PersonsPage),
}

/// A reply to a request for the edit form, mathematically.
pub enum EditReplyView {
    Form(PersonFormView),
    NotFound(PersonsPageView),
}

impl View for EditReply {
    type V = EditReplyView;

    open spec fn view(&self) -> EditReplyView {
        match self {
            EditReply::Form(form) => EditReplyView::Form(form@),
            EditReply::NotFound(page) => EditReplyView::NotFound(page@),
        }
    }
}

/// The reply to a removal.
#[derive(Clone, Copy, PartialEq, Eq, Structural, Debug)]
pub enum DeleteReply {
    /// How many records were removed.
    Deleted(usize),
    /// Some piece of the id list is not an id. Nothing was removed.
    Malformed,
}

/// The reply to an update.
#[derive(Clone, Copy, PartialEq, Eq, Structural, Debug)]
pub enum UpdateReply {
    /// The update ran. The number is the id, or 0 when no record carries it.
    Created(u32),
    /// The id or the name was missing. Nothing was changed.
    NotModified,
}

/// The text of a parameter that may be absent; absent counts as empty.
pub open spec fn text_of(field: Option<String>) -> Seq<char> {
    match field {
        Some(text) => text@,
        None => Seq::<char>::empty(),
    }
}

/// What the account table says to these credentials.
pub open spec fn allowed(state: &AppState, auth: &Credentials, required: DbPrivilege) -> Result<
    Seq<DbPrivilege>,
    AuthError,
> {
    authorization(state.gate@, auth.user_id@, auth.password.deep_view(), required)
}

/// The ids that an id list names, if every piece of it is an id.
pub open spec fn parsed_id_list(text: Seq<char>) -> Option<Seq<u32>> {
    let pieces = split_terminator(text, ',');
    if forall|i: int| 0 <= i < pieces.len() ==> (#[trigger] parsed_u32(pieces[i])) is Some {
        Some(Seq::new(pieces.len(), |i: int| parsed_u32(pieces[i])->0))
    } else {
        None
    }
}

/// The persons page for a filter text.
pub open spec fn persons_page(db: Seq<PersonView>, partial: Seq<char>) -> PersonsPageView {
    PersonsPageView {
        id_error: Seq::<char>::empty(),
        partial_name: partial,
        persons: db.filter(name_contains(partial)),
    }
}

/// The persons page with a message and every person.
pub open spec fn error_page(db: Seq<PersonView>, message: Seq<char>) -> PersonsPageView {
    PersonsPageView { id_error: message, partial_name: Seq::<char>::empty(), persons: db }
}

/// The message for an id that names no person.
pub open spec fn not_found_text(id: Seq<char>) -> Seq<char> {
    "No person with id: "@ + id + " found"@
}

/// The empty form.
pub open spec fn new_person_form(privileges: Seq<DbPrivilege>) -> PersonFormView {
    PersonFormView {
        can_write: privileges.contains(DbPrivilege::CanWrite),
        person_id: None,
        person_name: Seq::<char>::empty(),
        inserting: true,
    }
}

/// The reply to a request for the edit form of the person that `path_id`
/// names. An id is read as a decimal number; a message about an id that was
/// read shows it without sign or leading zeros, one about text that is no id
/// shows the text as it came.
pub open spec fn edit_reply(
    db: Seq<PersonView>,
    privileges: Seq<DbPrivilege>,
    path_id: Seq<char>,
) -> EditReplyView {
    match parsed_u32(path_id) {
        Some(id) => match record_with_id(db, id) {
            Some(person) => EditReplyView::Form(
                PersonFormView {
                    can_write: privileges.contains(DbPrivilege::CanWrite),
                    person_id: Some(id),
                    person_name: person.name,
                    inserting: false,
                },
            ),
            None => EditReplyView::NotFound(
                error_page(db, not_found_text(decimal_digits(id as nat))),
            ),
        },
        None => EditReplyView::NotFound(error_page(db, not_found_text(path_id))),
    }
}

impl Credentials {
    /// Credentials with copies of the given name and password.
    pub fn new(user_id: &str, password: Option<&str>) -> (auth: Credentials)
        ensures
            auth.user_id@ == user_id@,
            auth.password.deep_view() == (match password {
                Some(p) => Some(p@),
                None => None,
            }),
    {
        let password = match password {
            Some(p) => Some(p.to_owned()),
            None => None,
        };
        Credentials { user_id: user_id.to_owned(), password }
    }
}

/// Reads an id list: the pieces that a comma ends, each an unsigned 32-bit
/// number in decimal notation. One piece that is no such number makes the
/// whole list unreadable.
pub fn parse_id_list(text: &str) -> (ids: Option<Vec<u32>>)
    ensures
        match ids {
            Some(ids) => parsed_id_list(text@) == Some(ids@),
            None => parsed_id_list(text@) is None,
        },
{
    let chars = chars_of(text);
    let pieces = split_terminator_chars(&chars, ',');
    let ghost wanted = split_terminator(text@, ',');
    let mut ids: Vec<u32> = Vec::new();
    let mut i: usize = 0;
    while i < pieces.len()
        invariant
            i <= pieces.len(),
            pieces.deep_view() == wanted,
            wanted == split_terminator(text@, ','),
            ids@.len() == i,
            forall|j: int| 0 <= j < i ==> parsed_u32(#[trigger] wanted[j]) == Some(ids@[j]),
        decreases pieces.len() - i,
    {
        assert(pieces[i as int].deep_view() =~= pieces[i as int]@);
        assert(wanted[i as int] == pieces[i as int]@);
        match parse_number(&pieces[i]) {
            Some(id) => {
                ids.push(id);
            },
            None => {
                assert(parsed_u32(wanted[i as int]) is None);
                return None;
            },
        }
        i += 1;
    }
    assert(ids@ =~= Seq::new(wanted.len(), |i: int| parsed_u32(wanted[i])->0));
    Some(ids)
}

/// Checks the credentials of a request against the account table.
pub fn authorize(auth: &Credentials, state: &AppState, required: DbPrivilege) -> (decision: Result<
    Vec<DbPrivilege>,
    AuthError,
>)
    ensures
        match decision {
            Ok(privileges) => allowed(state, auth, required) == Ok::<Seq<DbPrivilege>, AuthError>(
                privileges@,
            ),
            Err(reason) => allowed(state, auth, required) == Err::<Seq<DbPrivilege>, AuthError>(
                reason,
            ),
        },
{
    let password = match &auth.password {
        Some(p) => Some(p.as_str()),
        None => None,
    };
    state.gate.authorize(auth.user_id.as_str(), password, required)
}

/// The persons page with `error_message` and every person.
pub fn respond_with_error(error_message: &str, state: &AppState) -> (page: PersonsPage)
    ensures
        page@ == error_page(state.db@, error_message@),
{
    PersonsPage {
        id_error: error_message.to_owned(),
        partial_name: String::new(),
        persons: state.db.get_all_persons(),
    }
}

/// Lists the persons whose name contains the filter text; with no filter
/// text, or an empty one, all of them. Needs the privilege to read.
pub fn get_page_persons(query: &Filter, auth: &Credentials, state: &AppState) -> (reply: Result<
    PersonsPage,
    AuthError,
>)
    ensures
        match allowed(state, auth, DbPrivilege::CanRead) {
            Ok(_) => reply matches Ok(page) && page@ == persons_page(
                state.db@,
                text_of(query.partial_name),
            ),
            Err(reason) => reply matches Err(given) && given == reason,
        },
{
    match authorize(auth, state, DbPrivilege::CanRead) {
        Ok(_) => {
            let partial_name = match &query.partial_name {
                Some(text) => text.clone(),
                None => String::new(),
            };
            let persons = if partial_name.as_str().is_empty() {
                proof {
                    assert(partial_name@ =~= Seq::<char>::empty());
                    lemma_empty_partial_matches_all(state.db@);
                }
                state.db.get_all_persons()
            } else {
                copy_persons(&state.db.get_persons_by_name(partial_name.as_str()))
            };
            Ok(PersonsPage { id_error: String::new(), partial_name, persons })
        },
        Err(reason) => Err(reason),
    }
}

/// Owned copies of borrowed records.
fn copy_persons(found: &Vec<&Person>) -> (copies: Vec<Person>)
    ensures
        copies.deep_view() == found.deep_view(),
{
    let mut copies: Vec<Person> = Vec::new();
    let mut i: usize = 0;
    while i < found.len()
        invariant
            i <= found.len(),
            copies.deep_view() == found.deep_view().take(i as int),
        decreases found.len() - i,
    {
        let ghost before = copies.deep_view();
        let copy = found[i].clone();
        copies.push(copy);
        i += 1;
        assert(copies.deep_view() =~= before.push(copy@));
        assert(found.deep_view().take(i as int) =~= before.push(copy@));
    }
    assert(found.deep_view().take(found.len() as int) =~= found.deep_view());
    copies
}

/// Removes the persons that the id list names, as one operation, and
/// replies with the number of records removed. A list with a piece that is
/// no id is turned down as a whole: nothing is removed. Needs the privilege
/// to write.
pub fn delete_persons(query: &ToDelete, state: &mut AppState, auth: &Credentials) -> (reply: Result<
    DeleteReply,
    AuthError,
>)
    ensures
        final(state).gate@ == old(state).gate@,
        match allowed(old(state), auth, DbPrivilege::CanWrite) {
            Ok(_) => match parsed_id_list(text_of(query.id_list)) {
                Some(ids) => {
                    &&& final(state).db@ == without_each(old(state).db@, ids)
                    &&& reply == Ok::<DeleteReply, AuthError>(
                        DeleteReply::Deleted(
                            (old(state).db@.len() - final(state).db@.len()) as usize,
                        ),
                    )
                },
                None => {
                    &&& final(state).db@ == old(state).db@
                    &&& reply == Ok::<DeleteReply, AuthError>(DeleteReply::Malformed)
                },
            },
            Err(reason) => {
                &&& final(state).db@ == old(state).db@
                &&& reply == Err::<DeleteReply, AuthError>(reason)
            },
        },
{
    match authorize(auth, state, DbPrivilege::CanWrite) {
        Ok(_) => {
            let parsed = match &query.id_list {
                Some(text) => parse_id_list(text.as_str()),
                None => parse_id_list(""),
            };
            proof {
                reveal_strlit("");
                assert(""@ =~= Seq::<char>::empty());
            }
            match parsed {
                Some(ids) => {
                    let removed = state.db.delete_many(&ids);
                    Ok(DeleteReply::Deleted(removed))
                },
                None => Ok(DeleteReply::Malformed),
            }
        },
        Err(reason) => Err(reason),
    }
}

/// The empty form for a new person. Needs the privilege to write.
pub fn get_page_new_person(auth: &Credentials, state: &AppState) -> (reply: Result<
    PersonForm,
    AuthError,
>)
    ensures
        match allowed(state, auth, DbPrivilege::CanWrite) {
            Ok(privileges) => reply matches Ok(form) && form@ == new_person_form(privileges),
            Err(reason) => reply matches Err(given) && given == reason,
        },
{
    match authorize(auth, state, DbPrivilege::CanWrite) {
        Ok(privileges) => Ok(
            PersonForm {
                can_write: holds(&privileges, DbPrivilege::CanWrite),
                person_id: None,
                person_name: String::new(),
                inserting: true,
            },
        ),
        Err(reason) => Err(reason),
    }
}

/// The message for an id, read as a number, that names no person.
fn not_found_message(id: u32) -> (message: String)
    ensures
        message@ == not_found_text(decimal_digits(id as nat)),
{
    let mut message = "No person with id: ".to_owned();
    push_decimal(&mut message, id);
    message.append(" found");
    message
}

/// The message for text that is no id.
fn no_such_id_message(text: &str) -> (message: String)
    ensures
        message@ == not_found_text(text@),
{
    let mut message = "No person with id: ".to_owned();
    message.append(text);
    message.append(" found");
    message
}

/// The edit form for the person that `path_id` names, or the list of
/// persons with a message when it names none. Needs the privilege to write.
pub fn get_page_edit_person(state: &AppState, path_id: &str, auth: &Credentials) -> (reply: Result<
    EditReply,
    AuthError,
>)
    ensures
        match allowed(state, auth, DbPrivilege::CanWrite) {
            Ok(privileges) => reply matches Ok(page) && page@ == edit_reply(
                state.db@,
                privileges,
                path_id@,
            ),
            Err(reason) => reply matches Err(given) && given == reason,
        },
{
    match authorize(auth, state, DbPrivilege::CanWrite) {
        Ok(privileges) => {
            let can_write = holds(&privileges, DbPrivilege::CanWrite);
            match parse_u32(path_id) {
                Some(id) => match state.db.get_person_by_id(id) {
                    Some(person) => Ok(
                        EditReply::Form(
                            PersonForm {
                                can_write,
                                person_id: Some(id),
                                person_name: person.name,
                                inserting: false,
                            },
                        ),
                    ),
                    None => Ok(
                        EditReply::NotFound(
                            respond_with_error(not_found_message(id).as_str(), state),
                        ),
                    ),
                },
                None => Ok(
                    EditReply::NotFound(
                        respond_with_error(no_such_id_message(path_id).as_str(), state),
                    ),
                ),
            }
        },
        Err(reason) => Err(reason),
    }
}

/// Inserts a person with the given name and replies with the number of
/// records inserted: 1, or 0 when no name came with the request. Needs the
/// privilege to write.
pub fn create_person(state: &mut AppState, query: &ToInsert, auth: &Credentials) -> (reply: Result<
    u32,
    AuthError,
>)
    ensures
        final(state).gate@ == old(state).gate@,
        match allowed(old(state), auth, DbPrivilege::CanWrite) {
            Ok(_) => match query.name {
                Some(name) => {
                    &&& final(state).db@ == old(state).db@.push(
                        PersonView { id: next_id(old(state).db@.len()), name: name@ },
                    )
                    &&& reply == Ok::<u32, AuthError>(1)
                },
                None => {
                    &&& final(state).db@ == old(state).db@
                    &&& reply == Ok::<u32, AuthError>(0)
                },
            },
            Err(reason) => {
                &&& final(state).db@ == old(state).db@
                &&& reply == Err::<u32, AuthError>(reason)
            },
        },
{
    match authorize(auth, state, DbPrivilege::CanWrite) {
        Ok(_) => {
            let mut inserted: u32 = 0;
            if let Some(name) = &query.name {
                state.db.insert(name.as_str());
                inserted += 1;
            }
            Ok(inserted)
        },
        Err(reason) => Err(reason),
    }
}

/// Gives the person with the given id the given name. Without an id or
/// without a name nothing is changed. Needs the privilege to write.
pub fn update_person(state: &mut AppState, query: &ToUpdate, auth: &Credentials) -> (reply: Result<
    UpdateReply,
    AuthError,
>)
    ensures
        final(state).gate@ == old(state).gate@,
        match allowed(old(state), auth, DbPrivilege::CanWrite) {
            Ok(_) => match (query.id, query.name) {
                (Some(id), Some(name)) => {
                    &&& final(state).db@ == with_name(old(state).db@, id, name@)
                    &&& reply == Ok::<UpdateReply, AuthError>(
                        UpdateReply::Created(if has_id(old(state).db@, id) { id } else { 0 }),
                    )
                },
                _ => {
                    &&& final(state).db@ == old(state).db@
                    &&& reply == Ok::<UpdateReply, AuthError>(UpdateReply::NotModified)
                },
            },
            Err(reason) => {
                &&& final(state).db@ == old(state).db@
                &&& reply == Err::<UpdateReply, AuthError>(reason)
            },
        },
{
    match authorize(auth, state, DbPrivilege::CanWrite) {
        Ok(_) => {
            match (&query.id, &query.name) {
                (Some(id), Some(name)) => {
                    let updated = state.db.update(*id, name.as_str());
                    Ok(UpdateReply::Created(updated))
                },
                _ => Ok(UpdateReply::NotModified),
            }
        },
        Err(reason) => Err(reason),
    }
}

} // verus!
