//! An in-memory registry of persons behind a basic-auth privilege gate.
//!
//! - [`fake_db`] is the person store: a sequence of records with lookup,
//!   insert, update and removal by linear scan.
//! - [`auth`] is the table of accounts and the decision whether a name and
//!   password may use a privilege; [`user`] holds the accounts themselves.
//! - [`handlers`] says what each request does to the store and what it
//!   replies with.
//! - [`text`] holds the string operations the others are built on.
//! - [`store_laws`] and [`text_laws`] state and prove what holds of the
//!   store and of the string operations in general.
//!
//! Every public function is total: none has a precondition, and "not found" comes
//! back as a value.

pub mod auth;
pub mod fake_db;
pub mod handlers;
pub mod person;
pub mod store_laws;
pub mod text;
pub mod text_laws;
pub mod user;
