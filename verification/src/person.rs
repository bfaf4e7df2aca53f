//! The person record.

use vstd::prelude::*;

verus! {

/// What a person record is, mathematically: its id and the characters of its name.
pub struct PersonView {
    pub id: u32,
    pub name: Seq<char>,
}

/// A stored person. The id is handed out by the store; the name is free text.
#[derive(Debug, PartialEq, Eq)]
pub struct Person {
    pub id: u32,
    pub name: String,
}

impl View for Person {
    type V = PersonView;

    open spec fn view(&self) -> PersonView {
        PersonView { id: self.id, name: self.name@ }
    }
}

impl DeepView for Person {
    type V = PersonView;

    open spec fn deep_view(&self) -> PersonView {
        self@
    }
}

impl Person {
    /// A record with the given id and a copy of `name`.
    pub fn new(id: u32, name: &str) -> (person: Person)
        ensures
            person@ == (PersonView { id, name: name@ }),
    {
        Person { id, name: name.to_owned() }
    }
}

impl Clone for Person {
    fn clone(&self) -> (copy: Person)
        ensures
            copy == *self,
    {
        Person { id: self.id, name: self.name.clone() }
    }
}

} // verus!
