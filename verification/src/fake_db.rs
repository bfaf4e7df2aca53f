//! The in-memory person store.
//!
//! The store is a sequence of records in insertion order. Every operation is
//! a linear scan, and every lookup by id means the first record with that id.

use vstd::prelude::*;
use crate::person::{Person, PersonView};
use crate::text::{chars_of, contains_chars, occurs_in};

verus! {

/// Some record of `s` carries `id`.
pub open spec fn has_id(s: Seq<PersonView>, id: u32) -> bool {
    exists|i: int| 0 <= i < s.len() && (#[trigger] s[i]).id == id
}

/// `i` is the position of the first record of `s` that carries `id`.
pub open spec fn is_first_with_id(s: Seq<PersonView>, id: u32, i: int) -> bool {
    &&& 0 <= i < s.len()
    &&& s[i].id == id
    &&& forall|j: int| 0 <= j < i ==> (#[trigger] s[j]).id != id
}

/// The position of the first record that carries `id`, if there is one.
pub open spec fn position_of(s: Seq<PersonView>, id: u32) -> Option<int>
    decreases s.len(),
{
    if s.len() == 0 {
        None
    } else if s.first().id == id {
        Some(0)
    } else {
        match position_of(s.drop_first(), id) {
            Some(i) => Some(i + 1),
            None => None,
        }
    }
}

/// The first record that carries `id`, if there is one.
pub open spec fn record_with_id(s: Seq<PersonView>, id: u32) -> Option<PersonView> {
    match position_of(s, id) {
        Some(i) => Some(s[i]),
        None => None,
    }
}

/// `s` without its first record that carries `id`; the others keep their order.
pub open spec fn without_first(s: Seq<PersonView>, id: u32) -> Seq<PersonView> {
    match position_of(s, id) {
        Some(i) => s.remove(i),
        None => s,
    }
}

/// `s` with the name of its first record that carries `id` replaced, in place.
pub open spec fn with_name(s: Seq<PersonView>, id: u32, name: Seq<char>) -> Seq<PersonView> {
    match position_of(s, id) {
        Some(i) => s.update(i, PersonView { id, name }),
        None => s,
    }
}

/// `s` after one removal for each id of `ids`, in the order of `ids`.
pub open spec fn without_each(s: Seq<PersonView>, ids: Seq<u32>) -> Seq<PersonView>
    decreases ids.len(),
{
    if ids.len() == 0 {
        s
    } else {
        without_first(without_each(s, ids.drop_last()), ids.last())
    }
}

/// The id that an insert assigns when the store holds `count` records: one
/// more than the count, reduced to the 32 bits of an id. The count is not a
/// running counter, so after a removal the next id may already be in use.
pub open spec fn next_id(count: nat) -> u32 {
    ((count + 1) % 0x1_0000_0000) as u32
}

/// No two records of `s` carry the same id.
pub open spec fn ids_unique(s: Seq<PersonView>) -> bool {
    forall|i: int, j: int| 0 <= i < j < s.len() ==> (#[trigger] s[i]).id != (#[trigger] s[j]).id
}

/// The test that the name filter applies to each record.
pub open spec fn name_contains(partial: Seq<char>) -> spec_fn(PersonView) -> bool {
    |p: PersonView| occurs_in(partial, p.name)
}

/// The records a new store starts with.
pub open spec fn initial_persons() -> Seq<PersonView> {
    seq![
        PersonView { id: 1, name: "Esteban"@ },
        PersonView { id: 2, name: "June"@ },
        PersonView { id: 3, name: "Carlos"@ },
        PersonView { id: 4, name: "Ana"@ },
    ]
}

/// `position_of` finds the first record with the id, and finds one whenever
/// there is one.
pub proof fn lemma_position_of(s: Seq<PersonView>, id: u32)
    ensures
        match position_of(s, id) {
            Some(i) => is_first_with_id(s, id, i),
            None => !has_id(s, id),
        },
    decreases s.len(),
{
    if s.len() > 0 && s.first().id != id {
        let rest = s.drop_first();
        lemma_position_of(rest, id);
        match position_of(rest, id) {
            Some(i) => {
                assert forall|j: int| 0 <= j < i + 1 implies (#[trigger] s[j]).id != id by {
                    if j > 0 {
                        assert(rest[j - 1] == s[j]);
                    }
                }
                assert(s[i + 1] == rest[i]);
            },
            None => {
                assert forall|j: int| 0 <= j < s.len() implies (#[trigger] s[j]).id != id by {
                    if j > 0 {
                        assert(rest[j - 1] == s[j]);
                    }
                }
            },
        }
    }
}

/// The first position with the id is the one `position_of` gives.
pub proof fn lemma_first_is_position(s: Seq<PersonView>, id: u32, i: int)
    requires
        is_first_with_id(s, id, i),
    ensures
        position_of(s, id) == Some(i),
{
    lemma_position_of(s, id);
    match position_of(s, id) {
        Some(k) => {
            if k < i {
                assert(s[k].id != id);
            } else if i < k {
                assert(s[i].id != id);
            }
        },
        None => {
            assert(s[i].id == id);
        },
    }
}

/// The person store: records in insertion order.
pub struct FakeDb {
    persons: Vec<Person>,
}

impl View for FakeDb {
    type V = Seq<PersonView>;

    closed spec fn view(&self) -> Seq<PersonView> {
        self.persons.deep_view()
    }
}

impl FakeDb {
    /// A store holding the four initial records.
    pub fn new() -> (db: FakeDb)
        ensures
            db@ == initial_persons(),
    {
        let mut persons: Vec<Person> = Vec::new();
        persons.push(Person::new(1, "Esteban"));
        persons.push(Person::new(2, "June"));
        persons.push(Person::new(3, "Carlos"));
        persons.push(Person::new(4, "Ana"));
        let db = FakeDb { persons };
        assert(db@ =~= initial_persons());
        db
    }

    /// The position of the first record that carries `id`.
    fn find_index(&self, id: u32) -> (at: Option<usize>)
        ensures
            match at {
                Some(i) => i < self@.len() && position_of(self@, id) == Some(i as int),
                None => position_of(self@, id) is None,
            },
    {
        let mut i: usize = 0;
        while i < self.persons.len()
            invariant
                i <= self.persons.len(),
                forall|j: int| 0 <= j < i ==> (#[trigger] self@[j]).id != id,
            decreases self.persons.len() - i,
        {
            if self.persons[i].id == id {
                proof {
                    lemma_first_is_position(self@, id, i as int);
                }
                return Some(i);
            }
            i += 1;
        }
        proof {
            lemma_position_of(self@, id);
        }
        None
    }

    /// A copy of every record, in storage order.
    pub fn get_all_persons(&self) -> (all: Vec<Person>)
        ensures
            all.deep_view() == self@,
    {
        let all = self.persons.clone();
        assert(all@ =~= self.persons@);
        all
    }

    /// The records whose name has `partial` as a substring, in storage order.
    /// The match is case-sensitive, and the empty string matches every record.
    /// The result borrows from the store.
    pub fn get_persons_by_name<'a>(&'a self, partial: &str) -> (found: Vec<&'a Person>)
        ensures
            found.deep_view() == self@.filter(name_contains(partial@)),
    {
        let wanted = chars_of(partial);
        let mut found: Vec<&'a Person> = Vec::new();
        let mut i: usize = 0;
        proof {
            reveal(Seq::filter);
            assert(self@.take(0) =~= Seq::<PersonView>::empty());
        }
        while i < self.persons.len()
            invariant
                i <= self.persons.len(),
                wanted@ == partial@,
                found.deep_view() == self@.take(i as int).filter(name_contains(partial@)),
            decreases self.persons.len() - i,
        {
            let person = &self.persons[i];
            let ghost before = found.deep_view();
            proof {
                reveal(Seq::filter);
                assert(self@.take(i + 1).drop_last() =~= self@.take(i as int));
            }
            if contains_chars(&chars_of(person.name.as_str()), &wanted) {
                found.push(person);
                assert(found.deep_view() =~= before.push(person@));
            }
            i += 1;
        }
        assert(self@.take(self.persons.len() as int) =~= self@);
        found
    }

    /// A copy of the first record that carries `id`, or `None` when no record does.
    pub fn get_person_by_id(&self, id: u32) -> (found: Option<Person>)
        ensures
            match found {
                Some(person) => record_with_id(self@, id) == Some(person@),
                None => record_with_id(self@, id) is None,
            },
    {
        match self.find_index(id) {
            Some(i) => Some(self.persons[i].clone()),
            None => None,
        }
    }

    /// Removes the first record that carries `id` and keeps the order of the
    /// others. Returns whether a record was removed.
    pub fn delete(&mut self, id: u32) -> (removed: bool)
        ensures
            removed == has_id(old(self)@, id),
            final(self)@ == without_first(old(self)@, id),
    {
        proof {
            lemma_position_of(self@, id);
        }
        match self.find_index(id) {
            Some(i) => {
                self.persons.remove(i);
                assert(self@ =~= old(self)@.remove(i as int));
                true
            },
            None => false,
        }
    }

    /// Removes, for each id of `ids` in turn, the first record that carries
    /// it, as one operation. Returns how many records were removed: an id
    /// that no record carries at its turn removes nothing.
    pub fn delete_many(&mut self, ids: &Vec<u32>) -> (removed: usize)
        ensures
            final(self)@ == without_each(old(self)@, ids@),
            removed == old(self)@.len() - final(self)@.len(),
    {
        let mut removed: usize = 0;
        let mut i: usize = 0;
        assert(ids@.take(0) =~= Seq::<u32>::empty());
        while i < ids.len()
            invariant
                i <= ids.len(),
                removed <= i,
                self@ == without_each(old(self)@, ids@.take(i as int)),
                removed == old(self)@.len() - self@.len(),
            decreases ids.len() - i,
        {
            let ghost before = self@;
            proof {
                lemma_position_of(before, ids@[i as int]);
                assert(ids@.take(i + 1).drop_last() =~= ids@.take(i as int));
                assert(ids@.take(i + 1).last() == ids@[i as int]);
            }
            if self.delete(ids[i]) {
                removed += 1;
            }
            i += 1;
        }
        assert(ids@.take(ids.len() as int) =~= ids@);
        removed
    }

    /// Appends a record with `name` and returns its id. The id is the number
    /// of records before the insert plus one, not a running counter: after a
    /// removal it can be an id that a record still carries.
    pub fn insert(&mut self, name: &str) -> (id: u32)
        ensures
            id == next_id(old(self)@.len()),
            final(self)@ == old(self)@.push(PersonView { id, name: name@ }),
    {
        let count: u64 = self.persons.len() as u64;
        let id: u32 = ((count % 0x1_0000_0000 + 1) % 0x1_0000_0000) as u32;
        self.persons.push(Person::new(id, name));
        assert(self@ =~= old(self)@.push(PersonView { id, name: name@ }));
        id
    }

    /// Replaces, in place, the first record that carries `id` by one with the
    /// same id and the new name. Returns `id`, or 0 when no record carries
    /// it; the store is then unchanged.
    pub fn update(&mut self, id: u32, name: &str) -> (updated: u32)
        ensures
            updated == if has_id(old(self)@, id) { id } else { 0 },
            final(self)@ == with_name(old(self)@, id, name@),
    {
        proof {
            lemma_position_of(self@, id);
        }
        match self.find_index(id) {
            Some(i) => {
                self.persons[i] = Person::new(id, name);
                assert(self@ =~= old(self)@.update(i as int, PersonView { id, name: name@ }));
                id
            },
            None => 0,
        }
    }
}

} // verus!
