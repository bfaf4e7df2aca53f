use person_registry::fake_db::FakeDb;
use person_registry::person::Person;

fn names(persons: &Vec<Person>) -> Vec<(u32, String)> {
    persons.iter().map(|p| (p.id, p.name.clone())).collect()
}

fn pairs(list: &[(u32, &str)]) -> Vec<(u32, String)> {
    list.iter().map(|(id, name)| (*id, name.to_string())).collect()
}

#[test]
fn new_store_holds_the_four_initial_persons_in_order() {
    let db = FakeDb::new();
    assert_eq!(
        names(&db.get_all_persons()),
        pairs(&[(1, "Esteban"), (2, "June"), (3, "Carlos"), (4, "Ana")])
    );
}

#[test]
fn get_all_persons_hands_out_a_copy() {
    let db = FakeDb::new();
    let mut all = db.get_all_persons();
    all[0].name = String::from("Changed");
    all.pop();
    assert_eq!(db.get_all_persons().len(), 4);
    assert_eq!(db.get_all_persons()[0].name, "Esteban");
}

#[test]
fn get_person_by_id_finds_the_record() {
    let db = FakeDb::new();
    assert_eq!(db.get_person_by_id(3), Some(Person::new(3, "Carlos")));
    assert_eq!(db.get_person_by_id(1), Some(Person::new(1, "Esteban")));
}

#[test]
fn get_person_by_id_of_an_absent_id_is_none() {
    let db = FakeDb::new();
    assert_eq!(db.get_person_by_id(0), None);
    assert_eq!(db.get_person_by_id(5), None);
    assert_eq!(db.get_person_by_id(u32::MAX), None);
}

#[test]
fn delete_removes_the_record_and_keeps_the_order() {
    let mut db = FakeDb::new();
    assert!(db.delete(2));
    assert_eq!(
        names(&db.get_all_persons()),
        pairs(&[(1, "Esteban"), (3, "Carlos"), (4, "Ana")])
    );
}

#[test]
fn delete_then_find_is_not_found_and_second_delete_is_false() {
    let mut db = FakeDb::new();
    assert!(db.delete(3));
    assert_eq!(db.get_person_by_id(3), None);
    assert!(!db.delete(3));
    assert!(!db.delete(3));
    assert_eq!(db.get_all_persons().len(), 3);
}

#[test]
fn delete_of_an_absent_id_changes_nothing() {
    let mut db = FakeDb::new();
    assert!(!db.delete(9));
    assert_eq!(db.get_all_persons(), FakeDb::new().get_all_persons());
}

#[test]
fn delete_first_and_last() {
    let mut db = FakeDb::new();
    assert!(db.delete(1));
    assert!(db.delete(4));
    assert_eq!(names(&db.get_all_persons()), pairs(&[(2, "June"), (3, "Carlos")]));
}

#[test]
fn insert_assigns_count_plus_one_and_appends() {
    let mut db = FakeDb::new();
    assert_eq!(db.insert("Lee"), 5);
    assert_eq!(db.insert("Mia"), 6);
    assert_eq!(
        names(&db.get_all_persons()),
        pairs(&[(1, "Esteban"), (2, "June"), (3, "Carlos"), (4, "Ana"), (5, "Lee"), (6, "Mia")])
    );
}

#[test]
fn insert_in_a_growing_session_is_retrievable_by_its_new_id() {
    let mut db = FakeDb::new();
    assert_eq!(db.get_person_by_id(5), None);
    let id = db.insert("X");
    assert_eq!(id, 5);
    assert_eq!(db.get_person_by_id(id), Some(Person::new(5, "X")));
    db.update(2, "Juno");
    assert_eq!(db.get_person_by_id(6), None);
    let next = db.insert("Y");
    assert_eq!(next, 6);
    assert_eq!(db.get_person_by_id(next), Some(Person::new(6, "Y")));
}

#[test]
fn insert_after_delete_reuses_an_id_in_use() {
    let mut db = FakeDb::new();
    assert!(db.delete(2));
    assert_eq!(db.insert("Lee"), 4);
    assert_eq!(
        names(&db.get_all_persons()),
        pairs(&[(1, "Esteban"), (3, "Carlos"), (4, "Ana"), (4, "Lee")])
    );
    // A lookup means the first record with the id.
    assert_eq!(db.get_person_by_id(4), Some(Person::new(4, "Ana")));
}

#[test]
fn delete_of_an_id_carried_twice_removes_only_the_first() {
    let mut db = FakeDb::new();
    db.delete(2);
    db.insert("Lee");
    assert!(db.delete(4));
    assert_eq!(db.get_person_by_id(4), Some(Person::new(4, "Lee")));
    assert!(db.delete(4));
    assert_eq!(db.get_person_by_id(4), None);
    assert!(!db.delete(4));
}

#[test]
fn insert_into_an_emptied_store_starts_at_one() {
    let mut db = FakeDb::new();
    for id in 1..=4 {
        assert!(db.delete(id));
    }
    assert_eq!(db.get_all_persons().len(), 0);
    assert_eq!(db.insert("Solo"), 1);
    assert_eq!(db.get_all_persons(), vec![Person::new(1, "Solo")]);
}

#[test]
fn insert_accepts_an_empty_name() {
    let mut db = FakeDb::new();
    assert_eq!(db.insert(""), 5);
    assert_eq!(db.get_person_by_id(5), Some(Person::new(5, "")));
}

#[test]
fn update_replaces_the_name_in_place_and_returns_the_id() {
    let mut db = FakeDb::new();
    assert_eq!(db.update(2, "NewName"), 2);
    assert_eq!(db.get_person_by_id(2).map(|p| p.name), Some(String::from("NewName")));
    assert_eq!(
        names(&db.get_all_persons()),
        pairs(&[(1, "Esteban"), (2, "NewName"), (3, "Carlos"), (4, "Ana")])
    );
}

#[test]
fn update_of_an_absent_id_returns_zero_and_changes_nothing() {
    let mut db = FakeDb::new();
    assert_eq!(db.update(7, "Nobody"), 0);
    assert_eq!(db.update(0, "Nobody"), 0);
    assert_eq!(db.get_all_persons(), FakeDb::new().get_all_persons());
}

#[test]
fn update_of_an_id_carried_twice_changes_only_the_first() {
    let mut db = FakeDb::new();
    db.delete(2);
    db.insert("Lee");
    assert_eq!(db.update(4, "Anna"), 4);
    assert_eq!(
        names(&db.get_all_persons()),
        pairs(&[(1, "Esteban"), (3, "Carlos"), (4, "Anna"), (4, "Lee")])
    );
}

#[test]
fn ids_stay_unique_over_updates_deletes_and_fresh_inserts() {
    let mut db = FakeDb::new();
    db.insert("Lee");
    db.update(3, "Carl");
    db.delete(5);
    db.insert("Mia");
    db.delete(1);
    db.update(1, "Gone");
    let mut ids: Vec<u32> = db.get_all_persons().iter().map(|p| p.id).collect();
    let count = ids.len();
    ids.sort();
    ids.dedup();
    assert_eq!(ids.len(), count);
    assert_eq!(ids, vec![2, 3, 4, 5]);
}

#[test]
fn filter_returns_exactly_the_matching_subset() {
    let db = FakeDb::new();
    let found: Vec<Person> = db.get_persons_by_name("a").into_iter().cloned().collect();
    let expected: Vec<Person> =
        db.get_all_persons().into_iter().filter(|p| p.name.contains("a")).collect();
    assert_eq!(found, expected);
    assert_eq!(names(&found), pairs(&[(1, "Esteban"), (3, "Carlos"), (4, "Ana")]));
}

#[test]
fn filter_with_the_empty_string_returns_all() {
    let db = FakeDb::new();
    let found: Vec<Person> = db.get_persons_by_name("").into_iter().cloned().collect();
    assert_eq!(found, db.get_all_persons());
}

#[test]
fn filter_is_case_sensitive() {
    let db = FakeDb::new();
    assert_eq!(db.get_persons_by_name("ana").len(), 0);
    let found = db.get_persons_by_name("Ana");
    assert_eq!(found.len(), 1);
    assert_eq!(found[0].id, 4);
    assert_eq!(db.get_persons_by_name("E").len(), 1);
    assert_eq!(db.get_persons_by_name("e").len(), 2);
}

#[test]
fn filter_matches_whole_names_and_nothing_longer() {
    let db = FakeDb::new();
    assert_eq!(db.get_persons_by_name("June").len(), 1);
    assert_eq!(db.get_persons_by_name("Junes").len(), 0);
    assert_eq!(db.get_persons_by_name("zz").len(), 0);
}

#[test]
fn filter_works_on_names_beyond_ascii() {
    let mut db = FakeDb::new();
    db.insert("Zoë Ð");
    let found = db.get_persons_by_name("ë ");
    assert_eq!(found.len(), 1);
    assert_eq!(found[0].name, "Zoë Ð");
    assert_eq!(db.get_persons_by_name("ö").len(), 0);
}

#[test]
fn delete_many_removes_each_id_in_turn_and_counts() {
    let mut db = FakeDb::new();
    assert_eq!(db.delete_many(&vec![2, 9, 2, 4]), 2);
    assert_eq!(names(&db.get_all_persons()), pairs(&[(1, "Esteban"), (3, "Carlos")]));
    assert_eq!(db.delete_many(&vec![]), 0);
    assert_eq!(db.get_all_persons().len(), 2);
}

#[test]
fn end_to_end_scenario() {
    let mut db = FakeDb::new();
    assert_eq!(
        names(&db.get_all_persons()),
        pairs(&[(1, "Esteban"), (2, "June"), (3, "Carlos"), (4, "Ana")])
    );
    assert!(db.delete(2));
    assert_eq!(
        names(&db.get_all_persons()),
        pairs(&[(1, "Esteban"), (3, "Carlos"), (4, "Ana")])
    );
    // The id is the count of records after the insert: three records, so 4.
    assert_eq!(db.insert("Lee"), 4);
    assert_eq!(db.get_all_persons().last(), Some(&Person::new(4, "Lee")));
    let found = db.get_persons_by_name("ar");
    assert_eq!(found.len(), 1);
    assert_eq!(found[0], &Person::new(3, "Carlos"));
}
