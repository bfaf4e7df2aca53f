//! What holds of the person store whatever it contains: which operations keep
//! ids unique, what a lookup finds after a change, and what the name filter
//! lets through.

use vstd::prelude::*;
use crate::fake_db::{
    has_id, ids_unique, initial_persons, lemma_first_is_position, lemma_position_of, name_contains,
    next_id, position_of, record_with_id, with_name, without_first,
};
use crate::person::PersonView;
use crate::text::{occurs_at, occurs_in};

verus! {

/// A change to the store, as a value.
pub enum StoreOp {
    Insert { name: Seq<char> },
    Update { id: u32, name: Seq<char> },
    Delete { id: u32 },
}

/// The store after one change.
pub open spec fn after(s: Seq<PersonView>, op: StoreOp) -> Seq<PersonView> {
    match op {
        StoreOp::Insert { name } => s.push(PersonView { id: next_id(s.len()), name }),
        StoreOp::Update { id, name } => with_name(s, id, name),
        StoreOp::Delete { id } => without_first(s, id),
    }
}

/// The store after a run of changes, applied in order.
pub open spec fn after_all(s: Seq<PersonView>, ops: Seq<StoreOp>) -> Seq<PersonView>
    decreases ops.len(),
{
    if ops.len() == 0 {
        s
    } else {
        after(after_all(s, ops.drop_last()), ops.last())
    }
}

/// Every insert of the run was handed an id that no record carried at that
/// moment.
pub open spec fn inserts_are_fresh(s: Seq<PersonView>, ops: Seq<StoreOp>) -> bool {
    forall|k: int|
        0 <= k < ops.len() && (#[trigger] ops[k]) is Insert ==> !has_id(
            after_all(s, ops.take(k)),
            next_id(after_all(s, ops.take(k)).len()),
        )
}

/// No change of the run is a removal.
pub open spec fn no_deletes(ops: Seq<StoreOp>) -> bool {
    forall|k: int| 0 <= k < ops.len() ==> !((#[trigger] ops[k]) is Delete)
}

/// The ids are 1, 2, 3, ... in storage order, as in a store that has only
/// ever grown.
pub open spec fn ids_count_up(s: Seq<PersonView>) -> bool {
    forall|i: int| 0 <= i < s.len() ==> (#[trigger] s[i]).id == i + 1
}

/// Two different records of `s` carry `id`.
pub open spec fn carried_twice(s: Seq<PersonView>, id: u32) -> bool {
    exists|i: int, j: int|
        0 <= i < j < s.len() && (#[trigger] s[i]).id == id && (#[trigger] s[j]).id == id
}

/// Removing a record never makes two ids equal.
pub proof fn lemma_delete_keeps_ids_unique(s: Seq<PersonView>, id: u32)
    requires
        ids_unique(s),
    ensures
        ids_unique(without_first(s, id)),
{
    lemma_position_of(s, id);
    match position_of(s, id) {
        Some(at) => {
            let t = s.remove(at);
            assert forall|i: int, j: int|
                #![trigger t[i], t[j]]
                0 <= i < j < t.len() implies t[i].id != t[j].id
            by {
                let a = if i < at { i } else { i + 1 };
                let b = if j < at { j } else { j + 1 };
                assert(t[i] == s[a]);
                assert(t[j] == s[b]);
            }
        },
        None => {},
    }
}

/// An update changes no id, so the ids are unique after it exactly when they
/// were before.
pub proof fn lemma_ids_unique_after_update(s: Seq<PersonView>, id: u32, name: Seq<char>)
    ensures
        ids_unique(with_name(s, id, name)) <==> ids_unique(s),
{
    lemma_position_of(s, id);
    let t = with_name(s, id, name);
    assert(t.len() == s.len());
    assert forall|i: int| 0 <= i < s.len() implies (#[trigger] t[i]).id == s[i].id by {}
    if ids_unique(s) {
        assert forall|i: int, j: int|
            #![trigger t[i], t[j]]
            0 <= i < j < t.len() implies t[i].id != t[j].id
        by {
            assert(s[i].id != s[j].id);
        }
    }
    if ids_unique(t) {
        assert forall|i: int, j: int|
            #![trigger s[i], s[j]]
            0 <= i < j < s.len() implies s[i].id != s[j].id
        by {
            assert(t[i].id != t[j].id);
        }
    }
}

/// After an insert the ids are unique exactly when they were unique before
/// and the id handed out was not in use.
pub proof fn lemma_ids_unique_after_insert(s: Seq<PersonView>, name: Seq<char>)
    ensures
        ids_unique(s.push(PersonView { id: next_id(s.len()), name })) <==> ids_unique(s) && !has_id(
            s,
            next_id(s.len()),
        ),
{
    let id = next_id(s.len());
    let t = s.push(PersonView { id, name });
    if ids_unique(s) && !has_id(s, id) {
        assert forall|i: int, j: int|
            #![trigger t[i], t[j]]
            0 <= i < j < t.len() implies t[i].id != t[j].id
        by {
            assert(t[i] == s[i]);
            if j < s.len() {
                assert(t[j] == s[j]);
            }
        }
    }
    if ids_unique(t) {
        assert forall|i: int, j: int|
            #![trigger s[i], s[j]]
            0 <= i < j < s.len() implies s[i].id != s[j].id
        by {
            assert(t[i] == s[i] && t[j] == s[j]);
        }
        if has_id(s, id) {
            let k = choose|k: int| 0 <= k < s.len() && (#[trigger] s[k]).id == id;
            assert(t[k] == s[k]);
            assert(t[s.len() as int].id == id);
        }
    }
}

/// One change keeps unique ids unique, unless it is an insert whose id was
/// already in use.
pub proof fn lemma_step_keeps_ids_unique(s: Seq<PersonView>, op: StoreOp)
    requires
        ids_unique(s),
    ensures
        ids_unique(after(s, op)) <==> !(op is Insert && has_id(s, next_id(s.len()))),
{
    match op {
        StoreOp::Insert { name } => lemma_ids_unique_after_insert(s, name),
        StoreOp::Update { id, name } => lemma_ids_unique_after_update(s, id, name),
        StoreOp::Delete { id } => lemma_delete_keeps_ids_unique(s, id),
    }
}

/// A run's first `k + 1` changes are its first `k` changes and then one more.
proof fn lemma_after_all_next(s: Seq<PersonView>, ops: Seq<StoreOp>, k: int)
    requires
        0 <= k < ops.len(),
    ensures
        after_all(s, ops.take(k + 1)) == after(after_all(s, ops.take(k)), ops[k]),
{
    assert(ops.take(k + 1).drop_last() =~= ops.take(k));
    assert(ops.take(k + 1).last() == ops[k]);
}

/// While every insert gets a fresh id, the ids stay unique after each change.
proof fn lemma_ids_unique_after_prefix(s: Seq<PersonView>, ops: Seq<StoreOp>, k: int)
    requires
        ids_unique(s),
        inserts_are_fresh(s, ops),
        0 <= k <= ops.len(),
    ensures
        ids_unique(after_all(s, ops.take(k))),
    decreases k,
{
    if k == 0 {
        assert(ops.take(0) =~= Seq::<StoreOp>::empty());
    } else {
        lemma_ids_unique_after_prefix(s, ops, k - 1);
        lemma_after_all_next(s, ops, k - 1);
        let op = ops[k - 1];
        lemma_step_keeps_ids_unique(after_all(s, ops.take(k - 1)), op);
    }
}

/// Uniqueness of ids as an invariant of the store. Starting from unique ids,
/// the ids are unique after every change of a run exactly when every insert
/// of the run was handed an id not in use. Updates and removals never break
/// it; an insert breaks it when the count of records plus one is an id that
/// a record still carries, as after a removal from the middle.
pub proof fn lemma_ids_unique_throughout(s: Seq<PersonView>, ops: Seq<StoreOp>)
    requires
        ids_unique(s),
    ensures
        inserts_are_fresh(s, ops) <==> (forall|k: int|
            0 <= k <= ops.len() ==> ids_unique(#[trigger] after_all(s, ops.take(k)))),
{
    if inserts_are_fresh(s, ops) {
        assert forall|k: int| 0 <= k <= ops.len() implies ids_unique(
            #[trigger] after_all(s, ops.take(k)),
        ) by {
            lemma_ids_unique_after_prefix(s, ops, k);
        }
    }
    if forall|k: int| 0 <= k <= ops.len() ==> ids_unique(#[trigger] after_all(s, ops.take(k))) {
        assert forall|k: int| 0 <= k < ops.len() && (#[trigger] ops[k]) is Insert implies !has_id(
            after_all(s, ops.take(k)),
            next_id(after_all(s, ops.take(k)).len()),
        ) by {
            let before = after_all(s, ops.take(k));
            assert(ids_unique(before));
            assert(ids_unique(after_all(s, ops.take(k + 1))));
            lemma_after_all_next(s, ops, k);
            lemma_step_keeps_ids_unique(before, ops[k]);
        }
    }
}

/// After a run in which every insert was handed an id not in use, no two
/// records share an id.
pub proof fn lemma_ids_stay_unique(s: Seq<PersonView>, ops: Seq<StoreOp>)
    requires
        ids_unique(s),
        inserts_are_fresh(s, ops),
    ensures
        ids_unique(after_all(s, ops)),
{
    lemma_ids_unique_after_prefix(s, ops, ops.len() as int);
    assert(ops.take(ops.len() as int) =~= ops);
}

/// Ids that count up are unique, and the next id to be handed out is not
/// among them.
pub proof fn lemma_counting_ids_are_unique(s: Seq<PersonView>)
    requires
        ids_count_up(s),
    ensures
        s.len() <= u32::MAX,
        ids_unique(s),
        s.len() < u32::MAX ==> !has_id(s, next_id(s.len())),
{
    if s.len() > 0 {
        assert(s[s.len() - 1].id == s.len());
    }
}

/// The initial records have ids that count up.
pub proof fn lemma_initial_ids_count_up()
    ensures
        ids_count_up(initial_persons()),
{
}

/// A store that only grows keeps ids that count up: inserts and updates
/// preserve the pattern, as long as the ids do not run out.
pub proof fn lemma_growing_store_counts_up(s: Seq<PersonView>, ops: Seq<StoreOp>)
    requires
        ids_count_up(s),
        no_deletes(ops),
        s.len() + ops.len() <= u32::MAX,
    ensures
        ids_count_up(after_all(s, ops)),
        s.len() <= after_all(s, ops).len() <= s.len() + ops.len(),
    decreases ops.len(),
{
    if ops.len() > 0 {
        let earlier = ops.drop_last();
        assert forall|k: int| 0 <= k < earlier.len() implies
            !((#[trigger] earlier[k]) is Delete) by {
            assert(earlier[k] == ops[k]);
        }
        lemma_growing_store_counts_up(s, earlier);
        let before = after_all(s, earlier);
        let now = after_all(s, ops);
        assert(!(ops[ops.len() - 1] is Delete));
        match ops.last() {
            StoreOp::Insert { name } => {
                assert forall|i: int| 0 <= i < now.len() implies
                    (#[trigger] now[i]).id == i + 1 by {
                    if i < before.len() {
                        assert(now[i] == before[i]);
                    }
                }
            },
            StoreOp::Update { id, name } => {
                lemma_position_of(before, id);
                assert forall|i: int| 0 <= i < now.len() implies
                    (#[trigger] now[i]).id == i + 1 by {
                    assert(now[i].id == before[i].id);
                }
            },
            StoreOp::Delete { id } => {},
        }
    }
}

/// In a session without removals that began with ids counting up, an insert
/// hands out an id that no record carries, and a lookup of that id right
/// after finds the new record.
pub proof fn lemma_insert_assigns_fresh_id(s: Seq<PersonView>, ops: Seq<StoreOp>, name: Seq<char>)
    requires
        ids_count_up(s),
        no_deletes(ops),
        s.len() + ops.len() < u32::MAX,
    ensures
        ({
            let now = after_all(s, ops);
            let id = next_id(now.len());
            &&& !has_id(now, id)
            &&& record_with_id(after(now, StoreOp::Insert { name }), id) == Some(
                PersonView { id, name },
            )
        }),
{
    lemma_growing_store_counts_up(s, ops);
    let now = after_all(s, ops);
    lemma_counting_ids_are_unique(now);
    lemma_insert_then_find(now, name);
}

/// A lookup of the id that an insert handed out finds the new record exactly
/// when the id was not in use; otherwise it still finds the older record.
pub proof fn lemma_insert_then_find(s: Seq<PersonView>, name: Seq<char>)
    ensures
        ({
            let id = next_id(s.len());
            let added = PersonView { id, name };
            record_with_id(s.push(added), id) == if has_id(s, id) {
                record_with_id(s, id)
            } else {
                Some(added)
            }
        }),
{
    let id = next_id(s.len());
    let added = PersonView { id, name };
    let t = s.push(added);
    lemma_position_of(s, id);
    match position_of(s, id) {
        Some(at) => {
            assert forall|j: int| 0 <= j < at implies (#[trigger] t[j]).id != id by {
                assert(t[j] == s[j]);
            }
            assert(t[at] == s[at]);
            lemma_first_is_position(t, id, at);
        },
        None => {
            assert forall|j: int| 0 <= j < s.len() implies (#[trigger] t[j]).id != id by {
                assert(t[j] == s[j]);
            }
            lemma_first_is_position(t, id, s.len() as int);
        },
    }
}

/// After a removal by id, a lookup of that id finds nothing and a second
/// removal removes nothing, provided that at most one record carried the id.
/// Where two did, the second is still there.
pub proof fn lemma_delete_then_find(s: Seq<PersonView>, id: u32)
    ensures
        has_id(without_first(s, id), id) <==> carried_twice(s, id),
        !carried_twice(s, id) ==> record_with_id(without_first(s, id), id) is None,
        !carried_twice(s, id) ==> without_first(without_first(s, id), id) == without_first(s, id),
{
    let t = without_first(s, id);
    lemma_position_of(s, id);
    lemma_position_of(t, id);
    match position_of(s, id) {
        Some(at) => {
            if has_id(t, id) {
                let k = choose|k: int| 0 <= k < t.len() && (#[trigger] t[k]).id == id;
                let j = if k < at { k } else { k + 1 };
                assert(t[k] == s[j]);
                assert(s[at].id == id && s[j].id == id);
                assert(at < j);
            }
            if carried_twice(s, id) {
                let (i, j) = choose|i: int, j: int|
                    0 <= i < j < s.len() && (#[trigger] s[i]).id == id && (#[trigger] s[j]).id
                        == id;
                assert(at <= i);
                assert(t[j - 1] == s[j]);
            }
        },
        None => {
            if carried_twice(s, id) {
                let (i, j) = choose|i: int, j: int|
                    0 <= i < j < s.len() && (#[trigger] s[i]).id == id && (#[trigger] s[j]).id
                        == id;
                assert(s[i].id == id);
            }
        },
    }
}

/// After an update of an id that some record carries, a lookup of that id
/// finds the id with the new name, and the store holds as many records as
/// before. An update of an id that no record carries changes nothing.
pub proof fn lemma_update_then_find(s: Seq<PersonView>, id: u32, name: Seq<char>)
    ensures
        with_name(s, id, name).len() == s.len(),
        has_id(s, id) ==> record_with_id(with_name(s, id, name), id) == Some(
            PersonView { id, name },
        ),
        !has_id(s, id) ==> with_name(s, id, name) == s,
{
    lemma_position_of(s, id);
    match position_of(s, id) {
        Some(at) => {
            let t = s.update(at, PersonView { id, name });
            assert forall|j: int| 0 <= j < at implies (#[trigger] t[j]).id != id by {
                assert(t[j] == s[j]);
            }
            lemma_first_is_position(t, id, at);
        },
        None => {},
    }
}

/// The empty string is a substring of every name, so filtering by it keeps
/// every record.
pub proof fn lemma_empty_partial_matches_all(s: Seq<PersonView>)
    ensures
        s.filter(name_contains(Seq::<char>::empty())) == s,
    decreases s.len(),
{
    reveal(Seq::filter);
    if s.len() > 0 {
        lemma_empty_partial_matches_all(s.drop_last());
        let name = s.last().name;
        assert(name.subrange(0, 0) =~= Seq::<char>::empty());
        assert(occurs_at(Seq::<char>::empty(), name, 0));
        assert(s.drop_last().push(s.last()) =~= s);
    }
}

/// The name filter lets through exactly the records whose name has the text
/// as a substring: a record is in the result if and only if it is in the
/// store and its name matches.
pub proof fn lemma_filter_is_exact(s: Seq<PersonView>, partial: Seq<char>, p: PersonView)
    ensures
        s.filter(name_contains(partial)).contains(p) <==> s.contains(p) && occurs_in(
            partial,
            p.name,
        ),
    decreases s.len(),
{
    reveal(Seq::filter);
    let kept = s.filter(name_contains(partial));
    if s.len() > 0 {
        let front = s.drop_last();
        let last = s.last();
        let kept_front = front.filter(name_contains(partial));
        lemma_filter_is_exact(front, partial, p);
        let last_kept = occurs_in(partial, last.name);
        assert(kept == if last_kept { kept_front.push(last) } else { kept_front });
        if kept.contains(p) {
            let i = choose|i: int| 0 <= i < kept.len() && kept[i] == p;
            if i < kept_front.len() {
                assert(kept_front[i] == p);
                assert(kept_front.contains(p));
                let j = choose|j: int| 0 <= j < front.len() && front[j] == p;
                assert(s[j] == p);
            } else {
                assert(s[s.len() - 1] == p);
            }
        }
        if s.contains(p) && occurs_in(partial, p.name) {
            let j = choose|j: int| 0 <= j < s.len() && s[j] == p;
            if j < front.len() {
                assert(front[j] == p);
                assert(front.contains(p));
                let i = choose|i: int| 0 <= i < kept_front.len() && kept_front[i] == p;
                assert(kept[i] == p);
            } else {
                assert(kept[kept.len() - 1] == p);
            }
        }
    }
}

} // verus!
