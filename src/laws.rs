use vstd::prelude::*;

use crate::employee::EmployeeView;
use crate::store::{
    has_id, ids_of, lemma_index_of_id_unique, lemma_push_unique, lemma_without_id_unique,
    load_outcome, record_with_id, unique_ids, without_id,
};

verus! {

/// A mutation of the store, as it appears in a history of operations.
pub enum Op {
    /// A create that was handed `id` for the new record.
    Create { id: Seq<char>, name: Seq<char>, age: u8, position: Seq<char> },
    /// A delete of `id`.
    Delete { id: Seq<char> },
}

/// The id an operation names.
pub open spec fn op_id(op: Op) -> Seq<char> {
    match op {
        Op::Create { id, .. } => id,
        Op::Delete { id } => id,
    }
}

/// The effect of one operation on the records, as `Store::insert_new` and
/// `Store::delete` state it.
pub open spec fn step(s: Seq<EmployeeView>, op: Op) -> Seq<EmployeeView> {
    match op {
        Op::Create { id, name, age, position } => if has_id(s, id) {
            s
        } else {
            s.push(EmployeeView { id, name, age, position })
        },
        Op::Delete { id } => without_id(s, id),
    }
}

/// The records after running `ops` in order, starting from `s`.
pub open spec fn run(s: Seq<EmployeeView>, ops: Seq<Op>) -> Seq<EmployeeView>
    decreases ops.len(),
{
    if ops.len() == 0 {
        s
    } else {
        step(run(s, ops.drop_last()), ops.last())
    }
}

/// The ids handed to the creates of `ops`.
pub open spec fn created(ops: Seq<Op>) -> Set<Seq<char>>
    decreases ops.len(),
{
    if ops.len() == 0 {
        Set::empty()
    } else {
        match ops.last() {
            Op::Create { id, .. } => created(ops.drop_last()).insert(id),
            Op::Delete { .. } => created(ops.drop_last()),
        }
    }
}

/// The ids named by the deletes of `ops`.
pub open spec fn deleted(ops: Seq<Op>) -> Set<Seq<char>>
    decreases ops.len(),
{
    if ops.len() == 0 {
        Set::empty()
    } else {
        match ops.last() {
            Op::Create { .. } => deleted(ops.drop_last()),
            Op::Delete { id } => deleted(ops.drop_last()).insert(id),
        }
    }
}

/// Every create was handed an id that no earlier operation named, as the
/// store's generated ids are.
pub open spec fn fresh_creates(ops: Seq<Op>) -> bool {
    forall|i: int, j: int|
        0 <= j < i < ops.len() && (#[trigger] ops[i] is Create) ==> op_id(#[trigger] ops[j])
            != op_id(ops[i])
}

/// An id that was created or deleted in `ops` is named by one of them.
proof fn lemma_named(ops: Seq<Op>, k: Seq<char>)
    requires
        created(ops).contains(k) || deleted(ops).contains(k),
    ensures
        exists|j: int| 0 <= j < ops.len() && op_id(#[trigger] ops[j]) == k,
    decreases ops.len(),
{
    let rest = ops.drop_last();
    if op_id(ops.last()) != k {
        lemma_named(rest, k);
        let j = choose|j: int| 0 <= j < rest.len() && op_id(#[trigger] rest[j]) == k;
        assert(ops[j] == rest[j]);
    } else {
        assert(op_id(ops[ops.len() - 1]) == k);
    }
}

/// Create, then get of the returned id: the record found is the one created,
/// under that id.
pub proof fn lemma_create_then_get(
    s: Seq<EmployeeView>,
    id: Seq<char>,
    name: Seq<char>,
    age: u8,
    position: Seq<char>,
)
    requires
        unique_ids(s),
        !has_id(s, id),
    ensures
        has_id(s.push(EmployeeView { id, name, age, position }), id),
        record_with_id(s.push(EmployeeView { id, name, age, position }), id) == (EmployeeView {
            id,
            name,
            age,
            position,
        }),
{
    let e = EmployeeView { id, name, age, position };
    lemma_push_unique(s, e);
    lemma_index_of_id_unique(s.push(e), id, s.len() as int);
}

/// Appending a record adds exactly its id.
proof fn lemma_ids_push(s: Seq<EmployeeView>, e: EmployeeView)
    ensures
        ids_of(s.push(e)) == ids_of(s).insert(e.id),
{
    let t = s.push(e);
    assert forall|k: Seq<char>| ids_of(t).contains(k) <==> ids_of(s).insert(e.id).contains(k) by {
        if has_id(t, k) {
            let i = choose|i: int| 0 <= i < t.len() && t[i].id == k;
            if i < s.len() {
                assert(s[i] == t[i]);
            }
        }
        if has_id(s, k) {
            let i = choose|i: int| 0 <= i < s.len() && s[i].id == k;
            assert(t[i] == s[i]);
        }
        assert(t[s.len() as int] == e);
    }
    assert(ids_of(t) =~= ids_of(s).insert(e.id));
}

/// Removing the record that carries `id` removes exactly that id.
proof fn lemma_ids_without(s: Seq<EmployeeView>, id: Seq<char>)
    requires
        unique_ids(s),
    ensures
        ids_of(without_id(s, id)) == ids_of(s).remove(id),
{
    lemma_without_id_unique(s, id);
    let t = without_id(s, id);
    if has_id(s, id) {
        let m = crate::store::index_of_id(s, id);
        assert forall|k: Seq<char>| ids_of(t).contains(k) <==> ids_of(s).remove(id).contains(k) by {
            if has_id(t, k) {
                let i = choose|i: int| 0 <= i < t.len() && t[i].id == k;
                let a = if i < m { i } else { i + 1 };
                assert(t[i] == s[a]);
            }
            if has_id(s, k) && k != id {
                let i = choose|i: int| 0 <= i < s.len() && s[i].id == k;
                if i < m {
                    assert(t[i] == s[i]);
                } else {
                    assert(i != m);
                    assert(t[i - 1] == s[i]);
                }
            }
        }
    } else {
        assert forall|k: Seq<char>| ids_of(t).contains(k) <==> ids_of(s).remove(id).contains(k) by {
        }
    }
    assert(ids_of(t) =~= ids_of(s).remove(id));
}

/// No create of `ops` is handed an id already held in `s0`.
pub open spec fn creates_avoid(s0: Seq<EmployeeView>, ops: Seq<Op>) -> bool {
    forall|i: int| 0 <= i < ops.len() && (#[trigger] ops[i] is Create) ==> !has_id(s0, op_id(ops[i]))
}

/// After any history of creates and deletes from a store `s0`, where each
/// create received a fresh id, the ids held are exactly those of `s0` and
/// those created, minus those deleted, and ids stay distinct.
pub proof fn lemma_ids_created_minus_deleted(s0: Seq<EmployeeView>, ops: Seq<Op>)
    requires
        unique_ids(s0),
        fresh_creates(ops),
        creates_avoid(s0, ops),
    ensures
        ids_of(run(s0, ops)) == ids_of(s0).union(created(ops)).difference(deleted(ops)),
        unique_ids(run(s0, ops)),
    decreases ops.len(),
{
    if ops.len() == 0 {
        assert(ids_of(s0).union(created(ops)).difference(deleted(ops)) =~= ids_of(s0));
    } else {
        let rest = ops.drop_last();
        assert forall|i: int, j: int|
            0 <= j < i < rest.len() && (#[trigger] rest[i] is Create) implies op_id(
            #[trigger] rest[j],
        ) != op_id(rest[i]) by {
            assert(rest[i] == ops[i] && rest[j] == ops[j]);
        }
        assert forall|i: int| 0 <= i < rest.len() && (#[trigger] rest[i] is Create) implies !has_id(
            s0,
            op_id(rest[i]),
        ) by {
            assert(rest[i] == ops[i]);
        }
        lemma_ids_created_minus_deleted(s0, rest);
        let r = run(s0, rest);
        let u = ids_of(s0).union(created(rest));
        let d = deleted(rest);
        let last = ops.last();
        let n = ops.len() - 1;
        match last {
            Op::Create { id, name, age, position } => {
                if created(rest).contains(id) || d.contains(id) {
                    lemma_named(rest, id);
                    let j = choose|j: int| 0 <= j < rest.len() && op_id(#[trigger] rest[j]) == id;
                    assert(rest[j] == ops[j]);
                    assert(ops[n] is Create);
                    assert(op_id(ops[j]) != op_id(ops[n]));
                }
                assert(ops[n] is Create);
                assert(!has_id(s0, id));
                assert(!ids_of(s0).contains(id));
                assert(!ids_of(r).contains(id));
                assert(!has_id(r, id));
                let e = EmployeeView { id, name, age, position };
                lemma_push_unique(r, e);
                lemma_ids_push(r, e);
                assert(ids_of(s0).union(created(rest).insert(id)).difference(d) =~= u.difference(
                    d,
                ).insert(id));
            },
            Op::Delete { id } => {
                lemma_without_id_unique(r, id);
                lemma_ids_without(r, id);
                assert(u.difference(d.insert(id)) =~= u.difference(d).remove(id));
            },
        }
    }
}

/// Deleting an id a second time changes nothing further.
pub proof fn lemma_delete_idempotent(s: Seq<EmployeeView>, id: Seq<char>)
    requires
        unique_ids(s),
    ensures
        without_id(without_id(s, id), id) == without_id(s, id),
{
    lemma_without_id_unique(s, id);
}

/// Loading the records of a snapshot taken from a store gives back exactly
/// that store's records, the empty store included.
pub proof fn lemma_load_of_saved(s: Seq<EmployeeView>)
    requires
        unique_ids(s),
    ensures
        load_outcome(Some(s)) == s,
{
}

/// Creates with pairwise distinct ids, none held in `s0`: every record of
/// `s0` and each created record is held, one more record per create.
pub proof fn lemma_creates_all_held(s0: Seq<EmployeeView>, ops: Seq<Op>)
    requires
        unique_ids(s0),
        forall|i: int| 0 <= i < ops.len() ==> #[trigger] ops[i] is Create,
        forall|i: int, j: int|
            0 <= i < ops.len() && 0 <= j < ops.len() && i != j ==> op_id(#[trigger] ops[i])
                != op_id(#[trigger] ops[j]),
        creates_avoid(s0, ops),
    ensures
        ids_of(run(s0, ops)) == ids_of(s0).union(created(ops)),
        run(s0, ops).len() == s0.len() + ops.len(),
    decreases ops.len(),
{
    assert forall|i: int, j: int|
        0 <= j < i < ops.len() && (#[trigger] ops[i] is Create) implies op_id(#[trigger] ops[j])
        != op_id(ops[i]) by {
    }
    if ops.len() > 0 {
        let rest = ops.drop_last();
        assert forall|i: int| 0 <= i < rest.len() implies #[trigger] rest[i] is Create by {
            assert(rest[i] == ops[i]);
        }
        assert forall|i: int, j: int|
            0 <= i < rest.len() && 0 <= j < rest.len() && i != j implies op_id(
            #[trigger] rest[i],
        ) != op_id(#[trigger] rest[j]) by {
            assert(rest[i] == ops[i] && rest[j] == ops[j]);
        }
        assert forall|i: int| 0 <= i < rest.len() && (#[trigger] rest[i] is Create) implies !has_id(
            s0,
            op_id(rest[i]),
        ) by {
            assert(rest[i] == ops[i]);
        }
        lemma_creates_all_held(s0, rest);
        let n = ops.len() - 1;
        let id = op_id(ops[n]);
        if created(rest).contains(id) {
            lemma_named(rest, id);
            let j = choose|j: int| 0 <= j < rest.len() && op_id(#[trigger] rest[j]) == id;
            assert(rest[j] == ops[j]);
        }
        assert(ops[n] is Create);
        assert(!ids_of(s0).contains(id));
        assert(!ids_of(run(s0, rest)).contains(id));
    }
    lemma_no_deletes(ops);
    lemma_ids_created_minus_deleted(s0, ops);
    assert(ids_of(s0).union(created(ops)).difference(deleted(ops)) =~= ids_of(s0).union(
        created(ops),
    ));
}

/// A history of creates alone deletes nothing.
proof fn lemma_no_deletes(ops: Seq<Op>)
    requires
        forall|i: int| 0 <= i < ops.len() ==> #[trigger] ops[i] is Create,
    ensures
        deleted(ops) == Set::<Seq<char>>::empty(),
    decreases ops.len(),
{
    if ops.len() > 0 {
        let rest = ops.drop_last();
        assert forall|i: int| 0 <= i < rest.len() implies #[trigger] rest[i] is Create by {
            assert(rest[i] == ops[i]);
        }
        lemma_no_deletes(rest);
        assert(ops[ops.len() - 1] is Create);
    }
}

} // verus!
