use vstd::prelude::*;

use crate::employee::{views, Employee, EmployeeView};
use crate::ids::{is_v4_uuid_text, random_id};

verus! {

/// Why a store operation did not complete.
#[derive(Debug, Clone, Copy, PartialEq, Eq, Structural)]
pub enum StoreError {
    /// No record carries the requested id.
    NotFound,
    /// The id offered for a new record is already in use.
    IdTaken,
}

/// Whether some record of `s` carries `id`.
pub open spec fn has_id(s: Seq<EmployeeView>, id: Seq<char>) -> bool {
    exists|i: int| 0 <= i < s.len() && s[i].id == id
}

/// The ids carried by the records of `s`.
pub open spec fn ids_of(s: Seq<EmployeeView>) -> Set<Seq<char>> {
    Set::new(|k: Seq<char>| has_id(s, k))
}

/// No two records of `s` share an id.
pub open spec fn unique_ids(s: Seq<EmployeeView>) -> bool {
    forall|i: int, j: int|
        0 <= i < s.len() && 0 <= j < s.len() && i != j ==> #[trigger] s[i].id != #[trigger] s[j].id
}

/// The position of a record of `s` that carries `id` (meaningful when `has_id(s, id)`).
pub open spec fn index_of_id(s: Seq<EmployeeView>, id: Seq<char>) -> int {
    choose|i: int| 0 <= i < s.len() && s[i].id == id
}

/// The record of `s` that carries `id` (meaningful when `has_id(s, id)`).
pub open spec fn record_with_id(s: Seq<EmployeeView>, id: Seq<char>) -> EmployeeView {
    s[index_of_id(s, id)]
}

/// `s` with the record that carries `id` taken out, if there is one.
pub open spec fn without_id(s: Seq<EmployeeView>, id: Seq<char>) -> Seq<EmployeeView> {
    if has_id(s, id) {
        s.remove(index_of_id(s, id))
    } else {
        s
    }
}

/// The records that a decoded snapshot yields: all of them when their ids are
/// distinct, none when the snapshot is not a valid store.
pub open spec fn loaded(s: Seq<EmployeeView>) -> Seq<EmployeeView> {
    if unique_ids(s) {
        s
    } else {
        Seq::empty()
    }
}

/// What loading yields from the outcome of decoding the persisted snapshot:
/// `None` stands for a snapshot that is absent or could not be decoded.
pub open spec fn load_outcome(parsed: Option<Seq<EmployeeView>>) -> Seq<EmployeeView> {
    match parsed {
        Some(s) => loaded(s),
        None => Seq::empty(),
    }
}

/// Appending a record with a fresh id keeps ids distinct.
pub proof fn lemma_push_unique(s: Seq<EmployeeView>, e: EmployeeView)
    requires
        unique_ids(s),
        !has_id(s, e.id),
    ensures
        unique_ids(s.push(e)),
        has_id(s.push(e), e.id),
{
    let t = s.push(e);
    assert(t[s.len() as int] == e);
    assert forall|i: int, j: int|
        0 <= i < t.len() && 0 <= j < t.len() && i != j implies #[trigger] t[i].id
            != #[trigger] t[j].id by {
        if i < s.len() && j < s.len() {
            assert(t[i] == s[i] && t[j] == s[j]);
        } else if i < s.len() {
            assert(t[i] == s[i]);
        } else {
            assert(t[j] == s[j]);
        }
    }
}

/// Under distinct ids, any record that carries `id` is the one `index_of_id` picks.
pub proof fn lemma_index_of_id_unique(s: Seq<EmployeeView>, id: Seq<char>, i: int)
    requires
        unique_ids(s),
        0 <= i < s.len(),
        s[i].id == id,
    ensures
        has_id(s, id),
        index_of_id(s, id) == i,
{
    let j = index_of_id(s, id);
    assert(0 <= j < s.len() && s[j].id == id);
    if j != i {
        assert(s[i].id != s[j].id);
    }
}

/// Removing a record keeps the remaining ids distinct, and `id` is then gone.
pub proof fn lemma_without_id_unique(s: Seq<EmployeeView>, id: Seq<char>)
    requires
        unique_ids(s),
    ensures
        unique_ids(without_id(s, id)),
        !has_id(without_id(s, id), id),
{
    if has_id(s, id) {
        let k = index_of_id(s, id);
        let t = s.remove(k);
        assert forall|i: int, j: int|
            0 <= i < t.len() && 0 <= j < t.len() && i != j implies #[trigger] t[i].id
                != #[trigger] t[j].id by {
            let a = if i < k { i } else { i + 1 };
            let b = if j < k { j } else { j + 1 };
            assert(t[i] == s[a] && t[j] == s[b]);
        }
        if has_id(t, id) {
            let i = choose|i: int| 0 <= i < t.len() && t[i].id == id;
            let a = if i < k { i } else { i + 1 };
            assert(t[i] == s[a]);
            assert(s[a].id != s[k].id);
        }
    }
}

/// The record store: every record, each under its own id.
pub struct Store {
    entries: Vec<Employee>,
}

impl View for Store {
    type V = Seq<EmployeeView>;

    closed spec fn view(&self) -> Seq<EmployeeView> {
        views(self.entries@)
    }
}

impl Store {
    /// The store's invariant: no two records share an id.
    pub open spec fn wf(&self) -> bool {
        unique_ids(self@)
    }

    /// An empty store.
    pub fn new() -> (r: Store)
        ensures
            r@ == Seq::<EmployeeView>::empty(),
            r.wf(),
    {
        let r = Store { entries: Vec::new() };
        assert(r@ =~= Seq::<EmployeeView>::empty());
        r
    }

    /// The number of records held.
    pub fn len(&self) -> (r: usize)
        ensures
            r == self@.len(),
    {
        self.entries.len()
    }

    /// The position of the record that carries `id`, if any.
    fn position_of(&self, id: &String) -> (r: Option<usize>)
        ensures
            match r {
                Some(i) => i < self@.len() && self@[i as int].id == id@,
                None => !has_id(self@, id@),
            },
    {
        let mut i: usize = 0;
        while i < self.entries.len()
            invariant
                i <= self.entries@.len(),
                self@.len() == self.entries@.len(),
                forall|k: int| 0 <= k < i ==> self@[k].id != id@,
            decreases self.entries.len() - i,
        {
            assert(self@[i as int] == self.entries@[i as int]@);
            if self.entries[i].id == *id {
                return Some(i);
            }
            i += 1;
        }
        None
    }

    /// Whether a record carries `id`.
    pub fn contains(&self, id: &String) -> (r: bool)
        ensures
            r == has_id(self@, id@),
    {
        self.position_of(id).is_some()
    }

    /// Adds a record under a given `id`; refused when the id is already in use.
    pub fn insert_new(&mut self, id: String, name: String, age: u8, position: String) -> (r:
        Result<(), StoreError>)
        requires
            old(self).wf(),
        ensures
            final(self).wf(),
            has_id(old(self)@, id@) ==> r == Err::<(), StoreError>(StoreError::IdTaken)
                && final(self)@ == old(self)@,
            !has_id(old(self)@, id@) ==> r == Ok::<(), StoreError>(()) && final(self)@
                == old(self)@.push(EmployeeView { id: id@, name: name@, age, position: position@ }),
    {
        if self.position_of(&id).is_some() {
            return Err(StoreError::IdTaken);
        }
        let e = Employee::new(id, name, age, position);
        proof {
            lemma_push_unique(self@, e@);
        }
        self.entries.push(e);
        assert(self@ =~= old(self)@.push(e@));
        Ok(())
    }

    /// Adds a record under a freshly generated random version-4 UUID and
    /// returns that id. On an empty store this always succeeds; should the
    /// generated id already be in use, nothing changes and `IdTaken` is returned.
    pub fn create(&mut self, name: String, age: u8, position: String) -> (r: Result<
        String,
        StoreError,
    >)
        requires
            old(self).wf(),
        ensures
            final(self).wf(),
            old(self)@.len() == 0 ==> r is Ok,
            match r {
                Ok(id) => is_v4_uuid_text(id@) && !has_id(old(self)@, id@) && final(self)@ == old(
                    self,
                )@.push(EmployeeView { id: id@, name: name@, age, position: position@ }),
                Err(e) => e == StoreError::IdTaken && final(self)@ == old(self)@,
            },
    {
        let id = random_id();
        match self.insert_new(id.clone(), name, age, position) {
            Ok(()) => Ok(id),
            Err(e) => Err(e),
        }
    }

    /// A snapshot of every record held, in the store's order.
    pub fn list(&self) -> (r: Vec<Employee>)
        ensures
            views(r@) == self@,
    {
        let mut out: Vec<Employee> = Vec::new();
        let mut i: usize = 0;
        while i < self.entries.len()
            invariant
                i <= self.entries@.len(),
                views(out@) =~= views(self.entries@.take(i as int)),
            decreases self.entries.len() - i,
        {
            let ghost before = out@;
            out.push(self.entries[i].duplicate());
            assert(self.entries@.take(i + 1) =~= self.entries@.take(i as int).push(
                self.entries@[i as int],
            ));
            assert(views(out@) =~= views(before).push(self.entries@[i as int]@));
            assert(views(self.entries@.take(i + 1)) =~= views(self.entries@.take(i as int)).push(
                self.entries@[i as int]@,
            ));
            i += 1;
        }
        assert(self.entries@.take(i as int) =~= self.entries@);
        out
    }

    /// The record that carries `id`, or `NotFound`.
    pub fn get(&self, id: &String) -> (r: Result<Employee, StoreError>)
        requires
            self.wf(),
        ensures
            match r {
                Ok(e) => has_id(self@, id@) && e@ == record_with_id(self@, id@),
                Err(e) => e == StoreError::NotFound && !has_id(self@, id@),
            },
    {
        match self.position_of(id) {
            Some(i) => {
                proof {
                    lemma_index_of_id_unique(self@, id@, i as int);
                }
                Ok(self.entries[i].duplicate())
            },
            None => Err(StoreError::NotFound),
        }
    }

    /// Removes the record that carries `id`; when there is none, nothing changes.
    pub fn delete(&mut self, id: &String)
        requires
            old(self).wf(),
        ensures
            final(self).wf(),
            final(self)@ == without_id(old(self)@, id@),
    {
        proof {
            lemma_without_id_unique(self@, id@);
        }
        match self.position_of(id) {
            Some(i) => {
                proof {
                    lemma_index_of_id_unique(self@, id@, i as int);
                }
                self.entries.remove(i);
                assert(self@ =~= old(self)@.remove(i as int));
            },
            None => {},
        }
    }

    /// Builds a store from decoded records: all of them when their ids are
    /// distinct, an empty store when they are not.
    pub fn from_records(records: Vec<Employee>) -> (r: Store)
        ensures
            r.wf(),
            r@ == loaded(views(records@)),
    {
        let mut s = Store::new();
        let mut i: usize = 0;
        while i < records.len()
            invariant
                i <= records@.len(),
                s.wf(),
                s@ == views(records@.take(i as int)),
            decreases records.len() - i,
        {
            let e = &records[i];
            let ghost before = s@;
            assert(records@.take(i + 1) =~= records@.take(i as int).push(records@[i as int]));
            assert(views(records@.take(i + 1)) =~= before.push(e@));
            match s.insert_new(e.id.clone(), e.name.clone(), e.age, e.position.clone()) {
                Ok(()) => {},
                Err(_) => {
                    proof {
                        let j = choose|j: int| 0 <= j < before.len() && before[j].id == e.id@;
                        assert(records@.take(i as int)[j] == records@[j]);
                        assert(views(records@)[j] == before[j]);
                        assert(views(records@)[i as int] == e@);
                        assert(views(records@)[j].id == views(records@)[i as int].id);
                        assert(!unique_ids(views(records@)));
                    }
                    return Store::new();
                },
            }
            i += 1;
        }
        assert(records@.take(i as int) =~= records@);
        s
    }

    /// The store at start-up, from the outcome of decoding the persisted
    /// snapshot (`None`: absent or undecodable), which then yields an empty store.
    pub fn load(parsed: Option<Vec<Employee>>) -> (r: Store)
        ensures
            r.wf(),
            r@ == load_outcome(
                match parsed {
                    Some(v) => Some(views(v@)),
                    None => None,
                },
            ),
    {
        match parsed {
            Some(v) => Store::from_records(v),
            None => Store::new(),
        }
    }
}

} // verus!
