use employee_store::employee::Employee;
use employee_store::store::{Store, StoreError};

fn s(x: &str) -> String {
    x.to_string()
}

fn ids_of(store: &Store) -> Vec<String> {
    let mut v: Vec<String> = store.list().into_iter().map(|e| e.id).collect();
    v.sort();
    v
}

#[test]
fn scenario_create_get_delete() {
    let mut store = Store::new();
    let a = store.create(s("Ann"), 30, s("Engineer")).unwrap();
    let e = store.get(&a).unwrap();
    assert_eq!(e.id, a);
    assert_eq!(e.name, "Ann");
    assert_eq!(e.age, 30);
    assert_eq!(e.position, "Engineer");
    store.delete(&a);
    assert_eq!(store.get(&a).unwrap_err(), StoreError::NotFound);
    assert!(store.list().is_empty());
}

#[test]
fn create_then_get_matches_fields() {
    let mut store = Store::new();
    let id = store.create(s("Bo"), 255, s("")).unwrap();
    let e = store.get(&id).unwrap();
    assert_eq!((e.id.as_str(), e.name.as_str(), e.age, e.position.as_str()), (id.as_str(), "Bo", 255, ""));
    let id0 = store.create(s(""), 0, s("Intern")).unwrap();
    let e0 = store.get(&id0).unwrap();
    assert_eq!((e0.name.as_str(), e0.age, e0.position.as_str()), ("", 0, "Intern"));
}

#[test]
fn generated_ids_are_hyphenated_uuids() {
    let mut store = Store::new();
    let id = store.create(s("Cy"), 41, s("Lead")).unwrap();
    assert_eq!(id.len(), 36);
    let dashes: Vec<usize> = id.char_indices().filter(|(_, c)| *c == '-').map(|(i, _)| i).collect();
    assert_eq!(dashes, vec![8, 13, 18, 23]);
    assert!(id.chars().all(|c| c == '-' || c.is_ascii_digit() || ('a'..='f').contains(&c)));
    assert_eq!(id.chars().nth(14), Some('4'));
    assert!(matches!(id.chars().nth(19), Some('8' | '9' | 'a' | 'b')));
}

#[test]
fn list_is_created_minus_deleted() {
    let mut store = Store::new();
    let a = store.create(s("A"), 1, s("x")).unwrap();
    let b = store.create(s("B"), 2, s("y")).unwrap();
    let c = store.create(s("C"), 3, s("z")).unwrap();
    store.delete(&b);
    let d = store.create(s("D"), 4, s("w")).unwrap();
    store.delete(&a);
    let mut want = vec![c.clone(), d.clone()];
    want.sort();
    assert_eq!(ids_of(&store), want);
    assert_eq!(store.len(), 2);
    assert!(store.contains(&c) && store.contains(&d));
    assert!(!store.contains(&a) && !store.contains(&b));
}

#[test]
fn delete_twice_is_a_no_op() {
    let mut store = Store::new();
    let a = store.create(s("A"), 1, s("x")).unwrap();
    let b = store.create(s("B"), 2, s("y")).unwrap();
    store.delete(&a);
    store.delete(&a);
    assert_eq!(ids_of(&store), vec![b.clone()]);
    store.delete(&s("no-such-id"));
    assert_eq!(store.len(), 1);
}

#[test]
fn many_creates_give_distinct_ids() {
    let mut store = Store::new();
    let mut made: Vec<String> = Vec::new();
    for i in 0..100u8 {
        made.push(store.create(format!("e{}", i), i, s("p")).unwrap());
    }
    made.sort();
    made.dedup();
    assert_eq!(made.len(), 100);
    assert_eq!(ids_of(&store), made);
}

#[test]
fn insert_new_refuses_a_taken_id() {
    let mut store = Store::new();
    assert_eq!(store.insert_new(s("k"), s("A"), 1, s("x")), Ok(()));
    assert_eq!(store.insert_new(s("k"), s("B"), 2, s("y")), Err(StoreError::IdTaken));
    let e = store.get(&s("k")).unwrap();
    assert_eq!((e.name.as_str(), e.age), ("A", 1));
    assert_eq!(store.len(), 1);
}

#[test]
fn load_of_saved_records_round_trips() {
    let mut store = Store::new();
    store.create(s("Ann"), 30, s("Engineer")).unwrap();
    store.create(s("Bob"), 52, s("Manager")).unwrap();
    let saved = store.list();
    let back = Store::load(Some(saved.clone()));
    let again = back.list();
    assert_eq!(again.len(), saved.len());
    for (x, y) in saved.iter().zip(again.iter()) {
        assert_eq!((&x.id, &x.name, x.age, &x.position), (&y.id, &y.name, y.age, &y.position));
    }
    let empty = Store::load(Some(Store::new().list()));
    assert_eq!(empty.len(), 0);
}

#[test]
fn undecodable_snapshot_loads_empty() {
    assert_eq!(Store::load(None).len(), 0);
}

#[test]
fn duplicate_ids_in_snapshot_load_empty() {
    let recs = vec![
        Employee::new(s("k"), s("A"), 1, s("x")),
        Employee::new(s("j"), s("B"), 2, s("y")),
        Employee::new(s("k"), s("C"), 3, s("z")),
    ];
    assert_eq!(Store::from_records(recs).len(), 0);
    let ok = vec![Employee::new(s("k"), s("A"), 1, s("x")), Employee::new(s("j"), s("B"), 2, s("y"))];
    let st = Store::from_records(ok);
    assert_eq!(st.len(), 2);
    assert_eq!(st.get(&s("j")).unwrap().name, "B");
}

#[test]
fn duplicate_keeps_fields() {
    let e = Employee::new(s("i"), s("N"), 9, s("P"));
    let d = e.duplicate();
    assert_eq!((d.id, d.name, d.age, d.position), (s("i"), s("N"), 9, s("P")));
}
