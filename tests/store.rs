use contacts::{Contact, ContactsStore, StoreError};
use std::sync::{Arc, Mutex};

fn record(id: i32, name: &str, email: &str) -> Contact {
    Contact { id, name: name.to_string(), email: email.to_string() }
}

#[test]
fn alice_and_bob_scenario() {
    let mut store = ContactsStore::new();
    let alice = store.add_contact("Alice".to_string(), "alice@example.com".to_string());
    assert_eq!(alice, record(1, "Alice", "alice@example.com"));
    let bob = store.add_contact("Bob".to_string(), "bob@example.com".to_string());
    assert_eq!(bob.id, 2);
    assert_eq!(store.contact_from_id(1), Ok(record(1, "Alice", "alice@example.com")));
    assert_eq!(store.remove_contact(1), Ok(()));
    assert_eq!(store.contact_from_id(1), Err(StoreError::NotFound));
    assert_eq!(store.contact_from_id(2), Ok(record(2, "Bob", "bob@example.com")));
}

#[test]
fn deleting_the_largest_id_lets_it_be_reused() {
    let mut store = ContactsStore::new();
    let a = store.add_contact("A".to_string(), "a@x".to_string());
    let b = store.add_contact("B".to_string(), "b@x".to_string());
    assert_eq!((a.id, b.id), (1, 2));
    assert_eq!(store.remove_contact(2), Ok(()));
    let c = store.add_contact("C".to_string(), "c@x".to_string());
    assert_eq!(c.id, 2);
    assert_eq!(store.contact_from_id(2), Ok(record(2, "C", "c@x")));
}

#[test]
fn deleting_a_smaller_id_does_not_lower_the_next() {
    let mut store = ContactsStore::new();
    for _ in 0..3 {
        store.add_contact("n".to_string(), "e".to_string());
    }
    assert_eq!(store.remove_contact(1), Ok(()));
    let d = store.add_contact("D".to_string(), "d@x".to_string());
    assert_eq!(d.id, 4);
}

#[test]
fn create_ids_strictly_increase() {
    let mut store = ContactsStore::new();
    let mut last = 0;
    for i in 0..50 {
        let c = store.add_contact(format!("n{}", i), format!("e{}", i));
        assert!(c.id > last);
        assert_eq!(c.id, i + 1);
        last = c.id;
    }
}

#[test]
fn created_record_reads_back() {
    let mut store = ContactsStore::new();
    store.add_contact("First".to_string(), "first@x".to_string());
    let c = store.add_contact("Zoë Ünïcode".to_string(), String::new());
    assert_eq!(c.name, "Zoë Ünïcode");
    assert_eq!(c.email, "");
    assert_eq!(store.contact_from_id(c.id), Ok(c.clone()));
}

#[test]
fn empty_store_finds_nothing() {
    let mut store = ContactsStore::new();
    for id in [i32::MIN, -1, 0, 1, 2, 1000, i32::MAX] {
        assert_eq!(store.contact_from_id(id), Err(StoreError::NotFound));
        assert_eq!(store.remove_contact(id), Err(StoreError::NotFound));
    }
}

#[test]
fn delete_removes_the_record() {
    let mut store = ContactsStore::new();
    let a = store.add_contact("A".to_string(), "a@x".to_string());
    let b = store.add_contact("B".to_string(), "b@x".to_string());
    assert_eq!(store.remove_contact(a.id), Ok(()));
    assert_eq!(store.contact_from_id(a.id), Err(StoreError::NotFound));
    assert_eq!(store.contact_from_id(b.id), Ok(b));
}

#[test]
fn second_delete_reports_not_found() {
    let mut store = ContactsStore::new();
    let a = store.add_contact("A".to_string(), "a@x".to_string());
    assert_eq!(store.remove_contact(a.id), Ok(()));
    assert_eq!(store.remove_contact(a.id), Err(StoreError::NotFound));
}

#[test]
fn failed_delete_changes_nothing() {
    let mut store = ContactsStore::new();
    let a = store.add_contact("A".to_string(), "a@x".to_string());
    assert_eq!(store.remove_contact(7), Err(StoreError::NotFound));
    assert_eq!(store.contact_from_id(a.id), Ok(a));
    assert_eq!(store.add_contact("B".to_string(), "b@x".to_string()).id, 2);
}

#[test]
fn creates_through_a_shared_lock_keep_every_record() {
    let shared = Arc::new(Mutex::new(ContactsStore::new()));
    let n = 25;
    let mut ids = Vec::new();
    for i in 0..n {
        let handle = Arc::clone(&shared);
        let c = handle.lock().unwrap().add_contact(format!("n{}", i), format!("e{}", i));
        ids.push(c.id);
    }
    let mut sorted = ids.clone();
    sorted.sort();
    sorted.dedup();
    assert_eq!(sorted.len(), n as usize);
    let store = shared.lock().unwrap();
    for (i, id) in ids.iter().enumerate() {
        assert_eq!(store.contact_from_id(*id), Ok(record(*id, &format!("n{}", i), &format!("e{}", i))));
    }
    assert_eq!(store.contact_from_id(n + 1), Err(StoreError::NotFound));
}

#[test]
fn cloned_contact_is_equal() {
    let c = record(3, "Carol", "carol@example.com");
    assert_eq!(c.clone(), c);
}
