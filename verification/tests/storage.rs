use baza_core::error::StorageError;
use baza_core::storage::{MemoryBackend, StorageBackend};

fn ready() -> MemoryBackend {
    let mut b = MemoryBackend::new();
    b.initialize().unwrap();
    b
}

#[test]
fn memory_backend_starts_uninitialized() {
    let mut b = MemoryBackend::new();
    assert!(!b.is_initialized());
    assert_eq!(b.get("a").unwrap_err(), StorageError::BackendUnavailable);
    assert_eq!(b.set("a", b"1").unwrap_err(), StorageError::BackendUnavailable);
    assert_eq!(b.remove("a").unwrap_err(), StorageError::BackendUnavailable);
    assert_eq!(b.list_keys().unwrap_err(), StorageError::BackendUnavailable);
    b.initialize().unwrap();
    assert!(b.is_initialized());
    assert_eq!(b.list_keys().unwrap(), Vec::<String>::new());
}

#[test]
fn initialize_twice_keeps_entries() {
    let mut b = ready();
    b.set("a::x", b"1").unwrap();
    b.initialize().unwrap();
    assert!(b.is_initialized());
    assert_eq!(b.get("a::x").unwrap(), b"1");
    assert_eq!(b.list_keys().unwrap(), vec!["a::x"]);
}

#[test]
fn set_is_an_upsert() {
    let mut b = ready();
    b.set("k", b"one").unwrap();
    assert_eq!(b.get("k").unwrap(), b"one");
    b.set("k", b"two").unwrap();
    assert_eq!(b.get("k").unwrap(), b"two");
    assert_eq!(b.list_keys().unwrap(), vec!["k"]);
    b.set("", b"").unwrap();
    assert_eq!(b.get("").unwrap(), b"");
    assert_eq!(b.list_keys().unwrap(), vec!["k", ""]);
}

#[test]
fn get_and_remove_of_a_missing_key() {
    let mut b = ready();
    assert_eq!(b.get("nope").unwrap_err(), StorageError::NotFound);
    assert_eq!(b.remove("nope").unwrap_err(), StorageError::NotFound);
    b.set("a", b"1").unwrap();
    b.remove("a").unwrap();
    assert_eq!(b.get("a").unwrap_err(), StorageError::NotFound);
    assert_eq!(b.remove("a").unwrap_err(), StorageError::NotFound);
}

#[test]
fn remove_leaves_the_others() {
    let mut b = ready();
    for (k, v) in [("a", 1u8), ("b", 2), ("c", 3), ("d", 4)] {
        b.set(k, &[v]).unwrap();
    }
    b.remove("b").unwrap();
    assert_eq!(b.list_keys().unwrap(), vec!["a", "c", "d"]);
    assert_eq!(b.get("a").unwrap(), vec![1]);
    assert_eq!(b.get("c").unwrap(), vec![3]);
    assert_eq!(b.get("d").unwrap(), vec![4]);
    b.remove("d").unwrap();
    b.remove("a").unwrap();
    assert_eq!(b.list_keys().unwrap(), vec!["c"]);
}

#[test]
fn keys_are_compared_whole() {
    let mut b = ready();
    b.set("ab", b"1").unwrap();
    b.set("a", b"2").unwrap();
    b.set("é", b"3").unwrap();
    b.set("e\u{301}", b"4").unwrap();
    assert_eq!(b.get("ab").unwrap(), b"1");
    assert_eq!(b.get("a").unwrap(), b"2");
    assert_eq!(b.get("é").unwrap(), b"3");
    assert_eq!(b.get("e\u{301}").unwrap(), b"4");
    assert_eq!(b.get("b").unwrap_err(), StorageError::NotFound);
    assert_eq!(b.list_keys().unwrap().len(), 4);
}

#[test]
fn storage_messages() {
    assert_eq!(StorageError::NotFound.message(), "No such key");
    assert_eq!(StorageError::BackendUnavailable.message(), "Storage is unavailable");
    assert_eq!(StorageError::Io.message(), "Storage input/output failed");
}
