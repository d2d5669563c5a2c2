use baza_core::cipher::{decrypt_data, derive_key, NONCE_LEN, TAG_LEN};
use baza_core::dump::{restore_entries, Algorithm};
use baza_core::error::{
    CryptoError, DumpError, NameError, StorageError, TransferError, VaultError,
};
use baza_core::password::{LETTERS, NUMBERS, SYMBOLS};
use baza_core::storage::{MemoryBackend, StorageBackend, StorageEntry};
use baza_core::vault::{Vault, VaultState, GENERATED_LEN};

fn unlocked(passphrase: &str) -> Vault<MemoryBackend> {
    let mut v = Vault::new(MemoryBackend::new(), "::");
    v.init(Some(passphrase.to_string())).unwrap();
    v.unlock(passphrase);
    v
}

fn sorted(mut keys: Vec<String>) -> Vec<String> {
    keys.sort();
    keys
}

#[test]
fn end_to_end() {
    let mut v = Vault::new(MemoryBackend::new(), "::");
    assert_eq!(
        v.init(Some("correct-horse".to_string())).unwrap(),
        "correct-horse"
    );
    v.unlock("correct-horse");
    v.add("work::email::login", b"s3cr3t").unwrap();
    assert_eq!(v.read("work::email::login").unwrap(), b"s3cr3t");
    v.delete("work::email::login").unwrap();
    assert_eq!(
        v.read("work::email::login").unwrap_err(),
        VaultError::Storage(StorageError::NotFound)
    );
}

#[test]
fn states_follow_init_unlock_lock() {
    let mut v = Vault::new(MemoryBackend::new(), "::");
    assert_eq!(v.state(), VaultState::Uninitialized);
    assert!(v.is_locked());
    v.init(None).unwrap();
    assert_eq!(v.state(), VaultState::Locked);
    v.unlock("p");
    assert_eq!(v.state(), VaultState::Unlocked);
    assert!(!v.is_locked());
    v.lock();
    assert_eq!(v.state(), VaultState::Locked);
    v.lock();
    assert_eq!(v.state(), VaultState::Locked);
    v.unlock("p");
    v.init(None).unwrap();
    assert_eq!(v.state(), VaultState::Locked);
}

#[test]
fn init_hands_out_a_fresh_passphrase() {
    let mut v = Vault::new(MemoryBackend::new(), "::");
    let a = v.init(None).unwrap();
    let b = v.init(None).unwrap();
    assert_ne!(a, b);
    for p in [a, b] {
        assert_eq!(p.len(), 36);
        for (i, c) in p.chars().enumerate() {
            if i == 8 || i == 13 || i == 18 || i == 23 {
                assert_eq!(c, '-');
            } else {
                assert!(c.is_ascii_hexdigit());
            }
        }
    }
}

#[test]
fn locked_vault_gates_every_operation() {
    let mut v = unlocked("pw");
    v.add("a::x", b"1").unwrap();
    v.lock();
    assert_eq!(v.read("a::x").unwrap_err(), VaultError::Locked);
    assert_eq!(v.add("a::y", b"2").unwrap_err(), VaultError::Locked);
    assert_eq!(v.update("a::x", b"2").unwrap_err(), VaultError::Locked);
    assert_eq!(v.delete("a::x").unwrap_err(), VaultError::Locked);
    assert_eq!(v.generate("a::z").unwrap_err(), VaultError::Locked);
    assert_eq!(v.copy_to_clipboard("a::x", 45).unwrap_err(), VaultError::Locked);
    assert_eq!(v.read("").unwrap_err(), VaultError::Locked);
    assert_eq!(v.list().unwrap(), vec!["a::x"]);
    v.unlock("pw");
    assert_eq!(v.read("a::x").unwrap(), b"1");
    v.update("a::x", b"2").unwrap();
    v.add("a::y", b"3").unwrap();
    v.delete("a::y").unwrap();
    assert_eq!(v.read("a::x").unwrap(), b"2");
}

#[test]
fn wrong_passphrase_fails_to_authenticate() {
    let mut v = unlocked("right");
    v.add("a", b"secret").unwrap();
    v.lock();
    v.unlock("wrong");
    assert_eq!(
        v.read("a").unwrap_err(),
        VaultError::Crypto(CryptoError::AuthenticationFailed)
    );
    v.unlock(" right\n");
    assert_eq!(v.read("a").unwrap(), b"secret");
}

#[test]
fn empty_paths_are_refused() {
    let mut v = unlocked("pw");
    let e = VaultError::Name(NameError::EmptyPath);
    assert_eq!(v.add("", b"1").unwrap_err(), e);
    assert_eq!(v.add("  \n", b"1").unwrap_err(), e);
    assert_eq!(v.read(" ").unwrap_err(), e);
    assert_eq!(v.update("", b"1").unwrap_err(), e);
    assert_eq!(v.delete("\t").unwrap_err(), e);
    assert_eq!(v.generate("").unwrap_err(), e);
    assert_eq!(v.copy_to_clipboard("", 1).unwrap_err(), e);
    assert!(v.list().unwrap().is_empty());
}

#[test]
fn paths_are_trimmed_into_keys() {
    let mut v = unlocked("pw");
    v.add("  work::mail \n", b"1").unwrap();
    assert_eq!(v.list().unwrap(), vec!["work::mail"]);
    assert_eq!(v.read("work::mail").unwrap(), b"1");
    assert_eq!(v.read("\twork::mail").unwrap(), b"1");
}

#[test]
fn stored_values_are_ciphertext() {
    let mut v = unlocked("pw");
    v.add("a", b"plain text").unwrap();
    let stored = v.storage().get("a").unwrap();
    assert_eq!(stored.len(), NONCE_LEN + 10 + TAG_LEN);
    assert!(!stored.windows(10).any(|w| w == b"plain text"));
    assert_eq!(decrypt_data(&stored, &derive_key("pw")).unwrap(), b"plain text");
    assert_eq!(v.key_material().unwrap().to_bytes(), derive_key("pw").to_bytes());
}

#[test]
fn add_overwrites_and_update_wants_an_entry() {
    let mut v = unlocked("pw");
    assert_eq!(
        v.update("a", b"1").unwrap_err(),
        VaultError::Storage(StorageError::NotFound)
    );
    assert!(v.list().unwrap().is_empty());
    v.add("a", b"1").unwrap();
    v.add("a", b"2").unwrap();
    assert_eq!(v.read("a").unwrap(), b"2");
    v.update("a", b"3").unwrap();
    assert_eq!(v.read("a").unwrap(), b"3");
    assert_eq!(v.list().unwrap(), vec!["a"]);
    assert_eq!(
        v.delete("b").unwrap_err(),
        VaultError::Storage(StorageError::NotFound)
    );
}

#[test]
fn search_is_scoped_by_the_pattern() {
    let mut v = unlocked("pw");
    v.add("a::x", b"1").unwrap();
    v.add("a::y", b"2").unwrap();
    v.add("b::z", b"3").unwrap();
    let expected = vec!["a::x".to_string(), "a::y".to_string()];
    assert_eq!(sorted(v.search("^a::").unwrap()), expected);
    v.lock();
    assert_eq!(sorted(v.search("^a::").unwrap()), expected);
    assert_eq!(sorted(v.search(".*").unwrap()), vec!["a::x", "a::y", "b::z"]);
    assert_eq!(sorted(v.search("z$").unwrap()), vec!["b::z"]);
    assert_eq!(sorted(v.search("::[xz]").unwrap()), vec!["a::x", "b::z"]);
    assert!(v.search("^c").unwrap().is_empty());
    assert_eq!(sorted(v.search("").unwrap()).len(), 3);
}

#[test]
fn search_refuses_a_bad_pattern() {
    let mut v = unlocked("pw");
    assert_eq!(v.search("(").unwrap_err(), VaultError::InvalidPattern);
    v.add("a", b"1").unwrap();
    assert_eq!(v.search("[a-").unwrap_err(), VaultError::InvalidPattern);
    let fresh: Vault<MemoryBackend> = Vault::new(MemoryBackend::new(), "::");
    assert_eq!(
        fresh.search("(").unwrap_err(),
        VaultError::Storage(StorageError::BackendUnavailable)
    );
}

#[test]
fn copy_takes_the_first_line() {
    let mut v = unlocked("pw");
    v.add("a", b"  hunter2 \nuser: me\n").unwrap();
    let c = v.copy_to_clipboard("a", 45).unwrap();
    assert_eq!(c.text, "hunter2");
    assert_eq!(c.clear_after, 45);
    v.add("b", b"no newline").unwrap();
    assert_eq!(v.copy_to_clipboard("b", 0).unwrap().text, "no newline");
    v.add("c", b"\nsecond").unwrap();
    assert_eq!(v.copy_to_clipboard("c", 1).unwrap().text, "");
    v.add("d", b"").unwrap();
    assert_eq!(v.copy_to_clipboard("d", 1).unwrap().text, "");
    v.add("e", &[0xff, 0xfe]).unwrap();
    assert_eq!(v.copy_to_clipboard("e", 1).unwrap_err(), VaultError::InvalidText);
    assert_eq!(
        v.copy_to_clipboard("f", 1).unwrap_err(),
        VaultError::Storage(StorageError::NotFound)
    );
}

#[test]
fn generate_stores_a_password() {
    let mut v = unlocked("pw");
    v.generate("site::login").unwrap();
    let p = String::from_utf8(v.read("site::login").unwrap()).unwrap();
    assert_eq!(p.chars().count(), GENERATED_LEN as usize);
    for c in p.chars() {
        assert!(LETTERS.contains(c) || NUMBERS.contains(c) || SYMBOLS.contains(c));
    }
    v.generate("site::other").unwrap();
    assert_ne!(v.read("site::other").unwrap(), p.as_bytes());
}

#[test]
fn dump_and_restore_pass_entries_through() {
    let mut v = unlocked("pw");
    v.add("a::x", b"1").unwrap();
    v.add("b", b"2").unwrap();
    let all = v.dump().unwrap();
    assert_eq!(all.len(), 2);
    assert_eq!(all[0].key, "a::x");
    assert_eq!(all[0].value, v.storage().get("a::x").unwrap());
    assert_eq!(all[1].key, "b");

    let mut w = unlocked("pw");
    w.add("old", b"gone").unwrap();
    w.restore(&all).unwrap();
    assert_eq!(sorted(w.list().unwrap()), vec!["a::x", "b"]);
    assert_eq!(w.read("a::x").unwrap(), b"1");
    assert_eq!(w.read("b").unwrap(), b"2");
    assert_eq!(w.dump().unwrap(), all);

    w.restore(&Vec::new()).unwrap();
    assert!(w.list().unwrap().is_empty());
    let twice = vec![
        StorageEntry { key: "k".to_string(), value: vec![1] },
        StorageEntry { key: "k".to_string(), value: vec![2] },
    ];
    w.restore(&twice).unwrap();
    assert_eq!(w.storage().get("k").unwrap(), vec![2]);
    assert_eq!(w.list().unwrap(), vec!["k"]);
}

#[test]
fn export_and_import_carry_a_vault_over() {
    let mut v = unlocked("pw");
    v.add("a::x", b"1").unwrap();
    v.add("b", b"2").unwrap();
    for alg in [Algorithm::Uncompressed, Algorithm::Lz4, Algorithm::Deflate, Algorithm::Zstd] {
        let bytes = v.export(alg).unwrap();
        assert_eq!(&bytes[..4], b"BZA1");
        assert_eq!(restore_entries(&bytes).unwrap(), v.dump().unwrap());
        let mut w = unlocked("pw");
        w.add("old", b"gone").unwrap();
        w.import(&bytes).unwrap();
        assert_eq!(sorted(w.list().unwrap()), vec!["a::x", "b"]);
        assert_eq!(w.read("a::x").unwrap(), b"1");
        assert_eq!(w.read("b").unwrap(), b"2");
    }
}

#[test]
fn an_unsound_dump_leaves_the_vault_alone() {
    let mut v = unlocked("pw");
    v.add("keep", b"1").unwrap();
    let before = v.dump().unwrap();
    let good = v.export(Algorithm::Zstd).unwrap();
    assert_eq!(
        v.import(&good[..18]).unwrap_err(),
        TransferError::Dump(DumpError::TruncatedHeader)
    );
    let mut bad = good.clone();
    bad[15] ^= 0xFF;
    assert_eq!(
        v.import(&bad).unwrap_err(),
        TransferError::Dump(DumpError::ChecksumMismatch)
    );
    assert_eq!(v.dump().unwrap(), before);
    let fresh: Vault<MemoryBackend> = Vault::new(MemoryBackend::new(), "::");
    assert_eq!(
        fresh.export(Algorithm::Lz4).unwrap_err(),
        TransferError::Vault(VaultError::Storage(StorageError::BackendUnavailable))
    );
    assert_eq!(
        TransferError::Dump(DumpError::BadMagic).message(),
        "Invalid magic header"
    );
    assert_eq!(
        TransferError::Vault(VaultError::InvalidPattern).message(),
        "Invalid search pattern"
    );
}

#[test]
fn uninitialized_storage_is_unavailable() {
    let mut v = Vault::new(MemoryBackend::new(), "::");
    v.unlock("pw");
    let e = VaultError::Storage(StorageError::BackendUnavailable);
    assert_eq!(v.add("a", b"1").unwrap_err(), e);
    assert_eq!(v.read("a").unwrap_err(), e);
    assert_eq!(v.update("a", b"1").unwrap_err(), e);
    assert_eq!(v.delete("a").unwrap_err(), e);
    assert_eq!(v.list().unwrap_err(), e);
    assert_eq!(v.dump().unwrap_err(), e);
    assert_eq!(v.restore(&Vec::new()).unwrap_err(), e);
}

struct Broken;

impl StorageBackend for Broken {
    fn initialize(&mut self) -> Result<(), StorageError> {
        Err(StorageError::Io)
    }

    fn is_initialized(&self) -> bool {
        true
    }

    fn get(&self, _key: &str) -> Result<Vec<u8>, StorageError> {
        Err(StorageError::Io)
    }

    fn set(&mut self, _key: &str, _value: &[u8]) -> Result<(), StorageError> {
        Err(StorageError::Io)
    }

    fn remove(&mut self, _key: &str) -> Result<(), StorageError> {
        Err(StorageError::Io)
    }

    fn list_keys(&self) -> Result<Vec<String>, StorageError> {
        Err(StorageError::Io)
    }
}

#[test]
fn failures_of_the_medium_are_passed_on() {
    let mut v = Vault::new(Broken, "::");
    let e = VaultError::Storage(StorageError::Io);
    assert_eq!(v.init(None).unwrap_err(), e);
    assert_eq!(v.read("a").unwrap_err(), VaultError::Locked);
    v.unlock("pw");
    assert_eq!(v.add("a", b"1").unwrap_err(), e);
    assert_eq!(v.read("a").unwrap_err(), e);
    assert_eq!(v.update("a", b"1").unwrap_err(), e);
    assert_eq!(v.delete("a").unwrap_err(), e);
    assert_eq!(v.search(".*").unwrap_err(), e);
    assert_eq!(v.copy_to_clipboard("a", 1).unwrap_err(), e);
    assert_eq!(v.read("").unwrap_err(), VaultError::Name(NameError::EmptyPath));
}

#[test]
fn other_delimiters() {
    let mut v = Vault::new(MemoryBackend::new(), "/");
    v.init(None).unwrap();
    v.unlock("pw");
    v.add("a/b::c", b"1").unwrap();
    assert_eq!(v.list().unwrap(), vec!["a/b::c"]);
    assert_eq!(v.read(" a/b::c ").unwrap(), b"1");
}

#[test]
fn vault_messages() {
    assert_eq!(
        VaultError::Locked.message(),
        "No key found. Try using the command `baza unlock`"
    );
    assert_eq!(
        VaultError::Name(NameError::EmptyPath).message(),
        "Failed to parse container name"
    );
    assert_eq!(
        VaultError::Crypto(CryptoError::AuthenticationFailed).message(),
        "Authentication failed"
    );
    assert_eq!(VaultError::Storage(StorageError::NotFound).message(), "No such key");
    assert_eq!(VaultError::InvalidPattern.message(), "Invalid search pattern");
    assert_eq!(VaultError::InvalidText.message(), "Failed to decode utf8");
}
