//! The vault: names, cipher and one storage engine composed into the
//! operations a front end calls.

use crate::cipher::{
    decrypt_data, derive_key, encrypt_data, opened_blob, sha256, Key, MAX_PLAINTEXT_LEN, NONCE_LEN,
    TAG_LEN,
};
use crate::container::resolve;
use crate::codec::entries_bytes;
use crate::dump::{
    dump_entries, is_dump, no_payload, restore_entries, restore_entries_spec, Algorithm,
};
use crate::error::{CryptoError, DumpError, NameError, StorageError, TransferError, VaultError};
use crate::password::{alphabet, alphabet_spec, draw};
use crate::storage::{
    entry_views, keys_of, lemma_map_of_distinct, lemma_map_of_dom, map_of, StorageBackend,
    StorageEntry,
};
use crate::text::{first_line, first_line_trimmed, string_from_utf8, trim};
use vstd::prelude::*;
use vstd::string::*;
use vstd::utf8::{decode_utf8, encode_utf8, valid_utf8};

verus! {

/// Where a vault stands between creation and use.
#[derive(Debug, Clone, Copy, PartialEq, Eq, Structural)]
pub enum VaultState {
    /// The storage engine has not been initialized.
    Uninitialized,
    /// Initialized; no key material is available.
    Locked,
    /// Initialized; key material is available.
    Unlocked,
}

/// Whether `pattern` is a regular expression that the matcher accepts.
pub uninterp spec fn regex_valid(pattern: Seq<char>) -> bool;

/// Whether the regular expression `pattern` matches somewhere in `text`.
pub uninterp spec fn regex_matches(pattern: Seq<char>, text: Seq<char>) -> bool;

/// `Regex::new` of crate regex on `pattern`, then `Regex::is_match` on
/// `text`: whether the pattern matches somewhere in the text, and nothing
/// where the pattern does not compile.
#[verifier::external_body]
fn pattern_is_match(pattern: &str, text: &str) -> (r: Option<bool>)
    ensures
        r is Some <==> regex_valid(pattern@),
        r matches Some(b) ==> b == regex_matches(pattern@, text@),
{
    match regex::Regex::new(pattern) {
        Ok(re) => Some(re.is_match(text)),
        Err(_) => None,
    }
}

/// Whether `p` has the shape of a hyphenated UUID: 36 characters in groups
/// of 8, 4, 4, 4 and 12 with a hyphen between each two.
pub open spec fn is_hyphenated(p: Seq<char>) -> bool {
    p.len() == 36 && p[8] == '-' && p[13] == '-' && p[18] == '-' && p[23] == '-'
}

/// `Uuid::new_v4` of crate uuid, in hyphenated form: 36 characters with a
/// hyphen behind the groups of 8, 4, 4 and 4. Of the other characters
/// nothing is known here.
#[verifier::external_body]
fn fresh_passphrase() -> (p: String)
    ensures
        is_hyphenated(p@),
{
    uuid::Uuid::new_v4().hyphenated().to_string()
}

/// The length of the password that `Vault::generate` stores.
pub const GENERATED_LEN: u8 = 12;

/// What is to be put on the clipboard, and for how long.
#[derive(Debug, Clone, PartialEq, Eq)]
pub struct ClipboardRequest {
    /// The text to copy.
    pub text: String,
    /// Seconds after which the clipboard is to be cleared.
    pub clear_after: u64,
}

/// A vault over the storage engine `B`.
pub struct Vault<B: StorageBackend> {
    backend: B,
    key: Option<Key>,
    box_delimiter: String,
}

/// The error that stops an operation on `path` before storage is touched:
/// no key material, or a path that names nothing.
pub open spec fn gate(key: Option<Seq<u8>>, path: Seq<char>) -> Option<VaultError> {
    if key is None {
        Some(VaultError::Locked)
    } else if trim(path).len() == 0 {
        Some(VaultError::Name(NameError::EmptyPath))
    } else {
        None
    }
}

/// What reading `path` gives where the storage engine does not fail.
pub open spec fn read_spec(
    entries: Map<Seq<char>, Seq<u8>>,
    key: Option<Seq<u8>>,
    path: Seq<char>,
) -> Result<Seq<u8>, VaultError> {
    match gate(key, path) {
        Some(e) => Err(e),
        None => if !entries.contains_key(trim(path)) {
            Err(VaultError::Storage(StorageError::NotFound))
        } else {
            match opened_blob(key->0, entries[trim(path)]) {
                Ok(p) => Ok(p),
                Err(e) => Err(VaultError::Crypto(e)),
            }
        },
    }
}

/// Whether `e` reports a failure of the storage medium.
pub open spec fn is_medium_failure(e: VaultError) -> bool {
    e matches VaultError::Storage(s) && s != StorageError::NotFound
}

/// A result with its bytes as a sequence.
pub open spec fn bytes_of(r: Result<Vec<u8>, VaultError>) -> Result<Seq<u8>, VaultError> {
    match r {
        Ok(v) => Ok(v@),
        Err(e) => Err(e),
    }
}

impl<B: StorageBackend> Vault<B> {
    /// The storage engine.
    pub closed spec fn backend(&self) -> B {
        self.backend
    }

    /// The key material, where the vault is unlocked.
    pub closed spec fn key(&self) -> Option<Seq<u8>> {
        match self.key {
            Some(k) => Some(k@),
            None => None,
        }
    }

    /// The delimiter between the segments of a path.
    pub closed spec fn delimiter(&self) -> Seq<char> {
        self.box_delimiter@
    }

    /// The entries stored, by key.
    pub open spec fn entries(&self) -> Map<Seq<char>, Seq<u8>> {
        self.backend().entries()
    }

    /// Whether the storage engine is initialized and its medium cannot
    /// fail: every operation then succeeds as far as the entries allow.
    pub open spec fn available(&self) -> bool {
        self.backend().initialized() && self.backend().reliable()
    }

    /// Whether `other` is this vault but for the entries stored and the key
    /// material.
    pub open spec fn same_setup(&self, other: &Self) -> bool {
        &&& self.delimiter() == other.delimiter()
        &&& self.backend().initialized() == other.backend().initialized()
        &&& self.backend().reliable() == other.backend().reliable()
    }

    /// The state of the vault.
    pub open spec fn state_spec(&self) -> VaultState {
        if !self.backend().initialized() {
            VaultState::Uninitialized
        } else if self.key() is None {
            VaultState::Locked
        } else {
            VaultState::Unlocked
        }
    }

    /// A locked vault over `backend`, with `box_delimiter` between the
    /// segments of a path.
    pub fn new(backend: B, box_delimiter: &str) -> (v: Self)
        ensures
            v.backend() == backend,
            v.key() is None,
            v.delimiter() == box_delimiter@,
    {
        Vault { backend, key: None, box_delimiter: box_delimiter.to_string() }
    }

    /// The state of the vault.
    pub fn state(&self) -> (s: VaultState)
        ensures
            s == self.state_spec(),
    {
        if !self.backend.is_initialized() {
            VaultState::Uninitialized
        } else if self.key.is_none() {
            VaultState::Locked
        } else {
            VaultState::Unlocked
        }
    }

    /// Initializes the storage engine and leaves the vault locked. The
    /// passphrase is the one given or, where none is given, a fresh random
    /// one; it is handed back here and cannot be recovered later.
    pub fn init(&mut self, passphrase: Option<String>) -> (r: Result<String, VaultError>)
        ensures
            final(self).key() is None,
            final(self).entries() == old(self).entries(),
            final(self).delimiter() == old(self).delimiter(),
            final(self).backend().reliable() == old(self).backend().reliable(),
            match r {
                Ok(p) => {
                    &&& final(self).backend().initialized()
                    &&& match passphrase {
                        Some(given) => p == given,
                        None => is_hyphenated(p@),
                    }
                },
                Err(e) => {
                    &&& is_medium_failure(e)
                    &&& !old(self).backend().reliable()
                    &&& final(self).backend().initialized() == old(self).backend().initialized()
                },
            },
    {
        self.key = None;
        match self.backend.initialize() {
            Ok(()) => {},
            Err(e) => { return Err(VaultError::Storage(e)); },
        }
        match passphrase {
            Some(given) => Ok(given),
            None => Ok(fresh_passphrase()),
        }
    }

    /// Whether no key material is available.
    pub fn is_locked(&self) -> (b: bool)
        ensures
            b == (self.key() is None),
    {
        self.key.is_none()
    }

    /// Removes the key material. The entries stay as they are.
    pub fn lock(&mut self)
        ensures
            final(self).key() is None,
            final(self).backend() == old(self).backend(),
            final(self).delimiter() == old(self).delimiter(),
    {
        self.key = None;
    }

    /// Makes the key of `passphrase` available. The passphrase is not held
    /// against anything: with another one than the entries were stored
    /// under, reading them fails to authenticate.
    pub fn unlock(&mut self, passphrase: &str)
        ensures
            final(self).key() == Some(sha256(encode_utf8(trim(passphrase@)))),
            final(self).backend() == old(self).backend(),
            final(self).delimiter() == old(self).delimiter(),
    {
        self.key = Some(derive_key(passphrase));
    }

    /// Makes `key` available as it is: for key material that was kept
    /// outside the vault while it was unlocked.
    pub fn unlock_with(&mut self, key: Key)
        ensures
            final(self).key() == Some(key@),
            final(self).backend() == old(self).backend(),
            final(self).delimiter() == old(self).delimiter(),
    {
        self.key = Some(key);
    }

    /// The key material, where the vault is unlocked.
    pub fn key_material(&self) -> (k: Option<Key>)
        ensures
            match k {
                Some(key) => self.key() == Some(key@),
                None => self.key() is None,
            },
    {
        self.key
    }

    /// The storage engine.
    pub fn storage(&self) -> (b: &B)
        ensures
            *b == self.backend(),
    {
        &self.backend
    }

    /// Resolves `path`, encrypts `plaintext` and stores it under the path's
    /// key, whether or not an entry is there.
    pub fn add(&mut self, path: &str, plaintext: &[u8]) -> (r: Result<(), VaultError>)
        ensures
            final(self).key() == old(self).key(),
            final(self).same_setup(old(self)),
            match r {
                Ok(()) => {
                    let k = trim(path@);
                    let blob = final(self).entries()[k];
                    &&& gate(old(self).key(), path@) is None
                    &&& plaintext@.len() <= MAX_PLAINTEXT_LEN
                    &&& final(self).entries() == old(self).entries().insert(k, blob)
                    &&& blob.len() == NONCE_LEN + plaintext@.len() + TAG_LEN
                    &&& opened_blob(old(self).key()->0, blob) == Ok::<Seq<u8>, CryptoError>(
                        plaintext@,
                    )
                },
                Err(e) => {
                    &&& final(self).entries() == old(self).entries()
                    &&& match gate(old(self).key(), path@) {
                        Some(g) => e == g,
                        None => if plaintext@.len() > MAX_PLAINTEXT_LEN {
                            e == VaultError::Crypto(CryptoError::PlaintextTooLong)
                        } else {
                            is_medium_failure(e) && !old(self).available()
                        },
                    }
                },
            },
    {
        let key = match self.key {
            Some(k) => k,
            None => { return Err(VaultError::Locked); },
        };
        let name = match resolve(path, self.box_delimiter.as_str()) {
            Ok(c) => c.key(),
            Err(e) => { return Err(VaultError::Name(e)); },
        };
        let blob = match encrypt_data(plaintext, &key) {
            Ok(b) => b,
            Err(e) => { return Err(VaultError::Crypto(e)); },
        };
        match self.backend.set(name.as_str(), blob.as_slice()) {
            Ok(()) => Ok(()),
            Err(e) => Err(VaultError::Storage(e)),
        }
    }

    /// Resolves `path`, fetches the entry under its key and decrypts it.
    pub fn read(&self, path: &str) -> (r: Result<Vec<u8>, VaultError>)
        ensures
            bytes_of(r) == read_spec(self.entries(), self.key(), path@) || (r matches Err(e)
                && is_medium_failure(e) && gate(self.key(), path@) is None
                && !self.available()),
    {
        let key = match self.key {
            Some(k) => k,
            None => { return Err(VaultError::Locked); },
        };
        let name = match resolve(path, self.box_delimiter.as_str()) {
            Ok(c) => c.key(),
            Err(e) => { return Err(VaultError::Name(e)); },
        };
        let blob = match self.backend.get(name.as_str()) {
            Ok(b) => b,
            Err(e) => { return Err(VaultError::Storage(e)); },
        };
        match decrypt_data(blob.as_slice(), &key) {
            Ok(p) => Ok(p),
            Err(e) => Err(VaultError::Crypto(e)),
        }
    }

    /// Replaces the entry under the key of `path` with `plaintext`,
    /// encrypted. An entry must be there.
    pub fn update(&mut self, path: &str, plaintext: &[u8]) -> (r: Result<(), VaultError>)
        ensures
            final(self).key() == old(self).key(),
            final(self).same_setup(old(self)),
            match r {
                Ok(()) => {
                    let k = trim(path@);
                    let blob = final(self).entries()[k];
                    &&& gate(old(self).key(), path@) is None
                    &&& old(self).entries().contains_key(k)
                    &&& plaintext@.len() <= MAX_PLAINTEXT_LEN
                    &&& final(self).entries() == old(self).entries().insert(k, blob)
                    &&& blob.len() == NONCE_LEN + plaintext@.len() + TAG_LEN
                    &&& opened_blob(old(self).key()->0, blob) == Ok::<Seq<u8>, CryptoError>(
                        plaintext@,
                    )
                },
                Err(e) => {
                    &&& final(self).entries() == old(self).entries()
                    &&& match gate(old(self).key(), path@) {
                        Some(g) => e == g,
                        None => {
                            ||| is_medium_failure(e) && !old(self).available()
                            ||| e == VaultError::Storage(StorageError::NotFound)
                                && !old(self).entries().contains_key(trim(path@))
                            ||| e == VaultError::Crypto(CryptoError::PlaintextTooLong)
                                && old(self).entries().contains_key(trim(path@))
                                && plaintext@.len() > MAX_PLAINTEXT_LEN
                        },
                    }
                },
            },
    {
        let key = match self.key {
            Some(k) => k,
            None => { return Err(VaultError::Locked); },
        };
        let name = match resolve(path, self.box_delimiter.as_str()) {
            Ok(c) => c.key(),
            Err(e) => { return Err(VaultError::Name(e)); },
        };
        match self.backend.get(name.as_str()) {
            Ok(_) => {},
            Err(e) => { return Err(VaultError::Storage(e)); },
        }
        let blob = match encrypt_data(plaintext, &key) {
            Ok(b) => b,
            Err(e) => { return Err(VaultError::Crypto(e)); },
        };
        match self.backend.set(name.as_str(), blob.as_slice()) {
            Ok(()) => Ok(()),
            Err(e) => Err(VaultError::Storage(e)),
        }
    }

    /// Removes the entry under the key of `path`. An entry must be there.
    pub fn delete(&mut self, path: &str) -> (r: Result<(), VaultError>)
        ensures
            final(self).key() == old(self).key(),
            final(self).same_setup(old(self)),
            match r {
                Ok(()) => {
                    &&& gate(old(self).key(), path@) is None
                    &&& old(self).entries().contains_key(trim(path@))
                    &&& final(self).entries() == old(self).entries().remove(trim(path@))
                },
                Err(e) => {
                    &&& final(self).entries() == old(self).entries()
                    &&& match gate(old(self).key(), path@) {
                        Some(g) => e == g,
                        None => {
                            ||| is_medium_failure(e) && !old(self).available()
                            ||| e == VaultError::Storage(StorageError::NotFound)
                                && !old(self).entries().contains_key(trim(path@))
                        },
                    }
                },
            },
    {
        if self.key.is_none() {
            return Err(VaultError::Locked);
        }
        let name = match resolve(path, self.box_delimiter.as_str()) {
            Ok(c) => c.key(),
            Err(e) => { return Err(VaultError::Name(e)); },
        };
        match self.backend.remove(name.as_str()) {
            Ok(()) => Ok(()),
            Err(e) => Err(VaultError::Storage(e)),
        }
    }

    /// Stores a fresh random password of `GENERATED_LEN` letters, digits and
    /// symbols under the key of `path`.
    pub fn generate(&mut self, path: &str) -> (r: Result<(), VaultError>)
        ensures
            final(self).key() == old(self).key(),
            final(self).same_setup(old(self)),
            match r {
                Ok(()) => {
                    let k = trim(path@);
                    let blob = final(self).entries()[k];
                    &&& gate(old(self).key(), path@) is None
                    &&& final(self).entries() == old(self).entries().insert(k, blob)
                    &&& match opened_blob(old(self).key()->0, blob) {
                        Ok(p) => {
                            &&& valid_utf8(p)
                            &&& decode_utf8(p).len() == GENERATED_LEN
                            &&& forall|i: int|
                                0 <= i < GENERATED_LEN ==> alphabet_spec(
                                    false,
                                    false,
                                    false,
                                ).contains(#[trigger] decode_utf8(p)[i])
                        },
                        Err(_) => false,
                    }
                },
                Err(e) => {
                    &&& final(self).entries() == old(self).entries()
                    &&& match gate(old(self).key(), path@) {
                        Some(g) => e == g,
                        None => is_medium_failure(e) && !old(self).available(),
                    }
                },
            },
    {
        if self.key.is_none() {
            return Err(VaultError::Locked);
        }
        let password = draw(&alphabet(false, false, false), GENERATED_LEN);
        let bytes = password.as_str().as_bytes();
        proof {
            vstd::utf8::encode_utf8_valid_utf8(password@);
            vstd::utf8::encode_utf8_decode_utf8(password@);
            lemma_short_text_fits(password@);
        }
        self.add(path, bytes)
    }

    /// All keys stored, each once.
    pub fn list(&self) -> (r: Result<Vec<String>, VaultError>)
        ensures
            match r {
                Ok(keys) => {
                    &&& keys.deep_view().no_duplicates()
                    &&& forall|k: Seq<char>| #[trigger]
                        keys.deep_view().contains(k) <==> self.entries().contains_key(k)
                },
                Err(e) => is_medium_failure(e) && !self.available(),
            },
    {
        match self.backend.list_keys() {
            Ok(keys) => Ok(keys),
            Err(e) => Err(VaultError::Storage(e)),
        }
    }

    /// The keys that `pattern` matches, each once. Only keys are looked at,
    /// never a secret, so the search is the same locked and unlocked.
    pub fn search(&self, pattern: &str) -> (r: Result<Vec<String>, VaultError>)
        ensures
            match r {
                Ok(found) => {
                    &&& regex_valid(pattern@)
                    &&& found.deep_view().no_duplicates()
                    &&& forall|k: Seq<char>| #[trigger]
                        found.deep_view().contains(k) <==> self.entries().contains_key(k)
                            && regex_matches(pattern@, k)
                },
                Err(e) => {
                    ||| is_medium_failure(e) && !self.available()
                    ||| e == VaultError::InvalidPattern && !regex_valid(pattern@)
                },
            },
    {
        let keys = match self.backend.list_keys() {
            Ok(keys) => keys,
            Err(e) => { return Err(VaultError::Storage(e)); },
        };
        if pattern_is_match(pattern, "").is_none() {
            return Err(VaultError::InvalidPattern);
        }
        let mut found: Vec<String> = Vec::new();
        let ghost mut origin: Seq<int> = Seq::empty();
        let mut i: usize = 0;
        proof {
            assert(found.deep_view() =~= Seq::<Seq<char>>::empty());
        }
        while i < keys.len()
            invariant
                i <= keys.len(),
                regex_valid(pattern@),
                origin.len() == found.deep_view().len(),
                forall|a: int|
                    0 <= a < origin.len() ==> 0 <= #[trigger] origin[a] < i && found.deep_view()[a]
                        == keys.deep_view()[origin[a]] && regex_matches(
                        pattern@,
                        keys.deep_view()[origin[a]],
                    ),
                forall|a: int, b: int|
                    0 <= a < b < origin.len() ==> #[trigger] origin[a] < #[trigger] origin[b],
                forall|j: int|
                    0 <= j < i && regex_matches(pattern@, #[trigger] keys.deep_view()[j])
                        ==> found.deep_view().contains(keys.deep_view()[j]),
            decreases keys.len() - i,
        {
            let hit = match pattern_is_match(pattern, keys[i].as_str()) {
                Some(b) => b,
                None => false,
            };
            if hit {
                let ghost before = found.deep_view();
                found.push(keys[i].clone());
                proof {
                    assert(found.deep_view() =~= before.push(keys[i as int]@));
                    origin = origin.push(i as int);
                    assert forall|j: int|
                        0 <= j < i + 1 && regex_matches(
                            pattern@,
                            #[trigger] keys.deep_view()[j],
                        ) implies found.deep_view().contains(keys.deep_view()[j]) by {
                        if j < i {
                            let a = choose|a: int|
                                0 <= a < before.len() && before[a] == keys.deep_view()[j];
                            assert(found.deep_view()[a] == keys.deep_view()[j]);
                        } else {
                            assert(found.deep_view()[before.len() as int] == keys.deep_view()[j]);
                        }
                    }
                }
            }
            i += 1;
        }
        proof {
            let f = found.deep_view();
            let ks = keys.deep_view();
            assert forall|a: int, b: int|
                0 <= a < f.len() && 0 <= b < f.len() && a != b implies f[a] != f[b] by {
                if a < b {
                    assert(origin[a] < origin[b]);
                } else {
                    assert(origin[b] < origin[a]);
                }
                assert(ks[origin[a]] != ks[origin[b]]);
            }
            assert forall|k: Seq<char>| #[trigger]
                f.contains(k) <==> self.entries().contains_key(k) && regex_matches(pattern@, k) by {
                if f.contains(k) {
                    let a = choose|a: int| 0 <= a < f.len() && f[a] == k;
                    assert(ks[origin[a]] == k);
                    assert(ks.contains(k));
                }
                if self.entries().contains_key(k) && regex_matches(pattern@, k) {
                    assert(ks.contains(k));
                    let j = choose|j: int| 0 <= j < ks.len() && ks[j] == k;
                    assert(f.contains(ks[j]));
                }
            }
        }
        Ok(found)
    }

    /// What copying the secret under `path` puts on the clipboard: the
    /// first line of the secret without the whitespace around it, to be
    /// cleared after `ttl` seconds.
    pub fn copy_to_clipboard(&self, path: &str, ttl: u64) -> (r: Result<
        ClipboardRequest,
        VaultError,
    >)
        ensures
            match r {
                Ok(c) => {
                    &&& c.clear_after == ttl
                    &&& read_spec(self.entries(), self.key(), path@) matches Ok(p)
                    &&& valid_utf8(p)
                    &&& c.text@ == trim(first_line(decode_utf8(p)))
                },
                Err(e) => match read_spec(self.entries(), self.key(), path@) {
                    Ok(p) => {
                        ||| e == VaultError::InvalidText && !valid_utf8(p)
                        ||| is_medium_failure(e) && !self.available()
                    },
                    Err(f) => {
                        ||| e == f
                        ||| is_medium_failure(e) && gate(self.key(), path@) is None
                            && !self.available()
                    },
                },
            },
    {
        let secret = match self.read(path) {
            Ok(p) => p,
            Err(e) => { return Err(e); },
        };
        match string_from_utf8(secret) {
            Some(text) => Ok(
                ClipboardRequest { text: first_line_trimmed(text.as_str()), clear_after: ttl },
            ),
            None => Err(VaultError::InvalidText),
        }
    }

    /// Every entry as it is stored, key and ciphertext, each key once.
    pub fn dump(&self) -> (r: Result<Vec<StorageEntry>, VaultError>)
        ensures
            match r {
                Ok(all) => {
                    &&& keys_of(entry_views(all@)).no_duplicates()
                    &&& map_of(entry_views(all@)) == self.entries()
                },
                Err(e) => is_medium_failure(e) && !self.available(),
            },
    {
        let keys = match self.backend.list_keys() {
            Ok(keys) => keys,
            Err(e) => { return Err(VaultError::Storage(e)); },
        };
        let mut all: Vec<StorageEntry> = Vec::new();
        let mut i: usize = 0;
        while i < keys.len()
            invariant
                i <= keys.len(),
                all.len() == i,
                forall|k: Seq<char>| #[trigger]
                    keys.deep_view().contains(k) <==> self.entries().contains_key(k),
                forall|j: int|
                    0 <= j < i ==> (#[trigger] all@[j])@ == (
                        keys.deep_view()[j],
                        self.entries()[keys.deep_view()[j]],
                    ),
            decreases keys.len() - i,
        {
            proof {
                assert(keys.deep_view()[i as int] == keys[i as int]@);
                assert(keys.deep_view().contains(keys[i as int]@));
            }
            let value = match self.backend.get(keys[i].as_str()) {
                Ok(v) => v,
                Err(e) => { return Err(VaultError::Storage(e)); },
            };
            all.push(StorageEntry { key: keys[i].clone(), value });
            i += 1;
        }
        proof {
            let pairs = entry_views(all@);
            assert(keys_of(pairs) =~= keys.deep_view());
            lemma_map_of_dom(pairs);
            assert forall|k: Seq<char>| #[trigger] map_of(pairs).contains_key(k) implies map_of(
                pairs,
            )[k] == self.entries()[k] by {
                let j = choose|j: int| 0 <= j < pairs.len() && keys_of(pairs)[j] == k;
                lemma_map_of_distinct(pairs, j);
            }
            assert(map_of(pairs) =~= self.entries());
        }
        Ok(all)
    }

    /// Replaces everything stored with `entries`: what is there is removed,
    /// then the entries are stored in order, so that of two with one key
    /// the later stays. Where the storage engine fails on the way, what it
    /// is left with is not determined.
    pub fn restore(&mut self, entries: &Vec<StorageEntry>) -> (r: Result<(), VaultError>)
        ensures
            final(self).key() == old(self).key(),
            final(self).same_setup(old(self)),
            match r {
                Ok(()) => final(self).entries() == map_of(entry_views(entries@)),
                Err(e) => is_medium_failure(e) && !old(self).available(),
            },
    {
        let keys = match self.backend.list_keys() {
            Ok(keys) => keys,
            Err(e) => { return Err(VaultError::Storage(e)); },
        };
        let mut i: usize = 0;
        proof {
            let ks = keys.deep_view();
            assert forall|k: Seq<char>| #[trigger]
                self.entries().contains_key(k) <==> exists|j: int|
                    0 <= j < keys.len() && ks[j] == k by {
                if self.entries().contains_key(k) {
                    assert(ks.contains(k));
                    let j = choose|j: int| 0 <= j < ks.len() && ks[j] == k;
                    assert(0 <= j < keys.len() && ks[j] == k);
                }
                if exists|j: int| 0 <= j < keys.len() && ks[j] == k {
                    let j = choose|j: int| 0 <= j < keys.len() && ks[j] == k;
                    assert(ks[j] == k);
                    assert(ks.contains(k));
                }
            }
        }
        while i < keys.len()
            invariant
                i <= keys.len(),
                self.key() == old(self).key(),
                self.same_setup(old(self)),
                keys.deep_view().no_duplicates(),
                forall|k: Seq<char>| #[trigger]
                    self.entries().contains_key(k) <==> exists|j: int|
                        i <= j < keys.len() && keys.deep_view()[j] == k,
            decreases keys.len() - i,
        {
            let ghost before = self.entries();
            proof {
                assert(keys.deep_view()[i as int] == keys[i as int]@);
                assert(i <= i < keys.len() && keys.deep_view()[i as int] == keys[i as int]@);
                assert(before.contains_key(keys[i as int]@));
            }
            match self.backend.remove(keys[i].as_str()) {
                Ok(()) => {},
                Err(e) => {
                    assert(e != StorageError::NotFound);
                    return Err(VaultError::Storage(e));
                },
            }
            proof {
                assert forall|k: Seq<char>| #[trigger]
                    self.entries().contains_key(k) <==> exists|j: int|
                        i + 1 <= j < keys.len() && keys.deep_view()[j] == k by {
                    if self.entries().contains_key(k) {
                        assert(before.contains_key(k));
                        let j = choose|j: int| i <= j < keys.len() && keys.deep_view()[j] == k;
                        assert(j != i);
                    }
                    if exists|j: int| i + 1 <= j < keys.len() && keys.deep_view()[j] == k {
                        let j = choose|j: int| i + 1 <= j < keys.len() && keys.deep_view()[j] == k;
                        assert(before.contains_key(k));
                        assert(keys.deep_view()[j] != keys.deep_view()[i as int]);
                    }
                }
            }
            i += 1;
        }
        proof {
            assert(self.entries() =~= Map::<Seq<char>, Seq<u8>>::empty());
            assert(entry_views(entries@).take(0) =~= Seq::<(Seq<char>, Seq<u8>)>::empty());
        }
        let mut n: usize = 0;
        while n < entries.len()
            invariant
                n <= entries.len(),
                self.key() == old(self).key(),
                self.same_setup(old(self)),
                self.entries() == map_of(entry_views(entries@).take(n as int)),
            decreases entries.len() - n,
        {
            proof {
                let next = entry_views(entries@).take(n + 1);
                assert(next.drop_last() =~= entry_views(entries@).take(n as int));
                assert(next.last() == entries@[n as int]@);
            }
            match self.backend.set(entries[n].key.as_str(), entries[n].value.as_slice()) {
                Ok(()) => {},
                Err(e) => { return Err(VaultError::Storage(e)); },
            }
            n += 1;
        }
        proof {
            assert(entry_views(entries@).take(entries.len() as int) =~= entry_views(entries@));
        }
        Ok(())
    }
}

impl<B: StorageBackend> Vault<B> {
    /// Every entry as it is stored, as one dump with its payload compressed
    /// under `alg`: a dump of the list of the entries, each key once, which
    /// restores to that list. The export fails where the storage engine
    /// fails or the list has no payload under `alg`.
    pub fn export(&self, alg: Algorithm) -> (r: Result<Vec<u8>, TransferError>)
        ensures
            match r {
                Ok(bytes) => {
                    &&& restore_entries_spec(bytes@) matches Ok(list)
                    &&& keys_of(list).no_duplicates()
                    &&& map_of(list) == self.entries()
                    &&& is_dump(entries_bytes(list), alg, bytes@)
                },
                Err(TransferError::Vault(e)) => is_medium_failure(e) && !self.available(),
                Err(TransferError::Dump(e)) => {
                    &&& e == DumpError::SerializationFailed
                    &&& exists|list: Seq<(Seq<char>, Seq<u8>)>|
                        keys_of(list).no_duplicates() && map_of(list) == self.entries()
                            && #[trigger] no_payload(alg, entries_bytes(list))
                },
            },
    {
        let all = match self.dump() {
            Ok(all) => all,
            Err(e) => { return Err(TransferError::Vault(e)); },
        };
        match dump_entries(&all, alg) {
            Ok(bytes) => Ok(bytes),
            Err(e) => {
                proof {
                    let list = entry_views(all@);
                    assert(keys_of(list).no_duplicates() && map_of(list) == self.entries()
                        && no_payload(alg, entries_bytes(list)));
                }
                Err(TransferError::Dump(e))
            },
        }
    }

    /// Replaces everything stored with the entries of a dump. The dump is
    /// checked whole before anything is touched: one that is not sound
    /// leaves the vault as it is.
    pub fn import(&mut self, bytes: &[u8]) -> (r: Result<(), TransferError>)
        ensures
            final(self).key() == old(self).key(),
            final(self).same_setup(old(self)),
            match r {
                Ok(()) => {
                    &&& restore_entries_spec(bytes@) matches Ok(list)
                    &&& final(self).entries() == map_of(list)
                },
                Err(TransferError::Dump(e)) => {
                    &&& restore_entries_spec(bytes@) == Err::<
                        Seq<(Seq<char>, Seq<u8>)>,
                        DumpError,
                    >(e)
                    &&& final(self).entries() == old(self).entries()
                },
                Err(TransferError::Vault(e)) => {
                    &&& restore_entries_spec(bytes@) is Ok
                    &&& is_medium_failure(e)
                    &&& !old(self).available()
                },
            },
    {
        let entries = match restore_entries(bytes) {
            Ok(entries) => entries,
            Err(e) => { return Err(TransferError::Dump(e)); },
        };
        match self.restore(&entries) {
            Ok(()) => Ok(()),
            Err(e) => Err(TransferError::Vault(e)),
        }
    }
}

/// While a vault is locked, reading fails with `Locked`, whatever the path
/// and whatever is stored.
pub proof fn lemma_locked_reads_nothing(entries: Map<Seq<char>, Seq<u8>>, path: Seq<char>)
    ensures
        gate(None, path) == Some(VaultError::Locked),
        read_spec(entries, None, path) == Err::<Seq<u8>, VaultError>(VaultError::Locked),
{
}

/// What was stored under a path is read back under the same key: reading
/// gives the plaintext that the stored blob decrypts to.
pub proof fn lemma_read_what_was_stored(
    entries: Map<Seq<char>, Seq<u8>>,
    key: Seq<u8>,
    path: Seq<char>,
    blob: Seq<u8>,
    plaintext: Seq<u8>,
)
    requires
        trim(path).len() > 0,
        opened_blob(key, blob) == Ok::<Seq<u8>, CryptoError>(plaintext),
    ensures
        read_spec(entries.insert(trim(path), blob), Some(key), path) == Ok::<
            Seq<u8>,
            VaultError,
        >(plaintext),
{
}

/// Once the entry under a path is removed, reading the path finds nothing.
pub proof fn lemma_read_what_was_deleted(
    entries: Map<Seq<char>, Seq<u8>>,
    key: Seq<u8>,
    path: Seq<char>,
)
    requires
        trim(path).len() > 0,
    ensures
        read_spec(entries.remove(trim(path)), Some(key), path) == Err::<Seq<u8>, VaultError>(
            VaultError::Storage(StorageError::NotFound),
        ),
{
}

/// A text of at most 255 characters takes few enough bytes for one message
/// of the cipher.
proof fn lemma_short_text_fits(text: Seq<char>)
    requires
        text.len() <= 255,
    ensures
        encode_utf8(text).len() <= MAX_PLAINTEXT_LEN,
    decreases text.len(),
{
    lemma_encoded_len(text);
}

/// A character takes at most four bytes.
proof fn lemma_encoded_len(text: Seq<char>)
    ensures
        encode_utf8(text).len() <= 4 * text.len(),
    decreases text.len(),
{
    if text.len() > 0 {
        lemma_encoded_len(text.drop_first());
    }
}

} // verus!
