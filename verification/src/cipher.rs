//! Encryption at rest: a key derived from a passphrase, and an authenticated
//! envelope `nonce || ciphertext || tag` around each payload.

use crate::error::CryptoError;
use crate::text::{chars_of, string_of, trim, trim_bounds};
use aes_gcm::aead::{Aead, KeyInit};
use aes_gcm::{Aes256Gcm, Nonce};
use rand::Rng;
use sha2::Digest;
use vstd::prelude::*;
use vstd::slice::slice_subrange;
use vstd::string::*;
use vstd::utf8::encode_utf8;

verus! {

/// Bytes of a key.
pub const KEY_LEN: usize = 32;

/// Bytes of a nonce, which leads every encrypted blob.
pub const NONCE_LEN: usize = 12;

/// Bytes of the authentication tag, which ends every encrypted blob.
pub const TAG_LEN: usize = 16;

/// The longest plaintext the cipher takes in one message.
pub const MAX_PLAINTEXT_LEN: u64 = 0x10_0000_0000;

/// The SHA-256 digest of `data`.
pub uninterp spec fn sha256(data: Seq<u8>) -> Seq<u8>;

/// What AES-256-GCM makes of `plaintext` under `key` and `nonce`, with no
/// associated data: the ciphertext followed by the tag, or nothing where the
/// cipher refuses the plaintext.
pub uninterp spec fn aes_gcm_seal(key: Seq<u8>, nonce: Seq<u8>, plaintext: Seq<u8>) -> Option<
    Seq<u8>,
>;

/// What AES-256-GCM recovers from `ciphertext` (with its tag) under `key` and
/// `nonce`, with no associated data: the plaintext, or nothing where the tag
/// does not verify.
pub uninterp spec fn aes_gcm_open(key: Seq<u8>, nonce: Seq<u8>, ciphertext: Seq<u8>) -> Option<
    Seq<u8>,
>;

/// `Sha256::digest` of crate sha2: the digest of `data`, which has 32 bytes.
#[verifier::external_body]
fn sha256_digest(data: &[u8]) -> (digest: [u8; 32])
    ensures
        digest@ == sha256(data@),
{
    sha2::Sha256::digest(data).into()
}

/// `Aead::encrypt` of `Aes256Gcm` (crate aes-gcm) with the key and the nonce
/// given. It refuses a plaintext of more than 2^36 bytes and nothing else;
/// what it returns is as long as the plaintext and the tag together, and
/// `Aead::decrypt` under the same key and nonce gives the plaintext back.
#[verifier::external_body]
fn seal(key: &[u8; 32], nonce: &[u8; 12], plaintext: &[u8]) -> (r: Option<Vec<u8>>)
    ensures
        match r {
            Some(c) => {
                &&& aes_gcm_seal(key@, nonce@, plaintext@) == Some(c@)
                &&& c@.len() == plaintext@.len() + TAG_LEN
                &&& aes_gcm_open(key@, nonce@, c@) == Some(plaintext@)
            },
            None => aes_gcm_seal(key@, nonce@, plaintext@) is None,
        },
        r is Some <==> plaintext@.len() <= MAX_PLAINTEXT_LEN,
{
    let cipher = Aes256Gcm::new(key.into());
    cipher.encrypt(Nonce::from_slice(nonce), plaintext).ok()
}

/// `Aead::decrypt` of `Aes256Gcm` (crate aes-gcm) with the key and the nonce
/// given. A plaintext that comes back is shorter than the input by the tag.
#[verifier::external_body]
fn open(key: &[u8; 32], nonce: &[u8], ciphertext: &[u8]) -> (r: Option<Vec<u8>>)
    requires
        nonce@.len() == NONCE_LEN,
    ensures
        match r {
            Some(p) => {
                &&& aes_gcm_open(key@, nonce@, ciphertext@) == Some(p@)
                &&& p@.len() + TAG_LEN == ciphertext@.len()
            },
            None => aes_gcm_open(key@, nonce@, ciphertext@) is None,
        },
{
    let cipher = Aes256Gcm::new(key.into());
    cipher.decrypt(Nonce::from_slice(nonce), ciphertext).ok()
}

/// `Rng::fill` on the thread's generator `rand::rng()`: twelve bytes from a
/// cryptographically secure source. Nothing is known of their value.
#[verifier::external_body]
fn fresh_nonce() -> (nonce: [u8; 12]) {
    let mut nonce = [0u8; 12];
    rand::rng().fill(&mut nonce);
    nonce
}

/// A symmetric key of 32 bytes.
#[derive(Debug, Clone, Copy)]
pub struct Key {
    bytes: [u8; 32],
}

impl View for Key {
    type V = Seq<u8>;

    closed spec fn view(&self) -> Seq<u8> {
        self.bytes@
    }
}

impl Key {
    /// A key has 32 bytes.
    pub proof fn lemma_len(self)
        ensures
            self@.len() == KEY_LEN,
    {
    }

    /// The key that `bytes` hold, if they are 32.
    pub fn from_bytes(bytes: &[u8]) -> (r: Result<Key, CryptoError>)
        ensures
            match r {
                Ok(key) => key@ == bytes@ && bytes@.len() == KEY_LEN,
                Err(e) => e == CryptoError::KeyDerivationFailed && bytes@.len() != KEY_LEN,
            },
    {
        if bytes.len() != KEY_LEN {
            return Err(CryptoError::KeyDerivationFailed);
        }
        let mut key = Key { bytes: [0u8; 32] };
        let mut i: usize = 0;
        while i < KEY_LEN
            invariant
                i <= KEY_LEN == bytes@.len(),
                forall|j: int| 0 <= j < i ==> key.bytes@[j] == bytes@[j],
            decreases KEY_LEN - i,
        {
            key.bytes[i] = bytes[i];
            i += 1;
        }
        assert(key@ =~= bytes@);
        Ok(key)
    }

    /// The bytes of the key.
    pub fn to_bytes(&self) -> (bytes: Vec<u8>)
        ensures
            bytes@ == self@,
    {
        let mut bytes: Vec<u8> = Vec::new();
        let mut i: usize = 0;
        while i < KEY_LEN
            invariant
                i <= KEY_LEN,
                bytes@ == self.bytes@.take(i as int),
            decreases KEY_LEN - i,
        {
            bytes.push(self.bytes[i]);
            i += 1;
        }
        assert(self.bytes@.take(KEY_LEN as int) == self.bytes@);
        bytes
    }
}

/// The SHA-256 digest of the bytes of `s`.
pub fn as_hash(s: &str) -> (digest: [u8; 32])
    ensures
        digest@ == sha256(encode_utf8(s@)),
{
    sha256_digest(s.as_bytes())
}

/// The key that belongs to a passphrase: the digest of the passphrase
/// without the whitespace around it. No salt is applied and no work factor.
pub fn derive_key(passphrase: &str) -> (key: Key)
    ensures
        key@ == sha256(encode_utf8(trim(passphrase@))),
        key@.len() == KEY_LEN,
{
    let chars = chars_of(passphrase);
    let (from, to) = trim_bounds(&chars);
    let trimmed = string_of(&chars, from, to);
    Key { bytes: as_hash(trimmed.as_str()) }
}

/// The blob that encrypting `plaintext` under `key` with `nonce` gives: the
/// nonce, then ciphertext and tag.
pub open spec fn sealed_blob(key: Seq<u8>, nonce: Seq<u8>, plaintext: Seq<u8>) -> Option<Seq<u8>> {
    match aes_gcm_seal(key, nonce, plaintext) {
        Some(c) => Some(nonce + c),
        None => None,
    }
}

/// What decrypting `blob` under `key` gives.
pub open spec fn opened_blob(key: Seq<u8>, blob: Seq<u8>) -> Result<Seq<u8>, CryptoError> {
    if blob.len() < NONCE_LEN {
        Err(CryptoError::TooShort)
    } else {
        match aes_gcm_open(key, blob.take(NONCE_LEN as int), blob.skip(NONCE_LEN as int)) {
            Some(p) => Ok(p),
            None => Err(CryptoError::AuthenticationFailed),
        }
    }
}

/// A blob opens to its plaintext under the key and nonce it was sealed
/// with, wherever the cipher opens what it sealed.
pub proof fn lemma_blob_opens(key: Seq<u8>, nonce: Seq<u8>, plaintext: Seq<u8>, sealed: Seq<u8>)
    requires
        nonce.len() == NONCE_LEN,
        aes_gcm_open(key, nonce, sealed) == Some(plaintext),
    ensures
        opened_blob(key, nonce + sealed) == Ok::<Seq<u8>, CryptoError>(plaintext),
{
    let blob = nonce + sealed;
    assert(blob.take(NONCE_LEN as int) == nonce);
    assert(blob.skip(NONCE_LEN as int) == sealed);
}

/// Encrypts `plaintext` under `key` with the nonce given. The same nonce must
/// never serve twice under one key: `encrypt_data` draws a fresh one.
pub fn encrypt_with_nonce(plaintext: &[u8], key: &Key, nonce: &[u8; 12]) -> (r: Result<
    Vec<u8>,
    CryptoError,
>)
    ensures
        match r {
            Ok(blob) => {
                &&& plaintext@.len() <= MAX_PLAINTEXT_LEN
                &&& sealed_blob(key@, nonce@, plaintext@) == Some(blob@)
                &&& blob@.len() == NONCE_LEN + plaintext@.len() + TAG_LEN
                &&& opened_blob(key@, blob@) == Ok::<Seq<u8>, CryptoError>(plaintext@)
            },
            Err(e) => {
                &&& e == CryptoError::PlaintextTooLong
                &&& plaintext@.len() > MAX_PLAINTEXT_LEN
                &&& sealed_blob(key@, nonce@, plaintext@) is None
            },
        },
{
    match seal(&key.bytes, nonce, plaintext) {
        Some(sealed) => {
            let mut blob: Vec<u8> = Vec::new();
            blob.extend_from_slice(nonce.as_slice());
            blob.extend_from_slice(sealed.as_slice());
            proof {
                assert(blob@ == nonce@ + sealed@);
                lemma_blob_opens(key@, nonce@, plaintext@, sealed@);
            }
            Ok(blob)
        },
        None => Err(CryptoError::PlaintextTooLong),
    }
}

/// Encrypts `plaintext` under `key` with a freshly drawn nonce. Decrypting
/// the result under the same key gives the plaintext back.
pub fn encrypt_data(plaintext: &[u8], key: &Key) -> (r: Result<Vec<u8>, CryptoError>)
    ensures
        match r {
            Ok(blob) => {
                &&& plaintext@.len() <= MAX_PLAINTEXT_LEN
                &&& blob@.len() == NONCE_LEN + plaintext@.len() + TAG_LEN
                &&& sealed_blob(key@, blob@.take(NONCE_LEN as int), plaintext@) == Some(blob@)
                &&& opened_blob(key@, blob@) == Ok::<Seq<u8>, CryptoError>(plaintext@)
            },
            Err(e) => e == CryptoError::PlaintextTooLong && plaintext@.len() > MAX_PLAINTEXT_LEN,
        },
{
    let nonce = fresh_nonce();
    let r = encrypt_with_nonce(plaintext, key, &nonce);
    proof {
        if r is Ok {
            let blob = r->Ok_0;
            let sealed = aes_gcm_seal(key@, nonce@, plaintext@)->0;
            assert(blob@ == nonce@ + sealed);
            assert(blob@.take(NONCE_LEN as int) == nonce@);
        }
    }
    r
}

/// Decrypts a blob made by `encrypt_data`. A blob shorter than a nonce is
/// `TooShort`; one whose tag does not verify under `key` is
/// `AuthenticationFailed`, whether the key is wrong or the blob was altered.
pub fn decrypt_data(blob: &[u8], key: &Key) -> (r: Result<Vec<u8>, CryptoError>)
    ensures
        match r {
            Ok(p) => opened_blob(key@, blob@) == Ok::<Seq<u8>, CryptoError>(p@),
            Err(e) => opened_blob(key@, blob@) == Err::<Seq<u8>, CryptoError>(e),
        },
        r matches Ok(p) ==> p@.len() + NONCE_LEN + TAG_LEN == blob@.len(),
{
    if blob.len() < NONCE_LEN {
        return Err(CryptoError::TooShort);
    }
    let nonce = slice_subrange(blob, 0, NONCE_LEN);
    let body = slice_subrange(blob, NONCE_LEN, blob.len());
    proof {
        assert(nonce@ == blob@.take(NONCE_LEN as int));
        assert(body@ == blob@.skip(NONCE_LEN as int));
    }
    match open(&key.bytes, nonce, body) {
        Some(p) => Ok(p),
        None => Err(CryptoError::AuthenticationFailed),
    }
}

} // verus!
