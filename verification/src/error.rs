//! The error kinds of the vault, one enum per component.

use vstd::prelude::*;

verus! {

/// A path that names no secret.
#[derive(Debug, Clone, Copy, PartialEq, Eq, Structural)]
pub enum NameError {
    /// Nothing is left of the path once it is trimmed.
    EmptyPath,
}

/// A failure of the encryption layer.
#[derive(Debug, Clone, Copy, PartialEq, Eq, Structural)]
pub enum CryptoError {
    /// The blob is shorter than a nonce.
    TooShort,
    /// The tag does not verify: wrong key, or the data was altered.
    AuthenticationFailed,
    /// The bytes offered as key material are no key.
    KeyDerivationFailed,
    /// The plaintext is longer than the cipher takes in one message.
    PlaintextTooLong,
}

/// A failure of a storage backend.
#[derive(Debug, Clone, Copy, PartialEq, Eq, Structural)]
pub enum StorageError {
    /// No entry is stored under the key.
    NotFound,
    /// The backend is not initialized, locked by another process, or corrupt.
    BackendUnavailable,
    /// The medium under the backend failed.
    Io,
}

/// A failure of a vault operation.
#[derive(Debug, Clone, Copy, PartialEq, Eq, Structural)]
pub enum VaultError {
    /// No key material is available.
    Locked,
    /// The path is malformed.
    Name(NameError),
    /// Encryption or decryption failed.
    Crypto(CryptoError),
    /// The backend failed.
    Storage(StorageError),
    /// The search pattern is no regular expression.
    InvalidPattern,
    /// The secret is not text.
    InvalidText,
}

/// A failure of the dump codec.
#[derive(Debug, Clone, Copy, PartialEq, Eq, Structural)]
pub enum DumpError {
    /// Fewer bytes than a header has.
    TruncatedHeader,
    /// The first four bytes are not the format's magic.
    BadMagic,
    /// A version this codec does not read.
    UnsupportedVersion,
    /// An algorithm byte this codec does not know.
    UnsupportedAlgorithm,
    /// The payload does not expand to the length the header gives.
    LengthMismatch,
    /// The expanded payload does not have the checksum the header gives.
    ChecksumMismatch,
    /// The payload cannot be encoded or decoded.
    SerializationFailed,
}

/// A failure to export a vault or to import into one.
#[derive(Debug, Clone, Copy, PartialEq, Eq, Structural)]
pub enum TransferError {
    /// The dump could not be made or is not sound.
    Dump(DumpError),
    /// The vault failed.
    Vault(VaultError),
}

impl TransferError {
    /// The text shown for this error.
    pub open spec fn message_spec(self) -> Seq<char> {
        match self {
            TransferError::Dump(e) => e.message_spec(),
            TransferError::Vault(e) => e.message_spec(),
        }
    }

    /// The text shown for this error.
    pub fn message(&self) -> (s: String)
        ensures
            s@ == self.message_spec(),
    {
        match self {
            TransferError::Dump(e) => e.message(),
            TransferError::Vault(e) => e.message(),
        }
    }
}

/// A request for a password that cannot be met.
#[derive(Debug, Clone, Copy, PartialEq, Eq, Structural)]
pub enum PasswordError {
    /// Letters, symbols and numbers are all switched off.
    MustSpecifyAtLeastOne,
}

impl PasswordError {
    /// The text shown for this error.
    pub open spec fn message_spec(self) -> Seq<char> {
        "at least one of letters, symbols or numbers must be left switched on"@
    }

    /// The text shown for this error.
    pub fn message(&self) -> (s: String)
        ensures
            s@ == self.message_spec(),
    {
        "at least one of letters, symbols or numbers must be left switched on".to_string()
    }
}

impl NameError {
    /// The text shown for this error.
    pub open spec fn message_spec(self) -> Seq<char> {
        "Failed to parse container name"@
    }

    /// The text shown for this error.
    pub fn message(&self) -> (s: String)
        ensures
            s@ == self.message_spec(),
    {
        "Failed to parse container name".to_string()
    }
}

impl CryptoError {
    /// The text shown for this error.
    pub open spec fn message_spec(self) -> Seq<char> {
        match self {
            CryptoError::TooShort => "Encrypted data is too short"@,
            CryptoError::AuthenticationFailed => "Authentication failed"@,
            CryptoError::KeyDerivationFailed => "Failed to read key"@,
            CryptoError::PlaintextTooLong => "Data is too long to encrypt"@,
        }
    }

    /// The text shown for this error. It is the same for a wrong key and for
    /// altered data.
    pub fn message(&self) -> (s: String)
        ensures
            s@ == self.message_spec(),
    {
        match self {
            CryptoError::TooShort => "Encrypted data is too short".to_string(),
            CryptoError::AuthenticationFailed => "Authentication failed".to_string(),
            CryptoError::KeyDerivationFailed => "Failed to read key".to_string(),
            CryptoError::PlaintextTooLong => "Data is too long to encrypt".to_string(),
        }
    }
}

impl StorageError {
    /// The text shown for this error.
    pub open spec fn message_spec(self) -> Seq<char> {
        match self {
            StorageError::NotFound => "No such key"@,
            StorageError::BackendUnavailable => "Storage is unavailable"@,
            StorageError::Io => "Storage input/output failed"@,
        }
    }

    /// The text shown for this error.
    pub fn message(&self) -> (s: String)
        ensures
            s@ == self.message_spec(),
    {
        match self {
            StorageError::NotFound => "No such key".to_string(),
            StorageError::BackendUnavailable => "Storage is unavailable".to_string(),
            StorageError::Io => "Storage input/output failed".to_string(),
        }
    }
}

impl VaultError {
    /// The text shown for this error.
    pub open spec fn message_spec(self) -> Seq<char> {
        match self {
            VaultError::Locked => "No key found. Try using the command `baza unlock`"@,
            VaultError::Name(e) => e.message_spec(),
            VaultError::Crypto(e) => e.message_spec(),
            VaultError::Storage(e) => e.message_spec(),
            VaultError::InvalidPattern => "Invalid search pattern"@,
            VaultError::InvalidText => "Failed to decode utf8"@,
        }
    }

    /// The text shown for this error.
    pub fn message(&self) -> (s: String)
        ensures
            s@ == self.message_spec(),
    {
        match self {
            VaultError::Locked => "No key found. Try using the command `baza unlock`".to_string(),
            VaultError::Name(e) => e.message(),
            VaultError::Crypto(e) => e.message(),
            VaultError::Storage(e) => e.message(),
            VaultError::InvalidPattern => "Invalid search pattern".to_string(),
            VaultError::InvalidText => "Failed to decode utf8".to_string(),
        }
    }
}

impl DumpError {
    /// The text shown for this error.
    pub open spec fn message_spec(self) -> Seq<char> {
        match self {
            DumpError::TruncatedHeader => "Input too short for dump header"@,
            DumpError::BadMagic => "Invalid magic header"@,
            DumpError::UnsupportedVersion => "Unsupported dump version"@,
            DumpError::UnsupportedAlgorithm => "Unsupported compression algorithm"@,
            DumpError::LengthMismatch => "Uncompressed length mismatch"@,
            DumpError::ChecksumMismatch => "Checksum mismatch"@,
            DumpError::SerializationFailed => "Payload cannot be encoded or decoded"@,
        }
    }

    /// The text shown for this error.
    pub fn message(&self) -> (s: String)
        ensures
            s@ == self.message_spec(),
    {
        match self {
            DumpError::TruncatedHeader => "Input too short for dump header".to_string(),
            DumpError::BadMagic => "Invalid magic header".to_string(),
            DumpError::UnsupportedVersion => "Unsupported dump version".to_string(),
            DumpError::UnsupportedAlgorithm => "Unsupported compression algorithm".to_string(),
            DumpError::LengthMismatch => "Uncompressed length mismatch".to_string(),
            DumpError::ChecksumMismatch => "Checksum mismatch".to_string(),
            DumpError::SerializationFailed => "Payload cannot be encoded or decoded".to_string(),
        }
    }
}

} // verus!
