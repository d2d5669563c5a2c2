//! The configuration of a vault and the paths derived from it.

use vstd::prelude::*;
use vstd::string::*;

verus! {

/// The delimiter between boxes unless the configuration says otherwise.
pub const BOX_DELIMITER: &'static str = "::";

/// The delimiter between bundles unless the configuration says otherwise.
pub const BUNDLE_DELIMITER: &'static str = ",";

/// The data directory's name under the user's home.
pub const BAZA_DIR: &'static str = ".baza";

/// The e-mail address of the default author.
pub const DEFAULT_EMAIL: &'static str = "root@baza";

/// The name of the default author.
pub const DEFAULT_AUTHOR: &'static str = "Root Baza";

/// Seconds after which a copied secret leaves the clipboard.
pub const TTL_SECONDS: u64 = 45;

/// How a message to the user is to be set off.
#[derive(Debug, Clone, Copy, PartialEq, Eq, Structural)]
pub enum MessageType {
    Clean,
    Data,
    Info,
    Warning,
    Error,
}

/// The storage engine a vault keeps its entries in.
#[derive(Debug, Clone, Copy, PartialEq, Eq, Structural)]
pub enum Type {
    Gitfs,
    Redb,
}

#[derive(Debug, Clone)]
pub struct MainConfig {
    pub datadir: String,
    pub box_delimiter: String,
    pub bundle_delimiter: String,
}

#[derive(Debug, Clone)]
pub struct GitConfig {
    pub url: Option<String>,
    pub privatekey: Option<String>,
    pub passphrase: Option<String>,
}

#[derive(Debug, Clone)]
pub struct StorageConfig {
    pub kind: Type,
}

#[derive(Debug, Clone)]
pub struct Config {
    pub main: MainConfig,
    pub gitfs: GitConfig,
    pub storage: StorageConfig,
}

impl Config {
    /// Whether `self` holds the defaults for a user whose home is `home`.
    pub open spec fn is_default_for(&self, home: Seq<char>) -> bool {
        &&& self.main.datadir@ == home + "/"@ + BAZA_DIR@
        &&& self.main.box_delimiter@ == BOX_DELIMITER@
        &&& self.main.bundle_delimiter@ == BUNDLE_DELIMITER@
        &&& self.gitfs.url is None
        &&& self.gitfs.privatekey is None
        &&& self.gitfs.passphrase is None
        &&& self.storage.kind == Type::Redb
    }

    /// The defaults for a user whose home directory is `home`.
    pub fn new(home: &str) -> (c: Config)
        ensures
            c.is_default_for(home@),
    {
        let mut datadir = home.to_string();
        datadir.append("/");
        datadir.append(BAZA_DIR);
        Config {
            main: MainConfig {
                datadir,
                box_delimiter: BOX_DELIMITER.to_string(),
                bundle_delimiter: BUNDLE_DELIMITER.to_string(),
            },
            gitfs: GitConfig { url: None, privatekey: None, passphrase: None },
            storage: StorageConfig { kind: Type::Redb },
        }
    }

    /// The configuration in force: the stored one where there is one, else
    /// the defaults for `home`.
    pub fn get(stored: Option<Config>, home: &str) -> (c: Config)
        ensures
            match stored {
                Some(s) => c == s,
                None => c.is_default_for(home@),
            },
    {
        match stored {
            Some(s) => s,
            None => Config::new(home),
        }
    }
}

/// The directory in which the storage engine named `dir` keeps its data.
pub fn storage_dir(config: &Config, dir: &str) -> (path: String)
    ensures
        path@ == config.main.datadir@ + "/data/"@ + dir@,
{
    let mut path = config.main.datadir.clone();
    path.append("/data/");
    path.append(dir);
    path
}

/// The file that holds the key material while the vault is unlocked.
pub fn key_file(config: &Config) -> (path: String)
    ensures
        path@ == config.main.datadir@ + "/key.bin"@,
{
    let mut path = config.main.datadir.clone();
    path.append("/key.bin");
    path
}

/// The directory for temporary files.
pub fn tmp_dir(config: &Config) -> (path: String)
    ensures
        path@ == config.main.datadir@ + "/tmp"@,
{
    let mut path = config.main.datadir.clone();
    path.append("/tmp");
    path
}

} // verus!
