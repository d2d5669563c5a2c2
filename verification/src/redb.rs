//! Where the embedded key-value engine keeps its single file.

use crate::config::{storage_dir, Config};
use vstd::prelude::*;
use vstd::string::*;

verus! {

/// The directory of this engine under the data directory.
pub const DIR: &'static str = "redb";

/// The name of the database file.
pub const FILE: &'static str = "db.redb";

/// The name of the one table, which maps keys to values.
pub const TABLE_NAME: &'static str = "passwords";

/// The place of the embedded key-value engine's database.
#[derive(Debug, Clone)]
pub struct Redb {
    path: String,
}

impl Redb {
    /// The path of the database file.
    pub closed spec fn path_spec(&self) -> Seq<char> {
        self.path@
    }

    /// The engine's place under the data directory of `config`.
    pub fn new(config: &Config) -> (db: Self)
        ensures
            db.path_spec() == config.main.datadir@ + "/data/"@ + DIR@ + "/"@ + FILE@,
    {
        let mut path = storage_dir(config, DIR);
        path.append("/");
        path.append(FILE);
        Redb { path }
    }

    /// The directory that holds the database file.
    pub fn folder(config: &Config) -> (path: String)
        ensures
            path@ == config.main.datadir@ + "/data/"@ + DIR@,
    {
        storage_dir(config, DIR)
    }

    /// The path of the database file.
    pub fn path(&self) -> (p: &str)
        ensures
            p@ == self.path_spec(),
    {
        self.path.as_str()
    }
}

} // verus!
