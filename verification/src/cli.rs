//! What the command line asks for, once its arguments are parsed.

use vstd::prelude::*;

verus! {

/// What to do about passwords.
#[derive(Debug, Clone, PartialEq, Eq)]
pub enum PasswordCommand {
    /// Print a random password.
    Generate { length: u8, no_latters: bool, no_symbols: bool, no_numbers: bool },
    /// Store a random password as the bundle `name`.
    Add { name: String },
}

/// What to do with one bundle.
#[derive(Debug, Clone, PartialEq, Eq)]
pub enum BundleCommand {
    Add { name: String },
    Generate { name: String },
    Edit { name: String },
    Delete { name: String },
    Search { name: String },
    Copy { name: String },
    Show { name: String },
}

/// A subcommand.
#[derive(Debug, Clone, PartialEq, Eq)]
pub enum Commands {
    /// Unlock the database.
    Unlock,
    /// Lock the database.
    Lock,
    /// Initialize the database.
    Init { passphrase: Option<String> },
    /// Push the database to its remote.
    Sync,
    /// Work with a bundle.
    Bundle(BundleCommand),
    /// Work with passwords.
    Password(PasswordCommand),
}

/// The arguments of one invocation.
#[derive(Debug, Clone, PartialEq, Eq)]
pub struct Cli {
    /// Add a bundle.
    pub add: Option<String>,
    /// Create a bundle from standard input.
    pub stdin: Option<String>,
    /// Create a bundle that holds a random password.
    pub generate: Option<String>,
    /// Edit a bundle.
    pub edit: Option<String>,
    /// Delete a bundle.
    pub delete: Option<String>,
    /// Search bundles by name.
    pub search: Option<String>,
    /// Copy a bundle to the clipboard.
    pub copy: Option<String>,
    /// Show the version.
    pub version: bool,
    /// The subcommand, if one was given.
    pub command: Option<Commands>,
    /// Show the content of a bundle.
    pub show: Option<String>,
    /// List all bundles.
    pub list: bool,
}

/// The one thing an invocation does.
#[derive(Debug, Clone, PartialEq, Eq)]
pub enum Action {
    /// Store standard input as the bundle named.
    FromStdin(String),
    /// List all bundles.
    List,
    /// Print the version.
    Version,
    /// Run a command.
    Run(Commands),
    /// Print the help text.
    Help,
}

impl Cli {
    /// The command that the flags and the subcommand amount to. Of several
    /// flags the one that comes first in this order counts: generate, add,
    /// search, delete, edit, show, copy; a subcommand counts only where no
    /// flag is given.
    pub open spec fn command_spec(self) -> Option<Commands> {
        if let Some(name) = self.generate {
            Some(Commands::Password(PasswordCommand::Add { name }))
        } else if let Some(name) = self.add {
            Some(Commands::Bundle(BundleCommand::Add { name }))
        } else if let Some(name) = self.search {
            Some(Commands::Bundle(BundleCommand::Search { name }))
        } else if let Some(name) = self.delete {
            Some(Commands::Bundle(BundleCommand::Delete { name }))
        } else if let Some(name) = self.edit {
            Some(Commands::Bundle(BundleCommand::Edit { name }))
        } else if let Some(name) = self.show {
            Some(Commands::Bundle(BundleCommand::Show { name }))
        } else if let Some(name) = self.copy {
            Some(Commands::Bundle(BundleCommand::Copy { name }))
        } else {
            self.command
        }
    }

    /// What the invocation does: reading standard input comes before
    /// listing, listing before the version, the version before any command;
    /// with nothing asked for, the help text is shown.
    pub open spec fn action_spec(self) -> Action {
        if let Some(name) = self.stdin {
            Action::FromStdin(name)
        } else if self.list {
            Action::List
        } else if self.version {
            Action::Version
        } else {
            match self.command_spec() {
                Some(c) => Action::Run(c),
                None => Action::Help,
            }
        }
    }

    /// What the invocation does.
    pub fn action(self) -> (a: Action)
        ensures
            a == self.action_spec(),
    {
        if let Some(name) = self.stdin {
            return Action::FromStdin(name);
        }
        if self.list {
            return Action::List;
        }
        if self.version {
            return Action::Version;
        }
        let mut command = self.command;
        if let Some(name) = self.copy {
            command = Some(Commands::Bundle(BundleCommand::Copy { name }));
        }
        if let Some(name) = self.show {
            command = Some(Commands::Bundle(BundleCommand::Show { name }));
        }
        if let Some(name) = self.edit {
            command = Some(Commands::Bundle(BundleCommand::Edit { name }));
        }
        if let Some(name) = self.delete {
            command = Some(Commands::Bundle(BundleCommand::Delete { name }));
        }
        if let Some(name) = self.search {
            command = Some(Commands::Bundle(BundleCommand::Search { name }));
        }
        if let Some(name) = self.add {
            command = Some(Commands::Bundle(BundleCommand::Add { name }));
        }
        if let Some(name) = self.generate {
            command = Some(Commands::Password(PasswordCommand::Add { name }));
        }
        match command {
            Some(c) => Action::Run(c),
            None => Action::Help,
        }
    }
}

} // verus!
