//! The command line.

use vstd::prelude::*;

verus! {

/// How many hours without activity make a multipart upload stale, unless the command line says so.
pub const DEFAULT_STALE_HOURS: i64 = 24;

/// The prefix that a new key is confined to, unless the command line gives one: none.
pub const DEFAULT_PREFIX: &'static str = "";

/// A command line.
#[derive(Debug, PartialEq, Eq)]
pub struct Cli {
    pub cmd: Option<Cmd>,
}

/// What the program is asked to do.
#[derive(Debug, PartialEq, Eq)]
pub enum Cmd {
    /// Run the HTTP server, the default.
    Serve,
    /// Manage scoped access keys.
    Credential { action: CredAction },
    /// Show the generated root key.
    RootKey,
    /// Take a snapshot of the database at once.
    Backup,
    /// Check a snapshot and put it in place of the database.
    Recover { file: String },
    /// Check that every stored chunk can still be had, and report abandoned multipart uploads.
    Fsck {
        /// Uploads without activity for longer than this are stale.
        stale_hours: i64,
        /// Whether stale uploads are also aborted.
        abort_stale: bool,
    },
    /// Re-chunk an object into fewer pieces of the usual size.
    Consolidate { bucket: String, key: String },
}

/// What is to be done with the access keys.
#[derive(Debug, PartialEq, Eq)]
pub enum CredAction {
    /// Make a key that is confined to a bucket, and there to a prefix.
    Add { bucket: String, prefix: String },
    List,
    /// Remove a key, unless it is a root key.
    Rm { access_key: String },
    /// Give a key a new secret.
    Rotate { access_key: String },
    /// Replace a key and its secret, but keep what it is confined to.
    Rekey { access_key: String },
}

impl Cli {
    /// What the program is asked to do.
    pub open spec fn asked(self) -> Cmd {
        match self.cmd {
            Some(cmd) => cmd,
            None => Cmd::Serve,
        }
    }

    /// What the program is asked to do: to serve, where the command line names nothing.
    pub fn command(self) -> (r: Cmd)
        ensures
            r == (match self.cmd {
                Some(cmd) => cmd,
                None => Cmd::Serve,
            }),
            r == self.asked(),
    {
        match self.cmd {
            Some(cmd) => cmd,
            None => Cmd::Serve,
        }
    }
}

/// Whatever the command line names is what is done; one that names nothing asks to serve. Uploads are
/// stale after a day, and a key is confined to no prefix, unless the command line says otherwise.
pub proof fn command_lines_are_obeyed(cmd: Cmd)
    ensures
        (Cli { cmd: Some(cmd) }).asked() == cmd,
        (Cli { cmd: None }).asked() is Serve,
        DEFAULT_STALE_HOURS == 24,
        DEFAULT_PREFIX@.len() == 0,
{
    reveal_strlit("");
}

}
