//! Errors of the plugin manager.
use vstd::prelude::*;

verus! {

/// What went wrong, one variant for each kind of failure.
#[derive(Clone, Copy, Debug, PartialEq, Eq, Structural)]
pub enum ErrorKind {
    /// A remote could not be fetched, is unknown, or is already registered.
    Repository,
    /// No repository holds the plugin, or it is not installed.
    PluginNotFound,
    /// The plugin's language has no default install recipe and no manifest.
    UnsupportedLanguage,
    /// An install command could not be started or exited with a failure.
    ProcessExecution,
    /// The node's configuration could not be edited.
    Config,
    /// The snapshot could not be read, parsed or written.
    Storage,
}

/// The numeric code that a user sees for each kind of failure.
pub open spec fn kind_code(kind: ErrorKind) -> u64 {
    match kind {
        ErrorKind::Repository => 1,
        ErrorKind::PluginNotFound => 2,
        ErrorKind::UnsupportedLanguage => 3,
        ErrorKind::ProcessExecution => 4,
        ErrorKind::Config => 5,
        ErrorKind::Storage => 6,
    }
}

/// A failure of the plugin manager: its kind and a readable cause.
#[derive(Clone, Debug)]
pub struct CoffeeError {
    pub kind: ErrorKind,
    pub cause: String,
}

impl CoffeeError {
    pub fn new(kind: ErrorKind, cause: String) -> (r: Self)
        ensures
            r.kind == kind,
            r.cause@ == cause@,
    {
        CoffeeError { kind, cause }
    }

    /// The numeric code of this failure.
    pub fn code(&self) -> (r: u64)
        ensures
            r == kind_code(self.kind),
    {
        match self.kind {
            ErrorKind::Repository => 1,
            ErrorKind::PluginNotFound => 2,
            ErrorKind::UnsupportedLanguage => 3,
            ErrorKind::ProcessExecution => 4,
            ErrorKind::Config => 5,
            ErrorKind::Storage => 6,
        }
    }
}

} // verus!
