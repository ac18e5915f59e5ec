//! The errors the application reports.
use vstd::prelude::*;

verus! {

/// `std::io::Error`, carried through unchanged.
#[verifier::external_type_specification]
#[verifier::external_body]
pub struct ExIoError(std::io::Error);

/// What can go wrong while managing aliases.
#[derive(Debug)]
pub enum AppError {
    /// A configuration file that should be there is not.
    ConfigNotFound { path: String },
    /// A configuration file could not be understood.
    ParseError { detail: String },
    /// Reading or writing a file failed.
    Io(std::io::Error),
    /// The managed block already defines an alias of this name.
    DuplicateAlias { name: String, shell: String },
    /// The managed block does not hold what the request names.
    ManagedBlockError { detail: String },
    /// No configuration file can be found for the shell.
    ShellNotFound { shell: String },
    /// The running shell could not be asked for its aliases.
    RuntimeError { detail: String },
}

} // verus!
