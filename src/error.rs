use vstd::prelude::*;

verus! {

/// The ways that building or searching an index can fail.
#[derive(Debug)]
pub enum Error {
    /// The registry document could not be decoded.
    MalformedRegistry { message: String },
    /// An installable entry carries no version.
    MissingVersion { attribute: String },
    /// The store could not be created or written.
    StorageFailure { message: String },
    /// The store could not be read, or a row of it could not be decoded.
    SearchReadFailure { message: String },
    /// The registry generator could not be run, or it failed.
    SubprocessFailure { message: String },
}

} // verus!
