//! Failures of a reconciliation run.

use crate::request;
use vstd::prelude::*;

verus! {

/// What can go wrong while two trees are reconciled.
#[derive(Debug, PartialEq, Eq)]
pub enum Error {
    /// The remote store could not be reached or rejected the request.
    PCloud(request::Error),
    /// A local filesystem operation failed; the text describes the failure.
    Io(String),
    /// An operation failed on every attempt it was allowed; one failure per
    /// attempt, in the order of the attempts.
    Retry(Vec<Error>),
    /// The outcome handed to the engine does not answer the operation that
    /// the engine asked for.
    Protocol,
}

impl Error {
    /// A failure of the remote store.
    pub fn from_remote(err: request::Error) -> (e: Error)
        ensures
            e == Error::PCloud(err),
    {
        Error::PCloud(err)
    }

    /// A failure of the local filesystem.
    pub fn from_io(description: String) -> (e: Error)
        ensures
            e == Error::Io(description),
    {
        Error::Io(description)
    }
}

} // verus!
