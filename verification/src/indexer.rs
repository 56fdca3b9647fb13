//! Indexing of a directory tree for the file pane and quick open.
//!
//! The index data itself lives in [`index`]; building it from a local
//! directory or over a remote connection is the caller's work, except for
//! what can be computed from plain values (see [`ssh_index`]).

use vstd::prelude::*;

pub mod index;
pub mod ssh_index;

verus! {

use vstd::string::StringExecFns;

/// An error from indexing, carrying a human-readable message.
#[derive(Debug)]
pub struct IndexError {
    pub message: String,
}

impl IndexError {
    /// An error with the given message.
    pub fn new(message: &str) -> (r: IndexError)
        ensures
            r.message@ == message@,
    {
        IndexError { message: String::from_str(message) }
    }
}

} // verus!
