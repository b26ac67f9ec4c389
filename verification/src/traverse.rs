//! Why a walk over the files to archive ended early.

use vstd::prelude::*;

verus! {

/// Why a traversal stopped.
#[derive(Debug)]
pub enum TraversalError {
    /// Nobody listens for entries any more.
    TraversalCancelled,
    /// The file system reported an error.
    IOError(std::io::Error),
}

} // verus!
