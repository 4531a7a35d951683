//! The error taxonomy of the resolution run.

use vstd::prelude::*;

verus! {

/// Why a resolution run failed.
pub enum Error {
    /// The configured default branch name does not name an existing branch.
    UnknownReference(String),
    /// A reference's raw name is not valid text; carries the byte offset of
    /// the first invalid sequence.
    DecodeError(usize),
    /// The underlying object store or graph traversal failed; carries the
    /// accessor-reported cause.
    GraphAccessError(String),
}

} // verus!
