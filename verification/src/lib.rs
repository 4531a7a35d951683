//! Ancestry resolution for git-style commit graphs.
//!
//! Given a repository's local branches and tags (as name/commit pairs), the
//! commits reachable from the designated default branch, and each branch's
//! ancestor walk, this library determines for every non-default branch the
//! nearest named reference it descends from, preferring a position on the
//! default branch when the matched ancestor has been absorbed into the
//! default branch's own history.
//!
//! All repository reads (resolving references, walking the object store)
//! happen outside this library; it works on plain values handed to it.

pub mod args;
pub mod catalog;
pub mod commit;
pub mod default_branch;
pub mod error;
pub mod index;
pub mod order;
pub mod reference;
pub mod resolve;
