//! The errors of the library.

use vstd::prelude::*;

verus! {

/// Why an operation on the chain history was refused. Every one of these
/// ends a sync session: none is retried.
#[derive(Clone, Copy, Debug, PartialEq, Eq, Structural)]
pub enum SyncError {
    /// The history already holds records, so it cannot be seeded.
    AlreadySeeded,
    /// The history holds no record yet, so there is no tip to build on.
    EmptyHistory,
    /// The record's parent is not the block it was to be placed on.
    ParentMismatch,
    /// The record's number is not one more than its parent's.
    NumberGap,
    /// The record's hash is already part of the chain.
    DuplicateHash,
    /// The ancestor to roll back to is not in the history.
    MissingAncestor,
    /// The blocks collected for a reorg do not start right above the
    /// common ancestor.
    AncestorMismatch,
    /// The reorg reaches further back than the history that is kept.
    ReorgTooDeep,
    /// A block is announced while the ancestors of an earlier one are
    /// still being fetched.
    WalkInProgress,
    /// A fetched ancestor arrives though none was asked for.
    NoWalkInProgress,
}

} // verus!
