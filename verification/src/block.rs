//! The record kept of a block.

use vstd::prelude::*;
use crate::hash::BlockHash;

verus! {

/// What the tracker keeps of a block: its hash, its height and the hash of
/// its parent.
#[derive(Clone, Copy, Debug, PartialEq, Eq, Hash, Structural)]
pub struct BlockRecord {
    pub hash: BlockHash,
    pub number: u64,
    pub parent_hash: BlockHash,
}

impl BlockRecord {
    pub fn new(hash: BlockHash, number: u64, parent_hash: BlockHash) -> (record: BlockRecord)
        ensures
            record == (BlockRecord { hash, number, parent_hash }),
    {
        BlockRecord { hash, number, parent_hash }
    }
}

} // verus!
