//! The log queries to make for a canonical block.

use vstd::prelude::*;
use ethers::types::{Filter, H256};
use crate::hash::BlockHash;
use crate::registry::{EventHandler, HandlerRegistry};

verus! {

/// `ethers::types::Filter`, the description of a log query that a node
/// understands. The library builds filters and hands them on; it never
/// looks inside one.
#[verifier::external_type_specification]
#[verifier::external_body]
pub struct ExFilter(Filter);

/// The filter that `ethers` builds for the logs of one event in one block:
/// the result of `Filter::new().at_block_hash(h).event(signature)`, where
/// `h` is the hash with the bytes `block_hash`. It selects the block by its
/// hash and the event by the Keccak-256 digest of its signature.
pub uninterp spec fn event_filter(block_hash: Seq<u8>, signature: Seq<char>) -> Filter;

/// Calls `Filter::new`, `Filter::at_block_hash` and `Filter::event` of
/// `ethers`. Trusted: the filter depends on the hash bytes and the
/// signature alone, so it is the one that `event_filter` names.
#[verifier::external_body]
fn build_event_filter(block_hash: &[u8; 32], signature: &str) -> (filter: Filter)
    ensures
        filter == event_filter(block_hash@, signature@),
{
    Filter::new().at_block_hash(H256::from(*block_hash)).event(signature)
}

/// A query for the logs of one event in one block.
pub struct LogQuery {
    /// The event signature whose handler gets the logs found.
    pub signature: String,
    /// What to ask the node for.
    pub filter: Filter,
}

impl LogQuery {
    /// The query for the logs of the event `signature` in the block with
    /// hash `block_hash`.
    pub fn for_event(block_hash: &BlockHash, signature: &str) -> (query: LogQuery)
        ensures
            query.signature@ == signature@,
            query.filter == event_filter(block_hash.bytes(), signature@),
    {
        let bytes = block_hash.to_bytes();
        LogQuery { signature: signature.to_owned(), filter: build_event_filter(&bytes, signature) }
    }
}

impl<H: EventHandler> HandlerRegistry<H> {
    /// The queries to make for a block: one for each registered signature,
    /// in the order of `signatures`.
    pub fn log_queries(&self, block_hash: &BlockHash) -> (queries: Vec<LogQuery>)
        ensures
            queries@.len() == self.signatures().len(),
            forall|i: int|
                0 <= i < queries@.len() ==> {
                    &&& (#[trigger] queries@[i]).signature@ == self.signatures()[i]
                    &&& queries@[i].filter == event_filter(
                        block_hash.bytes(),
                        self.signatures()[i],
                    )
                },
    {
        let mut queries: Vec<LogQuery> = Vec::new();
        let mut i: usize = 0;
        while i < self.len()
            invariant
                0 <= i <= self.signatures().len(),
                queries@.len() == i,
                forall|j: int|
                    0 <= j < i ==> {
                        &&& (#[trigger] queries@[j]).signature@ == self.signatures()[j]
                        &&& queries@[j].filter == event_filter(
                            block_hash.bytes(),
                            self.signatures()[j],
                        )
                    },
            decreases self.signatures().len() - i,
        {
            if let Some(signature) = self.signature(i) {
                queries.push(LogQuery::for_event(block_hash, signature));
            }
            i = i + 1;
        }
        queries
    }
}

} // verus!
