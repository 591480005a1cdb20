//! Follows the head of a blockchain: keeps the recent canonical blocks,
//! resolves reorganisations by walking back to the last common ancestor, and
//! routes the event logs of every canonical block to registered handlers.
//!
//! The library holds the state and takes the decisions; the caller owns the
//! connection to the node. `sync::VinylSync` takes each announced block and
//! says which blocks to process or which block to fetch next;
//! `history::ChainHistory` and `reorg::ReorgResolver` are the parts it is
//! made of, and `registry::HandlerRegistry` routes logs to handlers.

pub mod block;
pub mod chain;
pub mod error;
pub mod hash;
pub mod history;
pub mod index;
pub mod query;
pub mod registry;
pub mod reorg;
pub mod sync;
