//! The tracker as a state machine: blocks go in, and out come the blocks to
//! process and the hashes of the blocks to fetch.

use vstd::prelude::*;
use ethers::types::Log;
use crate::block::BlockRecord;
use crate::chain::{
    append_error, contains_hash, distinct_hashes, is_chain, lemma_append_keeps_chain,
};
use crate::error::SyncError;
use crate::hash::BlockHash;
use crate::history::ChainHistory;
use crate::query::{event_filter, LogQuery};
use crate::registry::{EventHandler, HandlerRegistry};
use crate::reorg::{
    ancestor_position, lemma_collected_blocks_are_new, lemma_reorg_replaces_suffix, resolve_error,
    resolved, supply_error, walk_step, ReorgResolver, WalkStep,
};

verus! {

/// What the caller has to do after handing a block to the tracker.
#[derive(Debug, PartialEq, Eq)]
pub enum Step {
    /// These blocks have become canonical: process each, in this order.
    Process(Vec<BlockRecord>),
    /// Fetch the block with this hash and hand it to `on_fetched`.
    Fetch(BlockHash),
}

/// The way an announced block takes into the history.
#[derive(Clone, Copy, Debug, PartialEq, Eq, Structural)]
pub enum Route {
    /// The history is empty: the block seeds it.
    Seed,
    /// The block names the tip as its parent: it is appended.
    Append,
    /// The block names another parent: the chain has reorganised.
    Reorg,
}

/// The way that `block` takes into the history `h`.
pub open spec fn route_of(h: Seq<BlockRecord>, block: BlockRecord) -> Route {
    if h.len() == 0 {
        Route::Seed
    } else if block.parent_hash == h.last().hash {
        Route::Append
    } else {
        Route::Reorg
    }
}

/// How a walk that has collected `c` against the history `h` goes on: what
/// is returned, and the history `h2` and the collected blocks `pending2`
/// that are left behind.
pub open spec fn walk_outcome(
    h: Seq<BlockRecord>,
    c: Seq<BlockRecord>,
    result: Result<Step, SyncError>,
    h2: Seq<BlockRecord>,
    pending2: Option<Seq<BlockRecord>>,
) -> bool {
    match walk_step(h, c) {
        WalkStep::Fetch(hash) => {
            &&& result == Ok::<Step, SyncError>(Step::Fetch(hash))
            &&& h2 == h
            &&& pending2 == Some(c)
        },
        WalkStep::TooDeep => {
            &&& result == Err::<Step, SyncError>(SyncError::ReorgTooDeep)
            &&& h2 == h
            &&& pending2 is None
        },
        WalkStep::Ready => match resolve_error(h, c) {
            Some(e) => {
                &&& result == Err::<Step, SyncError>(e)
                &&& h2 == h
                &&& pending2 is None
            },
            None => {
                &&& result matches Ok(Step::Process(processed))
                &&& processed@ == c.reverse()
                &&& h2 == resolved(h, c)
                &&& pending2 is None
            },
        },
    }
}

/// What announcing `block` does to a tracker with history `h` and
/// collected blocks `pending`.
pub open spec fn announce_outcome(
    h: Seq<BlockRecord>,
    pending: Option<Seq<BlockRecord>>,
    block: BlockRecord,
    result: Result<Step, SyncError>,
    h2: Seq<BlockRecord>,
    pending2: Option<Seq<BlockRecord>>,
) -> bool {
    if pending is Some {
        &&& result == Err::<Step, SyncError>(SyncError::WalkInProgress)
        &&& h2 == h
        &&& pending2 == pending
    } else {
        match route_of(h, block) {
            Route::Seed => {
                &&& result matches Ok(Step::Process(processed))
                &&& processed@ == seq![block]
                &&& h2 == seq![block]
                &&& pending2 is None
            },
            Route::Append => match append_error(h, block) {
                Some(e) => {
                    &&& result == Err::<Step, SyncError>(e)
                    &&& h2 == h
                    &&& pending2 is None
                },
                None => {
                    &&& result matches Ok(Step::Process(processed))
                    &&& processed@ == seq![block]
                    &&& h2 == h.push(block)
                    &&& pending2 is None
                },
            },
            Route::Reorg => walk_outcome(h, seq![block], result, h2, pending2),
        }
    }
}

/// What handing over the fetched `block` does to a tracker with history
/// `h` and collected blocks `pending`.
pub open spec fn fetched_outcome(
    h: Seq<BlockRecord>,
    pending: Option<Seq<BlockRecord>>,
    block: BlockRecord,
    result: Result<Step, SyncError>,
    h2: Seq<BlockRecord>,
    pending2: Option<Seq<BlockRecord>>,
) -> bool {
    match pending {
        None => {
            &&& result == Err::<Step, SyncError>(SyncError::NoWalkInProgress)
            &&& h2 == h
            &&& pending2 is None
        },
        Some(c) => match supply_error(c, block) {
            Some(e) => {
                &&& result == Err::<Step, SyncError>(e)
                &&& h2 == h
                &&& pending2 is None
            },
            None => walk_outcome(h, c.push(block), result, h2, pending2),
        },
    }
}

/// `p` is what is new in the history `h2` against the history `h` before
/// it: `h2` is a chain made of a prefix of `h` and then `p`, no block of `p`
/// occurs twice, and none is a block of that prefix.
pub open spec fn is_new_suffix(
    h: Seq<BlockRecord>,
    h2: Seq<BlockRecord>,
    p: Seq<BlockRecord>,
) -> bool {
    let kept = h2.len() - p.len();
    &&& 0 <= kept <= h.len()
    &&& h2 == h.take(kept) + p
    &&& is_chain(h2)
    &&& distinct_hashes(p)
    &&& forall|i: int| 0 <= i < p.len() ==> !contains_hash(h.take(kept), (#[trigger] p[i]).hash)
}

/// Every block is handed out for processing exactly once each time it
/// becomes canonical: what a step hands out is what is new in the history
/// after it, oldest first. A step that fails, or that asks for a block,
/// leaves the history as it was and hands out nothing.
pub proof fn lemma_step_processes_new_suffix(
    h: Seq<BlockRecord>,
    pending: Option<Seq<BlockRecord>>,
    block: BlockRecord,
    result: Result<Step, SyncError>,
    h2: Seq<BlockRecord>,
    pending2: Option<Seq<BlockRecord>>,
)
    requires
        is_chain(h),
        announce_outcome(h, pending, block, result, h2, pending2) || fetched_outcome(
            h,
            pending,
            block,
            result,
            h2,
            pending2,
        ),
    ensures
        result matches Ok(Step::Process(processed)) ==> is_new_suffix(h, h2, processed@),
        !(result matches Ok(Step::Process(_))) ==> h2 == h,
{
    if let Ok(Step::Process(processed)) = result {
        let p = processed@;
        if announce_outcome(h, pending, block, result, h2, pending2) && pending is None
            && route_of(h, block) != Route::Reorg {
            if h.len() == 0 {
                assert(h.take(0) + p =~= h2);
                assert(is_chain(h2));
            } else {
                lemma_append_keeps_chain(h, block);
                assert(h.take(h.len() as int) =~= h);
                assert(h.take(h.len() as int) + p =~= h2);
                assert(p[0] == block);
            }
        } else {
            let c = if announce_outcome(h, pending, block, result, h2, pending2) {
                seq![block]
            } else {
                pending->0.push(block)
            };
            assert(walk_outcome(h, c, result, h2, pending2));
            lemma_reorg_replaces_suffix(h, c);
            lemma_collected_blocks_are_new(h, c);
            assert(h2.len() - p.len() == ancestor_position(h, c) + 1);
        }
    }
}

/// The tracker: the registered handlers, the history of canonical blocks,
/// and, while a reorg is being resolved, the blocks collected for it.
///
/// The caller owns the connection to the node. It hands every announced
/// block to `on_block` and every block it was asked to fetch to
/// `on_fetched`, and processes the blocks that either returns.
pub struct VinylSync<H = Box<dyn EventHandler>> {
    handlers: HandlerRegistry<H>,
    history: ChainHistory,
    walk: Option<ReorgResolver>,
}

impl<H: EventHandler> VinylSync<H> {
    /// The registry of handlers.
    pub closed spec fn registry(&self) -> HandlerRegistry<H> {
        self.handlers
    }

    /// The history of canonical blocks.
    pub closed spec fn chain(&self) -> ChainHistory {
        self.history
    }

    /// The walk in progress, if a reorg is being resolved.
    pub closed spec fn walk(&self) -> Option<ReorgResolver> {
        self.walk
    }

    /// The blocks collected by the walk in progress, announced block first.
    pub open spec fn pending(&self) -> Option<Seq<BlockRecord>> {
        match self.walk() {
            Some(walk) => Some(walk@),
            None => None,
        }
    }

    pub open spec fn wf(&self) -> bool {
        &&& self.registry().wf()
        &&& self.chain().wf()
        &&& self.walk() matches Some(walk) ==> walk.wf()
    }

    /// A tracker without handlers and with an empty history.
    pub fn new() -> (sync: VinylSync<H>)
        ensures
            sync.wf(),
            sync.registry()@ == Map::<Seq<char>, H>::empty(),
            sync.registry().signatures() == Seq::<Seq<char>>::empty(),
            sync.chain()@ == Seq::<BlockRecord>::empty(),
            sync.pending() is None,
    {
        VinylSync { handlers: HandlerRegistry::new(), history: ChainHistory::new(), walk: None }
    }

    /// Installs `handler` for `event_signature`, in place of the handler
    /// that was registered for it before, if there was one.
    pub fn add_handler(&mut self, event_signature: &str, handler: H)
        requires
            old(self).wf(),
        ensures
            final(self).wf(),
            final(self).registry()@ == old(self).registry()@.insert(event_signature@, handler),
            final(self).registry().signatures() == (if old(self).registry().signatures().contains(
                event_signature@,
            ) {
                old(self).registry().signatures()
            } else {
                old(self).registry().signatures().push(event_signature@)
            }),
            final(self).chain() == old(self).chain(),
            final(self).walk() == old(self).walk(),
    {
        self.handlers.add_handler(event_signature, handler);
    }

    /// The history of canonical blocks.
    pub fn history(&self) -> (history: &ChainHistory)
        ensures
            *history == self.chain(),
    {
        &self.history
    }

    /// The registry of handlers.
    pub fn handlers(&self) -> (handlers: &HandlerRegistry<H>)
        ensures
            *handlers == self.registry(),
    {
        &self.handlers
    }

    /// Whether a walk is in progress, so that the next call has to be
    /// `on_fetched`.
    pub fn is_fetching(&self) -> (fetching: bool)
        ensures
            fetching == (self.pending() is Some),
    {
        self.walk.is_some()
    }

    /// The way that `block` would take into the history as it is now.
    pub fn route(&self, block: &BlockRecord) -> (route: Route)
        ensures
            route == route_of(self.chain()@, *block),
    {
        match self.history.tip() {
            None => Route::Seed,
            Some(tip) => if block.parent_hash == tip.hash {
                Route::Append
            } else {
                Route::Reorg
            },
        }
    }

    /// Takes a newly announced block. The first block ever seeds the
    /// history; a block on the tip is appended; any other block starts a
    /// walk back to the common ancestor.
    pub fn on_block(&mut self, block: BlockRecord) -> (result: Result<Step, SyncError>)
        requires
            old(self).wf(),
        ensures
            final(self).wf(),
            final(self).registry() == old(self).registry(),
            announce_outcome(
                old(self).chain()@,
                old(self).pending(),
                block,
                result,
                final(self).chain()@,
                final(self).pending(),
            ),
    {
        if self.walk.is_some() {
            return Err(SyncError::WalkInProgress);
        }
        match self.route(&block) {
            Route::Seed => match self.history.seed(block) {
                Ok(()) => Ok(Step::Process(single(block))),
                Err(e) => Err(e),
            },
            Route::Append => match self.history.append(block) {
                Ok(()) => Ok(Step::Process(single(block))),
                Err(e) => Err(e),
            },
            Route::Reorg => self.advance(ReorgResolver::new(block)),
        }
    }

    /// Takes the block that the last `Step::Fetch` asked for and goes on
    /// with the walk. A block that is not the parent asked for ends the
    /// walk with an error.
    pub fn on_fetched(&mut self, block: BlockRecord) -> (result: Result<Step, SyncError>)
        requires
            old(self).wf(),
        ensures
            final(self).wf(),
            final(self).registry() == old(self).registry(),
            fetched_outcome(
                old(self).chain()@,
                old(self).pending(),
                block,
                result,
                final(self).chain()@,
                final(self).pending(),
            ),
    {
        match self.walk.take() {
            None => Err(SyncError::NoWalkInProgress),
            Some(walk) => {
                let mut walk = walk;
                match walk.supply(block) {
                    Ok(()) => self.advance(walk),
                    Err(e) => Err(e),
                }
            },
        }
    }

    /// Goes on with a walk: asks for the next ancestor, gives up, or
    /// resolves the reorg.
    fn advance(&mut self, walk: ReorgResolver) -> (result: Result<Step, SyncError>)
        requires
            old(self).wf(),
            old(self).walk() is None,
            walk.wf(),
        ensures
            final(self).wf(),
            final(self).registry() == old(self).registry(),
            walk_outcome(
                old(self).chain()@,
                walk@,
                result,
                final(self).chain()@,
                final(self).pending(),
            ),
    {
        match walk.next_step(&self.history) {
            WalkStep::Fetch(hash) => {
                self.walk = Some(walk);
                Ok(Step::Fetch(hash))
            },
            WalkStep::TooDeep => Err(SyncError::ReorgTooDeep),
            WalkStep::Ready => {
                match walk.resolve(&mut self.history) {
                    Ok(processed) => Ok(Step::Process(processed)),
                    Err(e) => Err(e),
                }
            },
        }
    }

    /// The log queries to make for a canonical block: one for each
    /// registered signature.
    pub fn log_queries(&self, block: &BlockRecord) -> (queries: Vec<LogQuery>)
        ensures
            queries@.len() == self.registry().signatures().len(),
            forall|i: int|
                0 <= i < queries@.len() ==> {
                    &&& (#[trigger] queries@[i]).signature@ == self.registry().signatures()[i]
                    &&& queries@[i].filter == event_filter(
                        block.hash.bytes(),
                        self.registry().signatures()[i],
                    )
                },
    {
        self.handlers.log_queries(&block.hash)
    }

    /// Hands each of `logs`, in their order, to the handler installed for
    /// `event_signature`, and returns how many it handed over: all of them,
    /// or none where no handler is installed.
    pub fn dispatch(&self, event_signature: &str, logs: &Vec<Log>) -> (delivered: usize)
        requires
            self.wf(),
        ensures
            delivered == (if self.registry()@.contains_key(event_signature@) {
                logs@.len()
            } else {
                0
            }),
    {
        self.handlers.dispatch(event_signature, logs)
    }
}

/// A list of one record.
fn single(block: BlockRecord) -> (list: Vec<BlockRecord>)
    ensures
        list@ == seq![block],
{
    let mut list: Vec<BlockRecord> = Vec::new();
    list.push(block);
    assert(list@ =~= seq![block]);
    list
}

} // verus!
