//! Resolving a reorg: the walk back from an announced block to the common
//! ancestor, and the replacement of what the history held above it.

use vstd::prelude::*;
use crate::block::BlockRecord;
use crate::chain::{
    contains_hash, distinct_hashes, extend_error, is_chain, lemma_extend_keeps_chain,
    lemma_prefix_is_chain, linear, linked, position_of,
};
use crate::error::SyncError;
use crate::hash::BlockHash;
use crate::history::ChainHistory;

verus! {

/// What a walk back towards the common ancestor has to do next.
#[derive(Clone, Copy, Debug, PartialEq, Eq, Structural)]
pub enum WalkStep {
    /// The parent of the deepest collected block is in the history: the
    /// common ancestor is found.
    Ready,
    /// The block with this hash, the parent of the deepest collected block,
    /// has to be fetched.
    Fetch(BlockHash),
    /// One more block would be more than the history holds.
    TooDeep,
}

/// The next step of a walk that has collected `c` (announced block first,
/// deepest ancestor last) against the history `h`.
pub open spec fn walk_step(h: Seq<BlockRecord>, c: Seq<BlockRecord>) -> WalkStep {
    if c.len() > h.len() {
        WalkStep::TooDeep
    } else if contains_hash(h, c.last().parent_hash) {
        WalkStep::Ready
    } else if c.len() + 1 > h.len() {
        WalkStep::TooDeep
    } else {
        WalkStep::Fetch(c.last().parent_hash)
    }
}

/// Why a fetched block cannot be taken as the parent of the deepest block
/// of `c`, or `None` where it can.
pub open spec fn supply_error(c: Seq<BlockRecord>, fetched: BlockRecord) -> Option<SyncError> {
    if fetched.hash != c.last().parent_hash {
        Some(SyncError::ParentMismatch)
    } else if c.last().number != fetched.number + 1 {
        Some(SyncError::NumberGap)
    } else {
        None
    }
}

/// The position in `h` of the common ancestor of a finished walk.
pub open spec fn ancestor_position(h: Seq<BlockRecord>, c: Seq<BlockRecord>) -> int {
    position_of(h, c.last().parent_hash)
}

/// Why the walk `c` cannot be resolved against `h`, or `None` where it can.
pub open spec fn resolve_error(h: Seq<BlockRecord>, c: Seq<BlockRecord>) -> Option<SyncError> {
    match walk_step(h, c) {
        WalkStep::TooDeep => Some(SyncError::ReorgTooDeep),
        WalkStep::Fetch(_) => Some(SyncError::MissingAncestor),
        WalkStep::Ready => {
            let k = ancestor_position(h, c);
            if h[k].number + 1 != c.last().number {
                Some(SyncError::AncestorMismatch)
            } else {
                extend_error(h.take(k + 1), c.reverse())
            }
        },
    }
}

/// The history after the walk `c` is resolved against `h`: what `h` holds
/// up to the common ancestor, then the collected blocks, oldest first.
pub open spec fn resolved(h: Seq<BlockRecord>, c: Seq<BlockRecord>) -> Seq<BlockRecord> {
    h.take(ancestor_position(h, c) + 1) + c.reverse()
}

/// The blocks collected while walking back from an announced block whose
/// parent is not the tip.
pub struct ReorgResolver {
    collected: Vec<BlockRecord>,
}

impl View for ReorgResolver {
    type V = Seq<BlockRecord>;

    /// The collected blocks: the announced one first, then each fetched
    /// ancestor, deepest last.
    closed spec fn view(&self) -> Seq<BlockRecord> {
        self.collected@
    }
}

impl ReorgResolver {
    /// At least the announced block is collected, and each collected block
    /// is the parent of the one collected before it.
    pub open spec fn wf(&self) -> bool {
        &&& self@.len() > 0
        &&& linear(self@.reverse())
    }

    /// Starts a walk at the announced block.
    pub fn new(announced: BlockRecord) -> (resolver: ReorgResolver)
        ensures
            resolver.wf(),
            resolver@ == seq![announced],
    {
        let mut collected: Vec<BlockRecord> = Vec::new();
        collected.push(announced);
        assert(collected@ =~= seq![announced]);
        ReorgResolver { collected }
    }

    /// How many blocks are collected.
    pub fn len(&self) -> (len: usize)
        ensures
            len == self@.len(),
    {
        self.collected.len()
    }

    /// The deepest block collected so far.
    pub fn frontier(&self) -> (frontier: BlockRecord)
        requires
            self.wf(),
        ensures
            frontier == self@.last(),
    {
        self.collected[self.collected.len() - 1]
    }

    /// Decides what the walk needs next.
    pub fn next_step(&self, history: &ChainHistory) -> (step: WalkStep)
        requires
            self.wf(),
            history.wf(),
        ensures
            step == walk_step(history@, self@),
    {
        let collected = self.collected.len();
        let held = history.len();
        let parent = self.frontier().parent_hash;
        if collected > held {
            WalkStep::TooDeep
        } else if history.contains(&parent) {
            WalkStep::Ready
        } else if collected >= held {
            WalkStep::TooDeep
        } else {
            WalkStep::Fetch(parent)
        }
    }

    /// Takes a fetched block as the next ancestor. It is refused, and the
    /// walk left as it was, unless it is the parent that the deepest
    /// collected block names and is one lower than that block.
    pub fn supply(&mut self, fetched: BlockRecord) -> (result: Result<(), SyncError>)
        requires
            old(self).wf(),
        ensures
            final(self).wf(),
            match result {
                Ok(()) => supply_error(old(self)@, fetched) is None && final(self)@ == old(
                    self,
                )@.push(fetched),
                Err(e) => supply_error(old(self)@, fetched) == Some(e) && final(self)@ == old(
                    self,
                )@,
            },
    {
        let frontier = self.frontier();
        if fetched.hash != frontier.parent_hash {
            return Err(SyncError::ParentMismatch);
        }
        if fetched.number == u64::MAX || frontier.number != fetched.number + 1 {
            return Err(SyncError::NumberGap);
        }
        self.collected.push(fetched);
        proof {
            let before = old(self)@.reverse();
            let after = self@.reverse();
            assert forall|i: int| 0 <= i < after.len() - 1 implies linked(
                #[trigger] after[i],
                after[i + 1],
            ) by {
                if i > 0 {
                    assert(after[i] == before[i - 1]);
                    assert(linked(before[i - 1], before[i - 1 + 1]));
                }
            }
        }
        Ok(())
    }

    /// Ends the walk: rolls the history back to the common ancestor, places
    /// the collected blocks on it, and returns them, oldest first, for
    /// processing. Where the walk cannot be resolved the history is left as
    /// it was.
    pub fn resolve(self, history: &mut ChainHistory) -> (result: Result<
        Vec<BlockRecord>,
        SyncError,
    >)
        requires
            self.wf(),
            old(history).wf(),
        ensures
            final(history).wf(),
            match result {
                Ok(processed) => {
                    &&& resolve_error(old(history)@, self@) is None
                    &&& final(history)@ == resolved(old(history)@, self@)
                    &&& processed@ == self@.reverse()
                },
                Err(e) => {
                    &&& resolve_error(old(history)@, self@) == Some(e)
                    &&& final(history)@ == old(history)@
                },
            },
    {
        match self.next_step(history) {
            WalkStep::TooDeep => {
                return Err(SyncError::ReorgTooDeep);
            },
            WalkStep::Fetch(_) => {
                return Err(SyncError::MissingAncestor);
            },
            WalkStep::Ready => {},
        }
        let frontier = self.frontier();
        let ancestor = frontier.parent_hash;
        let ancestor_number = match history.ancestor_depth(&ancestor) {
            Some(number) => number,
            None => {
                return Err(SyncError::MissingAncestor);
            },
        };
        if ancestor_number == u64::MAX || ancestor_number + 1 != frontier.number {
            return Err(SyncError::AncestorMismatch);
        }
        let ascending = reversed(&self.collected);
        let dropped = match history.rollback_to(&ancestor) {
            Ok(dropped) => dropped,
            Err(e) => {
                return Err(e);
            },
        };
        match history.extend(&ascending) {
            Ok(()) => Ok(ascending),
            Err(e) => {
                proof {
                    let h = old(history)@;
                    let k = ancestor_position(h, self@);
                    assert(h.take(k + 1) + h.skip(k + 1) =~= h);
                    assert(dropped@.reverse() =~= h.skip(k + 1));
                }
                history.reinstate(dropped);
                Err(e)
            },
        }
    }
}

/// The records of `v` in the opposite order.
pub fn reversed(v: &Vec<BlockRecord>) -> (out: Vec<BlockRecord>)
    ensures
        out@ == v@.reverse(),
{
    let mut out: Vec<BlockRecord> = Vec::new();
    let mut i: usize = v.len();
    while i > 0
        invariant
            0 <= i <= v.len(),
            out@.len() == v.len() - i,
            forall|j: int| 0 <= j < out@.len() ==> out@[j] == v@[v.len() - 1 - j],
        decreases i,
    {
        i = i - 1;
        out.push(v[i]);
    }
    assert(out@ =~= v@.reverse());
    out
}

/// A resolved reorg keeps the history up to the common ancestor as it
/// was, removes every block above the ancestor and puts the collected
/// blocks, oldest first, in their place. What comes out is a chain again.
pub proof fn lemma_reorg_replaces_suffix(h: Seq<BlockRecord>, c: Seq<BlockRecord>)
    requires
        is_chain(h),
        resolve_error(h, c) is None,
    ensures
        ({
            let k = ancestor_position(h, c);
            let r = resolved(h, c);
            &&& 0 <= k < h.len()
            &&& h[k].hash == c.last().parent_hash
            &&& r.len() == k + 1 + c.len()
            &&& r.take(k + 1) == h.take(k + 1)
            &&& r.skip(k + 1) == c.reverse()
            &&& is_chain(r)
        }),
{
    let k = ancestor_position(h, c);
    let r = resolved(h, c);
    let kept = h.take(k + 1);
    lemma_prefix_is_chain(h, k + 1);
    lemma_extend_keeps_chain(kept, c.reverse());
    assert(r.take(k + 1) =~= kept);
    assert(r.skip(k + 1) =~= c.reverse());
}

/// The blocks that a resolved reorg hands out for processing are exactly
/// the new canonical blocks: each of them is in the new history, none of
/// them twice, and none of them is a block of the part of the history that
/// stays. So no block is processed twice for one reorg, and none that stays
/// is processed again.
pub proof fn lemma_collected_blocks_are_new(h: Seq<BlockRecord>, c: Seq<BlockRecord>)
    requires
        is_chain(h),
        resolve_error(h, c) is None,
    ensures
        distinct_hashes(c.reverse()),
        forall|i: int|
            0 <= i < c.len() ==> contains_hash(resolved(h, c), (#[trigger] c.reverse()[i]).hash),
        forall|i: int|
            0 <= i < c.len() ==> !contains_hash(
                h.take(ancestor_position(h, c) + 1),
                (#[trigger] c.reverse()[i]).hash,
            ),
{
    let k = ancestor_position(h, c);
    let r = resolved(h, c);
    let p = c.reverse();
    lemma_reorg_replaces_suffix(h, c);
    assert forall|i: int, j: int| 0 <= i < j < p.len() implies (#[trigger] p[i]).hash != (
    #[trigger] p[j]).hash by {
        assert(r[k + 1 + i] == p[i]);
        assert(r[k + 1 + j] == p[j]);
    }
    assert forall|i: int| 0 <= i < c.len() implies contains_hash(r, (#[trigger] p[i]).hash) by {
        assert(r[k + 1 + i].hash == p[i].hash);
    }
    assert forall|i: int| 0 <= i < c.len() implies !contains_hash(
        h.take(k + 1),
        (#[trigger] p[i]).hash,
    ) by {
        if contains_hash(h.take(k + 1), p[i].hash) {
            let q = position_of(h.take(k + 1), p[i].hash);
            assert(r[q] == h.take(k + 1)[q]);
            assert(r[k + 1 + i] == p[i]);
            assert(r[q].hash != r[k + 1 + i].hash);
        }
    }
}

/// The depth guard: a walk never asks for a block, and is never resolved,
/// once it would hold more blocks than the history does.
pub proof fn lemma_depth_guard(h: Seq<BlockRecord>, c: Seq<BlockRecord>)
    ensures
        c.len() > h.len() ==> walk_step(h, c) == WalkStep::TooDeep,
        !contains_hash(h, c.last().parent_hash) && c.len() + 1 > h.len() ==> walk_step(h, c)
            == WalkStep::TooDeep,
        walk_step(h, c) is Fetch ==> c.len() + 1 <= h.len(),
        walk_step(h, c) == WalkStep::TooDeep ==> resolve_error(h, c) == Some(
            SyncError::ReorgTooDeep,
        ),
        resolve_error(h, c) is None ==> c.len() <= h.len(),
{
}

} // verus!
