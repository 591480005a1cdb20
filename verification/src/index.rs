//! The index from block hash to block number.

use vstd::prelude::*;
use std::collections::BTreeMap;
use crate::hash::BlockHash;

verus! {

broadcast use {vstd::std_specs::btree::group_btree_axioms, vstd::laws_cmp::group_laws_cmp};

/// An ordered map from block hash to block number.
pub struct HashIndex {
    map: BTreeMap<(u128, u128), u64>,
}

impl View for HashIndex {
    type V = Map<BlockHash, u64>;

    closed spec fn view(&self) -> Map<BlockHash, u64> {
        Map::new(
            |h: BlockHash| self.map@.contains_key((h.hi, h.lo)),
            |h: BlockHash| self.map@[(h.hi, h.lo)],
        )
    }
}

impl HashIndex {
    pub fn new() -> (index: HashIndex)
        ensures
            index@ == Map::<BlockHash, u64>::empty(),
    {
        let index = HashIndex { map: BTreeMap::new() };
        assert(index@ =~= Map::<BlockHash, u64>::empty());
        index
    }

    /// Maps `hash` to `number`, replacing what it was mapped to before.
    pub fn insert(&mut self, hash: BlockHash, number: u64)
        ensures
            final(self)@ == old(self)@.insert(hash, number),
    {
        self.map.insert((hash.hi, hash.lo), number);
        assert(self@ =~= old(self)@.insert(hash, number));
    }

    /// Forgets `hash`, if it was there.
    pub fn remove(&mut self, hash: &BlockHash)
        ensures
            final(self)@ == old(self)@.remove(*hash),
    {
        let key = (hash.hi, hash.lo);
        self.map.remove(&key);
        assert(self@ =~= old(self)@.remove(*hash));
    }

    pub fn get(&self, hash: &BlockHash) -> (number: Option<u64>)
        ensures
            number == (if self@.contains_key(*hash) {
                Some(self@[*hash])
            } else {
                None
            }),
    {
        let key = (hash.hi, hash.lo);
        match self.map.get(&key) {
            Some(n) => Some(*n),
            None => None,
        }
    }

    pub fn contains(&self, hash: &BlockHash) -> (present: bool)
        ensures
            present == self@.contains_key(*hash),
    {
        let key = (hash.hi, hash.lo);
        self.map.contains_key(&key)
    }
}

} // verus!
