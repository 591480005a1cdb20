//! The history of canonical blocks.

use vstd::prelude::*;
use crate::block::BlockRecord;
use crate::chain::{
    append_error, contains_hash, distinct_hashes, extend_error, is_chain, lemma_append_keeps_chain,
    lemma_index_pop, lemma_index_push, lemma_prefix_is_chain, linear, number_by_hash, position_of,
};
use crate::error::SyncError;
use crate::hash::BlockHash;
use crate::index::HashIndex;

verus! {

/// The recent canonical blocks, oldest first, with an index from hash to
/// number. The sequence is the truth; the index only mirrors it.
pub struct ChainHistory {
    records: Vec<BlockRecord>,
    index: HashIndex,
}

impl View for ChainHistory {
    type V = Seq<BlockRecord>;

    closed spec fn view(&self) -> Seq<BlockRecord> {
        self.records@
    }
}

impl ChainHistory {
    /// What the index holds.
    pub closed spec fn index(&self) -> Map<BlockHash, u64> {
        self.index@
    }

    /// The invariants of a history: each record sits on the one before it,
    /// no hash occurs twice, and the index holds exactly the hashes of the
    /// sequence, each with its number.
    pub open spec fn wf(&self) -> bool {
        &&& linear(self@)
        &&& distinct_hashes(self@)
        &&& self.index() == number_by_hash(self@)
    }

    pub fn new() -> (history: ChainHistory)
        ensures
            history.wf(),
            history@ == Seq::<BlockRecord>::empty(),
    {
        let history = ChainHistory { records: Vec::new(), index: HashIndex::new() };
        assert(history.index() =~= number_by_hash(history@));
        history
    }

    pub fn len(&self) -> (len: usize)
        ensures
            len == self@.len(),
    {
        self.records.len()
    }

    pub fn is_empty(&self) -> (empty: bool)
        ensures
            empty == (self@.len() == 0),
    {
        self.records.len() == 0
    }

    /// The most recent record, if there is one.
    pub fn tip(&self) -> (tip: Option<BlockRecord>)
        ensures
            tip == (if self@.len() == 0 {
                None
            } else {
                Some(self@.last())
            }),
    {
        let n = self.records.len();
        if n == 0 {
            None
        } else {
            Some(self.records[n - 1])
        }
    }

    /// The records, oldest first.
    pub fn records(&self) -> (records: &Vec<BlockRecord>)
        ensures
            records@ == self@,
    {
        &self.records
    }

    /// Whether a record with this hash is part of the history.
    pub fn contains(&self, hash: &BlockHash) -> (present: bool)
        requires
            self.wf(),
        ensures
            present == contains_hash(self@, *hash),
    {
        self.index.contains(hash)
    }

    /// The number of the record with this hash, looked up in the index.
    pub fn ancestor_depth(&self, hash: &BlockHash) -> (number: Option<u64>)
        requires
            self.wf(),
        ensures
            number == (if contains_hash(self@, *hash) {
                Some(self@[position_of(self@, *hash)].number)
            } else {
                None
            }),
    {
        self.index.get(hash)
    }

    /// Installs the first record. Only an empty history can be seeded.
    pub fn seed(&mut self, record: BlockRecord) -> (result: Result<(), SyncError>)
        requires
            old(self).wf(),
        ensures
            final(self).wf(),
            match result {
                Ok(()) => old(self)@.len() == 0 && final(self)@ == seq![record],
                Err(e) => old(self)@.len() > 0 && e == SyncError::AlreadySeeded && final(self)@
                    == old(self)@,
            },
    {
        if self.records.len() > 0 {
            return Err(SyncError::AlreadySeeded);
        }
        proof {
            assert(is_chain(self@.push(record)));
        }
        self.push_record(record);
        assert(self@ =~= seq![record]);
        Ok(())
    }

    /// Places `record` on the tip. It is refused, and the history left as
    /// it was, unless it names the tip as its parent, is one higher than
    /// the tip, and brings a hash that the history does not hold yet.
    pub fn append(&mut self, record: BlockRecord) -> (result: Result<(), SyncError>)
        requires
            old(self).wf(),
        ensures
            final(self).wf(),
            match result {
                Ok(()) => append_error(old(self)@, record) is None && final(self)@ == old(
                    self,
                )@.push(record),
                Err(e) => append_error(old(self)@, record) == Some(e) && final(self)@ == old(
                    self,
                )@,
            },
    {
        let n = self.records.len();
        if n == 0 {
            return Err(SyncError::EmptyHistory);
        }
        let tip = self.records[n - 1];
        if record.parent_hash != tip.hash {
            return Err(SyncError::ParentMismatch);
        }
        if tip.number == u64::MAX || record.number != tip.number + 1 {
            return Err(SyncError::NumberGap);
        }
        if self.index.contains(&record.hash) {
            return Err(SyncError::DuplicateHash);
        }
        proof {
            lemma_append_keeps_chain(self@, record);
        }
        self.push_record(record);
        Ok(())
    }

    /// Pops records off the tail until the one with hash `ancestor` is the
    /// tip, and hands back what was popped, most recent first. Where the
    /// history does not hold `ancestor`, nothing is popped.
    pub fn rollback_to(&mut self, ancestor: &BlockHash) -> (result: Result<
        Vec<BlockRecord>,
        SyncError,
    >)
        requires
            old(self).wf(),
        ensures
            final(self).wf(),
            match result {
                Ok(dropped) => {
                    &&& contains_hash(old(self)@, *ancestor)
                    &&& final(self)@ == old(self)@.take(position_of(old(self)@, *ancestor) + 1)
                    &&& dropped@ == old(self)@.skip(
                        position_of(old(self)@, *ancestor) + 1,
                    ).reverse()
                },
                Err(e) => {
                    &&& !contains_hash(old(self)@, *ancestor)
                    &&& e == SyncError::MissingAncestor
                    &&& final(self)@ == old(self)@
                },
            },
    {
        if !self.index.contains(ancestor) {
            return Err(SyncError::MissingAncestor);
        }
        let ghost before = self@;
        let ghost k = position_of(before, *ancestor);
        let mut dropped: Vec<BlockRecord> = Vec::new();
        while self.records[self.records.len() - 1].hash != *ancestor
            invariant
                self.wf(),
                is_chain(before),
                0 <= k < self@.len() <= before.len(),
                before[k].hash == *ancestor,
                self@ == before.take(self@.len() as int),
                dropped@ == before.skip(self@.len() as int).reverse(),
            decreases self@.len(),
        {
            let ghost n = self@.len() as int;
            assert(before[n - 1].hash != before[k].hash);
            let record = self.pop_record();
            dropped.push(record);
            assert(self@ =~= before.take(n - 1));
            assert(dropped@ =~= before.skip(n - 1).reverse());
        }
        proof {
            let n = self@.len() as int;
            if k < n - 1 {
                assert(before[k].hash != before[n - 1].hash);
            }
        }
        Ok(dropped)
    }

    /// Places a run of records on the tip, one after the other. Where one
    /// of them is refused, the history is left as it was before the call
    /// and the error of that record is returned.
    pub fn extend(&mut self, run: &Vec<BlockRecord>) -> (result: Result<(), SyncError>)
        requires
            old(self).wf(),
        ensures
            final(self).wf(),
            match result {
                Ok(()) => extend_error(old(self)@, run@) is None && final(self)@ == old(self)@
                    + run@,
                Err(e) => extend_error(old(self)@, run@) == Some(e) && final(self)@ == old(
                    self,
                )@,
            },
    {
        let ghost before = self@;
        let start = self.records.len();
        let mut i: usize = 0;
        assert(run@.skip(0) =~= run@);
        assert(self@ =~= before + run@.take(0));
        while i < run.len()
            invariant
                self.wf(),
                before == old(self)@,
                start == before.len(),
                0 <= i <= run.len(),
                self@ == before + run@.take(i as int),
                extend_error(before, run@) == extend_error(self@, run@.skip(i as int)),
            decreases run.len() - i,
        {
            let ghost tail = run@.skip(i as int);
            let ghost reached = self@;
            assert(tail[0] == run@[i as int]);
            assert(tail.drop_first() =~= run@.skip(i + 1));
            match self.append(run[i]) {
                Ok(()) => {
                    assert(extend_error(reached, tail) == extend_error(
                        reached.push(tail[0]),
                        tail.drop_first(),
                    ));
                    assert(self@ =~= before + run@.take(i + 1));
                },
                Err(e) => {
                    assert(extend_error(reached, tail) == Some(e));
                    self.truncate(start);
                    assert(self@ =~= before);
                    return Err(e);
                },
            }
            i = i + 1;
        }
        assert(run@.take(run@.len() as int) =~= run@);
        Ok(())
    }

    /// Pops records off the tail until `len` are left.
    pub(crate) fn truncate(&mut self, len: usize)
        requires
            old(self).wf(),
            len <= old(self)@.len(),
        ensures
            final(self).wf(),
            final(self)@ == old(self)@.take(len as int),
    {
        let ghost before = self@;
        while self.records.len() > len
            invariant
                self.wf(),
                len <= self@.len() <= before.len(),
                self@ == before.take(self@.len() as int),
            decreases self@.len(),
        {
            let ghost n = self@.len() as int;
            self.pop_record();
            assert(self@ =~= before.take(n - 1));
        }
    }

    /// Puts back what `rollback_to` popped: `dropped` holds the records most
    /// recent first, as it returned them.
    pub(crate) fn reinstate(&mut self, dropped: Vec<BlockRecord>)
        requires
            old(self).wf(),
            is_chain(old(self)@ + dropped@.reverse()),
        ensures
            final(self).wf(),
            final(self)@ == old(self)@ + dropped@.reverse(),
    {
        let ghost whole = self@ + dropped@.reverse();
        let ghost start = self@.len() as int;
        let mut rest = dropped;
        assert(self@ =~= whole.take(start));
        assert(rest@ =~= whole.skip(start).reverse());
        while rest.len() > 0
            invariant
                self.wf(),
                is_chain(whole),
                0 <= self@.len() <= whole.len(),
                self@ == whole.take(self@.len() as int),
                rest@ == whole.skip(self@.len() as int).reverse(),
            decreases rest.len(),
        {
            let ghost n = self@.len() as int;
            let record = rest.pop().unwrap();
            assert(record == whole[n]);
            proof {
                lemma_prefix_is_chain(whole, n + 1);
                assert(whole.take(n + 1) =~= self@.push(record));
            }
            self.push_record(record);
            assert(rest@ =~= whole.skip(n + 1).reverse());
        }
        assert(self@ =~= whole);
    }

    /// Places a record on the tail without testing it.
    pub(crate) fn push_record(&mut self, record: BlockRecord)
        requires
            old(self).wf(),
            is_chain(old(self)@.push(record)),
        ensures
            final(self).wf(),
            final(self)@ == old(self)@.push(record),
    {
        proof {
            lemma_index_push(self@, record);
        }
        self.records.push(record);
        self.index.insert(record.hash, record.number);
    }

    /// Takes the last record off the tail.
    pub(crate) fn pop_record(&mut self) -> (record: BlockRecord)
        requires
            old(self).wf(),
            old(self)@.len() > 0,
        ensures
            final(self).wf(),
            final(self)@ == old(self)@.drop_last(),
            record == old(self)@.last(),
    {
        proof {
            lemma_index_pop(self@);
            lemma_prefix_is_chain(self@, self@.len() - 1);
        }
        let record = self.records.pop().unwrap();
        self.index.remove(&record.hash);
        assert(self@ =~= old(self)@.take(old(self)@.len() - 1));
        record
    }
}

} // verus!
