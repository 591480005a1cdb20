//! What it means for a sequence of block records to be a chain, and the
//! facts about chains that the rest of the library is proved from.

use vstd::prelude::*;
use crate::block::BlockRecord;
use crate::error::SyncError;
use crate::hash::BlockHash;

verus! {

/// `child` sits directly on top of `parent`.
pub open spec fn linked(parent: BlockRecord, child: BlockRecord) -> bool {
    child.parent_hash == parent.hash && child.number == parent.number + 1
}

/// Every record names its predecessor as parent and is one higher.
pub open spec fn linear(s: Seq<BlockRecord>) -> bool {
    forall|i: int| 0 <= i < s.len() - 1 ==> linked(#[trigger] s[i], s[i + 1])
}

/// No hash occurs twice.
pub open spec fn distinct_hashes(s: Seq<BlockRecord>) -> bool {
    forall|i: int, j: int| 0 <= i < j < s.len() ==> (#[trigger] s[i]).hash != (#[trigger] s[j]).hash
}

/// Some record of `s` has hash `h`.
pub open spec fn contains_hash(s: Seq<BlockRecord>, h: BlockHash) -> bool {
    exists|i: int| 0 <= i < s.len() && (#[trigger] s[i]).hash == h
}

/// A position at which `h` occurs in `s`; the only one where hashes are
/// distinct. Meaningful where `contains_hash(s, h)`.
pub open spec fn position_of(s: Seq<BlockRecord>, h: BlockHash) -> int {
    choose|i: int| 0 <= i < s.len() && (#[trigger] s[i]).hash == h
}

/// The map from each hash of `s` to the number of its record.
pub open spec fn number_by_hash(s: Seq<BlockRecord>) -> Map<BlockHash, u64> {
    Map::new(|h: BlockHash| contains_hash(s, h), |h: BlockHash| s[position_of(s, h)].number)
}

/// A well-formed stretch of chain: linear and without repeated hashes.
pub open spec fn is_chain(s: Seq<BlockRecord>) -> bool {
    linear(s) && distinct_hashes(s)
}

/// Why `r` cannot be placed on top of `s`, or `None` where it can.
pub open spec fn append_error(s: Seq<BlockRecord>, r: BlockRecord) -> Option<SyncError> {
    if s.len() == 0 {
        Some(SyncError::EmptyHistory)
    } else if r.parent_hash != s.last().hash {
        Some(SyncError::ParentMismatch)
    } else if r.number != s.last().number + 1 {
        Some(SyncError::NumberGap)
    } else if contains_hash(s, r.hash) {
        Some(SyncError::DuplicateHash)
    } else {
        None
    }
}

/// Why `run` cannot be placed on top of `s` record by record: the error of
/// the first record that is refused, or `None` where all of them fit.
pub open spec fn extend_error(s: Seq<BlockRecord>, run: Seq<BlockRecord>) -> Option<SyncError>
    decreases run.len(),
{
    if run.len() == 0 {
        None
    } else {
        match append_error(s, run[0]) {
            Some(e) => Some(e),
            None => extend_error(s.push(run[0]), run.drop_first()),
        }
    }
}

/// In a chain without repeated hashes a hash is found at one position only.
pub proof fn lemma_position_unique(s: Seq<BlockRecord>, i: int)
    requires
        distinct_hashes(s),
        0 <= i < s.len(),
    ensures
        contains_hash(s, s[i].hash),
        position_of(s, s[i].hash) == i,
{
    let p = position_of(s, s[i].hash);
    assert(0 <= p < s.len() && s[p].hash == s[i].hash);
    if p < i {
        assert(s[p].hash != s[i].hash);
    } else if i < p {
        assert(s[i].hash != s[p].hash);
    }
}

/// Every prefix of a chain is a chain.
pub proof fn lemma_prefix_is_chain(s: Seq<BlockRecord>, n: int)
    requires
        is_chain(s),
        0 <= n <= s.len(),
    ensures
        is_chain(s.take(n)),
{
    let t = s.take(n);
    assert forall|i: int| 0 <= i < t.len() - 1 implies linked(#[trigger] t[i], t[i + 1]) by {
        assert(linked(s[i], s[i + 1]));
    }
    assert forall|i: int, j: int| 0 <= i < j < t.len() implies (#[trigger] t[i]).hash != (
    #[trigger] t[j]).hash by {
        assert(s[i].hash != s[j].hash);
    }
}

/// Under distinct hashes the index maps the hash of each record to that
/// record's number.
pub proof fn lemma_number_by_hash(s: Seq<BlockRecord>, i: int)
    requires
        distinct_hashes(s),
        0 <= i < s.len(),
    ensures
        number_by_hash(s).contains_key(s[i].hash),
        number_by_hash(s)[s[i].hash] == s[i].number,
{
    lemma_position_unique(s, i);
}

/// A record fits on a chain exactly where the longer sequence is a chain
/// again.
pub proof fn lemma_append_keeps_chain(s: Seq<BlockRecord>, r: BlockRecord)
    requires
        is_chain(s),
        s.len() > 0,
    ensures
        append_error(s, r) is None <==> is_chain(s.push(r)),
{
    let t = s.push(r);
    if append_error(s, r) is None {
        assert forall|i: int| 0 <= i < t.len() - 1 implies linked(#[trigger] t[i], t[i + 1]) by {
            if i < s.len() - 1 {
                assert(linked(s[i], s[i + 1]));
            }
        }
        assert forall|i: int, j: int| 0 <= i < j < t.len() implies (#[trigger] t[i]).hash != (
        #[trigger] t[j]).hash by {
            if j < s.len() {
                assert(s[i].hash != s[j].hash);
            } else {
                assert(s[i].hash == t[i].hash);
            }
        }
    }
    if is_chain(t) {
        assert(linked(t[s.len() - 1], t[s.len() - 1 + 1]));
        if contains_hash(s, r.hash) {
            let p = position_of(s, r.hash);
            assert(t[p].hash != t[s.len() as int].hash);
        }
    }
}

/// Placing a record with a fresh hash on top adds one entry to the index.
pub proof fn lemma_index_push(s: Seq<BlockRecord>, r: BlockRecord)
    requires
        distinct_hashes(s.push(r)),
    ensures
        number_by_hash(s.push(r)) == number_by_hash(s).insert(r.hash, r.number),
{
    let t = s.push(r);
    let a = number_by_hash(t);
    let b = number_by_hash(s).insert(r.hash, r.number);
    assert(distinct_hashes(s)) by {
        assert forall|i: int, j: int| 0 <= i < j < s.len() implies (#[trigger] s[i]).hash != (
        #[trigger] s[j]).hash by {
            assert(t[i].hash != t[j].hash);
        }
    }
    assert forall|h: BlockHash| a.contains_key(h) <==> b.contains_key(h) by {
        if contains_hash(t, h) {
            let p = position_of(t, h);
            if p < s.len() {
                assert(s[p].hash == h);
            }
        }
        if contains_hash(s, h) {
            let p = position_of(s, h);
            assert(t[p].hash == h);
        }
        if h == r.hash {
            assert(t[s.len() as int].hash == h);
        }
    }
    assert forall|h: BlockHash| a.contains_key(h) implies a[h] == b[h] by {
        let p = position_of(t, h);
        lemma_position_unique(t, p);
        lemma_number_by_hash(t, p);
        if p < s.len() {
            assert(s[p] == t[p]);
            lemma_position_unique(s, p);
            lemma_number_by_hash(s, p);
            assert(t[p].hash != t[s.len() as int].hash);
        }
    }
    assert(a =~= b);
}

/// Taking the last record off removes its entry from the index.
pub proof fn lemma_index_pop(s: Seq<BlockRecord>)
    requires
        distinct_hashes(s),
        s.len() > 0,
    ensures
        number_by_hash(s.drop_last()) == number_by_hash(s).remove(s.last().hash),
{
    let t = s.drop_last();
    assert(s == t.push(s.last()));
    lemma_index_push(t, s.last());
    assert(!contains_hash(t, s.last().hash)) by {
        if contains_hash(t, s.last().hash) {
            let p = position_of(t, s.last().hash);
            assert(s[p].hash != s[s.len() - 1].hash);
        }
    }
    assert(number_by_hash(t) =~= number_by_hash(s).remove(s.last().hash));
}

/// A run fits on a chain, record by record, exactly where the chain
/// followed by the run is a chain again.
pub proof fn lemma_extend_keeps_chain(s: Seq<BlockRecord>, run: Seq<BlockRecord>)
    requires
        is_chain(s),
    ensures
        extend_error(s, run) is None <==> run.len() == 0 || (s.len() > 0 && is_chain(s + run)),
    decreases run.len(),
{
    if run.len() == 0 {
    } else if s.len() == 0 {
    } else {
        let first = run[0];
        let rest = run.drop_first();
        let t = s.push(first);
        assert(t + rest =~= s + run);
        lemma_append_keeps_chain(s, first);
        if is_chain(s + run) {
            lemma_prefix_is_chain(s + run, t.len() as int);
            assert((s + run).take(t.len() as int) =~= t);
        }
        if append_error(s, first) is None {
            lemma_extend_keeps_chain(t, rest);
        }
    }
}

} // verus!
