use vinyl::block::BlockRecord;
use vinyl::error::SyncError;
use vinyl::hash::BlockHash;
use vinyl::history::ChainHistory;
use vinyl::reorg::{reversed, ReorgResolver, WalkStep};

fn hash(n: u128) -> BlockHash {
    BlockHash::new(0, n)
}

fn block(h: u128, number: u64, parent: u128) -> BlockRecord {
    BlockRecord::new(hash(h), number, hash(parent))
}

fn chain(first_number: u64, hashes: &[u128]) -> ChainHistory {
    let mut history = ChainHistory::new();
    history.seed(block(hashes[0], first_number, 0xFFFF)).unwrap();
    for i in 1..hashes.len() {
        history.append(block(hashes[i], first_number + i as u64, hashes[i - 1])).unwrap();
    }
    history
}

#[test]
fn walk_is_ready_when_the_parent_is_known() {
    let history = chain(100, &[0xA, 0xB]);
    let resolver = ReorgResolver::new(block(0xC, 101, 0xA));
    assert_eq!(resolver.len(), 1);
    assert_eq!(resolver.frontier(), block(0xC, 101, 0xA));
    assert_eq!(resolver.next_step(&history), WalkStep::Ready);
}

#[test]
fn walk_asks_for_the_unknown_parent() {
    let history = chain(100, &[0xA, 0xB, 0xC]);
    let resolver = ReorgResolver::new(block(0xD, 102, 0x58));
    assert_eq!(resolver.next_step(&history), WalkStep::Fetch(hash(0x58)));
}

#[test]
fn walk_gives_up_when_it_would_outgrow_the_history() {
    let history = chain(100, &[0xA, 0xB]);
    let mut resolver = ReorgResolver::new(block(0xD, 103, 0x53));
    assert_eq!(resolver.next_step(&history), WalkStep::Fetch(hash(0x53)));
    resolver.supply(block(0x53, 102, 0x52)).unwrap();
    assert_eq!(resolver.next_step(&history), WalkStep::TooDeep);
    let single = chain(100, &[0xA]);
    let fresh = ReorgResolver::new(block(0xD, 103, 0x53));
    assert_eq!(fresh.next_step(&single), WalkStep::TooDeep);
    let empty = ChainHistory::new();
    assert_eq!(fresh.next_step(&empty), WalkStep::TooDeep);
}

#[test]
fn walk_with_more_blocks_than_the_history_is_too_deep_even_at_a_known_parent() {
    let history = chain(100, &[0xA, 0xB]);
    let mut resolver = ReorgResolver::new(block(0x13, 103, 0x12));
    resolver.supply(block(0x12, 102, 0x11)).unwrap();
    resolver.supply(block(0x11, 101, 0xA)).unwrap();
    assert_eq!(resolver.len(), 3);
    assert_eq!(resolver.next_step(&history), WalkStep::TooDeep);
    let mut history = history;
    assert_eq!(resolver.resolve(&mut history), Err(SyncError::ReorgTooDeep));
    assert_eq!(history.records(), chain(100, &[0xA, 0xB]).records());
}

#[test]
fn supply_takes_the_parent_asked_for() {
    let mut resolver = ReorgResolver::new(block(0xD, 102, 0x58));
    assert_eq!(resolver.supply(block(0x58, 101, 0xA)), Ok(()));
    assert_eq!(resolver.len(), 2);
    assert_eq!(resolver.frontier(), block(0x58, 101, 0xA));
}

#[test]
fn supply_refuses_another_block() {
    let mut resolver = ReorgResolver::new(block(0xD, 102, 0x58));
    assert_eq!(resolver.supply(block(0x59, 101, 0xA)), Err(SyncError::ParentMismatch));
    assert_eq!(resolver.len(), 1);
    assert_eq!(resolver.frontier(), block(0xD, 102, 0x58));
}

#[test]
fn supply_refuses_a_parent_of_the_wrong_height() {
    let mut resolver = ReorgResolver::new(block(0xD, 102, 0x58));
    assert_eq!(resolver.supply(block(0x58, 100, 0xA)), Err(SyncError::NumberGap));
    assert_eq!(resolver.supply(block(0x58, 102, 0xA)), Err(SyncError::NumberGap));
    assert_eq!(resolver.supply(block(0x58, u64::MAX, 0xA)), Err(SyncError::NumberGap));
    assert_eq!(resolver.len(), 1);
}

#[test]
fn resolve_replaces_the_stale_suffix() {
    let mut history = chain(1, &[0x1, 0x2, 0x3, 0x4, 0x5]);
    let mut resolver = ReorgResolver::new(block(0x16, 6, 0x15));
    assert_eq!(resolver.next_step(&history), WalkStep::Fetch(hash(0x15)));
    resolver.supply(block(0x15, 5, 0x14)).unwrap();
    assert_eq!(resolver.next_step(&history), WalkStep::Fetch(hash(0x14)));
    resolver.supply(block(0x14, 4, 0x3)).unwrap();
    assert_eq!(resolver.next_step(&history), WalkStep::Ready);
    let processed = resolver.resolve(&mut history).unwrap();
    let fresh = vec![block(0x14, 4, 0x3), block(0x15, 5, 0x14), block(0x16, 6, 0x15)];
    assert_eq!(processed, fresh);
    assert_eq!(
        history.records(),
        &vec![
            block(0x1, 1, 0xFFFF),
            block(0x2, 2, 0x1),
            block(0x3, 3, 0x2),
            block(0x14, 4, 0x3),
            block(0x15, 5, 0x14),
            block(0x16, 6, 0x15)
        ]
    );
    assert_eq!(history.ancestor_depth(&hash(0x4)), None);
    assert_eq!(history.ancestor_depth(&hash(0x5)), None);
    assert_eq!(history.ancestor_depth(&hash(0x15)), Some(5));
}

#[test]
fn resolve_before_the_ancestor_is_found_is_refused() {
    let mut history = chain(100, &[0xA, 0xB, 0xC]);
    let resolver = ReorgResolver::new(block(0xD, 102, 0x58));
    assert_eq!(resolver.resolve(&mut history), Err(SyncError::MissingAncestor));
    assert_eq!(history.records(), chain(100, &[0xA, 0xB, 0xC]).records());
}

#[test]
fn resolve_checks_the_height_above_the_ancestor() {
    let mut history = chain(100, &[0xA, 0xB, 0xC]);
    let resolver = ReorgResolver::new(block(0xD, 103, 0xA));
    assert_eq!(resolver.resolve(&mut history), Err(SyncError::AncestorMismatch));
    assert_eq!(history.records(), chain(100, &[0xA, 0xB, 0xC]).records());
    let mut top = ChainHistory::new();
    top.seed(block(0xA, u64::MAX, 0x5A)).unwrap();
    let resolver = ReorgResolver::new(block(0xD, 0, 0xA));
    assert_eq!(resolver.resolve(&mut top), Err(SyncError::AncestorMismatch));
}

#[test]
fn resolve_refuses_a_hash_of_the_part_that_stays() {
    let mut history = chain(100, &[0xA, 0xB, 0xC]);
    let resolver = ReorgResolver::new(block(0xA, 102, 0xB));
    assert_eq!(resolver.resolve(&mut history), Err(SyncError::DuplicateHash));
    assert_eq!(history.records(), chain(100, &[0xA, 0xB, 0xC]).records());
    assert_eq!(history.ancestor_depth(&hash(0xC)), Some(102));
    assert_eq!(history.ancestor_depth(&hash(0xA)), Some(100));
}

#[test]
fn resolve_refuses_a_walk_that_meets_a_hash_twice() {
    let mut history = chain(100, &[0xA, 0xB, 0xC, 0xD]);
    let mut resolver = ReorgResolver::new(block(0x20, 103, 0x21));
    resolver.supply(block(0x21, 102, 0x20)).unwrap();
    resolver.supply(block(0x20, 101, 0xA)).unwrap();
    assert_eq!(resolver.next_step(&history), WalkStep::Ready);
    assert_eq!(resolver.resolve(&mut history), Err(SyncError::DuplicateHash));
    assert_eq!(history.records(), chain(100, &[0xA, 0xB, 0xC, 0xD]).records());
    assert_eq!(history.ancestor_depth(&hash(0xD)), Some(103));
    assert_eq!(history.ancestor_depth(&hash(0x20)), None);
}

#[test]
fn resolve_takes_back_a_block_that_was_dropped() {
    let mut history = chain(100, &[0xA, 0xB, 0xC]);
    let resolver = ReorgResolver::new(block(0xB, 101, 0xA));
    assert_eq!(resolver.resolve(&mut history), Ok(vec![block(0xB, 101, 0xA)]));
    assert_eq!(history.records(), chain(100, &[0xA, 0xB]).records());
}

#[test]
fn reversed_turns_a_list_around() {
    let list = vec![block(1, 1, 0), block(2, 2, 1), block(3, 3, 2)];
    assert_eq!(reversed(&list), vec![block(3, 3, 2), block(2, 2, 1), block(1, 1, 0)]);
    assert_eq!(reversed(&vec![]), vec![]);
}
